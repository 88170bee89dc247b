//! The shared grid: its size, its byte layout and validated paint requests.

use vstd::prelude::*;
use crate::color::{BYTES_PER_PIXEL, char_from_ascii, is_canonical_color, normalize_color, normalized, normalized_is_idempotent};
use crate::errors::PixelError;
use crate::text::{decimal, push_decimal};

verus! {

pub const WIDTH: usize = 200;
pub const HEIGHT: usize = 200;
/// Length of the canvas text: `WIDTH * HEIGHT` cells of `rrggbb`.
pub const CANVAS_LEN: usize = 240_000;

/// Index of the first byte of cell `(x, y)` in the canvas text.
pub open spec fn offset(x: int, y: int) -> int {
    (y * WIDTH + x) * BYTES_PER_PIXEL
}

pub proof fn lemma_offset_in_range(x: int, y: int)
    requires
        0 <= x < WIDTH,
        0 <= y < HEIGHT,
    ensures
        0 <= offset(x, y),
        offset(x, y) + BYTES_PER_PIXEL <= CANVAS_LEN,
        offset(x, y) % (BYTES_PER_PIXEL as int) == 0,
{
    assert(0 <= y * WIDTH + x < WIDTH * HEIGHT) by (nonlinear_arith)
        requires
            0 <= x < WIDTH,
            0 <= y < HEIGHT,
    ;
    assert(offset(x, y) % (BYTES_PER_PIXEL as int) == 0) by (nonlinear_arith)
        requires
            offset(x, y) == (y * WIDTH + x) * BYTES_PER_PIXEL,
    ;
}

/// Distinct cells occupy disjoint byte ranges.
pub proof fn lemma_offsets_disjoint(x1: int, y1: int, x2: int, y2: int)
    requires
        0 <= x1 < WIDTH,
        0 <= y1 < HEIGHT,
        0 <= x2 < WIDTH,
        0 <= y2 < HEIGHT,
        x1 != x2 || y1 != y2,
    ensures
        offset(x1, y1) + BYTES_PER_PIXEL <= offset(x2, y2) || offset(x2, y2) + BYTES_PER_PIXEL
            <= offset(x1, y1),
{
    let c1 = y1 * WIDTH + x1;
    let c2 = y2 * WIDTH + x2;
    assert(c1 != c2) by (nonlinear_arith)
        requires
            c1 == y1 * WIDTH + x1,
            c2 == y2 * WIDTH + x2,
            0 <= x1 < WIDTH,
            0 <= x2 < WIDTH,
            x1 != x2 || y1 != y2,
    ;
    assert(offset(x1, y1) == c1 * 6 && offset(x2, y2) == c2 * 6);
}

/// The white canvas: `ffffff` in every cell.
pub open spec fn blank() -> Seq<u8> {
    Seq::new(CANVAS_LEN as nat, |i: int| 0x66u8)
}

/// The six bytes of cell `(x, y)`.
pub open spec fn cell(canvas: Seq<u8>, x: int, y: int) -> Seq<u8> {
    canvas.subrange(offset(x, y), offset(x, y) + BYTES_PER_PIXEL)
}

/// ASCII text as bytes.
pub open spec fn ascii_bytes(s: Seq<char>) -> Seq<u8> {
    s.map_values(|c: char| c as u8)
}

/// Bytes as ASCII text.
pub open spec fn ascii_text(b: Seq<u8>) -> Seq<char> {
    b.map_values(|u: u8| u as char)
}

/// `canvas` with the cell at byte `off` overwritten by `color`.
pub open spec fn painted(canvas: Seq<u8>, off: int, color: Seq<char>) -> Seq<u8> {
    Seq::new(
        canvas.len(),
        |i: int|
            if off <= i < off + BYTES_PER_PIXEL {
                color[i - off] as u8
            } else {
                canvas[i]
            },
    )
}

/// Every cell holds a canonical colour (six lower-case hex digits).
pub open spec fn well_formed_canvas(canvas: Seq<u8>) -> bool {
    &&& canvas.len() == CANVAS_LEN
    &&& forall|i: int|
        0 <= i < canvas.len() ==> (0x30 <= #[trigger] canvas[i] <= 0x39 || 0x61 <= canvas[i]
            <= 0x66)
}

pub proof fn lemma_blank_well_formed()
    ensures
        well_formed_canvas(blank()),
{
}

/// A white canvas.
pub fn blank_canvas() -> (v: Vec<u8>)
    ensures
        v@ == blank(),
{
    let mut v: Vec<u8> = Vec::new();
    let mut i: usize = 0;
    while i < CANVAS_LEN
        invariant
            i <= CANVAS_LEN,
            v@ == Seq::new(i as nat, |k: int| 0x66u8),
        decreases CANVAS_LEN - i,
    {
        v.push(0x66u8);
        i = i + 1;
        assert(v@ =~= Seq::new(i as nat, |k: int| 0x66u8));
    }
    v
}

/// A validated paint request: cell in range and colour in canonical form.
#[derive(Debug)]
pub struct Paint {
    pub x: usize,
    pub y: usize,
    pub color: String,
}

impl Paint {
    pub open spec fn valid(&self) -> bool {
        &&& self.x < WIDTH
        &&& self.y < HEIGHT
        &&& is_canonical_color(self.color@)
    }

    /// Byte offset of the painted cell in the canvas text.
    pub fn offset(&self) -> (off: usize)
        requires
            self.valid(),
        ensures
            off == offset(self.x as int, self.y as int),
            off + BYTES_PER_PIXEL <= CANVAS_LEN,
    {
        proof {
            lemma_offset_in_range(self.x as int, self.y as int);
        }
        (self.y * WIDTH + self.x) * BYTES_PER_PIXEL
    }
}

/// Validate a paint request: the cell must lie on the canvas and the colour
/// must normalise. Out-of-range coordinates are reported before a bad colour.
pub fn check_pixel(x: usize, y: usize, color: &str) -> (r: Result<Paint, PixelError>)
    ensures
        match r {
            Ok(p) => {
                &&& x < WIDTH && y < HEIGHT
                &&& p.x == x && p.y == y
                &&& normalized(color@) == Some(p.color@)
                &&& p.valid()
            },
            Err(PixelError::OutOfBounds { x: ex, y: ey, width, height }) => {
                &&& x >= WIDTH || y >= HEIGHT
                &&& ex == x && ey == y && width == WIDTH && height == HEIGHT
            },
            Err(PixelError::InvalidColor(c)) => {
                &&& x < WIDTH && y < HEIGHT
                &&& normalized(color@) is None
                &&& c@ == color@
            },
        },
{
    if x >= WIDTH || y >= HEIGHT {
        return Err(PixelError::OutOfBounds { x, y, width: WIDTH, height: HEIGHT });
    }
    match normalize_color(color) {
        Some(c) => {
            proof {
                normalized_is_idempotent(color@);
            }
            Ok(Paint { x, y, color: c })
        },
        None => Err(PixelError::InvalidColor(color.to_owned())),
    }
}

/// The JSON object for one cell update, given the colour's JSON string
/// literal: `{"x":X,"y":Y,"color":C}`.
pub open spec fn event_text(x: nat, y: nat, color_literal: Seq<char>) -> Seq<char> {
    "{\"x\":"@ + decimal(x) + ",\"y\":"@ + decimal(y) + ",\"color\":"@ + color_literal + "}"@
}

/// `s` between double quotes.
pub open spec fn quoted(s: Seq<char>) -> Seq<char> {
    seq!['"'] + s + seq!['"']
}

pub fn event_payload(p: &Paint) -> (s: String)
    ensures
        s@ == event_text(p.x as nat, p.y as nat, quoted(p.color@)),
{
    let mut s = String::new();
    s.append("{\"x\":");
    push_decimal(&mut s, p.x as u64);
    s.append(",\"y\":");
    push_decimal(&mut s, p.y as u64);
    s.append(",\"color\":");
    s.push('"');
    s.append(p.color.as_str());
    s.push('"');
    s.append("}");
    assert(s@ =~= event_text(p.x as nat, p.y as nat, quoted(p.color@)));
    s
}

/// Overwrite the painted cell of `canvas` with the request's colour.
pub fn write_cell(canvas: &mut Vec<u8>, p: &Paint)
    requires
        p.valid(),
        old(canvas)@.len() == CANVAS_LEN,
    ensures
        final(canvas)@ == painted(old(canvas)@, offset(p.x as int, p.y as int), p.color@),
{
    let off = p.offset();
    let cs = crate::text::chars_of(p.color.as_str());
    let mut k: usize = 0;
    while k < BYTES_PER_PIXEL
        invariant
            off == offset(p.x as int, p.y as int),
            off + BYTES_PER_PIXEL <= CANVAS_LEN,
            cs@ == p.color@,
            cs@.len() == BYTES_PER_PIXEL,
            k <= BYTES_PER_PIXEL,
            canvas@.len() == CANVAS_LEN,
            forall|i: int|
                0 <= i < CANVAS_LEN ==> #[trigger] canvas@[i] == (if off <= i < off + k {
                    cs@[i - off] as u8
                } else {
                    old(canvas)@[i]
                }),
        decreases BYTES_PER_PIXEL - k,
    {
        let b = cs[k] as u8;
        canvas.set(off + k, b);
        k = k + 1;
    }
    assert(canvas@ =~= painted(old(canvas)@, off as int, p.color@));
}

/// The canvas as text, one character per byte.
pub fn canvas_text(canvas: &Vec<u8>) -> (s: String)
    requires
        forall|i: int| 0 <= i < canvas@.len() ==> #[trigger] canvas@[i] < 0x80,
    ensures
        s@ == ascii_text(canvas@),
{
    let mut s = String::new();
    let mut i: usize = 0;
    while i < canvas.len()
        invariant
            i <= canvas@.len(),
            forall|j: int| 0 <= j < canvas@.len() ==> #[trigger] canvas@[j] < 0x80,
            s@ == ascii_text(canvas@.subrange(0, i as int)),
        decreases canvas@.len() - i,
    {
        let c = char_from_ascii(canvas[i] as u32);
        s.push(c);
        i = i + 1;
        assert(ascii_text(canvas@.subrange(0, i as int)) =~= ascii_text(
            canvas@.subrange(0, i - 1),
        ).push(c));
    }
    assert(canvas@.subrange(0, canvas@.len() as int) =~= canvas@);
    s
}

} // verus!
