//! The image-pushing client's own logic: colour text, alpha handling,
//! player names and token bookkeeping.

use vstd::prelude::*;
use std::sync::atomic::AtomicU64;
use crate::color::{char_from_ascii, strip_hashes, trim, trimmed_color_bounds};
use crate::events::hex_lower;
use crate::text::{chars_of, string_of};

verus! {

/// Two lower-case hex digits of a byte (`{:02x}`).
pub open spec fn hex2(b: u8) -> Seq<char> {
    seq![hex_lower((b / 16) as int), hex_lower((b % 16) as int)]
}

/// `rrggbb` for a colour.
pub open spec fn hex_text(c: [u8; 3]) -> Seq<char> {
    hex2(c[0]) + hex2(c[1]) + hex2(c[2])
}

pub fn hex_digit(d: u32) -> (c: char)
    requires
        d < 16,
    ensures
        c == hex_lower(d as int),
{
    if d < 10 {
        char_from_ascii(d + 48)
    } else {
        char_from_ascii(d - 10 + 97)
    }
}

fn push_hex2(out: &mut String, b: u8)
    ensures
        final(out)@ == old(out)@ + hex2(b),
{
    out.push(hex_digit((b / 16) as u32));
    out.push(hex_digit((b % 16) as u32));
    assert(final(out)@ =~= old(out)@ + hex2(b));
}

/// A colour as `rrggbb` (lower-case hex).
pub fn to_hex(c: [u8; 3]) -> (s: String)
    ensures
        s@ == hex_text(c),
{
    let mut s = String::new();
    push_hex2(&mut s, c[0]);
    push_hex2(&mut s, c[1]);
    push_hex2(&mut s, c[2]);
    assert(s@ =~= hex_text(c));
    s
}

/// The last `k` hex digits of `m`, zero-padded.
pub open spec fn hex_digits(m: nat, k: nat) -> Seq<char>
    decreases k,
{
    if k == 0 {
        Seq::empty()
    } else {
        hex_digits(m / 16, (k - 1) as nat).push(hex_lower((m % 16) as int))
    }
}

fn push_hex_digits(out: &mut String, m: u32, k: u32)
    ensures
        final(out)@ == old(out)@ + hex_digits(m as nat, k as nat),
    decreases k,
{
    if k > 0 {
        push_hex_digits(out, m / 16, k - 1);
        out.push(hex_digit(m % 16));
        proof {
            assert(hex_digits(m as nat, k as nat) == hex_digits((m / 16) as nat, (k - 1) as nat).push(
                hex_lower((m % 16) as int),
            ));
            assert(final(out)@ =~= old(out)@ + hex_digits(m as nat, k as nat));
        }
    } else {
        assert(final(out)@ =~= old(out)@ + hex_digits(m as nat, k as nat));
    }
}

/// The name a client registers under: `pixelpush-` and eight hex digits.
pub open spec fn pseudo_text(mixed: u32) -> Seq<char> {
    "pixelpush-"@ + hex_digits(mixed as nat, 8)
}

/// The 32 bits that name a registration: the clock's nanoseconds mixed with
/// a per-process counter (golden-ratio multiplier).
pub open spec fn pseudo_mix(nanos: u64, n: u64) -> u32 {
    (nanos ^ vstd::wrapping::u64_specs::wrapping_mul(n, 0x9E3779B97F4A7C15u64)) as u32
}

pub fn pseudo_name(nanos: u64, n: u64) -> (s: String)
    ensures
        s@ == pseudo_text(pseudo_mix(nanos, n)),
{
    let mixed = (nanos ^ n.wrapping_mul(0x9E3779B97F4A7C15u64)) as u32;
    let mut s = "pixelpush-".to_owned();
    push_hex_digits(&mut s, mixed, 8);
    s
}

/// Take the next value of a process-wide counter.
fn next_count(counter: &AtomicU64) -> u64 {
    counter.fetch_add(1, std::sync::atomic::Ordering::Relaxed)
}

/// A distinct, valid player name for an auto-registered token.
pub fn random_pseudo(counter: &AtomicU64) -> (s: String)
    ensures
        exists|nanos: u64, n: u64| s@ == pseudo_text(pseudo_mix(nanos, n)),
{
    let nanos = match crate::clock::unix_nanos() {
        Some(t) => t,
        None => 0,
    };
    let n = next_count(counter);
    pseudo_name(nanos, n)
}

/// Whole seconds since the Unix epoch, 0 if the clock reads before it.
pub fn now_secs() -> u64 {
    crate::clock::unsigned_secs_or_zero(crate::clock::unix_secs())
}

/// `value * 255 / alpha`, capped at 255; `None` for a transparent pixel.
pub fn unpremultiply_channel(value: u8, alpha: u16) -> (r: Option<u8>)
    ensures
        r == if alpha == 0 {
            None
        } else {
            let v = value * 255 / alpha as int;
            Some(if v > 255 {
                255u8
            } else {
                v as u8
            })
        },
{
    let scaled: u16 = value as u16 * 255;
    if alpha == 0 {
        return None;
    }
    let v = scaled / alpha;
    Some(
        if v > 255 {
            255
        } else {
            v as u8
        },
    )
}

/// One channel of `fg` over `bg` at opacity `a` (0..=255), in sRGB values.
pub open spec fn blend(fg: u8, bg: u8, a: u8) -> int {
    (fg * a + bg * (255 - a)) / 255
}

proof fn lemma_blend_bound(fg: u8, bg: u8, a: u8)
    ensures
        0 <= blend(fg, bg, a) <= 255,
        fg * a + bg * (255 - a) <= 65025,
{
    assert(fg * a + bg * (255 - a) <= 255 * a + 255 * (255 - a)) by (nonlinear_arith)
        requires
            fg <= 255,
            bg <= 255,
            a <= 255,
    ;
    assert(0 <= fg * a + bg * (255 - a)) by (nonlinear_arith)
        requires
            a <= 255,
    ;
}

/// Alpha-composite an RGBA pixel over `bg` directly on the 0-255 values.
pub fn composite_srgb(p: [u8; 4], bg: [u8; 3]) -> (c: [u8; 3])
    ensures
        c[0] == blend(p[0], bg[0], p[3]),
        c[1] == blend(p[1], bg[1], p[3]),
        c[2] == blend(p[2], bg[2], p[3]),
{
    let a = p[3] as u32;
    proof {
        lemma_blend_bound(p[0], bg[0], p[3]);
        lemma_blend_bound(p[1], bg[1], p[3]);
        lemma_blend_bound(p[2], bg[2], p[3]);
    }
    let r = ((p[0] as u32 * a + bg[0] as u32 * (255 - a)) / 255) as u8;
    let g = ((p[1] as u32 * a + bg[1] as u32 * (255 - a)) / 255) as u8;
    let b = ((p[2] as u32 * a + bg[2] as u32 * (255 - a)) / 255) as u8;
    [r, g, b]
}


/// Value of an ASCII hex digit byte (either case).
pub open spec fn digit_value(b: u8) -> Option<u8> {
    if 0x30 <= b <= 0x39 {
        Some((b - 0x30) as u8)
    } else if 0x61 <= b <= 0x66 {
        Some((b - 0x61 + 10) as u8)
    } else if 0x41 <= b <= 0x46 {
        Some((b - 0x41 + 10) as u8)
    } else {
        None
    }
}

/// `u8::from_str_radix` in base 16 on a two-byte text: an optional `+`
/// sign, then hex digits only.
pub open spec fn radix16_pair(b0: u8, b1: u8) -> Option<u8> {
    if b0 == 0x2b {
        digit_value(b1)
    } else {
        match (digit_value(b0), digit_value(b1)) {
            (Some(h), Some(l)) => Some((h * 16 + l) as u8),
            _ => None,
        }
    }
}

/// The colour text that `parse_hex` reads: trimmed, leading `#`s dropped.
pub open spec fn hex_body(s: Seq<char>) -> Seq<char> {
    strip_hashes(trim(s))
}

/// Slicing the body at bytes 2 and 4 would cut a character in two.
pub open spec fn hex_split_panics(s: Seq<char>) -> bool {
    let b = vstd::utf8::encode_utf8(hex_body(s));
    b.len() == 6 && !(vstd::utf8::is_char_boundary(b, 2) && vstd::utf8::is_char_boundary(b, 4))
}

/// The colour that `s` denotes: a body of exactly six bytes whose three
/// pairs each parse as a base-16 byte.
pub open spec fn hex_value(s: Seq<char>) -> Option<Seq<u8>> {
    let b = vstd::utf8::encode_utf8(hex_body(s));
    if b.len() != 6 {
        None
    } else {
        match (radix16_pair(b[0], b[1]), radix16_pair(b[2], b[3]), radix16_pair(b[4], b[5])) {
            (Some(r), Some(g), Some(bl)) => Some(seq![r, g, bl]),
            _ => None,
        }
    }
}

/// The error text for an unreadable colour.
pub open spec fn bad_hex_message(body: Seq<char>) -> Seq<char> {
    "bad hex colour: '"@ + body + "'"@
}

fn digit_value_of(b: u8) -> (r: Option<u8>)
    ensures
        r == digit_value(b),
{
    if 0x30 <= b && b <= 0x39 {
        Some(b - 0x30)
    } else if 0x61 <= b && b <= 0x66 {
        Some(b - 0x61 + 10)
    } else if 0x41 <= b && b <= 0x46 {
        Some(b - 0x41 + 10)
    } else {
        None
    }
}

fn parse_pair(b0: u8, b1: u8) -> (r: Option<u8>)
    ensures
        r == radix16_pair(b0, b1),
{
    if b0 == 0x2b {
        return digit_value_of(b1);
    }
    match (digit_value_of(b0), digit_value_of(b1)) {
        (Some(h), Some(l)) => Some(h * 16 + l),
        _ => None,
    }
}

/// The trimmed, `#`-stripped body of a colour text.
fn hex_body_of(s: &str) -> (t: String)
    ensures
        t@ == hex_body(s@),
{
    let cs = chars_of(s);
    let (lo, hi) = trimmed_color_bounds(&cs);
    string_of(&cs, lo, hi)
}

/// Whether `parse_hex` would cut a character in two (and so panic).
pub fn hex_split_would_panic(s: &str) -> (b: bool)
    ensures
        b == hex_split_panics(s@),
{
    let t = hex_body_of(s);
    let ts = t.as_str();
    ts.as_bytes().len() == 6 && !(ts.is_char_boundary(2) && ts.is_char_boundary(4))
}

/// Parse `rrggbb` (with or without `#`, surrounding white space allowed).
pub fn parse_hex(s: &str) -> (r: Result<[u8; 3], String>)
    requires
        !hex_split_panics(s@),
    ensures
        match r {
            Ok(c) => hex_value(s@) == Some(seq![c[0], c[1], c[2]]),
            Err(m) => hex_value(s@) is None && m@ == bad_hex_message(hex_body(s@)),
        },
{
    let t = hex_body_of(s);
    let b = t.as_str().as_bytes();
    if b.len() != 6 {
        return Err(bad_hex(&t));
    }
    let r = parse_pair(b[0], b[1]);
    let g = parse_pair(b[2], b[3]);
    let bl = parse_pair(b[4], b[5]);
    match (r, g, bl) {
        (Some(r), Some(g), Some(bl)) => Ok([r, g, bl]),
        _ => Err(bad_hex(&t)),
    }
}

fn bad_hex(body: &String) -> (m: String)
    ensures
        m@ == bad_hex_message(body@),
{
    let mut m = "bad hex colour: '".to_owned();
    m.append(body.as_str());
    m.append("'");
    m
}

/// RGBA pixels with each colour channel scaled by the pixel's alpha.
pub open spec fn premultiplied(px: Seq<u8>) -> Seq<u8> {
    Seq::new(
        px.len(),
        |i: int|
            if i % 4 == 3 {
                px[i]
            } else {
                (px[i] * px[i - i % 4 + 3] / 255) as u8
            },
    )
}

/// RGBA pixels with the alpha scaling undone (capped at 255); fully
/// transparent pixels are left as they are.
pub open spec fn unpremultiplied(px: Seq<u8>) -> Seq<u8> {
    Seq::new(
        px.len(),
        |i: int|
            {
                let a = px[i - i % 4 + 3];
                if i % 4 == 3 || a == 0 {
                    px[i]
                } else {
                    let v = px[i] * 255 / a as int;
                    if v > 255 {
                        255u8
                    } else {
                        v as u8
                    }
                }
            },
    )
}

proof fn lemma_scaled_fits(v: u8, a: u8)
    ensures
        v * a <= 65025,
        v * a / 255 <= 255,
        0 <= v * a,
{
    assert(v * a <= 255 * 255) by (nonlinear_arith)
        requires
            v <= 255,
            a <= 255,
    ;
    assert(0 <= v * a) by (nonlinear_arith);
}

/// Scale each pixel's colour by its alpha, so that resizing does not bleed
/// the colour of transparent pixels into their neighbours.
pub fn premultiply(px: &mut Vec<u8>)
    requires
        old(px)@.len() % 4 == 0,
    ensures
        final(px)@ == premultiplied(old(px)@),
{
    let n = px.len();
    let mut k: usize = 0;
    while k < n
        invariant
            n == px@.len(),
            n == old(px)@.len(),
            n % 4 == 0,
            k % 4 == 0,
            k <= n,
            forall|i: int| 0 <= i < k ==> #[trigger] px@[i] == premultiplied(old(px)@)[i],
            forall|i: int| k <= i < n ==> #[trigger] px@[i] == old(px)@[i],
        decreases n - k,
    {
        let a = px[k + 3];
        let mut c: usize = 0;
        while c < 3
            invariant
                n == px@.len(),
                n == old(px)@.len(),
                k % 4 == 0,
                k + 4 <= n,
                c <= 3,
                a == old(px)@[k + 3],
                forall|i: int| 0 <= i < k ==> #[trigger] px@[i] == premultiplied(old(px)@)[i],
                forall|i: int| k <= i < k + c ==> #[trigger] px@[i] == premultiplied(old(px)@)[i],
                forall|i: int| k + c <= i < n ==> #[trigger] px@[i] == old(px)@[i],
            decreases 3 - c,
        {
            let v = px[k + c];
            proof {
                lemma_scaled_fits(v, a);
                assert((k + c) % 4 == c);
            }
            let scaled = (v as u16 * a as u16 / 255) as u8;
            px.set(k + c, scaled);
            c = c + 1;
        }
        assert((k + 3) % 4 == 3);
        k = k + 4;
    }
}

/// Undo `premultiply` after resizing.
pub fn unpremultiply(px: &mut Vec<u8>)
    requires
        old(px)@.len() % 4 == 0,
    ensures
        final(px)@ == unpremultiplied(old(px)@),
{
    let n = px.len();
    let mut k: usize = 0;
    while k < n
        invariant
            n == px@.len(),
            n == old(px)@.len(),
            n % 4 == 0,
            k % 4 == 0,
            k <= n,
            forall|i: int| 0 <= i < k ==> #[trigger] px@[i] == unpremultiplied(old(px)@)[i],
            forall|i: int| k <= i < n ==> #[trigger] px@[i] == old(px)@[i],
        decreases n - k,
    {
        let a = px[k + 3];
        let r = unpremultiply_channel(px[k], a as u16);
        let g = unpremultiply_channel(px[k + 1], a as u16);
        let b = unpremultiply_channel(px[k + 2], a as u16);
        proof {
            assert(k % 4 == 0 && (k + 1) % 4 == 1 && (k + 2) % 4 == 2 && (k + 3) % 4 == 3);
        }
        match (r, g, b) {
            (Some(r), Some(g), Some(b)) => {
                px.set(k, r);
                px.set(k + 1, g);
                px.set(k + 2, b);
            },
            _ => {},
        }
        k = k + 4;
    }
}

/// Each pixel's colour composited over `background`, or `None` for a pixel
/// left alone (alpha below `threshold` while `alpha_skip` is on). This is
/// the whole mapping when the server takes any RGB colour.
pub fn true_colour_grid(px: &Vec<u8>, alpha_skip: bool, threshold: u8, background: [u8; 3]) -> (out: Vec<Option<[u8; 3]>>)
    requires
        px@.len() % 4 == 0,
    ensures
        out@.len() == px@.len() / 4,
        forall|i: int|
            0 <= i < out@.len() ==> match #[trigger] out@[i] {
                None => alpha_skip && px@[4 * i + 3] < threshold,
                Some(c) => !(alpha_skip && px@[4 * i + 3] < threshold) && c[0] == blend(
                    px@[4 * i],
                    background[0],
                    px@[4 * i + 3],
                ) && c[1] == blend(px@[4 * i + 1], background[1], px@[4 * i + 3]) && c[2]
                    == blend(px@[4 * i + 2], background[2], px@[4 * i + 3]),
            },
{
    let len = px.len();
    let n = len / 4;
    let mut out: Vec<Option<[u8; 3]>> = Vec::new();
    let mut i: usize = 0;
    while i < n
        invariant
            len == px@.len(),
            n == px@.len() / 4,
            px@.len() % 4 == 0,
            i <= n,
            out@.len() == i,
            forall|j: int|
                0 <= j < i ==> match #[trigger] out@[j] {
                    None => alpha_skip && px@[4 * j + 3] < threshold,
                    Some(c) => !(alpha_skip && px@[4 * j + 3] < threshold) && c[0] == blend(
                        px@[4 * j],
                        background[0],
                        px@[4 * j + 3],
                    ) && c[1] == blend(px@[4 * j + 1], background[1], px@[4 * j + 3]) && c[2]
                        == blend(px@[4 * j + 2], background[2], px@[4 * j + 3]),
                },
        decreases n - i,
    {
        proof {
            assert(4 * i + 3 < px@.len()) by (nonlinear_arith)
                requires
                    i < n,
                    n == px@.len() / 4,
            ;
        }
        let base = 4 * i;
        let a = px[base + 3];
        if alpha_skip && a < threshold {
            out.push(None);
        } else {
            let c = composite_srgb([px[base], px[base + 1], px[base + 2], a], background);
            out.push(Some(c));
        }
        i = i + 1;
    }
    out
}

/// The checks on the canvas the server describes: a grid that is not empty,
/// and a palette whenever one is enforced.
pub fn check_canvas_meta(width: u32, height: u32, enforce: bool, palette_len: usize) -> (r: Result<(), String>)
    ensures
        match r {
            Ok(()) => width > 0 && height > 0 && !(enforce && palette_len == 0),
            Err(m) => if width == 0 || height == 0 {
                m@ == "canvas reported an empty grid"@
            } else {
                enforce && palette_len == 0 && m@ == "canvas enforces a palette but reported none"@
            },
        },
{
    if width == 0 || height == 0 {
        return Err("canvas reported an empty grid".to_owned());
    }
    if enforce && palette_len == 0 {
        return Err("canvas enforces a palette but reported none".to_owned());
    }
    Ok(())
}

/// The tokens a run starts from, and how many more it registers: tokens
/// given on the command line are used as they are; otherwise the first
/// `needed` cached tokens, and fresh ones for the rest of `needed`.
pub fn token_plan(supplied: Vec<String>, cached: Vec<String>, needed: usize) -> (r: (Vec<String>, usize))
    ensures
        supplied@.len() > 0 ==> r.0@ == supplied@ && r.1 == 0,
        supplied@.len() == 0 ==> {
            &&& r.0@ == cached@.take(if needed <= cached@.len() { needed as int } else { cached@.len() as int })
            &&& r.1 == needed - r.0@.len()
        },
{
    if supplied.len() > 0 {
        return (supplied, 0);
    }
    let mut tokens = cached;
    tokens.truncate(needed);
    let fresh = needed - tokens.len();
    (tokens, fresh)
}

/// The colours, in order, of the first `k` palette entries that read as
/// colours; the others are dropped.
pub open spec fn palette_of(names: Seq<Seq<char>>, k: int) -> Seq<Seq<u8>>
    decreases k,
{
    if k <= 0 {
        Seq::empty()
    } else {
        let before = palette_of(names, k - 1);
        match hex_value(names[k - 1]) {
            Some(c) => before.push(c),
            None => before,
        }
    }
}

/// The palette the server reports, as colours: the entries that do not
/// read as colours are dropped.
pub fn palette_colours(names: &Vec<String>) -> (r: Vec<[u8; 3]>)
    requires
        forall|i: int| 0 <= i < names@.len() ==> !hex_split_panics(#[trigger] names@[i]@),
    ensures
        r@.map_values(|c: [u8; 3]| seq![c[0], c[1], c[2]]) == palette_of(
            names@.map_values(|s: String| s@),
            names@.len() as int,
        ),
{
    let ghost nv = names@.map_values(|s: String| s@);
    let mut r: Vec<[u8; 3]> = Vec::new();
    let mut i: usize = 0;
    while i < names.len()
        invariant
            i <= names@.len(),
            nv == names@.map_values(|s: String| s@),
            forall|j: int| 0 <= j < names@.len() ==> !hex_split_panics(#[trigger] names@[j]@),
            r@.map_values(|c: [u8; 3]| seq![c[0], c[1], c[2]]) == palette_of(nv, i as int),
        decreases names@.len() - i,
    {
        assert(nv[i as int] == names@[i as int]@);
        let ghost before = r@;
        match parse_hex(names[i].as_str()) {
            Ok(c) => {
                r.push(c);
                assert(r@.map_values(|c: [u8; 3]| seq![c[0], c[1], c[2]]) =~= before.map_values(
                    |c: [u8; 3]| seq![c[0], c[1], c[2]],
                ).push(seq![c[0], c[1], c[2]]));
            },
            Err(_) => {},
        }
        i = i + 1;
    }
    r
}

/// Maximum number of tokens registered when the count is chosen
/// automatically.
pub const MAX_AUTO_TOKENS: usize = 16;

/// How many tokens to register: the explicit count if given; none when
/// tokens were supplied; otherwise enough to repaint `target` pixels within
/// one rate window, between 1 and `MAX_AUTO_TOKENS`.
pub fn tokens_needed(explicit: Option<usize>, supplied: usize, target: usize, rate: u64) -> (n: usize)
    ensures
        n == match explicit {
            Some(k) => k as int,
            None => if supplied > 0 {
                0
            } else {
                let r = if rate == 0 {
                    1
                } else {
                    rate as int
                };
                let q = ((target as int + r - 1) / r) as u64 as usize as int;
                if q < 1 {
                    1
                } else if q > MAX_AUTO_TOKENS {
                    MAX_AUTO_TOKENS as int
                } else {
                    q
                }
            },
        },
{
    match explicit {
        Some(k) => k,
        None => {
            if supplied > 0 {
                return 0;
            }
            let r: u64 = if rate == 0 {
                1
            } else {
                rate
            };
            let t = target as u64;
            proof {
                if t % r != 0 {
                    assert(r >= 2);
                    assert(t / r < u64::MAX) by (nonlinear_arith)
                        requires
                            r >= 2,
                    ;
                }
            }
            let q = (if t % r == 0 {
                t / r
            } else {
                t / r + 1
            }) as usize;
            proof {
                assert((t as int + r - 1) / (r as int) == (t / r) as int + (if t % r == 0 { 0int } else { 1int })) by (nonlinear_arith)
                    requires
                        r >= 1,
                        t >= 0,
                ;
            }
            if q < 1 {
                1
            } else if q > MAX_AUTO_TOKENS {
                MAX_AUTO_TOKENS
            } else {
                q
            }
        },
    }
}

/// The checks of a token pool and the number of intervals its rate window
/// is divided into: one slot of margin is kept under the rate, so that
/// boundary timing does not trip the server's rolling window.
pub fn pool_intervals(tokens: usize, rate: u64, window_is_zero: bool) -> (r: Result<u64, String>)
    ensures
        match r {
            Ok(k) => tokens > 0 && rate > 0 && !window_is_zero && k == (if rate <= 2 { 1 } else { rate - 1 }),
            Err(m) => if tokens == 0 {
                m@ == "no paint tokens available"@
            } else {
                (rate == 0 || window_is_zero) && m@ == "--rate and --rate-window must be >= 1"@
            },
        },
{
    if tokens == 0 {
        return Err("no paint tokens available".to_owned());
    }
    if rate == 0 || window_is_zero {
        return Err("--rate and --rate-window must be >= 1".to_owned());
    }
    let k = rate - 1;
    Ok(if k < 1 {
        1
    } else {
        k
    })
}

/// The slices of a paint list handed to each of `clients` connections:
/// consecutive chunks of `ceil(len / clients)` pixels, as many as are
/// needed (an empty list gets none).
pub fn shard_ranges(len: usize, clients: usize) -> (r: Vec<(usize, usize)>)
    ensures
        len == 0 ==> r@.len() == 0,
        len > 0 ==> {
            let n = if clients == 0 {
                1
            } else {
                clients as int
            };
            let chunk = (len + n - 1) / (n as int);
            &&& chunk >= 1
            &&& r@.len() <= clients
            &&& forall|i: int|
                0 <= i < r@.len() ==> #[trigger] r@[i] == (
                    (i * chunk) as usize,
                    (if (i + 1) * chunk < len {
                        (i + 1) * chunk
                    } else {
                        len as int
                    }) as usize,
                ) && i * chunk < len
            &&& (r@.len() == clients || r@.len() * chunk >= len)
        },
{
    let mut r: Vec<(usize, usize)> = Vec::new();
    if len == 0 {
        return r;
    }
    let n: usize = if clients == 0 {
        1
    } else {
        clients
    };
    proof {
        if len % n != 0 {
            assert(n >= 2);
            assert(len / n < usize::MAX) by (nonlinear_arith)
                requires
                    n >= 2,
            ;
        }
    }
    let chunk = if len % n == 0 {
        len / n
    } else {
        len / n + 1
    };
    proof {
        assert((len + n - 1) / (n as int) == (len / n) as int + (if len % n == 0 { 0int } else { 1int })) by (nonlinear_arith)
            requires
                n >= 1,
                len >= 1,
        ;
        assert(chunk >= 1) by (nonlinear_arith)
            requires
                chunk == (len / n) as int + (if len % n == 0 { 0int } else { 1int }),
                len >= 1,
                n >= 1,
        ;
    }
    let mut lo: usize = 0;
    let mut i: usize = 0;
    while i < clients && lo < len
        invariant
            len > 0,
            chunk >= 1,
            n == (if clients == 0 { 1 } else { clients as int }),
            chunk == (len + n - 1) / (n as int),
            i <= clients,
            r@.len() == i,
            lo == i * chunk,
            lo <= len,
            forall|j: int|
                0 <= j < i ==> #[trigger] r@[j] == (
                    (j * chunk) as usize,
                    (if (j + 1) * chunk < len {
                        (j + 1) * chunk
                    } else {
                        len as int
                    }) as usize,
                ) && j * chunk < len,
        decreases clients - i,
    {
        let hi = if len - lo > chunk {
            lo + chunk
        } else {
            len
        };
        proof {
            assert((i + 1) * chunk == i * chunk + chunk) by (nonlinear_arith);
        }
        r.push((lo, hi));
        if hi == len {
            i = i + 1;
            assert(r@.len() * chunk >= len) by (nonlinear_arith)
                requires
                    r@.len() == i,
                    i * chunk >= lo + (len - lo),
                    lo + (len - lo) == len,
            {
                assert((i) * chunk == (i - 1) * chunk + chunk) by (nonlinear_arith);
            }
            return r;
        }
        lo = hi;
        i = i + 1;
    }
    proof {
        if r@.len() < clients {
            assert(lo >= len);
            assert(r@.len() * chunk >= len);
        }
    }
    r
}

#[verifier::external_type_specification]
#[verifier::external_body]
pub struct ExUtf8Error(core::str::Utf8Error);

/// `str::from_utf8`: the bytes as text when they are valid UTF-8.
pub assume_specification[ core::str::from_utf8 ](v: &[u8]) -> (r: Result<&str, core::str::Utf8Error>)
    ensures
        r is Ok <==> vstd::utf8::valid_utf8(v@),
        r matches Ok(s) ==> s@ == vstd::utf8::decode_utf8(v@),
;

/// The six bytes of cell `i` in the canvas text, if the text is long enough.
pub open spec fn cell_bytes(b: Seq<u8>, i: int) -> Option<Seq<u8>> {
    if 6 * i + 6 <= b.len() {
        Some(b.subrange(6 * i, 6 * i + 6))
    } else {
        None
    }
}

/// The colour that the canvas shows in cell `i`, if it can be read.
pub open spec fn cell_colour(b: Seq<u8>, i: int) -> Option<Seq<u8>> {
    match cell_bytes(b, i) {
        Some(c) => if vstd::utf8::valid_utf8(c) {
            hex_value(vstd::utf8::decode_utf8(c))
        } else {
            None
        },
        None => None,
    }
}

/// Reading cell `i` as a colour would cut a character in two.
pub open spec fn cell_panics(b: Seq<u8>, i: int) -> bool {
    match cell_bytes(b, i) {
        Some(c) => vstd::utf8::valid_utf8(c) && hex_split_panics(vstd::utf8::decode_utf8(c)),
        None => false,
    }
}

pub open spec fn diff_panics(grid: Seq<Option<[u8; 3]>>, b: Seq<u8>) -> bool {
    exists|i: int| 0 <= i < grid.len() && grid[i] is Some && #[trigger] cell_panics(b, i)
}

pub open spec fn colour_seq(c: [u8; 3]) -> Seq<u8> {
    seq![c[0], c[1], c[2]]
}

/// The cells among the first `k` of `grid` whose target differs from what
/// the canvas shows, as `(x, y, colour)` in grid order.
pub open spec fn pending_cells(grid: Seq<Option<[u8; 3]>>, b: Seq<u8>, width: u32, k: int) -> Seq<(u32, u32, [u8; 3])>
    decreases k,
{
    if k <= 0 {
        Seq::empty()
    } else {
        let before = pending_cells(grid, b, width, k - 1);
        let i = k - 1;
        match grid[i] {
            Some(t) => if cell_colour(b, i) != Some(colour_seq(t)) {
                before.push((((i as u32) % width) as u32, ((i as u32) / width) as u32, t))
            } else {
                before
            },
            None => before,
        }
    }
}

/// Read cell `i` of the canvas text as a colour.
fn read_cell(b: &[u8], i: usize) -> (r: Option<[u8; 3]>)
    requires
        6 * i + 6 <= usize::MAX,
        !cell_panics(b@, i as int),
    ensures
        match r {
            Some(c) => cell_colour(b@, i as int) == Some(colour_seq(c)),
            None => cell_colour(b@, i as int) is None,
        },
{
    let off = 6 * i;
    if off + 6 > b.len() {
        return None;
    }
    let c = vstd::slice::slice_subrange(b, off, off + 6);
    match core::str::from_utf8(c) {
        Ok(s) => match parse_hex(s) {
            Ok(v) => Some(v),
            Err(_) => None,
        },
        Err(_) => None,
    }
}

/// Whether reading the canvas for `grid` would cut a character in two.
pub fn diff_would_panic(grid: &Vec<Option<[u8; 3]>>, pixels: &str) -> (p: bool)
    requires
        6 * grid@.len() + 6 <= usize::MAX,
    ensures
        p == diff_panics(grid@, vstd::utf8::encode_utf8(pixels@)),
{
    let b = pixels.as_bytes();
    let mut i: usize = 0;
    while i < grid.len()
        invariant
            6 * grid@.len() + 6 <= usize::MAX,
            b@ == vstd::utf8::encode_utf8(pixels@),
            i <= grid@.len(),
            forall|j: int| 0 <= j < i ==> !(grid@[j] is Some && #[trigger] cell_panics(b@, j)),
        decreases grid@.len() - i,
    {
        if grid[i].is_some() {
            let off = 6 * i;
            if off + 6 <= b.len() {
                let c = vstd::slice::slice_subrange(b, off, off + 6);
                match core::str::from_utf8(c) {
                    Ok(s) => {
                        if hex_split_would_panic(s) {
                            assert(cell_panics(b@, i as int));
                            return true;
                        }
                        assert(!cell_panics(b@, i as int));
                    },
                    Err(_) => {
                        assert(!cell_panics(b@, i as int));
                    },
                }
            }
        }
        i = i + 1;
    }
    false
}

/// The cells of `grid` whose target colour differs from what the canvas
/// text `pixels` shows (each cell is six hex characters), as `(x, y,
/// colour)` for a canvas `width` wide.
pub fn pending_pixels(grid: &Vec<Option<[u8; 3]>>, pixels: &str, width: u32) -> (todo: Vec<(u32, u32, [u8; 3])>)
    requires
        width > 0,
        6 * grid@.len() + 6 <= usize::MAX,
        !diff_panics(grid@, vstd::utf8::encode_utf8(pixels@)),
    ensures
        todo@ == pending_cells(grid@, vstd::utf8::encode_utf8(pixels@), width, grid@.len() as int),
{
    let b = pixels.as_bytes();
    let mut todo: Vec<(u32, u32, [u8; 3])> = Vec::new();
    let mut i: usize = 0;
    while i < grid.len()
        invariant
            width > 0,
            6 * grid@.len() + 6 <= usize::MAX,
            b@ == vstd::utf8::encode_utf8(pixels@),
            !diff_panics(grid@, b@),
            i <= grid@.len(),
            todo@ == pending_cells(grid@, b@, width, i as int),
        decreases grid@.len() - i,
    {
        match grid[i] {
            Some(t) => {
                assert(!cell_panics(b@, i as int));
                let cur = read_cell(b, i);
                let same = match cur {
                    Some(c) => c[0] == t[0] && c[1] == t[1] && c[2] == t[2],
                    None => false,
                };
                proof {
                    if let Some(c) = cur {
                        if !same {
                            assert(colour_seq(c) != colour_seq(t)) by {
                                if c[0] != t[0] {
                                    assert(colour_seq(c)[0] != colour_seq(t)[0]);
                                } else if c[1] != t[1] {
                                    assert(colour_seq(c)[1] != colour_seq(t)[1]);
                                } else {
                                    assert(colour_seq(c)[2] != colour_seq(t)[2]);
                                }
                            }
                        } else {
                            assert(colour_seq(c) =~= colour_seq(t));
                        }
                    }
                }
                if !same {
                    let ii = i as u32;
                    todo.push((ii % width, ii / width, t));
                }
            },
            None => {},
        }
        i = i + 1;
    }
    todo
}

/// Number of cells among the first `k` of `grid` that have a target colour.
pub open spec fn targets_in(grid: Seq<Option<[u8; 3]>>, k: int) -> nat
    decreases k,
{
    if k <= 0 {
        0
    } else {
        targets_in(grid, k - 1) + if grid[k - 1] is Some {
            1nat
        } else {
            0nat
        }
    }
}

/// How many cells the image gives a colour (the others are left alone).
pub fn count_targets(grid: &Vec<Option<[u8; 3]>>) -> (n: usize)
    ensures
        n == targets_in(grid@, grid@.len() as int),
{
    let mut n: usize = 0;
    let mut i: usize = 0;
    while i < grid.len()
        invariant
            i <= grid@.len(),
            n == targets_in(grid@, i as int),
            n <= i,
        decreases grid@.len() - i,
    {
        if grid[i].is_some() {
            n = n + 1;
        }
        i = i + 1;
    }
    n
}

/// A pass never has more cells to paint than the image has targets: the
/// cells still to paint are among those with a target colour.
pub proof fn pending_within_targets(grid: Seq<Option<[u8; 3]>>, b: Seq<u8>, width: u32, k: int)
    requires
        0 <= k <= grid.len(),
    ensures
        pending_cells(grid, b, width, k).len() <= targets_in(grid, k),
    decreases k,
{
    if k > 0 {
        pending_within_targets(grid, b, width, k - 1);
    }
}

/// Cell `i` of a grid `width` wide, in pending-list form: its column, its
/// row and its target colour.
pub open spec fn cell_entry(i: int, width: u32, t: [u8; 3]) -> (u32, u32, [u8; 3]) {
    ((i % (width as int)) as u32, (i / (width as int)) as u32, t)
}

/// The canvas does not show colour `t` at cell `i`: the cell is missing
/// from the text, does not read as a colour, or reads as another colour.
pub open spec fn shows_other_than(b: Seq<u8>, i: int, t: [u8; 3]) -> bool {
    cell_colour(b, i) != Some(seq![t[0], t[1], t[2]])
}

proof fn lemma_pending_members(grid: Seq<Option<[u8; 3]>>, b: Seq<u8>, width: u32, k: int)
    requires
        0 <= k <= grid.len(),
        grid.len() <= 0x1_0000_0000,
        width > 0,
    ensures
        forall|e: (u32, u32, [u8; 3])| #[trigger] pending_cells(grid, b, width, k).contains(e) <==> exists|i: int|
            0 <= i < k && grid[i] is Some && e == cell_entry(i, width, grid[i]->0) && shows_other_than(
                b,
                i,
                grid[i]->0,
            ),
    decreases k,
{
    if k > 0 {
        lemma_pending_members(grid, b, width, k - 1);
        let before = pending_cells(grid, b, width, k - 1);
        let i = k - 1;
        assert((i as u32) as int == i);
        assert(((i as u32) % width) as int == i % (width as int));
        assert(((i as u32) / width) as int == i / (width as int));
        assert forall|e: (u32, u32, [u8; 3])| #[trigger] pending_cells(grid, b, width, k).contains(e) <==> exists|j: int|
            0 <= j < k && grid[j] is Some && e == cell_entry(j, width, grid[j]->0) && shows_other_than(
                b,
                j,
                grid[j]->0,
            ) by {
            if pending_cells(grid, b, width, k).contains(e) {
                let n = pending_cells(grid, b, width, k).index_of(e);
                if n < before.len() {
                    assert(before.contains(e));
                } else {
                    assert(e == cell_entry(i, width, grid[i]->0));
                }
            }
            if exists|j: int|
                0 <= j < k && grid[j] is Some && e == cell_entry(j, width, grid[j]->0) && shows_other_than(b, j, grid[j]->0) {
                let j = choose|j: int|
                    0 <= j < k && grid[j] is Some && e == cell_entry(j, width, grid[j]->0) && shows_other_than(b, j, grid[j]->0);
                if j < k - 1 {
                    assert(before.contains(e));
                    let n = before.index_of(e);
                    assert(pending_cells(grid, b, width, k)[n] == e);
                } else {
                    assert(colour_seq(grid[i]->0) == seq![grid[i]->0[0], grid[i]->0[1], grid[i]->0[2]]);
                    let p = pending_cells(grid, b, width, k);
                    assert(p[p.len() - 1] == e);
                }
            }
        }
    }
}

proof fn lemma_cell_entry_unique(i: int, j: int, width: u32, t: [u8; 3], u: [u8; 3])
    requires
        0 <= i < 0x1_0000_0000,
        0 <= j < 0x1_0000_0000,
        width > 0,
        cell_entry(i, width, t) == cell_entry(j, width, u),
    ensures
        i == j,
{
    let w = width as int;
    vstd::arithmetic::div_mod::lemma_fundamental_div_mod(i, w);
    vstd::arithmetic::div_mod::lemma_fundamental_div_mod(j, w);
    vstd::arithmetic::div_mod::lemma_mod_pos_bound(i, w);
    vstd::arithmetic::div_mod::lemma_mod_pos_bound(j, w);
    assert(i / w <= i) by (nonlinear_arith)
        requires
            w >= 1,
            i >= 0,
            i == w * (i / w) + i % w,
            i % w >= 0,
    ;
    assert(j / w <= j) by (nonlinear_arith)
        requires
            w >= 1,
            j >= 0,
            j == w * (j / w) + j % w,
            j % w >= 0,
    ;
    assert(i / w >= 0 && j / w >= 0) by (nonlinear_arith)
        requires
            w >= 1,
            i >= 0,
            j >= 0,
    ;
    assert(i % w == j % w && i / w == j / w);
}

/// The cells to paint are exactly those whose target colour the canvas does
/// not show: a cell with target `t` is in the list (as its column, row and
/// `t`) exactly when the canvas does not show `t` there, and every entry of
/// the list is such a cell. (For grids of at most 2^32 cells, where the
/// coordinates do not wrap.)
pub proof fn pending_exactly_where_the_canvas_differs(grid: Seq<Option<[u8; 3]>>, b: Seq<u8>, width: u32)
    requires
        width > 0,
        grid.len() <= 0x1_0000_0000,
    ensures
        forall|i: int|
            0 <= i < grid.len() && #[trigger] grid[i] is Some ==> (pending_cells(
                grid,
                b,
                width,
                grid.len() as int,
            ).contains(cell_entry(i, width, grid[i]->0)) <==> shows_other_than(b, i, grid[i]->0)),
        forall|e: (u32, u32, [u8; 3])| #[trigger] pending_cells(grid, b, width, grid.len() as int).contains(e) ==> exists|i: int|
            0 <= i < grid.len() && grid[i] == Some(e.2) && e == cell_entry(i, width, e.2) && shows_other_than(b, i, e.2),
{
    let k = grid.len() as int;
    lemma_pending_members(grid, b, width, k);
    assert forall|i: int|
        0 <= i < grid.len() && #[trigger] grid[i] is Some implies (pending_cells(grid, b, width, k).contains(
            cell_entry(i, width, grid[i]->0),
        ) <==> shows_other_than(b, i, grid[i]->0)) by {
        let e = cell_entry(i, width, grid[i]->0);
        if pending_cells(grid, b, width, k).contains(e) {
            let j = choose|j: int|
                0 <= j < k && grid[j] is Some && e == cell_entry(j, width, grid[j]->0) && shows_other_than(b, j, grid[j]->0);
            lemma_cell_entry_unique(i, j, width, grid[i]->0, grid[j]->0);
        }
    }
}

/// Painting needs at least one token.
pub fn check_tokens(count: usize) -> (r: Result<(), String>)
    ensures
        r is Ok <==> count > 0,
        r matches Err(m) ==> m@ == "no paint tokens available; pass --token or allow --tokens 1"@,
{
    if count == 0 {
        return Err("no paint tokens available; pass --token or allow --tokens 1".to_owned());
    }
    Ok(())
}

/// What happened in one pass of painting.
pub enum PassEvent {
    /// The canvas could not be fetched; the error text.
    CanvasUnavailable(String),
    /// `pending` cells differed from the image, and `failed` of their paints
    /// failed.
    Painted { pending: usize, failed: usize },
}

/// What the client does after a pass.
pub enum PassAction {
    /// Fetch the canvas again after `after_ms` milliseconds.
    Retry { after_ms: u64 },
    /// `fixed` cells were painted; start the next pass after `after_ms`.
    Next { fixed: usize, after_ms: u64 },
    /// `fixed` cells were painted; stop.
    Finish { fixed: usize },
    /// Stop with this error.
    Fail(String),
}

/// Cells painted in a pass: those pending, less the failed paints.
pub open spec fn fixed_count(pending: usize, failed: usize) -> usize {
    if pending >= failed {
        (pending - failed) as usize
    } else {
        0
    }
}

/// The decision after each pass. Without `bruteforce` the first pass is the
/// last: a canvas that cannot be fetched is an error, a finished pass ends
/// the run. With it, the client keeps the image up: it retries a failed
/// fetch after `interval_ms` but at least 250 ms, and starts a new pass
/// `interval_ms` after each finished one.
pub fn after_pass(bruteforce: bool, interval_ms: u64, ev: PassEvent) -> (a: PassAction)
    ensures
        match ev {
            PassEvent::CanvasUnavailable(e) => if bruteforce {
                a == (PassAction::Retry { after_ms: if interval_ms >= 250 { interval_ms } else { 250 } })
            } else {
                a matches PassAction::Fail(m) && m@ == e@
            },
            PassEvent::Painted { pending, failed } => if bruteforce {
                a == (PassAction::Next { fixed: fixed_count(pending, failed), after_ms: interval_ms })
            } else {
                a == (PassAction::Finish { fixed: fixed_count(pending, failed) })
            },
        },
{
    match ev {
        PassEvent::CanvasUnavailable(e) => {
            if bruteforce {
                PassAction::Retry {
                    after_ms: if interval_ms >= 250 {
                        interval_ms
                    } else {
                        250
                    },
                }
            } else {
                PassAction::Fail(e)
            }
        },
        PassEvent::Painted { pending, failed } => {
            let fixed = pending.saturating_sub(failed);
            if bruteforce {
                PassAction::Next { fixed, after_ms: interval_ms }
            } else {
                PassAction::Finish { fixed }
            }
        },
    }
}

/// Client-side lifetime of a cached token, in seconds: safely under the
/// server's 24 h token lifetime.
pub const TOKEN_CACHE_TTL_SECS: u64 = 82_800;

/// Tokens registered before this time (Unix seconds) are too old to reuse.
pub open spec fn cutoff_at(now: u64) -> u64 {
    if now >= TOKEN_CACHE_TTL_SECS {
        (now - TOKEN_CACHE_TTL_SECS) as u64
    } else {
        0
    }
}

pub fn cache_cutoff(now: u64) -> (c: u64)
    ensures
        c == cutoff_at(now),
{
    now.saturating_sub(TOKEN_CACHE_TTL_SECS)
}

/// One entry of the token cache: its registration time (Unix seconds) and
/// its token, if it has one.
pub struct CachedEntry {
    pub registered_at: u64,
    pub token: Option<String>,
}

/// An entry as plain values: `(registered_at, token)`.
pub open spec fn entry_view(e: CachedEntry) -> (u64, Option<Seq<char>>) {
    (
        e.registered_at,
        match e.token {
            Some(t) => Some(t@),
            None => None,
        },
    )
}

/// The tokens, in order, of the first `k` entries registered at or after
/// `cutoff`.
pub open spec fn fresh_tokens(entries: Seq<(u64, Option<Seq<char>>)>, cutoff: u64, k: int) -> Seq<Seq<char>>
    decreases k,
{
    if k <= 0 {
        Seq::empty()
    } else {
        let before = fresh_tokens(entries, cutoff, k - 1);
        let e = entries[k - 1];
        if e.0 >= cutoff {
            match e.1 {
                Some(t) => before.push(t),
                None => before,
            }
        } else {
            before
        }
    }
}

/// The cached tokens that are still fresh enough to reuse.
pub fn fresh_cached_tokens(entries: &Vec<CachedEntry>, cutoff: u64) -> (r: Vec<String>)
    ensures
        r@.map_values(|t: String| t@) == fresh_tokens(
            entries@.map_values(|e: CachedEntry| entry_view(e)),
            cutoff,
            entries@.len() as int,
        ),
{
    let ghost ev = entries@.map_values(|e: CachedEntry| entry_view(e));
    let mut r: Vec<String> = Vec::new();
    let mut i: usize = 0;
    while i < entries.len()
        invariant
            i <= entries@.len(),
            ev == entries@.map_values(|e: CachedEntry| entry_view(e)),
            r@.map_values(|t: String| t@) == fresh_tokens(ev, cutoff, i as int),
        decreases entries@.len() - i,
    {
        let e = &entries[i];
        assert(ev[i as int] == entry_view(entries@[i as int]));
        if e.registered_at >= cutoff {
            match &e.token {
                Some(t) => {
                    let ghost before = r@;
                    r.push(t.clone());
                    assert(r@.map_values(|t: String| t@) =~= before.map_values(|t: String| t@).push(t@));
                },
                None => {},
            }
        }
        i = i + 1;
    }
    r
}

} // verus!
