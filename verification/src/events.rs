//! Coalescing of live pixel updates into batched JSON messages.

use vstd::prelude::*;
use crate::canvas::{event_text, quoted};
use crate::text::push_decimal;

verus! {

#[verifier::external_type_specification]
#[verifier::external_body]
pub struct ExJsonError(serde_json::Error);

/// Lower-case hex digit for `d < 16`.
pub open spec fn hex_lower(d: int) -> char {
    if d < 10 {
        (d + 48) as char
    } else {
        (d - 10 + 97) as char
    }
}

/// How a JSON string literal writes one character: quote, backslash and
/// control characters escaped, everything else as it is.
pub open spec fn escape_char(c: char) -> Seq<char> {
    let u = c as u32;
    if c == '"' {
        seq!['\\', '"']
    } else if c == '\\' {
        seq!['\\', '\\']
    } else if u == 0x08 {
        seq!['\\', 'b']
    } else if u == 0x0c {
        seq!['\\', 'f']
    } else if u == 0x0a {
        seq!['\\', 'n']
    } else if u == 0x0d {
        seq!['\\', 'r']
    } else if u == 0x09 {
        seq!['\\', 't']
    } else if u < 0x20 {
        seq!['\\', 'u', '0', '0', hex_lower((u / 16) as int), hex_lower((u % 16) as int)]
    } else {
        seq![c]
    }
}

/// The body of the JSON string literal for `s`.
pub open spec fn json_escape(s: Seq<char>) -> Seq<char>
    decreases s.len(),
{
    if s.len() == 0 {
        Seq::empty()
    } else {
        json_escape(s.drop_last()) + escape_char(s.last())
    }
}

/// `serde_json::to_string` on a string slice: the string as a JSON string
/// literal, with the escaping of `escape_char`. Serialising a string into
/// memory does not fail, so the result is always `Ok`.
#[verifier::external_body]
fn json_string(s: &str) -> (r: Result<String, serde_json::Error>)
    ensures
        r is Ok,
        r matches Ok(t) ==> t@ == quoted(json_escape(s@)),
{
    serde_json::to_string(s)
}

/// One pending cell update.
pub struct PixelUpdate {
    pub x: u16,
    pub y: u16,
    pub color: String,
}

/// The JSON object of one update: `{"x":X,"y":Y,"color":"..."}`.
pub open spec fn update_text(u: (u16, u16, Seq<char>)) -> Seq<char> {
    event_text(u.0 as nat, u.1 as nat, quoted(json_escape(u.2)))
}

/// The objects of `s`, separated by commas.
pub open spec fn joined(s: Seq<(u16, u16, Seq<char>)>) -> Seq<char>
    decreases s.len(),
{
    if s.len() == 0 {
        Seq::empty()
    } else if s.len() == 1 {
        update_text(s[0])
    } else {
        joined(s.drop_last()) + seq![','] + update_text(s.last())
    }
}

/// A batch message: a JSON array of update objects.
pub open spec fn batch_text(s: Seq<(u16, u16, Seq<char>)>) -> Seq<char> {
    seq!['['] + joined(s) + seq![']']
}

pub open spec fn same_cell(a: (u16, u16, Seq<char>), x: u16, y: u16) -> bool {
    a.0 == x && a.1 == y
}

/// Each cell occurs at most once.
pub open spec fn distinct_cells(s: Seq<(u16, u16, Seq<char>)>) -> bool {
    forall|i: int, j: int|
        0 <= i < j < s.len() ==> !same_cell(#[trigger] s[i], #[trigger] s[j].0, s[j].1)
}

/// The colour last given to each cell.
pub open spec fn cell_colors(s: Seq<(u16, u16, Seq<char>)>) -> Map<(u16, u16), Seq<char>> {
    Map::new(
        |k: (u16, u16)| exists|i: int| 0 <= i < s.len() && #[trigger] same_cell(s[i], k.0, k.1),
        |k: (u16, u16)| s[choose|i: int| 0 <= i < s.len() && #[trigger] same_cell(s[i], k.0, k.1)].2,
    )
}

/// Pending updates, one per cell: repainting a cell before the next flush
/// keeps only its last colour, in the place of its first update.
pub struct PixelBuffer {
    updates: Vec<PixelUpdate>,
}

impl PixelBuffer {
    /// The pending updates, in order.
    pub closed spec fn view(&self) -> Seq<(u16, u16, Seq<char>)> {
        self.updates@.map_values(|u: PixelUpdate| (u.x, u.y, u.color@))
    }

    pub closed spec fn wf(&self) -> bool {
        distinct_cells(self@)
    }

    pub fn new() -> (b: Self)
        ensures
            b.wf(),
            b@ == Seq::<(u16, u16, Seq<char>)>::empty(),
    {
        let b = PixelBuffer { updates: Vec::new() };
        assert(b@ =~= Seq::<(u16, u16, Seq<char>)>::empty());
        b
    }

    pub fn len(&self) -> (n: usize)
        ensures
            n == self@.len(),
    {
        self.updates.len()
    }

    /// Record that cell `(x, y)` now has `color`.
    pub fn insert(&mut self, x: u16, y: u16, color: String)
        requires
            old(self).wf(),
        ensures
            final(self).wf(),
            (exists|i: int| 0 <= i < old(self)@.len() && same_cell(#[trigger] old(self)@[i], x, y))
                ==> exists|i: int|
                0 <= i < old(self)@.len() && same_cell(#[trigger] old(self)@[i], x, y)
                    && final(self)@ == old(self)@.update(i, (x, y, color@)),
            !(exists|i: int|
                0 <= i < old(self)@.len() && same_cell(#[trigger] old(self)@[i], x, y))
                ==> final(self)@ == old(self)@.push((x, y, color@)),
    {
        let ghost s = self@;
        let mut i: usize = 0;
        while i < self.updates.len()
            invariant
                s == self@,
                s == old(self)@,
                distinct_cells(s),
                i <= s.len(),
                forall|j: int| 0 <= j < i ==> !same_cell(#[trigger] s[j], x, y),
            decreases s.len() - i,
        {
            if self.updates[i].x == x && self.updates[i].y == y {
                self.updates.set(i, PixelUpdate { x, y, color });
                proof {
                    assert(same_cell(s[i as int], x, y));
                    assert(self@ =~= s.update(i as int, (x, y, color@)));
                    assert forall|a: int, b: int|
                        0 <= a < b < self@.len() implies !same_cell(
                        #[trigger] self@[a],
                        #[trigger] self@[b].0,
                        self@[b].1,
                    ) by {
                        assert(self@[a].0 == s[a].0 && self@[a].1 == s[a].1);
                        assert(self@[b].0 == s[b].0 && self@[b].1 == s[b].1);
                        assert(!same_cell(s[a], s[b].0, s[b].1));
                    }
                }
                return;
            }
            i = i + 1;
        }
        self.updates.push(PixelUpdate { x, y, color });
        proof {
            assert(self@ =~= s.push((x, y, color@)));
            assert forall|a: int, b: int|
                0 <= a < b < self@.len() implies !same_cell(
                #[trigger] self@[a],
                #[trigger] self@[b].0,
                self@[b].1,
            ) by {
                if b < s.len() {
                    assert(!same_cell(s[a], s[b].0, s[b].1));
                } else {
                    assert(self@[a] == s[a]);
                }
            }
        }
    }

    /// Hand out the pending updates and start afresh (`std::mem::take`).
    pub fn take(&mut self) -> (out: PixelBuffer)
        requires
            old(self).wf(),
        ensures
            out.wf(),
            out@ == old(self)@,
            final(self).wf(),
            final(self)@.len() == 0,
    {
        let mut fresh = PixelBuffer::new();
        std::mem::swap(self, &mut fresh);
        fresh
    }
}

/// Drain a buffer into one batched message: a JSON array of its updates, or
/// `None` when there is nothing to send.
pub fn drain_to_batch(buffer: PixelBuffer) -> (r: Option<String>)
    ensures
        match r {
            None => buffer@.len() == 0,
            Some(t) => buffer@.len() > 0 && t@ == batch_text(buffer@),
        },
{
    let n = buffer.updates.len();
    if n == 0 {
        return None;
    }
    let ghost s = buffer@;
    let mut out = String::new();
    out.push('[');
    let mut i: usize = 0;
    while i < n
        invariant
            n == buffer.updates@.len(),
            s == buffer@,
            i <= n,
            out@ == seq!['['] + joined(s.take(i as int)),
        decreases n - i,
    {
        let u = &buffer.updates[i];
        assert((u.x, u.y, u.color@) == s[i as int]);
        let ghost before = out@;
        if i > 0 {
            out.push(',');
        }
        out.append("{\"x\":");
        push_decimal(&mut out, u.x as u64);
        out.append(",\"y\":");
        push_decimal(&mut out, u.y as u64);
        out.append(",\"color\":");
        match json_string(u.color.as_str()) {
            Ok(lit) => out.append(lit.as_str()),
            Err(_) => {
                return None;
            },
        }
        out.append("}");
        proof {
            let t1 = s.take(i + 1);
            assert(t1.drop_last() =~= s.take(i as int));
            assert(t1.last() == s[i as int]);
            if i == 0 {
                assert(t1.len() == 1);
                assert(out@ =~= seq!['['] + update_text(s[i as int]));
            } else {
                assert(out@ =~= seq!['['] + (joined(s.take(i as int)) + seq![','] + update_text(
                    s[i as int],
                )));
            }
        }
        i = i + 1;
    }
    out.push(']');
    assert(s.take(n as int) =~= s);
    Some(out)
}

} // verus!
