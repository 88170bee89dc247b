//! Colour text: whitespace trimming, hex digits and the canonical `rrggbb` form.

use vstd::prelude::*;
use crate::text::chars_of;

verus! {

/// Number of hex characters that encode one pixel (`rrggbb`).
pub const BYTES_PER_PIXEL: usize = 6;

/// Unicode `White_Space`, the set that `str::trim` removes.
pub open spec fn is_white_space(c: char) -> bool {
    let u = c as u32;
    ||| 0x09 <= u <= 0x0d
    ||| u == 0x20
    ||| u == 0x85
    ||| u == 0xa0
    ||| u == 0x1680
    ||| 0x2000 <= u <= 0x200a
    ||| u == 0x2028
    ||| u == 0x2029
    ||| u == 0x202f
    ||| u == 0x205f
    ||| u == 0x3000
}

/// `s` without its leading white space.
pub open spec fn trim_start(s: Seq<char>) -> Seq<char>
    decreases s.len(),
{
    if s.len() > 0 && is_white_space(s[0]) {
        trim_start(s.drop_first())
    } else {
        s
    }
}

/// `s` without its trailing white space.
pub open spec fn trim_end(s: Seq<char>) -> Seq<char>
    decreases s.len(),
{
    if s.len() > 0 && is_white_space(s.last()) {
        trim_end(s.drop_last())
    } else {
        s
    }
}

/// `s` without white space at either end (`str::trim`).
pub open spec fn trim(s: Seq<char>) -> Seq<char> {
    trim_end(trim_start(s))
}

/// `s` without any leading `#` (`str::trim_start_matches('#')`).
pub open spec fn strip_hashes(s: Seq<char>) -> Seq<char>
    decreases s.len(),
{
    if s.len() > 0 && s[0] == '#' {
        strip_hashes(s.drop_first())
    } else {
        s
    }
}

pub open spec fn is_hex_digit(c: char) -> bool {
    ||| '0' <= c <= '9'
    ||| 'a' <= c <= 'f'
    ||| 'A' <= c <= 'F'
}

/// Value of a hex digit.
pub open spec fn hex_value(c: char) -> int {
    if '0' <= c <= '9' {
        c as int - '0' as int
    } else if 'a' <= c <= 'f' {
        c as int - 'a' as int + 10
    } else {
        c as int - 'A' as int + 10
    }
}

/// ASCII lower-casing of one character (`char::to_ascii_lowercase`).
pub open spec fn lower(c: char) -> char {
    if 'A' <= c <= 'Z' {
        ((c as u32) + 32) as char
    } else {
        c
    }
}

pub open spec fn all_hex(s: Seq<char>) -> bool {
    forall|i: int| 0 <= i < s.len() ==> is_hex_digit(#[trigger] s[i])
}

/// A colour in canonical form: six lower-case hex digits.
pub open spec fn is_canonical_color(s: Seq<char>) -> bool {
    &&& s.len() == BYTES_PER_PIXEL
    &&& forall|i: int| 0 <= i < s.len() ==> ('0' <= #[trigger] s[i] <= '9' || 'a' <= s[i] <= 'f')
}

/// The canonical form of a colour given as text: surrounding white space and
/// any leading `#` are dropped, and what remains must be exactly six hex
/// digits, which are lower-cased.
pub open spec fn normalized(color: Seq<char>) -> Option<Seq<char>> {
    let c = strip_hashes(trim(color));
    if c.len() == BYTES_PER_PIXEL && all_hex(c) {
        Some(c.map_values(|ch: char| lower(ch)))
    } else {
        None
    }
}

pub fn is_hex_digit_char(c: char) -> (b: bool)
    ensures
        b == is_hex_digit(c),
{
    ('0' <= c && c <= '9') || ('a' <= c && c <= 'f') || ('A' <= c && c <= 'F')
}

pub fn is_white_space_char(c: char) -> (b: bool)
    ensures
        b == is_white_space(c),
{
    let u = c as u32;
    (0x09 <= u && u <= 0x0d) || u == 0x20 || u == 0x85 || u == 0xa0 || u == 0x1680 || (0x2000
        <= u && u <= 0x200a) || u == 0x2028 || u == 0x2029 || u == 0x202f || u == 0x205f || u
        == 0x3000
}

pub fn lower_char(c: char) -> (l: char)
    ensures
        l == lower(c),
{
    if 'A' <= c && c <= 'Z' {
        let u = (c as u32) + 32;
        // lower-case ASCII letters are valid chars
        assert(0x61 <= u <= 0x7a);
        char_from_ascii(u)
    } else {
        c
    }
}

/// The ASCII character with code `u`.
pub fn char_from_ascii(u: u32) -> (c: char)
    requires
        u < 0x80,
    ensures
        c as u32 == u,
        c == u as char,
{
    let b = u as u8;
    b as char
}

proof fn lemma_trim_start_suffix(s: Seq<char>, i: int)
    requires
        0 <= i <= s.len(),
        forall|j: int| 0 <= j < i ==> is_white_space(#[trigger] s[j]),
    ensures
        trim_start(s) == trim_start(s.subrange(i, s.len() as int)),
    decreases i,
{
    if i > 0 {
        assert(s.drop_first().subrange(i - 1, s.drop_first().len() as int) =~= s.subrange(
            i,
            s.len() as int,
        ));
        lemma_trim_start_suffix(s.drop_first(), i - 1);
    } else {
        assert(s.subrange(0, s.len() as int) =~= s);
    }
}

proof fn lemma_trim_end_prefix(s: Seq<char>, i: int)
    requires
        0 <= i <= s.len(),
        forall|j: int| i <= j < s.len() ==> is_white_space(#[trigger] s[j]),
    ensures
        trim_end(s) == trim_end(s.subrange(0, i)),
    decreases s.len() - i,
{
    if i < s.len() {
        assert(s.drop_last().subrange(0, i) =~= s.subrange(0, i));
        lemma_trim_end_prefix(s.drop_last(), i);
    } else {
        assert(s.subrange(0, i) =~= s);
    }
}

proof fn lemma_strip_hashes_suffix(s: Seq<char>, i: int)
    requires
        0 <= i <= s.len(),
        forall|j: int| 0 <= j < i ==> #[trigger] s[j] == '#',
    ensures
        strip_hashes(s) == strip_hashes(s.subrange(i, s.len() as int)),
    decreases i,
{
    if i > 0 {
        assert(s.drop_first().subrange(i - 1, s.drop_first().len() as int) =~= s.subrange(
            i,
            s.len() as int,
        ));
        lemma_strip_hashes_suffix(s.drop_first(), i - 1);
    } else {
        assert(s.subrange(0, s.len() as int) =~= s);
    }
}

/// Bounds `(a, b)` such that `trim(s[lo..hi])` is `s[a..b]`.
pub fn trim_bounds(s: &Vec<char>, lo: usize, hi: usize) -> (r: (usize, usize))
    requires
        lo <= hi <= s@.len(),
    ensures
        lo <= r.0 <= r.1 <= hi,
        trim(s@.subrange(lo as int, hi as int)) == s@.subrange(r.0 as int, r.1 as int),
{
    let ghost w = s@.subrange(lo as int, hi as int);
    let mut a: usize = lo;
    while a < hi && is_white_space_char(s[a])
        invariant
            lo <= a <= hi <= s@.len(),
            w == s@.subrange(lo as int, hi as int),
            forall|j: int| lo <= j < a ==> is_white_space(#[trigger] s@[j]),
        decreases hi - a,
    {
        a = a + 1;
    }
    proof {
        assert forall|j: int| 0 <= j < a - lo implies is_white_space(#[trigger] w[j]) by {
            assert(w[j] == s@[lo + j]);
        }
        lemma_trim_start_suffix(w, a - lo);
        let t = w.subrange(a - lo, w.len() as int);
        assert(t =~= s@.subrange(a as int, hi as int));
        if t.len() > 0 {
            assert(t[0] == s@[a as int]);
        }
        assert(trim_start(t) == t);
    }
    let mut b: usize = hi;
    while b > a && is_white_space_char(s[b - 1])
        invariant
            lo <= a <= b <= hi <= s@.len(),
            forall|j: int| b <= j < hi ==> is_white_space(#[trigger] s@[j]),
        decreases b,
    {
        b = b - 1;
    }
    proof {
        let t = s@.subrange(a as int, hi as int);
        assert forall|j: int| (b - a) <= j < t.len() implies is_white_space(#[trigger] t[j]) by {
            assert(t[j] == s@[a + j]);
        }
        lemma_trim_end_prefix(t, b - a);
        let u = t.subrange(0, b - a);
        assert(u =~= s@.subrange(a as int, b as int));
        if u.len() > 0 {
            assert(u.last() == s@[b - 1]);
        }
        assert(trim_end(u) == u);
    }
    (a, b)
}

/// Bounds `(lo, hi)` such that `strip_hashes(trim(s))` is `s[lo..hi]`.
pub fn trimmed_color_bounds(s: &Vec<char>) -> (r: (usize, usize))
    ensures
        r.0 <= r.1 <= s@.len(),
        strip_hashes(trim(s@)) == s@.subrange(r.0 as int, r.1 as int),
{
    let n = s.len();
    let mut lo: usize = 0;
    while lo < n && is_white_space_char(s[lo])
        invariant
            n == s@.len(),
            lo <= n,
            forall|j: int| 0 <= j < lo ==> is_white_space(#[trigger] s@[j]),
        decreases n - lo,
    {
        lo = lo + 1;
    }
    proof {
        lemma_trim_start_suffix(s@, lo as int);
        let t = s@.subrange(lo as int, n as int);
        if t.len() > 0 {
            assert(t[0] == s@[lo as int]);
        }
        assert(trim_start(t) == t);
    }
    let mut hi: usize = n;
    while hi > lo && is_white_space_char(s[hi - 1])
        invariant
            n == s@.len(),
            lo <= hi <= n,
            forall|j: int| hi <= j < n ==> is_white_space(#[trigger] s@[j]),
        decreases hi,
    {
        hi = hi - 1;
    }
    proof {
        let t = s@.subrange(lo as int, n as int);
        assert forall|j: int| (hi - lo) <= j < t.len() implies is_white_space(#[trigger] t[j]) by {
            assert(t[j] == s@[lo + j]);
        }
        lemma_trim_end_prefix(t, hi - lo);
        let u = t.subrange(0, hi - lo);
        assert(u =~= s@.subrange(lo as int, hi as int));
        if u.len() > 0 {
            assert(u.last() == s@[hi - 1]);
        }
        assert(trim_end(u) == u);
    }
    let mut start: usize = lo;
    while start < hi && s[start] == '#'
        invariant
            n == s@.len(),
            lo <= start <= hi <= n,
            forall|j: int| lo <= j < start ==> #[trigger] s@[j] == '#',
        decreases hi - start,
    {
        start = start + 1;
    }
    proof {
        let u = s@.subrange(lo as int, hi as int);
        assert forall|j: int| 0 <= j < start - lo implies #[trigger] u[j] == '#' by {
            assert(u[j] == s@[lo + j]);
        }
        lemma_strip_hashes_suffix(u, start - lo);
        let w = u.subrange(start - lo, u.len() as int);
        assert(w =~= s@.subrange(start as int, hi as int));
        if w.len() > 0 {
            assert(w[0] == s@[start as int]);
        }
        assert(strip_hashes(w) == w);
    }
    (start, hi)
}

/// Validate a colour and bring it to canonical form (six lower-case hex
/// digits, no `#`), or `None` if it is not an RGB colour.
pub fn normalize_color(color: &str) -> (r: Option<String>)
    ensures
        match r {
            Some(c) => normalized(color@) == Some(c@),
            None => normalized(color@) is None,
        },
{
    let cs = chars_of(color);
    let (lo, hi) = trimmed_color_bounds(&cs);
    let ghost c = cs@.subrange(lo as int, hi as int);
    assert(c == strip_hashes(trim(color@)));
    if hi - lo != BYTES_PER_PIXEL {
        assert(c.len() != BYTES_PER_PIXEL);
        return None;
    }
    let mut out = String::new();
    let mut i: usize = lo;
    while i < hi
        invariant
            cs@ == color@,
            lo <= i <= hi <= cs@.len(),
            hi - lo == BYTES_PER_PIXEL,
            c == cs@.subrange(lo as int, hi as int),
            c == strip_hashes(trim(color@)),
            forall|j: int| 0 <= j < i - lo ==> is_hex_digit(#[trigger] c[j]),
            out@ == c.subrange(0, i - lo).map_values(|ch: char| lower(ch)),
        decreases hi - i,
    {
        let ch = cs[i];
        if !is_hex_digit_char(ch) {
            assert(c[i - lo] == ch);
            assert(!all_hex(c));
            return None;
        }
        let l = lower_char(ch);
        out.push(l);
        proof {
            assert(c[i - lo] == ch);
            assert(c.subrange(0, i + 1 - lo).map_values(|ch: char| lower(ch)) =~= c.subrange(
                0,
                i - lo,
            ).map_values(|ch: char| lower(ch)).push(lower(ch)));
        }
        i = i + 1;
    }
    assert(c.subrange(0, c.len() as int) =~= c);
    Some(out)
}

/// Normalising twice changes nothing: a canonical colour is its own
/// canonical form.
pub proof fn normalized_is_idempotent(color: Seq<char>)
    requires
        normalized(color) is Some,
    ensures
        is_canonical_color(normalized(color)->0),
        normalized(normalized(color)->0) == normalized(color),
{
    let c = strip_hashes(trim(color));
    let l = c.map_values(|ch: char| lower(ch));
    assert forall|i: int| 0 <= i < l.len() implies ('0' <= #[trigger] l[i] <= '9' || 'a' <= l[i]
        <= 'f') by {
        assert(is_hex_digit(c[i]));
    }
    lemma_canonical_fixed(l);
}

/// A canonical colour normalises to itself.
pub proof fn lemma_canonical_fixed(l: Seq<char>)
    requires
        is_canonical_color(l),
    ensures
        normalized(l) == Some(l),
{
    if l.len() > 0 {
        assert(!is_white_space(l[0]));
        assert(!is_white_space(l.last()));
        assert(l[0] != '#');
    }
    assert(trim_start(l) == l);
    assert(trim_end(l) == l);
    assert(strip_hashes(l) == l);
    assert(all_hex(l));
    assert(l.map_values(|ch: char| lower(ch)) =~= l);
}


/// Text that neither starts nor ends with white space and does not start
/// with `#` is its own colour body.
pub proof fn lemma_no_trim_no_hash(t: Seq<char>)
    requires
        t.len() > 0 ==> !is_white_space(t[0]) && !is_white_space(t.last()) && t[0] != '#',
    ensures
        strip_hashes(trim(t)) == t,
{
    assert(trim_start(t) == t);
    assert(trim_end(t) == t);
    assert(strip_hashes(t) == t);
}
} // verus!
