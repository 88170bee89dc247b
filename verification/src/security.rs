//! Password and cookie handling for the admin area.

use vstd::prelude::*;
use crate::color::{trim, trim_bounds};
use crate::text::chars_of;

verus! {

/// Length-aware comparison of two byte strings that touches every byte of
/// equal-length inputs, so the time taken does not reveal where they differ.
pub fn constant_time_eq(a: &[u8], b: &[u8]) -> (eq: bool)
    ensures
        eq == (a@ == b@),
{
    if a.len() != b.len() {
        return false;
    }
    let mut diff: u8 = 0;
    let mut i: usize = 0;
    while i < a.len()
        invariant
            a.len() == b.len(),
            i <= a.len(),
            diff == 0 <==> (forall|j: int| 0 <= j < i ==> a@[j] == b@[j]),
        decreases a.len() - i,
    {
        let x = a[i];
        let y = b[i];
        let d = diff;
        assert((d | (x ^ y)) == 0u8 <==> (d == 0u8 && x == y)) by (bit_vector);
        diff = d | (x ^ y);
        i = i + 1;
    }
    if diff == 0 {
        assert(a@ =~= b@);
        true
    } else {
        false
    }
}


/// Index of the first `c` in `s`, or `s.len()` if there is none.
pub open spec fn first_index_of(s: Seq<char>, c: char) -> int
    decreases s.len(),
{
    if s.len() == 0 {
        0
    } else if s[0] == c {
        0
    } else {
        1 + first_index_of(s.drop_first(), c)
    }
}

proof fn lemma_first_index_of(s: Seq<char>, c: char, k: int)
    requires
        0 <= k <= s.len(),
        forall|j: int| 0 <= j < k ==> #[trigger] s[j] != c,
        k == s.len() || s[k] == c,
    ensures
        first_index_of(s, c) == k,
    decreases k,
{
    if k > 0 {
        assert forall|j: int| 0 <= j < k - 1 implies #[trigger] s.drop_first()[j] != c by {
            assert(s.drop_first()[j] == s[j + 1]);
        }
        if k < s.len() {
            assert(s.drop_first()[k - 1] == s[k]);
        }
        lemma_first_index_of(s.drop_first(), c, k - 1);
    }
}

/// The value of one `name=value` cookie pair, if its name (after trimming
/// the pair) is `admin_session`. The value runs from the first `=` on.
pub open spec fn session_pair_value(pair: Seq<char>) -> Option<Seq<char>> {
    let t = trim(pair);
    let e = first_index_of(t, '=');
    if e < t.len() && t.subrange(0, e) == "admin_session"@ {
        Some(t.subrange(e + 1, t.len() as int))
    } else {
        None
    }
}

/// The `admin_session` value of a `Cookie` header: the first of its
/// `;`-separated pairs that names it.
pub open spec fn session_cookie_value(header: Seq<char>) -> Option<Seq<char>>
    decreases header.len(),
{
    let i = first_index_of(header, ';');
    proof {
        lemma_first_index_bound(header, ';');
    }
    if session_pair_value(header.subrange(0, i)) is Some {
        session_pair_value(header.subrange(0, i))
    } else if i >= header.len() {
        None
    } else {
        session_cookie_value(header.subrange(i + 1, header.len() as int))
    }
}

pub proof fn lemma_first_index_bound(s: Seq<char>, c: char)
    ensures
        0 <= first_index_of(s, c) <= s.len(),
    decreases s.len(),
{
    if s.len() > 0 && s[0] != c {
        lemma_first_index_bound(s.drop_first(), c);
    }
}

/// The value of the `admin_session` pair in `s[lo..hi]`, if that is its name.
fn pair_value(s: &Vec<char>, lo: usize, hi: usize, name: &Vec<char>) -> (r: Option<String>)
    requires
        lo <= hi <= s@.len(),
        name@ == "admin_session"@,
    ensures
        match r {
            Some(v) => session_pair_value(s@.subrange(lo as int, hi as int)) == Some(v@),
            None => session_pair_value(s@.subrange(lo as int, hi as int)) is None,
        },
{
    let (a, b) = trim_bounds(s, lo, hi);
    let ghost t = s@.subrange(a as int, b as int);
    let mut e: usize = a;
    while e < b && s[e] != '='
        invariant
            a <= e <= b <= s@.len(),
            forall|j: int| a <= j < e ==> #[trigger] s@[j] != '=',
        decreases b - e,
    {
        e = e + 1;
    }
    proof {
        assert forall|j: int| 0 <= j < e - a implies #[trigger] t[j] != '=' by {
            assert(t[j] == s@[a + j]);
        }
        if e < b {
            assert(t[e - a] == s@[e as int]);
        }
        lemma_first_index_of(t, '=', e - a);
    }
    if e == b {
        return None;
    }
    // compare the name
    if e - a != name.len() {
        assert(t.subrange(0, e - a).len() != "admin_session"@.len());
        return None;
    }
    let mut k: usize = 0;
    while k < name.len()
        invariant
            t == s@.subrange(a as int, b as int),
            trim(s@.subrange(lo as int, hi as int)) == t,
            first_index_of(t, '=') == e - a,
            name@ == "admin_session"@,
            a <= e < b <= s@.len(),
            e - a == name@.len(),
            k <= name@.len(),
            forall|j: int| 0 <= j < k ==> s@[a + j] == #[trigger] name@[j],
        decreases name@.len() - k,
    {
        if s[a + k] != name[k] {
            assert(t.subrange(0, e - a)[k as int] == s@[a + k]);
            assert(t.subrange(0, e - a) != "admin_session"@);
            return None;
        }
        k = k + 1;
    }
    assert(t.subrange(0, e - a) =~= name@);
    let v = crate::text::string_of(s, e + 1, b);
    assert(t.subrange(e - a + 1, t.len() as int) =~= s@.subrange(e + 1, b as int));
    Some(v)
}

/// The `admin_session` value in a request's `Cookie` header, or the empty
/// string when there is no header or no such pair.
pub fn admin_session_cookie(header: Option<&str>) -> (sid: String)
    ensures
        sid@ == match header {
            Some(h) => match session_cookie_value(h@) {
                Some(v) => v,
                None => Seq::empty(),
            },
            None => Seq::empty(),
        },
{
    let h = match header {
        Some(h) => h,
        None => {
            return String::new();
        },
    };
    let cs = chars_of(h);
    let name = chars_of("admin_session");
    let n = cs.len();
    let mut pos: usize = 0;
    assert(cs@.subrange(0, n as int) =~= cs@);
    loop
        invariant
            header == Some(h),
            cs@ == h@,
            name@ == "admin_session"@,
            n == cs@.len(),
            pos <= n,
            session_cookie_value(h@) == session_cookie_value(cs@.subrange(pos as int, n as int)),
        decreases n - pos,
    {
        let ghost rest = cs@.subrange(pos as int, n as int);
        let mut i: usize = pos;
        while i < n && cs[i] != ';'
            invariant
                pos <= i <= n,
                n == cs@.len(),
                rest == cs@.subrange(pos as int, n as int),
                forall|j: int| pos <= j < i ==> #[trigger] cs@[j] != ';',
            decreases n - i,
        {
            i = i + 1;
        }
        proof {
            assert forall|j: int| 0 <= j < i - pos implies #[trigger] rest[j] != ';' by {
                assert(rest[j] == cs@[pos + j]);
            }
            if i < n {
                assert(rest[i - pos] == cs@[i as int]);
            }
            lemma_first_index_of(rest, ';', i - pos);
            assert(rest.subrange(0, i - pos) =~= cs@.subrange(pos as int, i as int));
        }
        match pair_value(&cs, pos, i, &name) {
            Some(v) => {
                assert(session_cookie_value(rest) == Some(v@));
                return v;
            },
            None => {},
        }
        if i == n {
            assert(session_cookie_value(rest) is None);
            return String::new();
        }
        proof {
            assert(rest.subrange(i - pos + 1, rest.len() as int) =~= cs@.subrange(
                i + 1,
                n as int,
            ));
        }
        pos = i + 1;
    }
}
} // verus!
