//! A small map keyed by strings, kept as a list of distinct keys.

use vstd::prelude::*;

verus! {

/// The map that a list of `(key, value)` pairs denotes; a later pair for the
/// same key overrides an earlier one.
pub open spec fn to_map<V>(s: Seq<(Seq<char>, V)>) -> Map<Seq<char>, V>
    decreases s.len(),
{
    if s.len() == 0 {
        Map::empty()
    } else {
        to_map(s.drop_last()).insert(s.last().0, s.last().1)
    }
}

pub open spec fn distinct_keys<V>(s: Seq<(Seq<char>, V)>) -> bool {
    forall|i: int, j: int| 0 <= i < j < s.len() ==> #[trigger] s[i].0 != #[trigger] s[j].0
}

pub proof fn lemma_to_map_dom<V>(s: Seq<(Seq<char>, V)>, k: Seq<char>)
    ensures
        to_map(s).contains_key(k) <==> exists|i: int| 0 <= i < s.len() && #[trigger] s[i].0 == k,
    decreases s.len(),
{
    if s.len() > 0 {
        lemma_to_map_dom(s.drop_last(), k);
        if to_map(s).contains_key(k) && s.last().0 != k {
            let i = choose|i: int| 0 <= i < s.drop_last().len() && #[trigger] s.drop_last()[i].0 == k;
            assert(s[i].0 == k);
        }
        if exists|i: int| 0 <= i < s.len() && #[trigger] s[i].0 == k {
            let i = choose|i: int| 0 <= i < s.len() && #[trigger] s[i].0 == k;
            if i < s.len() - 1 {
                assert(s.drop_last()[i].0 == k);
            }
        }
    }
}

pub proof fn lemma_to_map_value<V>(s: Seq<(Seq<char>, V)>, i: int)
    requires
        distinct_keys(s),
        0 <= i < s.len(),
    ensures
        to_map(s).contains_key(s[i].0),
        to_map(s)[s[i].0] == s[i].1,
    decreases s.len(),
{
    if i < s.len() - 1 {
        let t = s.drop_last();
        assert(t[i] == s[i]);
        lemma_to_map_value(t, i);
        assert(s[i].0 != s[s.len() - 1].0);
    }
}

pub proof fn lemma_to_map_finite<V>(s: Seq<(Seq<char>, V)>)
    ensures
        to_map(s).dom().finite(),
        distinct_keys(s) ==> to_map(s).dom().len() == s.len(),
    decreases s.len(),
{
    if s.len() > 0 {
        let t = s.drop_last();
        lemma_to_map_finite(t);
        if distinct_keys(s) {
            assert(distinct_keys(t)) by {
                assert forall|i: int, j: int| 0 <= i < j < t.len() implies #[trigger] t[i].0
                    != #[trigger] t[j].0 by {
                    assert(t[i] == s[i] && t[j] == s[j]);
                }
            }
            lemma_to_map_dom(t, s.last().0);
            if to_map(t).contains_key(s.last().0) {
                let i = choose|i: int| 0 <= i < t.len() && #[trigger] t[i].0 == s.last().0;
                assert(s[i].0 == s[s.len() - 1].0);
            }
        }
    }
}

proof fn lemma_distinct_prefix<V>(s: Seq<(Seq<char>, V)>)
    requires
        distinct_keys(s),
        s.len() > 0,
    ensures
        distinct_keys(s.drop_last()),
        !to_map(s.drop_last()).contains_key(s.last().0),
{
    let t = s.drop_last();
    assert forall|i: int, j: int| 0 <= i < j < t.len() implies #[trigger] t[i].0
        != #[trigger] t[j].0 by {
        assert(t[i] == s[i] && t[j] == s[j]);
    }
    lemma_to_map_dom(t, s.last().0);
    if to_map(t).contains_key(s.last().0) {
        let i = choose|i: int| 0 <= i < t.len() && #[trigger] t[i].0 == s.last().0;
        assert(s[i].0 == s[s.len() - 1].0);
    }
}

pub proof fn lemma_to_map_update<V>(s: Seq<(Seq<char>, V)>, i: int, v: V)
    requires
        distinct_keys(s),
        0 <= i < s.len(),
    ensures
        distinct_keys(s.update(i, (s[i].0, v))),
        to_map(s.update(i, (s[i].0, v))) == to_map(s).insert(s[i].0, v),
    decreases s.len(),
{
    let u = s.update(i, (s[i].0, v));
    assert(distinct_keys(u)) by {
        assert forall|a: int, b: int| 0 <= a < b < u.len() implies #[trigger] u[a].0
            != #[trigger] u[b].0 by {
            assert(u[a].0 == s[a].0 && u[b].0 == s[b].0);
        }
    }
    let t = s.drop_last();
    lemma_distinct_prefix(s);
    if i == s.len() - 1 {
        assert(u.drop_last() =~= t);
        assert(to_map(u) =~= to_map(s).insert(s[i].0, v));
    } else {
        lemma_to_map_update(t, i, v);
        assert(u.drop_last() =~= t.update(i, (t[i].0, v)));
        assert(s.last().0 != s[i].0);
        assert(to_map(u) =~= to_map(s).insert(s[i].0, v));
    }
}

pub proof fn lemma_to_map_push<V>(s: Seq<(Seq<char>, V)>, k: Seq<char>, v: V)
    requires
        distinct_keys(s),
        !to_map(s).contains_key(k),
    ensures
        distinct_keys(s.push((k, v))),
        to_map(s.push((k, v))) == to_map(s).insert(k, v),
{
    let u = s.push((k, v));
    assert(u.drop_last() =~= s);
    assert forall|a: int, b: int| 0 <= a < b < u.len() implies #[trigger] u[a].0
        != #[trigger] u[b].0 by {
        if b == s.len() {
            assert(u[a] == s[a]);
            lemma_to_map_dom(s, k);
        } else {
            assert(u[a] == s[a] && u[b] == s[b]);
        }
    }
}

pub proof fn lemma_to_map_remove<V>(s: Seq<(Seq<char>, V)>, i: int)
    requires
        distinct_keys(s),
        0 <= i < s.len(),
    ensures
        distinct_keys(s.remove(i)),
        to_map(s.remove(i)) == to_map(s).remove(s[i].0),
    decreases s.len(),
{
    let r = s.remove(i);
    assert(distinct_keys(r)) by {
        assert forall|a: int, b: int| 0 <= a < b < r.len() implies #[trigger] r[a].0
            != #[trigger] r[b].0 by {
            let a2 = if a < i { a } else { a + 1 };
            let b2 = if b < i { b } else { b + 1 };
            assert(r[a] == s[a2] && r[b] == s[b2]);
        }
    }
    let t = s.drop_last();
    lemma_distinct_prefix(s);
    if i == s.len() - 1 {
        assert(r =~= t);
        assert(to_map(r) =~= to_map(s).remove(s[i].0));
    } else {
        lemma_to_map_remove(t, i);
        assert(r.drop_last() =~= t.remove(i));
        assert(r.last() == s.last());
        assert(s.last().0 != s[i].0);
        assert(to_map(r) =~= to_map(s).remove(s[i].0));
    }
}

/// A map keyed by strings; lookups compare the keys' text.
pub struct StrMap<V> {
    entries: Vec<(String, V)>,
}

impl<V: Copy> StrMap<V> {
    pub closed spec fn pairs(&self) -> Seq<(Seq<char>, V)> {
        self.entries@.map_values(|e: (String, V)| (e.0@, e.1))
    }

    /// What the map holds.
    pub closed spec fn view(&self) -> Map<Seq<char>, V> {
        to_map(self.pairs())
    }

    /// Each key occurs once.
    pub closed spec fn wf(&self) -> bool {
        distinct_keys(self.pairs())
    }

    pub fn new() -> (m: Self)
        ensures
            m.wf(),
            m@ == Map::<Seq<char>, V>::empty(),
    {
        let m = StrMap { entries: Vec::new() };
        assert(m.pairs() =~= Seq::<(Seq<char>, V)>::empty());
        m
    }

    /// Position of `k` in the list, if present.
    fn find(&self, k: &str) -> (r: Option<usize>)
        requires
            self.wf(),
        ensures
            match r {
                Some(i) => i < self.entries@.len() && self.pairs()[i as int].0 == k@
                    && self@.contains_key(k@) && self@[k@] == self.pairs()[i as int].1,
                None => !self@.contains_key(k@),
            },
    {
        let mut i: usize = 0;
        while i < self.entries.len()
            invariant
                self.wf(),
                i <= self.entries@.len(),
                forall|j: int| 0 <= j < i ==> #[trigger] self.pairs()[j].0 != k@,
            decreases self.entries@.len() - i,
        {
            if self.entries[i].0 == k.to_owned() {
                proof {
                    lemma_to_map_value(self.pairs(), i as int);
                }
                return Some(i);
            }
            i = i + 1;
        }
        proof {
            lemma_to_map_dom(self.pairs(), k@);
        }
        None
    }

    pub fn get(&self, k: &str) -> (r: Option<V>)
        requires
            self.wf(),
        ensures
            r == self@.get(k@),
    {
        match self.find(k) {
            Some(i) => Some(self.entries[i].1),
            None => None,
        }
    }

    pub fn contains(&self, k: &str) -> (b: bool)
        requires
            self.wf(),
        ensures
            b == self@.contains_key(k@),
    {
        self.find(k).is_some()
    }

    pub fn insert(&mut self, k: &str, v: V)
        requires
            old(self).wf(),
        ensures
            final(self).wf(),
            final(self)@ == old(self)@.insert(k@, v),
    {
        match self.find(k) {
            Some(i) => {
                let ghost s = self.pairs();
                self.entries.set(i, (k.to_owned(), v));
                proof {
                    lemma_to_map_update(s, i as int, v);
                    assert(self.pairs() =~= s.update(i as int, (s[i as int].0, v)));
                }
            },
            None => {
                let ghost s = self.pairs();
                self.entries.push((k.to_owned(), v));
                proof {
                    lemma_to_map_push(s, k@, v);
                    assert(self.pairs() =~= s.push((k@, v)));
                }
            },
        }
    }

    pub fn remove(&mut self, k: &str)
        requires
            old(self).wf(),
        ensures
            final(self).wf(),
            final(self)@ == old(self)@.remove(k@),
    {
        match self.find(k) {
            Some(i) => {
                let ghost s = self.pairs();
                self.entries.remove(i);
                proof {
                    lemma_to_map_remove(s, i as int);
                    assert(self.pairs() =~= s.remove(i as int));
                }
            },
            None => {
                assert(self@ =~= old(self)@.remove(k@));
            },
        }
    }

    pub fn len(&self) -> (n: usize)
        requires
            self.wf(),
        ensures
            self@.dom().finite(),
            n == self@.dom().len(),
    {
        proof {
            lemma_to_map_finite(self.pairs());
        }
        self.entries.len()
    }
}

/// Entries of `m` seen less than `ttl` before `now` (an entry stamped after
/// `now` counts as just seen).
pub open spec fn recent(m: Map<Seq<char>, u64>, now: u64, ttl: u64) -> Map<Seq<char>, u64> {
    Map::new(|k: Seq<char>| m.contains_key(k) && elapsed(m[k], now) < ttl, |k: Seq<char>| m[k])
}

/// Time from `then` to `now`, zero if `then` is later.
pub open spec fn elapsed(then: u64, now: u64) -> int {
    if now >= then {
        now - then
    } else {
        0
    }
}

impl StrMap<u64> {
    /// Drop the entries stamped `ttl` or more before `now`.
    pub fn retain_recent(&mut self, now: u64, ttl: u64)
        requires
            old(self).wf(),
        ensures
            final(self).wf(),
            final(self)@ == recent(old(self)@, now, ttl),
    {
        let ghost s = self.pairs();
        let mut kept: Vec<(String, u64)> = Vec::new();
        let mut i: usize = 0;
        while i < self.entries.len()
            invariant
                s == self.pairs(),
                distinct_keys(s),
                i <= s.len(),
                distinct_keys(kept@.map_values(|e: (String, u64)| (e.0@, e.1))),
                forall|j: int|
                    #![trigger kept@[j]]
                    0 <= j < kept@.len() ==> exists|a: int|
                        0 <= a < i && #[trigger] s[a] == (kept@[j].0@, kept@[j].1),
                to_map(kept@.map_values(|e: (String, u64)| (e.0@, e.1))) == recent(
                    to_map(s.take(i as int)),
                    now,
                    ttl,
                ),
            decreases s.len() - i,
        {
            let ghost ks = kept@.map_values(|e: (String, u64)| (e.0@, e.1));
            let ghost t = s.take(i as int);
            let ghost t1 = s.take(i + 1);
            assert(t1.drop_last() =~= t);
            assert(t1.last() == s[i as int]);
            let seen = self.entries[i].1;
            proof {
                lemma_distinct_prefix(t1);
            }
            let age: u64 = if now >= seen { now - seen } else { 0 };
            if age < ttl {
                let e = (self.entries[i].0.clone(), seen);
                let ghost kept_before = kept@;
                kept.push(e);
                proof {
                    let ks2 = kept@.map_values(|e: (String, u64)| (e.0@, e.1));
                    assert(ks2 =~= ks.push(s[i as int]));
                    if to_map(ks).contains_key(s[i as int].0) {
                        lemma_to_map_dom(ks, s[i as int].0);
                        let j = choose|j: int| 0 <= j < ks.len() && #[trigger] ks[j].0 == s[i as int].0;
                        assert(ks[j] == (kept_before[j].0@, kept_before[j].1));
                        let a = choose|a: int| 0 <= a < i && #[trigger] s[a] == (kept_before[j].0@, kept_before[j].1);
                        assert(s[a].0 == s[i as int].0);
                    }
                    lemma_to_map_push(ks, s[i as int].0, seen);
                    assert(s[i as int].1 == seen);
                    assert(to_map(t1) == to_map(t).insert(s[i as int].0, seen));
                    assert(!to_map(t).contains_key(s[i as int].0));
                    assert(to_map(ks2) =~= recent(to_map(t1), now, ttl));
                    assert forall|j: int| #![trigger kept@[j]] 0 <= j < kept@.len() implies exists|a: int|
                        0 <= a < i + 1 && #[trigger] s[a] == (kept@[j].0@, kept@[j].1) by {
                        if j == kept@.len() - 1 {
                            assert(s[i as int] == (kept@[j].0@, kept@[j].1));
                        } else {
                            assert(kept@[j] == kept_before[j]);
                        }
                    }
                }
            } else {
                proof {
                    assert(s[i as int].1 == seen);
                    assert(to_map(t1) == to_map(t).insert(s[i as int].0, seen));
                    assert(!to_map(t).contains_key(s[i as int].0));
                    assert(to_map(ks) =~= recent(to_map(t1), now, ttl));
                }
            }
            i = i + 1;
        }
        proof {
            assert(s.take(s.len() as int) =~= s);
        }
        self.entries = kept;
    }
}

} // verus!
