//! The client's on-disk token cache: a JSON object that maps each host to
//! its entries `{"registered_at": <Unix seconds>, "token": <text>}`.

use vstd::prelude::*;
use serde_json::Value;
use crate::push::{CachedEntry, TOKEN_CACHE_TTL_SECS, cache_cutoff, cutoff_at, entry_view, fresh_cached_tokens, fresh_tokens};

verus! {

/// One entry of the cache as it is read: its stamp, when that is an
/// unsigned integer, and its token, when that is text.
pub struct CacheRecord {
    pub registered_at: Option<u64>,
    pub token: Option<String>,
}

pub open spec fn opt_text(o: Option<String>) -> Option<Seq<char>> {
    match o {
        Some(t) => Some(t@),
        None => None,
    }
}

pub open spec fn record_view(r: CacheRecord) -> (Option<u64>, Option<Seq<char>>) {
    (r.registered_at, opt_text(r.token))
}

pub open spec fn records_view(r: Option<Option<Vec<CacheRecord>>>) -> Option<Option<Seq<(Option<u64>, Option<Seq<char>>)>>> {
    match r {
        Some(Some(v)) => Some(Some(v@.map_values(|e: CacheRecord| record_view(e)))),
        Some(None) => Some(None),
        None => None,
    }
}

/// What the cache text holds for `host`: `None` when the text is not JSON;
/// `Some(None)` when the value under `host` is not an array; otherwise its
/// entries.
pub uninterp spec fn cache_json(text: Seq<char>, host: Seq<char>) -> Option<Option<Seq<(Option<u64>, Option<Seq<char>>)>>>;

/// The cache text after saving at `now`: the entries at positions `kept` of
/// the old array under `host`, as they were, then one entry per token of
/// `tokens` stamped `now`; `None` where the old text is JSON but neither an
/// object nor `null`, so that it cannot take a host.
pub uninterp spec fn cache_file(old: Option<Seq<char>>, host: Seq<char>, kept: Seq<usize>, tokens: Seq<Seq<char>>, now: u64) -> Option<Seq<char>>;

/// The records that the cache text holds for `host` (none when there is no
/// text, it is not JSON, or the value under `host` is not an array).
pub open spec fn host_records(text: Option<Seq<char>>, host: Seq<char>) -> Seq<(Option<u64>, Option<Seq<char>>)> {
    match text {
        Some(t) => match cache_json(t, host) {
            Some(Some(r)) => r,
            _ => Seq::empty(),
        },
        None => Seq::empty(),
    }
}

/// `serde_json::from_str` into a `Value`, then the array under `host` (by
/// `Index`) read entry by entry with `as_u64` and `as_str`. The result is a
/// function of the text and the host, named `cache_json`.
#[verifier::external_body]
fn cache_entries(text: &str, host: &str) -> (r: Option<Option<Vec<CacheRecord>>>)
    ensures
        records_view(r) == cache_json(text@, host@),
{
    let root = serde_json::from_str::<Value>(text).ok()?;
    Some(root[host].as_array().map(|a| a.iter().map(|e| CacheRecord {
        registered_at: e["registered_at"].as_u64(),
        token: e["token"].as_str().map(str::to_string),
    }).collect()))
}

/// `serde_json::from_str` on the old text (an empty object when there is
/// none or it is not JSON); a new array set under `host` (by `IndexMut`,
/// which takes an object or `null` and panics on any other value: those
/// give `None` here) holding the old array's entries at positions `kept`,
/// cloned as they are, then `{"registered_at": now, "token": t}` for each
/// new token; then `serde_json::to_string_pretty`. Reading the written text
/// back gives those entries' records.
#[verifier::external_body]
fn cache_text(old: Option<String>, host: &str, kept: &Vec<usize>, tokens: &Vec<String>, now: u64) -> (r: Option<String>)
    requires
        forall|j: int| 0 <= j < kept@.len() ==> (#[trigger] kept@[j] as int) < host_records(opt_text(old), host@).len(),
    ensures
        opt_text(r) == cache_file(opt_text(old), host@, kept@, strings_of(tokens@), now),
        r matches Some(t) ==> cache_json(t@, host@) == Some(Some(written_records(
            host_records(opt_text(old), host@),
            kept@,
            strings_of(tokens@),
            now,
        ))),
{
    let mut root = match old.map(|t| serde_json::from_str::<Value>(&t)) {
        Some(Ok(v)) => v,
        _ => Value::Object(serde_json::Map::new()),
    };
    if let Value::Bool(_) | Value::Number(_) | Value::String(_) | Value::Array(_) = root {
        return None;
    }
    let old_list = root[host].as_array().cloned().unwrap_or_default();
    root[host] = kept.iter().map(|&i| old_list[i].clone()).chain(tokens.iter().map(|t| {
        Value::from_iter([("registered_at", Value::from(now)), ("token", Value::from(t.as_str()))])
    })).collect();
    serde_json::to_string_pretty(&root).ok()
}

/// The records of the written entries: the old records at positions `kept`,
/// then the new tokens stamped `now`.
pub open spec fn written_records(
    old: Seq<(Option<u64>, Option<Seq<char>>)>,
    kept: Seq<usize>,
    tokens: Seq<Seq<char>>,
    now: u64,
) -> Seq<(Option<u64>, Option<Seq<char>>)> {
    kept.map_values(|i: usize| old[i as int]) + tokens.map_values(|t: Seq<char>| (Some(now), Some(t)))
}

/// A record as an entry: a missing stamp reads as 0.
pub open spec fn record_entry(r: (Option<u64>, Option<Seq<char>>)) -> (u64, Option<Seq<char>>) {
    (
        match r.0 {
            Some(n) => n,
            None => 0,
        },
        r.1,
    )
}

/// The entries that the cache text holds for `host`: none when there is no
/// text, it is not JSON, or the value under `host` is not an array.
pub open spec fn host_entries(text: Option<Seq<char>>, host: Seq<char>) -> Seq<(u64, Option<Seq<char>>)> {
    host_records(text, host).map_values(|e: (Option<u64>, Option<Seq<char>>)| record_entry(e))
}

/// The first `k` entries that were registered at or after `cutoff`, in
/// order.
pub open spec fn kept_entries(entries: Seq<(u64, Option<Seq<char>>)>, cutoff: u64, k: int) -> Seq<(u64, Option<Seq<char>>)>
    decreases k,
{
    if k <= 0 {
        Seq::empty()
    } else {
        let before = kept_entries(entries, cutoff, k - 1);
        if entries[k - 1].0 >= cutoff {
            before.push(entries[k - 1])
        } else {
            before
        }
    }
}

/// New tokens, each stamped `now`.
pub open spec fn stamped(tokens: Seq<Seq<char>>, now: u64) -> Seq<(u64, Option<Seq<char>>)> {
    tokens.map_values(|t: Seq<char>| (now, Some(t)))
}

/// The entries of a host after saving at `now`: the old ones still fresh,
/// in order, then the new tokens stamped `now`.
pub open spec fn merged(old: Seq<(u64, Option<Seq<char>>)>, tokens: Seq<Seq<char>>, now: u64) -> Seq<(u64, Option<Seq<char>>)> {
    kept_entries(old, cutoff_at(now), old.len() as int) + stamped(tokens, now)
}

pub open spec fn strings_of(v: Seq<String>) -> Seq<Seq<char>> {
    v.map_values(|t: String| t@)
}

fn clone_text(o: &Option<String>) -> (r: Option<String>)
    ensures
        opt_text(r) == opt_text(*o),
{
    match o {
        Some(t) => Some(t.clone()),
        None => None,
    }
}

/// The entries of the cache text for `host`.
fn host_entries_of(text: &Option<String>, host: &str) -> (r: Vec<CachedEntry>)
    ensures
        r@.map_values(|e: CachedEntry| entry_view(e)) == host_entries(opt_text(*text), host@),
{
    let records = match text {
        Some(t) => match cache_entries(t.as_str(), host) {
            Some(Some(v)) => v,
            _ => Vec::new(),
        },
        None => Vec::new(),
    };
    let ghost rv = records@.map_values(|e: CacheRecord| record_view(e));
    proof {
        assert(host_entries(opt_text(*text), host@) =~= rv.map_values(
            |e: (Option<u64>, Option<Seq<char>>)| record_entry(e),
        ));
    }
    let mut r: Vec<CachedEntry> = Vec::new();
    let mut i: usize = 0;
    while i < records.len()
        invariant
            i <= records@.len(),
            rv == records@.map_values(|e: CacheRecord| record_view(e)),
            r@.map_values(|e: CachedEntry| entry_view(e)) == rv.map_values(
                |e: (Option<u64>, Option<Seq<char>>)| record_entry(e),
            ).take(i as int),
        decreases records@.len() - i,
    {
        let rec = &records[i];
        let stamp = match rec.registered_at {
            Some(n) => n,
            None => 0,
        };
        let ghost before = r@;
        let tok = clone_text(&rec.token);
        assert(rv[i as int] == record_view(records@[i as int]));
        let e = CachedEntry { registered_at: stamp, token: tok };
        assert(entry_view(e) == record_entry(rv[i as int]));
        r.push(e);
        assert(r@.map_values(|e: CachedEntry| entry_view(e)) =~= before.map_values(
            |e: CachedEntry| entry_view(e),
        ).push(record_entry(rv[i as int])));
        assert(r@.map_values(|e: CachedEntry| entry_view(e)) =~= rv.map_values(
            |e: (Option<u64>, Option<Seq<char>>)| record_entry(e),
        ).take(i + 1));
        i = i + 1;
    }
    assert(rv.map_values(|e: (Option<u64>, Option<Seq<char>>)| record_entry(e)).take(
        records@.len() as int,
    ) =~= rv.map_values(|e: (Option<u64>, Option<Seq<char>>)| record_entry(e)));
    r
}

/// The cached tokens for `host` that are fresh enough to reuse at `now`,
/// given the cache text (none when there is no text or it is not JSON).
pub fn cached_tokens(text: Option<String>, host: &str, now: u64) -> (r: Vec<String>)
    ensures
        strings_of(r@) == fresh_tokens(
            host_entries(opt_text(text), host@),
            cutoff_at(now),
            host_entries(opt_text(text), host@).len() as int,
        ),
{
    let entries = host_entries_of(&text, host);
    fresh_cached_tokens(&entries, cache_cutoff(now))
}

/// Positions, in order, of the first `k` entries registered at or after
/// `cutoff`.
pub open spec fn kept_positions_of(e: Seq<(u64, Option<Seq<char>>)>, cutoff: u64, k: int) -> Seq<usize>
    decreases k,
{
    if k <= 0 {
        Seq::empty()
    } else {
        let before = kept_positions_of(e, cutoff, k - 1);
        if e[k - 1].0 >= cutoff {
            before.push((k - 1) as usize)
        } else {
            before
        }
    }
}

proof fn lemma_kept_positions(e: Seq<(u64, Option<Seq<char>>)>, c: u64, k: int)
    requires
        0 <= k <= e.len(),
        e.len() <= usize::MAX,
    ensures
        forall|j: int| 0 <= j < kept_positions_of(e, c, k).len() ==> (#[trigger] kept_positions_of(e, c, k)[j] as int) < k,
        kept_positions_of(e, c, k).map_values(|i: usize| e[i as int]) == kept_entries(e, c, k),
    decreases k,
{
    if k > 0 {
        lemma_kept_positions(e, c, k - 1);
        let b = kept_positions_of(e, c, k - 1);
        if e[k - 1].0 >= c {
            assert(b.push((k - 1) as usize).map_values(|i: usize| e[i as int]) =~= b.map_values(
                |i: usize| e[i as int],
            ).push(e[k - 1]));
        }
    }
}

/// Positions of the entries that are kept when the cache is rewritten: those
/// registered at or after `cutoff`, in order.
pub fn kept_positions(entries: &Vec<CachedEntry>, cutoff: u64) -> (r: Vec<usize>)
    ensures
        r@ == kept_positions_of(
            entries@.map_values(|e: CachedEntry| entry_view(e)),
            cutoff,
            entries@.len() as int,
        ),
{
    let ghost ev = entries@.map_values(|e: CachedEntry| entry_view(e));
    let mut r: Vec<usize> = Vec::new();
    let mut i: usize = 0;
    while i < entries.len()
        invariant
            i <= entries@.len(),
            ev == entries@.map_values(|e: CachedEntry| entry_view(e)),
            r@ == kept_positions_of(ev, cutoff, i as int),
        decreases entries@.len() - i,
    {
        assert(ev[i as int] == entry_view(entries@[i as int]));
        if entries[i].registered_at >= cutoff {
            r.push(i);
        }
        i = i + 1;
    }
    r
}

/// The cache text after saving `new_tokens` for `host` at `now`, given the
/// old text: the host's entries still fresh are kept as they were, the new
/// tokens are appended, other hosts are left alone. `None` where the old
/// text is JSON that cannot take a host (neither an object nor `null`).
pub fn saved_cache_text(old: Option<String>, host: &str, new_tokens: &Vec<String>, now: u64) -> (r: Option<String>)
    ensures
        opt_text(r) == cache_file(
            opt_text(old),
            host@,
            kept_positions_of(
                host_entries(opt_text(old), host@),
                cutoff_at(now),
                host_entries(opt_text(old), host@).len() as int,
            ),
            strings_of(new_tokens@),
            now,
        ),
        r matches Some(t) ==> host_entries(Some(t@), host@) == merged(
            host_entries(opt_text(old), host@),
            strings_of(new_tokens@),
            now,
        ),
{
    let ghost ot = opt_text(old);
    let entries = host_entries_of(&old, host);
    let ghost ev = host_entries(ot, host@);
    let n = entries.len();
    let kept = kept_positions(&entries, cache_cutoff(now));
    proof {
        assert(ev.len() == entries@.map_values(|e: CachedEntry| entry_view(e)).len());
        assert(ev.len() == n);
        lemma_kept_positions(ev, cutoff_at(now), ev.len() as int);
        assert(host_records(ot, host@).len() == ev.len());
    }
    let r = cache_text(old, host, &kept, new_tokens, now);
    proof {
        if r is Some {
            let recs = host_records(ot, host@);
            let w = written_records(recs, kept@, strings_of(new_tokens@), now);
            let toks = strings_of(new_tokens@);
            assert forall|j: int| 0 <= j < kept@.len() implies ev[#[trigger] kept@[j] as int]
                == record_entry(recs[kept@[j] as int]) by {
                assert(kept@[j] < ev.len());
            }
            assert(w.map_values(|e: (Option<u64>, Option<Seq<char>>)| record_entry(e)) =~= kept@.map_values(
                |i: usize| ev[i as int],
            ) + stamped(toks, now));
        }
    }
    r
}

proof fn lemma_fresh_prefix(s1: Seq<(u64, Option<Seq<char>>)>, s2: Seq<(u64, Option<Seq<char>>)>, c: u64, k: int)
    requires
        0 <= k <= s1.len(),
        k <= s2.len(),
        forall|i: int| 0 <= i < k ==> s1[i] == s2[i],
    ensures
        fresh_tokens(s1, c, k) == fresh_tokens(s2, c, k),
    decreases k,
{
    if k > 0 {
        lemma_fresh_prefix(s1, s2, c, k - 1);
    }
}

proof fn lemma_fresh_append(a: Seq<(u64, Option<Seq<char>>)>, b: Seq<(u64, Option<Seq<char>>)>, c: u64)
    ensures
        fresh_tokens(a + b, c, (a.len() + b.len()) as int) == fresh_tokens(a, c, a.len() as int) + fresh_tokens(
            b,
            c,
            b.len() as int,
        ),
    decreases b.len(),
{
    if b.len() == 0 {
        lemma_fresh_prefix(a + b, a, c, a.len() as int);
        assert(fresh_tokens(b, c, 0) == Seq::<Seq<char>>::empty());
        assert(fresh_tokens(a, c, a.len() as int) + Seq::<Seq<char>>::empty() =~= fresh_tokens(a, c, a.len() as int));
    } else {
        let b1 = b.drop_last();
        lemma_fresh_append(a, b1, c);
        lemma_fresh_prefix(a + b, a + b1, c, (a.len() + b1.len()) as int);
        lemma_fresh_prefix(b, b1, c, b1.len() as int);
        assert((a + b)[a.len() + b.len() - 1] == b[b.len() - 1]);
        let fa = fresh_tokens(a, c, a.len() as int);
        let fb1 = fresh_tokens(b1, c, b1.len() as int);
        match b[b.len() - 1].1 {
            Some(t) => {
                assert(fa + fb1.push(t) =~= (fa + fb1).push(t));
            },
            None => {},
        }
    }
}

proof fn lemma_fresh_kept(e: Seq<(u64, Option<Seq<char>>)>, c: u64, k: int)
    requires
        0 <= k <= e.len(),
    ensures
        fresh_tokens(kept_entries(e, c, k), c, kept_entries(e, c, k).len() as int) == fresh_tokens(e, c, k),
    decreases k,
{
    if k > 0 {
        lemma_fresh_kept(e, c, k - 1);
        let before = kept_entries(e, c, k - 1);
        if e[k - 1].0 >= c {
            lemma_fresh_append(before, seq![e[k - 1]], c);
            assert(before + seq![e[k - 1]] =~= before.push(e[k - 1]));
            let fb = fresh_tokens(before, c, before.len() as int);
            let one = seq![e[k - 1]];
            assert(fresh_tokens(one, c, 0) == Seq::<Seq<char>>::empty());
            assert(one[0] == e[k - 1]);
            match e[k - 1].1 {
                Some(t) => {
                    assert(fresh_tokens(seq![e[k - 1]], c, 1) == Seq::<Seq<char>>::empty().push(t));
                    assert(fb + Seq::<Seq<char>>::empty().push(t) =~= fb.push(t));
                },
                None => {
                    assert(fresh_tokens(seq![e[k - 1]], c, 1) == Seq::<Seq<char>>::empty());
                    assert(fb + Seq::<Seq<char>>::empty() =~= fb);
                },
            }
        }
    }
}

proof fn lemma_fresh_stamped(t: Seq<Seq<char>>, now: u64, c: u64, k: int)
    requires
        0 <= k <= t.len(),
        c <= now,
    ensures
        fresh_tokens(stamped(t, now), c, k) == t.take(k),
    decreases k,
{
    if k > 0 {
        lemma_fresh_stamped(t, now, c, k - 1);
        assert(stamped(t, now)[k - 1] == (now, Some(t[k - 1])));
        assert(t.take(k - 1).push(t[k - 1]) =~= t.take(k));
    }
}

/// Tokens saved for a host at `now` are offered again when the cache is
/// read at that time: after the old entries that were still fresh, the new
/// tokens come back, in order.
pub proof fn saved_tokens_are_reused(old: Seq<(u64, Option<Seq<char>>)>, tokens: Seq<Seq<char>>, now: u64)
    ensures
        fresh_tokens(merged(old, tokens, now), cutoff_at(now), merged(old, tokens, now).len() as int)
            == fresh_tokens(old, cutoff_at(now), old.len() as int) + tokens,
{
    let c = cutoff_at(now);
    let kept = kept_entries(old, c, old.len() as int);
    let st = stamped(tokens, now);
    lemma_fresh_append(kept, st, c);
    lemma_fresh_kept(old, c, old.len() as int);
    lemma_fresh_stamped(tokens, now, c, tokens.len() as int);
    assert(tokens.take(tokens.len() as int) =~= tokens);
}

/// Tokens saved for a host are reused by every later read of the cache made
/// less than `TOKEN_CACHE_TTL_SECS` after the save: they come back, in
/// order, after whatever old entries are still fresh then; and no token
/// registered before the read's cutoff comes back.
pub proof fn saved_tokens_are_reused_later(
    old: Seq<(u64, Option<Seq<char>>)>,
    tokens: Seq<Seq<char>>,
    saved_at: u64,
    read_at: u64,
)
    requires
        saved_at <= read_at,
        read_at - saved_at < TOKEN_CACHE_TTL_SECS,
    ensures
        fresh_tokens(merged(old, tokens, saved_at), cutoff_at(read_at), merged(old, tokens, saved_at).len() as int)
            == fresh_tokens(
            kept_entries(old, cutoff_at(saved_at), old.len() as int),
            cutoff_at(read_at),
            kept_entries(old, cutoff_at(saved_at), old.len() as int).len() as int,
        ) + tokens,
        forall|k: int| 0 <= k <= merged(old, tokens, saved_at).len() ==> fresh_from(
            merged(old, tokens, saved_at),
            cutoff_at(read_at),
            k,
        ),
{
    let c = cutoff_at(read_at);
    let m = merged(old, tokens, saved_at);
    let kept = kept_entries(old, cutoff_at(saved_at), old.len() as int);
    lemma_fresh_append(kept, stamped(tokens, saved_at), c);
    lemma_fresh_stamped(tokens, saved_at, c, tokens.len() as int);
    assert(tokens.take(tokens.len() as int) =~= tokens);
    assert forall|k: int| 0 <= k <= m.len() implies fresh_from(m, c, k) by {
        lemma_fresh_from(m, c, k);
    }
}

/// Every token among the fresh ones of the first `k` entries comes from an
/// entry registered at or after `cutoff`.
pub open spec fn fresh_from(e: Seq<(u64, Option<Seq<char>>)>, cutoff: u64, k: int) -> bool {
    forall|j: int| 0 <= j < fresh_tokens(e, cutoff, k).len() ==> exists|i: int|
        0 <= i < k && e[i].0 >= cutoff && e[i].1 == Some(#[trigger] fresh_tokens(e, cutoff, k)[j])
}

proof fn lemma_fresh_from(e: Seq<(u64, Option<Seq<char>>)>, c: u64, k: int)
    requires
        0 <= k <= e.len(),
    ensures
        fresh_from(e, c, k),
    decreases k,
{
    if k > 0 {
        lemma_fresh_from(e, c, k - 1);
        let before = fresh_tokens(e, c, k - 1);
        let now = fresh_tokens(e, c, k);
        assert forall|j: int| 0 <= j < now.len() implies exists|i: int|
            0 <= i < k && e[i].0 >= c && e[i].1 == Some(#[trigger] now[j]) by {
            if j < before.len() {
                assert(now[j] == before[j]);
                let i = choose|i: int| 0 <= i < k - 1 && e[i].0 >= c && e[i].1 == Some(#[trigger] before[j]);
                assert(e[i].1 == Some(now[j]));
            } else {
                assert(e[k - 1].1 == Some(now[j]));
            }
        }
    }
}

} // verus!
