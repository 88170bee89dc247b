//! Decisions taken on what a shared store (Redis) answered, when the canvas
//! and the counters live there rather than in this process.

use vstd::prelude::*;
use crate::errors::ApiError;

verus! {

/// Verdict on a paint counted in the shared store: `count` is the token's
/// counter after this paint; past `rate_limit` the paint is refused. (A
/// negative count reads as a huge one, as the cast does.)
pub fn rate_verdict(count: i64, rate_limit: u64) -> (r: Result<(), ApiError>)
    ensures
        r == if count as u64 > rate_limit {
            Err::<(), ApiError>(ApiError::RateLimited)
        } else {
            Ok(())
        },
{
    if count as u64 > rate_limit {
        Err(ApiError::RateLimited)
    } else {
        Ok(())
    }
}

/// The first paint of a window starts it: the counter's expiry is set then.
pub fn starts_window(count: i64) -> (b: bool)
    ensures
        b == (count == 1),
{
    count == 1
}

/// A counter read from the store: absent or negative reads as 0.
pub fn stored_counter(v: Option<i64>) -> (n: u64)
    ensures
        n == match v {
            Some(k) => if k < 0 {
                0
            } else {
                k as u64
            },
            None => 0u64,
        },
{
    match v {
        Some(k) => if k < 0 {
            0
        } else {
            k as u64
        },
        None => 0,
    }
}

/// Viewers whose heartbeat score (Unix seconds) is at or below the cutoff
/// have gone stale. The subtraction wraps on overflow.
pub fn presence_cutoff(now_secs: i64, ttl_secs: i64) -> (c: i64)
    ensures
        c == vstd::wrapping::i64_specs::wrapping_sub(now_secs, ttl_secs),
        i64::MIN <= now_secs - ttl_secs <= i64::MAX ==> c == now_secs - ttl_secs,
{
    now_secs.wrapping_sub(ttl_secs)
}

/// `prefix` followed by `name`.
pub fn prefixed(prefix: &str, name: &str) -> (k: String)
    ensures
        k@ == prefix@ + name@,
{
    let mut k = prefix.to_owned();
    k.append(name);
    k
}

/// Store key under which a token is recorded: `token:<token>`.
pub fn token_key(token: &str) -> (k: String)
    ensures
        k@ == "token:"@ + token@,
{
    prefixed("token:", token)
}

/// Store key of a token's paint counter: `rate:<token>`.
pub fn rate_key(token: &str) -> (k: String)
    ensures
        k@ == "rate:"@ + token@,
{
    prefixed("rate:", token)
}

/// Store key of an admin session: `admin:session:<id>`.
pub fn session_key(sid: &str) -> (k: String)
    ensures
        k@ == "admin:session:"@ + sid@,
{
    prefixed("admin:session:", sid)
}

} // verus!
