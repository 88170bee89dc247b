//! Reading the clocks. Their readings are outside values: nothing is known of
//! them beyond their type, and the logic that uses them takes them as
//! arguments.

use vstd::prelude::*;
use std::time::{Duration, Instant, SystemTime, SystemTimeError};

verus! {

#[verifier::external_type_specification]
#[verifier::external_body]
pub struct ExSystemTime(SystemTime);

#[verifier::external_type_specification]
#[verifier::external_body]
pub struct ExSystemTimeError(SystemTimeError);

#[verifier::external_type_specification]
#[verifier::external_body]
pub struct ExInstant(Instant);

/// `SystemTime::now`: the wall clock; nothing is known of its reading.
#[verifier::external_body]
fn system_now() -> SystemTime {
    SystemTime::now()
}

/// `SystemTime::duration_since(UNIX_EPOCH)`: fails when the clock is set
/// before 1970; nothing is known of the duration.
#[verifier::external_body]
fn since_unix_epoch(t: &SystemTime) -> Result<Duration, SystemTimeError> {
    t.duration_since(std::time::UNIX_EPOCH)
}

/// `Duration::as_secs`: whole seconds of an opaque duration.
#[verifier::external_body]
fn duration_secs(d: &Duration) -> u64 {
    d.as_secs()
}

/// `Duration::as_nanos`: nanoseconds of an opaque duration.
#[verifier::external_body]
fn duration_nanos(d: &Duration) -> u128 {
    d.as_nanos()
}

/// `Instant::now`: the monotonic clock.
#[verifier::external_body]
pub(crate) fn instant_now() -> Instant {
    Instant::now()
}

/// `Instant::elapsed`: time passed since `t`.
#[verifier::external_body]
fn instant_elapsed(t: &Instant) -> Duration {
    t.elapsed()
}

/// Whole seconds since the Unix epoch, if the clock is after it.
pub fn unix_secs() -> Option<u64> {
    match since_unix_epoch(&system_now()) {
        Ok(d) => Some(duration_secs(&d)),
        Err(_) => None,
    }
}

/// A nanosecond count cut to its low 64 bits (`as u64`).
pub fn nanos_u64(n: u128) -> (r: u64)
    ensures
        r == n as u64,
{
    n as u64
}

/// A nanosecond count, saturating at `u64::MAX`.
pub fn saturate_nanos(n: u128) -> (r: u64)
    ensures
        r == if n > u64::MAX {
            u64::MAX
        } else {
            n as u64
        },
{
    if n > u64::MAX as u128 {
        u64::MAX
    } else {
        n as u64
    }
}

/// Nanoseconds since the Unix epoch, cut to 64 bits, if the clock is after it.
pub fn unix_nanos() -> Option<u64> {
    match since_unix_epoch(&system_now()) {
        Ok(d) => Some(nanos_u64(duration_nanos(&d))),
        Err(_) => None,
    }
}

/// Nanoseconds passed since `t`, saturating at `u64::MAX`.
pub fn nanos_since(t: &Instant) -> u64 {
    saturate_nanos(duration_nanos(&instant_elapsed(t)))
}

/// Whole seconds since the Unix epoch, given the clock's reading; 0 when
/// the clock reads before the epoch.
pub open spec fn epoch_secs(since_epoch: Option<u64>) -> u64 {
    match since_epoch {
        Some(s) => s,
        None => 0,
    }
}

/// `epoch_secs` as an unsigned number.
pub fn unsigned_secs_or_zero(since_epoch: Option<u64>) -> (r: u64)
    ensures
        r == epoch_secs(since_epoch),
{
    match since_epoch {
        Some(s) => s,
        None => 0,
    }
}

/// `epoch_secs` as a signed number (the cast wraps past `i64::MAX`).
pub fn secs_or_zero(since_epoch: Option<u64>) -> (r: i64)
    ensures
        r == epoch_secs(since_epoch) as i64,
        r >= 0 <==> epoch_secs(since_epoch) <= i64::MAX,
{
    let s = unsigned_secs_or_zero(since_epoch);
    assert((s as i64) >= 0 <==> s <= 0x7fff_ffff_ffff_ffffu64) by (bit_vector);
    #[verifier::truncate]
    (s as i64)
}

/// Current Unix time in seconds (used as the heartbeat score for viewers).
pub fn now_secs() -> i64 {
    secs_or_zero(unix_secs())
}

} // verus!
