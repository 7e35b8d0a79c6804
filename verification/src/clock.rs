//! Wall-clock time in milliseconds since the Unix epoch.
use vstd::prelude::*;
use std::time::{Duration, SystemTime, SystemTimeError};

verus! {

#[verifier::external_type_specification]
#[verifier::external_body]
pub struct ExSystemTime(SystemTime);

#[verifier::external_type_specification]
#[verifier::external_body]
pub struct ExSystemTimeError(SystemTimeError);

/// `SystemTime::now`: the current wall-clock time. Nothing is promised of it.
#[verifier::external_body]
fn system_time_now() -> SystemTime {
    SystemTime::now()
}

/// `SystemTime::duration_since(UNIX_EPOCH)`: the time elapsed since the
/// epoch, or an error when `t` lies before it. Nothing is promised of which.
#[verifier::external_body]
fn since_unix_epoch(t: &SystemTime) -> Result<Duration, SystemTimeError> {
    t.duration_since(SystemTime::UNIX_EPOCH)
}

/// `Duration::as_millis`: the whole milliseconds of `d`. `Duration` is opaque
/// here, so nothing is stated of the value.
#[verifier::external_body]
fn duration_as_millis(d: &Duration) -> u128 {
    d.as_millis()
}

/// The clock's reading: whole milliseconds since the Unix epoch, or nothing
/// when the clock is set before the epoch. Nothing is promised of the value,
/// which is the time.
pub fn clock_reading() -> Option<u128> {
    let t = system_time_now();
    match since_unix_epoch(&t) {
        Ok(d) => Some(duration_as_millis(&d)),
        Err(_) => None,
    }
}

/// Milliseconds since the Unix epoch from a clock reading, keeping the low
/// 64 bits as the cast `as u64` does (truncated, not rounded); nothing for a
/// clock set before the epoch.
pub fn millis_since_epoch(reading: Option<u128>) -> (r: Option<u64>)
    ensures
        match reading {
            Some(ms) => r == Some(ms as u64),
            None => r.is_none(),
        },
        reading is Some && reading->0 <= u64::MAX ==> r is Some && r->0 == reading->0,
{
    match reading {
        Some(ms) => Some(ms as u64),
        None => None,
    }
}

/// The wall clock in milliseconds since the Unix epoch, truncated to 64 bits:
/// `millis_since_epoch` of the clock's reading, so nothing when the clock is
/// set before the epoch.
pub fn epoch_millis() -> Option<u64> {
    millis_since_epoch(clock_reading())
}

} // verus!
