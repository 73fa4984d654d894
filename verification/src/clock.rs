//! The system clock, read as milliseconds since the Unix epoch.
use std::time::{Duration, SystemTime, SystemTimeError, UNIX_EPOCH};
use vstd::prelude::*;

verus! {

/// A point in time of the system clock.
#[verifier::external_type_specification]
#[verifier::external_body]
pub struct ExSystemTime(SystemTime);

/// The error of a clock that reads a time before the reference point.
#[verifier::external_type_specification]
#[verifier::external_body]
pub struct ExSystemTimeError(SystemTimeError);

/// Calls `SystemTime::now`. Nothing is stated of the result: it is the time.
#[verifier::external_body]
pub(crate) fn system_time_now() -> (r: SystemTime) {
    SystemTime::now()
}

/// Calls `SystemTime::duration_since` with `UNIX_EPOCH`. Nothing is stated
/// of the result: it depends on the opaque `time` (an error where `time` is
/// before the epoch).
#[verifier::external_body]
pub(crate) fn duration_since_epoch(time: &SystemTime) -> (r: Result<Duration, SystemTimeError>) {
    time.duration_since(UNIX_EPOCH)
}

/// Calls `Duration::as_millis`. Nothing is stated of the result: it depends
/// on the opaque `duration`.
#[verifier::external_body]
pub(crate) fn duration_as_millis(duration: &Duration) -> (r: u128) {
    duration.as_millis()
}

/// The current time in milliseconds since the Unix epoch, or `None` where the
/// clock reads a time before the epoch.
pub(crate) fn now_millis() -> (r: Option<u128>) {
    let now = system_time_now();
    match duration_since_epoch(&now) {
        Ok(duration) => Some(duration_as_millis(&duration)),
        Err(_) => None,
    }
}

} // verus!
