use vstd::prelude::*;
use std::time::{SystemTime, SystemTimeError};
use core::time::Duration;

verus! {

#[verifier::external_type_specification]
#[verifier::external_body]
pub struct ExSystemTime(std::time::SystemTime);

#[verifier::external_type_specification]
#[verifier::external_body]
pub struct ExSystemTimeError(std::time::SystemTimeError);

/// Relies on `SystemTime::now`: the current wall-clock time; nothing is
/// promised of it.
pub assume_specification[ std::time::SystemTime::now ]() -> std::time::SystemTime;

/// Relies on `SystemTime::duration_since`: the time from `earlier` to `t`, or
/// an error when `earlier` is later; nothing more is promised.
pub assume_specification[ std::time::SystemTime::duration_since ](
    t: &std::time::SystemTime,
    earlier: std::time::SystemTime,
) -> Result<core::time::Duration, std::time::SystemTimeError>;

/// Relies on `Duration::as_millis`: the whole milliseconds of a duration.
pub assume_specification[ core::time::Duration::as_millis ](d: &core::time::Duration) -> u128;

/// Relies on `SystemTime::UNIX_EPOCH`: the start of 1970 in UTC.
#[verifier::external_body]
fn unix_epoch() -> SystemTime {
    SystemTime::UNIX_EPOCH
}

/// Milliseconds since the Unix epoch by the wall clock, or 0 if the clock
/// reads earlier than the epoch. The clock may jump, so nothing is promised
/// of the value.
pub fn get_current_time_as_millis() -> u128 {
    let now: SystemTime = SystemTime::now();
    let since: Result<Duration, SystemTimeError> = now.duration_since(unix_epoch());
    match since {
        Ok(d) => d.as_millis(),
        Err(_) => 0,
    }
}

} // verus!
