//! The system clock, read as seconds since the Unix epoch.

use std::time::Duration;
use std::time::SystemTime;
use std::time::SystemTimeError;
use vstd::prelude::*;

verus! {

/// `SystemTime` of the standard library: a reading of the system clock.
#[verifier::external_type_specification]
#[verifier::external_body]
pub struct ExSystemTime(SystemTime);

/// `SystemTimeError` of the standard library: the second of two readings
/// lies before the first.
#[verifier::external_type_specification]
#[verifier::external_body]
pub struct ExSystemTimeError(SystemTimeError);

/// `SystemTime::now` of the standard library: the reading of the system
/// clock. Nothing is claimed of it.
pub assume_specification[ SystemTime::now ]() -> (r: SystemTime)
;

/// `SystemTime::duration_since` of the standard library. Nothing is claimed
/// of its result.
pub assume_specification[ SystemTime::duration_since ](
    time: &SystemTime,
    earlier: SystemTime,
) -> (r: Result<Duration, SystemTimeError>)
;

/// `Duration::as_secs` of the standard library: the whole seconds of a
/// duration. Nothing is claimed of the number.
pub assume_specification[ Duration::as_secs ](duration: &Duration) -> (r: u64)
;

/// `SystemTime::UNIX_EPOCH` of the standard library: the point in time that
/// timestamps are counted from.
#[verifier::external_body]
pub(crate) fn unix_epoch() -> (r: SystemTime) {
    SystemTime::UNIX_EPOCH
}

/// The current time in seconds since the Unix epoch. A clock set before the
/// epoch reads as 0.
pub fn now_timestamp() -> (r: i64)
    ensures
        r >= 0,
{
    let reading = match SystemTime::now().duration_since(unix_epoch()) {
        Ok(elapsed) => Some(elapsed.as_secs()),
        Err(_) => None,
    };
    timestamp_of(reading)
}

/// The timestamp that a reading of the clock stands for. The reading is the
/// number of whole seconds since the Unix epoch, or none where the clock is
/// set before the epoch. No reading stands for 0, and a number of seconds
/// beyond the largest timestamp stands for the largest.
pub open spec fn timestamp_value(reading: Option<u64>) -> i64 {
    match reading {
        Some(secs) => if secs > i64::MAX {
            i64::MAX
        } else {
            secs as i64
        },
        None => 0,
    }
}

/// The timestamp that a reading of the clock stands for.
pub fn timestamp_of(reading: Option<u64>) -> (r: i64)
    ensures
        r == timestamp_value(reading),
{
    match reading {
        Some(secs) => {
            if secs > 0x7fff_ffff_ffff_ffffu64 {
                i64::MAX
            } else {
                secs as i64
            }
        },
        None => 0,
    }
}

} // verus!
