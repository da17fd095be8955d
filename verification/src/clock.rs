//! The time of day, as messages carry it.

use crate::error::CollectorError;
use std::time::{Duration, SystemTime, SystemTimeError};
use vstd::prelude::*;

verus! {

/// `std::time::SystemTime`, a reading of the system clock. It is carried
/// through unread.
#[verifier::external_type_specification]
#[verifier::external_body]
pub struct ExSystemTime(SystemTime);

/// `std::time::SystemTimeError`, the error of a clock that reads before the
/// time it is compared with. It is carried through unread.
#[verifier::external_type_specification]
#[verifier::external_body]
pub struct ExSystemTimeError(SystemTimeError);

/// Calls `SystemTime::now`. Nothing is claimed of the time it reads.
#[verifier::external_body]
fn system_time() -> SystemTime {
    SystemTime::now()
}

/// Calls `SystemTime::duration_since` with the Unix epoch, which fails where
/// the time lies before it. Nothing is claimed of the outcome.
#[verifier::external_body]
fn since_epoch(time: &SystemTime) -> Result<Duration, SystemTimeError> {
    time.duration_since(std::time::UNIX_EPOCH)
}

/// Calls `Duration::as_secs`. Nothing is claimed of the number.
#[verifier::external_body]
fn whole_seconds(duration: &Duration) -> u64 {
    duration.as_secs()
}

/// A count of seconds as the 32 bits that a message has for it: refused
/// where it needs more.
pub open spec fn seconds_field(seconds: u64) -> Result<u32, CollectorError> {
    if seconds > u32::MAX {
        Err(CollectorError::ValueTooWide)
    } else {
        Ok(seconds as u32)
    }
}

/// The time that a reading of the clock stands for. The reading is the
/// number of whole seconds since the Unix epoch, or nothing where the clock
/// stands before it, which is refused.
pub open spec fn timestamp(reading: Option<u64>) -> Result<u32, CollectorError> {
    match reading {
        Some(seconds) => seconds_field(seconds),
        None => Err(CollectorError::ClockBeforeEpoch),
    }
}

/// A count of seconds as the 32 bits that a message has for it.
pub fn seconds_u32(seconds: u64) -> (r: Result<u32, CollectorError>)
    ensures
        r == seconds_field(seconds),
{
    if seconds > 0xffff_ffff {
        Err(CollectorError::ValueTooWide)
    } else {
        Ok(seconds as u32)
    }
}

/// The time that a reading of the clock stands for.
pub fn time_of_reading(reading: Option<u64>) -> (r: Result<u32, CollectorError>)
    ensures
        r == timestamp(reading),
{
    match reading {
        Some(seconds) => seconds_u32(seconds),
        None => Err(CollectorError::ClockBeforeEpoch),
    }
}

/// The seconds since the Unix epoch. A clock that stands before the epoch is
/// refused, and so is one that has run past what 32 bits hold.
pub fn now() -> (r: Result<u32, CollectorError>)
    ensures
        r matches Err(e) ==> e == CollectorError::ClockBeforeEpoch || e
            == CollectorError::ValueTooWide,
{
    let time = system_time();
    let reading = match since_epoch(&time) {
        Ok(duration) => Some(whole_seconds(&duration)),
        Err(_) => None,
    };
    time_of_reading(reading)
}

} // verus!
