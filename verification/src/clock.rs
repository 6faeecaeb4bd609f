//! The time that loopback frames are stamped with.
use std::time::{Duration, SystemTime, UNIX_EPOCH};
use vstd::prelude::*;

verus! {

/// Declares `std::time::SystemTime`. Nothing inside it is seen.
#[verifier::external_type_specification]
#[verifier::external_body]
pub struct ExSystemTime(std::time::SystemTime);

/// `SystemTime::now` reads the system clock. Nothing is claimed of what it shows.
pub assume_specification[ std::time::SystemTime::now ]() -> (r: std::time::SystemTime)
;

/// How many whole microseconds a time lies after the Unix epoch; none for a time before it.
pub uninterp spec fn epoch_micros(time: std::time::SystemTime) -> Option<u128>;

/// How many whole microseconds a duration holds.
pub uninterp spec fn duration_micros(duration: std::time::Duration) -> u128;

/// Calls `SystemTime::duration_since` on the Unix epoch.
///
/// Claims that it fails exactly on a time before the epoch, and otherwise gives how far the time
/// lies after it.
#[verifier::external_body]
fn since_epoch(time: SystemTime) -> (r: Option<Duration>)
    ensures
        r is Some <==> epoch_micros(time) is Some,
        r matches Some(d) ==> epoch_micros(time) == Some(duration_micros(d)),
{
    match time.duration_since(UNIX_EPOCH) {
        Ok(elapsed) => Some(elapsed),
        Err(_) => None,
    }
}

/// `Duration::as_micros` gives the number of whole microseconds of a duration.
pub assume_specification[ std::time::Duration::as_micros ](duration: &std::time::Duration) -> (r:
    u128)
    ensures
        r == duration_micros(*duration),
;

/// Microseconds from the Unix epoch to a time, if the time does not lie before it.
fn micros_since_epoch(time: SystemTime) -> (r: Option<u128>)
    ensures
        r == epoch_micros(time),
{
    match since_epoch(time) {
        Some(elapsed) => Some(elapsed.as_micros()),
        None => None,
    }
}

/// A number of microseconds as a timestamp: the largest one for times too far ahead, and zero
/// for times before the epoch.
pub open spec fn timestamp(micros: Option<u128>) -> u64 {
    match micros {
        Some(m) => if m <= u64::MAX {
            m as u64
        } else {
            u64::MAX
        },
        None => 0,
    }
}

/// A number of microseconds as a timestamp: the largest one for times too far ahead, and zero
/// for times before the epoch.
pub fn timestamp_us(micros: Option<u128>) -> (r: u64)
    ensures
        r == timestamp(micros),
{
    match micros {
        Some(m) => if m <= u64::MAX as u128 {
            m as u64
        } else {
            u64::MAX
        },
        None => 0,
    }
}

/// Whether a number is the timestamp of a time that the system clock can show.
pub open spec fn is_clock_reading(us: u64) -> bool {
    exists|time: std::time::SystemTime| us == timestamp(#[trigger] epoch_micros(time))
}

/// Microseconds since the Unix epoch, as the system clock shows them: the timestamp of the time
/// that was read. Which time that is, is left unsaid.
pub fn now_us() -> (r: u64)
    ensures
        is_clock_reading(r),
{
    let time = SystemTime::now();
    timestamp_us(micros_since_epoch(time))
}

/// A number of microseconds that fits is its own timestamp; larger ones give the largest
/// timestamp, and a time before the epoch gives zero.
pub proof fn law_timestamps_saturate(micros: u128)
    ensures
        timestamp(None) == 0,
        timestamp(Some(micros)) <= micros,
        timestamp(Some(micros)) == micros <==> micros <= u64::MAX,
        micros > u64::MAX ==> timestamp(Some(micros)) == u64::MAX,
{
}

} // verus!
