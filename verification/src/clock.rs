//! The host clock.

use std::time::{Duration, SystemTime};

use vstd::prelude::*;

verus! {

#[verifier::external_type_specification]
#[verifier::external_body]
pub struct ExSystemTime(SystemTime);

/// `std::time::SystemTime::now`: the current time. Nothing is claimed of it.
pub assume_specification[ SystemTime::now ]() -> (r: SystemTime);

/// `std::time::Duration::as_millis`: the whole milliseconds of a duration.
/// A duration is opaque here, so nothing is claimed of their number.
pub assume_specification[ Duration::as_millis ](duration: &Duration) -> (r: u128);

/// `std::time::SystemTime::duration_since`, from the Unix epoch on: none for a
/// time before it. Which duration comes back depends on the clock, and nothing
/// is claimed of it.
#[verifier::external_body]
fn since_epoch(time: &SystemTime) -> (r: Option<Duration>) {
    time.duration_since(std::time::UNIX_EPOCH).ok()
}

/// A number of milliseconds, where it fits.
pub fn millis_to_i64(millis: u128) -> (r: Option<i64>)
    ensures
        r matches Some(value) ==> value == millis,
        r is None <==> millis > i64::MAX,
{
    if millis <= i64::MAX as u128 {
        Some(millis as i64)
    } else {
        None
    }
}

/// The host clock in Unix milliseconds, where it can be told.
pub fn now_ms() -> (r: Option<i64>)
    ensures
        r matches Some(millis) ==> millis >= 0,
{
    match since_epoch(&SystemTime::now()) {
        Some(duration) => millis_to_i64(duration.as_millis()),
        None => None,
    }
}

} // verus!
