//! The clocks that the library reads. What a clock says is an input like any
//! other: nothing is assumed of it.

use std::time::{Duration, SystemTime, SystemTimeError};
use vstd::prelude::*;

verus! {

/// `std::time::SystemTime`: a reading of the system clock.
#[verifier::external_type_specification]
#[verifier::external_body]
pub struct ExSystemTime(SystemTime);

/// `std::time::SystemTimeError`: the clock was set back behind an earlier
/// reading.
#[verifier::external_type_specification]
#[verifier::external_body]
pub struct ExSystemTimeError(SystemTimeError);

/// `SystemTime::now` reads the system clock.
pub assume_specification[ SystemTime::now ]() -> (now: SystemTime)
;

/// `SystemTime::elapsed` says how long ago a reading was taken, or fails
/// where the clock has been set back since.
pub assume_specification[ SystemTime::elapsed ](time: &SystemTime) -> (r: Result<
    Duration,
    SystemTimeError,
>)
;

/// `Duration::as_secs` gives the whole seconds of a duration.
pub assume_specification[ Duration::as_secs ](duration: &Duration) -> (secs: u64)
;

/// The age of a clock reading in whole seconds, or `None` where the clock
/// has been set back since.
pub(crate) fn age_secs(since: &SystemTime) -> (age: Option<u64>) {
    match since.elapsed() {
        Ok(elapsed) => Some(elapsed.as_secs()),
        Err(_) => None,
    }
}

} // verus!
