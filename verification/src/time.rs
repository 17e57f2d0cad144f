//! The wall clock.

use vstd::prelude::*;

verus! {

/// The current time in microseconds since the Unix epoch, read from the
/// system clock through `chrono::Utc::now` and converted with
/// `DateTime::timestamp_micros`.
///
/// Nothing is promised of the value: the clock may stand still or step back
/// between two calls. chrono aborts the call where the system clock is set
/// before 1970.
#[verifier::external_body]
pub(crate) fn wall_clock_micros() -> i64 {
    chrono::Utc::now().timestamp_micros()
}

} // verus!
