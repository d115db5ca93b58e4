//! The system clock, read through the `chrono` crate.

use vstd::prelude::*;

verus! {

/// Relies on `chrono::Utc::now`, which reads the system clock and returns a
/// time at or after the Unix epoch (it does not return for an earlier
/// reading), and on `chrono::DateTime::timestamp_millis`, which counts the
/// milliseconds since the epoch; the reading is therefore non-negative.
#[verifier::external_body]
pub(crate) fn current_time_millis() -> (t: i64)
    ensures
        t >= 0,
{
    chrono::Utc::now().timestamp_millis()
}

} // verus!
