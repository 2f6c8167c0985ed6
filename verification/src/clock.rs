//! Trusted boundary to the `chrono` crate: UTC wall-clock timestamps.

use vstd::prelude::*;

verus! {

/// Relies on `chrono::Utc::now` and `DateTime::timestamp_millis`: the
/// current UTC wall-clock time as milliseconds since the Unix epoch. The
/// value depends on the clock, so nothing is promised of it.
#[verifier::external_body]
pub(crate) fn now_millis() -> (r: i64)
{
    chrono::Utc::now().timestamp_millis()
}

} // verus!
