//! The wall clock. Entities stamp their timestamps in milliseconds since the
//! Unix epoch; the reading comes from the system clock, so nothing is known
//! about the value returned.

use vstd::prelude::*;

verus! {

/// Relies on chrono::Utc::now and DateTime::timestamp_millis: the current
/// wall-clock instant as milliseconds since the Unix epoch. The clock is
/// outside the program, so no ensures clause constrains the reading.
#[verifier::external_body]
pub(crate) fn now_millis() -> i64 {
    chrono::Utc::now().timestamp_millis()
}

} // verus!
