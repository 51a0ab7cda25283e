//! The wall clock.

use vstd::prelude::*;

verus! {

/// Calls `chrono::Utc::now()`, and `DateTime::timestamp_millis()` on what it
/// returns: the milliseconds that have passed since 1970-01-01T00:00:00Z by
/// the system clock. Nothing is claimed of the value: two calls may differ
/// in any way. `Utc::now()` gives up where the system clock stands before
/// 1970.
#[verifier::external_body]
pub(crate) fn system_millis() -> i64 {
    chrono::Utc::now().timestamp_millis()
}

} // verus!
