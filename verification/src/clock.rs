//! The wall clock.

use vstd::prelude::*;

verus! {

/// Reads the clock: calls `chrono::Utc::now` and returns what
/// `timestamp_millis` gives for it, the milliseconds since the Unix epoch.
/// Nothing is promised of the value. `chrono` panics when the system clock
/// stands before 1970; no argument decides that.
#[verifier::external_body]
pub(crate) fn now_millis() -> i64 {
    chrono::Utc::now().timestamp_millis()
}

} // verus!
