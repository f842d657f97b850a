//! The one place the library reads the clock. Everything that reasons
//! about time takes a timestamp as an argument; only these wrappers
//! produce one.

use vstd::prelude::*;

verus! {

/// Relies on chrono::Utc::now (converted with timestamp_millis): the
/// current time as milliseconds since the epoch. The value depends on
/// the clock, so nothing is promised of it; the relied-on call aborts
/// on a machine whose clock stands before 1970.
#[verifier::external_body]
pub(crate) fn now_timestamp_ms() -> i64 {
    chrono::Utc::now().timestamp_millis()
}

} // verus!
