//! The wall clock.

use vstd::prelude::*;

verus! {

/// Milliseconds since the Unix epoch, read from `chrono::Utc::now`.
///
/// Trusted, and nothing is promised of the value: it is the time of the call.
#[verifier::external_body]
pub(crate) fn now_millis() -> (r: i64) {
    chrono::Utc::now().timestamp_millis()
}

} // verus!
