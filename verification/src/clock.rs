//! The capture timestamp.

use vstd::prelude::*;

verus! {

/// Relies on chrono's `Local::now` and `DateTime::to_rfc3339` for the
/// current local time as an RFC 3339 string.  The result depends on the
/// clock, so nothing is promised of it; callers state what holds of every
/// outcome.  `Local::now` aborts only when the system clock lies outside
/// the representable range.
#[verifier::external_body]
pub(crate) fn now_rfc3339() -> String {
    chrono::Local::now().to_rfc3339()
}

} // verus!
