//! Wall-clock time, in milliseconds since the Unix epoch.

use vstd::prelude::*;

verus! {

/// Calls `chrono::Utc::now().timestamp_millis()`. The value depends on the
/// machine's clock, so nothing is stated of it.
#[verifier::external_body]
pub(crate) fn now_millis() -> i64 {
    chrono::Utc::now().timestamp_millis()
}

} // verus!
