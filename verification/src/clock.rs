//! The one place the ledger touches the clock.

use vstd::prelude::*;

verus! {

/// Relies on `std::time::SystemTime::now` and
/// `chrono::DateTime::from_timestamp`, rendered as text with
/// `chrono::DateTime::to_rfc3339`: the current UTC time. A clock before
/// 1970 or past chrono's range yields the epoch instead of a panic. The
/// value depends on the clock, so nothing is assumed of it.
#[verifier::external_body]
pub(crate) fn now_timestamp() -> (r: String) {
    let since_epoch = std::time::SystemTime::now()
        .duration_since(std::time::UNIX_EPOCH)
        .unwrap_or(std::time::Duration::ZERO);
    let secs = i64::try_from(since_epoch.as_secs()).unwrap_or(0);
    chrono::DateTime::from_timestamp(secs, since_epoch.subsec_nanos())
        .unwrap_or(chrono::DateTime::UNIX_EPOCH)
        .to_rfc3339()
}

} // verus!
