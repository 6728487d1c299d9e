//! The wall clock.

use vstd::prelude::*;

verus! {

/// Calls `chrono::Utc::now` and gives the instant as microseconds since
/// the Unix epoch. The crate refuses a system time before the epoch, so
/// the result is never negative.
#[verifier::external_body]
pub(crate) fn now_micros() -> (t: i64)
    ensures
        t >= 0,
{
    chrono::Utc::now().timestamp_micros()
}

/// Calls `chrono::Utc::now` and writes the instant as RFC 3339 text.
#[verifier::external_body]
pub(crate) fn now_rfc3339() -> String {
    chrono::Utc::now().to_rfc3339()
}

} // verus!
