//! Access to the wall clock.

use vstd::prelude::*;

verus! {

/// Current wall-clock time in whole seconds since the unix epoch.
///
/// Relies on `time::OffsetDateTime`: `now_utc` reads the system clock and
/// `unix_timestamp` returns its whole seconds since the unix epoch. Nothing is
/// assumed of the value: the clock may move arbitrarily between two calls, so
/// every caller states what holds whatever value comes back.
#[verifier::external_body]
pub(crate) fn unix_now() -> i64 {
    time::OffsetDateTime::now_utc().unix_timestamp()
}

} // verus!
