//! User-facing errors.

use vstd::prelude::*;

verus! {

/// Expected, non-exceptional failures returned to callers.
#[derive(Debug, PartialEq)]
pub enum Error {
    /// An alarm with this id is already stored.
    AlarmExists(String),
    /// No alarm with this id is stored.
    AlarmNotFound(String),
    /// An instant or a calendar field lies outside what the hardware wakeup
    /// register can represent.
    RtcRange,
}

} // verus!
