//! The alarm record: an opaque caller-assigned id, an absolute trigger
//! instant, and a ring duration.

use vstd::prelude::*;

verus! {

/// Ring duration that means "ring indefinitely until dismissed".
pub const RING_FOREVER: u32 = u32::MAX;

/// A single alarm. Immutable once created; its identity is `id`.
#[derive(Debug, PartialEq)]
pub struct Alarm {
    /// Opaque, caller-assigned, unique identifier.
    pub id: String,
    /// Trigger instant, in seconds since the unix epoch.
    pub unix_time: i64,
    /// Ring duration in seconds; `RING_FOREVER` means "ring until dismissed".
    pub ring_seconds: u32,
}

/// Mathematical value of an [`Alarm`].
pub struct AlarmView {
    pub id: Seq<char>,
    pub unix_time: int,
    pub ring_seconds: int,
}

impl View for Alarm {
    type V = AlarmView;

    open spec fn view(&self) -> AlarmView {
        AlarmView { id: self.id@, unix_time: self.unix_time as int, ring_seconds: self.ring_seconds as int }
    }
}

impl Clone for Alarm {
    fn clone(&self) -> (r: Self)
        ensures
            r@ == self@,
    {
        Alarm { id: self.id.clone(), unix_time: self.unix_time, ring_seconds: self.ring_seconds }
    }
}

impl Alarm {
    pub fn new(id: String, unix_time: i64, ring_seconds: u32) -> (r: Self)
        ensures
            r@ == (AlarmView { id: id@, unix_time: unix_time as int, ring_seconds: ring_seconds as int }),
    {
        Self { id, unix_time, ring_seconds }
    }
}

} // verus!
