//! The suspend/resume coordinator: a two-state machine that keeps the single
//! hardware wakeup slot staged to cover the nearest alarm, holds a
//! suspend-delay lease while active, and releases it once the register is
//! staged for an imminent suspend.
//!
//! The wakeup slot is shared with third parties, so the coordinator never
//! programs a time later than an already staged future wakeup, and it clears
//! the slot on a removal only when the staged time matches the removed
//! alarm's trigger exactly. The same transitions serve both the real
//! suspend-prepare notifications and the fixed-interval poll fallback used
//! when no suspend manager is available.

use vstd::prelude::*;

use crate::alarm::AlarmView;
use crate::store::Store;
use crate::store::keep_current;
use crate::store::upcoming_alarm;

verus! {

/// The coordinator's two states.
#[derive(Clone, Copy, Debug, PartialEq, Eq, Structural)]
pub enum CoordState {
    /// Suspend-delay lease held, register staged to cover the nearest alarm.
    Active,
    /// Lease released, suspend in progress.
    Suspending,
}

/// What the surrounding process performs after a transition: it programs the
/// register when `stage` asks for it, and acquires or releases the
/// suspend-delay lease.
pub struct CoordActions {
    /// Program the wakeup register with this instant.
    pub stage: Option<i64>,
    /// Drop the held suspend-delay lease to let suspend proceed.
    pub release_inhibitor: bool,
    /// Request a fresh suspend-delay lease.
    pub acquire_inhibitor: bool,
}

/// A staged register value, lifted into the model.
pub open spec fn opt_int(o: Option<i64>) -> Option<int> {
    match o {
        Some(v) => Some(v as int),
        None => None,
    }
}

/// The trigger time of a store's upcoming alarm.
pub open spec fn next_trigger(s: Seq<AlarmView>, now: int) -> Option<int> {
    match upcoming_alarm(s, now) {
        Some(a) => Some(a.unix_time),
        None => None,
    }
}

/// The staging rule: with `next` the nearest alarm's trigger time and
/// `staged` what the register holds, program the register with `next` unless
/// the register already wakes at or before `next` at an instant still in the
/// future. `None` means the register is left untouched.
pub open spec fn stage_decision_spec(next: Option<int>, staged: Option<int>, now: int) -> Option<
    int,
> {
    match next {
        None => None,
        Some(t) => match staged {
            Some(w) => if w > now && t >= w {
                None
            } else {
                Some(t)
            },
            None => Some(t),
        },
    }
}

/// The register's content after one evaluation.
pub open spec fn staged_after(next: Option<int>, staged: Option<int>, now: int) -> Option<int> {
    match stage_decision_spec(next, staged, now) {
        Some(t) => Some(t),
        None => staged,
    }
}

/// While the register holds a wakeup that still lies in the future — so no
/// staged alarm was removed or elapsed — an evaluation never moves the
/// staged wakeup later: it advances to an earlier time or stays.
pub proof fn lemma_staged_monotone(next: Option<int>, staged: Option<int>, now: int, w: int)
    requires
        staged == Some(w),
        now < w,
    ensures
        staged_after(next, staged, now) matches Some(w2) && w2 <= w,
{
}

/// One staging evaluation over concrete values.
pub fn stage_decision(next: Option<i64>, staged: Option<i64>, now: i64) -> (r: Option<i64>)
    ensures
        opt_int(r) == stage_decision_spec(opt_int(next), opt_int(staged), now as int),
{
    match next {
        None => None,
        Some(t) => match staged {
            Some(w) => if w > now && t >= w {
                None
            } else {
                Some(t)
            },
            None => Some(t),
        },
    }
}

/// The suspend/resume coordinator.
pub struct Coordinator {
    state: CoordState,
    inhibitor_held: bool,
}

impl Coordinator {
    pub closed spec fn state_of(&self) -> CoordState {
        self.state
    }

    pub closed spec fn holds_inhibitor(&self) -> bool {
        self.inhibitor_held
    }

    /// On startup the coordinator is active and asks for the first lease.
    pub fn new() -> (r: (Coordinator, CoordActions))
        ensures
            r.0.state_of() == CoordState::Active,
            r.0.holds_inhibitor(),
            r.1.acquire_inhibitor,
            !r.1.release_inhibitor,
            r.1.stage is None,
    {
        let c = Coordinator { state: CoordState::Active, inhibitor_held: true };
        let a = CoordActions { stage: None, release_inhibitor: false, acquire_inhibitor: true };
        (c, a)
    }

    /// Suspend is imminent: drop elapsed alarms, stage the nearest remaining
    /// alarm unless the register already wakes earlier, then release the
    /// lease so suspend can proceed.
    pub fn on_suspend_prepare(&mut self, store: &mut Store, staged: Option<i64>, now: i64) -> (r:
        CoordActions)
        requires
            old(store).wf(),
        ensures
            final(self).state_of() == CoordState::Suspending,
            !final(self).holds_inhibitor(),
            final(store).wf(),
            final(store)@ == keep_current(old(store)@, now as int),
            r.release_inhibitor == old(self).holds_inhibitor(),
            !r.acquire_inhibitor,
            opt_int(r.stage) == stage_decision_spec(
                next_trigger(final(store)@, now as int),
                opt_int(staged),
                now as int,
            ),
    {
        store.remove_elapsed(now);
        let next = store.upcoming_unix(now);
        let stage = stage_decision(next, staged, now);
        let release_inhibitor = self.inhibitor_held;
        self.inhibitor_held = false;
        self.state = CoordState::Suspending;
        CoordActions { stage, release_inhibitor, acquire_inhibitor: false }
    }

    /// Resume has completed: become active again and re-acquire the lease.
    pub fn on_resume(&mut self) -> (r: CoordActions)
        ensures
            final(self).state_of() == CoordState::Active,
            final(self).holds_inhibitor(),
            r.acquire_inhibitor,
            !r.release_inhibitor,
            r.stage is None,
    {
        self.state = CoordState::Active;
        self.inhibitor_held = true;
        CoordActions { stage: None, release_inhibitor: false, acquire_inhibitor: true }
    }

    /// Poll fallback when no suspend manager is available: treat the tick as
    /// "suspend may occur soon" and run the same cleanup and staging rule,
    /// without touching state or lease.
    pub fn on_poll_tick(&mut self, store: &mut Store, staged: Option<i64>, now: i64) -> (r:
        CoordActions)
        requires
            old(store).wf(),
        ensures
            *final(self) == *old(self),
            final(store).wf(),
            final(store)@ == keep_current(old(store)@, now as int),
            !r.release_inhibitor,
            !r.acquire_inhibitor,
            opt_int(r.stage) == stage_decision_spec(
                next_trigger(final(store)@, now as int),
                opt_int(staged),
                now as int,
            ),
    {
        store.remove_elapsed(now);
        let next = store.upcoming_unix(now);
        let stage = stage_decision(next, staged, now);
        CoordActions { stage, release_inhibitor: false, acquire_inhibitor: false }
    }

    /// Re-arm the register after an alarm was added while active.
    pub fn restage(&self, store: &Store, staged: Option<i64>, now: i64) -> (r: CoordActions)
        ensures
            !r.release_inhibitor,
            !r.acquire_inhibitor,
            opt_int(r.stage) == stage_decision_spec(
                next_trigger(store@, now as int),
                opt_int(staged),
                now as int,
            ),
    {
        let next = store.upcoming_unix(now);
        let stage = stage_decision(next, staged, now);
        CoordActions { stage, release_inhibitor: false, acquire_inhibitor: false }
    }

    /// Whether a removal must clear the register: only when the staged time
    /// matches the removed alarm's trigger exactly, never unconditionally —
    /// a third party's earlier wakeup stays untouched.
    pub fn must_clear_on_removal(&self, removed_time: i64, staged: Option<i64>) -> (r: bool)
        ensures
            r <==> (staged matches Some(w) && w == removed_time),
    {
        match staged {
            Some(w) => w == removed_time,
            None => false,
        }
    }
}

} // verus!
