//! The alarm service: the daemon's core. It owns the store exclusively,
//! wraps the store's silent outcomes in descriptive errors at the process
//! boundary, and computes the event loop's next wait deadline.
//!
//! The surrounding event loop selects over store changes, expiry of the wait
//! primitive and suspend events; after any of them it calls [`Service::loop_step_now`],
//! which drops elapsed alarms and returns the instant to wait for next.

use vstd::prelude::*;

use crate::alarm::Alarm;
use crate::alarm::AlarmView;
use crate::clock::unix_now;
use crate::codec::enc_alarms;
use crate::error::Error;
use crate::store::Store;
use crate::store::has_id;
use crate::store::keep_current;
use crate::store::removed_outcome;
use crate::store::upcoming_alarm;
use crate::store::views_of;

verus! {

/// The instant an alarm's ring window ends.
pub open spec fn ring_end(a: AlarmView) -> int {
    a.unix_time + a.ring_seconds
}

/// The ring window's end, clamped to what a timestamp can carry.
pub open spec fn ring_end_clamped(a: AlarmView) -> int {
    if ring_end(a) <= i64::MAX {
        ring_end(a)
    } else {
        i64::MAX as int
    }
}

/// The daemon core: the store's exclusive owner.
pub struct Service {
    store: Store,
}

impl View for Service {
    type V = Seq<AlarmView>;

    open spec fn view(&self) -> Seq<AlarmView> {
        self.store_spec()@
    }
}

impl Service {
    /// The owned store, for contracts.
    pub closed spec fn store_spec(&self) -> Store {
        self.store
    }

    pub open spec fn wf(&self) -> bool {
        self.store_spec().wf()
    }

    /// A mutation not yet persisted and broadcast by the caller.
    pub open spec fn pending_change(&self) -> bool {
        self.store_spec().pending_change()
    }

    pub fn new(store: Store) -> (s: Service)
        requires
            store.wf(),
        ensures
            s.wf(),
            s@ == store@,
            s.pending_change() == store.pending_change(),
    {
        Service { store }
    }

    /// Add a new alarm. Unlike the store's boolean result, the boundary
    /// reports a duplicate id as a descriptive error that names the id.
    pub fn add_alarm(&mut self, alarm: Alarm) -> (r: Result<(), Error>)
        requires
            old(self).wf(),
        ensures
            final(self).wf(),
            r is Ok <==> !has_id(old(self)@, alarm@.id),
            r is Ok ==> final(self)@ == old(self)@.push(alarm@) && final(self).pending_change(),
            r matches Err(e) ==> final(self)@ == old(self)@ && (e matches Error::AlarmExists(id)
                && id@ == alarm@.id) && final(self).pending_change() == old(self).pending_change(),
    {
        let id = alarm.id.clone();
        if self.store.add(alarm) {
            Ok(())
        } else {
            Err(Error::AlarmExists(id))
        }
    }

    /// Remove an alarm by id. Unlike the store's silent no-op, an unknown id
    /// is a descriptive error that names it.
    pub fn remove_alarm(&mut self, id: String) -> (r: Result<Alarm, Error>)
        requires
            old(self).wf(),
        ensures
            final(self).wf(),
            r is Ok <==> has_id(old(self)@, id@),
            r matches Ok(a) ==> removed_outcome(old(self)@, final(self)@, id@, a@)
                && final(self).pending_change(),
            r matches Err(e) ==> final(self)@ == old(self)@ && (e matches Error::AlarmNotFound(eid)
                && eid@ == id@) && final(self).pending_change() == old(self).pending_change(),
    {
        match self.store.remove(&id) {
            Some(a) => Ok(a),
            None => Err(Error::AlarmNotFound(id)),
        }
    }

    /// A read-only snapshot of all alarms, in store order.
    pub fn alarms(&self) -> (r: Vec<Alarm>)
        ensures
            views_of(r@) == self@,
    {
        self.store.alarms()
    }

    /// The first non-elapsed alarm with the minimal trigger time, if any.
    pub fn upcoming(&self, now: i64) -> (r: Option<&Alarm>)
        ensures
            match r {
                Some(a) => upcoming_alarm(self@, now as int) == Some(a@),
                None => upcoming_alarm(self@, now as int) is None,
            },
    {
        self.store.upcoming(now)
    }

    /// The tail of one event-loop iteration: drop elapsed alarms, then
    /// compute the next wait deadline — the instant the upcoming alarm's
    /// ring window ends — or `None` for the long default wait.
    pub fn loop_step(&mut self, now: i64) -> (r: Option<i64>)
        requires
            old(self).wf(),
        ensures
            final(self).wf(),
            final(self)@ == keep_current(old(self)@, now as int),
            match upcoming_alarm(final(self)@, now as int) {
                Some(a) => r matches Some(t) && t as int == ring_end_clamped(a),
                None => r is None,
            },
    {
        self.store.remove_elapsed(now);
        match self.store.upcoming(now) {
            Some(a) => {
                let end = (a.unix_time as i128) + (a.ring_seconds as i128);
                if end <= i64::MAX as i128 {
                    Some(end as i64)
                } else {
                    Some(i64::MAX)
                }
            },
            None => None,
        }
    }

    /// [`Service::loop_step`] against the wall clock; returns the deadline
    /// and the clock value that was used.
    pub fn loop_step_now(&mut self) -> (r: (Option<i64>, i64))
        requires
            old(self).wf(),
        ensures
            final(self).wf(),
            final(self)@ == keep_current(old(self)@, r.1 as int),
            match upcoming_alarm(final(self)@, r.1 as int) {
                Some(a) => r.0 matches Some(t) && t as int == ring_end_clamped(a),
                None => r.0 is None,
            },
    {
        let now = unix_now();
        let deadline = self.loop_step(now);
        (deadline, now)
    }

    /// Consume the pending-change flag: whenever this returns true the
    /// caller rewrites the persisted file and broadcasts the change, in that
    /// order, before serving anything else.
    pub fn take_changed(&mut self) -> (r: bool)
        ensures
            r == old(self).pending_change(),
            !final(self).pending_change(),
            final(self)@ == old(self)@,
            final(self).wf() == old(self).wf(),
    {
        self.store.take_changed()
    }

    /// The whole-snapshot bytes that mirror the service's alarms to disk.
    pub fn snapshot_bytes(&self) -> (r: Vec<u8>)
        ensures
            r@ == enc_alarms(self@),
    {
        self.store.snapshot_bytes()
    }

    /// Hand the store to the coordinator for a transition, then take it
    /// back.
    pub fn store_mut(&mut self) -> (r: &mut Store)
        ensures
            *r == old(self).store_spec(),
            final(self).store_spec() == *final(r),
    {
        &mut self.store
    }
}

} // verus!
