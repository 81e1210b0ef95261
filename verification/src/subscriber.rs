//! The client-side subscriber: a local, sorted snapshot of the service's
//! alarms, and the merge of change-notifications with the locally computed
//! next ring into a single ordered stream of events.
//!
//! The snapshot is rebuilt from every received change-notification and never
//! mutated on its own — with one exception: an alarm that starts ringing is
//! forgotten from the local view until the next authoritative snapshot
//! arrives. Ringing does not imply removal from the service; removal is a
//! separate explicit action by the ring's consumer.

use vstd::prelude::*;

use crate::alarm::Alarm;
use crate::alarm::AlarmView;
use crate::is_elapsed;
use crate::store::views_of;

verus! {

broadcast use vstd::seq_lib::group_to_multiset_ensures;

/// Alarms ordered by trigger time, earliest first.
pub open spec fn sorted_by_time(s: Seq<AlarmView>) -> bool {
    forall|i: int, j: int| 0 <= i < j < s.len() ==> s[i].unix_time <= s[j].unix_time
}

/// The first alarm not yet elapsed; in a sorted snapshot it carries the
/// minimal trigger time among all non-elapsed alarms.
pub open spec fn is_first_live(s: Seq<AlarmView>, now: int, i: int) -> bool {
    &&& 0 <= i < s.len()
    &&& !is_elapsed(s[i], now)
    &&& forall|j: int| 0 <= j < i ==> is_elapsed(#[trigger] s[j], now)
}

/// Alarm subscription events.
pub enum Event<'a> {
    /// A fresh authoritative snapshot arrived.
    AlarmsChanged(&'a [Alarm]),
    /// This alarm's trigger time was reached.
    Ring(Alarm),
}

/// Sort alarms by trigger time; the order between equal trigger times is not
/// pinned, the contents are kept exactly.
fn sort_by_time_exec(v: &Vec<Alarm>) -> (r: Vec<Alarm>)
    ensures
        sorted_by_time(views_of(r@)),
        views_of(r@).to_multiset() == views_of(v@).to_multiset(),
{
    let mut out: Vec<Alarm> = Vec::new();
    let n = v.len();
    proof {
        assert(views_of(out@) =~= Seq::<AlarmView>::empty());
        assert(views_of(v@.subrange(0, 0)) =~= Seq::<AlarmView>::empty());
    }
    let mut i: usize = 0;
    while i < n
        invariant
            i <= n,
            n == v@.len(),
            sorted_by_time(views_of(out@)),
            views_of(out@).to_multiset() == views_of(v@.subrange(0, i as int)).to_multiset(),
        decreases n - i,
    {
        let a = v[i].clone();
        let m = out.len();
        let mut k: usize = 0;
        while k < m && out[k].unix_time <= a.unix_time
            invariant
                k <= m,
                m == out@.len(),
                a@ == v@[i as int]@,
                forall|j: int| 0 <= j < k ==> views_of(out@)[j].unix_time <= a@.unix_time,
            decreases m - k,
        {
            k += 1;
        }
        let ghost pre = out@;
        let ghost av = a@;
        out.insert(k, a);
        proof {
            pre.insert_ensures(k as int, v@[i as int]);
            assert(views_of(out@) =~= views_of(pre).insert(k as int, av));
            views_of(pre).insert_ensures(k as int, av);
            let s = views_of(out@);
            assert forall|p: int, q: int| 0 <= p < q < s.len() implies s[p].unix_time
                <= s[q].unix_time by {
                if q < k {
                } else if p < k && q == k {
                } else if p < k && q > k {
                    assert(s[q] == views_of(pre)[q - 1]);
                } else if p == k {
                    assert(s[q] == views_of(pre)[q - 1]);
                    assert(views_of(pre)[k as int].unix_time > av.unix_time || k == m);
                    assert(views_of(pre)[q - 1].unix_time >= views_of(pre)[k as int].unix_time);
                } else {
                    assert(s[p] == views_of(pre)[p - 1]);
                    assert(s[q] == views_of(pre)[q - 1]);
                }
            }
            assert(views_of(v@.subrange(0, i + 1 as int)) =~= views_of(
                v@.subrange(0, i as int),
            ).push(av));
        }
        i += 1;
    }
    proof {
        assert(v@.subrange(0, n as int) =~= v@);
    }
    out
}

/// Subscriber for alarm events.
pub struct Subscriber {
    alarms: Vec<Alarm>,
}

impl View for Subscriber {
    type V = Seq<AlarmView>;

    closed spec fn view(&self) -> Seq<AlarmView> {
        views_of(self.alarms@)
    }
}

impl Subscriber {
    /// The local snapshot stays ordered by trigger time.
    pub open spec fn wf(&self) -> bool {
        sorted_by_time(self@)
    }

    /// Build a subscriber from the first fetched snapshot.
    pub fn new(alarms: Vec<Alarm>) -> (r: Subscriber)
        ensures
            r.wf(),
            r@.to_multiset() == views_of(alarms@).to_multiset(),
    {
        Subscriber { alarms: sort_by_time_exec(&alarms) }
    }

    /// Replace the local snapshot with a freshly received one.
    pub fn handle_alarms_changed(&mut self, alarms: Vec<Alarm>)
        ensures
            final(self).wf(),
            final(self)@.to_multiset() == views_of(alarms@).to_multiset(),
    {
        self.alarms = sort_by_time_exec(&alarms);
    }

    /// All alarms, ordered by trigger time with the earliest first.
    pub fn alarms(&self) -> (r: &[Alarm])
        ensures
            views_of(r@) == self@,
            self.wf() ==> sorted_by_time(views_of(r@)),
    {
        self.alarms.as_slice()
    }

    /// The next alarm to ring: the first one not yet elapsed beyond its ring
    /// window, hence — the snapshot being sorted — the one with the minimal
    /// trigger time among them.
    pub fn next_alarm(&self, now: i64) -> (r: Option<&Alarm>)
        ensures
            match r {
                Some(a) => exists|i: int| is_first_live(self@, now as int, i) && a@ == self@[i],
                None => forall|i: int| 0 <= i < self@.len() ==> is_elapsed(
                    #[trigger] self@[i],
                    now as int,
                ),
            },
    {
        let n = self.alarms.len();
        let mut i: usize = 0;
        while i < n
            invariant
                i <= n,
                n == self.alarms@.len(),
                forall|j: int| 0 <= j < i ==> is_elapsed(#[trigger] self@[j], now as int),
            decreases n - i,
        {
            let a = &self.alarms[i];
            if !crate::store::alarm_elapsed(a, now) {
                proof {
                    assert(is_first_live(self@, now as int, i as int));
                }
                return Some(a);
            }
            i += 1;
        }
        None
    }

    /// The next alarm's trigger reached: forget it from the local view and
    /// hand it out to ring. `None` when no alarm is due to ring.
    pub fn handle_ring(&mut self, now: i64) -> (r: Option<Alarm>)
        requires
            old(self).wf(),
        ensures
            final(self).wf(),
            match r {
                Some(a) => exists|i: int| is_first_live(old(self)@, now as int, i) && a@ == old(
                    self,
                )@[i] && final(self)@ == old(self)@.remove(i),
                None => final(self)@ == old(self)@ && forall|i: int|
                    0 <= i < old(self)@.len() ==> is_elapsed(#[trigger] old(self)@[i], now as int),
            },
    {
        let n = self.alarms.len();
        let mut i: usize = 0;
        while i < n
            invariant
                *self == *old(self),
                old(self).wf(),
                i <= n,
                n == self.alarms@.len(),
                forall|j: int| 0 <= j < i ==> is_elapsed(#[trigger] self@[j], now as int),
            decreases n - i,
        {
            if !crate::store::alarm_elapsed(&self.alarms[i], now) {
                let ghost pre = self.alarms@;
                proof {
                    assert(is_first_live(self@, now as int, i as int));
                }
                let removed = self.alarms.remove(i);
                proof {
                    assert(views_of(pre.remove(i as int)) =~= views_of(pre).remove(i as int));
                    assert(removed@ == old(self)@[i as int]);
                }
                return Some(removed);
            }
            i += 1;
        }
        None
    }

    /// The absolute instant the subscriber waits for: the next alarm's
    /// trigger time, or an hour from now when no alarm is pending.
    pub fn next_target(&self, now: i64) -> (r: i64)
        ensures
            match self.next_alarm_spec(now as int) {
                Some(a) => r as int == a.unix_time,
                None => r as int == if now + 3600 <= i64::MAX {
                    now + 3600
                } else {
                    i64::MAX as int
                },
            },
    {
        match self.next_alarm(now) {
            Some(a) => {
                proof {
                    let i = choose|i: int|
                        is_first_live(self@, now as int, i) && a@ == self@[i];
                    let j = choose|j: int| is_first_live(self@, now as int, j);
                    assert(is_first_live(self@, now as int, j));
                    lemma_first_live_unique(self@, now as int, i, j);
                }
                a.unix_time
            },
            None => {
                proof {
                    if exists|i: int| is_first_live(self@, now as int, i) {
                        let i = choose|i: int| is_first_live(self@, now as int, i);
                        assert(!is_elapsed(self@[i], now as int));
                    }
                }
                if now <= i64::MAX - 3600 {
                    now + 3600
                } else {
                    i64::MAX
                }
            },
        }
    }

    /// The next alarm as a value, for contracts.
    pub open spec fn next_alarm_spec(&self, now: int) -> Option<AlarmView> {
        if exists|i: int| is_first_live(self@, now, i) {
            Some(self@[choose|i: int| is_first_live(self@, now, i)])
        } else {
            None
        }
    }
}

/// In a snapshot ordered by trigger time, the first non-elapsed alarm
/// carries the minimal trigger time among all non-elapsed alarms: what the
/// subscriber rings next is the locally-nearest live alarm.
pub proof fn lemma_first_live_is_minimal(s: Seq<AlarmView>, now: int, i: int)
    requires
        sorted_by_time(s),
        is_first_live(s, now, i),
    ensures
        forall|j: int| 0 <= j < s.len() && !is_elapsed(#[trigger] s[j], now) ==> s[i].unix_time
            <= s[j].unix_time,
{
    assert forall|j: int| 0 <= j < s.len() && !is_elapsed(#[trigger] s[j], now) implies s[i].unix_time
        <= s[j].unix_time by {
        if j < i {
            assert(is_elapsed(s[j], now));
        }
    }
}

/// At most one index is the first live one.
proof fn lemma_first_live_unique(s: Seq<AlarmView>, now: int, i: int, j: int)
    requires
        is_first_live(s, now, i),
        is_first_live(s, now, j),
    ensures
        i == j,
{
    if i < j {
        assert(is_elapsed(s[i], now));
    }
    if j < i {
        assert(is_elapsed(s[j], now));
    }
}

} // verus!
