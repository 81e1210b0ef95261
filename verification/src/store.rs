//! The alarm store: an in-memory set of alarms with unique ids.
//!
//! Every mutation reports whether anything changed through a pending-change
//! flag, so that the surrounding process can persist the snapshot and
//! broadcast a change-notification before the mutating call returns. The
//! store itself never touches the file system.

use vstd::prelude::*;

use crate::alarm::Alarm;
use crate::alarm::AlarmView;
use crate::clock::unix_now;
use crate::codec::dec_alarms;
use crate::codec::decode_alarms;
use crate::codec::enc_alarms;
use crate::codec::encode_alarms;
use crate::is_elapsed;

verus! {

/// Mathematical contents of a sequence of alarms.
pub open spec fn views_of(s: Seq<Alarm>) -> Seq<AlarmView> {
    s.map_values(|a: Alarm| a@)
}

/// No two alarms share an id.
pub open spec fn ids_unique(s: Seq<AlarmView>) -> bool {
    forall|i: int, j: int| 0 <= i < j < s.len() ==> s[i].id != s[j].id
}

/// Some alarm in `s` carries the id.
pub open spec fn has_id(s: Seq<AlarmView>, id: Seq<char>) -> bool {
    exists|i: int| 0 <= i < s.len() && s[i].id == id
}

/// What a cleanup pass leaves behind: every alarm not yet elapsed at `now`,
/// in their original order.
pub open spec fn keep_current(s: Seq<AlarmView>, now: int) -> Seq<AlarmView> {
    s.filter(|a: AlarmView| !is_elapsed(a, now))
}

/// The alarm `upcoming` picks: the first non-elapsed alarm whose trigger time
/// is minimal among all non-elapsed alarms.
pub open spec fn is_upcoming_index(s: Seq<AlarmView>, now: int, i: int) -> bool {
    &&& 0 <= i < s.len()
    &&& !is_elapsed(s[i], now)
    &&& forall|j: int| 0 <= j < s.len() && !is_elapsed(#[trigger] s[j], now) ==> s[i].unix_time <= s[j].unix_time
    &&& forall|j: int| 0 <= j < i && !is_elapsed(#[trigger] s[j], now) ==> s[i].unix_time < s[j].unix_time
}

/// The alarm `upcoming` picks, as a value: there is at most one index that
/// satisfies [`is_upcoming_index`].
pub open spec fn upcoming_alarm(s: Seq<AlarmView>, now: int) -> Option<AlarmView> {
    if exists|i: int| is_upcoming_index(s, now, i) {
        Some(s[choose|i: int| is_upcoming_index(s, now, i)])
    } else {
        None
    }
}

/// At most one index satisfies [`is_upcoming_index`].
pub proof fn lemma_upcoming_index_unique(s: Seq<AlarmView>, now: int, i: int, j: int)
    requires
        is_upcoming_index(s, now, i),
        is_upcoming_index(s, now, j),
    ensures
        i == j,
{
    if i < j {
        assert(s[j].unix_time < s[i].unix_time);
        assert(s[i].unix_time <= s[j].unix_time);
    }
    if j < i {
        assert(s[i].unix_time < s[j].unix_time);
        assert(s[j].unix_time <= s[i].unix_time);
    }
}

/// What a successful removal did: `a` sat at some index of `pre` under the
/// removed id, and `post` is `pre` without that index.
pub open spec fn removed_outcome(
    pre: Seq<AlarmView>,
    post: Seq<AlarmView>,
    id: Seq<char>,
    a: AlarmView,
) -> bool {
    exists|i: int|
        0 <= i < pre.len() && (#[trigger] pre[i]).id == id && a == pre[i] && post == pre.remove(i)
}

/// Whether an alarm is elapsed at `now`.
pub fn alarm_elapsed(a: &Alarm, now: i64) -> (r: bool)
    ensures
        r == is_elapsed(a@, now as int),
{
    (a.unix_time as i128) + (a.ring_seconds as i128) <= now as i128
}

/// In-memory set of alarms, mirrored to durable storage by the caller.
pub struct Store {
    alarms: Vec<Alarm>,
    changed: bool,
}

impl View for Store {
    type V = Seq<AlarmView>;

    closed spec fn view(&self) -> Seq<AlarmView> {
        views_of(self.alarms@)
    }
}

impl Store {
    /// Well-formed: ids are unique.
    pub open spec fn wf(&self) -> bool {
        ids_unique(self@)
    }

    /// A mutation happened that the caller has not yet persisted and
    /// broadcast to subscribers.
    pub closed spec fn pending_change(&self) -> bool {
        self.changed
    }

    pub fn empty() -> (s: Store)
        ensures
            s@ == Seq::<AlarmView>::empty(),
            s.wf(),
            !s.pending_change(),
    {
        Store { alarms: Vec::new(), changed: false }
    }

    /// Add a new alarm; rejected (returns false, store untouched) when an
    /// alarm with the same id is already present.
    pub fn add(&mut self, alarm: Alarm) -> (r: bool)
        requires
            old(self).wf(),
        ensures
            final(self).wf(),
            r == !has_id(old(self)@, alarm@.id),
            r ==> final(self)@ == old(self)@.push(alarm@) && final(self).pending_change(),
            !r ==> final(self)@ == old(self)@ && final(self).pending_change() == old(self).pending_change(),
    {
        let n = self.alarms.len();
        let mut i: usize = 0;
        while i < n
            invariant
                old(self).wf(),
                *self == *old(self),
                n == self.alarms@.len(),
                i <= n,
                forall|j: int| 0 <= j < i ==> self@[j].id != alarm@.id,
            decreases n - i,
        {
            if self.alarms[i].id == alarm.id {
                proof {
                    assert(self@[i as int].id == alarm@.id);
                    assert(has_id(self@, alarm@.id));
                }
                return false;
            }
            i += 1;
        }
        assert(!has_id(self@, alarm@.id));
        let ghost pre = self.alarms@;
        self.alarms.push(alarm);
        self.changed = true;
        proof {
            assert(views_of(pre.push(alarm)) =~= views_of(pre).push(alarm@));
        }
        true
    }

    /// Remove and return the alarm with the given id; a no-op returning
    /// `None` when the id is unknown.
    pub fn remove(&mut self, id: &String) -> (r: Option<Alarm>)
        requires
            old(self).wf(),
        ensures
            final(self).wf(),
            r is None <==> !has_id(old(self)@, id@),
            r is None ==> final(self)@ == old(self)@
                && final(self).pending_change() == old(self).pending_change(),
            r matches Some(a) ==> removed_outcome(old(self)@, final(self)@, id@, a@)
                && final(self).pending_change(),
    {
        let n = self.alarms.len();
        let mut i: usize = 0;
        while i < n
            invariant
                old(self).wf(),
                *self == *old(self),
                n == self.alarms@.len(),
                i <= n,
                forall|j: int| 0 <= j < i ==> self@[j].id != id@,
            decreases n - i,
        {
            if self.alarms[i].id == *id {
                let ghost pre = self.alarms@;
                proof {
                    assert(self@[i as int].id == id@);
                    assert(has_id(self@, id@));
                }
                let removed = self.alarms.remove(i);
                self.changed = true;
                proof {
                    assert(views_of(pre.remove(i as int)) =~= views_of(pre).remove(i as int));
                    lemma_ids_unique_remove(views_of(pre), i as int);
                    assert(removed@ == old(self)@[i as int]);
                    assert(removed_outcome(old(self)@, self@, id@, removed@));
                }
                return Some(removed);
            }
            i += 1;
        }
        assert(!has_id(self@, id@));
        None
    }

    /// Remove every alarm that is elapsed at `now`; returns how many were
    /// removed. The pending-change flag is raised only when the count is
    /// nonzero, so callers persist and notify only on a real change.
    pub fn remove_elapsed(&mut self, now: i64) -> (r: usize)
        requires
            old(self).wf(),
        ensures
            final(self).wf(),
            final(self)@ == keep_current(old(self)@, now as int),
            r == old(self)@.len() - final(self)@.len(),
            r > 0 ==> final(self).pending_change(),
            r == 0 ==> final(self).pending_change() == old(self).pending_change(),
    {
        let n = self.alarms.len();
        let mut kept: Vec<Alarm> = Vec::new();
        let mut i: usize = 0;
        while i < n
            invariant
                *self == *old(self),
                n == self.alarms@.len(),
                i <= n,
                kept@.len() <= i,
                views_of(kept@) == keep_current(views_of(self.alarms@.subrange(0, i as int)), now as int),
            decreases n - i,
        {
            let ghost pre_kept = views_of(kept@);
            let a = &self.alarms[i];
            let keep = !alarm_elapsed(a, now);
            if keep {
                let ghost kv = kept@;
                kept.push(a.clone());
                proof {
                    assert(views_of(kv.push(*a)) =~= views_of(kv).push(a@));
                }
            }
            proof {
                let s_prev = views_of(self.alarms@.subrange(0, i as int));
                let s_next = views_of(self.alarms@.subrange(0, i + 1 as int));
                assert(s_next.drop_last() =~= s_prev);
                assert(s_next.last() == self.alarms@[i as int]@);
                reveal_with_fuel(Seq::filter, 2);
                if keep {
                    assert(views_of(kept@) =~= pre_kept.push(self.alarms@[i as int]@));
                }
                assert(views_of(kept@) == keep_current(s_next, now as int));
            }
            i += 1;
        }
        proof {
            assert(self.alarms@.subrange(0, n as int) =~= self.alarms@);
            self@.lemma_filter_len(|a: AlarmView| !is_elapsed(a, now as int));
            lemma_keep_current_unique(self@, now as int);
        }
        let removed = n - kept.len();
        if removed > 0 {
            self.changed = true;
        }
        self.alarms = kept;
        removed
    }

    /// Remove elapsed alarms against the wall clock; returns the count and
    /// the clock value that was used.
    pub fn remove_elapsed_now(&mut self) -> (r: (usize, i64))
        requires
            old(self).wf(),
        ensures
            final(self).wf(),
            final(self)@ == keep_current(old(self)@, r.1 as int),
            r.0 == old(self)@.len() - final(self)@.len(),
            r.0 > 0 ==> final(self).pending_change(),
            r.0 == 0 ==> final(self).pending_change() == old(self).pending_change(),
    {
        let now = unix_now();
        let count = self.remove_elapsed(now);
        (count, now)
    }

    /// The first non-elapsed alarm with the minimal trigger time, if any.
    pub fn upcoming(&self, now: i64) -> (r: Option<&Alarm>)
        ensures
            match r {
                Some(a) => upcoming_alarm(self@, now as int) == Some(a@),
                None => upcoming_alarm(self@, now as int) is None && forall|i: int|
                    0 <= i < self@.len() ==> is_elapsed(#[trigger] self@[i], now as int),
            },
    {
        let n = self.alarms.len();
        let mut best: Option<usize> = None;
        let mut i: usize = 0;
        while i < n
            invariant
                n == self.alarms@.len(),
                i <= n,
                match best {
                    Some(b) => b < i && is_upcoming_index(self@.subrange(0, i as int), now as int, b as int),
                    None => forall|j: int| 0 <= j < i ==> is_elapsed(#[trigger] self@[j], now as int),
                },
            decreases n - i,
        {
            let ghost prefix = self@.subrange(0, i as int);
            let ghost next_prefix = self@.subrange(0, i + 1 as int);
            let a = &self.alarms[i];
            if !alarm_elapsed(a, now) {
                let better = match best {
                    Some(b) => a.unix_time < self.alarms[b].unix_time,
                    None => true,
                };
                if better {
                    best = Some(i);
                }
            }
            proof {
                assert forall|j: int| 0 <= j < next_prefix.len() implies next_prefix[j] == self@[j] by {}
                assert(is_upcoming_index(next_prefix, now as int, best.unwrap() as int) || (
                    best is None && forall|j: int| 0 <= j < i + 1 ==> is_elapsed(#[trigger] self@[j], now as int)
                ));
            }
            i += 1;
        }
        proof {
            assert(self@.subrange(0, n as int) =~= self@);
        }
        match best {
            Some(b) => {
                proof {
                    assert(is_upcoming_index(self@, now as int, b as int));
                    let c = choose|i: int| is_upcoming_index(self@, now as int, i);
                    lemma_upcoming_index_unique(self@, now as int, b as int, c);
                }
                Some(&self.alarms[b])
            },
            None => {
                proof {
                    if exists|i: int| is_upcoming_index(self@, now as int, i) {
                        let c = choose|i: int| is_upcoming_index(self@, now as int, i);
                        assert(!is_elapsed(self@[c], now as int));
                    }
                }
                None
            },
        }
    }

    /// The trigger time of the upcoming alarm, if any.
    pub fn upcoming_unix(&self, now: i64) -> (r: Option<i64>)
        ensures
            match upcoming_alarm(self@, now as int) {
                Some(a) => r matches Some(t) && t as int == a.unix_time,
                None => r is None,
            },
    {
        match self.upcoming(now) {
            Some(a) => Some(a.unix_time),
            None => None,
        }
    }

    /// A copy of the full alarm list, in store order.
    pub fn alarms(&self) -> (r: Vec<Alarm>)
        ensures
            views_of(r@) == self@,
    {
        let n = self.alarms.len();
        let mut out: Vec<Alarm> = Vec::new();
        let mut i: usize = 0;
        while i < n
            invariant
                n == self.alarms@.len(),
                i <= n,
                views_of(out@) == views_of(self.alarms@.subrange(0, i as int)),
            decreases n - i,
        {
            let ghost ov = out@;
            out.push(self.alarms[i].clone());
            proof {
                assert(views_of(ov.push(self.alarms@[i as int])) =~= views_of(ov).push(self.alarms@[i as int]@));
                assert(views_of(self.alarms@.subrange(0, i + 1 as int)) =~= views_of(self.alarms@.subrange(0, i as int)).push(self.alarms@[i as int]@));
            }
            i += 1;
        }
        proof {
            assert(self.alarms@.subrange(0, n as int) =~= self.alarms@);
        }
        out
    }

    /// Consume the pending-change flag: the caller persists the snapshot and
    /// broadcasts a change-notification whenever this returns true.
    pub fn take_changed(&mut self) -> (r: bool)
        ensures
            r == old(self).pending_change(),
            !final(self).pending_change(),
            final(self)@ == old(self)@,
            final(self).wf() == old(self).wf(),
    {
        let r = self.changed;
        self.changed = false;
        r
    }

    /// Number of alarms in the store.
    pub fn len(&self) -> (r: usize)
        ensures
            r == self@.len(),
    {
        self.alarms.len()
    }

    /// The bytes that mirror the store to durable storage: always a whole
    /// snapshot, written by the caller as the file's entire new contents.
    pub fn snapshot_bytes(&self) -> (r: Vec<u8>)
        ensures
            r@ == enc_alarms(self@),
    {
        encode_alarms(&self.alarms)
    }

    /// Rebuild a store from the persisted file's bytes. A missing file reads
    /// as no bytes, and no bytes decode to the empty snapshot; an unparsable
    /// or ill-formed snapshot also yields the empty store rather than an
    /// error.
    pub fn load(bytes: &Vec<u8>) -> (s: Store)
        ensures
            s.wf(),
            !s.pending_change(),
            match dec_alarms(bytes@) {
                Some(al) => s@ == if ids_unique(al) {
                    al
                } else {
                    Seq::<AlarmView>::empty()
                },
                None => s@ == Seq::<AlarmView>::empty(),
            },
    {
        match decode_alarms(bytes) {
            Some(v) => {
                if ids_all_unique(&v) {
                    Store { alarms: v, changed: false }
                } else {
                    Store { alarms: Vec::new(), changed: false }
                }
            },
            None => Store { alarms: Vec::new(), changed: false },
        }
    }
}

/// Whether no two alarms of the list share an id.
fn ids_all_unique(v: &Vec<Alarm>) -> (r: bool)
    ensures
        r == ids_unique(views_of(v@)),
{
    let n = v.len();
    let mut i: usize = 0;
    while i < n
        invariant
            i <= n,
            n == v@.len(),
            forall|a: int, b: int| 0 <= a < b < n && a < i ==> views_of(v@)[a].id != views_of(
                v@,
            )[b].id,
        decreases n - i,
    {
        let mut j: usize = i + 1;
        while j < n
            invariant
                i < j <= n,
                i < n,
                n == v@.len(),
                forall|b: int| i < b < j ==> views_of(v@)[i as int].id != views_of(v@)[b].id,
            decreases n - j,
        {
            if v[i].id == v[j].id {
                proof {
                    assert(views_of(v@)[i as int].id == views_of(v@)[j as int].id);
                    assert(!ids_unique(views_of(v@)));
                }
                return false;
            }
            j += 1;
        }
        i += 1;
    }
    true
}

/// Removing an element keeps ids unique.
proof fn lemma_ids_unique_remove(s: Seq<AlarmView>, i: int)
    requires
        ids_unique(s),
        0 <= i < s.len(),
    ensures
        ids_unique(s.remove(i)),
{
    let t = s.remove(i);
    assert forall|a: int, b: int| 0 <= a < b < t.len() implies t[a].id != t[b].id by {
        let a0 = if a < i { a } else { a + 1 };
        let b0 = if b < i { b } else { b + 1 };
        assert(t[a] == s[a0]);
        assert(t[b] == s[b0]);
    }
}

/// Every element of a filtered sequence is an element of the original.
proof fn lemma_filter_is_subseq<A>(s: Seq<A>, pred: spec_fn(A) -> bool)
    ensures
        forall|k: int| 0 <= k < s.filter(pred).len() ==> exists|j: int|
            0 <= j < s.len() && #[trigger] s.filter(pred)[k] == s[j],
    decreases s.len(),
{
    reveal_with_fuel(Seq::filter, 2);
    if s.len() > 0 {
        lemma_filter_is_subseq(s.drop_last(), pred);
        let f = s.filter(pred);
        let fd = s.drop_last().filter(pred);
        assert forall|k: int| 0 <= k < f.len() implies exists|j: int|
            0 <= j < s.len() && #[trigger] f[k] == s[j] by {
            if k < fd.len() {
                let j = choose|j: int| 0 <= j < s.drop_last().len() && fd[k] == s.drop_last()[j];
                assert(f[k] == s[j]);
            } else {
                assert(f[k] == s[s.len() - 1]);
            }
        }
    }
}

/// A cleanup pass keeps ids unique.
proof fn lemma_keep_current_unique(s: Seq<AlarmView>, now: int)
    requires
        ids_unique(s),
    ensures
        ids_unique(keep_current(s, now)),
    decreases s.len(),
{
    reveal_with_fuel(Seq::filter, 2);
    let pred = |a: AlarmView| !is_elapsed(a, now);
    if s.len() > 0 {
        lemma_keep_current_unique(s.drop_last(), now);
        let fd = s.drop_last().filter(pred);
        if pred(s.last()) {
            lemma_filter_is_subseq(s.drop_last(), pred);
            let f = keep_current(s, now);
            assert(f == fd.push(s.last()));
            assert forall|a: int, b: int| 0 <= a < b < f.len() implies f[a].id != f[b].id by {
                if b == f.len() - 1 {
                    let j = choose|j: int| 0 <= j < s.drop_last().len() && fd[a] == s.drop_last()[j];
                    assert(f[a] == s[j]);
                    assert(f[b] == s[s.len() - 1]);
                }
            }
        }
    }
}

/// A sequence whose elements all satisfy the predicate filters to itself.
proof fn lemma_filter_all<A>(s: Seq<A>, pred: spec_fn(A) -> bool)
    requires
        forall|i: int| 0 <= i < s.len() ==> pred(#[trigger] s[i]),
    ensures
        s.filter(pred) == s,
    decreases s.len(),
{
    reveal_with_fuel(Seq::filter, 2);
    if s.len() > 0 {
        lemma_filter_all(s.drop_last(), pred);
        assert(s.filter(pred) =~= s);
    } else {
        assert(s.filter(pred) =~= s);
    }
}

/// Cleaning up elapsed alarms is idempotent: with the clock unchanged, a
/// second pass removes nothing.
pub proof fn lemma_remove_elapsed_idempotent(s: Seq<AlarmView>, now: int)
    ensures
        keep_current(keep_current(s, now), now) == keep_current(s, now),
{
    let pred = |a: AlarmView| !is_elapsed(a, now);
    let f = s.filter(pred);
    assert forall|i: int| 0 <= i < f.len() implies pred(#[trigger] f[i]) by {
        s.lemma_filter_pred(pred, i);
    }
    lemma_filter_all(f, pred);
}

} // verus!
