//! Decision logic of the suspend-immune wait primitive.
//!
//! `sleep_until` works against the real-time clock: the surrounding process
//! installs its signal listener first, then repeats one step — compare the
//! clock with the target, arm an absolute kernel timer for the remaining
//! seconds, block for the signal, release the timer — until the step says the
//! target is reached. Spurious or early wakeups are harmless: the next step
//! re-reads the clock. A target at or before now finishes immediately,
//! without arming any timer.

use vstd::prelude::*;

verus! {

/// What one iteration of the wait loop does next.
#[derive(Clone, Copy, Debug)]
pub enum WaitStep {
    /// The target is reached: return without arming a timer.
    Done,
    /// Arm an absolute real-time timer this many seconds ahead and block.
    Arm(u64),
}

/// One iteration of the wait loop: done exactly when the target is at or
/// before now, else arm for the exact remaining seconds.
pub fn wait_step(now: i64, target: i64) -> (r: WaitStep)
    ensures
        r is Done <==> now >= target,
        r matches WaitStep::Arm(s) ==> s == target - now,
{
    if now >= target {
        WaitStep::Done
    } else {
        WaitStep::Arm(((target as i128) - (now as i128)) as u64)
    }
}

/// Seconds from `now` until `deadline`, zero when the deadline has passed;
/// what the event loops hand to their timers.
pub fn seconds_until(now: i64, deadline: i64) -> (r: u64)
    ensures
        deadline <= now ==> r == 0,
        deadline > now ==> r == deadline - now,
{
    if deadline <= now {
        0
    } else {
        ((deadline as i128) - (now as i128)) as u64
    }
}

/// Model of the one kernel timer the wait loop owns: it is created before
/// blocking and must be released exactly once afterwards, also on the final
/// successful iteration — a second timer may never exist beside it.
pub struct TimerSlot {
    armed: bool,
}

impl TimerSlot {
    /// Whether a kernel timer currently exists.
    pub closed spec fn is_armed(&self) -> bool {
        self.armed
    }

    pub fn new() -> (r: TimerSlot)
        ensures
            !r.is_armed(),
    {
        TimerSlot { armed: false }
    }

    /// Record that a kernel timer was created; only one may exist.
    pub fn arm(&mut self)
        requires
            !old(self).is_armed(),
        ensures
            final(self).is_armed(),
    {
        self.armed = true;
    }

    /// Record that the kernel timer was deleted.
    pub fn release(&mut self)
        requires
            old(self).is_armed(),
        ensures
            !final(self).is_armed(),
    {
        self.armed = false;
    }
}

} // verus!
