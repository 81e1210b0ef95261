//! Verified core of an alarm daemon for devices whose monotonic clock stops
//! during suspend: a persistent alarm store, the staging rules for the single
//! hardware RTC wakeup slot, a suspend-immune wait primitive, and the logic
//! that merges store changes and timer expiry into one event stream.

use vstd::prelude::*;

mod alarm;
mod clock;
mod codec;
mod coord;
mod error;
mod rtc;
mod service;
mod store;
mod subscriber;
mod wait;

pub use alarm::Alarm;
pub use alarm::AlarmView;
pub use alarm::RING_FOREVER;
pub use coord::CoordActions;
pub use coord::CoordState;
pub use coord::Coordinator;
pub use error::Error;
pub use rtc::RtcTime;
pub use rtc::RtcWkalm;
pub use service::Service;
pub use store::Store;
pub use subscriber::Event;
pub use subscriber::Subscriber;
pub use wait::TimerSlot;
pub use wait::WaitStep;
pub use wait::seconds_until;
pub use wait::wait_step;

verus! {

/// An alarm is elapsed once its trigger time plus its ring duration has
/// passed; elapsed alarms are eligible for silent removal.
pub open spec fn is_elapsed(a: AlarmView, now: int) -> bool {
    a.unix_time + a.ring_seconds <= now
}

} // verus!

