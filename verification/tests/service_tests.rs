//! The service boundary, the subscriber's merge logic, and the wait
//! primitive's decisions.

use rezz::Alarm;
use rezz::Error;
use rezz::Event;
use rezz::Service;
use rezz::Store;
use rezz::Subscriber;
use rezz::TimerSlot;
use rezz::WaitStep;
use rezz::seconds_until;
use rezz::wait_step;

fn alarm(id: &str, unix_time: i64, ring_seconds: u32) -> Alarm {
    Alarm::new(String::from(id), unix_time, ring_seconds)
}

#[test]
fn service_reports_duplicate_ids_as_errors() {
    let mut service = Service::new(Store::empty());
    assert!(service.add_alarm(alarm("a", 100, 5)).is_ok());
    let err = service.add_alarm(alarm("a", 200, 5)).unwrap_err();
    assert_eq!(err, Error::AlarmExists(String::from("a")));
    let all = service.alarms();
    assert_eq!(all.len(), 1);
    assert_eq!(all[0].unix_time, 100);
}

#[test]
fn service_reports_unknown_ids_as_errors() {
    let mut service = Service::new(Store::empty());
    service.add_alarm(alarm("a", 100, 5)).unwrap();
    let removed = service.remove_alarm(String::from("a")).expect("a is stored");
    assert_eq!(removed.id, "a");
    let err = service.remove_alarm(String::from("a")).unwrap_err();
    assert_eq!(err, Error::AlarmNotFound(String::from("a")));
}

#[test]
fn loop_step_cleans_up_and_returns_ring_window_end() {
    let mut service = Service::new(Store::empty());
    service.add_alarm(alarm("gone", 10, 5)).unwrap();
    service.add_alarm(alarm("next", 1000, 60)).unwrap();
    let deadline = service.loop_step(500);
    assert_eq!(service.alarms().len(), 1);
    assert_eq!(deadline, Some(1060));
    // Without alarms the loop falls back to its long default wait.
    let mut empty = Service::new(Store::empty());
    assert_eq!(empty.loop_step(500), None);
}

#[test]
fn loop_step_now_keeps_far_future_alarms() {
    let mut service = Service::new(Store::empty());
    service.add_alarm(alarm("future", i64::MAX - 1, 5)).unwrap();
    let (deadline, now) = service.loop_step_now();
    assert!(now > 0);
    // The ring window end is clamped to what a timestamp carries.
    assert_eq!(deadline, Some(i64::MAX));
    assert_eq!(service.alarms().len(), 1);
}

#[test]
fn service_change_flag_drives_persistence() {
    let mut service = Service::new(Store::empty());
    assert!(!service.take_changed());
    service.add_alarm(alarm("a", 100, 5)).unwrap();
    assert!(service.take_changed());
    let bytes = service.snapshot_bytes();
    let reloaded = Store::load(&bytes);
    assert_eq!(reloaded.alarms(), service.alarms());
}

#[test]
fn subscriber_keeps_alarms_sorted_by_trigger_time() {
    let sub = Subscriber::new(vec![
        alarm("late", 300, 5),
        alarm("early", 100, 5),
        alarm("middle", 200, 5),
    ]);
    let ids: Vec<&str> = sub.alarms().iter().map(|a| a.id.as_str()).collect();
    assert_eq!(ids, ["early", "middle", "late"]);
}

#[test]
fn subscriber_rebuilds_from_each_snapshot() {
    let mut sub = Subscriber::new(vec![alarm("a", 100, 5)]);
    sub.handle_alarms_changed(vec![alarm("c", 900, 5), alarm("b", 50, 5)]);
    let ids: Vec<&str> = sub.alarms().iter().map(|a| a.id.as_str()).collect();
    assert_eq!(ids, ["b", "c"]);
}

#[test]
fn subscriber_next_alarm_skips_elapsed_ones() {
    let sub = Subscriber::new(vec![alarm("old", 10, 5), alarm("new", 1000, 5)]);
    let next = sub.next_alarm(500).expect("one alarm is live");
    assert_eq!(next.id, "new");
    assert!(sub.next_alarm(2000).is_none());
}

#[test]
fn ringing_forgets_the_alarm_locally() {
    let mut sub = Subscriber::new(vec![alarm("a", 100, 5), alarm("b", 200, 5)]);
    let rung = sub.handle_ring(102).expect("a is due");
    assert_eq!(rung.id, "a");
    assert_eq!(sub.alarms().len(), 1);
    assert_eq!(sub.alarms()[0].id, "b");
    // The event stream wraps the rung alarm.
    match Event::Ring(rung) {
        Event::Ring(a) => assert_eq!(a.unix_time, 100),
        Event::AlarmsChanged(_) => unreachable!(),
    }
}

#[test]
fn subscriber_wait_target_is_trigger_or_hourly_default() {
    let sub = Subscriber::new(vec![alarm("a", 5000, 5)]);
    assert_eq!(sub.next_target(1000), 5000);
    let empty = Subscriber::new(Vec::new());
    assert_eq!(empty.next_target(1000), 4600);
}

#[test]
fn past_target_finishes_without_arming() {
    assert!(matches!(wait_step(100, 50), WaitStep::Done));
    assert!(matches!(wait_step(100, 100), WaitStep::Done));
    assert!(matches!(wait_step(100, 150), WaitStep::Arm(50)));
    assert!(matches!(
        wait_step(i64::MIN, i64::MAX),
        WaitStep::Arm(u64::MAX)
    ));
}

#[test]
fn seconds_until_saturates_at_zero() {
    assert_eq!(seconds_until(100, 50), 0);
    assert_eq!(seconds_until(100, 100), 0);
    assert_eq!(seconds_until(100, 160), 60);
}

#[test]
fn timer_slot_tracks_one_timer() {
    let mut slot = TimerSlot::new();
    slot.arm();
    slot.release();
    slot.arm();
    slot.release();
}
