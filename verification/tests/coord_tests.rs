//! Coordinator staging rules and the RTC register conversions.

use rezz::Alarm;
use rezz::Coordinator;
use rezz::CoordState;
use rezz::Error;
use rezz::RtcWkalm;
use rezz::Store;

fn alarm(id: &str, unix_time: i64, ring_seconds: u32) -> Alarm {
    Alarm::new(String::from(id), unix_time, ring_seconds)
}

#[test]
fn startup_acquires_the_lease() {
    let (coord, actions) = Coordinator::new();
    let _ = coord;
    assert!(actions.acquire_inhibitor);
    assert!(!actions.release_inhibitor);
    assert!(actions.stage.is_none());
}

#[test]
fn suspend_prepare_stages_nearest_and_releases_lease() {
    let (mut coord, _) = Coordinator::new();
    let mut store = Store::empty();
    store.add(alarm("a", 100, 5));
    store.add(alarm("b", 50, 5));
    let actions = coord.on_suspend_prepare(&mut store, None, 0);
    assert_eq!(actions.stage, Some(50));
    assert!(actions.release_inhibitor);
    assert!(!actions.acquire_inhibitor);
}

#[test]
fn staging_never_moves_a_future_wakeup_later() {
    let (mut coord, _) = Coordinator::new();
    let mut store = Store::empty();
    store.add(alarm("a", 100, 5));
    // A third party staged an earlier future wakeup: leave it alone.
    let actions = coord.on_poll_tick(&mut store, Some(50), 0);
    assert!(actions.stage.is_none());
    // The staged wakeup already fired (it lies in the past): re-stage.
    let actions = coord.on_poll_tick(&mut store, Some(50), 60);
    assert_eq!(actions.stage, Some(100));
}

#[test]
fn removal_clears_only_a_matching_staged_time() {
    // Store holds a at 100 and b at 50; the register was staged at 50.
    let (mut coord, _) = Coordinator::new();
    let mut store = Store::empty();
    store.add(alarm("a", 100, 5));
    store.add(alarm("b", 50, 5));
    let actions = coord.on_suspend_prepare(&mut store, None, 0);
    let staged = actions.stage;
    assert_eq!(staged, Some(50));

    // Remove b; its trigger matches the staged time, so clear and re-stage.
    let removed = store.remove(&String::from("b")).expect("b is stored");
    assert!(coord.must_clear_on_removal(removed.unix_time, staged));
    let after_clear: Option<i64> = None;
    let actions = coord.restage(&store, after_clear, 0);
    assert_eq!(actions.stage, Some(100));

    // Removing a when something else is staged leaves the register alone.
    assert!(!coord.must_clear_on_removal(100, Some(99)));
    assert!(!coord.must_clear_on_removal(100, None));
}

#[test]
fn suspend_prepare_drops_elapsed_alarms_first() {
    let (mut coord, _) = Coordinator::new();
    let mut store = Store::empty();
    store.add(alarm("gone", 10, 5));
    store.add(alarm("next", 900, 5));
    let actions = coord.on_suspend_prepare(&mut store, None, 500);
    assert_eq!(store.len(), 1);
    assert_eq!(actions.stage, Some(900));
}

#[test]
fn resume_reacquires_the_lease() {
    let (mut coord, _) = Coordinator::new();
    let mut store = Store::empty();
    coord.on_suspend_prepare(&mut store, None, 0);
    let actions = coord.on_resume();
    assert!(actions.acquire_inhibitor);
    assert!(!actions.release_inhibitor);
    let _ = CoordState::Active;
}

#[test]
fn register_round_trip_reconstructs_the_instant() {
    for &t in &[0i64, 1, 59, 86399, 86400, 951782400, 1700000000, 253402300799] {
        let w = RtcWkalm::for_unix(t).expect("in range");
        assert!(w.enabled);
        assert_eq!(w.staged_unix(), Some(t));
    }
}

#[test]
fn register_fields_are_utc_calendar_fields() {
    // 1970-01-01T00:00:00Z.
    let w = RtcWkalm::for_unix(0).unwrap();
    assert_eq!(
        (w.time.tm_year, w.time.tm_mon, w.time.tm_mday),
        (70, 0, 1)
    );
    assert_eq!((w.time.tm_hour, w.time.tm_min, w.time.tm_sec), (0, 0, 0));
    // 2000-02-29T00:00:00Z, a leap day.
    let w = RtcWkalm::for_unix(951782400).unwrap();
    assert_eq!(
        (w.time.tm_year, w.time.tm_mon, w.time.tm_mday),
        (100, 1, 29)
    );
    // 9999-12-31T23:59:59Z, the last representable second.
    let w = RtcWkalm::for_unix(253402300799).unwrap();
    assert_eq!(
        (w.time.tm_year, w.time.tm_mon, w.time.tm_mday),
        (8099, 11, 31)
    );
    assert_eq!((w.time.tm_hour, w.time.tm_min, w.time.tm_sec), (23, 59, 59));
}

#[test]
fn out_of_range_instants_are_range_errors() {
    assert_eq!(RtcWkalm::for_unix(-1).unwrap_err(), Error::RtcRange);
    assert_eq!(RtcWkalm::for_unix(253402300800).unwrap_err(), Error::RtcRange);
    assert_eq!(RtcWkalm::for_unix(i64::MAX).unwrap_err(), Error::RtcRange);
}

#[test]
fn disabled_register_stages_nothing() {
    let w = RtcWkalm::disabled();
    assert!(!w.enabled);
    assert_eq!(w.time.tm_year, 70);
    assert_eq!(w.time.tm_mday, 1);
    assert_eq!(w.staged_unix(), None);
}

#[test]
fn register_with_out_of_bounds_fields_stages_nothing() {
    let mut w = RtcWkalm::for_unix(1700000000).unwrap();
    w.time.tm_mon = 12;
    assert_eq!(w.staged_unix(), None);
    let mut w = RtcWkalm::for_unix(1700000000).unwrap();
    w.time.tm_mday = 32;
    assert_eq!(w.staged_unix(), None);
    let mut w = RtcWkalm::for_unix(1700000000).unwrap();
    w.time.tm_year = 69;
    assert_eq!(w.staged_unix(), None);
}
