//! Behaviour of the alarm store: id uniqueness, upcoming selection, lazy
//! cleanup of elapsed alarms, and persistence round trips.

use rezz::Alarm;
use rezz::RING_FOREVER;
use rezz::Store;

fn alarm(id: &str, unix_time: i64, ring_seconds: u32) -> Alarm {
    Alarm::new(String::from(id), unix_time, ring_seconds)
}

#[test]
fn add_then_upcoming_returns_the_alarm() {
    let mut store = Store::empty();
    let now: i64 = 1000;
    assert!(store.add(alarm("a", now + 10, 5)));
    let up = store.upcoming(now).expect("one alarm is pending");
    assert_eq!(up.id, "a");
    assert_eq!(up.unix_time, now + 10);
}

#[test]
fn upcoming_within_ring_window_still_returns_the_alarm() {
    let mut store = Store::empty();
    let now: i64 = 1000;
    store.add(alarm("a", now + 10, 5));
    // Past the trigger but before trigger + ring_seconds.
    let later = now + 12;
    let up = store.upcoming(later).expect("alarm still rings");
    assert_eq!(up.id, "a");
}

#[test]
fn remove_elapsed_drops_alarm_past_its_ring_window() {
    let mut store = Store::empty();
    let now: i64 = 1000;
    store.add(alarm("a", now + 10, 5));
    let past_window = now + 16;
    assert_eq!(store.remove_elapsed(past_window), 1);
    assert!(store.upcoming(past_window).is_none());
    assert_eq!(store.len(), 0);
}

#[test]
fn duplicate_id_is_rejected_and_original_kept() {
    let mut store = Store::empty();
    assert!(store.add(alarm("a", 100, 5)));
    assert!(!store.add(alarm("a", 200, 5)));
    assert_eq!(store.len(), 1);
    let all = store.alarms();
    assert_eq!(all.len(), 1);
    assert_eq!(all[0].unix_time, 100);
}

#[test]
fn ids_stay_unique_over_add_remove_sequences() {
    let mut store = Store::empty();
    assert!(store.add(alarm("a", 100, 5)));
    assert!(store.add(alarm("b", 50, 5)));
    assert!(!store.add(alarm("b", 70, 5)));
    assert!(store.remove(&String::from("b")).is_some());
    assert!(store.add(alarm("b", 70, 5)));
    let all = store.alarms();
    assert_eq!(all.len(), 2);
    assert_ne!(all[0].id, all[1].id);
}

#[test]
fn upcoming_picks_globally_minimal_trigger_among_live_alarms() {
    let mut store = Store::empty();
    store.add(alarm("late", 500, 5));
    store.add(alarm("early", 100, 5));
    store.add(alarm("middle", 300, 5));
    let up = store.upcoming(0).expect("alarms pending");
    assert_eq!(up.id, "early");
    // Once "early" is past its window, the minimum moves on.
    let up = store.upcoming(200).expect("alarms pending");
    assert_eq!(up.id, "middle");
}

#[test]
fn remove_returns_alarm_and_unknown_id_is_noop() {
    let mut store = Store::empty();
    store.add(alarm("a", 100, 5));
    let removed = store.remove(&String::from("a")).expect("a is stored");
    assert_eq!(removed.unix_time, 100);
    assert!(store.remove(&String::from("a")).is_none());
    assert!(store.remove(&String::from("ghost")).is_none());
}

#[test]
fn remove_elapsed_is_idempotent_for_a_fixed_now() {
    let mut store = Store::empty();
    store.add(alarm("a", 10, 0));
    store.add(alarm("b", 20, 0));
    store.add(alarm("c", 1000, 0));
    let now: i64 = 100;
    assert_eq!(store.remove_elapsed(now), 2);
    assert_eq!(store.remove_elapsed(now), 0);
    assert_eq!(store.len(), 1);
}

#[test]
fn change_flag_follows_mutations() {
    let mut store = Store::empty();
    assert!(!store.take_changed());
    store.add(alarm("a", 100, 5));
    assert!(store.take_changed());
    assert!(!store.take_changed());
    // A cleanup that removes nothing does not signal.
    assert_eq!(store.remove_elapsed(0), 0);
    assert!(!store.take_changed());
    // A rejected add does not signal either.
    assert!(!store.add(alarm("a", 300, 5)));
    assert!(!store.take_changed());
}

#[test]
fn persist_reload_round_trip_keeps_the_alarm_set() {
    let mut store = Store::empty();
    store.add(alarm("first", 100, 5));
    store.add(alarm("second", 50, 600));
    store.add(alarm("third", -3, RING_FOREVER));
    let bytes = store.snapshot_bytes();
    let reloaded = Store::load(&bytes);
    assert_eq!(store.alarms(), reloaded.alarms());
}

#[test]
fn round_trip_is_insertion_order_independent_as_a_set() {
    let mut one = Store::empty();
    one.add(alarm("a", 100, 5));
    one.add(alarm("b", 50, 5));
    let mut two = Store::empty();
    two.add(alarm("b", 50, 5));
    two.add(alarm("a", 100, 5));
    let one_back = Store::load(&one.snapshot_bytes());
    let two_back = Store::load(&two.snapshot_bytes());
    let mut ids_one: Vec<(String, i64)> =
        one_back.alarms().into_iter().map(|a| (a.id.clone(), a.unix_time)).collect();
    let mut ids_two: Vec<(String, i64)> =
        two_back.alarms().into_iter().map(|a| (a.id.clone(), a.unix_time)).collect();
    ids_one.sort();
    ids_two.sort();
    assert_eq!(ids_one, ids_two);
}

#[test]
fn non_ascii_ids_survive_the_round_trip() {
    let mut store = Store::empty();
    store.add(alarm("wake — ☀ früh", 12345, 60));
    let reloaded = Store::load(&store.snapshot_bytes());
    assert_eq!(reloaded.alarms()[0].id, "wake — ☀ früh");
}

#[test]
fn missing_file_reads_as_empty_store() {
    let empty_bytes: Vec<u8> = Vec::new();
    let store = Store::load(&empty_bytes);
    assert_eq!(store.len(), 0);
}

#[test]
fn unparsable_file_reads_as_empty_store() {
    let garbage: Vec<u8> = vec![1, 2, 3, 4, 5];
    let store = Store::load(&garbage);
    assert_eq!(store.len(), 0);
    // A valid snapshot with trailing garbage is rejected as a whole.
    let mut one = Store::empty();
    one.add(alarm("a", 100, 5));
    let mut bytes = one.snapshot_bytes();
    bytes.push(0);
    assert_eq!(Store::load(&bytes).len(), 0);
}

#[test]
fn snapshot_encoding_is_not_the_identity() {
    let mut store = Store::empty();
    store.add(alarm("a", 100, 5));
    let bytes = store.snapshot_bytes();
    // One record: 8 (length) + 4 (one character) + 8 (time) + 4 (ring).
    assert_eq!(bytes.len(), 24);
    assert_eq!(&bytes[0..8], &[1, 0, 0, 0, 0, 0, 0, 0]);
    assert_eq!(&bytes[8..12], &[b'a' as u8, 0, 0, 0]);
}

#[test]
fn remove_elapsed_now_drops_long_past_alarms() {
    let mut store = Store::empty();
    store.add(alarm("past", 1, 1));
    store.add(alarm("future", i64::MAX - 1, 0));
    let (count, now) = store.remove_elapsed_now();
    assert!(now > 2);
    assert_eq!(count, 1);
    assert_eq!(store.alarms()[0].id, "future");
}

#[test]
fn alarm_new_sets_all_fields() {
    let a = Alarm::new(String::from("x"), 42, 7);
    assert_eq!(a.id, "x");
    assert_eq!(a.unix_time, 42);
    assert_eq!(a.ring_seconds, 7);
}
