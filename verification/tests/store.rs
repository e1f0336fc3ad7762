use chrono::{DateTime, Utc};
use respkv::clock::{Timestamp, MAX_SECS, MIN_SECS};
use respkv::store::Store;
use std::time::{Duration, Instant};

const DAY: i64 = 86_400;

fn at(secs: i64, nanos: u32) -> Timestamp {
    Timestamp::new(secs, nanos).unwrap()
}

#[test]
fn timestamps_are_instants_within_the_range_of_the_clock() {
    assert!(Timestamp::new(0, 0).is_some());
    assert!(Timestamp::new(1_700_000_000, 999_999_999).is_some());
    assert!(Timestamp::new(-1, 0).is_some());
    assert!(Timestamp::new(MIN_SECS, 0).is_some());
    assert!(Timestamp::new(MAX_SECS, 999_999_999).is_some());
    assert!(Timestamp::new(MIN_SECS - 1, 0).is_none());
    assert!(Timestamp::new(MAX_SECS + 1, 0).is_none());
    assert!(Timestamp::new(i64::MIN, 0).is_none());
    assert!(Timestamp::new(i64::MAX, 0).is_none());
    assert!(Timestamp::new(0, 1_000_000_000).is_none());
    assert!(Timestamp::new(0, u32::MAX).is_none());
    let t = at(3_600, 25);
    assert_eq!(t.secs(), 3_600);
    assert_eq!(t.nanos(), 25);
    let before_epoch = at(-1, 999_999_999);
    assert_eq!(before_epoch.secs(), -1);
    assert_eq!(before_epoch.nanos(), 999_999_999);
}

#[test]
fn range_of_the_clock_is_the_range_of_its_dates() {
    assert_eq!(DateTime::<Utc>::MIN_UTC.timestamp(), MIN_SECS);
    assert_eq!(DateTime::<Utc>::MAX_UTC.timestamp(), MAX_SECS);
    assert!(DateTime::from_timestamp(MIN_SECS, 0).is_some());
    assert!(DateTime::from_timestamp(MAX_SECS, 999_999_999).is_some());
    assert!(DateTime::from_timestamp(MIN_SECS - 1, 999_999_999).is_none());
    assert!(DateTime::from_timestamp(MAX_SECS + 1, 0).is_none());
}

#[test]
fn get_of_a_missing_key_gives_nothing() {
    let mut store = Store::new();
    assert_eq!(store.get_at("nope", at(0, 0)), None);
    assert_eq!(store.get("nope"), None);
}

#[test]
fn set_without_expiry_is_found_at_any_time() {
    let mut store = Store::new();
    store.set_at("k", "v", None, at(100, 0));
    assert_eq!(store.get_at("k", at(100, 0)), Some("v".to_string()));
    assert_eq!(store.get_at("k", at(86_399, 999_999_999)), Some("v".to_string()));
    assert_eq!(store.get_at("k", at(100 + 365 * DAY, 0)), Some("v".to_string()));
    assert_eq!(store.get_at("k", at(MAX_SECS, 999_999_999)), Some("v".to_string()));
    assert_eq!(store.get_at("k", at(0, 0)), Some("v".to_string()));
}

#[test]
fn set_overwrites_value_and_expiry() {
    let mut store = Store::new();
    store.set_at("k", "old", Some(10), at(100, 0));
    store.set_at("k", "new", None, at(100, 0));
    assert_eq!(store.get_at("k", at(200, 0)), Some("new".to_string()));
    store.set_at("k", "newer", Some(0), at(300, 0));
    assert_eq!(store.get_at("k", at(300, 999_999)), Some("newer".to_string()));
    assert_eq!(store.get_at("k", at(300, 1_000_000)), None);
}

#[test]
fn record_is_found_right_after_set() {
    let mut store = Store::new();
    store.set_at("k", "v", Some(100), at(10, 0));
    assert_eq!(store.get_at("k", at(10, 0)), Some("v".to_string()));
}

#[test]
fn record_is_alive_at_exactly_its_expiry() {
    let mut store = Store::new();
    store.set_at("k", "v", Some(100), at(10, 0));
    assert_eq!(store.get_at("k", at(10, 100_000_000)), Some("v".to_string()));
    assert_eq!(store.get_at("k", at(10, 100_999_999)), Some("v".to_string()));
}

#[test]
fn record_is_removed_once_it_is_dead() {
    let mut store = Store::new();
    store.set_at("k", "v", Some(100), at(10, 0));
    assert_eq!(store.get_at("k", at(10, 101_000_000)), None);
    assert_eq!(store.get_at("k", at(10, 0)), None);
    assert_eq!(store.get_at("k", at(10, 50_000_000)), None);
}

#[test]
fn elapsed_time_counts_seconds_and_nanoseconds() {
    let mut store = Store::new();
    store.set_at("k", "v", Some(1_500), at(10, 900_000_000));
    assert_eq!(store.get_at("k", at(12, 400_000_000)), Some("v".to_string()));
    assert_eq!(store.get_at("k", at(12, 400_999_999)), Some("v".to_string()));
    assert_eq!(store.get_at("k", at(12, 401_000_000)), None);
}

#[test]
fn record_dies_across_midnight() {
    let mut store = Store::new();
    let last_second_of_a_day = 19_999 * DAY + 86_399;
    store.set_at("k", "v", Some(2_000), at(last_second_of_a_day, 500_000_000));
    assert_eq!(
        store.get_at("k", at(last_second_of_a_day + 2, 500_999_999)),
        Some("v".to_string())
    );
    assert_eq!(store.get_at("k", at(last_second_of_a_day + 2, 501_000_000)), None);
    assert_eq!(store.get_at("k", at(last_second_of_a_day + 3, 0)), None);
}

#[test]
fn time_to_live_of_a_day_or_more_runs_out() {
    let written = 1_700_000_000;
    let mut store = Store::new();
    store.set_at("day", "v", Some(86_400_000), at(written, 0));
    store.set_at("week", "v", Some(7 * 86_400_000), at(written, 0));
    assert_eq!(store.get_at("day", at(written + DAY, 999_999)), Some("v".to_string()));
    assert_eq!(store.get_at("day", at(written + DAY, 1_000_000)), None);
    assert_eq!(store.get_at("day", at(written + DAY, 1_000_000)), None);
    assert_eq!(store.get_at("week", at(written + 7 * DAY, 0)), Some("v".to_string()));
    assert_eq!(store.get_at("week", at(written + 30 * DAY, 0)), None);
}

#[test]
fn later_write_alone_decides_the_expiry() {
    let mut store = Store::new();
    store.set_at("k", "one", Some(10), at(1_000, 0));
    store.set_at("k", "two", Some(2 * 86_400_000), at(2_000, 0));
    assert_eq!(store.get_at("k", at(2_000 + 2 * DAY, 0)), Some("two".to_string()));
    assert_eq!(store.get_at("k", at(2_000 + 2 * DAY, 1_000_000)), None);
    store.set_at("k", "three", Some(86_400_000), at(3_000, 0));
    store.set_at("k", "four", None, at(4_000, 0));
    assert_eq!(store.get_at("k", at(4_000 + 400 * DAY, 0)), Some("four".to_string()));
}

#[test]
fn elapsed_time_is_counted_before_the_epoch_too() {
    let mut store = Store::new();
    store.set_at("k", "v", Some(1_500), at(-10, 900_000_000));
    assert_eq!(store.get_at("k", at(-8, 400_999_999)), Some("v".to_string()));
    assert_eq!(store.get_at("k", at(-8, 401_000_000)), None);
    store.set_at("k", "v", Some(1_500), at(-1, 0));
    assert_eq!(store.get_at("k", at(0, 500_000_000)), Some("v".to_string()));
    assert_eq!(store.get_at("k", at(0, 501_000_000)), None);
}

#[test]
fn elapsed_time_is_counted_over_the_whole_range_of_the_clock() {
    let whole_range = ((MAX_SECS - MIN_SECS) as usize) * 1_000 + 999;
    let mut store = Store::new();
    store.set_at("k", "v", Some(whole_range), at(MIN_SECS, 0));
    assert_eq!(store.get_at("k", at(MAX_SECS, 999_999_999)), Some("v".to_string()));
    store.set_at("k", "v", Some(whole_range - 1), at(MIN_SECS, 0));
    assert_eq!(store.get_at("k", at(MAX_SECS, 999_999_999)), None);
    store.set_at("k", "v", Some(usize::MAX), at(MIN_SECS, 0));
    assert_eq!(store.get_at("k", at(MAX_SECS, 999_999_999)), Some("v".to_string()));
}

#[test]
fn a_clock_set_back_leaves_the_record_alive() {
    let mut store = Store::new();
    store.set_at("k", "v", Some(0), at(1_000, 0));
    assert_eq!(store.get_at("k", at(999, 0)), Some("v".to_string()));
    assert_eq!(store.get_at("k", at(MIN_SECS, 0)), Some("v".to_string()));
    assert_eq!(store.get_at("k", at(1_000, 1_000_000)), None);
}

#[test]
fn other_keys_are_left_alone() {
    let mut store = Store::new();
    store.set_at("a", "1", Some(5), at(0, 0));
    store.set_at("b", "2", None, at(0, 0));
    store.set_at("c", "3", Some(5_000), at(0, 0));
    assert_eq!(store.get_at("a", at(1, 0)), None);
    assert_eq!(store.get_at("b", at(1, 0)), Some("2".to_string()));
    assert_eq!(store.get_at("c", at(1, 0)), Some("3".to_string()));
    store.set_at("a", "4", None, at(2, 0));
    assert_eq!(store.get_at("a", at(3, 0)), Some("4".to_string()));
    assert_eq!(store.get_at("c", at(6, 0)), None);
    assert_eq!(store.get_at("b", at(6, 0)), Some("2".to_string()));
}

#[test]
fn keys_are_compared_as_text() {
    let mut store = Store::new();
    store.set_at("", "empty", None, at(0, 0));
    store.set_at("é", "accent", None, at(0, 0));
    store.set_at("e", "plain", None, at(0, 0));
    assert_eq!(store.get_at("", at(0, 0)), Some("empty".to_string()));
    assert_eq!(store.get_at("é", at(0, 0)), Some("accent".to_string()));
    assert_eq!(store.get_at("e", at(0, 0)), Some("plain".to_string()));
    assert_eq!(store.get_at("E", at(0, 0)), None);
}

#[test]
fn wall_clock_set_then_get_gives_the_value() {
    let mut store = Store::new();
    store.set("k", "v", None);
    assert_eq!(store.get("k"), Some("v".to_string()));
    store.set("soon", "gone", Some(60_000));
    assert_eq!(store.get("soon"), Some("gone".to_string()));
}

#[test]
fn wall_clock_expiry_removes_the_record() {
    let mut store = Store::new();
    store.set("k", "v", Some(20));
    let start = Instant::now();
    while start.elapsed() < Duration::from_millis(60) {}
    assert_eq!(store.get("k"), None);
    assert_eq!(store.get("k"), None);
}
