use chrono::{DateTime, Utc};
use k8s_workflow_deploy::time::{Timestamp, MAX_SECS, MIN_SECS};

#[test]
fn range_is_that_of_chrono() {
    assert_eq!(DateTime::<Utc>::MIN_UTC.timestamp(), MIN_SECS);
    assert_eq!(DateTime::<Utc>::MAX_UTC.timestamp(), MAX_SECS);
    assert_eq!(DateTime::<Utc>::MAX_UTC.timestamp_subsec_nanos(), 999_999_999);
}

#[test]
fn plus_seconds_adds_whole_seconds() {
    let t = Timestamp::new(1_431_648_000, 250);
    assert_eq!(t.plus_seconds(15), Some(Timestamp::new(1_431_648_015, 250)));
    assert_eq!(t.plus_seconds(0), Some(t));
}

#[test]
fn plus_seconds_leaves_a_leap_second() {
    let leap = Timestamp::new(1_483_228_799, 1_300_000_000);
    assert_eq!(leap.plus_seconds(10), Some(Timestamp::new(1_483_228_809, 300_000_000)));
    assert_eq!(leap.plus_seconds(0), Some(leap));
}

#[test]
fn plus_seconds_rejects_what_is_no_instant() {
    assert_eq!(Timestamp::new(0, 2_000_000_000).plus_seconds(1), None);
    assert_eq!(Timestamp::new(0, 1_000_000_000).plus_seconds(1), None);
    assert_eq!(Timestamp::new(59, 1_000_000_000).plus_seconds(1), Some(Timestamp::new(60, 0)));
    assert_eq!(Timestamp::new(-1, 1_999_999_999).plus_seconds(0), Some(Timestamp::new(-1, 1_999_999_999)));
    assert_eq!(Timestamp::new(MAX_SECS + 1, 0).plus_seconds(0), None);
    assert_eq!(Timestamp::new(MIN_SECS - 1, 0).plus_seconds(0), None);
    assert_eq!(Timestamp::new(MIN_SECS, 0).plus_seconds(0), Some(Timestamp::new(MIN_SECS, 0)));
}

#[test]
fn plus_seconds_stops_at_the_last_instant() {
    let last = Timestamp::new(MAX_SECS, 999_999_999);
    assert_eq!(last.plus_seconds(0), Some(last));
    assert_eq!(last.plus_seconds(1), None);
    assert_eq!(Timestamp::new(MAX_SECS - 15, 0).plus_seconds(15), Some(Timestamp::new(MAX_SECS, 0)));
    assert_eq!(Timestamp::new(MAX_SECS - 14, 0).plus_seconds(15), None);
    assert_eq!(Timestamp::new(MAX_SECS, 1_500_000_000).plus_seconds(0), Some(Timestamp::new(MAX_SECS, 1_500_000_000)));
    assert_eq!(Timestamp::new(MAX_SECS, 1_500_000_000).plus_seconds(1), None);
}

#[test]
fn order_is_by_seconds_then_nanoseconds() {
    let a = Timestamp::new(5, 999_999_999);
    let b = Timestamp::new(6, 0);
    assert!(a.is_before(&b));
    assert!(!b.is_before(&a));
    assert!(!a.is_before(&a));
    assert!(a.is_at_or_before(&a));
    assert!(a < b);
}
