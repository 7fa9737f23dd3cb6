use analytic_engine::time::{TimeRange, Timestamp};

#[test]
fn truncate_by_aligns_down_to_the_segment() {
    assert_eq!(Timestamp::new(7_300_000).truncate_by(3_600_000), Some(Timestamp::new(7_200_000)));
    assert_eq!(Timestamp::new(3_600_000).truncate_by(3_600_000), Some(Timestamp::new(3_600_000)));
    assert_eq!(Timestamp::new(0).truncate_by(3_600_000), Some(Timestamp::new(0)));
}

#[test]
fn truncate_by_floors_negative_timestamps() {
    assert_eq!(Timestamp::new(-1).truncate_by(1000), Some(Timestamp::new(-1000)));
    assert_eq!(Timestamp::new(-1000).truncate_by(1000), Some(Timestamp::new(-1000)));
    assert_eq!(Timestamp::new(-1001).truncate_by(1000), Some(Timestamp::new(-2000)));
}

#[test]
fn truncate_by_reports_underflow() {
    assert_eq!(Timestamp::new(i64::MIN).truncate_by(3), None);
}

#[test]
fn time_range_new_rejects_reversed_bounds() {
    assert!(TimeRange::new(Timestamp::new(10), Timestamp::new(9)).is_none());
    let empty = TimeRange::new(Timestamp::new(10), Timestamp::new(10)).unwrap();
    assert_eq!(empty.inclusive_start(), Timestamp::new(10));
    assert_eq!(empty.exclusive_end(), Timestamp::new(10));
}

#[test]
fn intersect_with_is_half_open() {
    let a = TimeRange::new(Timestamp::new(0), Timestamp::new(10)).unwrap();
    let b = TimeRange::new(Timestamp::new(10), Timestamp::new(20)).unwrap();
    let c = TimeRange::new(Timestamp::new(9), Timestamp::new(20)).unwrap();
    assert!(!a.intersect_with(b));
    assert!(!b.intersect_with(a));
    assert!(a.intersect_with(c));
    assert!(c.intersect_with(a));
}

#[test]
fn is_expired_compares_the_exclusive_end() {
    let range = TimeRange::new(Timestamp::new(0), Timestamp::new(100)).unwrap();
    assert!(range.is_expired(Some(Timestamp::new(100))));
    assert!(range.is_expired(Some(Timestamp::new(101))));
    assert!(!range.is_expired(Some(Timestamp::new(99))));
    assert!(!range.is_expired(None));
}

#[test]
fn bucket_of_covers_the_timestamp() {
    let bucket = TimeRange::bucket_of(Timestamp::new(7_300_000), 3_600_000).unwrap();
    assert_eq!(bucket.inclusive_start(), Timestamp::new(7_200_000));
    assert_eq!(bucket.exclusive_end(), Timestamp::new(10_800_000));
    assert!(bucket.contains(Timestamp::new(7_300_000)));
    assert!(TimeRange::bucket_of(Timestamp::new(i64::MAX), 1000).is_none());
}

#[test]
fn bucket_index_is_the_floor_of_the_quotient() {
    assert_eq!(Timestamp::new(7_300_000).bucket_index(3_600_000), 2);
    assert_eq!(Timestamp::new(-1).bucket_index(1000), -1);
    assert_eq!(Timestamp::new(-1000).bucket_index(1000), -1);
    assert_eq!(Timestamp::new(-1001).bucket_index(1000), -2);
    assert_eq!(Timestamp::new(i64::MIN).bucket_index(1), i64::MIN);
    assert_eq!(Timestamp::new(i64::MAX).bucket_index(i64::MAX), 1);
}

#[test]
fn saturating_sub_millis_stops_at_the_earliest_timestamp() {
    assert_eq!(Timestamp::new(1000).saturating_sub_millis(300), Timestamp::new(700));
    assert_eq!(Timestamp::new(i64::MIN + 5).saturating_sub_millis(10), Timestamp::min_value());
    assert_eq!(Timestamp::max_value().as_i64(), i64::MAX);
}

#[test]
fn min_to_max_leaves_out_the_latest_timestamp_only() {
    let all = TimeRange::min_to_max();
    assert!(all.contains(Timestamp::new(i64::MIN)));
    assert!(all.contains(Timestamp::new(i64::MAX - 1)));
    assert!(!all.contains(Timestamp::new(i64::MAX)));
}
