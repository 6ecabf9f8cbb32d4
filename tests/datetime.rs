use tasque::datetime::{days_in_month, DateTime, MAX_YEAR, MIN_YEAR};

#[test]
fn month_lengths_follow_the_gregorian_calendar() {
    assert_eq!(days_in_month(2022, 1), 31);
    assert_eq!(days_in_month(2022, 2), 28);
    assert_eq!(days_in_month(2024, 2), 29);
    assert_eq!(days_in_month(1900, 2), 28);
    assert_eq!(days_in_month(2000, 2), 29);
    assert_eq!(days_in_month(2022, 4), 30);
    assert_eq!(days_in_month(2022, 12), 31);
    assert_eq!(days_in_month(MAX_YEAR, 2), 28);
    assert_eq!(days_in_month(MIN_YEAR, 12), 31);
}

#[test]
fn date_time_rejects_missing_dates() {
    assert!(DateTime::new(2022, 2, 29, 0, 0, 0).is_none());
    assert!(DateTime::new(2024, 2, 29, 0, 0, 0).is_some());
    assert!(DateTime::new(2022, 4, 31, 0, 0, 0).is_none());
    assert!(DateTime::new(2022, 13, 1, 0, 0, 0).is_none());
    assert!(DateTime::new(2022, 1, 0, 0, 0, 0).is_none());
    assert!(DateTime::new(2022, 1, 1, 24, 0, 0).is_none());
    assert!(DateTime::new(2022, 1, 1, 0, 60, 0).is_none());
    assert!(DateTime::new(2022, 1, 1, 0, 0, 60).is_none());
    assert!(DateTime::new(MAX_YEAR + 1, 1, 1, 0, 0, 0).is_none());
    let t = DateTime::new(2022, 1, 1, 0, 0, 0).unwrap();
    assert!(t.with_nanosecond(1_000_000_000).is_none());
    assert_eq!(t.with_nanosecond(5).unwrap().nanosecond, 5);
}

#[test]
fn date_time_order_and_successors() {
    let a = DateTime::new(2022, 12, 31, 23, 59, 59).unwrap();
    let b = DateTime::new(2023, 1, 1, 0, 0, 0).unwrap();
    assert!(a.is_before(&b));
    assert!(!b.is_before(&a));
    assert!(!a.is_before(&a));
    assert_eq!(a.start_of_next_second(), b);
    assert_eq!(
        DateTime::new(2024, 2, 28, 23, 59, 59).unwrap().start_of_next_second(),
        DateTime::new(2024, 2, 29, 0, 0, 0).unwrap()
    );
    assert_eq!(
        DateTime::new(2022, 2, 28, 23, 30, 0).unwrap().start_of_next_hour(),
        DateTime::new(2022, 3, 1, 0, 0, 0).unwrap()
    );
    let half = a.with_nanosecond(500).unwrap();
    assert!(a.is_before(&half));
}
