use tasque::{DateTime, Schedule};

fn dt(year: i32, month: u8, day: u8, hour: u8, minute: u8, second: u8) -> DateTime {
    DateTime::new(year, month, day, hour, minute, second).unwrap()
}

fn with_nanos(t: DateTime, nanosecond: u32) -> DateTime {
    t.with_nanosecond(nanosecond).unwrap()
}

#[test]
fn mod_test_next_occurrence() {
    assert_eq!(
        Schedule::new_every_second()
            .at_hour(11)
            .at_minute(16)
            .at_second(41)
            .next_occurrence(dt(2022, 4, 4, 18, 1, 14)),
        dt(2022, 4, 5, 11, 16, 41)
    );

    assert_eq!(
        Schedule::new_every_second()
            .at_hour(18)
            .at_minute(16)
            .at_second(41)
            .next_occurrence(dt(2022, 4, 4, 18, 1, 14)),
        dt(2022, 4, 4, 18, 16, 41)
    );

    assert_eq!(
        Schedule::new_every_second()
            .at_hour(11)
            .at_minute(16)
            .next_occurrence(dt(2022, 4, 4, 18, 1, 14)),
        dt(2022, 4, 5, 11, 16, 0)
    );

    assert_eq!(
        Schedule::new_every_second()
            .at_hour(11)
            .at_second(14)
            .next_occurrence(dt(2022, 4, 4, 18, 1, 14)),
        dt(2022, 4, 5, 11, 0, 14)
    );

    assert_eq!(
        Schedule::new_every_second()
            .at_hour(11)
            .next_occurrence(dt(2022, 4, 4, 18, 1, 14)),
        dt(2022, 4, 5, 11, 0, 0)
    );

    assert_eq!(
        Schedule::new_every_second()
            .at_hour(18)
            .next_occurrence(dt(2022, 4, 4, 18, 1, 14)),
        dt(2022, 4, 4, 18, 1, 14)
    );

    assert_eq!(
        Schedule::new_every_second()
            .at_hour(19)
            .next_occurrence(dt(2022, 4, 4, 18, 1, 14)),
        dt(2022, 4, 4, 19, 0, 0)
    );

    assert_eq!(
        Schedule::new_every_second()
            .next_occurrence(dt(2022, 4, 4, 18, 1, 14)),
        dt(2022, 4, 4, 18, 1, 14)
    );

    assert_eq!(
        Schedule::new_every_hour()
            .next_occurrence(dt(2022, 4, 4, 18, 1, 14)),
        dt(2022, 4, 4, 19, 0, 0)
    );

    assert_eq!(
        Schedule::new_every_second()
            .at_hour(11)
            .at_minute(16)
            .at_second(41)
            .next_occurrence(dt(2022, 4, 4, 11, 16, 40)),
        dt(2022, 4, 4, 11, 16, 41)
    );

    assert_eq!(
        Schedule::new_every_second()
            .at_hour(11)
            .at_minute(16)
            .at_second(41)
            .next_occurrence(dt(2022, 4, 4, 11, 16, 41)),
        dt(2022, 4, 4, 11, 16, 41)
    );

    assert_eq!(
        Schedule::new_every_second()
            .at_hour(11)
            .at_minute(16)
            .at_second(41)
            .next_occurrence(dt(2022, 4, 4, 11, 16, 42)),
        dt(2022, 4, 5, 11, 16, 41)
    );

    assert_eq!(
        Schedule::new_every_second()
            .at_day(5)
            .at_hour(11)
            .at_minute(16)
            .at_second(41)
            .next_occurrence(dt(2022, 4, 4, 18, 1, 14)),
        dt(2022, 4, 5, 11, 16, 41)
    );

    assert_eq!(
        Schedule::new_every_second()
            .at_day(4)
            .at_hour(11)
            .at_minute(16)
            .at_second(41)
            .next_occurrence(dt(2022, 4, 4, 18, 1, 14)),
        dt(2022, 5, 4, 11, 16, 41)
    );

    assert_eq!(
        Schedule::new_every_second()
            .at_day(29)
            .at_hour(11)
            .at_minute(16)
            .at_second(41)
            .next_occurrence(dt(2022, 2, 10, 18, 1, 14)),
        dt(2022, 3, 29, 11, 16, 41)
    );

    assert_eq!(
        Schedule::new_every_second()
            .at_day(29)
            .at_hour(11)
            .at_minute(16)
            .at_second(41)
            .next_occurrence(dt(2024, 2, 10, 18, 1, 14)),
        dt(2024, 2, 29, 11, 16, 41)
    );

    assert_eq!(
        Schedule::new_every_second()
            .at_day(31)
            .at_hour(11)
            .at_minute(16)
            .at_second(41)
            .next_occurrence(dt(2022, 4, 4, 18, 1, 14)),
        dt(2022, 5, 31, 11, 16, 41)
    );

    assert_eq!(
        Schedule::new_every_second()
            .at_day(31)
            .at_hour(11)
            .at_minute(16)
            .at_second(41)
            .next_occurrence(dt(2022, 3, 4, 18, 1, 14)),
        dt(2022, 3, 31, 11, 16, 41)
    );

    assert_eq!(
        Schedule::new_every_second()
            .at_day(4)
            .at_hour(11)
            .at_minute(16)
            .at_second(41)
            .next_occurrence(dt(2022, 4, 4, 9, 13, 20)),
        dt(2022, 4, 4, 11, 16, 41)
    );

    assert_eq!(
        Schedule::new_every_second()
            .at_day(1)
            .next_occurrence(dt(2022, 4, 4, 18, 1, 14)),
        dt(2022, 5, 1, 0, 0, 0)
    );

    assert_eq!(
        Schedule::new_every_second()
            .at_day(4)
            .next_occurrence(dt(2022, 4, 4, 18, 1, 14)),
        dt(2022, 4, 4, 18, 1, 14)
    );

    assert_eq!(
        Schedule::new_every_second()
            .at_day(5)
            .next_occurrence(dt(2022, 4, 4, 18, 1, 14)),
        dt(2022, 4, 5, 0, 0, 0)
    );

    assert_eq!(
        Schedule::new_every_second()
            .at_day(1)
            .at_minute(30)
            .next_occurrence(dt(2022, 4, 4, 18, 1, 14)),
        dt(2022, 5, 1, 0, 30, 0)
    );

    assert_eq!(
        Schedule::new_every_second()
            .at_day(9)
            .next_occurrence(dt(2022, 5, 31, 18, 1, 14)),
        dt(2022, 6, 9, 0, 0, 0)
    );

    assert_eq!(
        Schedule::new_every_minute()
            .at_every_nth_second(7)
            .next_occurrence(dt(2022, 4, 4, 18, 1, 0)),
        dt(2022, 4, 4, 18, 1, 0)
    );

    assert_eq!(
        Schedule::new_every_minute()
            .at_every_nth_second(7)
            .next_occurrence(dt(2022, 4, 4, 18, 1, 1)),
        dt(2022, 4, 4, 18, 1, 7)
    );

    assert_eq!(
        Schedule::new_every_minute()
            .at_every_nth_second(7)
            .next_occurrence(dt(2022, 4, 4, 18, 1, 7)),
        dt(2022, 4, 4, 18, 1, 7)
    );

    assert_eq!(
        Schedule::new_every_minute()
            .at_every_nth_second(7)
            .next_occurrence(dt(2022, 4, 4, 18, 1, 8)),
        dt(2022, 4, 4, 18, 1, 14)
    );

    assert_eq!(
        Schedule::new_every_minute()
            .at_every_nth_second(7)
            .next_occurrence(dt(2022, 4, 4, 18, 1, 56)),
        dt(2022, 4, 4, 18, 1, 56)
    );

    assert_eq!(
        Schedule::new_every_minute()
            .at_every_nth_second(7)
            .next_occurrence(dt(2022, 4, 4, 18, 1, 57)),
        dt(2022, 4, 4, 18, 2, 0)
    );

    assert_eq!(
        Schedule::new_every_minute()
            .at_every_nth_second(7)
            .next_occurrence(dt(2022, 4, 4, 18, 59, 57)),
        dt(2022, 4, 4, 19, 0, 0)
    );

    assert_eq!(
        Schedule::new_every_day()
            .at_every_nth_hour(3)
            .next_occurrence(dt(2022, 4, 4, 18, 1, 14)),
        dt(2022, 4, 4, 21, 0, 0)
    );

    assert_eq!(
        Schedule::new_every_day()
            .at_every_nth_hour(3)
            .next_occurrence(dt(2022, 4, 4, 17, 1, 14)),
        dt(2022, 4, 4, 18, 0, 0)
    );

    assert_eq!(
        Schedule::new_every_day()
            .at_every_nth_hour(3)
            .next_occurrence(dt(2022, 4, 4, 21, 0, 1)),
        dt(2022, 4, 5, 0, 0, 0)
    );

    assert_eq!(
        Schedule::new_every_day()
            .at_every_nth_hour_between(1..=20, 3)
            .unwrap()
            .next_occurrence(dt(2022, 4, 4, 17, 1, 14)),
        dt(2022, 4, 4, 19, 0, 0)
    );

    assert_eq!(
        Schedule::new_every_day()
            .at_every_nth_hour_between(1..=20, 3)
            .unwrap()
            .next_occurrence(dt(2022, 4, 4, 19, 0, 1)),
        dt(2022, 4, 5, 1, 0, 0)
    );
}

#[test]
fn test_next_occurrence_nanos() {
    assert_eq!(
        Schedule::new_every_second()
            .at_hour(11)
            .at_minute(16)
            .at_second(41)
            .next_occurrence(with_nanos(dt(2022, 4, 4, 11, 16, 41), 100)),
        with_nanos(dt(2022, 4, 4, 11, 16, 41), 100)
    );

    assert_eq!(
        Schedule::new_every_second()
            .at_hour(11)
            .at_minute(16)
            .at_second(41)
            .next_occurrence(with_nanos(dt(2022, 4, 4, 18, 1, 14), 100)),
        dt(2022, 4, 5, 11, 16, 41)
    );

    // The fraction of a second does not count when matching: 18:00:00 and a little matches
    // "every third hour".
    assert_eq!(
        Schedule::new_every_day()
            .at_every_nth_hour(3)
            .next_occurrence(with_nanos(dt(2022, 4, 4, 18, 0, 0), 100)),
        with_nanos(dt(2022, 4, 4, 18, 0, 0), 100)
    );
}

#[test]
fn scenario_fixed_time_next_day() {
    let s = Schedule::new_every_second().at_hour(11).at_minute(16).at_second(41);
    assert_eq!(s.next_occurrence(dt(2022, 4, 4, 18, 1, 14)), dt(2022, 4, 5, 11, 16, 41));
}

#[test]
fn scenario_stepped_seconds() {
    let s = Schedule::new_every_minute().at_every_nth_second(7);
    assert_eq!(s.next_occurrence(dt(2022, 4, 4, 18, 1, 8)), dt(2022, 4, 4, 18, 1, 14));
}

#[test]
fn scenario_day_29_skips_short_february() {
    let s = Schedule::new_every_second().at_day(29).at_hour(11).at_minute(16).at_second(41);
    assert_eq!(s.next_occurrence(dt(2022, 2, 10, 18, 1, 14)), dt(2022, 3, 29, 11, 16, 41));
}

#[test]
fn scenario_day_29_in_leap_february() {
    let s = Schedule::new_every_second().at_day(29).at_hour(11).at_minute(16).at_second(41);
    assert_eq!(s.next_occurrence(dt(2024, 2, 10, 18, 1, 14)), dt(2024, 2, 29, 11, 16, 41));
}

#[test]
fn idempotent_on_matching_instant() {
    let patterns = [
        Schedule::new_every_second(),
        Schedule::new_every_minute().at_every_nth_second(7),
        Schedule::new_every_day().at_every_nth_hour_between(1..=20, 3).unwrap(),
        Schedule::new_every_second().at_day(31).at_hour(23).at_minute(59).at_second(59),
    ];
    let times = [
        with_nanos(dt(2022, 4, 4, 18, 1, 14), 7),
        dt(2022, 4, 4, 18, 1, 49),
        dt(2022, 4, 4, 19, 0, 0),
        dt(2022, 12, 31, 23, 59, 59),
    ];
    for (s, t) in patterns.iter().zip(times.iter()) {
        assert_eq!(s.next_occurrence(*t), *t);
    }
}

#[test]
fn next_occurrence_never_earlier_than_now() {
    let patterns = [
        Schedule::new_every_hour(),
        Schedule::new_every_month(),
        Schedule::new_every_second().at_day(31).at_zero_hour(),
        Schedule::new_every_day().at_every_nth_minute_between(10..=50, 20).unwrap(),
    ];
    let mut t = with_nanos(dt(2023, 12, 30, 22, 58, 59), 999);
    for _ in 0..50 {
        for s in patterns.iter() {
            let r = s.next_occurrence(t);
            assert!(!r.is_before(&t));
        }
        t = t.start_of_next_hour();
    }
}

#[test]
fn no_month_skipped_across_february() {
    // Day 30 from the end of January: February never has it, in leap years or not.
    let s = Schedule::new_every_month().at_day(30);
    assert_eq!(s.next_occurrence(dt(2022, 1, 31, 0, 0, 0)), dt(2022, 3, 30, 0, 0, 0));
    assert_eq!(s.next_occurrence(dt(2024, 1, 31, 0, 0, 0)), dt(2024, 3, 30, 0, 0, 0));
    // Day 29: only the leap-year February has it.
    let s = Schedule::new_every_month().at_day(29);
    assert_eq!(s.next_occurrence(dt(2023, 2, 1, 0, 0, 0)), dt(2023, 3, 29, 0, 0, 0));
    assert_eq!(s.next_occurrence(dt(2024, 2, 1, 0, 0, 0)), dt(2024, 2, 29, 0, 0, 0));
    assert_eq!(s.next_occurrence(dt(2100, 2, 1, 0, 0, 0)), dt(2100, 3, 29, 0, 0, 0));
    assert_eq!(s.next_occurrence(dt(2000, 2, 1, 0, 0, 0)), dt(2000, 2, 29, 0, 0, 0));
    // Day 31 through several months in a row: each time the next month that has 31 days.
    let s = Schedule::new_every_month().at_day(31);
    let expected = [(2022, 1), (2022, 3), (2022, 3), (2022, 5), (2022, 5), (2022, 7), (2022, 7), (2022, 8)];
    for (month, (y, m)) in (1..=8).zip(expected.iter()) {
        assert_eq!(s.next_occurrence(dt(2022, month, 1, 0, 0, 0)), dt(*y, *m, 31, 0, 0, 0));
    }
    // December to January wraps the year.
    assert_eq!(s.next_occurrence(dt(2022, 12, 31, 0, 0, 1)), dt(2023, 1, 31, 0, 0, 0));
}

#[test]
fn builder_ranges_reject_invalid_input() {
    let s = Schedule::new_every_second();
    assert!(s.at_every_hour_between(10..=5).is_err());
    assert!(s.at_every_hour_between(0..=24).is_err());
    assert!(s.at_every_nth_hour_between(0..=23, 0).is_err());
    assert!(s.at_every_minute_between(0..=60).is_err());
    assert!(s.at_every_nth_minute_between(0..=59, 0).is_err());
    assert!(s.at_every_second_between(50..=49).is_err());
    assert!(s.at_every_nth_second_between(1..=59, 0).is_err());
    assert!(s.at_every_day_between(0..=5).is_err());
    assert!(s.at_every_day_between(1..=32).is_err());
    assert!(s.at_every_nth_day_between(3..=2, 1).is_err());
    assert!(s.at_every_nth_day_between(1..=31, 0).is_err());
    assert!(s.at_every_day_between(1..=31).is_ok());
}

#[test]
fn builder_ranges_select_values() {
    let s = Schedule::new_every_month().at_every_nth_day_between(10..=20, 5).unwrap();
    assert_eq!(s.next_occurrence(dt(2022, 4, 11, 0, 0, 0)), dt(2022, 4, 15, 0, 0, 0));
    assert_eq!(s.next_occurrence(dt(2022, 4, 21, 0, 0, 0)), dt(2022, 5, 10, 0, 0, 0));
    let s = Schedule::new_every_second().at_every_second_between(20..=30).unwrap();
    assert_eq!(s.next_occurrence(dt(2022, 4, 4, 10, 0, 31)), dt(2022, 4, 4, 10, 1, 20));
    let s = Schedule::new_every_hour().at_every_minute_between(15..=16).unwrap();
    assert_eq!(s.next_occurrence(dt(2022, 4, 4, 10, 16, 1)), dt(2022, 4, 4, 11, 15, 0));
    let s = Schedule::new_every_day().at_every_hour_between(3..=4).unwrap().at_every_nth_minute(30);
    assert_eq!(s.next_occurrence(dt(2022, 4, 4, 4, 30, 1)), dt(2022, 4, 5, 3, 0, 0));
    let s = Schedule::new_every_day().at_every_nth_day(10).at_first_day().at_every_day();
    assert_eq!(s.next_occurrence(dt(2022, 4, 4, 0, 0, 1)), dt(2022, 4, 5, 0, 0, 0));
    let s = Schedule::new_every_second().at_zero_minute().at_zero_second().at_every_minute().at_every_second();
    assert_eq!(s.next_occurrence(dt(2022, 4, 4, 0, 7, 1)), dt(2022, 4, 4, 0, 7, 1));
    let s = Schedule::new_every_second().at_every_nth_second_between(10..=40, 15).unwrap();
    assert_eq!(s.next_occurrence(dt(2022, 4, 4, 0, 7, 41)), dt(2022, 4, 4, 0, 8, 10));
    let s = Schedule::new_every_minute().at_every_nth_minute_between(5..=5, 1).unwrap();
    assert_eq!(s.next_occurrence(dt(2022, 4, 4, 23, 6, 0)), dt(2022, 4, 5, 0, 5, 0));
    let s = Schedule::new_every_second().at_every_hour();
    assert_eq!(s.next_occurrence(dt(2022, 4, 4, 23, 6, 0)), dt(2022, 4, 4, 23, 6, 0));
}

#[test]
fn hour_and_minute_wrap_modulo() {
    let s = Schedule::new_every_second().at_hour(25).at_minute(61).at_second(62);
    assert_eq!(s.next_occurrence(dt(2022, 4, 4, 0, 0, 0)), dt(2022, 4, 4, 1, 1, 2));
}
