use tasque::schedule::component::Component;

#[test]
fn test_min_value() {
    assert_eq!(Component::<59>::every().min_value(), 0);
    assert_eq!(Component::<59>::new(5, 10, 1).unwrap().min_value(), 5);
    assert_eq!(Component::<59>::new(5, 10, 2).unwrap().min_value(), 5);
}

#[test]
fn test_min_value_bounded() {
    assert_eq!(Component::<59>::every().min_value_bounded(0), Some(0));
    assert_eq!(Component::<59>::every().min_value_bounded(1), Some(1));
    assert_eq!(Component::<59>::every().min_value_bounded(59), Some(59));
    assert_eq!(Component::<59>::every().min_value_bounded(60), None);

    assert_eq!(Component::<59>::every_step(5).min_value_bounded(0), Some(0));
    assert_eq!(Component::<59>::every_step(5).min_value_bounded(1), Some(5));
    assert_eq!(Component::<59>::every_step(5).min_value_bounded(5), Some(5));
    assert_eq!(Component::<59>::every_step(5).min_value_bounded(6), Some(10));
    assert_eq!(Component::<59>::every_step(5).min_value_bounded(10), Some(10));
    assert_eq!(Component::<59>::every_step(5).min_value_bounded(11), Some(15));
    assert_eq!(Component::<59>::every_step(5).min_value_bounded(55), Some(55));
    assert_eq!(Component::<59>::every_step(5).min_value_bounded(56), None);

    assert_eq!(Component::<59>::between(5, 9).unwrap().min_value_bounded(0), Some(5));
    assert_eq!(Component::<59>::between(5, 9).unwrap().min_value_bounded(1), Some(5));
    assert_eq!(Component::<59>::between(5, 9).unwrap().min_value_bounded(5), Some(5));
    assert_eq!(Component::<59>::between(5, 9).unwrap().min_value_bounded(6), Some(6));
    assert_eq!(Component::<59>::between(5, 9).unwrap().min_value_bounded(9), Some(9));
    assert_eq!(Component::<59>::between(5, 9).unwrap().min_value_bounded(10), None);

    assert_eq!(Component::<59>::new(5, 9, 2).unwrap().min_value_bounded(0), Some(5));
    assert_eq!(Component::<59>::new(5, 9, 2).unwrap().min_value_bounded(1), Some(5));
    assert_eq!(Component::<59>::new(5, 9, 2).unwrap().min_value_bounded(5), Some(5));
    assert_eq!(Component::<59>::new(5, 9, 2).unwrap().min_value_bounded(6), Some(7));
    assert_eq!(Component::<59>::new(5, 9, 2).unwrap().min_value_bounded(7), Some(7));
    assert_eq!(Component::<59>::new(5, 9, 2).unwrap().min_value_bounded(8), Some(9));
    assert_eq!(Component::<59>::new(5, 9, 2).unwrap().min_value_bounded(9), Some(9));
    assert_eq!(Component::<59>::new(5, 9, 2).unwrap().min_value_bounded(10), None);

    assert_eq!(Component::<59>::new(30, 59, 7).unwrap().min_value_bounded(0), Some(30));
    assert_eq!(Component::<59>::new(30, 59, 7).unwrap().min_value_bounded(1), Some(30));
    assert_eq!(Component::<59>::new(30, 59, 7).unwrap().min_value_bounded(30), Some(30));
    assert_eq!(Component::<59>::new(30, 59, 7).unwrap().min_value_bounded(31), Some(37));
    assert_eq!(Component::<59>::new(30, 59, 7).unwrap().min_value_bounded(37), Some(37));
    assert_eq!(Component::<59>::new(30, 59, 7).unwrap().min_value_bounded(38), Some(44));
    assert_eq!(Component::<59>::new(30, 59, 7).unwrap().min_value_bounded(44), Some(44));
    assert_eq!(Component::<59>::new(30, 59, 7).unwrap().min_value_bounded(45), Some(51));
    assert_eq!(Component::<59>::new(30, 59, 7).unwrap().min_value_bounded(58), Some(58));
    assert_eq!(Component::<59>::new(30, 59, 7).unwrap().min_value_bounded(59), None);
    assert_eq!(Component::<59>::new(30, 59, 7).unwrap().min_value_bounded(60), None);

    for i in 0..=18 {
        assert_eq!(Component::<59>::exactly(18).unwrap().min_value_bounded(i), Some(18));
    }
    for i in 19..=60 {
        assert_eq!(Component::<59>::exactly(18).unwrap().min_value_bounded(i), None);
    }
}

#[test]
fn field_rejects_reversed_range() {
    assert!(Component::<59>::new(10, 5, 1).is_err());
    assert!(Component::<59>::between(10, 5).is_err());
}

#[test]
fn field_rejects_end_beyond_domain() {
    assert!(Component::<59>::new(0, 60, 1).is_err());
    assert!(Component::<23>::between(0, 24).is_err());
    assert!(Component::<30>::exactly(31).is_err());
    assert!(Component::<23>::between(0, 23).is_ok());
}

#[test]
fn field_rejects_zero_step() {
    assert!(Component::<59>::new(0, 59, 0).is_err());
    assert!(Component::<59>::new(0, 59, 1).is_ok());
}

#[test]
fn field_bound_near_integer_limit() {
    // The stepped value would pass 255: no value is left, rather than a wrapped one.
    assert_eq!(Component::<255>::new(0, 255, 200).unwrap().min_value_bounded(201), None);
    assert_eq!(Component::<255>::new(100, 255, 150).unwrap().min_value_bounded(101), Some(250));
    assert_eq!(Component::<255>::new(100, 255, 150).unwrap().min_value_bounded(251), None);
    assert_eq!(Component::<255>::every().min_value_bounded(255), Some(255));
}
