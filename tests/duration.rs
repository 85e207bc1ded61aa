use satctrl::Duration;

#[test]
fn unit_constructors_scale_exactly() {
    assert_eq!(Duration::new(7).as_microseconds(), 7);
    assert_eq!(Duration::from_microseconds(-9).as_microseconds(), -9);
    assert_eq!(Duration::from_milliseconds(5).as_microseconds(), 5_000);
    assert_eq!(Duration::from_seconds(-3).as_microseconds(), -3_000_000);
    assert_eq!(Duration::from_minutes(2).as_microseconds(), 120_000_000);
    assert_eq!(Duration::from_hours(1).as_microseconds(), 3_600_000_000);
    assert_eq!(Duration::from_days(1).as_microseconds(), 86_400_000_000);
}

#[test]
fn duration_arithmetic_and_order() {
    let a = Duration::from_seconds(3);
    let b = Duration::from_milliseconds(500);
    assert_eq!((a + b).as_microseconds(), 3_500_000);
    assert_eq!((b - a).as_microseconds(), -2_500_000);
    assert!(b < a);
    assert!(a > b);
    assert!(a >= Duration::new(3_000_000));
    assert!(a == Duration::new(3_000_000));
}

#[test]
fn duration_text() {
    assert_eq!(Duration::new(250).to_string(), "250 usec");
    assert_eq!(Duration::new(-5).to_string(), "-5 usec");
    assert_eq!(Duration::new(1_000_000).to_string(), "1.000000 seconds");
    assert_eq!(
        Duration::from_seconds(150).to_string(),
        "2 minutes 150.000000 seconds"
    );
    assert_eq!(
        (Duration::from_days(1) + Duration::from_microseconds(1_000_001)).to_string(),
        "1 days 24 hours 1440 minutes 86401.000001 seconds"
    );
}
