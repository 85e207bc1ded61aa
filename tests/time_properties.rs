use satctrl::instant::J2000_RAW;
use satctrl::{Duration, Instant, InstantError, SCErr, TimeScale};

#[test]
fn gregorian_round_trip_samples() {
    let samples: [(i32, i32, i32, i32, i32, i64); 9] = [
        (2024, 2, 29, 23, 59, 59_999_999),
        (1900, 3, 1, 0, 0, 0),
        (1, 1, 1, 0, 0, 0),
        (-4712, 1, 1, 12, 0, 0),
        (1972, 1, 1, 0, 0, 0),
        (1971, 12, 31, 23, 59, 59_000_000),
        (2016, 12, 31, 23, 59, 59_500_000),
        (2017, 1, 1, 0, 0, 0),
        (2100, 6, 30, 12, 34, 56_789_012),
    ];
    for g in samples {
        let t = Instant::from_gregorian(g.0, g.1, g.2, g.3, g.4, g.5).unwrap();
        assert_eq!(t.gregorian(), g);
    }
}

#[test]
fn invalid_fields_are_reported() {
    assert_eq!(
        Instant::from_gregorian(2024, 13, 1, 0, 0, 0),
        Err(InstantError::InvalidMonth)
    );
    assert_eq!(
        Instant::from_gregorian(2024, 0, 1, 0, 0, 0),
        Err(InstantError::InvalidMonth)
    );
    assert_eq!(
        Instant::from_gregorian(2023, 2, 29, 0, 0, 0),
        Err(InstantError::InvalidDay)
    );
    assert_eq!(
        Instant::from_gregorian(2024, 11, 31, 0, 0, 0),
        Err(InstantError::InvalidDay)
    );
    assert_eq!(
        Instant::from_gregorian(2024, 2, 29, 24, 0, 0),
        Err(InstantError::InvalidHour)
    );
    assert_eq!(
        Instant::from_gregorian(2024, 2, 29, 0, 60, 0),
        Err(InstantError::InvalidMinute)
    );
    assert_eq!(
        Instant::from_gregorian(2024, 2, 29, 0, 0, 60_000_000),
        Err(InstantError::InvalidSecond)
    );
    assert_eq!(
        Instant::from_gregorian(2024, 2, 29, 0, 0, -1),
        Err(InstantError::InvalidSecond)
    );
    assert_eq!(
        Instant::from_gregorian(300_000, 1, 1, 0, 0, 0),
        Err(InstantError::OutOfRange)
    );
    assert_eq!(
        Instant::from_gregorian(-300_000, 1, 1, 0, 0, 0),
        Err(InstantError::OutOfRange)
    );
}

#[test]
fn canonical_text() {
    assert_eq!(Instant::j2000().to_string(), "2000-01-01T12:00:32.184000Z");
    let leap = Instant::new(1483228836000000);
    assert_eq!(leap.to_string(), "2016-12-31T23:59:60.000000Z");
    assert_eq!(
        (leap - Duration::from_seconds(1)).to_string(),
        "2016-12-31T23:59:59.000000Z"
    );
    assert_eq!(
        (leap + Duration::from_seconds(1)).to_string(),
        "2017-01-01T00:00:00.000000Z"
    );
    let early = Instant::from_gregorian(-1, 1, 1, 0, 0, 0).unwrap();
    assert_eq!(early.to_string(), "-0001-01-01T00:00:00.000000Z");
}

#[test]
fn unix_and_gps_constructors() {
    assert_eq!(Instant::from_unixtime(0), Some(Instant::unix_epoch()));
    let t = Instant::from_unixtime(1483228800000000).unwrap();
    assert_eq!(t.as_microseconds(), 1483228837000000);
    assert_eq!(t.as_unixtime(), 1483228800000000);
    assert_eq!(Instant::from_unixtime(i64::MAX), None);
    assert_eq!(Instant::from_gps_week_and_sow(0, 0), Some(Instant::gps_epoch()));
    let g = Instant::from_gps_week_and_sow(2, 3_000_000).unwrap();
    assert_eq!(g.as_microseconds(), 317174422000000);
    assert_eq!(g.gregorian(), (1980, 1, 20, 0, 0, 3_000_000));
    assert_eq!(Instant::from_gps_week_and_sow(i32::MAX, i64::MAX), None);
}

#[test]
fn julian_dates() {
    assert_eq!(Instant::unix_epoch().as_mjd(), 40587 * 86_400_000_000);
    assert_eq!(Instant::mjd_epoch().as_mjd(), 0);
    assert_eq!(
        Instant::unix_epoch().as_jd(),
        2_440_587 * 86_400_000_000 + 43_200_000_000
    );
}

#[test]
fn time_scale_readings() {
    let t = Instant::j2000();
    assert_eq!(t.reading_on(TimeScale::TAI), J2000_RAW as i128);
    assert_eq!(t.reading_on(TimeScale::TT), J2000_RAW as i128 + 32_184_000);
    assert_eq!(t.reading_on(TimeScale::TDB), J2000_RAW as i128 + 32_184_000);
    assert_eq!(t.reading_on(TimeScale::GPS), J2000_RAW as i128 - 19_000_000);
    assert_eq!(t.reading_on(TimeScale::UTC), J2000_RAW as i128 - 32_000_000);
    assert_eq!(t.reading_on(TimeScale::UT1), J2000_RAW as i128 - 32_000_000);
    assert_eq!(
        t.as_mjd_with_scale(TimeScale::UTC),
        t.as_mjd()
    );
    assert_eq!(t.as_jd_with_scale(TimeScale::UTC), t.as_jd());
    assert!(TimeScale::UT1.is_approximate());
    assert!(TimeScale::TDB.is_approximate());
    assert!(!TimeScale::TAI.is_approximate());
    assert!(!TimeScale::UTC.is_approximate());
}

#[test]
fn shifting_keeps_order_and_inverts() {
    let a = Instant::from_gregorian(2016, 12, 31, 23, 59, 59_000_000).unwrap();
    let b = Instant::from_gregorian(2017, 1, 1, 0, 0, 0).unwrap();
    let d = Duration::from_hours(3);
    assert!(a < b);
    assert!(a + d <= b + d);
    assert!(a + d >= a);
    assert_eq!((b - a).as_microseconds(), 2_000_000);
    assert!((b - a).as_microseconds() > 0);
    assert_eq!((a + d) - d, a);
    assert_eq!((a - d) + d, a);
    let neg = Duration::from_seconds(-40);
    assert_eq!((b + neg) - neg, b);
}

#[test]
fn errors_convert_into_library_error() {
    match SCErr::from(InstantError::InvalidDay) {
        SCErr::Instant(InstantError::InvalidDay) => {}
        _ => panic!("wrong conversion"),
    }
}
