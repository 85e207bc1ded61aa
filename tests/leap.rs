use satctrl::leap::{
    continuous_to_utc, is_leap_second, leap_second_table, leapseconds, microleapseconds,
    utc_to_continuous,
};

#[test]
fn lookup_at_and_around_thresholds() {
    assert_eq!(microleapseconds(1483228836000000), 37_000_000);
    assert_eq!(microleapseconds(1483228835999999), 36_000_000);
    assert_eq!(microleapseconds(63072009000000), 10_000_000);
    assert_eq!(microleapseconds(63072008999999), 0);
    assert_eq!(microleapseconds(0), 0);
    assert_eq!(microleapseconds(i64::MIN), 0);
    assert_eq!(microleapseconds(i64::MAX), 37_000_000);
    assert_eq!(leapseconds(1483228836000000), 37);
    assert_eq!(leapseconds(946728064184000), 32);
}

#[test]
fn lookup_is_repeatable_and_table_unchanged() {
    let before = leap_second_table();
    for raw in [0i64, 946728064184000, 1483228836000000, -5] {
        assert_eq!(microleapseconds(raw), microleapseconds(raw));
    }
    assert_eq!(before, leap_second_table());
    assert_eq!(before.len(), 28);
    for i in 1..before.len() {
        assert!(before[i].0 < before[i - 1].0);
    }
}

#[test]
fn utc_conversion_corrects_across_insertion() {
    // 2017-01-01T00:00:00 UTC lies just after the inserted second.
    assert_eq!(utc_to_continuous(1483228800000000), Some(1483228837000000));
    // 2016-12-31T23:59:59 UTC lies just before it.
    assert_eq!(utc_to_continuous(1483228799000000), Some(1483228835000000));
    assert_eq!(utc_to_continuous(0), Some(0));
    assert_eq!(utc_to_continuous(i64::MAX), None);
    assert_eq!(continuous_to_utc(1483228837000000), 1483228800000000);
    assert_eq!(continuous_to_utc(1483228835000000), 1483228799000000);
}

#[test]
fn leap_second_window() {
    assert!(is_leap_second(1483228836000000));
    assert!(is_leap_second(1483228836999999));
    assert!(!is_leap_second(1483228837000000));
    assert!(!is_leap_second(1483228835999999));
    assert!(!is_leap_second(i64::MIN));
}
