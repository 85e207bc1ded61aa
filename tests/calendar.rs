use satctrl::calendar::{civil_from_days, days_from_civil, leap_year, month_length};

#[test]
fn day_numbers_of_known_dates() {
    assert_eq!(days_from_civil(1970, 1, 1), 0);
    assert_eq!(days_from_civil(1969, 12, 31), -1);
    assert_eq!(days_from_civil(2000, 1, 1), 10957);
    assert_eq!(days_from_civil(2000, 3, 1), 11017);
    assert_eq!(days_from_civil(2024, 1, 1), 19723);
    assert_eq!(days_from_civil(2024, 11, 24), 20051);
    assert_eq!(days_from_civil(1, 1, 1), -719162);
}

#[test]
fn dates_of_known_day_numbers() {
    assert_eq!(civil_from_days(0), (1970, 1, 1));
    assert_eq!(civil_from_days(-1), (1969, 12, 31));
    assert_eq!(civil_from_days(11016), (2000, 2, 29));
    assert_eq!(civil_from_days(20051), (2024, 11, 24));
    assert_eq!(civil_from_days(-719162), (1, 1, 1));
    assert_eq!(civil_from_days(-719163), (0, 12, 31));
}

#[test]
fn day_number_round_trip_over_centuries() {
    let mut n: i64 = -800_000;
    while n < 800_000 {
        let (y, m, d) = civil_from_days(n);
        assert_eq!(days_from_civil(y, m, d), n);
        n += 997;
    }
}

#[test]
fn leap_years_follow_gregorian_rule() {
    assert!(!leap_year(1900));
    assert!(leap_year(2000));
    assert!(leap_year(2024));
    assert!(!leap_year(2023));
    assert!(leap_year(-4));
    assert!(!leap_year(-100));
    assert!(leap_year(-400));
    assert!(leap_year(0));
}

#[test]
fn month_lengths() {
    assert_eq!(month_length(2023, 2), 28);
    assert_eq!(month_length(2024, 2), 29);
    assert_eq!(month_length(1900, 2), 28);
    assert_eq!(month_length(2024, 4), 30);
    assert_eq!(month_length(2024, 12), 31);
}
