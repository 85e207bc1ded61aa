//! Proleptic Gregorian calendar arithmetic on day numbers.
//!
//! Dates are counted from 1970-01-01 (day 0). Internally the year is taken
//! to begin on March 1, so that the leap day, when there is one, is the last
//! day of the year; a March-based year then starts at day
//! `365 y + y/4 - y/100 + y/400` counted from 0000-03-01, and the
//! 400-year cycle of 146097 days splits into centuries of 36524 days,
//! four-year spans of 1461 days and years of 365 days (the decomposition
//! behind the Fliegel & van Flandern and Hinnant day-number algorithms).
use vstd::prelude::*;
use vstd::arithmetic::div_mod::lemma_fundamental_div_mod;
use vstd::arithmetic::div_mod::lemma_fundamental_div_mod_converse;

verus! {

/// Days from 0000-03-01 to 1970-01-01.
pub const DAYS_0000_03_01_TO_1970: i64 = 719468;

/// Julian Day Number of 1970-01-01.
pub const JDN_OF_1970: i64 = 2440588;

/// Days in one 400-year Gregorian cycle.
pub const DAYS_PER_ERA: i64 = 146097;

/// Whole 400-year cycles added to a year (or day count) so that every
/// division below works on a non-negative number.
pub const SHIFT_ERAS: i64 = 5_400_000;

/// The largest magnitude of day number that `civil_from_days` accepts; its
/// years stay well inside `i32`.
pub const MAX_DAY_NUMBER: i64 = 100_000_000_000;

pub open spec fn is_leap_year(y: int) -> bool {
    y % 4 == 0 && (y % 100 != 0 || y % 400 == 0)
}

pub open spec fn days_in_month(y: int, m: int) -> int {
    if m == 2 {
        if is_leap_year(y) {
            29
        } else {
            28
        }
    } else if m == 4 || m == 6 || m == 9 || m == 11 {
        30
    } else {
        31
    }
}

pub open spec fn is_valid_date(y: int, m: int, d: int) -> bool {
    1 <= m <= 12 && 1 <= d <= days_in_month(y, m)
}

/// Days from 0000-03-01 to March 1 of year `y`.
pub open spec fn march_year_start(y: int) -> int {
    365 * y + y / 4 - y / 100 + y / 400
}

/// Days from March 1 to the first of the `mp`-th month after March
/// (March is 0, February of the next calendar year is 11).
pub open spec fn days_before_march_month(mp: int) -> int {
    if mp == 0 {
        0
    } else if mp == 1 {
        31
    } else if mp == 2 {
        61
    } else if mp == 3 {
        92
    } else if mp == 4 {
        122
    } else if mp == 5 {
        153
    } else if mp == 6 {
        184
    } else if mp == 7 {
        214
    } else if mp == 8 {
        245
    } else if mp == 9 {
        275
    } else if mp == 10 {
        306
    } else {
        337
    }
}

/// The March-based year of a civil date.
pub open spec fn march_year(y: int, m: int) -> int {
    if m <= 2 {
        y - 1
    } else {
        y
    }
}

/// The month of a civil date counted from March (0) to February (11).
pub open spec fn march_month(m: int) -> int {
    if m <= 2 {
        m + 9
    } else {
        m - 3
    }
}

/// The day number of a civil date: days since 1970-01-01.
pub open spec fn day_number(y: int, m: int, d: int) -> int {
    march_year_start(march_year(y, m)) + days_before_march_month(march_month(m)) + d - 1
        - DAYS_0000_03_01_TO_1970
}

fn days_before_month_from_march(mp: i64) -> (r: i64)
    requires
        0 <= mp <= 11,
    ensures
        r == days_before_march_month(mp as int),
{
    match mp {
        0 => 0,
        1 => 31,
        2 => 61,
        3 => 92,
        4 => 122,
        5 => 153,
        6 => 184,
        7 => 214,
        8 => 245,
        9 => 275,
        10 => 306,
        _ => 337,
    }
}

/// Whether `y` is a leap year of the proleptic Gregorian calendar.
pub fn leap_year(y: i32) -> (r: bool)
    ensures
        r == is_leap_year(y as int),
{
    let s: i64 = y as i64 + 400 * SHIFT_ERAS;
    proof {
        let k = SHIFT_ERAS as int;
        lemma_fundamental_div_mod(y as int, 4);
        lemma_fundamental_div_mod(y as int, 100);
        lemma_fundamental_div_mod(y as int, 400);
        lemma_fundamental_div_mod_converse(s as int, 4, y / 4 + 100 * k, (y % 4) as int);
        lemma_fundamental_div_mod_converse(s as int, 100, y / 100 + 4 * k, (y % 100) as int);
        lemma_fundamental_div_mod_converse(s as int, 400, y / 400 + k, (y % 400) as int);
    }
    s % 4 == 0 && (s % 100 != 0 || s % 400 == 0)
}

/// The number of days of month `m` of year `y`.
pub fn month_length(y: i32, m: i32) -> (r: i32)
    requires
        1 <= m <= 12,
    ensures
        r == days_in_month(y as int, m as int),
{
    if m == 2 {
        if leap_year(y) {
            29
        } else {
            28
        }
    } else if m == 4 || m == 6 || m == 9 || m == 11 {
        30
    } else {
        31
    }
}

proof fn lemma_march_year_start_shift(y: int, k: int)
    ensures
        march_year_start(y + 400 * k) == march_year_start(y) + 146097 * k,
{
    lemma_fundamental_div_mod(y, 4);
    lemma_fundamental_div_mod(y, 100);
    lemma_fundamental_div_mod(y, 400);
    lemma_fundamental_div_mod_converse(y + 400 * k, 4, y / 4 + 100 * k, y % 4);
    lemma_fundamental_div_mod_converse(y + 400 * k, 100, y / 100 + 4 * k, y % 100);
    lemma_fundamental_div_mod_converse(y + 400 * k, 400, y / 400 + k, y % 400);
}

/// The day number of a valid civil date.
pub fn days_from_civil(y: i32, m: i32, d: i32) -> (r: i64)
    requires
        is_valid_date(y as int, m as int, d as int),
    ensures
        r == day_number(y as int, m as int, d as int),
{
    let yr: i64 = if m <= 2 {
        y as i64 - 1
    } else {
        y as i64
    };
    let mp: i64 = if m <= 2 {
        m as i64 + 9
    } else {
        m as i64 - 3
    };
    let shifted: i64 = yr + 400 * SHIFT_ERAS;
    proof {
        lemma_march_year_start_shift(yr as int, SHIFT_ERAS as int);
    }
    let year_start: i64 = 365 * shifted + shifted / 4 - shifted / 100 + shifted / 400 - DAYS_PER_ERA
        * SHIFT_ERAS;
    year_start + days_before_month_from_march(mp) + d as i64 - 1 - DAYS_0000_03_01_TO_1970
}


/// The start of the March-based year `400 e + 100 c + 4 q + yy` in terms of
/// its cycle, century, four-year span and year within the span.
proof fn lemma_march_year_start_decomposed(e: int, c: int, q: int, yy: int)
    requires
        0 <= c <= 3,
        0 <= q <= 24,
        0 <= yy <= 3,
    ensures
        march_year_start(400 * e + 100 * c + 4 * q + yy) == 146097 * e + 36524 * c + 1461 * q
            + 365 * yy,
{
    let y = 400 * e + 100 * c + 4 * q + yy;
    lemma_fundamental_div_mod_converse(y, 4, 100 * e + 25 * c + q, yy);
    lemma_fundamental_div_mod_converse(y, 100, 4 * e + c, 4 * q + yy);
    lemma_fundamental_div_mod_converse(y, 400, e, 100 * c + 4 * q + yy);
}

/// The year after a March-based year that ends on the 366th day is a leap
/// year.
proof fn lemma_long_march_year(e: int, c: int, q: int)
    requires
        0 <= c <= 3,
        0 <= q <= 24,
        c < 3 ==> q <= 23,
    ensures
        is_leap_year(400 * e + 100 * c + 4 * q + 4),
{
    let y = 400 * e + 100 * c + 4 * q + 4;
    lemma_fundamental_div_mod_converse(y, 4, 100 * e + 25 * c + q + 1, 0);
    if q <= 23 {
        lemma_fundamental_div_mod_converse(y, 100, 4 * e + c, 4 * q + 4);
    } else {
        lemma_fundamental_div_mod_converse(y, 400, e + 1, 0);
    }
}

/// The civil date `(year, month, day)` of a day number (days since
/// 1970-01-01). The day is split into 400-year cycles, centuries, four-year
/// spans and years of a March-based calendar, then into months.
pub fn civil_from_days(n: i64) -> (r: (i32, i32, i32))
    requires
        -MAX_DAY_NUMBER <= n <= MAX_DAY_NUMBER,
    ensures
        is_valid_date(r.0 as int, r.1 as int, r.2 as int),
        day_number(r.0 as int, r.1 as int, r.2 as int) == n,
{
    let z: i64 = n + DAYS_0000_03_01_TO_1970 + DAYS_PER_ERA * SHIFT_ERAS;
    let era: i64 = z / DAYS_PER_ERA;
    let doe: i64 = z % DAYS_PER_ERA;
    let mut c: i64 = doe / 36524;
    if c == 4 {
        c = 3;
    }
    let doc: i64 = doe - 36524 * c;
    let q: i64 = doc / 1461;
    let doq: i64 = doc % 1461;
    let mut yy: i64 = doq / 365;
    if yy == 4 {
        yy = 3;
    }
    let doy: i64 = doq - 365 * yy;
    assert(0 <= doy <= 365);
    assert(doy == 365 ==> doq == 1460 && yy == 3);
    assert(doq == 1460 && c < 3 ==> q <= 23);
    let e: i64 = era - SHIFT_ERAS;
    let march_yr: i64 = 400 * e + 100 * c + 4 * q + yy;
    proof {
        lemma_march_year_start_decomposed(e as int, c as int, q as int, yy as int);
        if doy == 365 {
            lemma_long_march_year(e as int, c as int, q as int);
        }
    }
    let mut mp: i64 = 0;
    while mp < 11 && days_before_month_from_march(mp + 1) <= doy
        invariant
            0 <= mp <= 11,
            days_before_march_month(mp as int) <= doy <= 365,
        decreases 11 - mp,
    {
        mp += 1;
    }
    let day: i64 = doy - days_before_month_from_march(mp) + 1;
    let month: i64 = if mp < 10 {
        mp + 3
    } else {
        mp - 9
    };
    let year: i64 = if month <= 2 {
        march_yr + 1
    } else {
        march_yr
    };
    (year as i32, month as i32, day as i32)
}


proof fn lemma_div_step(y: int, k: int)
    requires
        k > 0,
    ensures
        (y + 1) / k - y / k == (if (y + 1) % k == 0 {
            1int
        } else {
            0int
        }),
{
    lemma_fundamental_div_mod(y, k);
    let qt = y / k;
    assert((qt + 1) * k == qt * k + k) by (nonlinear_arith);
    assert(k * qt == qt * k) by (nonlinear_arith);
    if y % k == k - 1 {
        lemma_fundamental_div_mod_converse(y + 1, k, y / k + 1, 0);
    } else {
        lemma_fundamental_div_mod_converse(y + 1, k, y / k, y % k + 1);
    }
}

/// A March-based year has 366 days exactly when the calendar year in which
/// it ends is a leap year.
proof fn lemma_march_year_length(y: int)
    ensures
        march_year_start(y + 1) - march_year_start(y) == (if is_leap_year(y + 1) {
            366int
        } else {
            365int
        }),
{
    lemma_div_step(y, 4);
    lemma_div_step(y, 100);
    lemma_div_step(y, 400);
    let z = y + 1;
    lemma_fundamental_div_mod(z, 100);
    lemma_fundamental_div_mod(z, 400);
    if z % 100 == 0 {
        lemma_fundamental_div_mod_converse(z, 4, 25 * (z / 100), 0);
    }
    if z % 400 == 0 {
        lemma_fundamental_div_mod_converse(z, 100, 4 * (z / 400), 0);
        lemma_fundamental_div_mod_converse(z, 4, 100 * (z / 400), 0);
    }
}

proof fn lemma_march_year_start_increasing(y1: int, y2: int)
    requires
        y1 < y2,
    ensures
        march_year_start(y1 + 1) <= march_year_start(y2),
    decreases y2 - y1,
{
    if y1 + 1 < y2 {
        lemma_march_year_start_increasing(y1 + 1, y2);
        lemma_march_year_length(y1 + 1);
    }
}

/// The day of a valid date within its March-based year lies inside that
/// year.
proof fn lemma_day_within_march_year(y: int, m: int, d: int)
    requires
        is_valid_date(y, m, d),
    ensures
        0 <= days_before_march_month(march_month(m)) + d - 1,
        days_before_march_month(march_month(m)) + d - 1 < march_year_start(march_year(y, m) + 1)
            - march_year_start(march_year(y, m)),
{
    lemma_march_year_length(march_year(y, m));
}

/// Distinct valid dates have distinct day numbers.
pub proof fn lemma_day_number_injective(y1: int, m1: int, d1: int, y2: int, m2: int, d2: int)
    requires
        is_valid_date(y1, m1, d1),
        is_valid_date(y2, m2, d2),
        day_number(y1, m1, d1) == day_number(y2, m2, d2),
    ensures
        y1 == y2,
        m1 == m2,
        d1 == d2,
{
    let a = march_year(y1, m1);
    let b = march_year(y2, m2);
    lemma_day_within_march_year(y1, m1, d1);
    lemma_day_within_march_year(y2, m2, d2);
    if a < b {
        lemma_march_year_start_increasing(a, b);
    } else if b < a {
        lemma_march_year_start_increasing(b, a);
    }
    assert(a == b);
    assert(march_month(m1) == march_month(m2));
}


/// The valid date that follows `(y, m, d)`.
pub open spec fn next_date(y: int, m: int, d: int) -> (int, int, int) {
    if d < days_in_month(y, m) {
        (y, m, d + 1)
    } else if m < 12 {
        (y, m + 1, 1)
    } else {
        (y + 1, 1, 1)
    }
}

/// Day numbers count days: 1970-01-01 is day 0, and the date after a valid
/// date is a valid date one day later.
pub proof fn lemma_day_number_counts_days(y: int, m: int, d: int)
    requires
        is_valid_date(y, m, d),
    ensures
        day_number(1970, 1, 1) == 0,
        is_valid_date(next_date(y, m, d).0, next_date(y, m, d).1, next_date(y, m, d).2),
        day_number(next_date(y, m, d).0, next_date(y, m, d).1, next_date(y, m, d).2)
            == day_number(y, m, d) + 1,
{
    if m == 2 && d == days_in_month(y, m) {
        lemma_march_year_length(y - 1);
    }
}

} // verus!
