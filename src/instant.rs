//! Points on the continuous timescale and their civil readings.
use vstd::prelude::*;
use vstd::arithmetic::div_mod::lemma_fundamental_div_mod;
use vstd::arithmetic::div_mod::lemma_fundamental_div_mod_converse;
use crate::calendar::{
    civil_from_days, day_number, days_from_civil, days_in_month, is_valid_date, month_length,
};
use crate::duration::{Duration, USEC_PER_DAY, USEC_PER_HOUR, USEC_PER_MINUTE, USEC_PER_SECOND};
use crate::error::InstantError;
use crate::leap::{
    continuous_of_utc, continuous_to_utc, in_leap_second, is_leap_second, leap_offset,
    lemma_leap_offset_bounds, utc_of, utc_to_continuous,
};

verus! {

/// Microseconds from the MJD epoch (1858-11-17T00:00:00) to 1970-01-01T00:00:00.
pub const MJD_EPOCH_TO_UNIX_USEC: i64 = 3_506_716_800_000_000;

/// Microseconds from the Julian Date epoch to the MJD epoch (2 400 000.5 days).
pub const JD_TO_MJD_USEC: i64 = 207_360_043_200_000_000;

/// Continuous count of the J2000 epoch as this library fixes it: 12:00 on
/// 2000-01-01 shifted by TT - TAI (32.184 s) on top of the 32 leap seconds
/// then in force, so that its UTC reading is 2000-01-01T12:00:32.184.
pub const J2000_RAW: i64 = 946_728_064_184_000;

/// Continuous count of the GPS epoch, 1980-01-06T00:00:00 UTC.
pub const GPS_EPOCH_RAW: i64 = 315_964_819_000_000;

/// Continuous count of the MJD epoch, 1858-11-17T00:00:00 UTC.
pub const MJD_EPOCH_RAW: i64 = -3_506_716_800_000_000;

/// Microseconds in a GPS week.
pub const USEC_PER_WEEK: i64 = 604_800_000_000;

/// Civil UTC fields: year, month, day, hour, minute and the microseconds
/// into the minute.
pub type Civil = (i32, i32, i32, i32, i32, i64);

/// A point in time: microseconds on a uniform, leap-second-free scale that
/// reads 0 at 1970-01-01T00:00:00 UTC and advances with TAI.
#[derive(Clone, Copy, Debug, PartialEq, Eq, Structural)]
pub struct Instant {
    pub raw: i64,
}

pub open spec fn fits_i64(x: int) -> bool {
    i64::MIN <= x <= i64::MAX
}

/// Microseconds from 1970-01-01T00:00:00 to the given civil reading,
/// counting 86 400 s to every day.
pub open spec fn civil_usec(g: Civil) -> int {
    day_number(g.0 as int, g.1 as int, g.2 as int) * USEC_PER_DAY + g.3 * USEC_PER_HOUR + g.4
        * USEC_PER_MINUTE + g.5
}

/// All fields are in range: a calendar date, hour 0..=23, minute 0..=59 and
/// less than 60 s into the minute.
pub open spec fn is_valid_civil(g: Civil) -> bool {
    &&& is_valid_date(g.0 as int, g.1 as int, g.2 as int)
    &&& 0 <= g.3 < 24
    &&& 0 <= g.4 < 60
    &&& 0 <= g.5 < USEC_PER_MINUTE
}

/// `g` is the civil reading of the UTC count `u`.
pub open spec fn is_civil_of(u: int, g: Civil) -> bool {
    is_valid_civil(g) && civil_usec(g) == u
}

/// `g` is how the continuous count `raw` is displayed: its UTC reading, or,
/// inside an inserted leap second, that reading with the seconds pushed one
/// past 59 (`23:59:60`).
pub open spec fn renders_as(raw: int, g: Civil) -> bool {
    if in_leap_second(raw) {
        g.5 >= USEC_PER_SECOND && is_civil_of(utc_of(raw), (g.0, g.1, g.2, g.3, g.4, (g.5 - USEC_PER_SECOND) as i64))
    } else {
        is_civil_of(utc_of(raw), g)
    }
}

/// The error, if any, that `from_gregorian` reports for the given fields.
pub open spec fn civil_error(g: Civil) -> Option<InstantError> {
    if !(1 <= g.1 <= 12) {
        Some(InstantError::InvalidMonth)
    } else if !(1 <= g.2 <= days_in_month(g.0 as int, g.1 as int)) {
        Some(InstantError::InvalidDay)
    } else if !(0 <= g.3 < 24) {
        Some(InstantError::InvalidHour)
    } else if !(0 <= g.4 < 60) {
        Some(InstantError::InvalidMinute)
    } else if !(0 <= g.5 < USEC_PER_MINUTE) {
        Some(InstantError::InvalidSecond)
    } else if !fits_i64(continuous_of_utc(civil_usec(g))) {
        Some(InstantError::OutOfRange)
    } else {
        None
    }
}

/// `(x / d, x % d)` with the quotient rounded toward negative infinity.
fn floor_div_rem(x: i64, d: i64) -> (r: (i64, i64))
    requires
        d > 0,
    ensures
        r.0 == x / d,
        r.1 == x % d,
{
    if x >= 0 {
        (x / d, x % d)
    } else {
        let w: i64 = -(x + 1);
        let a: i64 = w / d;
        let b: i64 = w % d;
        proof {
            lemma_fundamental_div_mod(w as int, d as int);
            assert((-a - 1) * d + (d - 1 - b) == x) by (nonlinear_arith)
                requires
                    w == d * a + b,
                    w == -(x + 1),
            ;
            lemma_fundamental_div_mod_converse(x as int, d as int, -a - 1, d - 1 - b);
        }
        (-a - 1, d - 1 - b)
    }
}

impl Instant {
    /// The J2000 epoch (see `J2000_RAW`); its UTC reading is
    /// 2000-01-01T12:00:32.184.
    pub fn j2000() -> (r: Instant)
        ensures
            r.raw == J2000_RAW,
    {
        Instant { raw: J2000_RAW }
    }

    /// Unix epoch, 1970-01-01T00:00:00 UTC.
    pub fn unix_epoch() -> (r: Instant)
        ensures
            r.raw == 0,
    {
        Instant { raw: 0 }
    }

    /// GPS epoch, 1980-01-06T00:00:00 UTC.
    pub fn gps_epoch() -> (r: Instant)
        ensures
            r.raw == GPS_EPOCH_RAW,
    {
        Instant { raw: GPS_EPOCH_RAW }
    }

    /// Modified Julian Date epoch, 1858-11-17T00:00:00 UTC.
    pub fn mjd_epoch() -> (r: Instant)
        ensures
            r.raw == MJD_EPOCH_RAW,
    {
        Instant { raw: MJD_EPOCH_RAW }
    }

    /// The instant `raw` microseconds into the continuous scale.
    pub fn new(raw: i64) -> (r: Instant)
        ensures
            r.raw == raw,
    {
        Instant { raw }
    }

    /// The raw continuous count, in microseconds.
    pub fn as_microseconds(&self) -> (r: i64)
        ensures
            r == self.raw,
    {
        self.raw
    }

    /// The instant whose UTC reading is `unix_usec` microseconds after the
    /// Unix epoch (leap seconds not counted), or `None` where that does not
    /// fit the 64-bit count.
    pub fn from_unixtime(unix_usec: i64) -> (r: Option<Instant>)
        ensures
            r.is_some() <==> continuous_of_utc(unix_usec as int) <= i64::MAX,
            r.is_some() ==> r.unwrap().raw == continuous_of_utc(unix_usec as int),
    {
        match utc_to_continuous(unix_usec) {
            Some(raw) => Some(Instant { raw }),
            None => None,
        }
    }

    /// Unix time in microseconds: the UTC reading, leap seconds not counted.
    pub fn as_unixtime(&self) -> (r: i64)
        ensures
            r == utc_of(self.raw as int),
    {
        continuous_to_utc(self.raw)
    }

    /// The instant `week` GPS weeks and `sow_usec` microseconds after the GPS
    /// epoch (GPS time has no leap seconds), or `None` where it does not fit.
    pub fn from_gps_week_and_sow(week: i32, sow_usec: i64) -> (r: Option<Instant>)
        ensures
            r.is_some() <==> fits_i64(
                week * USEC_PER_WEEK + sow_usec + GPS_EPOCH_RAW,
            ),
            r.is_some() ==> r.unwrap().raw == week * USEC_PER_WEEK + sow_usec
                + GPS_EPOCH_RAW,
    {
        let weeks: i128 = week as i128;
        assert(-2147483648 * 604_800_000_000 <= weeks * 604_800_000_000 <= 2147483647
            * 604_800_000_000) by (nonlinear_arith)
            requires
                -2147483648 <= weeks <= 2147483647,
        ;
        let total: i128 = weeks * USEC_PER_WEEK as i128 + sow_usec as i128
            + GPS_EPOCH_RAW as i128;
        if total < i64::MIN as i128 || total > i64::MAX as i128 {
            None
        } else {
            Some(Instant { raw: total as i64 })
        }
    }

    /// Modified Julian Date (UTC) as microseconds since the MJD epoch, each
    /// day 86 400 s: the MJD is this value over 86 400 000 000.
    pub fn as_mjd(&self) -> (r: i128)
        ensures
            r == utc_of(self.raw as int) + MJD_EPOCH_TO_UNIX_USEC,
    {
        continuous_to_utc(self.raw) as i128 + MJD_EPOCH_TO_UNIX_USEC as i128
    }

    /// Julian Date (UTC) as microseconds since the Julian Date epoch, each day
    /// 86 400 s: the JD is this value over 86 400 000 000.
    pub fn as_jd(&self) -> (r: i128)
        ensures
            r == utc_of(self.raw as int) + MJD_EPOCH_TO_UNIX_USEC + JD_TO_MJD_USEC,
    {
        proof {
            lemma_leap_offset_bounds(self.raw as int);
        }
        self.as_mjd() + JD_TO_MJD_USEC as i128
    }

    /// The UTC calendar reading `(year, month, day, hour, minute,
    /// microseconds into the minute)`. Inside an inserted leap second the
    /// seconds read 60.
    pub fn gregorian(&self) -> (r: Civil)
        ensures
            renders_as(self.raw as int, r),
    {
        let u = continuous_to_utc(self.raw);
        let leap = is_leap_second(self.raw);
        proof {
            lemma_leap_offset_bounds(self.raw as int);
        }
        let (days, of_day) = floor_div_rem(u, USEC_PER_DAY);
        proof {
            lemma_fundamental_div_mod(u as int, USEC_PER_DAY as int);
            lemma_fundamental_div_mod(of_day as int, USEC_PER_HOUR as int);
            lemma_fundamental_div_mod((of_day % USEC_PER_HOUR) as int, USEC_PER_MINUTE as int);
        }
        let (year, month, day) = civil_from_days(days);
        let hour = of_day / USEC_PER_HOUR;
        let of_hour = of_day % USEC_PER_HOUR;
        let minute = of_hour / USEC_PER_MINUTE;
        let usec = of_hour % USEC_PER_MINUTE;
        let shown = if leap {
            usec + USEC_PER_SECOND
        } else {
            usec
        };
        (year, month, day, hour as i32, minute as i32, shown)
    }

    /// The instant whose UTC calendar reading is the given date and time.
    /// Out-of-range fields are reported, in the order month, day, hour,
    /// minute, second; a moment beyond the 64-bit count is `OutOfRange`.
    pub fn from_gregorian(year: i32, month: i32, day: i32, hour: i32, minute: i32, usec: i64) -> (r:
        Result<Instant, InstantError>)
        ensures
            match civil_error((year, month, day, hour, minute, usec)) {
                Some(e) => r == Err::<Instant, InstantError>(e),
                None => r.is_ok() && r.unwrap().raw == continuous_of_utc(
                    civil_usec((year, month, day, hour, minute, usec)),
                ),
            },
    {
        if month < 1 || month > 12 {
            return Err(InstantError::InvalidMonth);
        }
        if day < 1 || day > month_length(year, month) {
            return Err(InstantError::InvalidDay);
        }
        if hour < 0 || hour >= 24 {
            return Err(InstantError::InvalidHour);
        }
        if minute < 0 || minute >= 60 {
            return Err(InstantError::InvalidMinute);
        }
        if usec < 0 || usec >= USEC_PER_MINUTE {
            return Err(InstantError::InvalidSecond);
        }
        let g: Ghost<Civil> = Ghost((year, month, day, hour, minute, usec));
        let days = days_from_civil(year, month, day);
        let u: i128 = days as i128 * USEC_PER_DAY as i128 + hour as i128 * USEC_PER_HOUR as i128
            + minute as i128 * USEC_PER_MINUTE as i128 + usec as i128;
        assert(u == civil_usec(g@));
        proof {
            lemma_leap_offset_bounds(u as int);
            lemma_leap_offset_bounds(u + leap_offset(u as int));
        }
        if u < i64::MIN as i128 || u > i64::MAX as i128 {
            return Err(InstantError::OutOfRange);
        }
        match utc_to_continuous(u as i64) {
            Some(raw) => Ok(Instant { raw }),
            None => Err(InstantError::OutOfRange),
        }
    }
}


impl Instant {
    /// The instant `d` after this one, in spec terms.
    pub open spec fn plus(self, d: Duration) -> Instant {
        Instant { raw: (self.raw + d.usec) as i64 }
    }

    /// The instant `d` before this one, in spec terms.
    pub open spec fn minus(self, d: Duration) -> Instant {
        Instant { raw: (self.raw - d.usec) as i64 }
    }

    /// The elapsed time from `earlier` to this instant, in spec terms.
    pub open spec fn since(self, earlier: Instant) -> Duration {
        Duration { usec: (self.raw - earlier.raw) as i64 }
    }
}

impl std::ops::Add<Duration> for Instant {
    type Output = Instant;

    fn add(self, d: Duration) -> (r: Instant) {
        Instant { raw: self.raw + d.usec }
    }
}

impl vstd::std_specs::ops::AddSpecImpl<Duration> for Instant {
    open spec fn obeys_add_spec() -> bool {
        true
    }

    open spec fn add_req(self, d: Duration) -> bool {
        fits_i64(self.raw + d.usec)
    }

    open spec fn add_spec(self, d: Duration) -> Instant {
        self.plus(d)
    }
}

impl std::ops::Sub<Duration> for Instant {
    type Output = Instant;

    fn sub(self, d: Duration) -> (r: Instant) {
        Instant { raw: self.raw - d.usec }
    }
}

impl vstd::std_specs::ops::SubSpecImpl<Duration> for Instant {
    open spec fn obeys_sub_spec() -> bool {
        true
    }

    open spec fn sub_req(self, d: Duration) -> bool {
        fits_i64(self.raw - d.usec)
    }

    open spec fn sub_spec(self, d: Duration) -> Instant {
        self.minus(d)
    }
}

impl std::ops::Sub<Instant> for Instant {
    type Output = Duration;

    fn sub(self, earlier: Instant) -> (r: Duration) {
        Duration { usec: self.raw - earlier.raw }
    }
}

impl vstd::std_specs::ops::SubSpecImpl<Instant> for Instant {
    open spec fn obeys_sub_spec() -> bool {
        true
    }

    open spec fn sub_req(self, earlier: Instant) -> bool {
        fits_i64(self.raw - earlier.raw)
    }

    open spec fn sub_spec(self, earlier: Instant) -> Duration {
        self.since(earlier)
    }
}

impl PartialOrd for Instant {
    fn partial_cmp(&self, other: &Instant) -> (r: Option<std::cmp::Ordering>) {
        if self.raw < other.raw {
            Some(std::cmp::Ordering::Less)
        } else if self.raw > other.raw {
            Some(std::cmp::Ordering::Greater)
        } else {
            Some(std::cmp::Ordering::Equal)
        }
    }
}

impl vstd::std_specs::cmp::PartialOrdSpecImpl for Instant {
    open spec fn obeys_partial_cmp_spec() -> bool {
        true
    }

    open spec fn partial_cmp_spec(&self, other: &Instant) -> Option<std::cmp::Ordering> {
        if self.raw < other.raw {
            Some(std::cmp::Ordering::Less)
        } else if self.raw > other.raw {
            Some(std::cmp::Ordering::Greater)
        } else {
            Some(std::cmp::Ordering::Equal)
        }
    }
}

/// Shifting by a non-negative duration keeps the order of instants, never
/// moves an instant backwards, and a later instant is a positive duration
/// after an earlier one.
pub proof fn lemma_shift_monotone(a: Instant, b: Instant, d: Duration)
    requires
        a.raw < b.raw,
        d.usec >= 0,
        fits_i64(a.raw + d.usec),
        fits_i64(b.raw + d.usec),
        fits_i64(b.raw - a.raw),
    ensures
        a.plus(d).raw <= b.plus(d).raw,
        a.plus(d).raw >= a.raw,
        b.since(a).usec > 0,
{
}

/// Adding and then subtracting a duration, or the other way round, gives
/// back the instant exactly.
pub proof fn lemma_shift_inverse(t: Instant, d: Duration)
    ensures
        fits_i64(t.raw + d.usec) ==> t.plus(d).minus(d) == t,
        fits_i64(t.raw - d.usec) ==> t.minus(d).plus(d) == t,
{
}

/// A UTC count has exactly one civil reading.
pub proof fn lemma_civil_reading_unique(u: int, g1: Civil, g2: Civil)
    requires
        is_civil_of(u, g1),
        is_civil_of(u, g2),
    ensures
        g1 == g2,
{
    let tod1 = g1.3 * USEC_PER_HOUR + g1.4 * USEC_PER_MINUTE + g1.5;
    let tod2 = g2.3 * USEC_PER_HOUR + g2.4 * USEC_PER_MINUTE + g2.5;
    let n1 = day_number(g1.0 as int, g1.1 as int, g1.2 as int);
    let n2 = day_number(g2.0 as int, g2.1 as int, g2.2 as int);
    lemma_fundamental_div_mod_converse(u, USEC_PER_DAY as int, n1, tod1);
    lemma_fundamental_div_mod_converse(u, USEC_PER_DAY as int, n2, tod2);
    crate::calendar::lemma_day_number_injective(
        g1.0 as int,
        g1.1 as int,
        g1.2 as int,
        g2.0 as int,
        g2.1 as int,
        g2.2 as int,
    );
    lemma_fundamental_div_mod_converse(tod1, USEC_PER_HOUR as int, g1.3 as int, g1.4 * USEC_PER_MINUTE + g1.5);
    lemma_fundamental_div_mod_converse(tod2, USEC_PER_HOUR as int, g2.3 as int, g2.4 * USEC_PER_MINUTE + g2.5);
    lemma_fundamental_div_mod_converse(g1.4 * USEC_PER_MINUTE + g1.5, USEC_PER_MINUTE as int, g1.4 as int, g1.5 as int);
    lemma_fundamental_div_mod_converse(g2.4 * USEC_PER_MINUTE + g2.5, USEC_PER_MINUTE as int, g2.4 as int, g2.5 as int);
}

/// Building an instant from valid civil fields and reading its calendar
/// fields back gives the same fields.
pub proof fn lemma_gregorian_round_trip(g: Civil, shown: Civil)
    requires
        is_valid_civil(g),
        fits_i64(continuous_of_utc(civil_usec(g))),
        renders_as(continuous_of_utc(civil_usec(g)), shown),
    ensures
        shown == g,
{
    crate::leap::lemma_continuous_not_in_leap_second(civil_usec(g));
    crate::leap::lemma_utc_round_trip(civil_usec(g));
    lemma_civil_reading_unique(civil_usec(g), g, shown);
}

} // verus!
