//! Time scales and their offsets from the continuous count.
use vstd::prelude::*;
use crate::instant::{Instant, MJD_EPOCH_TO_UNIX_USEC, JD_TO_MJD_USEC};
use crate::leap::{continuous_to_utc, lemma_leap_offset_bounds, utc_of};

verus! {

/// TT - TAI, in microseconds.
pub const TT_MINUS_TAI_USEC: i64 = 32_184_000;

/// TAI - GPS, in microseconds (GPS time has no leap seconds).
pub const TAI_MINUS_GPS_USEC: i64 = 19_000_000;

/// The time scales an instant can be read on.
#[derive(Clone, Copy, Debug, PartialEq, Eq, Structural)]
pub enum TimeScale {
    /// Universal Time Coordinated.
    UTC,
    /// Terrestrial Time.
    TT,
    /// UT1; read here as UTC, since UT1 - UTC is not modelled.
    UT1,
    /// International Atomic Time.
    TAI,
    /// Global Positioning System time.
    GPS,
    /// Barycentric Dynamical Time; read here as TT, since TDB - TT is not
    /// modelled.
    TDB,
}

impl TimeScale {
    /// Whether readings on this scale stand in for a quantity that is not
    /// modelled (UT1 - UTC and TDB - TT are taken as zero).
    pub fn is_approximate(&self) -> (r: bool)
        ensures
            r == (*self == TimeScale::UT1 || *self == TimeScale::TDB),
    {
        match self {
            TimeScale::UT1 | TimeScale::TDB => true,
            _ => false,
        }
    }
}

/// What a clock on `scale` reads at the continuous count `raw`, as
/// microseconds since that clock read 1970-01-01T00:00:00.
pub open spec fn scale_reading(raw: int, scale: TimeScale) -> int {
    match scale {
        TimeScale::UTC | TimeScale::UT1 => utc_of(raw),
        TimeScale::TAI => raw,
        TimeScale::TT | TimeScale::TDB => raw + TT_MINUS_TAI_USEC,
        TimeScale::GPS => raw - TAI_MINUS_GPS_USEC,
    }
}

impl Instant {
    /// The reading of this instant on `scale`, in microseconds since the
    /// clock read 1970-01-01T00:00:00.
    pub fn reading_on(&self, scale: TimeScale) -> (r: i128)
        ensures
            r == scale_reading(self.raw as int, scale),
    {
        match scale {
            TimeScale::UTC | TimeScale::UT1 => continuous_to_utc(self.raw) as i128,
            TimeScale::TAI => self.raw as i128,
            TimeScale::TT | TimeScale::TDB => self.raw as i128 + TT_MINUS_TAI_USEC as i128,
            TimeScale::GPS => self.raw as i128 - TAI_MINUS_GPS_USEC as i128,
        }
    }

    /// Modified Julian Date on `scale`, as microseconds since the MJD epoch
    /// of that scale.
    pub fn as_mjd_with_scale(&self, scale: TimeScale) -> (r: i128)
        ensures
            r == scale_reading(self.raw as int, scale) + MJD_EPOCH_TO_UNIX_USEC,
    {
        proof {
            lemma_leap_offset_bounds(self.raw as int);
        }
        self.reading_on(scale) + MJD_EPOCH_TO_UNIX_USEC as i128
    }

    /// Julian Date on `scale`, as microseconds since the Julian Date epoch of
    /// that scale.
    pub fn as_jd_with_scale(&self, scale: TimeScale) -> (r: i128)
        ensures
            r == scale_reading(self.raw as int, scale) + MJD_EPOCH_TO_UNIX_USEC + JD_TO_MJD_USEC,
    {
        proof {
            lemma_leap_offset_bounds(self.raw as int);
        }
        self.as_mjd_with_scale(scale) + JD_TO_MJD_USEC as i128
    }
}

} // verus!
