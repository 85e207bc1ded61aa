//! Signed elapsed-time intervals.
use vstd::prelude::*;

verus! {

pub const USEC_PER_MSEC: i64 = 1_000;

pub const USEC_PER_SECOND: i64 = 1_000_000;

pub const USEC_PER_MINUTE: i64 = 60_000_000;

pub const USEC_PER_HOUR: i64 = 3_600_000_000;

pub const USEC_PER_DAY: i64 = 86_400_000_000;

/// A signed elapsed-time interval, counted in microseconds. Unit
/// conversions scale exactly by integers.
#[derive(Clone, Copy, Debug, PartialEq, Eq, Structural)]
pub struct Duration {
    pub usec: i64,
}

/// `count * unit` fits in an `i64`.
pub open spec fn fits_scaled(count: int, unit: int) -> bool {
    i64::MIN <= count * unit <= i64::MAX
}

fn scaled(count: i64, unit: i64) -> (r: Duration)
    requires
        unit > 0,
        fits_scaled(count as int, unit as int),
    ensures
        r.usec == count * unit,
{
    Duration { usec: count * unit }
}

impl Duration {
    /// A duration of `usec` microseconds.
    pub fn new(usec: i64) -> (r: Duration)
        ensures
            r.usec == usec,
    {
        Duration { usec }
    }

    /// A duration of `usec` microseconds.
    pub fn from_microseconds(usec: i64) -> (r: Duration)
        ensures
            r.usec == usec,
    {
        Duration { usec }
    }

    /// A duration of `ms` whole milliseconds.
    pub fn from_milliseconds(ms: i64) -> (r: Duration)
        requires
            fits_scaled(ms as int, USEC_PER_MSEC as int),
        ensures
            r.usec == ms * USEC_PER_MSEC,
    {
        scaled(ms, USEC_PER_MSEC)
    }

    /// A duration of `seconds` whole seconds.
    pub fn from_seconds(seconds: i64) -> (r: Duration)
        requires
            fits_scaled(seconds as int, USEC_PER_SECOND as int),
        ensures
            r.usec == seconds * USEC_PER_SECOND,
    {
        scaled(seconds, USEC_PER_SECOND)
    }

    /// A duration of `minutes` whole minutes.
    pub fn from_minutes(minutes: i64) -> (r: Duration)
        requires
            fits_scaled(minutes as int, USEC_PER_MINUTE as int),
        ensures
            r.usec == minutes * USEC_PER_MINUTE,
    {
        scaled(minutes, USEC_PER_MINUTE)
    }

    /// A duration of `hours` whole hours.
    pub fn from_hours(hours: i64) -> (r: Duration)
        requires
            fits_scaled(hours as int, USEC_PER_HOUR as int),
        ensures
            r.usec == hours * USEC_PER_HOUR,
    {
        scaled(hours, USEC_PER_HOUR)
    }

    /// A duration of `days` whole days of 86 400 s.
    pub fn from_days(days: i64) -> (r: Duration)
        requires
            fits_scaled(days as int, USEC_PER_DAY as int),
        ensures
            r.usec == days * USEC_PER_DAY,
    {
        scaled(days, USEC_PER_DAY)
    }

    /// The duration in microseconds, exactly.
    pub fn as_microseconds(&self) -> (r: i64)
        ensures
            r == self.usec,
    {
        self.usec
    }

    /// The sum of two durations, in spec terms.
    pub open spec fn plus(self, other: Duration) -> Duration {
        Duration { usec: (self.usec + other.usec) as i64 }
    }

    /// The difference of two durations, in spec terms.
    pub open spec fn minus(self, other: Duration) -> Duration {
        Duration { usec: (self.usec - other.usec) as i64 }
    }
}

impl std::ops::Add<Duration> for Duration {
    type Output = Duration;

    fn add(self, other: Duration) -> (r: Duration) {
        Duration { usec: self.usec + other.usec }
    }
}

impl vstd::std_specs::ops::AddSpecImpl<Duration> for Duration {
    open spec fn obeys_add_spec() -> bool {
        true
    }

    open spec fn add_req(self, other: Duration) -> bool {
        i64::MIN <= self.usec + other.usec <= i64::MAX
    }

    open spec fn add_spec(self, other: Duration) -> Duration {
        self.plus(other)
    }
}

impl std::ops::Sub<Duration> for Duration {
    type Output = Duration;

    fn sub(self, other: Duration) -> (r: Duration) {
        Duration { usec: self.usec - other.usec }
    }
}

impl vstd::std_specs::ops::SubSpecImpl<Duration> for Duration {
    open spec fn obeys_sub_spec() -> bool {
        true
    }

    open spec fn sub_req(self, other: Duration) -> bool {
        i64::MIN <= self.usec - other.usec <= i64::MAX
    }

    open spec fn sub_spec(self, other: Duration) -> Duration {
        self.minus(other)
    }
}

impl PartialOrd for Duration {
    fn partial_cmp(&self, other: &Duration) -> (r: Option<std::cmp::Ordering>) {
        if self.usec < other.usec {
            Some(std::cmp::Ordering::Less)
        } else if self.usec > other.usec {
            Some(std::cmp::Ordering::Greater)
        } else {
            Some(std::cmp::Ordering::Equal)
        }
    }
}

impl vstd::std_specs::cmp::PartialOrdSpecImpl for Duration {
    open spec fn obeys_partial_cmp_spec() -> bool {
        true
    }

    open spec fn partial_cmp_spec(&self, other: &Duration) -> Option<std::cmp::Ordering> {
        if self.usec < other.usec {
            Some(std::cmp::Ordering::Less)
        } else if self.usec > other.usec {
            Some(std::cmp::Ordering::Greater)
        } else {
            Some(std::cmp::Ordering::Equal)
        }
    }
}

} // verus!
