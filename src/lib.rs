//! Precision time representation and calendar conversion for aerospace
//! timekeeping: a continuous, leap-second-free microsecond count, elapsed
//! intervals, and exact conversions to UTC civil time, Unix time, GPS time,
//! Julian and Modified Julian Dates and other time scales.
pub mod calendar;
pub mod duration;
pub mod error;
pub mod format;
pub mod instant;
pub mod leap;
pub mod timescale;

pub use duration::Duration;
pub use error::{InstantError, MathError, SCErr, SCError, SCResult};
pub use instant::Instant;
pub use timescale::TimeScale;
