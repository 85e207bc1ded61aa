//! Error values reported by the library.
use vstd::prelude::*;

verus! {

/// Why a civil date and time could not be turned into an `Instant`.
#[derive(Clone, Copy, Debug, PartialEq, Eq, Structural)]
pub enum InstantError {
    /// The month is outside 1..=12.
    InvalidMonth,
    /// The day is outside the days of the given month.
    InvalidDay,
    /// The hour is outside 0..=23.
    InvalidHour,
    /// The minute is outside 0..=59.
    InvalidMinute,
    /// The microseconds of the minute are outside 0..60 000 000.
    InvalidSecond,
    /// The moment is too far from 1970 for a 64-bit microsecond count.
    OutOfRange,
}

/// Errors of the matrix and vector collaborators.
#[derive(Clone, Copy, Debug, PartialEq, Eq, Structural)]
pub enum MathError {
    SingularMatrix,
    NotSquareMatrix,
    NotInvertibleMatrix,
    NotPositiveDefiniteMatrix,
    NotPositiveSemiDefiniteMatrix,
    InvalidIndex(i32),
}

/// The library-wide error, wrapping the time and math errors.
#[derive(Debug)]
pub enum SCErr {
    Custom(String),
    NotFound,
    InvalidInput,
    InvalidState,
    InvalidOutput,
    InvalidMatrixIndex,
    MatrixIsSingular,
    VectorNormIsZero,
    InvalidTimeString,
    NonPositiveDefiniteMatrix,
    Instant(InstantError),
    Matrix(MathError),
}

impl From<InstantError> for SCErr {
    fn from(err: InstantError) -> (r: SCErr) {
        SCErr::Instant(err)
    }
}

impl vstd::std_specs::convert::FromSpecImpl<InstantError> for SCErr {
    open spec fn obeys_from_spec() -> bool {
        true
    }

    open spec fn from_spec(err: InstantError) -> SCErr {
        SCErr::Instant(err)
    }
}

impl From<MathError> for SCErr {
    fn from(err: MathError) -> (r: SCErr) {
        SCErr::Matrix(err)
    }
}

impl vstd::std_specs::convert::FromSpecImpl<MathError> for SCErr {
    open spec fn obeys_from_spec() -> bool {
        true
    }

    open spec fn from_spec(err: MathError) -> SCErr {
        SCErr::Matrix(err)
    }
}

/// A simpler error enumeration kept for callers that match on plain kinds.
#[derive(Debug)]
pub enum SCError {
    Message(String),
    NotFound,
    InvalidInput,
    InvalidState,
    InvalidOutput,
    InvalidMatrixIndex,
    MatrixIsSingular,
    VectorNormIsZero,
    NonPositiveDefiniteMatrix,
}

pub type SCResult<T> = Result<T, SCError>;

} // verus!
