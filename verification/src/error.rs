//! The error type of the parsers and encoders.
use vstd::prelude::*;

verus! {

/// What went wrong while parsing.
#[derive(Clone, Copy, PartialEq, Eq, Structural, Debug, Hash)]
pub enum DtErrKind {
    /// The input is empty (or only whitespace).
    Empty,
    /// The input is malformed as a whole (such as a lone sign).
    InvalidInput,
    /// The structure is wrong (a missing or extra separator).
    InvalidSyntax,
    /// Characters remain after a complete value.
    TrailingCharacters,
    /// A number was expected.
    ExpectedValue,
    /// Digits were expected after a decimal separator.
    ExpectedFractional,
    /// A unit designator was expected after a number.
    ExpectedUnit,
    /// A number does not fit its type.
    InvalidNumber,
    /// A fractional part has too many digits.
    FracOutOfRange,
    /// A fractional part stands on a unit that takes none.
    InvalidItem,
    /// An unknown unit designator.
    UnknownItem,
    /// A required prefix is missing.
    MustStartWith,
    /// A year count is out of range.
    YearOutOfRange,
    /// A month count is out of range.
    MonthOutOfRange,
    /// A week count is out of range.
    WeekOutOfRange,
    /// A day count is out of range.
    DayOutOfRange,
    /// The total is out of range.
    OutOfRange,
    /// A sub-millisecond resolution code is not one of those defined.
    InvalidSubmillisecond,
}

/// A parse or encoding error.
#[derive(Clone, Copy, PartialEq, Eq, Structural, Debug, Hash)]
pub struct DtErr {
    /// What went wrong.
    pub kind: DtErrKind,
}

impl DtErr {
    /// An error of the given kind.
    pub fn new(kind: DtErrKind) -> (r: DtErr)
        ensures
            r.kind == kind,
    {
        DtErr { kind }
    }

    /// What went wrong.
    pub fn kind(&self) -> (r: DtErrKind)
        ensures
            r == self.kind,
    {
        self.kind
    }
}

} // verus!
