use vstd::prelude::*;

verus! {

/// std's `num::ParseIntError`, carried as an opaque value.
#[verifier::external_type_specification]
#[verifier::external_body]
pub struct ExStdParseIntError(std::num::ParseIntError);

/// Relies on the `Clone` impl of `std::num::ParseIntError`, which only copies
/// its error kind; nothing is claimed of the copy.
pub assume_specification[ <std::num::ParseIntError as Clone>::clone ](
    e: &std::num::ParseIntError,
) -> std::num::ParseIntError;

/// A value did not fit in the target integer range.
#[derive(Debug, Copy, Clone, PartialEq, Eq, Structural)]
#[non_exhaustive]
pub struct TryFromIntError;

impl TryFromIntError {
    /// Human-readable description of the failure.
    pub fn message(&self) -> (r: &'static str)
        ensures
            r@ == "out of range integral type conversion attempted"@,
    {
        "out of range integral type conversion attempted"
    }
}

/// Parsing text into one of the bounded integer types failed.
#[derive(Debug, Clone)]
pub enum ParseIntError {
    /// The text is not a decimal number of the underlying unsigned type.
    Parse(std::num::ParseIntError),
    /// The text is a number, but above the type's maximum.
    OutOfRange(TryFromIntError),
}

impl ParseIntError {
    /// Human-readable description of the failure.
    pub fn message(&self) -> (r: &'static str)
        ensures
            self is Parse ==> r@ == "could not parse integer"@,
            self is OutOfRange ==> r@ == "integer is out of range"@,
    {
        match self {
            ParseIntError::Parse(_) => "could not parse integer",
            ParseIntError::OutOfRange(_) => "integer is out of range",
        }
    }
}

/// A fixed-length array column did not match the expected shape.
#[derive(Debug, Clone, Copy, PartialEq, Eq, Structural)]
pub enum InvalidArray {
    UnexpectedLength,
    UnexpectedNullValue,
}

impl InvalidArray {
    /// Human-readable description of the failure.
    pub fn message(&self) -> (r: &'static str)
        ensures
            *self == InvalidArray::UnexpectedLength ==> r@ == "mismatched array length"@,
            *self == InvalidArray::UnexpectedNullValue
                ==> r@ == "the array contains an unexpected null value"@,
    {
        match self {
            InvalidArray::UnexpectedLength => "mismatched array length",
            InvalidArray::UnexpectedNullValue => "the array contains an unexpected null value",
        }
    }
}

} // verus!
