//! The ways in which an operation of this crate can fail.

use vstd::prelude::*;

verus! {

/// Why an operation was refused.
#[derive(Debug, Clone, Copy, PartialEq, Eq, Structural)]
pub enum Error {
    /// Bytes, values or topics that do not fit the declared shape.
    InvalidData,
    /// A value was asked for as a kind that it does not hold.
    TypeMismatch,
    /// Bytes declared as text are not UTF-8.
    Utf8Error,
    /// A type name that names no type.
    InvalidName,
}

impl Error {
    /// A short description of the failure.
    pub fn message(&self) -> (text: &'static str)
        ensures
            text@ == match *self {
                Error::InvalidData => "Invalid data"@,
                Error::TypeMismatch => "Type mismatch"@,
                Error::Utf8Error => "Invalid UTF-8"@,
                Error::InvalidName => "Invalid name"@,
            },
    {
        match self {
            Error::InvalidData => "Invalid data",
            Error::TypeMismatch => "Type mismatch",
            Error::Utf8Error => "Invalid UTF-8",
            Error::InvalidName => "Invalid name",
        }
    }
}

} // verus!
