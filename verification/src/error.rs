//! The error type shared by the library's fallible operations.

use vstd::prelude::*;

verus! {

/// Errors reported by the library, by kind, each with its message.
#[derive(Debug, Clone)]
pub enum TynxError {
    /// A value does not have the type, element type or structure an operation needs.
    TypeMismatch(String),
    /// An operation or operand is not supported.
    UnsupportedOp(String),
    /// A shape or rank is not acceptable.
    Shape(String),
    /// A required value is absent.
    MissingValue(String),
    /// A value lives on another device than expected.
    DeviceMismatch { name: String, expected: String, actual: String },
}

/// The kind of an error, without its message.
#[derive(Debug, Clone, Copy, PartialEq, Eq, Structural)]
pub enum ErrorKind {
    TypeMismatch,
    UnsupportedOp,
    Shape,
    MissingValue,
    DeviceMismatch,
}

/// Kind and message text of an error.
pub open spec fn error_view(e: TynxError) -> (ErrorKind, Seq<char>) {
    match e {
        TynxError::TypeMismatch(m) => (ErrorKind::TypeMismatch, m@),
        TynxError::UnsupportedOp(m) => (ErrorKind::UnsupportedOp, m@),
        TynxError::Shape(m) => (ErrorKind::Shape, m@),
        TynxError::MissingValue(m) => (ErrorKind::MissingValue, m@),
        TynxError::DeviceMismatch { name, .. } => (ErrorKind::DeviceMismatch, name@),
    }
}

impl TynxError {
    /// The error's message, as its `Display` renders it.
    pub fn message(&self) -> (r: String)
        ensures
            match *self {
                TynxError::DeviceMismatch { name, expected, actual } => r@ == "device mismatch for '"@ + name@
                    + "': expected "@ + expected@ + ", got "@ + actual@,
                _ => r@ == error_view(*self).1,
            },
    {
        match self {
            TynxError::TypeMismatch(m) => m.clone(),
            TynxError::UnsupportedOp(m) => m.clone(),
            TynxError::Shape(m) => m.clone(),
            TynxError::MissingValue(m) => m.clone(),
            TynxError::DeviceMismatch { name, expected, actual } => {
                let mut s = crate::text::owned("device mismatch for '");
                s.append(name.as_str());
                s.append("': expected ");
                s.append(expected.as_str());
                s.append(", got ");
                s.append(actual.as_str());
                s
            },
        }
    }
}

} // verus!
