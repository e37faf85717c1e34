//! The run-fatal error type shared by every loader and by the row emitter.
//!
//! The taxonomy follows the propagation policy of the tool: I/O failures on
//! required inputs, structural failures of a record, value failures on a
//! field that must parse, and a well-formed record that lacks an expected
//! key are all run-fatal; everything else degrades locally to "absent" and
//! never becomes an `Error`.

use vstd::prelude::*;

verus! {

/// Which class of failure aborted the run.
#[derive(Clone, Copy, Debug, PartialEq, Eq, Structural)]
pub enum ErrorKind {
    /// A required file or directory was missing or unreadable.
    Io,
    /// A record did not match its expected field count or shape.
    Structure,
    /// A field's textual content was not a valid number or identifier.
    Value,
    /// An expected key was absent from an otherwise well-formed record.
    MissingKey,
    /// A failure stated only by its message.
    Other,
}

/// A run-fatal failure, carrying its class and a human-readable message.
#[derive(Debug)]
pub struct Error {
    pub kind: ErrorKind,
    pub message: String,
}

impl Error {
    /// A failure with no more precise class than its message.
    pub fn new(message: String) -> (r: Error)
        ensures
            r.kind == ErrorKind::Other,
            r.message@ == message@,
    {
        Error { kind: ErrorKind::Other, message }
    }

    /// A failure of a stated class.
    pub fn with_kind(kind: ErrorKind, message: String) -> (r: Error)
        ensures
            r.kind == kind,
            r.message@ == message@,
    {
        Error { kind, message }
    }
}

/// Turns a bare failure class into an [`Error`] carrying a message.
pub trait ConvertError: Sized {
    /// The class the resulting error will carry.
    spec fn error_kind(self) -> ErrorKind;

    /// Attach `message` to this failure.
    fn into_error(self, message: String) -> (r: Error)
        ensures
            r.kind == self.error_kind(),
            r.message@ == message@,
    ;
}

impl ConvertError for ErrorKind {
    open spec fn error_kind(self) -> ErrorKind {
        self
    }

    fn into_error(self, message: String) -> (r: Error) {
        Error { kind: self, message }
    }
}

/// Turns a result whose error is a bare failure class into one whose error
/// is an [`Error`] carrying a message.
pub trait ConvertResult<T>: Sized {
    /// The success value, if this result holds one.
    spec fn ok_value(self) -> Option<T>;

    /// The failure class, meaningful when `ok_value` is `None`.
    spec fn err_kind(self) -> ErrorKind;

    /// Attach `message` to the failure, if any.
    fn into_error(self, message: String) -> (r: Result<T, Error>)
        ensures
            match r {
                Ok(v) => self.ok_value() == Some(v),
                Err(e) => {
                    &&& self.ok_value() is None
                    &&& e.kind == self.err_kind()
                    &&& e.message@ == message@
                },
            },
    ;
}

impl<T> ConvertResult<T> for Result<T, ErrorKind> {
    open spec fn ok_value(self) -> Option<T> {
        match self {
            Ok(v) => Some(v),
            Err(_) => None,
        }
    }

    open spec fn err_kind(self) -> ErrorKind {
        match self {
            Ok(_) => ErrorKind::Other,
            Err(k) => k,
        }
    }

    fn into_error(self, message: String) -> (r: Result<T, Error>) {
        match self {
            Ok(v) => Ok(v),
            Err(kind) => Err(Error { kind, message }),
        }
    }
}

} // verus!
