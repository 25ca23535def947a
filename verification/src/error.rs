//! Error handling: a closed taxonomy of the failures the library reports.

use vstd::prelude::*;

verus! {

/// The kind of an error that occurred in the library.
///
/// `Io` stands for a failure of the underlying stream (including reaching its
/// end where more data was needed); `ParseError` for a numeric token that
/// could not be read as a scalar value; `InvalidFormat` for a line that does
/// not have the shape the format demands, carrying that line's text.
#[derive(Debug, Clone, PartialEq, Eq)]
pub enum ErrorKind {
    Io,
    ParseError,
    InvalidFormat { error: String },
}

/// An error occurred in the library, described by its `ErrorKind`.
#[derive(Debug, Clone, PartialEq, Eq)]
pub struct Error {
    kind: ErrorKind,
}

impl Error {
    /// The kind held by this error.
    pub closed spec fn spec_kind(&self) -> ErrorKind {
        self.kind
    }

    /// Constructs an `Error` from its kind.
    pub fn new(kind: ErrorKind) -> (r: Error)
        ensures
            r.spec_kind() == kind,
    {
        Error { kind }
    }

    /// Get the `ErrorKind` of the contained error.
    pub fn kind(&self) -> (r: &ErrorKind)
        ensures
            *r == self.spec_kind(),
    {
        &self.kind
    }

    /// The error as text: a short phrase for its kind and, for an invalid
    /// format, the offending line.
    pub fn message(&self) -> (r: String)
        ensures
            match self.spec_kind() {
                ErrorKind::Io => r@ == "I/O Error"@,
                ErrorKind::ParseError => r@ == "Parse Value Error"@,
                ErrorKind::InvalidFormat { error } => r@ == "Invalid Format: "@ + error@,
            },
    {
        match &self.kind {
            ErrorKind::Io => String::from_str("I/O Error"),
            ErrorKind::ParseError => String::from_str("Parse Value Error"),
            ErrorKind::InvalidFormat { error } => {
                let mut s = String::from_str("Invalid Format: ");
                s.append(error.as_str());
                s
            },
        }
    }

    /// Constructs an `Error` from the portion of the input that is formatted
    /// in an invalid way.
    pub fn invalid_format(s: String) -> (r: Error)
        ensures
            r.spec_kind() == (ErrorKind::InvalidFormat { error: s }),
    {
        Error { kind: ErrorKind::InvalidFormat { error: s } }
    }
}

} // verus!
