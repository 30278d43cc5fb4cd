use vstd::prelude::*;
use vstd::string::StringExecFns;

verus! {

/// Classifies which kind of error has occurred.
#[derive(Debug, Clone, Copy, PartialEq, Eq, Structural)]
pub enum ErrorKind {
    /// The text of a diff violates the unified diff grammar.
    DiffParseError,
    /// A file could not be read, written, created, or deleted.
    IOError,
    /// A patch is structurally inconsistent with the file it is applied to.
    PatchError,
}

/// The mathematical content of an [`Error`].
pub struct ErrorView {
    pub message: Seq<char>,
    pub kind: ErrorKind,
}

/// The error type of this crate: a human-readable message and an [`ErrorKind`].
#[derive(Debug, Clone, PartialEq, Eq)]
pub struct Error {
    message: String,
    kind: ErrorKind,
}

impl View for Error {
    type V = ErrorView;

    closed spec fn view(&self) -> ErrorView {
        ErrorView { message: self.message@, kind: self.kind }
    }
}

/// The name under which an error kind is printed.
pub open spec fn kind_name(kind: ErrorKind) -> Seq<char> {
    match kind {
        ErrorKind::DiffParseError => "DiffParseError"@,
        ErrorKind::IOError => "IOError"@,
        ErrorKind::PatchError => "PatchError"@,
    }
}

/// The printed form of an error: the name of its kind, a colon and a space,
/// then its message.
pub open spec fn error_text(e: ErrorView) -> Seq<char> {
    kind_name(e.kind) + ": "@ + e.message
}

impl ErrorKind {
    /// Returns the name of this error kind.
    pub fn to_string(&self) -> (s: String)
        ensures
            s@ == kind_name(*self),
    {
        match self {
            ErrorKind::DiffParseError => String::from_str("DiffParseError"),
            ErrorKind::IOError => String::from_str("IOError"),
            ErrorKind::PatchError => String::from_str("PatchError"),
        }
    }
}

impl Error {
    /// Creates a new error with a copy of the given message and the given kind.
    pub fn new(message: &str, kind: ErrorKind) -> (e: Error)
        ensures
            e@.message == message@,
            e@.kind == kind,
    {
        Error { message: String::from_str(message), kind }
    }

    /// Returns the message of this error.
    pub fn message(&self) -> (m: &str)
        ensures
            m@ == self@.message,
    {
        self.message.as_str()
    }

    /// Returns the kind of this error.
    pub fn kind(&self) -> (k: &ErrorKind)
        ensures
            *k == self@.kind,
    {
        &self.kind
    }

    /// Returns the printed form of this error, such as `IOError: disk full`.
    pub fn to_string(&self) -> (s: String)
        ensures
            s@ == error_text(self@),
    {
        let s = self.kind.to_string();
        let s = s.concat(": ");
        s.concat(self.message.as_str())
    }
}

} // verus!
