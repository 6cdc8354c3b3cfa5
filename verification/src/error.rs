use vstd::prelude::*;

verus! {

/// Possible error kinds at the boundary of a proxied connection.
#[derive(Debug, Clone, Copy, PartialEq, Eq, Hash, Structural)]
#[allow(missing_docs)]
pub enum ErrorKind {
    InvalidInput,
    Other,
}

/// Error kinds of the frame codecs.
#[derive(Debug, Clone, Copy, PartialEq, Eq, Hash, Structural)]
pub enum CodecErrorKind {
    /// Input is invalid.
    InvalidInput,
    /// The state of an encoder or decoder is not the one the call needs.
    InconsistentState,
    /// The stream ended while an item was still incomplete.
    UnexpectedEos,
    /// The encoder still holds an item and cannot accept another.
    EncoderFull,
    /// The item asked for has not been decoded completely.
    IncompleteDecoding,
}

/// This crate specific `Error` type.
#[derive(Debug, Clone, Copy, PartialEq, Eq, Structural)]
pub struct Error {
    /// What went wrong, as far as a caller can tell.
    pub kind: ErrorKind,
}

impl Error {
    /// Makes an error of the given kind.
    pub fn new(kind: ErrorKind) -> (e: Error)
        ensures
            e.kind == kind,
    {
        Error { kind }
    }

    /// The kind of this error.
    pub fn kind(&self) -> (k: ErrorKind)
        ensures
            k == self.kind,
    {
        self.kind
    }

    /// The error that stands for a failed read, write or connect.
    pub fn io() -> (e: Error)
        ensures
            e.kind == ErrorKind::Other,
    {
        Error { kind: ErrorKind::Other }
    }

    /// A short description, for logs.
    pub fn message(&self) -> (s: &'static str)
        ensures
            s@ == (match self.kind {
                ErrorKind::InvalidInput => "invalid input"@,
                ErrorKind::Other => "other error"@,
            }),
    {
        match self.kind {
            ErrorKind::InvalidInput => "invalid input",
            ErrorKind::Other => "other error",
        }
    }
}

impl From<CodecErrorKind> for Error {
    /// Every codec failure surfaces as `Other`.
    fn from(f: CodecErrorKind) -> (e: Error) {
        Error { kind: ErrorKind::Other }
    }
}

impl vstd::std_specs::convert::FromSpecImpl<CodecErrorKind> for Error {
    open spec fn obeys_from_spec() -> bool {
        true
    }

    open spec fn from_spec(f: CodecErrorKind) -> Error {
        Error { kind: ErrorKind::Other }
    }
}

} // verus!
