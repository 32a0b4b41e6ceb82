//! Failures of the file system, as plain values.

use vstd::prelude::*;

verus! {

/// The kinds of file-system failure that the library tells apart.
#[derive(Clone, Copy, Debug, PartialEq, Eq, Structural)]
pub enum ErrorKind {
    /// Nothing exists at the path.
    NotFound,
    /// The path exists and may not be read or written.
    PermissionDenied,
    /// Something already exists at the path.
    AlreadyExists,
    /// The request itself makes no sense.
    InvalidInput,
    /// Any other failure.
    Other,
}

/// A failure of the file system: what kind, and how it reads.
#[derive(Debug)]
pub struct IoError {
    pub kind: ErrorKind,
    pub message: String,
}

impl View for IoError {
    type V = (ErrorKind, Seq<char>);

    open spec fn view(&self) -> (ErrorKind, Seq<char>) {
        (self.kind, self.message@)
    }
}

impl Clone for IoError {
    fn clone(&self) -> (e: IoError)
        ensures
            e@ == self@,
    {
        IoError { kind: self.kind, message: self.message.clone() }
    }
}

impl IoError {
    /// A failure of the given kind with the given text.
    pub fn new(kind: ErrorKind, message: &str) -> (e: IoError)
        ensures
            e@ == (kind, message@),
    {
        IoError { kind, message: message.to_owned() }
    }

    /// The kind of the failure.
    pub fn kind(&self) -> (k: ErrorKind)
        ensures
            k == self.kind,
    {
        self.kind
    }
}

} // verus!
