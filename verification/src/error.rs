//! The error of reading from a stream.
use vstd::prelude::*;

verus! {

/// What went wrong.
#[derive(Debug, Clone, Copy, PartialEq, Eq, Structural)]
pub enum ErrorKind {
    /// The bytes that were read are not what they have to be.
    InvalidData,
    /// The bytes could not be read.
    Other,
}

/// An error, with its reason in words.
#[derive(Debug, Clone, PartialEq, Eq)]
pub struct Error {
    pub kind: ErrorKind,
    pub message: String,
}

/// What an [`Error`] denotes.
pub struct Failure {
    pub kind: ErrorKind,
    pub message: Seq<char>,
}

impl View for Error {
    type V = Failure;

    open spec fn view(&self) -> Failure {
        Failure { kind: self.kind, message: self.message@ }
    }
}

} // verus!
