//! Errors.

use vstd::prelude::*;

use crate::text::owned;

verus! {

/// Why the library itself refuses a request.
#[derive(Clone, Copy, Debug, PartialEq, Eq, Structural)]
pub enum ErrorKind {
    /// An argument is not what it has to be.
    InvalidArgument,
    /// Something that has to come first has not happened yet.
    Uninitialized,
    /// A file cannot be read.
    UnableToReadFile,
}

impl ErrorKind {
    /// The error in words.
    pub open spec fn words(self) -> Seq<char> {
        match self {
            ErrorKind::InvalidArgument => "other: invalid argument passed"@,
            ErrorKind::Uninitialized => "other: unitialized"@,
            ErrorKind::UnableToReadFile => "other: unable to read file"@,
        }
    }
}

/// The text of a `memflow::error::Error` that is made of an error kind alone. `Error::from` gives
/// it the origin `Other`, and its `to_string` puts the words of the origin, a colon and a space
/// before the words of the kind.
#[verifier::external_body]
fn kind_text(kind: ErrorKind) -> (r: String)
    ensures
        r@ == kind.words(),
{
    let kind = match kind {
        ErrorKind::InvalidArgument => memflow::error::ErrorKind::InvalidArgument,
        ErrorKind::Uninitialized => memflow::error::ErrorKind::Uninitialized,
        ErrorKind::UnableToReadFile => memflow::error::ErrorKind::UnableToReadFile,
    };
    memflow::error::Error::from(kind).to_string()
}

/// Why an operation failed.
#[derive(Debug)]
pub enum ScanflowError {
    /// The library refuses the request.
    Kind(ErrorKind),
    /// The memory could not be read or written; the text is what the memory reports.
    Memory(String),
}

impl ScanflowError {
    /// The error in words.
    pub open spec fn words(self) -> Seq<char> {
        match self {
            ScanflowError::Kind(kind) => kind.words(),
            ScanflowError::Memory(text) => text@,
        }
    }

    /// The error in words.
    pub fn message(&self) -> (r: String)
        ensures
            r@ == self.words(),
    {
        match self {
            ScanflowError::Kind(kind) => kind_text(*kind),
            ScanflowError::Memory(text) => owned(text.as_str()),
        }
    }
}

/// Takes what the memory reports as the error of an operation.
pub fn from_memory<V>(reply: Result<V, String>) -> (r: Result<V, ScanflowError>)
    ensures
        r == match reply {
            Ok(v) => Ok::<V, ScanflowError>(v),
            Err(text) => Err(ScanflowError::Memory(text)),
        },
{
    match reply {
        Ok(v) => Ok(v),
        Err(text) => Err(ScanflowError::Memory(text)),
    }
}

/// Whether a result is the refusal with a kind.
pub open spec fn refused<T>(r: Result<T, ScanflowError>, kind: ErrorKind) -> bool {
    r matches Err(e) && e == ScanflowError::Kind(kind)
}

/// A result is refused with a kind exactly where it is the error of that kind.
pub proof fn law_refused<T>(r: Result<T, ScanflowError>, kind: ErrorKind)
    ensures
        refused(r, kind) <==> r == Err::<T, ScanflowError>(ScanflowError::Kind(kind)),
{
}

/// An error says what its kind says, or what the memory reports.
pub proof fn law_error_words(kind: ErrorKind, text: String)
    ensures
        ScanflowError::Kind(kind).words() == kind.words(),
        ScanflowError::Memory(text).words() == text@,
        ErrorKind::InvalidArgument.words() == "other: invalid argument passed"@,
        ErrorKind::Uninitialized.words() == "other: unitialized"@,
        ErrorKind::UnableToReadFile.words() == "other: unable to read file"@,
{
}

} // verus!
