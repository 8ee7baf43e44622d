//! Errors raised while decoding.
use vstd::prelude::*;

verus! {

#[verifier::external_type_specification]
#[verifier::external_body]
pub struct ExIoError(std::io::Error);

/// Error that can be raised during MP3 decoding.
#[derive(Debug)]
pub enum Error {
    /// An error during the MP3 decoding process.
    Mp3Error(Mp3Error),
    /// An I/O error reading the underlying stream.
    IoError(std::io::Error),
}

/// A fault in the data of an MP3 stream.
#[derive(Debug)]
pub enum Mp3Error {
    /// Invalid or unknown data was encountered when reading the stream.
    InvalidData(&'static str),
    /// An unsupported MP3 feature is used in this MP3 stream.
    Unsupported(&'static str),
}

/// The class of an error, as contracts speak of it.
#[derive(Debug, Clone, Copy, PartialEq, Eq, Structural)]
pub enum ErrorKind {
    Io,
    InvalidData,
    Unsupported,
}

impl Error {
    pub open spec fn kind(&self) -> ErrorKind {
        match self {
            Error::Mp3Error(Mp3Error::InvalidData(_)) => ErrorKind::InvalidData,
            Error::Mp3Error(Mp3Error::Unsupported(_)) => ErrorKind::Unsupported,
            Error::IoError(_) => ErrorKind::Io,
        }
    }

    /// The class of this error.
    pub fn error_kind(&self) -> (r: ErrorKind)
        ensures
            r == self.kind(),
    {
        match self {
            Error::Mp3Error(Mp3Error::InvalidData(_)) => ErrorKind::InvalidData,
            Error::Mp3Error(Mp3Error::Unsupported(_)) => ErrorKind::Unsupported,
            Error::IoError(_) => ErrorKind::Io,
        }
    }

    /// A text that describes this error.
    pub fn message(&self) -> &'static str {
        match self {
            Error::Mp3Error(Mp3Error::InvalidData(_)) => "Invalid data",
            Error::Mp3Error(Mp3Error::Unsupported(_)) => "Unsupported",
            Error::IoError(_) => "IO Error",
        }
    }
}

/// An `InvalidData` error with the given reason.
pub fn invalid(reason: &'static str) -> (r: Error)
    ensures
        r.kind() == ErrorKind::InvalidData,
{
    Error::Mp3Error(Mp3Error::InvalidData(reason))
}

/// An `Unsupported` error with the given reason.
pub fn unsupported(reason: &'static str) -> (r: Error)
    ensures
        r.kind() == ErrorKind::Unsupported,
{
    Error::Mp3Error(Mp3Error::Unsupported(reason))
}

/// Relies on std's `io::Error::from(ErrorKind::UnexpectedEof)`: the error that a
/// reader reports when the stream ends before a read is complete.
#[verifier::external_body]
pub(crate) fn end_of_stream() -> (r: Error)
    ensures
        r.kind() == ErrorKind::Io,
{
    Error::IoError(std::io::Error::from(std::io::ErrorKind::UnexpectedEof))
}

} // verus!
