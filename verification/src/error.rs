//! What can go wrong while encoding or decoding.
use vstd::prelude::*;
use vstd::std_specs::convert::FromSpecImpl;

verus! {

/// `std::io::Error`, carried as it is.
#[verifier::external_type_specification]
#[verifier::external_body]
pub struct ExIoError(std::io::Error);

/// `std::fmt::Error`, carried as it is.
#[verifier::external_type_specification]
#[verifier::external_body]
pub struct ExFmtError(std::fmt::Error);

/// Errors that may occur while encoding or decoding server-sent event
/// messages.
#[derive(Debug)]
pub enum Error {
    /// An I/O error occurred while reading or writing a stream.
    IoError(std::io::Error),
    /// Incoming data is not valid utf-8.
    Utf8Error(std::str::Utf8Error),
    /// An error occurred while writing an event message.
    FmtError(std::fmt::Error),
    /// Tried to read an incomplete frame.
    IncompleteFrame,
}

impl From<std::io::Error> for Error {
    fn from(err: std::io::Error) -> (made: Self) {
        Error::IoError(err)
    }
}

impl FromSpecImpl<std::io::Error> for Error {
    open spec fn obeys_from_spec() -> bool {
        true
    }

    open spec fn from_spec(err: std::io::Error) -> Self {
        Error::IoError(err)
    }
}

impl From<std::fmt::Error> for Error {
    fn from(err: std::fmt::Error) -> (made: Self) {
        Error::FmtError(err)
    }
}

impl FromSpecImpl<std::fmt::Error> for Error {
    open spec fn obeys_from_spec() -> bool {
        true
    }

    open spec fn from_spec(err: std::fmt::Error) -> Self {
        Error::FmtError(err)
    }
}

impl From<std::str::Utf8Error> for Error {
    fn from(err: std::str::Utf8Error) -> (made: Self) {
        Error::Utf8Error(err)
    }
}

impl FromSpecImpl<std::str::Utf8Error> for Error {
    open spec fn obeys_from_spec() -> bool {
        true
    }

    open spec fn from_spec(err: std::str::Utf8Error) -> Self {
        Error::Utf8Error(err)
    }
}

impl Error {
    /// The error in words: what the error inside says of itself, or
    /// "incomplete frame".
    pub fn to_string(&self) -> (text: String)
        ensures
            self is IncompleteFrame ==> text@ == "incomplete frame"@,
    {
        match self {
            Error::IoError(inner) => inner.to_string(),
            Error::Utf8Error(inner) => inner.to_string(),
            Error::FmtError(inner) => inner.to_string(),
            Error::IncompleteFrame => "incomplete frame".to_owned(),
        }
    }
}

} // verus!
