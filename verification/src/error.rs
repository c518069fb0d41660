//! What can go wrong.

use reqwest::header::{HeaderMap, HeaderValue};
use vstd::prelude::*;

use crate::header_map;
use crate::status::StatusCode;

verus! {

/// A response of the source that does not answer the request.
#[derive(Debug)]
pub struct BackendError {
    /// What is wrong with the response.
    pub message: String,
    /// The status code of the response.
    pub status_code: Option<StatusCode>,
    /// The header of the response.
    pub header: Option<HeaderMap<HeaderValue>>,
}

/// The errors of this library.
#[derive(Debug)]
pub enum Error {
    /// A header name, a header value or a Range header cannot be parsed.
    ParseError,
    /// There are more header names than a header map can hold.
    MaxSizeReached,
    /// A Range header holds no range.
    EmptyHTTPRangeError,
    /// A header contradicts what the request declares.
    ValidationError(String),
    /// The source answered with something else than what was requested.
    BackendError(Box<BackendError>),
}

/// An [`Error`], with the texts and headers that it holds as mathematical values.
pub enum Failure {
    /// See [`Error::ParseError`].
    Parse,
    /// See [`Error::MaxSizeReached`].
    MaxSize,
    /// See [`Error::EmptyHTTPRangeError`].
    EmptyRange,
    /// See [`Error::ValidationError`].
    Validation(Seq<char>),
    /// See [`Error::BackendError`].
    Backend(Seq<char>, Option<u16>, Option<Map<Seq<char>, Seq<Seq<u8>>>>),
}

impl View for Error {
    type V = Failure;

    open spec fn view(&self) -> Failure {
        match *self {
            Error::ParseError => Failure::Parse,
            Error::MaxSizeReached => Failure::MaxSize,
            Error::EmptyHTTPRangeError => Failure::EmptyRange,
            Error::ValidationError(message) => Failure::Validation(message@),
            Error::BackendError(e) => Failure::Backend(
                e.message@,
                match e.status_code {
                    Some(status) => Some(status@),
                    None => None,
                },
                match e.header {
                    Some(header) => Some(header_map::header_values(header)),
                    None => None,
                },
            ),
        }
    }
}

/// A result of this library, with its error as a mathematical value.
pub open spec fn outcome<T>(r: Result<T, Error>) -> Result<T, Failure> {
    match r {
        Ok(value) => Ok(value),
        Err(e) => Err(e@),
    }
}

} // verus!
