//! Envelope records exchanged over the message bus.
//!
//! A request envelope names an HTTP call to make; a response envelope
//! carries what came back; an outcome envelope wraps either a response or an
//! error message together with a status whose ordinal is stable on the wire.
//! Text-valued fields (method, path, names, values, messages) are carried as
//! bytes: the wire is bytes, and the library never needs to see them as
//! anything else.

use vstd::prelude::*;

verus! {

/// A request to perform an HTTP call, as published on the bus.
#[derive(Debug, Clone, PartialEq, Eq)]
pub struct SerializableHttpRequest {
    /// HTTP method token, e.g. `GET`.
    pub method: Vec<u8>,
    /// Server-relative path; the executor prefixes `/api/v<version>/`.
    pub path: Vec<u8>,
    /// Query parameters, absent entirely when the caller sent none.
    pub query: Option<Vec<(Vec<u8>, Vec<u8>)>>,
    /// Request body, if any.
    pub body: Option<Vec<u8>>,
    /// Request headers.
    pub headers: Vec<(Vec<u8>, Vec<u8>)>,
    /// Per-request upper bound on the call, in milliseconds.
    pub timeout: Option<u64>,
}

/// What an HTTP call answered.
#[derive(Debug, Clone, PartialEq, Eq)]
pub struct SerializableHttpResponse {
    pub status: u16,
    pub headers: Vec<(Vec<u8>, Vec<u8>)>,
    /// The URL that was ultimately fetched.
    pub url: Vec<u8>,
    pub body: Vec<u8>,
}

/// Outcome classification with stable wire ordinals 0 through 8, in this
/// order. The ordinals are on the wire; `spec_status_code` pins them.
#[derive(Debug, Clone, Copy, PartialEq, Eq, Structural)]
pub enum ResponseStatus {
    Success,
    Unknown,
    InvalidRequestFormat,
    InvalidPath,
    InvalidQuery,
    InvalidMethod,
    InvalidHeaders,
    RequestFailure,
    RequestTimeout,
}

/// Where in the pipeline a request failed.
#[derive(Debug, Clone, Copy, PartialEq, Eq, Structural)]
pub enum ErrorKind {
    /// The envelope could not be decoded.
    Decode,
    /// The path was rejected.
    Path,
    /// The query string was rejected.
    Query,
    /// The method token was rejected.
    Method,
    /// A header name or value was rejected.
    Headers,
    /// The HTTP transport failed.
    Request,
    /// The deadline elapsed.
    Timeout,
    /// Anything else (for instance a broken limiter).
    Other,
}

/// The wire ordinal of each status.
pub open spec fn spec_status_code(s: ResponseStatus) -> u8 {
    match s {
        ResponseStatus::Success => 0,
        ResponseStatus::Unknown => 1,
        ResponseStatus::InvalidRequestFormat => 2,
        ResponseStatus::InvalidPath => 3,
        ResponseStatus::InvalidQuery => 4,
        ResponseStatus::InvalidMethod => 5,
        ResponseStatus::InvalidHeaders => 6,
        ResponseStatus::RequestFailure => 7,
        ResponseStatus::RequestTimeout => 8,
    }
}

/// The status named by a wire ordinal, if any.
pub open spec fn spec_status_from_code(c: u8) -> Option<ResponseStatus> {
    if c == 0 {
        Some(ResponseStatus::Success)
    } else if c == 1 {
        Some(ResponseStatus::Unknown)
    } else if c == 2 {
        Some(ResponseStatus::InvalidRequestFormat)
    } else if c == 3 {
        Some(ResponseStatus::InvalidPath)
    } else if c == 4 {
        Some(ResponseStatus::InvalidQuery)
    } else if c == 5 {
        Some(ResponseStatus::InvalidMethod)
    } else if c == 6 {
        Some(ResponseStatus::InvalidHeaders)
    } else if c == 7 {
        Some(ResponseStatus::RequestFailure)
    } else if c == 8 {
        Some(ResponseStatus::RequestTimeout)
    } else {
        None
    }
}

/// Reading back a written ordinal yields the status it came from.
pub proof fn lemma_status_code_roundtrip(s: ResponseStatus)
    ensures
        spec_status_from_code(spec_status_code(s)) == Some(s),
{
}

impl ResponseStatus {
    /// This status's wire ordinal.
    pub fn code(&self) -> (r: u8)
        ensures
            r == spec_status_code(*self),
    {
        match self {
            ResponseStatus::Success => 0,
            ResponseStatus::Unknown => 1,
            ResponseStatus::InvalidRequestFormat => 2,
            ResponseStatus::InvalidPath => 3,
            ResponseStatus::InvalidQuery => 4,
            ResponseStatus::InvalidMethod => 5,
            ResponseStatus::InvalidHeaders => 6,
            ResponseStatus::RequestFailure => 7,
            ResponseStatus::RequestTimeout => 8,
        }
    }

    /// The status a wire ordinal names; ordinals beyond 8 name none.
    pub fn from_code(c: u8) -> (r: Option<ResponseStatus>)
        ensures
            r == spec_status_from_code(c),
    {
        if c == 0 {
            Some(ResponseStatus::Success)
        } else if c == 1 {
            Some(ResponseStatus::Unknown)
        } else if c == 2 {
            Some(ResponseStatus::InvalidRequestFormat)
        } else if c == 3 {
            Some(ResponseStatus::InvalidPath)
        } else if c == 4 {
            Some(ResponseStatus::InvalidQuery)
        } else if c == 5 {
            Some(ResponseStatus::InvalidMethod)
        } else if c == 6 {
            Some(ResponseStatus::InvalidHeaders)
        } else if c == 7 {
            Some(ResponseStatus::RequestFailure)
        } else if c == 8 {
            Some(ResponseStatus::RequestTimeout)
        } else {
            None
        }
    }

    /// Classify a failure's origin, as the outcome envelope reports it.
    pub fn from_error_kind(k: ErrorKind) -> (r: ResponseStatus)
        ensures
            r == spec_status_for_kind(k),
    {
        match k {
            ErrorKind::Decode => ResponseStatus::InvalidRequestFormat,
            ErrorKind::Path => ResponseStatus::InvalidPath,
            ErrorKind::Query => ResponseStatus::InvalidQuery,
            ErrorKind::Method => ResponseStatus::InvalidMethod,
            ErrorKind::Headers => ResponseStatus::InvalidHeaders,
            ErrorKind::Request => ResponseStatus::RequestFailure,
            ErrorKind::Timeout => ResponseStatus::RequestTimeout,
            ErrorKind::Other => ResponseStatus::Unknown,
        }
    }
}

pub open spec fn spec_status_for_kind(k: ErrorKind) -> ResponseStatus {
    match k {
        ErrorKind::Decode => ResponseStatus::InvalidRequestFormat,
        ErrorKind::Path => ResponseStatus::InvalidPath,
        ErrorKind::Query => ResponseStatus::InvalidQuery,
        ErrorKind::Method => ResponseStatus::InvalidMethod,
        ErrorKind::Headers => ResponseStatus::InvalidHeaders,
        ErrorKind::Request => ResponseStatus::RequestFailure,
        ErrorKind::Timeout => ResponseStatus::RequestTimeout,
        ErrorKind::Other => ResponseStatus::Unknown,
    }
}

/// An outcome's payload: the response, or a human-readable error message.
#[derive(Debug, Clone, PartialEq, Eq)]
pub enum RequestResponseBody<T> {
    Success(T),
    Error(Vec<u8>),
}

/// What is replied on the bus for every handled request.
#[derive(Debug, Clone, PartialEq, Eq)]
pub struct RequestResponse<T> {
    pub status: ResponseStatus,
    pub body: RequestResponseBody<T>,
}

impl<T> RequestResponse<T> {
    /// Wrap a request's result: success carries the value under `Success`;
    /// a failure carries its message under the status its kind names.
    pub fn from_outcome(res: Result<T, (ErrorKind, Vec<u8>)>) -> (r: Self)
        ensures
            match res {
                Ok(t) => r.status == ResponseStatus::Success && r.body
                    == RequestResponseBody::Success(t),
                Err(e) => r.status == spec_status_for_kind(e.0) && r.body
                    == RequestResponseBody::<T>::Error(e.1),
            },
    {
        match res {
            Ok(t) => RequestResponse {
                status: ResponseStatus::Success,
                body: RequestResponseBody::Success(t),
            },
            Err((kind, msg)) => RequestResponse {
                status: ResponseStatus::from_error_kind(kind),
                body: RequestResponseBody::Error(msg),
            },
        }
    }
}

} // verus!
