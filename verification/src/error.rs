//! The error taxonomy: recoverable protocol errors, transport-level
//! failures, and their union as produced by the request decoder.

use vstd::prelude::*;

verus! {

/// A recoverable protocol error: the request or the handshake is malformed,
/// and the caller can answer it with an HTTP error response.
#[derive(Debug, Clone, Copy, PartialEq, Eq, Structural)]
pub enum HttpError {
    InvalidMethod,
    InvalidTarget,
    InvalidVersion,
    InvalidHeader,
    InvalidUpgrade,
}

impl HttpError {
    /// A human-readable rendering of the error.
    pub fn message(&self) -> (r: &'static str)
        ensures
            r@ == match self {
                HttpError::InvalidMethod => "Invalid HTTP method"@,
                HttpError::InvalidTarget => "Invalid HTTP target"@,
                HttpError::InvalidVersion => "Invalid HTTP version"@,
                HttpError::InvalidHeader => "Invalid HTTP header"@,
                HttpError::InvalidUpgrade => "Invalid HTTP upgrade"@,
            },
    {
        match self {
            HttpError::InvalidMethod => "Invalid HTTP method",
            HttpError::InvalidTarget => "Invalid HTTP target",
            HttpError::InvalidVersion => "Invalid HTTP version",
            HttpError::InvalidHeader => "Invalid HTTP header",
            HttpError::InvalidUpgrade => "Invalid HTTP upgrade",
        }
    }
}

/// A transport-level failure: the stream ended before the bytes the request
/// announced, or the announced body length is not a number.  Distinct from
/// the protocol errors above; a caller closes the connection rather than
/// answering it.
#[derive(Debug, Clone, Copy, PartialEq, Eq, Structural)]
pub enum TransportError {
    /// The input ended inside the request head or before the announced body.
    UnexpectedEof,
    /// The `content-length` value is not a decimal number that fits.
    InvalidContentLength,
}

/// What the request decoder can fail with.
#[derive(Debug, Clone, Copy, PartialEq, Eq, Structural)]
pub enum DecodeError {
    /// A malformed request: answerable with an HTTP error response.
    Http(HttpError),
    /// A failure of the byte stream itself: the connection is closed.
    Transport(TransportError),
}

} // verus!
