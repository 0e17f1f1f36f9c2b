//! The closed set of HTTP methods and the case-insensitive resolution of a
//! method token against it.

use vstd::prelude::*;
use vstd::string::StrSliceExecFns;
use vstd::string::StringSliceAdditionalSpecFns;

use crate::ascii;
use crate::error::HttpError;
use crate::scan;

verus! {

/// An HTTP request method.
#[derive(Debug, Clone, Copy, PartialEq, Eq, Structural)]
pub enum HttpMethod {
    Get,
    Head,
    Post,
    Put,
    Delete,
    Connect,
    Options,
    Trace,
}

/// The canonical (upper-case) wire token of a method, as bytes.
pub open spec fn token_bytes(m: HttpMethod) -> Seq<u8> {
    match m {
        HttpMethod::Get => "GET".spec_bytes(),
        HttpMethod::Head => "HEAD".spec_bytes(),
        HttpMethod::Post => "POST".spec_bytes(),
        HttpMethod::Put => "PUT".spec_bytes(),
        HttpMethod::Delete => "DELETE".spec_bytes(),
        HttpMethod::Connect => "CONNECT".spec_bytes(),
        HttpMethod::Options => "OPTIONS".spec_bytes(),
        HttpMethod::Trace => "TRACE".spec_bytes(),
    }
}

/// The method a token resolves to under ASCII case-insensitive comparison,
/// if any.
pub open spec fn spec_parse_method(t: Seq<u8>) -> Option<HttpMethod> {
    if ascii::lower(t) == ascii::lower(token_bytes(HttpMethod::Get)) {
        Some(HttpMethod::Get)
    } else if ascii::lower(t) == ascii::lower(token_bytes(HttpMethod::Head)) {
        Some(HttpMethod::Head)
    } else if ascii::lower(t) == ascii::lower(token_bytes(HttpMethod::Post)) {
        Some(HttpMethod::Post)
    } else if ascii::lower(t) == ascii::lower(token_bytes(HttpMethod::Put)) {
        Some(HttpMethod::Put)
    } else if ascii::lower(t) == ascii::lower(token_bytes(HttpMethod::Delete)) {
        Some(HttpMethod::Delete)
    } else if ascii::lower(t) == ascii::lower(token_bytes(HttpMethod::Connect)) {
        Some(HttpMethod::Connect)
    } else if ascii::lower(t) == ascii::lower(token_bytes(HttpMethod::Options)) {
        Some(HttpMethod::Options)
    } else if ascii::lower(t) == ascii::lower(token_bytes(HttpMethod::Trace)) {
        Some(HttpMethod::Trace)
    } else {
        None
    }
}

impl HttpMethod {
    /// Resolves a method token case-insensitively against the closed method
    /// set; an unrecognized token is a recoverable `InvalidMethod` error.
    pub fn parse(t: &[u8]) -> (r: Result<HttpMethod, HttpError>)
        ensures
            r == match spec_parse_method(t@) {
                Some(m) => Ok::<HttpMethod, HttpError>(m),
                None => Err::<HttpMethod, HttpError>(HttpError::InvalidMethod),
            },
    {
        let low = ascii::to_lower(t);
        if scan::bytes_eq(low.as_slice(), ascii::to_lower("GET".as_bytes_vec().as_slice()).as_slice()) {
            Ok(HttpMethod::Get)
        } else if scan::bytes_eq(low.as_slice(), ascii::to_lower("HEAD".as_bytes_vec().as_slice()).as_slice()) {
            Ok(HttpMethod::Head)
        } else if scan::bytes_eq(low.as_slice(), ascii::to_lower("POST".as_bytes_vec().as_slice()).as_slice()) {
            Ok(HttpMethod::Post)
        } else if scan::bytes_eq(low.as_slice(), ascii::to_lower("PUT".as_bytes_vec().as_slice()).as_slice()) {
            Ok(HttpMethod::Put)
        } else if scan::bytes_eq(low.as_slice(), ascii::to_lower("DELETE".as_bytes_vec().as_slice()).as_slice()) {
            Ok(HttpMethod::Delete)
        } else if scan::bytes_eq(low.as_slice(), ascii::to_lower("CONNECT".as_bytes_vec().as_slice()).as_slice()) {
            Ok(HttpMethod::Connect)
        } else if scan::bytes_eq(low.as_slice(), ascii::to_lower("OPTIONS".as_bytes_vec().as_slice()).as_slice()) {
            Ok(HttpMethod::Options)
        } else if scan::bytes_eq(low.as_slice(), ascii::to_lower("TRACE".as_bytes_vec().as_slice()).as_slice()) {
            Ok(HttpMethod::Trace)
        } else {
            Err(HttpError::InvalidMethod)
        }
    }

    /// The canonical wire token of the method.
    pub fn name(&self) -> (r: &'static str)
        ensures
            r.spec_bytes() == token_bytes(*self),
    {
        match self {
            HttpMethod::Get => "GET",
            HttpMethod::Head => "HEAD",
            HttpMethod::Post => "POST",
            HttpMethod::Put => "PUT",
            HttpMethod::Delete => "DELETE",
            HttpMethod::Connect => "CONNECT",
            HttpMethod::Options => "OPTIONS",
            HttpMethod::Trace => "TRACE",
        }
    }
}

/// Decoding a method token and re-serializing the method gives back the
/// original token up to ASCII case.
pub proof fn lemma_method_round_trip(t: Seq<u8>, m: HttpMethod)
    requires
        spec_parse_method(t) == Some(m),
    ensures
        ascii::lower(token_bytes(m)) == ascii::lower(t),
{
}

} // verus!
