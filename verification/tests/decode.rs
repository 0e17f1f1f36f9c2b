//! Tests of the request decoder.

use websockets::error::{DecodeError, HttpError, TransportError};
use websockets::method::HttpMethod;
use websockets::request::decode_request;

#[test]
fn basic_get_request() {
    let input = b"GET /chat HTTP/1.1\r\nHost: example.com\r\n\r\n";
    let (req, n) = decode_request(input).unwrap();
    assert_eq!(req.method, HttpMethod::Get);
    assert_eq!(req.target, b"/chat".to_vec());
    assert_eq!(req.http_version, b"HTTP/1.1".to_vec());
    assert_eq!(req.headers.get(b"host"), Some(&b"example.com".to_vec()));
    assert!(req.body.is_empty());
    assert_eq!(n, input.len());
}

#[test]
fn lf_only_termination_tolerated() {
    let input = b"GET / HTTP/1.1\nHost: a\n\n";
    let (req, n) = decode_request(input).unwrap();
    assert_eq!(req.method, HttpMethod::Get);
    assert_eq!(req.http_version, b"HTTP/1.1".to_vec());
    assert_eq!(req.headers.get(b"host"), Some(&b"a".to_vec()));
    assert_eq!(n, input.len());
}

#[test]
fn method_case_insensitive_round_trip() {
    let input = b"gEt / HTTP/1.1\r\n\r\n";
    let (req, _) = decode_request(input).unwrap();
    assert_eq!(req.method, HttpMethod::Get);
    // Re-serializing the method gives the original token up to case.
    assert_eq!(req.method.name(), "GET");
}

#[test]
fn no_content_length_consumes_zero_body_bytes() {
    let input = b"GET / HTTP/1.1\r\nHost: a\r\n\r\nEXTRA";
    let (req, n) = decode_request(input).unwrap();
    assert!(req.body.is_empty());
    assert_eq!(n, input.len() - 5);
}

#[test]
fn body_of_exact_announced_length() {
    let input = b"POST /submit HTTP/1.1\r\nContent-Length: 5\r\n\r\nhelloEXTRA";
    let (req, n) = decode_request(input).unwrap();
    assert_eq!(req.method, HttpMethod::Post);
    assert_eq!(req.body, b"hello".to_vec());
    assert_eq!(n, input.len() - 5);
}

#[test]
fn short_body_is_transport_error() {
    let input = b"POST / HTTP/1.1\r\nContent-Length: 10\r\n\r\nhi";
    let err = decode_request(input).unwrap_err();
    assert_eq!(err, DecodeError::Transport(TransportError::UnexpectedEof));
}

#[test]
fn non_numeric_content_length_is_transport_error() {
    let input = b"POST / HTTP/1.1\r\nContent-Length: abc\r\n\r\n";
    let err = decode_request(input).unwrap_err();
    assert_eq!(
        err,
        DecodeError::Transport(TransportError::InvalidContentLength)
    );
}

#[test]
fn huge_content_length_is_transport_error() {
    let input = b"POST / HTTP/1.1\r\nContent-Length: 99999999999999999999999999\r\n\r\n";
    let err = decode_request(input).unwrap_err();
    assert_eq!(
        err,
        DecodeError::Transport(TransportError::InvalidContentLength)
    );
}

#[test]
fn duplicate_headers_differing_in_case_keep_last_value() {
    let input = b"GET / HTTP/1.1\r\nX-Token: a\r\nx-TOKEN: b\r\n\r\n";
    let (req, _) = decode_request(input).unwrap();
    assert_eq!(req.headers.get(b"x-token"), Some(&b"b".to_vec()));
    // Exactly one stored entry has that (fully lower-cased) name.
    let matching = req
        .headers
        .entries()
        .iter()
        .filter(|(k, _)| k.as_slice() == b"x-token")
        .count();
    assert_eq!(matching, 1);
}

#[test]
fn unknown_method_is_invalid_method() {
    let input = b"FOO / HTTP/1.1\r\n\r\n";
    let err = decode_request(input).unwrap_err();
    assert_eq!(err, DecodeError::Http(HttpError::InvalidMethod));
}

#[test]
fn empty_request_line_is_invalid_method() {
    let input = b"\r\n\r\n";
    let err = decode_request(input).unwrap_err();
    assert_eq!(err, DecodeError::Http(HttpError::InvalidMethod));
}

#[test]
fn missing_target_is_invalid_target() {
    let input = b"GET\r\n\r\n";
    let err = decode_request(input).unwrap_err();
    assert_eq!(err, DecodeError::Http(HttpError::InvalidTarget));
}

#[test]
fn missing_version_is_invalid_version() {
    let input = b"GET /\r\n\r\n";
    let err = decode_request(input).unwrap_err();
    assert_eq!(err, DecodeError::Http(HttpError::InvalidVersion));
}

#[test]
fn header_line_without_delimiter_is_invalid_header() {
    let input = b"GET / HTTP/1.1\r\nbogus-line\r\n\r\n";
    let err = decode_request(input).unwrap_err();
    assert_eq!(err, DecodeError::Http(HttpError::InvalidHeader));
}

#[test]
fn input_without_line_feed_is_transport_error() {
    let input = b"GET / HTTP/1.1";
    let err = decode_request(input).unwrap_err();
    assert_eq!(err, DecodeError::Transport(TransportError::UnexpectedEof));
}

#[test]
fn input_ending_inside_headers_is_transport_error() {
    let input = b"GET / HTTP/1.1\r\nHost: a\r\n";
    let err = decode_request(input).unwrap_err();
    assert_eq!(err, DecodeError::Transport(TransportError::UnexpectedEof));
}

#[test]
fn header_value_keeps_inner_case_and_spaces() {
    let input = b"GET / HTTP/1.1\r\nUser-Agent: My Agent/1.0 (X)\r\n\r\n";
    let (req, _) = decode_request(input).unwrap();
    assert_eq!(
        req.headers.get(b"user-agent"),
        Some(&b"My Agent/1.0 (X)".to_vec())
    );
}

#[test]
fn all_methods_parse() {
    for (tok, m) in [
        ("GET", HttpMethod::Get),
        ("HEAD", HttpMethod::Head),
        ("POST", HttpMethod::Post),
        ("PUT", HttpMethod::Put),
        ("DELETE", HttpMethod::Delete),
        ("CONNECT", HttpMethod::Connect),
        ("OPTIONS", HttpMethod::Options),
        ("TRACE", HttpMethod::Trace),
    ] {
        assert_eq!(HttpMethod::parse(tok.as_bytes()), Ok(m));
        assert_eq!(HttpMethod::parse(tok.to_lowercase().as_bytes()), Ok(m));
        assert_eq!(m.name(), tok);
    }
    assert_eq!(
        HttpMethod::parse(b"PATCH"),
        Err(HttpError::InvalidMethod)
    );
}

#[test]
fn error_messages_render() {
    assert_eq!(HttpError::InvalidMethod.message(), "Invalid HTTP method");
    assert_eq!(HttpError::InvalidTarget.message(), "Invalid HTTP target");
    assert_eq!(HttpError::InvalidVersion.message(), "Invalid HTTP version");
    assert_eq!(HttpError::InvalidHeader.message(), "Invalid HTTP header");
    assert_eq!(HttpError::InvalidUpgrade.message(), "Invalid HTTP upgrade");
}
