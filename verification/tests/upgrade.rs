//! Tests of the handshake validator and the response serialization.

use websockets::error::HttpError;
use websockets::handshake::{accept_token, handshake};
use websockets::headers::Headers;
use websockets::method::HttpMethod;
use websockets::request::{decode_request, HttpRequest};
use websockets::response::{HttpResponse, HttpStatus};

fn upgrade_request() -> HttpRequest {
    let mut headers = Headers::new();
    headers.insert(b"Connection", b"Upgrade");
    headers.insert(b"Sec-WebSocket-Key", b"dGhlIHNhbXBsZSBub25jZQ==");
    headers.insert(b"Sec-WebSocket-Protocol", b"chat");
    HttpRequest {
        method: HttpMethod::Get,
        target: b"/".to_vec(),
        http_version: b"HTTP/1.1".to_vec(),
        headers,
        body: Vec::new(),
    }
}

#[test]
fn accept_token_matches_canonical_example() {
    // The canonical example: this key must yield exactly this token.
    let token = accept_token(b"dGhlIHNhbXBsZSBub25jZQ==");
    assert_eq!(token, b"s3pPLMBiTxaQ9kYGzzhZRbK+xOo=".to_vec());
}

#[test]
fn accept_token_is_deterministic() {
    let a = accept_token(b"AQIDBAUGBwgJCgsMDQ4PEC==");
    let b = accept_token(b"AQIDBAUGBwgJCgsMDQ4PEC==");
    assert_eq!(a, b);
    let c = accept_token(b"another-key-entirely====");
    assert_ne!(a, c);
}

#[test]
fn valid_upgrade_is_accepted() {
    let req = upgrade_request();
    let resp = handshake(&req, true).unwrap();
    assert_eq!(resp.status, HttpStatus::SwitchingProtocols);
    assert_eq!(resp.headers.get(b"upgrade"), Some(&b"websocket".to_vec()));
    assert_eq!(resp.headers.get(b"connection"), Some(&b"Upgrade".to_vec()));
    assert_eq!(
        resp.headers.get(b"sec-websocket-accept"),
        Some(&b"s3pPLMBiTxaQ9kYGzzhZRbK+xOo=".to_vec())
    );
    assert_eq!(
        resp.headers.get(b"sec-websocket-protocol"),
        Some(&b"chat".to_vec())
    );
    assert!(resp.body.is_empty());
}

#[test]
fn decoded_upgrade_request_is_accepted() {
    let input = b"GET /chat HTTP/1.1\r\nHost: server.example.com\r\nConnection: Upgrade\r\nSec-WebSocket-Key: dGhlIHNhbXBsZSBub25jZQ==\r\nSec-WebSocket-Protocol: chat\r\n\r\n";
    let (req, _) = decode_request(input).unwrap();
    let resp = handshake(&req, true).unwrap();
    assert_eq!(
        resp.headers.get(b"sec-websocket-accept"),
        Some(&b"s3pPLMBiTxaQ9kYGzzhZRbK+xOo=".to_vec())
    );
}

#[test]
fn post_is_rejected_with_invalid_method() {
    let mut req = upgrade_request();
    req.method = HttpMethod::Post;
    assert_eq!(handshake(&req, true).unwrap_err(), HttpError::InvalidMethod);
}

#[test]
fn keep_alive_connection_is_rejected_with_invalid_upgrade() {
    let mut req = upgrade_request();
    req.headers.insert(b"Connection", b"keep-alive");
    assert_eq!(
        handshake(&req, true).unwrap_err(),
        HttpError::InvalidUpgrade
    );
}

#[test]
fn missing_connection_is_rejected_with_invalid_upgrade() {
    let mut headers = Headers::new();
    headers.insert(b"Sec-WebSocket-Key", b"dGhlIHNhbXBsZSBub25jZQ==");
    headers.insert(b"Sec-WebSocket-Protocol", b"chat");
    let req = HttpRequest {
        method: HttpMethod::Get,
        target: b"/".to_vec(),
        http_version: b"HTTP/1.1".to_vec(),
        headers,
        body: Vec::new(),
    };
    assert_eq!(
        handshake(&req, true).unwrap_err(),
        HttpError::InvalidUpgrade
    );
}

#[test]
fn connection_value_is_case_insensitive() {
    let mut req = upgrade_request();
    req.headers.insert(b"Connection", b"UPGRADE");
    assert!(handshake(&req, true).is_ok());
}

#[test]
fn missing_key_is_rejected_with_invalid_header() {
    let mut headers = Headers::new();
    headers.insert(b"Connection", b"Upgrade");
    headers.insert(b"Sec-WebSocket-Protocol", b"chat");
    let req = HttpRequest {
        method: HttpMethod::Get,
        target: b"/".to_vec(),
        http_version: b"HTTP/1.1".to_vec(),
        headers,
        body: Vec::new(),
    };
    assert_eq!(handshake(&req, true).unwrap_err(), HttpError::InvalidHeader);
}

#[test]
fn missing_protocol_rejected_only_when_required() {
    let mut headers = Headers::new();
    headers.insert(b"Connection", b"Upgrade");
    headers.insert(b"Sec-WebSocket-Key", b"dGhlIHNhbXBsZSBub25jZQ==");
    let req = HttpRequest {
        method: HttpMethod::Get,
        target: b"/".to_vec(),
        http_version: b"HTTP/1.1".to_vec(),
        headers,
        body: Vec::new(),
    };
    assert_eq!(handshake(&req, true).unwrap_err(), HttpError::InvalidHeader);
    let resp = handshake(&req, false).unwrap();
    assert_eq!(resp.headers.get(b"sec-websocket-protocol"), None);
    assert_eq!(
        resp.headers.get(b"sec-websocket-accept"),
        Some(&b"s3pPLMBiTxaQ9kYGzzhZRbK+xOo=".to_vec())
    );
}

#[test]
fn response_serializes_status_headers_and_body() {
    let mut resp = HttpResponse::new(HttpStatus::Okay);
    resp.add_header(b"X-One", b"first");
    resp.add_body(b"hi");
    let wire = resp.to_bytes();
    assert_eq!(
        wire,
        b"HTTP/1.1 200 OK\r\nx-one: first\r\ncontent-length: 2\r\n\r\nhi".to_vec()
    );
}

#[test]
fn add_body_sets_content_length() {
    let mut resp = HttpResponse::new(HttpStatus::Okay);
    resp.add_body(b"hello");
    assert_eq!(resp.headers.get(b"content-length"), Some(&b"5".to_vec()));
    resp.add_body(b"");
    assert_eq!(resp.headers.get(b"content-length"), Some(&b"0".to_vec()));
}

#[test]
fn add_header_lower_cases_and_overwrites() {
    let mut resp = HttpResponse::new(HttpStatus::Okay);
    resp.add_header(b"X-Token", b"a");
    resp.add_header(b"x-TOKEN", b"b");
    assert_eq!(resp.headers.get(b"x-token"), Some(&b"b".to_vec()));
    let matching = resp
        .headers
        .entries()
        .iter()
        .filter(|(k, _)| k.as_slice() == b"x-token")
        .count();
    assert_eq!(matching, 1);
}

#[test]
fn status_lines_render() {
    assert_eq!(
        HttpStatus::SwitchingProtocols.as_str(),
        "101 Switching Protocols"
    );
    assert_eq!(HttpStatus::Okay.as_str(), "200 OK");
    assert_eq!(HttpStatus::BadRequest.as_str(), "400 Bad Request");
    assert_eq!(HttpStatus::NotFound.as_str(), "404 Not Found");
}

#[test]
fn upgrade_response_serializes_to_switching_protocols() {
    let req = upgrade_request();
    let resp = handshake(&req, true).unwrap();
    let wire = resp.to_bytes();
    assert!(wire.starts_with(&b"HTTP/1.1 101 Switching Protocols\r\n"[..]));
    assert!(wire.ends_with(&b"\r\n\r\n"[..]));
}
