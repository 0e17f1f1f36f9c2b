//! Server-side HTTP/1.1 request decoding and the WebSocket upgrade
//! handshake.
//!
//! The library has two components, consumed in sequence by a connection
//! handler that owns the transport.  The request decoder
//! ([`request::decode_request`]) turns the raw bytes of one request into a
//! structured [`request::HttpRequest`], consuming exactly the request line,
//! the header section and the announced body — no more — or fails with a
//! typed error.  The handshake validator ([`handshake::handshake`]) decides
//! whether such a request is a legitimate WebSocket upgrade and, if it is,
//! computes the accept token and assembles the `101 Switching Protocols`
//! response ([`response::HttpResponse`]).
//!
//! Neither component touches a socket: both are pure transformations over
//! in-memory bytes, specified by mathematical functions over byte sequences
//! and proved to return exactly what those functions say.

pub mod ascii;
pub mod decimal;
pub mod error;
pub mod handshake;
pub mod headers;
pub mod method;
pub mod request;
pub mod response;
pub mod scan;
