//! The WebSocket handshake validator and responder.
//!
//! Given a decoded request, decides whether it is a legitimate WebSocket
//! upgrade and, if so, computes the accept token — the Base64 encoding of
//! the SHA-1 digest of the handshake key concatenated with the fixed magic
//! GUID — and assembles the `101 Switching Protocols` response.
//!
//! Requiring a `sec-websocket-protocol` header is a configuration choice
//! (`require_subprotocol`): the header is optional in the WebSocket
//! protocol, but a deployment that multiplexes handlers by subprotocol may
//! insist on it.

use vstd::prelude::*;
use vstd::string::StrSliceExecFns;
use vstd::string::StringSliceAdditionalSpecFns;

use sha1::Digest;

use crate::ascii;
use crate::error::HttpError;
use crate::method::HttpMethod;
use crate::request::HttpRequest;
use crate::request::RequestModel;
use crate::response::HttpResponse;
use crate::response::HttpStatus;
use crate::scan;

verus! {

/// The SHA-1 digest (20 bytes) of a byte sequence.  The digest is a fixed
/// function of the input alone; its definition is left to the hash crate.
pub uninterp spec fn sha1_of(data: Seq<u8>) -> Seq<u8>;

/// The standard Base64 encoding (with padding) of a byte sequence.  The
/// encoding is a fixed function of the input alone; its definition is left
/// to the encoding crate.
pub uninterp spec fn base64_of(data: Seq<u8>) -> Seq<u8>;

/// Relies on `sha1::Sha1::digest` (through the `Digest` trait): the SHA-1
/// digest of the input, always 20 bytes, a function of the input alone.
#[verifier::external_body]
fn sha1_digest(data: &[u8]) -> (r: Vec<u8>)
    ensures
        r@ == sha1_of(data@),
        r@.len() == 20,
{
    sha1::Sha1::digest(data).to_vec()
}

/// Relies on `base64::Engine::encode` with the `STANDARD` engine: standard
/// alphabet, padded, four output bytes for every three input bytes begun, a
/// function of the input alone.  The length bound keeps the engine's output
/// size computation from overflowing.
#[verifier::external_body]
fn base64_encode(data: &[u8]) -> (r: Vec<u8>)
    requires
        data@.len() <= usize::MAX / 4,
    ensures
        r@ == base64_of(data@),
        r@.len() == 4 * ((data@.len() + 2) / 3),
{
    base64::Engine::encode(&base64::engine::general_purpose::STANDARD, data).into_bytes()
}

/// The fixed magic GUID appended to the handshake key.
pub open spec fn guid_bytes() -> Seq<u8> {
    "258EAFA5-E914-47DA-95CA-C5AB0DC85B11".spec_bytes()
}

/// The accept token of a handshake key: Base64 of SHA-1 of the key followed
/// by the magic GUID.
pub open spec fn spec_accept_token(key: Seq<u8>) -> Seq<u8> {
    base64_of(sha1_of(key + guid_bytes()))
}

/// Computes the accept token of a handshake key.
pub fn accept_token(key: &[u8]) -> (r: Vec<u8>)
    ensures
        r@ == spec_accept_token(key@),
{
    let mut buf = scan::copy_range(key, 0, key.len());
    proof {
        assert(buf@ =~= key@);
    }
    scan::append_bytes(&mut buf, "258EAFA5-E914-47DA-95CA-C5AB0DC85B11".as_bytes());
    let digest = sha1_digest(buf.as_slice());
    base64_encode(digest.as_slice())
}

/// The same handshake key always yields the same accept token.
pub proof fn lemma_accept_token_deterministic(k1: Seq<u8>, k2: Seq<u8>)
    requires
        k1 == k2,
    ensures
        spec_accept_token(k1) == spec_accept_token(k2),
{
}

/// The lower-cased name of the connection-options header.
pub open spec fn connection_key() -> Seq<u8> {
    ascii::lower("connection".spec_bytes())
}

/// The token the connection header must equal, up to ASCII case.
pub open spec fn upgrade_token() -> Seq<u8> {
    ascii::lower("upgrade".spec_bytes())
}

/// The lower-cased name of the handshake-key header.
pub open spec fn ws_key_key() -> Seq<u8> {
    ascii::lower("sec-websocket-key".spec_bytes())
}

/// The lower-cased name of the subprotocol header.
pub open spec fn ws_protocol_key() -> Seq<u8> {
    ascii::lower("sec-websocket-protocol".spec_bytes())
}

/// The lower-cased name of the accept-token header.
pub open spec fn ws_accept_key() -> Seq<u8> {
    ascii::lower("sec-websocket-accept".spec_bytes())
}

/// What the handshake validator decides for a request: the accept token and
/// the echoed subprotocol (if one was offered), or the rejection reason.
///
/// The checks, in order: the method must be GET (`InvalidMethod`); a
/// `connection` header must be present and equal `upgrade` up to ASCII case
/// (`InvalidUpgrade`); a `sec-websocket-key` header must be present
/// (`InvalidHeader`); and, when `require_subprotocol` is set, a
/// `sec-websocket-protocol` header must be present (`InvalidHeader`).
pub open spec fn spec_handshake(m: RequestModel, require_subprotocol: bool) -> Result<
    (Seq<u8>, Option<Seq<u8>>),
    HttpError,
> {
    if m.method != HttpMethod::Get {
        Err(HttpError::InvalidMethod)
    } else if !m.headers.contains_key(connection_key()) || ascii::lower(
        m.headers[connection_key()],
    ) != upgrade_token() {
        Err(HttpError::InvalidUpgrade)
    } else if !m.headers.contains_key(ws_key_key()) {
        Err(HttpError::InvalidHeader)
    } else if require_subprotocol && !m.headers.contains_key(ws_protocol_key()) {
        Err(HttpError::InvalidHeader)
    } else {
        Ok(
            (
                spec_accept_token(m.headers[ws_key_key()]),
                if m.headers.contains_key(ws_protocol_key()) {
                    Some(m.headers[ws_protocol_key()])
                } else {
                    None
                },
            ),
        )
    }
}

/// The headers of a successful upgrade response: `upgrade: websocket`,
/// `connection: Upgrade`, the accept token, and the echoed subprotocol if
/// one was offered.
pub open spec fn spec_upgrade_headers(token: Seq<u8>, proto: Option<Seq<u8>>) -> Map<
    Seq<u8>,
    Seq<u8>,
> {
    let base = Map::<Seq<u8>, Seq<u8>>::empty().insert(
        upgrade_token(),
        "websocket".spec_bytes(),
    ).insert(connection_key(), "Upgrade".spec_bytes()).insert(ws_accept_key(), token);
    match proto {
        Some(p) => base.insert(ws_protocol_key(), p),
        None => base,
    }
}

/// Validates a WebSocket upgrade request and, when it is legitimate, builds
/// the `101 Switching Protocols` response carrying the accept token.
pub fn handshake(req: &HttpRequest, require_subprotocol: bool) -> (r: Result<
    HttpResponse,
    HttpError,
>)
    requires
        req.wf(),
    ensures
        match r {
            Ok(resp) => {
                &&& spec_handshake(req@, require_subprotocol) is Ok
                &&& resp.wf()
                &&& resp.status == HttpStatus::SwitchingProtocols
                &&& resp.body@ == Seq::<u8>::empty()
                &&& resp.headers@ == spec_upgrade_headers(
                    spec_handshake(req@, require_subprotocol)->Ok_0.0,
                    spec_handshake(req@, require_subprotocol)->Ok_0.1,
                )
            },
            Err(e) => spec_handshake(req@, require_subprotocol) == Err::<
                (Seq<u8>, Option<Seq<u8>>),
                HttpError,
            >(e),
        },
{
    if !matches!(req.method, HttpMethod::Get) {
        return Err(HttpError::InvalidMethod);
    }
    let conn_name = ascii::to_lower("connection".as_bytes());
    match req.headers.get(conn_name.as_slice()) {
        None => {
            return Err(HttpError::InvalidUpgrade);
        },
        Some(conn) => {
            let conn_low = ascii::to_lower(conn.as_slice());
            let upgrade_low = ascii::to_lower("upgrade".as_bytes());
            if !scan::bytes_eq(conn_low.as_slice(), upgrade_low.as_slice()) {
                return Err(HttpError::InvalidUpgrade);
            }
        },
    }
    let key_name = ascii::to_lower("sec-websocket-key".as_bytes());
    let key = match req.headers.get(key_name.as_slice()) {
        None => {
            return Err(HttpError::InvalidHeader);
        },
        Some(k) => k,
    };
    let proto_name = ascii::to_lower("sec-websocket-protocol".as_bytes());
    let proto = req.headers.get(proto_name.as_slice());
    if require_subprotocol && proto.is_none() {
        return Err(HttpError::InvalidHeader);
    }
    let token = accept_token(key.as_slice());
    let mut resp = HttpResponse::new(HttpStatus::SwitchingProtocols);
    resp.add_header("upgrade".as_bytes(), "websocket".as_bytes());
    resp.add_header("connection".as_bytes(), "Upgrade".as_bytes());
    resp.add_header("sec-websocket-accept".as_bytes(), token.as_slice());
    match proto {
        Some(p) => {
            resp.add_header("sec-websocket-protocol".as_bytes(), p.as_slice());
        },
        None => {},
    }
    Ok(resp)
}

/// A request whose method is POST is rejected as `InvalidMethod`, whatever
/// headers it carries.
pub proof fn lemma_post_rejected(m: RequestModel, require_subprotocol: bool)
    requires
        m.method == HttpMethod::Post,
    ensures
        spec_handshake(m, require_subprotocol) == Err::<(Seq<u8>, Option<Seq<u8>>), HttpError>(
            HttpError::InvalidMethod,
        ),
{
}

/// A GET request whose connection header is present but is not `upgrade`
/// (up to ASCII case) is rejected as `InvalidUpgrade`, whatever its other
/// headers hold.
pub proof fn lemma_wrong_connection_rejected(m: RequestModel, require_subprotocol: bool)
    requires
        m.method == HttpMethod::Get,
        m.headers.contains_key(connection_key()),
        ascii::lower(m.headers[connection_key()]) != upgrade_token(),
    ensures
        spec_handshake(m, require_subprotocol) == Err::<(Seq<u8>, Option<Seq<u8>>), HttpError>(
            HttpError::InvalidUpgrade,
        ),
{
}

/// A GET request with a valid connection header but no handshake key is
/// rejected as `InvalidHeader`, whatever its other headers hold.
pub proof fn lemma_missing_key_rejected(m: RequestModel, require_subprotocol: bool)
    requires
        m.method == HttpMethod::Get,
        m.headers.contains_key(connection_key()),
        ascii::lower(m.headers[connection_key()]) == upgrade_token(),
        !m.headers.contains_key(ws_key_key()),
    ensures
        spec_handshake(m, require_subprotocol) == Err::<(Seq<u8>, Option<Seq<u8>>), HttpError>(
            HttpError::InvalidHeader,
        ),
{
}

} // verus!
