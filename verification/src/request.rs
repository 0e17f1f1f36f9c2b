//! The request decoder: from the raw bytes of one HTTP/1.1 request to a
//! structured request value.
//!
//! The whole decode is specified by [`spec_decode`], a mathematical function
//! from the input byte sequence to either a request model and the number of
//! bytes the request occupies, or a decode error.  [`decode_request`] is
//! proved to return exactly that.  The decoder consumes the request line,
//! the header lines up to and including the empty terminator line, and
//! exactly the announced body length — no more — so a caller may keep using
//! the same stream right after the request.

use vstd::prelude::*;
use vstd::string::StrSliceExecFns;
use vstd::string::StringSliceAdditionalSpecFns;

use crate::ascii;
use crate::decimal;
use crate::error::DecodeError;
use crate::error::HttpError;
use crate::error::TransportError;
use crate::headers::Headers;
use crate::method::HttpMethod;
use crate::method::spec_parse_method;
use crate::scan;

verus! {

/// The lower-cased name of the header that announces a body length.
pub open spec fn cl_key() -> Seq<u8> {
    ascii::lower("content-length".spec_bytes())
}

/// The abstract content of a decoded request.
#[verifier::ext_equal]
pub ghost struct RequestModel {
    pub method: HttpMethod,
    pub target: Seq<u8>,
    pub http_version: Seq<u8>,
    pub headers: Map<Seq<u8>, Seq<u8>>,
    pub body: Seq<u8>,
}

/// One fully decoded HTTP request.
#[derive(Debug)]
pub struct HttpRequest {
    pub method: HttpMethod,
    pub target: Vec<u8>,
    pub http_version: Vec<u8>,
    pub headers: Headers,
    pub body: Vec<u8>,
}

impl View for HttpRequest {
    type V = RequestModel;

    open spec fn view(&self) -> RequestModel {
        RequestModel {
            method: self.method,
            target: self.target@,
            http_version: self.http_version@,
            headers: self.headers@,
            body: self.body@,
        }
    }
}

impl HttpRequest {
    /// Well-formed: the header mapping's representation is sound.
    pub open spec fn wf(&self) -> bool {
        self.headers.wf()
    }
}

/// What a request line (already cut at its line feed) decodes to: method,
/// target and version, or the error naming the token that is missing or
/// unrecognized.  The line is trimmed of trailing whitespace, then split on
/// single spaces; the method token is resolved case-insensitively; target
/// and version are taken verbatim; tokens after the third are ignored.
pub open spec fn spec_request_line(line: Seq<u8>) -> Result<
    (HttpMethod, Seq<u8>, Seq<u8>),
    HttpError,
> {
    let t = scan::trim_end(line);
    if t.len() == 0 {
        Err(HttpError::InvalidMethod)
    } else {
        match scan::find_from(t, 0, 32) {
            None => Err(HttpError::InvalidTarget),
            Some(sp1) => match scan::find_from(t, sp1 + 1, 32) {
                None => Err(HttpError::InvalidVersion),
                Some(sp2) => {
                    let version_end = match scan::find_from(t, sp2 + 1, 32) {
                        None => t.len() as int,
                        Some(sp3) => sp3,
                    };
                    match spec_parse_method(t.take(sp1)) {
                        None => Err(HttpError::InvalidMethod),
                        Some(m) => Ok(
                            (m, t.subrange(sp1 + 1, sp2), t.subrange(sp2 + 1, version_end)),
                        ),
                    }
                },
            },
        }
    }
}

/// What the header section starting at `pos` decodes to, on top of the
/// headers in `acc`: the final mapping and the position just past the empty
/// terminator line.  Each line is trimmed of trailing whitespace; an empty
/// line ends the section; a non-empty line must hold the `": "` delimiter,
/// and binds its lower-cased name to the value after the delimiter, a later
/// occurrence of a name overwriting an earlier one.  Input that ends before
/// the terminator is a transport failure.
pub open spec fn spec_headers(s: Seq<u8>, pos: int, acc: Map<Seq<u8>, Seq<u8>>) -> Result<
    (Map<Seq<u8>, Seq<u8>>, int),
    DecodeError,
>
    decreases s.len() - pos when 0 <= pos <= s.len() via spec_headers_decreases
{
    match scan::find_from(s, pos, 10) {
        None => Err(DecodeError::Transport(TransportError::UnexpectedEof)),
        Some(lf) => {
            let line = scan::trim_end(s.subrange(pos, lf));
            if line.len() == 0 {
                Ok((acc, lf + 1))
            } else {
                match scan::find_colon_space(line, 0) {
                    None => Err(DecodeError::Http(HttpError::InvalidHeader)),
                    Some(d) => spec_headers(
                        s,
                        lf + 1,
                        acc.insert(ascii::lower(line.take(d)), line.subrange(d + 2, line.len() as int)),
                    ),
                }
            }
        },
    }
}

#[via_fn]
proof fn spec_headers_decreases(s: Seq<u8>, pos: int, acc: Map<Seq<u8>, Seq<u8>>) {
    scan::lemma_find_from(s, pos, 10);
}

/// What a whole request decodes to: the request model and the number of
/// input bytes the request occupies, or a decode error.  The body is read
/// exactly when a `content-length` header is present: its value must be a
/// decimal number that fits, and exactly that many bytes must follow the
/// header terminator; with no such header the body is empty and nothing
/// past the header terminator is consumed.
pub open spec fn spec_decode(input: Seq<u8>) -> Result<(RequestModel, int), DecodeError> {
    match scan::find_from(input, 0, 10) {
        None => Err(DecodeError::Transport(TransportError::UnexpectedEof)),
        Some(lf0) => match spec_request_line(input.take(lf0)) {
            Err(e) => Err(DecodeError::Http(e)),
            Ok((m, target, version)) => match spec_headers(input, lf0 + 1, Map::empty()) {
                Err(e) => Err(e),
                Ok((hmap, hend)) => {
                    if hmap.contains_key(cl_key()) {
                        if !decimal::valid_content_length(hmap[cl_key()]) {
                            Err(DecodeError::Transport(TransportError::InvalidContentLength))
                        } else {
                            let n = decimal::dec_val(hmap[cl_key()]) as int;
                            if hend + n > input.len() {
                                Err(DecodeError::Transport(TransportError::UnexpectedEof))
                            } else {
                                Ok(
                                    (
                                        RequestModel {
                                            method: m,
                                            target: target,
                                            http_version: version,
                                            headers: hmap,
                                            body: input.subrange(hend, hend + n),
                                        },
                                        hend + n,
                                    ),
                                )
                            }
                        }
                    } else {
                        Ok(
                            (
                                RequestModel {
                                    method: m,
                                    target: target,
                                    http_version: version,
                                    headers: hmap,
                                    body: Seq::empty(),
                                },
                                hend,
                            ),
                        )
                    }
                },
            },
        },
    }
}

/// Every key of a decoded header mapping is fully lower-cased, as long as
/// every key already in the accumulator is.
pub proof fn lemma_spec_headers_keys_lower(
    s: Seq<u8>,
    pos: int,
    acc: Map<Seq<u8>, Seq<u8>>,
    hmap: Map<Seq<u8>, Seq<u8>>,
    hend: int,
)
    requires
        0 <= pos <= s.len(),
        forall|k: Seq<u8>| acc.contains_key(k) ==> #[trigger] ascii::lower(k) == k,
        spec_headers(s, pos, acc) == Ok::<(Map<Seq<u8>, Seq<u8>>, int), DecodeError>((hmap, hend)),
    ensures
        forall|k: Seq<u8>| hmap.contains_key(k) ==> #[trigger] ascii::lower(k) == k,
    decreases s.len() - pos,
{
    scan::lemma_find_from(s, pos, 10);
    match scan::find_from(s, pos, 10) {
        None => {},
        Some(lf) => {
            let line = scan::trim_end(s.subrange(pos, lf));
            if line.len() == 0 {
            } else {
                match scan::find_colon_space(line, 0) {
                    None => {},
                    Some(d) => {
                        let acc2 = acc.insert(
                            ascii::lower(line.take(d)),
                            line.subrange(d + 2, line.len() as int),
                        );
                        assert forall|k: Seq<u8>| acc2.contains_key(k) implies #[trigger] ascii::lower(
                            k,
                        ) == k by {
                            if k == ascii::lower(line.take(d)) {
                                ascii::lemma_lower_idempotent_seq(line.take(d));
                            }
                        }
                        lemma_spec_headers_keys_lower(s, lf + 1, acc2, hmap, hend);
                    },
                }
            }
        },
    }
}

/// A decoded header section ends past where it began, and within the input.
pub proof fn lemma_spec_headers_bounds(
    s: Seq<u8>,
    pos: int,
    acc: Map<Seq<u8>, Seq<u8>>,
    hmap: Map<Seq<u8>, Seq<u8>>,
    hend: int,
)
    requires
        0 <= pos <= s.len(),
        spec_headers(s, pos, acc) == Ok::<(Map<Seq<u8>, Seq<u8>>, int), DecodeError>((hmap, hend)),
    ensures
        pos < hend <= s.len(),
    decreases s.len() - pos,
{
    scan::lemma_find_from(s, pos, 10);
    match scan::find_from(s, pos, 10) {
        None => {},
        Some(lf) => {
            let line = scan::trim_end(s.subrange(pos, lf));
            if line.len() == 0 {
            } else {
                match scan::find_colon_space(line, 0) {
                    None => {},
                    Some(d) => {
                        let acc2 = acc.insert(
                            ascii::lower(line.take(d)),
                            line.subrange(d + 2, line.len() as int),
                        );
                        lemma_spec_headers_bounds(s, lf + 1, acc2, hmap, hend);
                    },
                }
            }
        },
    }
}

/// Header insertion under names that agree up to ASCII case keeps exactly
/// one binding: the fully lower-cased name, mapped to the last-seen value.
/// This is the duplicate-header rule of the decoder, whose header section
/// binds each line's value under the line's lower-cased name.
pub proof fn lemma_duplicate_header_last_wins(
    h: Map<Seq<u8>, Seq<u8>>,
    n1: Seq<u8>,
    v1: Seq<u8>,
    n2: Seq<u8>,
    v2: Seq<u8>,
)
    requires
        ascii::lower(n1) == ascii::lower(n2),
    ensures
        h.insert(ascii::lower(n1), v1).insert(ascii::lower(n2), v2) == h.insert(
            ascii::lower(n2),
            v2,
        ),
        h.insert(ascii::lower(n1), v1).insert(ascii::lower(n2), v2)[ascii::lower(n1)] == v2,
{
    assert(h.insert(ascii::lower(n1), v1).insert(ascii::lower(n2), v2) =~= h.insert(
        ascii::lower(n2),
        v2,
    ));
}

/// With a `content-length` of value `N` and at least `N` bytes after the
/// header terminator, the decoded body is exactly those `N` bytes.
pub proof fn lemma_body_exact_length(input: Seq<u8>, m: RequestModel, n: int)
    requires
        spec_decode(input) == Ok::<(RequestModel, int), DecodeError>((m, n)),
        m.headers.contains_key(cl_key()),
    ensures
        m.body.len() == decimal::dec_val(m.headers[cl_key()]),
        n <= input.len(),
        m.body == input.subrange(n - m.body.len(), n),
{
    scan::lemma_find_from(input, 0, 10);
    match scan::find_from(input, 0, 10) {
        None => {},
        Some(lf0) => match spec_request_line(input.take(lf0)) {
            Err(_) => {},
            Ok((mm, t, v)) => match spec_headers(input, lf0 + 1, Map::empty()) {
                Err(_) => {},
                Ok((hmap, hend)) => {
                    lemma_spec_headers_bounds(input, lf0 + 1, Map::empty(), hmap, hend);
                    assert(m.headers == hmap);
                    assert(hmap.contains_key(cl_key()));
                    assert(decimal::valid_content_length(hmap[cl_key()]));
                    let nv = decimal::dec_val(hmap[cl_key()]) as int;
                    assert(hend + nv <= input.len());
                    assert(m.body == input.subrange(hend, hend + nv));
                    assert(m.body.len() == nv);
                },
            },
        },
    }
}

/// With a `content-length` announcing more bytes than the input holds past
/// the header terminator, decoding fails with a transport error — never
/// with a truncated body.
pub proof fn lemma_short_body_is_transport_error(
    input: Seq<u8>,
    lf0: int,
    hmap: Map<Seq<u8>, Seq<u8>>,
    hend: int,
)
    requires
        scan::find_from(input, 0, 10) == Some(lf0),
        spec_request_line(input.take(lf0)) is Ok,
        spec_headers(input, lf0 + 1, Map::empty()) == Ok::<
            (Map<Seq<u8>, Seq<u8>>, int),
            DecodeError,
        >((hmap, hend)),
        hmap.contains_key(cl_key()),
        decimal::valid_content_length(hmap[cl_key()]),
        hend + decimal::dec_val(hmap[cl_key()]) > input.len(),
    ensures
        spec_decode(input) == Err::<(RequestModel, int), DecodeError>(
            DecodeError::Transport(TransportError::UnexpectedEof),
        ),
{
}

/// With no `content-length` header, the decoded body is empty and decoding
/// consumes nothing past the header terminator: the bytes consumed are
/// exactly the request line and the header section.
pub proof fn lemma_no_content_length_no_body(input: Seq<u8>, m: RequestModel, n: int)
    requires
        spec_decode(input) == Ok::<(RequestModel, int), DecodeError>((m, n)),
        !m.headers.contains_key(cl_key()),
    ensures
        m.body == Seq::<u8>::empty(),
        ({
            let lf0 = scan::find_from(input, 0, 10)->Some_0;
            spec_headers(input, lf0 + 1, Map::empty()) == Ok::<
                (Map<Seq<u8>, Seq<u8>>, int),
                DecodeError,
            >((m.headers, n))
        }),
{
}

/// Decodes the header section of `input` starting at `start`.
fn decode_headers(input: &[u8], start: usize) -> (r: Result<(Headers, usize), DecodeError>)
    requires
        start <= input@.len(),
    ensures
        match r {
            Ok((h, e)) => h.wf() && start <= e <= input@.len() && spec_headers(
                input@,
                start as int,
                Map::empty(),
            ) == Ok::<(Map<Seq<u8>, Seq<u8>>, int), DecodeError>((h@, e as int)),
            Err(err) => spec_headers(input@, start as int, Map::empty()) == Err::<
                (Map<Seq<u8>, Seq<u8>>, int),
                DecodeError,
            >(err),
        },
{
    let mut headers = Headers::new();
    let mut pos: usize = start;
    proof {
        assert(headers@ =~= Map::<Seq<u8>, Seq<u8>>::empty());
    }
    loop
        invariant
            start <= pos <= input@.len(),
            headers.wf(),
            spec_headers(input@, start as int, Map::empty()) == spec_headers(
                input@,
                pos as int,
                headers@,
            ),
        decreases input@.len() - pos,
    {
        let ghost pos0 = pos as int;
        let ghost map0 = headers@;
        let ilen: usize = input.len();
        let lf = match scan::find_byte(input, pos, 10) {
            None => {
                return Err(DecodeError::Transport(TransportError::UnexpectedEof));
            },
            Some(i) => i,
        };
        proof {
            scan::lemma_find_from(input@, pos0, 10);
        }
        let line = scan::trimmed_range(input, pos, lf);
        if line.len() == 0 {
            proof {
                assert(spec_headers(input@, pos0, map0) == Ok::<
                    (Map<Seq<u8>, Seq<u8>>, int),
                    DecodeError,
                >((map0, lf + 1 as int)));
            }
            return Ok((headers, lf + 1));
        }
        let d = match scan::find_delim(line.as_slice(), 0) {
            None => {
                return Err(DecodeError::Http(HttpError::InvalidHeader));
            },
            Some(i) => i,
        };
        proof {
            scan::lemma_find_colon_space(line@, 0);
        }
        let name = scan::copy_range(line.as_slice(), 0, d);
        let value = scan::copy_range(line.as_slice(), d + 2, line.len());
        headers.insert(name.as_slice(), value.as_slice());
        pos = lf + 1;
        proof {
            assert(name@ =~= line@.take(d as int));
            assert(value@ =~= line@.subrange(d + 2, line@.len() as int));
            assert(spec_headers(input@, pos0, map0) == spec_headers(
                input@,
                pos as int,
                map0.insert(ascii::lower(line@.take(d as int)), value@),
            ));
        }
    }
}

/// Decodes one HTTP request from the front of `input`.
///
/// Returns the request and the number of bytes it occupies — the request
/// line, the header lines with their empty terminator line, and exactly the
/// announced body length — or the error [`spec_decode`] assigns to the
/// input.  Bytes past the request are neither read nor consumed.
pub fn decode_request(input: &[u8]) -> (r: Result<(HttpRequest, usize), DecodeError>)
    ensures
        match r {
            Ok((req, n)) => req.wf() && n <= input@.len() && spec_decode(input@) == Ok::<
                (RequestModel, int),
                DecodeError,
            >((req@, n as int)),
            Err(e) => spec_decode(input@) == Err::<(RequestModel, int), DecodeError>(e),
        },
{
    let lf0 = match scan::find_byte(input, 0, 10) {
        None => {
            return Err(DecodeError::Transport(TransportError::UnexpectedEof));
        },
        Some(i) => i,
    };
    proof {
        scan::lemma_find_from(input@, 0, 10);
    }
    let line = scan::trimmed_range(input, 0, lf0);
    proof {
        assert(input@.subrange(0, lf0 as int) =~= input@.take(lf0 as int));
    }
    let ghost rline = spec_request_line(input@.take(lf0 as int));
    if line.len() == 0 {
        return Err(DecodeError::Http(HttpError::InvalidMethod));
    }
    let sp1 = match scan::find_byte(line.as_slice(), 0, 32) {
        None => {
            return Err(DecodeError::Http(HttpError::InvalidTarget));
        },
        Some(i) => i,
    };
    proof {
        scan::lemma_find_from(line@, 0, 32);
    }
    let sp2 = match scan::find_byte(line.as_slice(), sp1 + 1, 32) {
        None => {
            return Err(DecodeError::Http(HttpError::InvalidVersion));
        },
        Some(i) => i,
    };
    proof {
        scan::lemma_find_from(line@, sp1 + 1, 32);
    }
    let version_end = match scan::find_byte(line.as_slice(), sp2 + 1, 32) {
        None => line.len(),
        Some(i) => i,
    };
    proof {
        scan::lemma_find_from(line@, sp2 + 1, 32);
    }
    let mtok = scan::copy_range(line.as_slice(), 0, sp1);
    proof {
        assert(mtok@ =~= line@.take(sp1 as int));
    }
    let method = match HttpMethod::parse(mtok.as_slice()) {
        Err(e) => {
            return Err(DecodeError::Http(e));
        },
        Ok(m) => m,
    };
    let target = scan::copy_range(line.as_slice(), sp1 + 1, sp2);
    let http_version = scan::copy_range(line.as_slice(), sp2 + 1, version_end);
    proof {
        assert(rline == Ok::<(HttpMethod, Seq<u8>, Seq<u8>), HttpError>(
            (method, target@, http_version@),
        ));
    }
    let ilen: usize = input.len();
    let (headers, hend) = match decode_headers(input, lf0 + 1) {
        Err(e) => {
            return Err(e);
        },
        Ok(p) => p,
    };
    let cl_name = ascii::to_lower("content-length".as_bytes());
    let body: Vec<u8>;
    let consumed: usize;
    match headers.get(cl_name.as_slice()) {
        None => {
            body = Vec::new();
            consumed = hend;
            proof {
                assert(body@ =~= Seq::<u8>::empty());
            }
        },
        Some(v) => {
            let n = match decimal::parse_usize(v.as_slice()) {
                None => {
                    return Err(DecodeError::Transport(TransportError::InvalidContentLength));
                },
                Some(n) => n,
            };
            if n > input.len() - hend {
                return Err(DecodeError::Transport(TransportError::UnexpectedEof));
            }
            body = scan::copy_range(input, hend, hend + n);
            consumed = hend + n;
        },
    }
    let req = HttpRequest { method, target, http_version, headers, body };
    proof {
        let m = spec_decode(input@)->Ok_0.0;
        assert(req@ =~= m);
    }
    Ok((req, consumed))
}

} // verus!
