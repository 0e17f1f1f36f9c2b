//! The response value and its wire serialization.
//!
//! A response is a status, a header mapping and a body.  Assigning a body
//! through [`HttpResponse::add_body`] also sets the `content-length` header
//! to the body's length, so the two never disagree.  [`HttpResponse::to_bytes`]
//! renders the status line, each header as `name: value` followed by CR LF,
//! a blank line, and the body verbatim.

use vstd::prelude::*;
use vstd::string::StrSliceExecFns;
use vstd::string::StringSliceAdditionalSpecFns;

use crate::ascii;
use crate::decimal;
use crate::headers::Headers;
use crate::request::cl_key;
use crate::scan;

verus! {

/// The closed set of response statuses this system serializes.
#[derive(Debug, Clone, Copy, PartialEq, Eq, Structural)]
pub enum HttpStatus {
    SwitchingProtocols,
    Okay,
    BadRequest,
    NotFound,
}

/// The status-line rendering of a status, as bytes.
pub open spec fn status_line_bytes(s: HttpStatus) -> Seq<u8> {
    match s {
        HttpStatus::SwitchingProtocols => "101 Switching Protocols".spec_bytes(),
        HttpStatus::Okay => "200 OK".spec_bytes(),
        HttpStatus::BadRequest => "400 Bad Request".spec_bytes(),
        HttpStatus::NotFound => "404 Not Found".spec_bytes(),
    }
}

impl HttpStatus {
    /// The status-line rendering of the status.
    pub fn as_str(&self) -> (r: &'static str)
        ensures
            r.spec_bytes() == status_line_bytes(*self),
    {
        match self {
            HttpStatus::SwitchingProtocols => "101 Switching Protocols",
            HttpStatus::Okay => "200 OK",
            HttpStatus::BadRequest => "400 Bad Request",
            HttpStatus::NotFound => "404 Not Found",
        }
    }
}

/// The serialization of one header line: `name: value` and CR LF.
pub open spec fn entry_bytes(e: (Seq<u8>, Seq<u8>)) -> Seq<u8> {
    e.0 + ": ".spec_bytes() + e.1 + "\r\n".spec_bytes()
}

/// The serialization of a sequence of header lines, in order.
pub open spec fn spec_serialize_headers(s: Seq<(Seq<u8>, Seq<u8>)>) -> Seq<u8>
    decreases s.len(),
{
    if s.len() == 0 {
        Seq::empty()
    } else {
        spec_serialize_headers(s.drop_last()) + entry_bytes(s.last())
    }
}

/// The full wire form of a response: status line, header lines, blank line,
/// body.
pub open spec fn spec_serialize(
    status: HttpStatus,
    entries: Seq<(Seq<u8>, Seq<u8>)>,
    body: Seq<u8>,
) -> Seq<u8> {
    "HTTP/1.1 ".spec_bytes() + status_line_bytes(status) + "\r\n".spec_bytes()
        + spec_serialize_headers(entries) + "\r\n".spec_bytes() + body
}

/// A response to be serialized exactly once.
#[derive(Debug)]
pub struct HttpResponse {
    pub status: HttpStatus,
    pub headers: Headers,
    pub body: Vec<u8>,
}

impl HttpResponse {
    /// Well-formed: the header mapping's representation is sound.
    pub open spec fn wf(&self) -> bool {
        self.headers.wf()
    }

    /// A response of the given status with no headers and an empty body.
    pub fn new(status: HttpStatus) -> (r: HttpResponse)
        ensures
            r.wf(),
            r.status == status,
            r.headers@ == Map::<Seq<u8>, Seq<u8>>::empty(),
            r.headers.entries_seq() == Seq::<(Seq<u8>, Seq<u8>)>::empty(),
            r.body@ == Seq::<u8>::empty(),
    {
        let r = HttpResponse { status, headers: Headers::new(), body: Vec::new() };
        proof {
            assert(r.body@ =~= Seq::<u8>::empty());
        }
        r
    }

    /// Adds a header; the name is lower-cased, and a header already present
    /// under the same lower-cased name is overwritten.
    pub fn add_header(&mut self, key: &[u8], value: &[u8])
        requires
            old(self).wf(),
        ensures
            final(self).wf(),
            final(self).headers@ == old(self).headers@.insert(ascii::lower(key@), value@),
            final(self).status == old(self).status,
            final(self).body@ == old(self).body@,
    {
        self.headers.insert(key, value);
    }

    /// Assigns the body and sets the `content-length` header to its length,
    /// keeping the two consistent.
    pub fn add_body(&mut self, body: &[u8])
        requires
            old(self).wf(),
        ensures
            final(self).wf(),
            final(self).body@ == body@,
            final(self).headers@ == old(self).headers@.insert(
                cl_key(),
                decimal::dec_repr(body@.len()),
            ),
            final(self).status == old(self).status,
    {
        self.body = scan::copy_range(body, 0, body.len());
        proof {
            assert(self.body@ =~= body@);
        }
        let len_bytes = decimal::format_usize(self.body.len());
        self.headers.insert("content-length".as_bytes(), len_bytes.as_slice());
    }

    /// Serializes the response to its wire form.
    pub fn to_bytes(&self) -> (r: Vec<u8>)
        ensures
            r@ == spec_serialize(self.status, self.headers.entries_seq(), self.body@),
    {
        let mut out: Vec<u8> = Vec::new();
        scan::append_bytes(&mut out, "HTTP/1.1 ".as_bytes());
        scan::append_bytes(&mut out, self.status.as_str().as_bytes());
        scan::append_bytes(&mut out, "\r\n".as_bytes());
        let entries = self.headers.entries();
        let ghost eseq = self.headers.entries_seq();
        let ghost head = "HTTP/1.1 ".spec_bytes() + status_line_bytes(self.status)
            + "\r\n".spec_bytes();
        let mut i: usize = 0;
        while i < entries.len()
            invariant
                i <= eseq.len(),
                eseq == entries@.map_values(|p: (Vec<u8>, Vec<u8>)| (p.0@, p.1@)),
                out@ == head + spec_serialize_headers(eseq.take(i as int)),
            decreases eseq.len() - i,
        {
            scan::append_bytes(&mut out, entries[i].0.as_slice());
            scan::append_bytes(&mut out, ": ".as_bytes());
            scan::append_bytes(&mut out, entries[i].1.as_slice());
            scan::append_bytes(&mut out, "\r\n".as_bytes());
            proof {
                assert(eseq.take(i + 1 as int).drop_last() =~= eseq.take(i as int));
                assert(eseq.take(i + 1 as int).last() == eseq[i as int]);
                assert(out@ =~= head + spec_serialize_headers(eseq.take(i + 1 as int)));
            }
            i = i + 1;
        }
        proof {
            assert(eseq.take(eseq.len() as int) =~= eseq);
        }
        scan::append_bytes(&mut out, "\r\n".as_bytes());
        scan::append_bytes(&mut out, self.body.as_slice());
        proof {
            assert(out@ =~= spec_serialize(self.status, eseq, self.body@));
        }
        out
    }
}

} // verus!
