//! RTSP requests and their wire encoding.
use vstd::prelude::*;
use vstd::utf8::encode_utf8;
use super::headers::{names, spec_insert, HeaderSeq, Headers};
use super::Method;
use crate::text::{decimal, decimal_string};
use crate::plist::decode::{PlistValue, MAX_DEPTH};
use crate::plist::encode::{encode, height, spec_encode};

verus! {

/// The `Content-Type` of a binary property list.
pub const BINARY_PLIST: &'static str = "application/x-apple-binary-plist";

/// The header lines of a request, in order, each `name: value\r\n`.
pub open spec fn header_lines(h: HeaderSeq) -> Seq<char>
    decreases h.len(),
{
    if h.len() == 0 {
        Seq::empty()
    } else {
        header_lines(h.drop_last()) + h.last().0 + ": "@ + h.last().1 + "\r\n"@
    }
}

/// The text of a request before its body: the request line, the headers,
/// a `Content-Length` line when the body is not empty, and a blank line.
pub open spec fn request_head(m: Method, uri: Seq<char>, h: HeaderSeq, body_len: nat) -> Seq<
    char,
> {
    m.spec_name() + " "@ + uri + " RTSP/1.0\r\n"@ + header_lines(h) + (if body_len > 0 {
        names::CONTENT_LENGTH@ + ": "@ + decimal(body_len) + "\r\n"@
    } else {
        Seq::empty()
    }) + "\r\n"@
}

/// The bytes of an encoded request: the UTF-8 head, then the body.
pub open spec fn spec_encode_request(m: Method, uri: Seq<char>, h: HeaderSeq, body: Seq<u8>) -> Seq<
    u8,
> {
    encode_utf8(request_head(m, uri, h, body.len())) + body
}

/// An RTSP request message.
#[derive(Debug, Clone)]
pub struct RtspRequest {
    /// RTSP method
    pub method: Method,
    /// Request URI (e.g., "rtsp://192.168.1.10/1234567")
    pub uri: String,
    /// Request headers
    pub headers: Headers,
    /// Request body (may be empty)
    pub body: Vec<u8>,
}

/// A request as the contracts see it.
pub struct RequestView {
    /// RTSP method
    pub method: Method,
    /// Request URI
    pub uri: Seq<char>,
    /// Headers in order
    pub headers: HeaderSeq,
    /// Body bytes
    pub body: Seq<u8>,
}

impl View for RtspRequest {
    type V = RequestView;

    open spec fn view(&self) -> RequestView {
        RequestView {
            method: self.method,
            uri: self.uri@,
            headers: self.headers@,
            body: self.body@,
        }
    }
}

impl RtspRequest {
    /// Create a new request with no headers and an empty body.
    pub fn new(method: Method, uri: &str) -> (r: Self)
        ensures
            r.method == method,
            r.uri@ == uri@,
            r.headers@ == Seq::<(Seq<char>, Seq<char>)>::empty(),
            r.body@ == Seq::<u8>::empty(),
    {
        Self { method, uri: String::from_str(uri), headers: Headers::new(), body: Vec::new() }
    }

    /// Create a builder for constructing requests.
    pub fn builder(method: Method, uri: &str) -> (r: RtspRequestBuilder)
        ensures
            r.request().method == method,
            r.request().uri@ == uri@,
            r.request().headers@ == Seq::<(Seq<char>, Seq<char>)>::empty(),
            r.request().body@ == Seq::<u8>::empty(),
    {
        RtspRequestBuilder::new(method, uri)
    }

    /// Encode the request to bytes, ready for transmission.
    pub fn encode(&self) -> (r: Vec<u8>)
        ensures
            r@ == spec_encode_request(self.method, self.uri@, self.headers@, self.body@),
    {
        let mut head = String::from_str(self.method.as_str());
        head.append(" ");
        head.append(self.uri.as_str());
        head.append(" RTSP/1.0\r\n");
        let entries = self.headers.iter();
        let ghost h = self.headers@;
        let ghost base = self.method.spec_name() + " "@ + self.uri@ + " RTSP/1.0\r\n"@;
        let mut i: usize = 0;
        while i < entries.len()
            invariant
                i <= entries@.len(),
                entries@.map_values(|e: (String, String)| (e.0@, e.1@)) == h,
                head@ == base + header_lines(h.subrange(0, i as int)),
            decreases entries@.len() - i,
        {
            let e = &entries[i];
            head.append(e.0.as_str());
            head.append(": ");
            head.append(e.1.as_str());
            head.append("\r\n");
            proof {
                let hs = h.subrange(0, i + 1);
                assert(hs.drop_last() =~= h.subrange(0, i as int));
                assert(hs.last() == (e.0@, e.1@));
                assert(head@ =~= base + header_lines(hs));
            }
            i = i + 1;
        }
        proof {
            assert(h.subrange(0, entries@.len() as int) =~= h);
        }
        if self.body.len() > 0 {
            head.append(names::CONTENT_LENGTH);
            head.append(": ");
            let n = decimal_string(self.body.len() as u64);
            head.append(n.as_str());
            head.append("\r\n");
        }
        head.append("\r\n");
        proof {
            assert(head@ =~= request_head(self.method, self.uri@, h, self.body@.len()));
        }
        let mut out: Vec<u8> = Vec::new();
        out.extend_from_slice(head.as_str().as_bytes());
        out.extend_from_slice(self.body.as_slice());
        assert(out@ =~= spec_encode_request(self.method, self.uri@, self.headers@, self.body@));
        out
    }
}

/// Builder for RTSP requests.
#[derive(Debug)]
pub struct RtspRequestBuilder {
    request: RtspRequest,
}

impl RtspRequestBuilder {
    /// The request built so far.
    pub closed spec fn request(&self) -> RtspRequest {
        self.request
    }

    /// Create a new builder.
    pub fn new(method: Method, uri: &str) -> (r: Self)
        ensures
            r.request().method == method,
            r.request().uri@ == uri@,
            r.request().headers@ == Seq::<(Seq<char>, Seq<char>)>::empty(),
            r.request().body@ == Seq::<u8>::empty(),
    {
        Self { request: RtspRequest::new(method, uri) }
    }

    /// Add a header.
    pub fn header(self, name: &str, value: &str) -> (r: Self)
        ensures
            r.request().headers@ == spec_insert(self.request().headers@, name@, value@),
            r.request().method == self.request().method,
            r.request().uri == self.request().uri,
            r.request().body == self.request().body,
    {
        let mut s = self;
        s.request.headers.insert(name, value);
        s
    }

    /// Set the `CSeq` header.
    pub fn cseq(self, seq: u32) -> (r: Self)
        ensures
            r.request().headers@ == spec_insert(
                self.request().headers@,
                names::CSEQ@,
                decimal(seq as nat),
            ),
            r.request().method == self.request().method,
            r.request().uri == self.request().uri,
            r.request().body == self.request().body,
    {
        let v = decimal_string(seq as u64);
        self.header(names::CSEQ, v.as_str())
    }

    /// Set the `Content-Type` header.
    pub fn content_type(self, content_type: &str) -> (r: Self)
        ensures
            r.request().headers@ == spec_insert(
                self.request().headers@,
                names::CONTENT_TYPE@,
                content_type@,
            ),
            r.request().method == self.request().method,
            r.request().uri == self.request().uri,
            r.request().body == self.request().body,
    {
        self.header(names::CONTENT_TYPE, content_type)
    }

    /// Set the `User-Agent` header.
    pub fn user_agent(self, agent: &str) -> (r: Self)
        ensures
            r.request().headers@ == spec_insert(
                self.request().headers@,
                names::USER_AGENT@,
                agent@,
            ),
            r.request().method == self.request().method,
            r.request().uri == self.request().uri,
            r.request().body == self.request().body,
    {
        self.header(names::USER_AGENT, agent)
    }

    /// Set the `Session` header.
    pub fn session(self, session_id: &str) -> (r: Self)
        ensures
            r.request().headers@ == spec_insert(
                self.request().headers@,
                names::SESSION@,
                session_id@,
            ),
            r.request().method == self.request().method,
            r.request().uri == self.request().uri,
            r.request().body == self.request().body,
    {
        self.header(names::SESSION, session_id)
    }

    /// Set the body as raw bytes.
    pub fn body(self, body: Vec<u8>) -> (r: Self)
        ensures
            r.request().body@ == body@,
            r.request().method == self.request().method,
            r.request().uri == self.request().uri,
            r.request().headers == self.request().headers,
    {
        let mut s = self;
        s.request.body = body;
        s
    }

    /// Set the body to a binary property list, with the `Content-Type`
    /// header that names it. The value must be one that encodes (see
    /// `plist::encode`).
    pub fn body_plist(self, plist: &PlistValue) -> (r: Self)
        requires
            height(plist@) <= MAX_DEPTH,
            spec_encode(plist@).len() <= usize::MAX,
        ensures
            r.request().body@ == spec_encode(plist@),
            r.request().headers@ == spec_insert(
                self.request().headers@,
                names::CONTENT_TYPE@,
                BINARY_PLIST@,
            ),
            r.request().method == self.request().method,
            r.request().uri == self.request().uri,
    {
        let body = match encode(plist) {
            Ok(b) => b,
            Err(_) => {
                proof {
                    assert(false);
                }
                Vec::new()
            },
        };
        let mut s = self;
        s.request.body = body;
        s.request.headers.insert(names::CONTENT_TYPE, BINARY_PLIST);
        s
    }

    /// Build the request.
    pub fn build(self) -> (r: RtspRequest)
        ensures
            r == self.request(),
    {
        self.request
    }
}

} // verus!
