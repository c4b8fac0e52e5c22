//! The receiver's side of RTSP: incremental decoding of requests from a
//! byte stream, and a builder for the responses sent back.
use vstd::prelude::*;
use vstd::utf8::{decode_utf8, encode_utf8, valid_utf8};
use super::headers::{names, spec_insert, HeaderSeq, Headers};
use super::request::{header_lines, RequestView, RtspRequest};
use super::response::{spec_reason, StatusCode};
use super::wire::{
    blank_line_at, body_length, body_length_of, crlf_lines, find_head_end, head_end,
    is_rtsp_version, lemma_blank_line_from, parse_header_lines, parse_headers, rtsp_version,
    split_at_first, split_lines, split_once,
};
use super::Method;
use crate::bytes::copy_bytes;
use crate::text::{decimal, decimal_string, str_from_utf8};

verus! {

/// Errors from decoding RTSP requests.
#[derive(Debug, Clone, PartialEq, Eq)]
pub enum ServerCodecError {
    /// The head of the request is not valid UTF-8.
    InvalidEncoding,
    /// The request line is not `<method> <uri> RTSP/<version>`.
    InvalidRequestLine(String),
    /// The method is not one this library knows.
    UnknownMethod(String),
    /// A header line has no colon.
    InvalidHeader(String),
    /// The `Content-Length` header is not a number that fits in `usize`.
    InvalidContentLength(String),
}

/// A request decoding error as the contracts see it.
pub enum ServerErrorView {
    InvalidEncoding,
    InvalidRequestLine(Seq<char>),
    UnknownMethod(Seq<char>),
    InvalidHeader(Seq<char>),
    InvalidContentLength(Seq<char>),
}

impl View for ServerCodecError {
    type V = ServerErrorView;

    open spec fn view(&self) -> ServerErrorView {
        match self {
            ServerCodecError::InvalidEncoding => ServerErrorView::InvalidEncoding,
            ServerCodecError::InvalidRequestLine(l) => ServerErrorView::InvalidRequestLine(l@),
            ServerCodecError::UnknownMethod(m) => ServerErrorView::UnknownMethod(m@),
            ServerCodecError::InvalidHeader(l) => ServerErrorView::InvalidHeader(l@),
            ServerCodecError::InvalidContentLength(v) => ServerErrorView::InvalidContentLength(v@),
        }
    }
}

/// The method name, URI and version of a request line
/// `<method> <uri> <version>`, when it has that shape and the version is
/// an RTSP one.
pub open spec fn request_line(l: Seq<char>) -> Option<(Seq<char>, Seq<char>)> {
    match split_once(l, ' ') {
        None => None,
        Some(p) => match split_once(p.1, ' ') {
            None => None,
            Some(q) => if is_rtsp_version(q.1) {
                Some((p.0, q.0))
            } else {
                None
            },
        },
    }
}

/// Split a request line into its method name and URI.
pub fn parse_request_line(l: &str) -> (r: Option<(String, String)>)
    ensures
        r matches Some(p) ==> request_line(l@) == Some((p.0@, p.1@)),
        r is None ==> request_line(l@) is None,
{
    let (method, rest) = match split_at_first(l, ' ') {
        None => return None,
        Some(p) => p,
    };
    let (uri, version) = match split_at_first(rest.as_str(), ' ') {
        None => return None,
        Some(q) => q,
    };
    if rtsp_version(version.as_str()) {
        Some((method, uri))
    } else {
        None
    }
}

/// What decoding the front of `buf` gives: an error, nothing yet (the
/// request is not complete), or a request and the number of bytes it
/// takes. The request line is checked first, then the method, each header
/// line and the body length; a request is complete once its whole body is
/// there.
pub open spec fn spec_decode_request(buf: Seq<u8>) -> Result<
    Option<(RequestView, nat)>,
    ServerErrorView,
> {
    match head_end(buf) {
        None => Ok(None),
        Some(e) => {
            let head = buf.subrange(0, e);
            if !valid_utf8(head) {
                Err(ServerErrorView::InvalidEncoding)
            } else {
                let lines = crlf_lines(decode_utf8(head));
                match request_line(lines[0]) {
                    None => Err(ServerErrorView::InvalidRequestLine(lines[0])),
                    Some(rl) => match Method::spec_from_name(rl.0) {
                        None => Err(ServerErrorView::UnknownMethod(rl.0)),
                        Some(m) => match parse_header_lines(lines.subrange(1, lines.len() as int)) {
                            Err(l) => Err(ServerErrorView::InvalidHeader(l)),
                            Ok(h) => match body_length(h) {
                                Err(v) => Err(ServerErrorView::InvalidContentLength(v)),
                                Ok(n) => if e + 4 + n <= buf.len() {
                                    Ok(
                                        Some(
                                            (
                                                RequestView {
                                                    method: m,
                                                    uri: rl.1,
                                                    headers: h,
                                                    body: buf.subrange(e + 4, e + 4 + n),
                                                },
                                                (e + 4 + n) as nat,
                                            ),
                                        ),
                                    )
                                } else {
                                    Ok(None)
                                },
                            },
                        },
                    },
                }
            }
        },
    }
}

/// How a call of `decode` on the buffer `before` ends, with `r` returned
/// and `after` left buffered: an error or an incomplete request leave the
/// buffer as it was; a complete request is taken off its front.
pub open spec fn request_outcome(
    before: Seq<u8>,
    r: Result<Option<RtspRequest>, ServerCodecError>,
    after: Seq<u8>,
) -> bool {
    match spec_decode_request(before) {
        Err(e) => r matches Err(x) && x@ == e && after == before,
        Ok(None) => r matches Ok(None) && after == before,
        Ok(Some(p)) => r matches Ok(Some(req)) && req@ == p.0 && after == before.subrange(
            p.1 as int,
            before.len() as int,
        ),
    }
}

/// An incremental decoder of RTSP requests.
#[derive(Debug)]
pub struct RtspServerCodec {
    buffer: Vec<u8>,
}

impl RtspServerCodec {
    /// The bytes buffered and not yet decoded.
    pub closed spec fn buffered(&self) -> Seq<u8> {
        self.buffer@
    }

    /// A codec with an empty buffer.
    pub fn new() -> (r: Self)
        ensures
            r.buffered() == Seq::<u8>::empty(),
    {
        RtspServerCodec { buffer: Vec::new() }
    }

    /// Append received bytes to the buffer.
    pub fn feed(&mut self, data: &[u8])
        ensures
            final(self).buffered() == old(self).buffered() + data@,
    {
        self.buffer.extend_from_slice(data);
    }

    /// Decode the next complete request at the front of the buffer, if
    /// there is one.
    pub fn decode(&mut self) -> (r: Result<Option<RtspRequest>, ServerCodecError>)
        ensures
            request_outcome(old(self).buffered(), r, final(self).buffered()),
    {
        let ghost buf = self.buffer@;
        let e = match find_head_end(self.buffer.as_slice()) {
            None => return Ok(None),
            Some(e) => e,
        };
        proof {
            lemma_blank_line_from(buf, 0);
            assert(blank_line_at(buf, e as int));
        }
        let text = match str_from_utf8(&self.buffer.as_slice()[0..e]) {
            None => return Err(ServerCodecError::InvalidEncoding),
            Some(t) => t,
        };
        proof {
            assert(self.buffer@.subrange(0, e as int) == buf.subrange(0, e as int));
        }
        let lines = split_lines(text.as_str());
        let ghost ls = lines@.map_values(|l: String| l@);
        proof {
            assert(ls[0] == lines@[0]@);
        }
        let (name, uri) = match parse_request_line(lines[0].as_str()) {
            None => return Err(ServerCodecError::InvalidRequestLine(lines[0].clone())),
            Some(p) => p,
        };
        let method = match Method::from_name(name.as_str()) {
            None => return Err(ServerCodecError::UnknownMethod(name)),
            Some(m) => m,
        };
        let headers = match parse_headers(&lines, 1) {
            Err(l) => return Err(ServerCodecError::InvalidHeader(l)),
            Ok(h) => h,
        };
        let n = match body_length_of(&headers) {
            Err(v) => return Err(ServerCodecError::InvalidContentLength(v)),
            Ok(n) => n,
        };
        let blen = self.buffer.len();
        assert(e + 4 <= blen);
        let start = e + 4;
        if n > blen - start {
            return Ok(None);
        }
        let body = copy_bytes(&self.buffer.as_slice()[start..start + n]);
        let rest = copy_bytes(&self.buffer.as_slice()[start + n..blen]);
        self.buffer = rest;
        Ok(Some(RtspRequest { method, uri, headers, body }))
    }

    /// How many bytes are buffered.
    pub fn buffered_len(&self) -> (r: usize)
        ensures
            r == self.buffered().len(),
    {
        self.buffer.len()
    }
}

/// The text of a response before its body: the status line with the
/// code's reason phrase, the headers, a `Content-Length` line when the
/// body is not empty, and a blank line.
pub open spec fn response_head(status: u16, h: HeaderSeq, body_len: nat) -> Seq<char> {
    "RTSP/1.0 "@ + decimal(status as nat) + " "@ + spec_reason(status) + "\r\n"@ + header_lines(h)
        + (if body_len > 0 {
        names::CONTENT_LENGTH@ + ": "@ + decimal(body_len) + "\r\n"@
    } else {
        Seq::empty()
    }) + "\r\n"@
}

/// The bytes of an encoded response: the UTF-8 head, then the body.
pub open spec fn spec_encode_response(status: u16, h: HeaderSeq, body: Seq<u8>) -> Seq<u8> {
    encode_utf8(response_head(status, h, body.len())) + body
}

/// Builder for the responses a receiver sends.
#[derive(Debug)]
pub struct ResponseBuilder {
    status: StatusCode,
    headers: Headers,
    body: Vec<u8>,
}

impl ResponseBuilder {
    /// The status code so far.
    pub closed spec fn status(&self) -> u16 {
        self.status.0
    }

    /// The headers so far.
    pub closed spec fn headers(&self) -> HeaderSeq {
        self.headers@
    }

    /// The body so far.
    pub closed spec fn body(&self) -> Seq<u8> {
        self.body@
    }

    /// A response with the given status, no headers and no body.
    pub fn new(status: StatusCode) -> (r: Self)
        ensures
            r.status() == status.0,
            r.headers() == Seq::<(Seq<char>, Seq<char>)>::empty(),
            r.body() == Seq::<u8>::empty(),
    {
        ResponseBuilder { status, headers: Headers::new(), body: Vec::new() }
    }

    /// A `200 OK` response.
    pub fn ok() -> (r: Self)
        ensures
            r.status() == 200,
            r.headers() == Seq::<(Seq<char>, Seq<char>)>::empty(),
            r.body() == Seq::<u8>::empty(),
    {
        Self::new(StatusCode(200))
    }

    /// An error response with the given status.
    pub fn error(status: StatusCode) -> (r: Self)
        ensures
            r.status() == status.0,
            r.headers() == Seq::<(Seq<char>, Seq<char>)>::empty(),
            r.body() == Seq::<u8>::empty(),
    {
        Self::new(status)
    }

    /// Add a header.
    pub fn header(self, name: &str, value: &str) -> (r: Self)
        ensures
            r.status() == self.status(),
            r.headers() == spec_insert(self.headers(), name@, value@),
            r.body() == self.body(),
    {
        let mut s = self;
        s.headers.insert(name, value);
        s
    }

    /// Set the `CSeq` header.
    pub fn cseq(self, seq: u32) -> (r: Self)
        ensures
            r.status() == self.status(),
            r.headers() == spec_insert(self.headers(), names::CSEQ@, decimal(seq as nat)),
            r.body() == self.body(),
    {
        let v = decimal_string(seq as u64);
        self.header(names::CSEQ, v.as_str())
    }

    /// Set the `Session` header.
    pub fn session(self, id: &str) -> (r: Self)
        ensures
            r.status() == self.status(),
            r.headers() == spec_insert(self.headers(), names::SESSION@, id@),
            r.body() == self.body(),
    {
        self.header(names::SESSION, id)
    }

    /// Set a text body, with `Content-Type: text/parameters`.
    pub fn text_body(self, body: &str) -> (r: Self)
        ensures
            r.status() == self.status(),
            r.headers() == spec_insert(self.headers(), names::CONTENT_TYPE@, "text/parameters"@),
            r.body() == encode_utf8(body@),
    {
        let mut s = self.header(names::CONTENT_TYPE, "text/parameters");
        s.body = copy_bytes(body.as_bytes());
        s
    }

    /// Set a body of raw bytes with its content type.
    pub fn binary_body(self, content_type: &str, body: &[u8]) -> (r: Self)
        ensures
            r.status() == self.status(),
            r.headers() == spec_insert(self.headers(), names::CONTENT_TYPE@, content_type@),
            r.body() == body@,
    {
        let mut s = self.header(names::CONTENT_TYPE, content_type);
        s.body = copy_bytes(body);
        s
    }

    /// Encode the response to bytes.
    pub fn encode(&self) -> (r: Vec<u8>)
        ensures
            r@ == spec_encode_response(self.status(), self.headers(), self.body()),
    {
        let mut head = String::from_str("RTSP/1.0 ");
        let code = decimal_string(self.status.0 as u64);
        head.append(code.as_str());
        head.append(" ");
        head.append(self.status.reason_phrase());
        head.append("\r\n");
        let entries = self.headers.iter();
        let ghost h = self.headers@;
        let ghost base = "RTSP/1.0 "@ + decimal(self.status.0 as nat) + " "@ + spec_reason(
            self.status.0,
        ) + "\r\n"@;
        proof {
            assert(head@ =~= base + header_lines(h.subrange(0, 0)));
        }
        let mut i: usize = 0;
        while i < entries.len()
            invariant
                i <= entries@.len(),
                entries@.map_values(|e: (String, String)| (e.0@, e.1@)) == h,
                head@ == base + header_lines(h.subrange(0, i as int)),
            decreases entries@.len() - i,
        {
            let e = &entries[i];
            head.append(e.0.as_str());
            head.append(": ");
            head.append(e.1.as_str());
            head.append("\r\n");
            proof {
                let hs = h.subrange(0, i + 1);
                assert(hs.drop_last() =~= h.subrange(0, i as int));
                assert(hs.last() == (e.0@, e.1@));
                assert(head@ =~= base + header_lines(hs));
            }
            i = i + 1;
        }
        proof {
            assert(h.subrange(0, entries@.len() as int) =~= h);
        }
        if self.body.len() > 0 {
            head.append(names::CONTENT_LENGTH);
            head.append(": ");
            let n = decimal_string(self.body.len() as u64);
            head.append(n.as_str());
            head.append("\r\n");
        }
        head.append("\r\n");
        proof {
            assert(head@ =~= response_head(self.status.0, h, self.body@.len()));
        }
        let mut out: Vec<u8> = Vec::new();
        out.extend_from_slice(head.as_str().as_bytes());
        out.extend_from_slice(self.body.as_slice());
        assert(out@ =~= spec_encode_response(self.status.0, self.headers@, self.body@));
        out
    }
}

} // verus!
