//! Incremental decoding of RTSP responses from a byte stream: bytes are
//! fed as they arrive, and each complete response is taken off the front
//! of the buffer.
use vstd::prelude::*;
use vstd::utf8::{decode_utf8, valid_utf8};
use super::headers::{HeaderSeq, Headers};
use super::response::{ResponseView, RtspResponse, StatusCode};
use super::wire::{
    blank_line_at, body_length, body_length_of, crlf_lines, find_head_end, head_end, is_rtsp_version,
    lemma_blank_line_from, parse_header_lines, parse_headers, rtsp_version, split_at_first,
    split_lines, split_once,
};
use crate::bytes::copy_bytes;
use crate::text::{parse_u64, str_from_utf8, unsigned_value};

verus! {

/// How many bytes a codec buffers at most unless told otherwise.
pub const DEFAULT_MAX_SIZE: usize = 1048576;

/// Errors from decoding RTSP responses.
#[derive(Debug, Clone, PartialEq, Eq)]
pub enum RtspCodecError {
    /// The head of the response is not valid UTF-8.
    InvalidEncoding,
    /// The status line is not `RTSP/<version> <code> [<reason>]`.
    InvalidStatusLine(String),
    /// A header line has no colon.
    InvalidHeader(String),
    /// The `Content-Length` header is not a number that fits in `usize`.
    InvalidContentLength(String),
    /// Buffering the data would exceed the size limit.
    ResponseTooLarge {
        /// Bytes that would have been buffered
        size: usize,
        /// The limit
        max: usize,
    },
}

/// A codec error as the contracts see it.
pub enum CodecErrorView {
    InvalidEncoding,
    InvalidStatusLine(Seq<char>),
    InvalidHeader(Seq<char>),
    InvalidContentLength(Seq<char>),
    ResponseTooLarge { size: nat, max: nat },
}

impl View for RtspCodecError {
    type V = CodecErrorView;

    open spec fn view(&self) -> CodecErrorView {
        match self {
            RtspCodecError::InvalidEncoding => CodecErrorView::InvalidEncoding,
            RtspCodecError::InvalidStatusLine(l) => CodecErrorView::InvalidStatusLine(l@),
            RtspCodecError::InvalidHeader(l) => CodecErrorView::InvalidHeader(l@),
            RtspCodecError::InvalidContentLength(v) => CodecErrorView::InvalidContentLength(v@),
            RtspCodecError::ResponseTooLarge { size, max } => CodecErrorView::ResponseTooLarge {
                size: *size as nat,
                max: *max as nat,
            },
        }
    }
}

/// The parts of a status line `RTSP/<version> <code> [<reason>]`: the
/// version, the code (a number that fits in `u16`) and the reason phrase
/// (everything after the second space, empty when there is none).
pub open spec fn status_line(l: Seq<char>) -> Option<(Seq<char>, u16, Seq<char>)> {
    match split_once(l, ' ') {
        None => None,
        Some(p) => {
            let code = match split_once(p.1, ' ') {
                Some(q) => q.0,
                None => p.1,
            };
            let reason = match split_once(p.1, ' ') {
                Some(q) => q.1,
                None => Seq::empty(),
            };
            if !is_rtsp_version(p.0) {
                None
            } else {
                match unsigned_value(code) {
                    Some(n) => if n <= 0xffff {
                        Some((p.0, n as u16, reason))
                    } else {
                        None
                    },
                    None => None,
                }
            }
        },
    }
}

/// Parse a status line.
pub fn parse_status_line(l: &str) -> (r: Option<(String, u16, String)>)
    ensures
        r matches Some(p) ==> status_line(l@) == Some((p.0@, p.1, p.2@)),
        r is None ==> status_line(l@) is None,
{
    let (version, rest) = match split_at_first(l, ' ') {
        None => return None,
        Some(p) => p,
    };
    let (code, reason) = match split_at_first(rest.as_str(), ' ') {
        Some(q) => q,
        None => (rest, String::new()),
    };
    if !rtsp_version(version.as_str()) {
        return None;
    }
    match parse_u64(code.as_str()) {
        Some(n) => if n <= 0xffff {
            Some((version, n as u16, reason))
        } else {
            None
        },
        None => None,
    }
}

/// What decoding the front of `buf` gives: an error, nothing yet (the
/// response is not complete), or a response and the number of bytes it
/// takes. The status line is checked first, then each header line, then
/// the body length; a response is complete once its whole body is there.
pub open spec fn spec_decode_response(buf: Seq<u8>) -> Result<
    Option<(ResponseView, nat)>,
    CodecErrorView,
> {
    match head_end(buf) {
        None => Ok(None),
        Some(e) => {
            let head = buf.subrange(0, e);
            if !valid_utf8(head) {
                Err(CodecErrorView::InvalidEncoding)
            } else {
                let lines = crlf_lines(decode_utf8(head));
                match status_line(lines[0]) {
                    None => Err(CodecErrorView::InvalidStatusLine(lines[0])),
                    Some(st) => match parse_header_lines(lines.subrange(1, lines.len() as int)) {
                        Err(l) => Err(CodecErrorView::InvalidHeader(l)),
                        Ok(h) => match body_length(h) {
                            Err(v) => Err(CodecErrorView::InvalidContentLength(v)),
                            Ok(n) => if e + 4 + n <= buf.len() {
                                Ok(
                                    Some(
                                        (
                                            ResponseView {
                                                version: st.0,
                                                status: st.1,
                                                reason: st.2,
                                                headers: h,
                                                body: buf.subrange(e + 4, e + 4 + n),
                                            },
                                            (e + 4 + n) as nat,
                                        ),
                                    ),
                                )
                            } else {
                                Ok(None)
                            },
                        },
                    },
                }
            }
        },
    }
}

/// How a call of `decode` on the buffer `before` ends, with `r` returned
/// and `after` left buffered: an error or an incomplete response leave the
/// buffer as it was; a complete response is taken off its front.
pub open spec fn decode_outcome(
    before: Seq<u8>,
    r: Result<Option<RtspResponse>, RtspCodecError>,
    after: Seq<u8>,
) -> bool {
    match spec_decode_response(before) {
        Err(e) => r matches Err(x) && x@ == e && after == before,
        Ok(None) => r matches Ok(None) && after == before,
        Ok(Some(p)) => r matches Ok(Some(resp)) && resp@ == p.0 && after == before.subrange(
            p.1 as int,
            before.len() as int,
        ),
    }
}

/// The error for a buffer that would grow to `size` bytes past the limit
/// `max`; the size given saturates at `usize::MAX`.
pub open spec fn too_large(size: nat, max: nat) -> CodecErrorView {
    CodecErrorView::ResponseTooLarge {
        size: if size <= usize::MAX {
            size
        } else {
            usize::MAX as nat
        },
        max,
    }
}

/// An incremental decoder of RTSP responses.
#[derive(Debug)]
pub struct RtspCodec {
    buffer: Vec<u8>,
    max_size: usize,
}

impl RtspCodec {
    /// The bytes buffered and not yet decoded.
    pub closed spec fn buffered(&self) -> Seq<u8> {
        self.buffer@
    }

    /// The most bytes the codec buffers.
    pub closed spec fn max_size(&self) -> nat {
        self.max_size as nat
    }

    /// A codec with an empty buffer and the default size limit.
    pub fn new() -> (r: Self)
        ensures
            r.buffered() == Seq::<u8>::empty(),
            r.max_size() == DEFAULT_MAX_SIZE,
    {
        RtspCodec { buffer: Vec::new(), max_size: DEFAULT_MAX_SIZE }
    }

    /// The same codec with another size limit.
    pub fn with_max_size(self, max: usize) -> (r: Self)
        ensures
            r.buffered() == self.buffered(),
            r.max_size() == max,
    {
        RtspCodec { buffer: self.buffer, max_size: max }
    }

    /// Append received bytes to the buffer, unless that would take it past
    /// the size limit; then nothing is buffered and the error gives the
    /// size it would have reached (at most `usize::MAX`).
    pub fn feed(&mut self, data: &[u8]) -> (r: Result<(), RtspCodecError>)
        ensures
            final(self).max_size() == old(self).max_size(),
            old(self).buffered().len() + data@.len() <= old(self).max_size() ==> r is Ok
                && final(self).buffered() == old(self).buffered() + data@,
            old(self).buffered().len() + data@.len() > old(self).max_size() ==> (r matches Err(e)
                && e@ == too_large(old(self).buffered().len() + data@.len(), old(self).max_size())
                && final(self).buffered() == old(self).buffered()),
    {
        let size = self.buffer.len().saturating_add(data.len());
        if self.buffer.len() > self.max_size || data.len() > self.max_size - self.buffer.len() {
            return Err(RtspCodecError::ResponseTooLarge { size, max: self.max_size });
        }
        self.buffer.extend_from_slice(data);
        Ok(())
    }

    /// Decode the next complete response at the front of the buffer, if
    /// there is one.
    pub fn decode(&mut self) -> (r: Result<Option<RtspResponse>, RtspCodecError>)
        ensures
            final(self).max_size() == old(self).max_size(),
            decode_outcome(old(self).buffered(), r, final(self).buffered()),
    {
        let ghost buf = self.buffer@;
        let e = match find_head_end(self.buffer.as_slice()) {
            None => return Ok(None),
            Some(e) => e,
        };
        proof {
            lemma_blank_line_from(buf, 0);
            assert(blank_line_at(buf, e as int));
        }
        let text = match str_from_utf8(&self.buffer.as_slice()[0..e]) {
            None => return Err(RtspCodecError::InvalidEncoding),
            Some(t) => t,
        };
        proof {
            assert(self.buffer@.subrange(0, e as int) == buf.subrange(0, e as int));
        }
        let lines = split_lines(text.as_str());
        let ghost ls = lines@.map_values(|l: String| l@);
        proof {
            assert(ls[0] == lines@[0]@);
        }
        let (version, code, reason) = match parse_status_line(lines[0].as_str()) {
            None => return Err(RtspCodecError::InvalidStatusLine(lines[0].clone())),
            Some(p) => p,
        };
        let headers = match parse_headers(&lines, 1) {
            Err(l) => return Err(RtspCodecError::InvalidHeader(l)),
            Ok(h) => h,
        };
        let n = match body_length_of(&headers) {
            Err(v) => return Err(RtspCodecError::InvalidContentLength(v)),
            Ok(n) => n,
        };
        let blen = self.buffer.len();
        assert(e + 4 <= blen);
        let start = e + 4;
        if n > blen - start {
            return Ok(None);
        }
        let body = copy_bytes(&self.buffer.as_slice()[start..start + n]);
        let rest = copy_bytes(&self.buffer.as_slice()[start + n..blen]);
        self.buffer = rest;
        Ok(Some(RtspResponse { version, status: StatusCode(code), reason, headers, body }))
    }

    /// Drop everything buffered.
    pub fn reset(&mut self)
        ensures
            final(self).buffered() == Seq::<u8>::empty(),
            final(self).max_size() == old(self).max_size(),
    {
        self.buffer = Vec::new();
    }

    /// How many bytes are buffered.
    pub fn buffered_len(&self) -> (r: usize)
        ensures
            r == self.buffered().len(),
    {
        self.buffer.len()
    }
}

} // verus!
