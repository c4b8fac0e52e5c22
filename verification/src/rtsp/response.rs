//! RTSP responses and status codes.
use vstd::prelude::*;
use super::headers::{names, spec_get, spec_number, HeaderSeq, Headers};
use super::request::BINARY_PLIST;
use crate::plist::decode::{decode, spec_decode, DecodeErrorView, PlistDecodeError, PlistValue, PlistView};
use crate::text::str_eq;

verus! {

/// An RTSP status code.
#[derive(Debug, Clone, Copy, PartialEq, Eq, Structural)]
pub struct StatusCode(pub u16);

/// The reason phrase that goes with a status code.
pub open spec fn spec_reason(code: u16) -> Seq<char> {
    if code == 200 {
        "OK"@
    } else if code == 400 {
        "Bad Request"@
    } else if code == 401 {
        "Unauthorized"@
    } else if code == 403 {
        "Forbidden"@
    } else if code == 404 {
        "Not Found"@
    } else if code == 405 {
        "Method Not Allowed"@
    } else if code == 453 {
        "Not Enough Bandwidth"@
    } else if code == 454 {
        "Session Not Found"@
    } else if code == 455 {
        "Method Not Valid in This State"@
    } else if code == 470 {
        "Connection Authorization Required"@
    } else if code == 500 {
        "Internal Server Error"@
    } else if code == 501 {
        "Not Implemented"@
    } else if code == 503 {
        "Service Unavailable"@
    } else {
        "Unknown"@
    }
}

impl StatusCode {
    /// The reason phrase for this code.
    pub fn reason_phrase(self) -> (r: &'static str)
        ensures
            r@ == spec_reason(self.0),
    {
        let c = self.0;
        if c == 200 {
            "OK"
        } else if c == 400 {
            "Bad Request"
        } else if c == 401 {
            "Unauthorized"
        } else if c == 403 {
            "Forbidden"
        } else if c == 404 {
            "Not Found"
        } else if c == 405 {
            "Method Not Allowed"
        } else if c == 453 {
            "Not Enough Bandwidth"
        } else if c == 454 {
            "Session Not Found"
        } else if c == 455 {
            "Method Not Valid in This State"
        } else if c == 470 {
            "Connection Authorization Required"
        } else if c == 500 {
            "Internal Server Error"
        } else if c == 501 {
            "Not Implemented"
        } else if c == 503 {
            "Service Unavailable"
        } else {
            "Unknown"
        }
    }

    /// The numeric code.
    pub fn as_u16(self) -> (r: u16)
        ensures
            r == self.0,
    {
        self.0
    }

    /// 2xx
    pub fn is_success(self) -> (r: bool)
        ensures
            r == (200 <= self.0 < 300),
    {
        200 <= self.0 && self.0 < 300
    }

    /// 4xx
    pub fn is_client_error(self) -> (r: bool)
        ensures
            r == (400 <= self.0 < 500),
    {
        400 <= self.0 && self.0 < 500
    }

    /// 5xx
    pub fn is_server_error(self) -> (r: bool)
        ensures
            r == (500 <= self.0 < 600),
    {
        500 <= self.0 && self.0 < 600
    }
}

/// A response as the contracts see it.
pub struct ResponseView {
    /// Protocol version
    pub version: Seq<char>,
    /// Status code
    pub status: u16,
    /// Reason phrase
    pub reason: Seq<char>,
    /// Headers in order
    pub headers: HeaderSeq,
    /// Body bytes
    pub body: Seq<u8>,
}

/// An RTSP response message.
#[derive(Debug, Clone)]
pub struct RtspResponse {
    /// Protocol version (e.g. "RTSP/1.0")
    pub version: String,
    /// Status code
    pub status: StatusCode,
    /// Reason phrase
    pub reason: String,
    /// Response headers
    pub headers: Headers,
    /// Response body
    pub body: Vec<u8>,
}

impl View for RtspResponse {
    type V = ResponseView;

    open spec fn view(&self) -> ResponseView {
        ResponseView {
            version: self.version@,
            status: self.status.0,
            reason: self.reason@,
            headers: self.headers@,
            body: self.body@,
        }
    }
}

impl RtspResponse {
    /// Whether the status is 2xx.
    pub fn is_success(&self) -> (r: bool)
        ensures
            r == (200 <= self.status.0 < 300),
    {
        self.status.is_success()
    }

    /// The `Session` header.
    pub fn session(&self) -> (r: Option<&str>)
        ensures
            r matches Some(v) ==> spec_get(self.headers@, names::SESSION@) == Some(v@),
            r is None ==> spec_get(self.headers@, names::SESSION@) is None,
    {
        self.headers.get(names::SESSION)
    }

    /// The `CSeq` header as a number.
    pub fn cseq(&self) -> (r: Option<u32>)
        ensures
            r matches Some(n) ==> spec_number(self.headers@, names::CSEQ@, u32::MAX as nat)
                == Some(n as nat),
            r is None ==> spec_number(self.headers@, names::CSEQ@, u32::MAX as nat) is None,
    {
        self.headers.cseq()
    }

    /// Whether the body is a binary property list: the `Content-Type`
    /// header names one.
    pub fn is_plist(&self) -> (r: bool)
        ensures
            r == (spec_get(self.headers@, names::CONTENT_TYPE@) == Some(BINARY_PLIST@)),
    {
        match self.headers.get(names::CONTENT_TYPE) {
            Some(ct) => str_eq(ct, BINARY_PLIST),
            None => false,
        }
    }

    /// The body decoded as a binary property list.
    pub fn body_as_plist(&self) -> (r: Result<PlistValue, PlistDecodeError>)
        ensures
            r matches Ok(v) ==> spec_decode(self.body@) == Ok::<PlistView, DecodeErrorView>(v@),
            r matches Err(e) ==> spec_decode(self.body@) == Err::<PlistView, DecodeErrorView>(e@),
    {
        decode(self.body.as_slice())
    }
}

} // verus!
