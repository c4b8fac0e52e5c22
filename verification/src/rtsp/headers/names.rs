//! Standard header names.
use vstd::prelude::*;

verus! {

/// `CSeq`
pub const CSEQ: &'static str = "CSeq";

/// `Content-Type`
pub const CONTENT_TYPE: &'static str = "Content-Type";

/// `Content-Length`
pub const CONTENT_LENGTH: &'static str = "Content-Length";

/// `User-Agent`
pub const USER_AGENT: &'static str = "User-Agent";

/// `Session`
pub const SESSION: &'static str = "Session";

/// `Transport`
pub const TRANSPORT: &'static str = "Transport";

/// `X-Apple-Device-ID`
pub const X_APPLE_DEVICE_ID: &'static str = "X-Apple-Device-ID";

/// `X-Apple-Session-ID`
pub const X_APPLE_SESSION_ID: &'static str = "X-Apple-Session-ID";

} // verus!
