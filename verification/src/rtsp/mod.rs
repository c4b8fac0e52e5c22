//! Sans-IO RTSP client protocol for AirPlay: methods, headers, requests,
//! responses and the session state machine.
use vstd::prelude::*;
use vstd::utf8::is_ascii_chars;
use crate::text::str_eq;

pub mod codec;
pub mod headers;
pub mod request;
pub mod response;
pub mod roundtrip;
pub mod server_codec;
pub mod session;
pub mod transport;
pub mod wire;

pub use codec::{RtspCodec, RtspCodecError};
pub use headers::Headers;
pub use request::{RtspRequest, RtspRequestBuilder};
pub use response::{RtspResponse, StatusCode};
pub use session::{RtspSession, SessionState};

verus! {

/// RTSP methods used in AirPlay.
#[derive(Debug, Clone, Copy, PartialEq, Eq, Structural)]
pub enum Method {
    /// Initiate session options negotiation
    Options,
    /// Announce stream information (SDP)
    Announce,
    /// Set up transport and session
    Setup,
    /// Start recording/streaming
    Record,
    /// Play (URL-based streaming)
    Play,
    /// Pause playback
    Pause,
    /// Flush buffers
    Flush,
    /// Tear down session
    Teardown,
    /// Set parameter (volume, progress, etc.)
    SetParameter,
    /// Get parameter (playback info, etc.)
    GetParameter,
    /// POST for pairing/auth
    Post,
    /// GET for info
    Get,
    /// Set playback rate and anchor time
    SetRateAnchorTime,
}

/// What `str::to_uppercase` returns for a string (full Unicode case
/// mapping).
pub uninterp spec fn unicode_uppercase(s: Seq<char>) -> Seq<char>;

/// The ASCII upper-case form of a character (other characters unchanged).
pub open spec fn ascii_upper(c: char) -> char {
    if 'a' <= c && c <= 'z' {
        ((c as u32) - 32) as char
    } else {
        c
    }
}

/// `str::to_uppercase`: the Unicode upper-case form of the string. As its
/// documentation gives for ASCII text, an ASCII string maps letter by letter
/// to `A`..`Z`; what it gives for other text is only named.
#[verifier::external_body]
fn to_uppercase(s: &str) -> (r: String)
    ensures
        r@ == unicode_uppercase(s@),
        is_ascii_chars(s@) ==> r@ == Seq::new(s@.len(), |i: int| ascii_upper(s@[i])),
{
    s.to_uppercase()
}

impl Method {
    /// The method's name on the wire.
    pub open spec fn spec_name(self) -> Seq<char> {
        match self {
            Method::Options => "OPTIONS"@,
            Method::Announce => "ANNOUNCE"@,
            Method::Setup => "SETUP"@,
            Method::Record => "RECORD"@,
            Method::Play => "PLAY"@,
            Method::Pause => "PAUSE"@,
            Method::Flush => "FLUSH"@,
            Method::Teardown => "TEARDOWN"@,
            Method::SetParameter => "SET_PARAMETER"@,
            Method::GetParameter => "GET_PARAMETER"@,
            Method::Post => "POST"@,
            Method::Get => "GET"@,
            Method::SetRateAnchorTime => "SETRATEANCHORTIME"@,
        }
    }

    /// The method whose wire name is exactly `name`, if any.
    pub open spec fn spec_from_name(name: Seq<char>) -> Option<Method> {
        if name == Method::Options.spec_name() {
            Some(Method::Options)
        } else if name == Method::Announce.spec_name() {
            Some(Method::Announce)
        } else if name == Method::Setup.spec_name() {
            Some(Method::Setup)
        } else if name == Method::Record.spec_name() {
            Some(Method::Record)
        } else if name == Method::Play.spec_name() {
            Some(Method::Play)
        } else if name == Method::Pause.spec_name() {
            Some(Method::Pause)
        } else if name == Method::Flush.spec_name() {
            Some(Method::Flush)
        } else if name == Method::Teardown.spec_name() {
            Some(Method::Teardown)
        } else if name == Method::SetParameter.spec_name() {
            Some(Method::SetParameter)
        } else if name == Method::GetParameter.spec_name() {
            Some(Method::GetParameter)
        } else if name == Method::Post.spec_name() {
            Some(Method::Post)
        } else if name == Method::Get.spec_name() {
            Some(Method::Get)
        } else if name == Method::SetRateAnchorTime.spec_name() {
            Some(Method::SetRateAnchorTime)
        } else {
            None
        }
    }

    /// Convert to RTSP method string.
    pub fn as_str(self) -> (r: &'static str)
        ensures
            r@ == self.spec_name(),
    {
        match self {
            Method::Options => "OPTIONS",
            Method::Announce => "ANNOUNCE",
            Method::Setup => "SETUP",
            Method::Record => "RECORD",
            Method::Play => "PLAY",
            Method::Pause => "PAUSE",
            Method::Flush => "FLUSH",
            Method::Teardown => "TEARDOWN",
            Method::SetParameter => "SET_PARAMETER",
            Method::GetParameter => "GET_PARAMETER",
            Method::Post => "POST",
            Method::Get => "GET",
            Method::SetRateAnchorTime => "SETRATEANCHORTIME",
        }
    }

    /// The method whose wire name is exactly `name` (already upper case).
    pub fn from_name(name: &str) -> (r: Option<Method>)
        ensures
            r == Method::spec_from_name(name@),
    {
        if str_eq(name, "OPTIONS") {
            Some(Method::Options)
        } else if str_eq(name, "ANNOUNCE") {
            Some(Method::Announce)
        } else if str_eq(name, "SETUP") {
            Some(Method::Setup)
        } else if str_eq(name, "RECORD") {
            Some(Method::Record)
        } else if str_eq(name, "PLAY") {
            Some(Method::Play)
        } else if str_eq(name, "PAUSE") {
            Some(Method::Pause)
        } else if str_eq(name, "FLUSH") {
            Some(Method::Flush)
        } else if str_eq(name, "TEARDOWN") {
            Some(Method::Teardown)
        } else if str_eq(name, "SET_PARAMETER") {
            Some(Method::SetParameter)
        } else if str_eq(name, "GET_PARAMETER") {
            Some(Method::GetParameter)
        } else if str_eq(name, "POST") {
            Some(Method::Post)
        } else if str_eq(name, "GET") {
            Some(Method::Get)
        } else if str_eq(name, "SETRATEANCHORTIME") {
            Some(Method::SetRateAnchorTime)
        } else {
            None
        }
    }

    /// Parse a method name, ignoring case (the name is upper-cased first).
    pub fn from_str(s: &str) -> (r: Option<Method>)
        ensures
            r == Method::spec_from_name(unicode_uppercase(s@)),
            is_ascii_chars(s@) ==> r == Method::spec_from_name(
                Seq::new(s@.len(), |i: int| ascii_upper(s@[i])),
            ),
    {
        let upper = to_uppercase(s);
        Method::from_name(upper.as_str())
    }
}

/// Every method's wire name parses back to that method.
pub proof fn lemma_method_name_roundtrip(m: Method)
    ensures
        Method::spec_from_name(m.spec_name()) == Some(m),
{
    reveal_strlit("OPTIONS");
    reveal_strlit("ANNOUNCE");
    reveal_strlit("SETUP");
    reveal_strlit("RECORD");
    reveal_strlit("PLAY");
    reveal_strlit("PAUSE");
    reveal_strlit("FLUSH");
    reveal_strlit("TEARDOWN");
    reveal_strlit("SET_PARAMETER");
    reveal_strlit("GET_PARAMETER");
    reveal_strlit("POST");
    reveal_strlit("GET");
    reveal_strlit("SETRATEANCHORTIME");
    let names = seq![
        Method::Options,
        Method::Announce,
        Method::Setup,
        Method::Record,
        Method::Play,
        Method::Pause,
        Method::Flush,
        Method::Teardown,
        Method::SetParameter,
        Method::GetParameter,
        Method::Post,
        Method::Get,
        Method::SetRateAnchorTime,
    ];
    assert forall|i: int, j: int|
        0 <= i < 13 && 0 <= j < 13 && i != j implies #[trigger] names[i].spec_name() != #[trigger] names[j].spec_name() by {
        if names[i].spec_name().len() == names[j].spec_name().len() {
            assert(names[i].spec_name()[0] != names[j].spec_name()[0]
                || names[i].spec_name()[1] != names[j].spec_name()[1]
                || names[i].spec_name()[2] != names[j].spec_name()[2]);
        }
    }
    assert(names[0] == Method::Options);
    assert(names[1] == Method::Announce);
    assert(names[2] == Method::Setup);
    assert(names[3] == Method::Record);
    assert(names[4] == Method::Play);
    assert(names[5] == Method::Pause);
    assert(names[6] == Method::Flush);
    assert(names[7] == Method::Teardown);
    assert(names[8] == Method::SetParameter);
    assert(names[9] == Method::GetParameter);
    assert(names[10] == Method::Post);
    assert(names[11] == Method::Get);
    assert(names[12] == Method::SetRateAnchorTime);
}

impl std::str::FromStr for Method {
    type Err = ();

    fn from_str(s: &str) -> Result<Self, Self::Err> {
        match Method::from_str(s) {
            Some(m) => Ok(m),
            None => Err(()),
        }
    }
}

} // verus!
