//! RTSP session state machine: CSeq numbering, session ID tracking and the
//! state changes that responses bring.
use vstd::prelude::*;
use super::headers::{names, spec_get, spec_insert, HeaderSeq};
use super::request::{RtspRequest, RtspRequestBuilder};
use super::response::RtspResponse;
use super::Method;
use crate::text::{before_first, decimal, decimal_string, hex_digits, hex_string, prefix_before};

verus! {

/// RTSP session states.
#[derive(Debug, Clone, Copy, PartialEq, Eq, Structural)]
pub enum SessionState {
    /// Initial state, no session established
    Init,
    /// OPTIONS exchanged, ready for setup
    Ready,
    /// SETUP complete, transport configured
    Setup,
    /// RECORD/PLAY started, streaming active
    Playing,
    /// Paused
    Paused,
    /// Session terminated
    Terminated,
}

/// A session as the contracts see it.
pub struct SessionModel {
    /// Current state.
    pub state: SessionState,
    /// The last CSeq used (0 before the first request).
    pub cseq: u32,
    /// The server's session ID, once a response carried one.
    pub session_id: Option<Seq<char>>,
    /// Our device ID (16 upper-case hex digits).
    pub device_id: Seq<char>,
    /// Our session ID (16 upper-case hex digits).
    pub client_session_id: Seq<char>,
    /// Base URI of requests: `rtsp://address:port`.
    pub base_uri: Seq<char>,
    /// User agent.
    pub user_agent: Seq<char>,
}

/// The user agent of this library.
pub open spec fn user_agent_text() -> Seq<char> {
    "airplay2-rs/0.1.0"@
}

/// The URI of a request for `path`: the base URI, then the path, with a
/// `/` between them unless the path starts with one.
pub open spec fn request_uri(base: Seq<char>, path: Seq<char>) -> Seq<char> {
    if path.len() > 0 && path[0] == '/' {
        base + path
    } else {
        base + "/"@ + path
    }
}

/// The headers every request of the session carries, with CSeq `cseq`.
pub open spec fn common_headers(s: SessionModel, cseq: int) -> HeaderSeq {
    let h = spec_insert(
        spec_insert(
            spec_insert(
                spec_insert(Seq::empty(), names::CSEQ@, decimal(cseq as nat)),
                names::USER_AGENT@,
                s.user_agent,
            ),
            names::X_APPLE_DEVICE_ID@,
            s.device_id,
        ),
        names::X_APPLE_SESSION_ID@,
        s.client_session_id,
    );
    match s.session_id {
        Some(id) => spec_insert(h, names::SESSION@, id),
        None => h,
    }
}

/// The session after one more request: the CSeq counter advances.
pub open spec fn after_request(s: SessionModel) -> SessionModel {
    SessionModel { cseq: (s.cseq + 1) as u32, ..s }
}

/// The state that a successful response to `method` leads to.
pub open spec fn next_state(state: SessionState, method: Method) -> SessionState {
    match method {
        Method::Options => SessionState::Ready,
        Method::Setup => SessionState::Setup,
        Method::Record | Method::Play => SessionState::Playing,
        Method::Pause => SessionState::Paused,
        Method::Teardown => SessionState::Terminated,
        _ => state,
    }
}

/// The session after a successful response to `method` with headers `h`:
/// the session ID (up to any `;`) is taken from a `Session` header, and the
/// state moves on.
pub open spec fn after_response(s: SessionModel, method: Method, h: HeaderSeq) -> SessionModel {
    SessionModel {
        session_id: match spec_get(h, names::SESSION@) {
            Some(v) => Some(before_first(v, ';')),
            None => s.session_id,
        },
        state: next_state(s.state, method),
        ..s
    }
}

/// Which methods may be sent in which state.
pub open spec fn spec_can_send(state: SessionState, method: Method) -> bool {
    match (state, method) {
        (SessionState::Init, Method::Options | Method::Post) => true,
        (SessionState::Ready, Method::Setup | Method::Post) => true,
        (SessionState::Setup, Method::Record | Method::Play) => true,
        (
            SessionState::Playing,
            Method::Pause
            | Method::Flush
            | Method::SetParameter
            | Method::GetParameter
            | Method::Teardown,
        ) => true,
        (
            SessionState::Paused,
            Method::Record | Method::Play | Method::Teardown | Method::SetParameter,
        ) => true,
        (_, Method::Options | Method::Teardown) => true,
        _ => false,
    }
}

/// Streaming starts only after a completed SETUP: PLAY and RECORD may be
/// sent only in the Setup and Paused states (never before SETUP, while
/// playing, or after TEARDOWN); before SETUP, in the Ready state, exactly
/// OPTIONS, SETUP, POST and TEARDOWN may be sent; OPTIONS and TEARDOWN may
/// be sent in every state.
pub proof fn lemma_streaming_needs_setup(state: SessionState, method: Method)
    ensures
        (method == Method::Play || method == Method::Record) && spec_can_send(state, method) ==> (
        state == SessionState::Setup || state == SessionState::Paused),
        spec_can_send(SessionState::Ready, method) <==> (method == Method::Options || method
            == Method::Setup || method == Method::Post || method == Method::Teardown),
        spec_can_send(state, Method::Options),
        spec_can_send(state, Method::Teardown),
{
}

/// The message of a failed response: `METHOD failed: CODE REASON`.
pub open spec fn failure_message(method: Method, status: u16, reason: Seq<char>) -> Seq<char> {
    method.spec_name() + " failed: "@ + decimal(status as nat) + " "@ + reason
}

/// RTSP session manager (sans-IO).
///
/// Manages session state, CSeq numbering, and session ID tracking.
pub struct RtspSession {
    state: SessionState,
    cseq: u32,
    session_id: Option<String>,
    device_id: String,
    client_session_id: String,
    base_uri: String,
    user_agent: String,
}

impl View for RtspSession {
    type V = SessionModel;

    closed spec fn view(&self) -> SessionModel {
        SessionModel {
            state: self.state,
            cseq: self.cseq,
            session_id: match self.session_id {
                Some(s) => Some(s@),
                None => None,
            },
            device_id: self.device_id@,
            client_session_id: self.client_session_id@,
            base_uri: self.base_uri@,
            user_agent: self.user_agent@,
        }
    }
}

impl RtspSession {
    /// Create a new session with fresh random device and session IDs.
    pub fn new(device_address: &str, port: u16) -> (r: Self)
        ensures
            r@.state == SessionState::Init,
            r@.cseq == 0,
            r@.session_id is None,
            r@.base_uri == "rtsp://"@ + device_address@ + ":"@ + decimal(port as nat),
            r@.user_agent == user_agent_text(),
            exists|d: u64| r@.device_id == hex_digits(d as nat, 16),
            exists|d: u64| r@.client_session_id == hex_digits(d as nat, 16),
    {
        let device_id: u64 = crate::rng::random_u64();
        let session_id: u64 = crate::rng::random_u64();
        let mut base_uri = String::from_str("rtsp://");
        base_uri.append(device_address);
        base_uri.append(":");
        let p = decimal_string(port as u64);
        base_uri.append(p.as_str());
        let r = Self {
            state: SessionState::Init,
            cseq: 0,
            session_id: None,
            device_id: hex_string(device_id, 16),
            client_session_id: hex_string(session_id, 16),
            base_uri,
            user_agent: String::from_str("airplay2-rs/0.1.0"),
        };
        assert(r@.device_id == hex_digits(device_id as nat, 16));
        assert(r@.client_session_id == hex_digits(session_id as nat, 16));
        r
    }

    /// Get current session state.
    pub fn state(&self) -> (r: SessionState)
        ensures
            r == self@.state,
    {
        self.state
    }

    /// Get server session ID (if established).
    pub fn session_id(&self) -> (r: Option<&str>)
        ensures
            r matches Some(v) ==> self@.session_id == Some(v@),
            r is None ==> self@.session_id is None,
    {
        match &self.session_id {
            Some(s) => Some(s.as_str()),
            None => None,
        }
    }

    /// Get next CSeq and increment counter.
    fn next_cseq(&mut self) -> (r: u32)
        requires
            old(self)@.cseq < u32::MAX,
        ensures
            r == old(self)@.cseq + 1,
            final(self)@ == after_request(old(self)@),
    {
        self.cseq = self.cseq + 1;
        self.cseq
    }

    /// Create a request builder with the headers common to all requests.
    fn request_builder(&mut self, method: Method, path: &str) -> (r: RtspRequestBuilder)
        requires
            old(self)@.cseq < u32::MAX,
        ensures
            final(self)@ == after_request(old(self)@),
            r.request().method == method,
            r.request().uri@ == request_uri(old(self)@.base_uri, path@),
            r.request().headers@ == common_headers(old(self)@, old(self)@.cseq + 1),
            r.request().body@ == Seq::<u8>::empty(),
    {
        let mut uri = String::from_str(self.base_uri.as_str());
        if path.unicode_len() > 0 && path.get_char(0) == '/' {
            uri.append(path);
        } else {
            uri.append("/");
            uri.append(path);
        }
        let ghost s0 = self@;
        let c = self.next_cseq();
        let mut builder = RtspRequest::builder(method, uri.as_str()).cseq(c).user_agent(
            self.user_agent.as_str(),
        ).header(names::X_APPLE_DEVICE_ID, self.device_id.as_str()).header(
            names::X_APPLE_SESSION_ID,
            self.client_session_id.as_str(),
        );
        match &self.session_id {
            Some(session) => {
                builder = builder.session(session.as_str());
            },
            None => {},
        }
        assert(s0.cseq + 1 == c);
        builder
    }

    /// Create OPTIONS request.
    pub fn options_request(&mut self) -> (r: RtspRequest)
        requires
            old(self)@.cseq < u32::MAX,
        ensures
            final(self)@ == after_request(old(self)@),
            r.method == Method::Options,
            r.uri@ == request_uri(old(self)@.base_uri, "*"@),
            r.headers@ == common_headers(old(self)@, old(self)@.cseq + 1),
            r.body@ == Seq::<u8>::empty(),
    {
        self.request_builder(Method::Options, "*").build()
    }

    /// Create SETUP request.
    pub fn setup_request(&mut self, transport_params: &str) -> (r: RtspRequest)
        requires
            old(self)@.cseq < u32::MAX,
        ensures
            final(self)@ == after_request(old(self)@),
            r.method == Method::Setup,
            r.uri@ == request_uri(old(self)@.base_uri, ""@),
            r.headers@ == spec_insert(
                common_headers(old(self)@, old(self)@.cseq + 1),
                names::TRANSPORT@,
                transport_params@,
            ),
            r.body@ == Seq::<u8>::empty(),
    {
        self.request_builder(Method::Setup, "").header(names::TRANSPORT, transport_params).build()
    }

    /// Create RECORD request.
    pub fn record_request(&mut self) -> (r: RtspRequest)
        requires
            old(self)@.cseq < u32::MAX,
        ensures
            final(self)@ == after_request(old(self)@),
            r.method == Method::Record,
            r.uri@ == request_uri(old(self)@.base_uri, ""@),
            r.headers@ == spec_insert(
                spec_insert(
                    common_headers(old(self)@, old(self)@.cseq + 1),
                    "Range"@,
                    "npt=0-"@,
                ),
                "RTP-Info"@,
                "seq=0;rtptime=0"@,
            ),
            r.body@ == Seq::<u8>::empty(),
    {
        self.request_builder(Method::Record, "").header("Range", "npt=0-").header(
            "RTP-Info",
            "seq=0;rtptime=0",
        ).build()
    }

    /// Create SET_PARAMETER request.
    pub fn set_parameter_request(&mut self, content_type: &str, body: Vec<u8>) -> (r: RtspRequest)
        requires
            old(self)@.cseq < u32::MAX,
        ensures
            final(self)@ == after_request(old(self)@),
            r.method == Method::SetParameter,
            r.uri@ == request_uri(old(self)@.base_uri, ""@),
            r.headers@ == spec_insert(
                common_headers(old(self)@, old(self)@.cseq + 1),
                names::CONTENT_TYPE@,
                content_type@,
            ),
            r.body@ == body@,
    {
        self.request_builder(Method::SetParameter, "").content_type(content_type).body(
            body,
        ).build()
    }

    /// Create GET_PARAMETER request.
    pub fn get_parameter_request(&mut self) -> (r: RtspRequest)
        requires
            old(self)@.cseq < u32::MAX,
        ensures
            final(self)@ == after_request(old(self)@),
            r.method == Method::GetParameter,
            r.uri@ == request_uri(old(self)@.base_uri, ""@),
            r.headers@ == common_headers(old(self)@, old(self)@.cseq + 1),
            r.body@ == Seq::<u8>::empty(),
    {
        self.request_builder(Method::GetParameter, "").build()
    }

    /// Create FLUSH request.
    pub fn flush_request(&mut self, seq: u16, timestamp: u32) -> (r: RtspRequest)
        requires
            old(self)@.cseq < u32::MAX,
        ensures
            final(self)@ == after_request(old(self)@),
            r.method == Method::Flush,
            r.uri@ == request_uri(old(self)@.base_uri, ""@),
            r.headers@ == spec_insert(
                common_headers(old(self)@, old(self)@.cseq + 1),
                "RTP-Info"@,
                "seq="@ + decimal(seq as nat) + ";rtptime="@ + decimal(timestamp as nat),
            ),
            r.body@ == Seq::<u8>::empty(),
    {
        let mut info = String::from_str("seq=");
        let s = decimal_string(seq as u64);
        info.append(s.as_str());
        info.append(";rtptime=");
        let t = decimal_string(timestamp as u64);
        info.append(t.as_str());
        self.request_builder(Method::Flush, "").header("RTP-Info", info.as_str()).build()
    }

    /// Create TEARDOWN request.
    pub fn teardown_request(&mut self) -> (r: RtspRequest)
        requires
            old(self)@.cseq < u32::MAX,
        ensures
            final(self)@ == after_request(old(self)@),
            r.method == Method::Teardown,
            r.uri@ == request_uri(old(self)@.base_uri, ""@),
            r.headers@ == common_headers(old(self)@, old(self)@.cseq + 1),
            r.body@ == Seq::<u8>::empty(),
    {
        self.request_builder(Method::Teardown, "").build()
    }

    /// Process a response to `method` and update the session: a failed
    /// response changes nothing and is an error naming the method, the code
    /// and the reason.
    pub fn process_response(&mut self, method: Method, response: &RtspResponse) -> (r: Result<
        (),
        String,
    >)
        ensures
            !(200 <= response.status.0 < 300) ==> (r matches Err(msg) && msg@ == failure_message(
                method,
                response.status.0,
                response.reason@,
            )) && final(self)@ == old(self)@,
            200 <= response.status.0 < 300 ==> r is Ok && final(self)@ == after_response(
                old(self)@,
                method,
                response.headers@,
            ),
    {
        if !response.is_success() {
            let mut msg = String::from_str(method.as_str());
            msg.append(" failed: ");
            let code = decimal_string(response.status.as_u16() as u64);
            msg.append(code.as_str());
            msg.append(" ");
            msg.append(response.reason.as_str());
            return Err(msg);
        }
        match response.session() {
            Some(session) => {
                self.session_id = Some(prefix_before(session, ';'));
            },
            None => {},
        }
        match method {
            Method::Options => {
                self.state = SessionState::Ready;
            },
            Method::Setup => {
                self.state = SessionState::Setup;
            },
            Method::Record | Method::Play => {
                self.state = SessionState::Playing;
            },
            Method::Pause => {
                self.state = SessionState::Paused;
            },
            Method::Teardown => {
                self.state = SessionState::Terminated;
            },
            _ => {},
        }
        Ok(())
    }

    /// Check if a method is valid in the current state.
    pub fn can_send(&self, method: Method) -> (r: bool)
        ensures
            r == spec_can_send(self@.state, method),
    {
        match (self.state, method) {
            (SessionState::Init, Method::Options | Method::Post) => true,
            (SessionState::Ready, Method::Setup | Method::Post) => true,
            (SessionState::Setup, Method::Record | Method::Play) => true,
            (
                SessionState::Playing,
                Method::Pause
                | Method::Flush
                | Method::SetParameter
                | Method::GetParameter
                | Method::Teardown,
            ) => true,
            (
                SessionState::Paused,
                Method::Record | Method::Play | Method::Teardown | Method::SetParameter,
            ) => true,
            (_, Method::Options | Method::Teardown) => true,
            _ => false,
        }
    }
}

/// OPTIONS and TEARDOWN may be sent in every state.
pub proof fn lemma_options_teardown_always_allowed(state: SessionState)
    ensures
        spec_can_send(state, Method::Options),
        spec_can_send(state, Method::Teardown),
{
}

/// Each successful step of the session lifecycle allows the next one:
/// after OPTIONS, SETUP; after SETUP, RECORD or PLAY; while playing, PAUSE,
/// FLUSH, SET_PARAMETER and GET_PARAMETER; after PAUSE, RECORD or PLAY to
/// resume.
pub proof fn lemma_lifecycle_progress(state: SessionState)
    ensures
        spec_can_send(next_state(state, Method::Options), Method::Setup),
        spec_can_send(next_state(state, Method::Setup), Method::Record),
        spec_can_send(next_state(state, Method::Setup), Method::Play),
        spec_can_send(next_state(state, Method::Record), Method::Pause),
        spec_can_send(next_state(state, Method::Record), Method::Flush),
        spec_can_send(next_state(state, Method::Record), Method::SetParameter),
        spec_can_send(next_state(state, Method::Record), Method::GetParameter),
        spec_can_send(next_state(state, Method::Pause), Method::Record),
        spec_can_send(next_state(state, Method::Pause), Method::Play),
{
}

/// Nothing but OPTIONS, POST and TEARDOWN may be sent before the OPTIONS
/// exchange.
pub proof fn lemma_init_allows_little(method: Method)
    requires
        spec_can_send(SessionState::Init, method),
    ensures
        method == Method::Options || method == Method::Post || method == Method::Teardown,
{
}

/// A request's CSeq header carries the number it was given, and the common
/// headers hold the user agent and both IDs.
pub proof fn lemma_common_headers_values(s: SessionModel, cseq: int)
    ensures
        spec_get(common_headers(s, cseq), names::CSEQ@) == Some(decimal(cseq as nat)),
        spec_get(common_headers(s, cseq), names::USER_AGENT@) == Some(s.user_agent),
        spec_get(common_headers(s, cseq), names::X_APPLE_DEVICE_ID@) == Some(s.device_id),
        spec_get(common_headers(s, cseq), names::X_APPLE_SESSION_ID@) == Some(
            s.client_session_id,
        ),
        spec_get(common_headers(s, cseq), names::SESSION@) == s.session_id,
{
    reveal_strlit("CSeq");
    reveal_strlit("User-Agent");
    reveal_strlit("X-Apple-Device-ID");
    reveal_strlit("X-Apple-Session-ID");
    reveal_strlit("Session");
    let e = Seq::<(Seq<char>, Seq<char>)>::empty();
    let n = seq![names::CSEQ@, names::USER_AGENT@, names::X_APPLE_DEVICE_ID@, names::X_APPLE_SESSION_ID@, names::SESSION@];
    let v = seq![decimal(cseq as nat), s.user_agent, s.device_id, s.client_session_id];
    let h1 = spec_insert(e, n[0], v[0]);
    let h2 = spec_insert(h1, n[1], v[1]);
    let h3 = spec_insert(h2, n[2], v[2]);
    let h4 = spec_insert(h3, n[3], v[3]);
    assert forall|i: int, j: int|
        0 <= i < 5 && 0 <= j < 5 && i != j implies !crate::text::eq_ignore_ascii_case(
        #[trigger] n[i],
        #[trigger] n[j],
    ) by {
        if n[i].len() == n[j].len() {
            assert(crate::text::ascii_lower(n[i][0]) != crate::text::ascii_lower(n[j][0])
                || crate::text::ascii_lower(n[i][8]) != crate::text::ascii_lower(n[j][8]));
        }
    }
    assert(spec_get(e, n[0]) is None);
    assert(spec_get(e, n[1]) is None);
    assert(spec_get(e, n[2]) is None);
    assert(spec_get(e, n[3]) is None);
    assert(spec_get(e, n[4]) is None);
    super::headers::lemma_get_insert(e, n[0], v[0], n[0]);
    super::headers::lemma_get_insert(e, n[0], v[0], n[1]);
    super::headers::lemma_get_insert(e, n[0], v[0], n[2]);
    super::headers::lemma_get_insert(e, n[0], v[0], n[3]);
    super::headers::lemma_get_insert(e, n[0], v[0], n[4]);
    super::headers::lemma_get_insert(h1, n[1], v[1], n[0]);
    super::headers::lemma_get_insert(h1, n[1], v[1], n[1]);
    super::headers::lemma_get_insert(h1, n[1], v[1], n[2]);
    super::headers::lemma_get_insert(h1, n[1], v[1], n[3]);
    super::headers::lemma_get_insert(h1, n[1], v[1], n[4]);
    super::headers::lemma_get_insert(h2, n[2], v[2], n[0]);
    super::headers::lemma_get_insert(h2, n[2], v[2], n[1]);
    super::headers::lemma_get_insert(h2, n[2], v[2], n[2]);
    super::headers::lemma_get_insert(h2, n[2], v[2], n[3]);
    super::headers::lemma_get_insert(h2, n[2], v[2], n[4]);
    super::headers::lemma_get_insert(h3, n[3], v[3], n[0]);
    super::headers::lemma_get_insert(h3, n[3], v[3], n[1]);
    super::headers::lemma_get_insert(h3, n[3], v[3], n[2]);
    super::headers::lemma_get_insert(h3, n[3], v[3], n[3]);
    super::headers::lemma_get_insert(h3, n[3], v[3], n[4]);
    match s.session_id {
        Some(id) => {
            super::headers::lemma_get_insert(h4, n[4], id, n[0]);
            super::headers::lemma_get_insert(h4, n[4], id, n[1]);
            super::headers::lemma_get_insert(h4, n[4], id, n[2]);
            super::headers::lemma_get_insert(h4, n[4], id, n[3]);
            super::headers::lemma_get_insert(h4, n[4], id, n[4]);
            assert(crate::text::eq_ignore_ascii_case(n[4], n[4]));
        },
        None => {},
    }
    assert(crate::text::eq_ignore_ascii_case(n[0], n[0]));
    assert(crate::text::eq_ignore_ascii_case(n[1], n[1]));
    assert(crate::text::eq_ignore_ascii_case(n[2], n[2]));
    assert(crate::text::eq_ignore_ascii_case(n[3], n[3]));
}

} // verus!
