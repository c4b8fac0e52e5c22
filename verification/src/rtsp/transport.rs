//! The RTSP `Transport` header: `RTP/AVP[/UDP|/TCP]` followed by
//! `;`-separated parameters.
use vstd::prelude::*;
use super::wire::{split_at_first, split_once};
use crate::text::{decimal, decimal_string, parse_u64, str_eq, unsigned_value};

verus! {

/// The transport under RTP.
#[derive(Debug, Clone, Copy, PartialEq, Eq, Structural)]
pub enum LowerTransport {
    /// UDP (the default)
    Udp,
    /// TCP (interleaved)
    Tcp,
}

/// Unicast or multicast delivery.
#[derive(Debug, Clone, Copy, PartialEq, Eq, Structural)]
pub enum CastMode {
    /// Unicast (the default)
    Unicast,
    /// Multicast
    Multicast,
}

/// Errors from parsing a `Transport` header.
#[derive(Debug, Clone, PartialEq, Eq)]
pub enum TransportError {
    /// The header names no protocol.
    Empty,
    /// A known parameter has a value that does not parse.
    InvalidParameter(String),
}

/// A parsed `Transport` header.
#[derive(Debug, Clone)]
pub struct TransportHeader {
    /// Transport protocol without the lower transport (e.g. `RTP/AVP`)
    pub protocol: String,
    /// Lower transport
    pub lower_transport: LowerTransport,
    /// Unicast or multicast
    pub cast: CastMode,
    /// `mode=` parameter
    pub mode: Option<String>,
    /// `control_port=` parameter
    pub control_port: Option<u16>,
    /// `timing_port=` parameter
    pub timing_port: Option<u16>,
    /// `server_port=` parameter
    pub server_port: Option<u16>,
    /// `interleaved=` channel pair
    pub interleaved: Option<(u8, u8)>,
}

/// A `Transport` header as the contracts see it.
pub struct TransportView {
    pub protocol: Seq<char>,
    pub lower_transport: LowerTransport,
    pub cast: CastMode,
    pub mode: Option<Seq<char>>,
    pub control_port: Option<u16>,
    pub timing_port: Option<u16>,
    pub server_port: Option<u16>,
    pub interleaved: Option<(u8, u8)>,
}

/// A transport error as the contracts see it.
pub enum TransportErrorView {
    Empty,
    InvalidParameter(Seq<char>),
}

impl View for TransportError {
    type V = TransportErrorView;

    open spec fn view(&self) -> TransportErrorView {
        match self {
            TransportError::Empty => TransportErrorView::Empty,
            TransportError::InvalidParameter(p) => TransportErrorView::InvalidParameter(p@),
        }
    }
}

impl View for TransportHeader {
    type V = TransportView;

    open spec fn view(&self) -> TransportView {
        TransportView {
            protocol: self.protocol@,
            lower_transport: self.lower_transport,
            cast: self.cast,
            mode: match self.mode {
                Some(m) => Some(m@),
                None => None,
            },
            control_port: self.control_port,
            timing_port: self.timing_port,
            server_port: self.server_port,
            interleaved: self.interleaved,
        }
    }
}

/// The pieces of a text between occurrences of `c` (`str::split` with a
/// character).
pub open spec fn pieces(t: Seq<char>, c: char) -> Seq<Seq<char>>
    decreases t.len(),
{
    if t.len() == 0 {
        seq![Seq::empty()]
    } else if t.last() == c {
        pieces(t.drop_last(), c).push(Seq::empty())
    } else {
        let ls = pieces(t.drop_last(), c);
        ls.update(ls.len() - 1, ls.last().push(t.last()))
    }
}

/// Split a text at every `c`.
pub fn split_char(s: &str, c: char) -> (r: Vec<String>)
    ensures
        r@.map_values(|p: String| p@) == pieces(s@, c),
        r@.len() >= 1,
{
    let n = s.unicode_len();
    let mut out: Vec<String> = Vec::new();
    let mut start: usize = 0;
    let mut i: usize = 0;
    proof {
        assert(s@.subrange(0, 0) =~= Seq::<char>::empty());
        assert(out@.map_values(|p: String| p@).push(s@.subrange(0, 0)) =~= seq![
            Seq::<char>::empty(),
        ]);
    }
    while i < n
        invariant
            n == s@.len(),
            start <= i <= n,
            pieces(s@.subrange(0, i as int), c) == out@.map_values(|p: String| p@).push(
                s@.subrange(start as int, i as int),
            ),
        decreases n - i,
    {
        let ghost before = out@.map_values(|p: String| p@);
        let ghost t = s@.subrange(0, i + 1);
        proof {
            assert(t.drop_last() =~= s@.subrange(0, i as int));
            assert(t.last() == s@[i as int]);
        }
        if s.get_char(i) == c {
            let piece = String::from_str(s.substring_char(start, i));
            out.push(piece);
            proof {
                assert(out@.map_values(|p: String| p@) =~= before.push(
                    s@.subrange(start as int, i as int),
                ));
                assert(s@.subrange(i + 1, i + 1) =~= Seq::<char>::empty());
            }
            i = i + 1;
            start = i;
        } else {
            proof {
                assert(s@.subrange(start as int, i as int).push(s@[i as int]) =~= s@.subrange(
                    start as int,
                    i + 1,
                ));
                assert(before.push(s@.subrange(start as int, i as int)).update(
                    before.len() as int,
                    s@.subrange(start as int, i as int).push(s@[i as int]),
                ) =~= before.push(s@.subrange(start as int, i + 1)));
            }
            i = i + 1;
        }
    }
    let last = String::from_str(s.substring_char(start, n));
    let ghost before = out@.map_values(|p: String| p@);
    out.push(last);
    proof {
        assert(s@.subrange(0, n as int) =~= s@);
        assert(out@.map_values(|p: String| p@) =~= before.push(
            s@.subrange(start as int, n as int),
        ));
    }
    out
}

/// A port number: a decimal number that fits in `u16`.
pub open spec fn port_value(v: Seq<char>) -> Option<u16> {
    match unsigned_value(v) {
        Some(n) => if n <= 0xffff {
            Some(n as u16)
        } else {
            None
        },
        None => None,
    }
}

/// A channel number: a decimal number that fits in `u8`.
pub open spec fn channel_value(v: Seq<char>) -> Option<u8> {
    match unsigned_value(v) {
        Some(n) => if n <= 0xff {
            Some(n as u8)
        } else {
            None
        },
        None => None,
    }
}

/// An interleaved channel pair `a-b`.
pub open spec fn channel_pair(v: Seq<char>) -> Option<(u8, u8)> {
    match split_once(v, '-') {
        Some(p) => match (channel_value(p.0), channel_value(p.1)) {
            (Some(a), Some(b)) => Some((a, b)),
            _ => None,
        },
        None => None,
    }
}

/// The header after one more parameter: `unicast` and `multicast` set the
/// delivery, `mode=`, `control_port=`, `timing_port=`, `server_port=` and
/// `interleaved=` set their field (a value that does not parse is the
/// error), and anything else is ignored.
pub open spec fn apply_param(t: TransportView, p: Seq<char>) -> Result<TransportView, Seq<char>> {
    if p == "unicast"@ {
        Ok(TransportView { cast: CastMode::Unicast, ..t })
    } else if p == "multicast"@ {
        Ok(TransportView { cast: CastMode::Multicast, ..t })
    } else {
        match split_once(p, '=') {
            None => Ok(t),
            Some(kv) => if kv.0 == "mode"@ {
                Ok(TransportView { mode: Some(kv.1), ..t })
            } else if kv.0 == "control_port"@ {
                match port_value(kv.1) {
                    Some(n) => Ok(TransportView { control_port: Some(n), ..t }),
                    None => Err(p),
                }
            } else if kv.0 == "timing_port"@ {
                match port_value(kv.1) {
                    Some(n) => Ok(TransportView { timing_port: Some(n), ..t }),
                    None => Err(p),
                }
            } else if kv.0 == "server_port"@ {
                match port_value(kv.1) {
                    Some(n) => Ok(TransportView { server_port: Some(n), ..t }),
                    None => Err(p),
                }
            } else if kv.0 == "interleaved"@ {
                match channel_pair(kv.1) {
                    Some(c) => Ok(TransportView { interleaved: Some(c), ..t }),
                    None => Err(p),
                }
            } else {
                Ok(t)
            },
        }
    }
}

/// The header after applying the parameters in order; the first one that
/// does not parse is the error.
pub open spec fn apply_params(t: TransportView, ps: Seq<Seq<char>>) -> Result<
    TransportView,
    Seq<char>,
>
    decreases ps.len(),
{
    if ps.len() == 0 {
        Ok(t)
    } else {
        match apply_params(t, ps.drop_last()) {
            Err(e) => Err(e),
            Ok(u) => apply_param(u, ps.last()),
        }
    }
}

/// The protocol and lower transport named by the first part of the
/// header: a trailing `/TCP` or `/UDP` is the lower transport (UDP when
/// there is none).
pub open spec fn protocol_of(first: Seq<char>) -> (Seq<char>, LowerTransport) {
    if first.len() >= 4 && first.subrange(first.len() - 4, first.len() as int) == "/TCP"@ {
        (first.subrange(0, first.len() - 4), LowerTransport::Tcp)
    } else if first.len() >= 4 && first.subrange(first.len() - 4, first.len() as int)
        == "/UDP"@ {
        (first.subrange(0, first.len() - 4), LowerTransport::Udp)
    } else {
        (first, LowerTransport::Udp)
    }
}

/// The header named by its first part, before any parameter.
pub open spec fn transport_start(first: Seq<char>) -> TransportView {
    TransportView {
        protocol: protocol_of(first).0,
        lower_transport: protocol_of(first).1,
        cast: CastMode::Unicast,
        mode: None,
        control_port: None,
        timing_port: None,
        server_port: None,
        interleaved: None,
    }
}

/// What parsing a `Transport` header gives.
pub open spec fn spec_parse_transport(s: Seq<char>) -> Result<TransportView, TransportErrorView> {
    let ps = pieces(s, ';');
    if ps[0].len() == 0 {
        Err(TransportErrorView::Empty)
    } else {
        let start = transport_start(ps[0]);
        match apply_params(start, ps.subrange(1, ps.len() as int)) {
            Ok(t) => Ok(t),
            Err(p) => Err(TransportErrorView::InvalidParameter(p)),
        }
    }
}

fn parse_port(v: &str) -> (r: Option<u16>)
    ensures
        r == port_value(v@),
{
    match parse_u64(v) {
        Some(n) => if n <= 0xffff {
            Some(n as u16)
        } else {
            None
        },
        None => None,
    }
}

fn parse_channel(v: &str) -> (r: Option<u8>)
    ensures
        r == channel_value(v@),
{
    match parse_u64(v) {
        Some(n) => if n <= 0xff {
            Some(n as u8)
        } else {
            None
        },
        None => None,
    }
}

/// A lemma: the first failure stays the result whatever follows.
proof fn lemma_params_error_persists(t: TransportView, ps: Seq<Seq<char>>, k: int)
    requires
        0 <= k <= ps.len(),
        apply_params(t, ps.subrange(0, k)) is Err,
    ensures
        apply_params(t, ps) == apply_params(t, ps.subrange(0, k)),
    decreases ps.len(),
{
    if k < ps.len() {
        assert(ps.drop_last().subrange(0, k) =~= ps.subrange(0, k));
        lemma_params_error_persists(t, ps.drop_last(), k);
    } else {
        assert(ps.subrange(0, k) =~= ps);
    }
}

impl TransportHeader {
    /// Parse a `Transport` header value.
    pub fn parse(s: &str) -> (r: Result<TransportHeader, TransportError>)
        ensures
            r matches Ok(t) ==> spec_parse_transport(s@) == Ok::<
                TransportView,
                TransportErrorView,
            >(t@),
            r matches Err(e) ==> spec_parse_transport(s@) == Err::<
                TransportView,
                TransportErrorView,
            >(e@),
    {
        let parts = split_char(s, ';');
        let ghost ps = parts@.map_values(|p: String| p@);
        proof {
            assert(ps[0] == parts@[0]@);
        }
        let first = parts[0].as_str();
        let n = first.unicode_len();
        if n == 0 {
            return Err(TransportError::Empty);
        }
        let (protocol, lower_transport) = if n >= 4 && str_eq(
            first.substring_char(n - 4, n),
            "/TCP",
        ) {
            (String::from_str(first.substring_char(0, n - 4)), LowerTransport::Tcp)
        } else if n >= 4 && str_eq(first.substring_char(n - 4, n), "/UDP") {
            (String::from_str(first.substring_char(0, n - 4)), LowerTransport::Udp)
        } else {
            (String::from_str(first), LowerTransport::Udp)
        };
        let mut t = TransportHeader {
            protocol,
            lower_transport,
            cast: CastMode::Unicast,
            mode: None,
            control_port: None,
            timing_port: None,
            server_port: None,
            interleaved: None,
        };
        let ghost start = t@;
        proof {
            assert(start == transport_start(ps[0]));
            assert(ps.subrange(1, 1) =~= Seq::<Seq<char>>::empty());
        }
        let mut j: usize = 1;
        while j < parts.len()
            invariant
                1 <= j <= parts@.len(),
                ps == parts@.map_values(|p: String| p@),
                ps == pieces(s@, ';'),
                ps[0].len() > 0,
                start == transport_start(ps[0]),
                apply_params(start, ps.subrange(1, j as int)) == Ok::<
                    TransportView,
                    Seq<char>,
                >(t@),
            decreases parts@.len() - j,
        {
            let p = parts[j].as_str();
            let ghost prev = t@;
            let ghost part = ps.subrange(1, j + 1);
            proof {
                assert(part.drop_last() =~= ps.subrange(1, j as int));
                assert(part.last() == p@);
            }
            let mut failed = false;
            if str_eq(p, "unicast") {
                t.cast = CastMode::Unicast;
            } else if str_eq(p, "multicast") {
                t.cast = CastMode::Multicast;
            } else {
                match split_at_first(p, '=') {
                    None => {},
                    Some(kv) => {
                        let k = kv.0.as_str();
                        let v = kv.1.as_str();
                        if str_eq(k, "mode") {
                            t.mode = Some(String::from_str(v));
                        } else if str_eq(k, "control_port") {
                            match parse_port(v) {
                                Some(n) => t.control_port = Some(n),
                                None => failed = true,
                            }
                        } else if str_eq(k, "timing_port") {
                            match parse_port(v) {
                                Some(n) => t.timing_port = Some(n),
                                None => failed = true,
                            }
                        } else if str_eq(k, "server_port") {
                            match parse_port(v) {
                                Some(n) => t.server_port = Some(n),
                                None => failed = true,
                            }
                        } else if str_eq(k, "interleaved") {
                            let pair = match split_at_first(v, '-') {
                                Some(ab) => match (
                                    parse_channel(ab.0.as_str()),
                                    parse_channel(ab.1.as_str()),
                                ) {
                                    (Some(a), Some(b)) => Some((a, b)),
                                    _ => None,
                                },
                                None => None,
                            };
                            match pair {
                                Some(c) => t.interleaved = Some(c),
                                None => failed = true,
                            }
                        }
                    },
                }
            }
            if failed {
                proof {
                    let all = ps.subrange(1, ps.len() as int);
                    assert(apply_param(prev, p@) == Err::<TransportView, Seq<char>>(p@));
                    assert(all.subrange(0, j as int) =~= part);
                    assert(apply_params(start, part) == Err::<TransportView, Seq<char>>(p@));
                    lemma_params_error_persists(start, all, j as int);
                    assert(apply_params(start, all) == Err::<TransportView, Seq<char>>(p@));
                }
                return Err(TransportError::InvalidParameter(String::from_str(p)));
            }
            proof {
                assert(apply_param(prev, p@) == Ok::<TransportView, Seq<char>>(t@));
            }
            j = j + 1;
        }
        proof {
            assert(ps.subrange(1, parts@.len() as int) =~= ps.subrange(1, ps.len() as int));
        }
        Ok(t)
    }

    /// The `Transport` header of the reply to a SETUP: this header's
    /// protocol, lower transport, delivery and mode, with the receiver's
    /// ports.
    pub fn to_response_header(&self, server_port: u16, control_port: u16, timing_port: u16) -> (r:
        String)
        ensures
            r@ == spec_response_header(self@, server_port, control_port, timing_port),
    {
        let mut s = String::from_str(self.protocol.as_str());
        match self.lower_transport {
            LowerTransport::Udp => s.append("/UDP"),
            LowerTransport::Tcp => s.append("/TCP"),
        }
        s.append(";");
        match self.cast {
            CastMode::Unicast => s.append("unicast"),
            CastMode::Multicast => s.append("multicast"),
        }
        match &self.mode {
            Some(m) => {
                s.append(";");
                let mut mm = String::from_str("mode=");
                mm.append(m.as_str());
                s.append(mm.as_str());
            },
            None => {},
        }
        proof {
            assert(s@ == reply_prefix(self@));
        }
        s.append(";");
        let a = port_text("server_port", server_port);
        s.append(a.as_str());
        s.append(";");
        let b = port_text("control_port", control_port);
        s.append(b.as_str());
        s.append(";");
        let c = port_text("timing_port", timing_port);
        s.append(c.as_str());
        s
    }
}

/// The parameter `key=<port>`.
fn port_text(key: &str, port: u16) -> (r: String)
    ensures
        r@ == port_part(key@, port),
{
    let mut s = String::from_str(key);
    s.append("=");
    let d = decimal_string(port as u64);
    s.append(d.as_str());
    s
}

/// Whether a text holds no `;`.
pub open spec fn no_semicolon(s: Seq<char>) -> bool {
    forall|i: int| 0 <= i < s.len() ==> #[trigger] s[i] != ';'
}

proof fn lemma_pieces_plain(l: Seq<char>)
    requires
        no_semicolon(l),
    ensures
        pieces(l, ';') == seq![l],
    decreases l.len(),
{
    if l.len() == 0 {
        assert(l =~= Seq::<char>::empty());
    } else {
        let l2 = l.drop_last();
        assert(no_semicolon(l2));
        lemma_pieces_plain(l2);
        assert(l[l.len() - 1] != ';');
        assert(l2.push(l.last()) =~= l);
        assert(seq![l2].update(0, l2.push(l.last())) =~= seq![l]);
    }
}

proof fn lemma_pieces_append(z: Seq<char>, l: Seq<char>)
    requires
        no_semicolon(l),
    ensures
        pieces(z + ";"@ + l, ';') == pieces(z, ';').push(l),
    decreases l.len(),
{
    reveal_strlit(";");
    let t = z + ";"@ + l;
    if l.len() == 0 {
        assert(t =~= z + ";"@);
        assert(t.last() == ';');
        assert(t.drop_last() =~= z);
        assert(l =~= Seq::<char>::empty());
    } else {
        let l2 = l.drop_last();
        assert(no_semicolon(l2));
        lemma_pieces_append(z, l2);
        assert(t.drop_last() =~= z + ";"@ + l2);
        assert(t.last() == l.last());
        assert(l[l.len() - 1] != ';');
        assert(l2.push(l.last()) =~= l);
        let base = pieces(z, ';');
        assert(base.push(l2).update(base.len() as int, l2.push(l.last())) =~= base.push(l));
    }
}

/// The reply header text for `t` and the receiver's ports.
pub open spec fn spec_response_header(t: TransportView, server_port: u16, control_port: u16, timing_port: u16) -> Seq<char> {
    reply_prefix(t) + ";"@ + port_part("server_port"@, server_port) + ";"@ + port_part(
        "control_port"@,
        control_port,
    ) + ";"@ + port_part("timing_port"@, timing_port)
}

/// The reply header up to the ports: the protocol and lower transport, the
/// delivery, and the mode when there is one.
pub open spec fn reply_prefix(t: TransportView) -> Seq<char> {
    match t.mode {
        Some(m) => first_part(t) + ";"@ + cast_part(t) + ";"@ + ("mode="@ + m),
        None => first_part(t) + ";"@ + cast_part(t),
    }
}

/// The first part of a reply header: the protocol and the lower transport.
pub open spec fn first_part(t: TransportView) -> Seq<char> {
    t.protocol + match t.lower_transport {
        LowerTransport::Udp => "/UDP"@,
        LowerTransport::Tcp => "/TCP"@,
    }
}

/// The delivery parameter of a reply header.
pub open spec fn cast_part(t: TransportView) -> Seq<char> {
    match t.cast {
        CastMode::Unicast => "unicast"@,
        CastMode::Multicast => "multicast"@,
    }
}

/// The parameters of a reply header up to the mode.
pub open spec fn mode_parts(t: TransportView) -> Seq<Seq<char>> {
    match t.mode {
        Some(m) => seq![cast_part(t), "mode="@ + m],
        None => seq![cast_part(t)],
    }
}

/// A port parameter `key=<port>`.
pub open spec fn port_part(key: Seq<char>, port: u16) -> Seq<char> {
    key + "="@ + decimal(port as nat)
}

proof fn lemma_first_part(t: TransportView)
    requires
        no_semicolon(t.protocol),
    ensures
        no_semicolon(first_part(t)),
        first_part(t).len() > 0,
        protocol_of(first_part(t)) == (t.protocol, t.lower_transport),
{
    reveal_strlit("/UDP");
    reveal_strlit("/TCP");
    let f = first_part(t);
    let n = t.protocol.len() as int;
    assert forall|i: int| 0 <= i < f.len() implies #[trigger] f[i] != ';' by {
        if i < n {
            assert(f[i] == t.protocol[i]);
        }
    }
    assert(f.subrange(0, n) =~= t.protocol);
    match t.lower_transport {
        LowerTransport::Udp => {
            assert(f.subrange(n, n + 4) =~= "/UDP"@);
            assert("/UDP"@ != "/TCP"@) by {
                assert("/UDP"@[1] != "/TCP"@[1]);
            }
        },
        LowerTransport::Tcp => {
            assert(f.subrange(n, n + 4) =~= "/TCP"@);
        },
    }
}

proof fn lemma_mode_parts(start: TransportView, t: TransportView)
    requires
        t.mode matches Some(m) ==> no_semicolon(m),
        start.mode is None,
    ensures
        forall|i: int| 0 <= i < mode_parts(t).len() ==> no_semicolon(#[trigger] mode_parts(t)[i]),
        apply_params(start, mode_parts(t)) == Ok::<TransportView, Seq<char>>(
            TransportView { cast: t.cast, mode: t.mode, ..start },
        ),
{
    reveal_strlit("unicast");
    reveal_strlit("multicast");
    reveal_strlit("mode=");
    reveal_strlit("mode");
    let c = cast_part(t);
    let after_cast = TransportView { cast: t.cast, ..start };
    assert(apply_param(start, c) == Ok::<TransportView, Seq<char>>(after_cast));
    assert(apply_params(start, seq![c]) == Ok::<TransportView, Seq<char>>(after_cast)) by {
        let one = seq![c];
        assert(one.drop_last() =~= Seq::<Seq<char>>::empty());
        assert(apply_params(start, one.drop_last()) == Ok::<TransportView, Seq<char>>(start));
        assert(one.last() == c);
    }
    match t.mode {
        Some(m) => {
            let mm = "mode="@ + m;
            assert forall|i: int| 0 <= i < mm.len() implies #[trigger] mm[i] != ';' by {
                if i >= 5 {
                    assert(mm[i] == m[i - 5]);
                }
            }
            assert(mm[4] == '=');
            assert forall|j: int| 0 <= j < 4 implies mm[j] != '=' by {}
            crate::text::lemma_before_first(mm, '=', 4);
            assert(crate::text::before_first(mm, '=') =~= "mode"@);
            assert(mm.subrange(5, mm.len() as int) =~= m);
            assert(mm != "unicast"@) by {
                assert(mm[0] != "unicast"@[0]);
            }
            assert(mm != "multicast"@) by {
                assert(mm[1] != "multicast"@[1]);
            }
            assert(apply_param(after_cast, mm) == Ok::<TransportView, Seq<char>>(
                TransportView { mode: Some(m), ..after_cast },
            ));
            assert(mode_parts(t).drop_last() =~= seq![c]);
        },
        None => {
            assert(mode_parts(t) =~= seq![c]);
        },
    }
}

proof fn lemma_port_part(key: Seq<char>, port: u16)
    requires
        forall|j: int| 0 <= j < key.len() ==> #[trigger] key[j] != '=' && key[j] != ';',
        key.len() > 0,
        key[0] != 'u' && key[0] != 'm',
    ensures
        split_once(port_part(key, port), '=') == Some((key, decimal(port as nat))),
        port_value(decimal(port as nat)) == Some(port),
        no_semicolon(port_part(key, port)),
        port_part(key, port) != "unicast"@,
        port_part(key, port) != "multicast"@,
{
    reveal_strlit("=");
    reveal_strlit("unicast");
    reveal_strlit("multicast");
    let p = port_part(key, port);
    let k = key.len() as int;
    crate::text::lemma_decimal(port as nat);
    assert forall|j: int| 0 <= j < k implies p[j] != '=' by {
        assert(p[j] == key[j]);
    }
    assert(p[k] == '=');
    crate::text::lemma_before_first(p, '=', k);
    assert(crate::text::before_first(p, '=') =~= key);
    assert(p.subrange(k + 1, p.len() as int) =~= decimal(port as nat));
    assert forall|i: int| 0 <= i < p.len() implies #[trigger] p[i] != ';' by {
        if i < k {
            assert(p[i] == key[i]);
        } else if i > k {
            assert(p[i] == decimal(port as nat)[i - k - 1]);
        }
    }
    assert(p[0] == key[0]);
    assert(p != "unicast"@) by {
        assert(p[0] != "unicast"@[0]);
    }
    assert(p != "multicast"@) by {
        assert(p[0] != "multicast"@[0]);
    }
}

proof fn lemma_server_port(v: TransportView, port: u16)
    ensures
        apply_param(v, port_part("server_port"@, port)) == Ok::<TransportView, Seq<char>>(
            TransportView { server_port: Some(port), ..v },
        ),
        no_semicolon(port_part("server_port"@, port)),
{
    reveal_strlit("server_port");
    reveal_strlit("mode");
    reveal_strlit("control_port");
    reveal_strlit("timing_port");
    lemma_port_part("server_port"@, port);
    assert("server_port"@ != "mode"@);
    assert("server_port"@ != "control_port"@);
    assert("server_port"@ != "timing_port"@) by {
        assert("server_port"@[0] != "timing_port"@[0]);
    }
}

proof fn lemma_control_port(v: TransportView, port: u16)
    ensures
        apply_param(v, port_part("control_port"@, port)) == Ok::<TransportView, Seq<char>>(
            TransportView { control_port: Some(port), ..v },
        ),
        no_semicolon(port_part("control_port"@, port)),
{
    reveal_strlit("control_port");
    reveal_strlit("mode");
    lemma_port_part("control_port"@, port);
    assert("control_port"@ != "mode"@);
}

proof fn lemma_timing_port(v: TransportView, port: u16)
    ensures
        apply_param(v, port_part("timing_port"@, port)) == Ok::<TransportView, Seq<char>>(
            TransportView { timing_port: Some(port), ..v },
        ),
        no_semicolon(port_part("timing_port"@, port)),
{
    reveal_strlit("timing_port");
    reveal_strlit("mode");
    reveal_strlit("control_port");
    lemma_port_part("timing_port"@, port);
    assert("timing_port"@ != "mode"@);
    assert("timing_port"@ != "control_port"@);
}

proof fn lemma_reply_pieces(t: TransportView, server_port: u16, control_port: u16, timing_port: u16)
    requires
        no_semicolon(t.protocol),
        t.mode matches Some(m) ==> no_semicolon(m),
    ensures
        pieces(spec_response_header(t, server_port, control_port, timing_port), ';') == seq![
            first_part(t),
        ] + mode_parts(t).push(port_part("server_port"@, server_port)).push(
            port_part("control_port"@, control_port),
        ).push(port_part("timing_port"@, timing_port)),
{
    let first = first_part(t);
    lemma_first_part(t);
    lemma_mode_parts(transport_start(first), t);
    let sp = port_part("server_port"@, server_port);
    let cp = port_part("control_port"@, control_port);
    let tp = port_part("timing_port"@, timing_port);
    lemma_server_port(transport_start(first), server_port);
    lemma_control_port(transport_start(first), control_port);
    lemma_timing_port(transport_start(first), timing_port);
    let mp = mode_parts(t);
    lemma_pieces_plain(first);
    lemma_pieces_append(first, mp[0]);
    let c = first + ";"@ + cast_part(t);
    let mid = match t.mode {
        Some(m) => c + ";"@ + ("mode="@ + m),
        None => c,
    };
    match t.mode {
        Some(m) => {
            lemma_pieces_append(c, mp[1]);
            assert(pieces(mid, ';') =~= seq![first] + mp);
        },
        None => {
            assert(pieces(mid, ';') =~= seq![first] + mp);
        },
    }
    lemma_pieces_append(mid, sp);
    lemma_pieces_append(mid + ";"@ + sp, cp);
    lemma_pieces_append(mid + ";"@ + sp + ";"@ + cp, tp);
}

/// The reply header the receiver writes is read back by the parser as the
/// same protocol, lower transport, delivery and mode, with the three ports
/// it names, when neither the protocol nor the mode holds a `;`.
pub proof fn lemma_response_header_parses(
    t: TransportView,
    server_port: u16,
    control_port: u16,
    timing_port: u16,
)
    requires
        no_semicolon(t.protocol),
        t.mode matches Some(m) ==> no_semicolon(m),
    ensures
        spec_parse_transport(spec_response_header(t, server_port, control_port, timing_port))
            == Ok::<TransportView, TransportErrorView>(
            TransportView {
                control_port: Some(control_port),
                timing_port: Some(timing_port),
                server_port: Some(server_port),
                interleaved: None,
                ..t
            },
        ),
{
    let first = first_part(t);
    lemma_first_part(t);
    let start = transport_start(first);
    lemma_mode_parts(start, t);
    let sp = port_part("server_port"@, server_port);
    let cp = port_part("control_port"@, control_port);
    let tp = port_part("timing_port"@, timing_port);
    let mp = mode_parts(t);
    let v0 = TransportView { cast: t.cast, mode: t.mode, ..start };
    let v1 = TransportView { server_port: Some(server_port), ..v0 };
    let v2 = TransportView { control_port: Some(control_port), ..v1 };
    let v3 = TransportView { timing_port: Some(timing_port), ..v2 };
    lemma_server_port(v0, server_port);
    lemma_control_port(v1, control_port);
    lemma_timing_port(v2, timing_port);
    lemma_reply_pieces(t, server_port, control_port, timing_port);
    let s = spec_response_header(t, server_port, control_port, timing_port);
    let ps = pieces(s, ';');
    let params = mp.push(sp).push(cp).push(tp);
    assert(ps.subrange(1, ps.len() as int) =~= params);
    // the parameters, one at a time
    assert(mp.push(sp).drop_last() =~= mp);
    assert(mp.push(sp).push(cp).drop_last() =~= mp.push(sp));
    assert(params.drop_last() =~= mp.push(sp).push(cp));
    assert(apply_params(start, mp.push(sp)) == Ok::<TransportView, Seq<char>>(v1));
    assert(apply_params(start, mp.push(sp).push(cp)) == Ok::<TransportView, Seq<char>>(v2));
    assert(apply_params(start, params) == Ok::<TransportView, Seq<char>>(v3));
}

} // verus!
