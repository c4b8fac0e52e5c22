//! The decisions of a PTP node that acts as master or slave as the best
//! master clock algorithm (BMCA) decides: what each received packet and each
//! timer tick changes, and what is sent in reply. The owner of the sockets
//! feeds events in and performs the actions that come back.
use vstd::prelude::*;
use super::addr::{
    actions_model, add_unique, lemma_add_unique_distinct, push_unique, ActionModel, IpAddress, PeerAddr, PtpAction, PtpSocket,
};
use super::message::{
    spec_new_header, AirPlayTimingPacket, PtpHeader, PtpMessage, PtpMessageBody, PtpMessageType,
    PtpPortIdentity,
};
use super::timestamp::PtpTimestamp;
use crate::time::{duration_from_millis, duration_from_secs};
use core::time::Duration;

verus! {

/// Standard PTP event port (Sync, Delay_Req).
pub const PTP_EVENT_PORT: u16 = 319;

/// Standard PTP general port (Follow_Up, Delay_Resp, Announce).
pub const PTP_GENERAL_PORT: u16 = 320;

/// Nanoseconds after which an unanswered Delay_Req is considered lost.
pub const DELAY_REQ_TIMEOUT_NANOS: u64 = 1_000_000_000;

/// Nanoseconds without an Announce after which the remote master is
/// considered gone.
pub const ANNOUNCE_TIMEOUT_NANOS: u64 = 6_000_000_000;

/// Timeout after which an unanswered Delay_Req is considered lost (one
/// second).
pub fn delay_req_timeout() -> (r: Duration)
    ensures
        r == duration_from_millis(1000),
{
    Duration::from_millis(1000)
}

/// Whether a socket error is transient and the node keeps running: the
/// Windows `WSAECONNRESET` code (10054), or a connection reset on any
/// platform, which follows an ICMP "port unreachable" for an earlier send
/// to a peer that is not listening yet.
pub fn is_transient_udp_error(raw_os_error: Option<i32>, connection_reset: bool) -> (r: bool)
    ensures
        r == (raw_os_error == Some(10054i32) || connection_reset),
{
    if let Some(code) = raw_os_error {
        if code == 10054 {
            return true;
        }
    }
    connection_reset
}

/// Configuration for a PTP node.
#[derive(Debug, Clone, Copy)]
pub struct PtpNodeConfig {
    /// Clock identity for this endpoint.
    pub clock_id: u64,
    /// Our Announce priority1 (lower = higher priority, 128 = default).
    pub priority1: u8,
    /// Our Announce priority2.
    pub priority2: u8,
    /// Interval between Sync messages when acting as master.
    pub sync_interval: Duration,
    /// Interval between Delay_Req messages when acting as slave.
    pub delay_req_interval: Duration,
    /// Interval between Announce messages.
    pub announce_interval: Duration,
    /// Maximum receive buffer size.
    pub recv_buf_size: usize,
    /// Use AirPlay compact packet format instead of IEEE 1588.
    pub use_airplay_format: bool,
}

impl Default for PtpNodeConfig {
    fn default() -> (r: Self)
        ensures
            r.clock_id == 0,
            r.priority1 == 128,
            r.priority2 == 128,
            r.sync_interval == duration_from_secs(1),
            r.delay_req_interval == duration_from_secs(1),
            r.announce_interval == duration_from_secs(2),
            r.recv_buf_size == 256,
            !r.use_airplay_format,
    {
        Self {
            clock_id: 0,
            priority1: 128,
            priority2: 128,
            sync_interval: Duration::from_secs(1),
            delay_req_interval: Duration::from_secs(1),
            announce_interval: Duration::from_secs(2),
            recv_buf_size: 256,
            use_airplay_format: false,
        }
    }
}

/// The configuration of a node for the AirPlay client role: our clock
/// identity and priority1, priority2 128, the rest as by default.
pub fn client_node_config(clock_id: u64, priority1: u8) -> (r: PtpNodeConfig)
    ensures
        r.clock_id == clock_id,
        r.priority1 == priority1,
        r.priority2 == 128,
        r.sync_interval == duration_from_secs(1),
        r.delay_req_interval == duration_from_secs(1),
        r.announce_interval == duration_from_secs(2),
        r.recv_buf_size == 256,
        !r.use_airplay_format,
{
    PtpNodeConfig { clock_id, priority1, priority2: 128, ..PtpNodeConfig::default() }
}

/// The current effective role of the node as determined by BMCA.
#[derive(Debug, Clone, Copy, PartialEq, Eq, Structural)]
pub enum EffectiveRole {
    /// We are the master (best clock on the network).
    Master,
    /// We are a slave to a remote grandmaster.
    Slave,
}

/// What is known of a remote master discovered via Announce.
#[derive(Debug, Clone, Copy, PartialEq, Eq, Structural)]
pub struct RemoteMaster {
    /// Clock identity of the grandmaster.
    pub grandmaster_identity: u64,
    /// Priority1 from the Announce.
    pub priority1: u8,
    /// Priority2 from the Announce.
    pub priority2: u8,
    /// Event-port address of the master.
    pub event_addr: PeerAddr,
    /// General-port address of the master.
    pub general_addr: PeerAddr,
    /// When its last Announce arrived (monotonic nanoseconds).
    pub last_announce: u64,
}

/// A node as the contracts see it.
pub struct NodeModel {
    /// The configuration the node was made with.
    pub config: PtpNodeConfig,
    /// Our clock identity.
    pub clock_id: u64,
    /// Our priority1.
    pub priority1: u8,
    /// Our priority2.
    pub priority2: u8,
    /// Whether the AirPlay compact format is used.
    pub use_airplay_format: bool,
    /// Whether there is a general socket.
    pub has_general_socket: bool,
    /// Current role.
    pub role: EffectiveRole,
    /// Next Sync sequence ID.
    pub sync_sequence: u16,
    /// Next Delay_Req sequence ID.
    pub delay_req_sequence: u16,
    /// Next Announce sequence ID.
    pub announce_sequence: u16,
    /// Known slave event addresses.
    pub known_slaves: Seq<PeerAddr>,
    /// Known slave general addresses (same index = same peer).
    pub known_general_slaves: Seq<PeerAddr>,
    /// T1 of the exchange in progress.
    pub pending_t1: Option<PtpTimestamp>,
    /// T2 of the exchange in progress.
    pub pending_t2: Option<PtpTimestamp>,
    /// T3 of the exchange in progress.
    pub pending_t3: Option<PtpTimestamp>,
    /// When the last Delay_Req was sent (monotonic nanoseconds).
    pub delay_req_sent_at: Option<u64>,
    /// The remote master we follow, if any.
    pub remote_master: Option<RemoteMaster>,
    /// Nanoseconds without Announce after which the remote master is dropped.
    pub announce_timeout: u64,
}

/// Whether a remote clock with these priorities and identity is better
/// than ours: lower priority1 wins, then lower priority2, then the lower
/// clock identity.
pub open spec fn remote_is_better(
    p1: u8,
    p2: u8,
    id: u64,
    our_p1: u8,
    our_p2: u8,
    our_id: u64,
) -> bool {
    if p1 != our_p1 {
        p1 < our_p1
    } else if p2 != our_p2 {
        p2 < our_p2
    } else {
        id < our_id
    }
}

/// `a - b`, or 0 when `b > a`.
pub open spec fn elapsed(now: u64, then: u64) -> nat {
    if now >= then {
        (now - then) as nat
    } else {
        0
    }
}

/// The first address in `s` from index `i` on whose IP is `ip`.
pub open spec fn first_with_ip(s: Seq<PeerAddr>, ip: IpAddress, i: int) -> Option<PeerAddr>
    decreases s.len() - i,
{
    if i < 0 || i >= s.len() {
        None
    } else if s[i].ip == ip {
        Some(s[i])
    } else {
        first_with_ip(s, ip, i + 1)
    }
}

/// The event address of a master whose Announce came from `src`: a known
/// slave with the same IP, else the standard event port on that IP.
pub open spec fn announce_event_addr(m: NodeModel, src: PeerAddr) -> PeerAddr {
    match first_with_ip(m.known_slaves, src.ip, 0) {
        Some(a) => a,
        None => PeerAddr::spec_new(src.ip, PTP_EVENT_PORT),
    }
}

/// The general address paired with the first known slave equal to `src`
/// from index `i` on.
pub open spec fn paired_general_from(
    slaves: Seq<PeerAddr>,
    generals: Seq<PeerAddr>,
    src: PeerAddr,
    i: int,
) -> Option<PeerAddr>
    decreases slaves.len() - i,
{
    if i < 0 || i >= slaves.len() {
        None
    } else if slaves[i] == src && i < generals.len() {
        Some(generals[i])
    } else {
        paired_general_from(slaves, generals, src, i + 1)
    }
}

/// The general-port address for an event-port source: its paired general
/// address, else the standard general port on its IP.
pub open spec fn general_addr_for(m: NodeModel, src: PeerAddr) -> PeerAddr {
    match paired_general_from(m.known_slaves, m.known_general_slaves, src, 0) {
        Some(a) => a,
        None => PeerAddr::spec_new(src.ip, PTP_GENERAL_PORT),
    }
}

/// The node after an Announce from grandmaster `gm` arrived from `src` at
/// monotonic time `now`: our own Announce is ignored; a better remote makes
/// us its slave; an Announce from the master we already know refreshes it.
pub open spec fn after_announce(m: NodeModel, gm: u64, p1: u8, p2: u8, src: PeerAddr, now: u64) -> NodeModel {
    if gm == m.clock_id {
        m
    } else if remote_is_better(p1, p2, gm, m.priority1, m.priority2, m.clock_id) {
        NodeModel {
            role: EffectiveRole::Slave,
            remote_master: Some(
                RemoteMaster {
                    grandmaster_identity: gm,
                    priority1: p1,
                    priority2: p2,
                    event_addr: announce_event_addr(m, src),
                    general_addr: PeerAddr::spec_new(src.ip, src.port),
                    last_announce: now,
                },
            ),
            ..m
        }
    } else {
        match m.remote_master {
            Some(rm) => if rm.grandmaster_identity == gm {
                NodeModel { remote_master: Some(RemoteMaster { last_announce: now, ..rm }), ..m }
            } else {
                m
            },
            None => m,
        }
    }
}

/// The node after checking at time `now` whether the remote master's
/// Announces have stopped: then we are master again and the exchange in
/// progress is dropped.
pub open spec fn after_timeout_check(m: NodeModel, now: u64) -> NodeModel {
    match m.remote_master {
        Some(rm) => if elapsed(now, rm.last_announce) > m.announce_timeout {
            NodeModel {
                role: EffectiveRole::Master,
                remote_master: None,
                pending_t1: None,
                pending_t2: None,
                pending_t3: None,
                delay_req_sent_at: None,
                ..m
            }
        } else {
            m
        },
        None => m,
    }
}


/// Our port identity in the messages we send: our clock, port 1.
pub open spec fn our_port(m: NodeModel) -> PtpPortIdentity {
    PtpPortIdentity { clock_identity: m.clock_id, port_number: 1 }
}

/// The bytes of a compact AirPlay timing packet.
pub open spec fn airplay_bytes(t: PtpMessageType, seq: u16, ts: PtpTimestamp, clock_id: u64) -> Seq<u8> {
    (AirPlayTimingPacket { message_type: t, sequence_id: seq, timestamp: ts, clock_id }).spec_encode()
}

/// The bytes of an IEEE 1588 message from port 1 of clock `clock_id` with
/// the default header.
pub open spec fn message_bytes(clock_id: u64, t: PtpMessageType, seq: u16, body: PtpMessageBody) -> Seq<
    u8,
> {
    (PtpMessage {
        header: spec_new_header(
            t,
            PtpPortIdentity { clock_identity: clock_id, port_number: 1 },
            seq,
        ),
        body,
    }).spec_encode()
}

/// The bytes of an IEEE 1588 message from us with the default header.
pub open spec fn ieee_bytes(m: NodeModel, t: PtpMessageType, seq: u16, body: PtpMessageBody) -> Seq<u8> {
    message_bytes(m.clock_id, t, seq, body)
}

/// The bytes of a two-step Sync (flags 0x0200) from port 1 of clock
/// `clock_id` with origin `t1`.
pub open spec fn two_step_sync_bytes(clock_id: u64, seq: u16, t1: PtpTimestamp) -> Seq<u8> {
    (PtpMessage {
        header: PtpHeader {
            flags: 0x0200,
            ..spec_new_header(
                PtpMessageType::Sync,
                PtpPortIdentity { clock_identity: clock_id, port_number: 1 },
                seq,
            )
        },
        body: PtpMessageBody::Sync { origin_timestamp: t1 },
    }).spec_encode()
}

/// The bytes of our two-step Sync with origin `t1`.
pub open spec fn sync_bytes(m: NodeModel, t1: PtpTimestamp) -> Seq<u8> {
    two_step_sync_bytes(m.clock_id, m.sync_sequence, t1)
}

/// The next value of a 16-bit sequence counter (wrapping).
pub open spec fn next_seq(s: u16) -> u16 {
    ((s + 1) % 0x1_0000) as u16
}

/// Sends of the same bytes on one socket to each address in turn.
pub open spec fn sends_to_all(socket: PtpSocket, addrs: Seq<PeerAddr>, data: Seq<u8>) -> Seq<
    ActionModel,
> {
    addrs.map_values(|a: PeerAddr| ActionModel::Send(socket, a, data))
}

/// The measurement that a Delay_Resp with T4 `t4` completes, if T1, T2 and
/// T3 are pending; the exchange is then over. `clear_sent` says whether the
/// time the Delay_Req was sent is forgotten too.
pub open spec fn after_delay_resp(m: NodeModel, t4: PtpTimestamp, clear_sent: bool) -> (
    NodeModel,
    Seq<ActionModel>,
) {
    match (m.pending_t1, m.pending_t2, m.pending_t3) {
        (Some(t1), Some(t2), Some(t3)) => (
            NodeModel {
                pending_t1: None,
                pending_t2: None,
                pending_t3: None,
                delay_req_sent_at: if clear_sent {
                    None
                } else {
                    m.delay_req_sent_at
                },
                ..m
            },
            seq![ActionModel::ProcessTiming(t1, t2, t3, t4)],
        ),
        _ => (m, Seq::empty()),
    }
}

/// Where a Delay_Req goes: the remote master's event address, else the
/// first known peer, else nowhere.
pub open spec fn delay_req_dest(m: NodeModel) -> Option<PeerAddr> {
    match m.remote_master {
        Some(rm) => Some(rm.event_addr),
        None => if m.known_slaves.len() > 0 {
            Some(m.known_slaves[0])
        } else {
            None
        },
    }
}

/// Sending a Delay_Req stamped `t3` at monotonic time `now`: T3 becomes
/// pending and the request goes to `delay_req_dest`; with no destination
/// nothing happens.
pub open spec fn after_delay_req(m: NodeModel, t3: PtpTimestamp, now: u64) -> (
    NodeModel,
    Seq<ActionModel>,
) {
    match delay_req_dest(m) {
        None => (m, Seq::empty()),
        Some(dest) => (
            NodeModel {
                pending_t3: Some(t3),
                delay_req_sent_at: Some(now),
                delay_req_sequence: next_seq(m.delay_req_sequence),
                ..m
            },
            seq![
                ActionModel::Send(
                    PtpSocket::Event,
                    dest,
                    if m.use_airplay_format {
                        airplay_bytes(PtpMessageType::DelayReq, m.delay_req_sequence, t3, m.clock_id)
                    } else {
                        ieee_bytes(
                            m,
                            PtpMessageType::DelayReq,
                            m.delay_req_sequence,
                            PtpMessageBody::DelayReq { origin_timestamp: t3 },
                        )
                    },
                ),
            ],
        ),
    }
}

/// What a packet on the event port changes and sends: `rx` is when it
/// arrived and `reply` the timestamp a Delay_Resp carries.
pub open spec fn after_event_packet(
    m: NodeModel,
    data: Seq<u8>,
    src: PeerAddr,
    rx: PtpTimestamp,
    reply: PtpTimestamp,
) -> (NodeModel, Seq<ActionModel>) {
    if m.use_airplay_format {
        match AirPlayTimingPacket::spec_decode(data) {
            Ok(p) => match p.message_type {
                PtpMessageType::Sync => (
                    NodeModel { pending_t1: Some(p.timestamp), pending_t2: Some(rx), ..m },
                    Seq::empty(),
                ),
                PtpMessageType::DelayReq => (
                    NodeModel { known_slaves: add_unique(m.known_slaves, src), ..m },
                    seq![
                        ActionModel::Send(
                            PtpSocket::Event,
                            src,
                            airplay_bytes(PtpMessageType::DelayResp, p.sequence_id, reply, m.clock_id),
                        ),
                    ],
                ),
                PtpMessageType::DelayResp => after_delay_resp(m, p.timestamp, false),
                _ => (m, Seq::empty()),
            },
            Err(_) => (m, Seq::empty()),
        }
    } else {
        match PtpMessage::spec_decode(data) {
            Ok(msg) => match msg.body {
                PtpMessageBody::Sync { origin_timestamp } => (
                    NodeModel { pending_t1: Some(origin_timestamp), pending_t2: Some(rx), ..m },
                    Seq::empty(),
                ),
                PtpMessageBody::FollowUp { precise_origin_timestamp } => (
                    NodeModel { pending_t1: Some(precise_origin_timestamp), ..m },
                    Seq::empty(),
                ),
                PtpMessageBody::DelayReq { .. } => {
                    let m2 = NodeModel { known_slaves: add_unique(m.known_slaves, src), ..m };
                    let resp = ieee_bytes(
                        m,
                        PtpMessageType::DelayResp,
                        msg.header.sequence_id,
                        PtpMessageBody::DelayResp {
                            receive_timestamp: reply,
                            requesting_port_identity: msg.header.source_port_identity,
                        },
                    );
                    if m.has_general_socket {
                        (m2, seq![ActionModel::Send(PtpSocket::General, general_addr_for(m2, src), resp)])
                    } else {
                        (m2, seq![ActionModel::Send(PtpSocket::Event, src, resp)])
                    }
                },
                PtpMessageBody::DelayResp { receive_timestamp, .. } => after_delay_resp(
                    m,
                    receive_timestamp,
                    true,
                ),
                _ => (m, Seq::empty()),
            },
            Err(_) => (m, Seq::empty()),
        }
    }
}

/// What a packet on the general port changes and sends: `t3` stamps a
/// Delay_Req sent in answer and `now` is the monotonic time.
pub open spec fn after_general_packet(
    m: NodeModel,
    data: Seq<u8>,
    src: PeerAddr,
    t3: PtpTimestamp,
    now: u64,
) -> (NodeModel, Seq<ActionModel>) {
    if m.use_airplay_format {
        (m, Seq::empty())
    } else {
        match PtpMessage::spec_decode(data) {
            Ok(msg) => match msg.body {
                PtpMessageBody::FollowUp { precise_origin_timestamp } => {
                    let m1 = NodeModel { pending_t1: Some(precise_origin_timestamp), ..m };
                    if m1.role == EffectiveRole::Slave && m1.pending_t2 is Some {
                        after_delay_req(
                            NodeModel { pending_t3: None, delay_req_sent_at: None, ..m1 },
                            t3,
                            now,
                        )
                    } else {
                        (m1, Seq::empty())
                    }
                },
                PtpMessageBody::DelayResp { receive_timestamp, .. } => after_delay_resp(
                    m,
                    receive_timestamp,
                    true,
                ),
                PtpMessageBody::Announce {
                    grandmaster_identity,
                    grandmaster_priority1,
                    grandmaster_priority2,
                    ..
                } => (
                    after_announce(
                        m,
                        grandmaster_identity,
                        grandmaster_priority1,
                        grandmaster_priority2,
                        src,
                        now,
                    ),
                    Seq::empty(),
                ),
                _ => (m, Seq::empty()),
            },
            Err(_) => (m, Seq::empty()),
        }
    }
}

/// The Delay_Req timer: in slave mode (or in the AirPlay format) with T1
/// pending, a Delay_Req unanswered for over a second is given up, and a new
/// one is sent unless one is still outstanding.
pub open spec fn after_delay_req_tick(m: NodeModel, t3: PtpTimestamp, now: u64) -> (
    NodeModel,
    Seq<ActionModel>,
) {
    if (m.role == EffectiveRole::Slave || m.use_airplay_format) && m.pending_t1 is Some {
        let timed_out = match m.delay_req_sent_at {
            Some(t) => elapsed(now, t) > DELAY_REQ_TIMEOUT_NANOS,
            None => false,
        };
        let m1 = if timed_out {
            NodeModel { pending_t3: None, delay_req_sent_at: None, ..m }
        } else {
            m
        };
        if m1.pending_t3 is None {
            after_delay_req(m1, t3, now)
        } else {
            (m1, Seq::empty())
        }
    } else {
        (m, Seq::empty())
    }
}

/// What a Sync to one slave sends: the AirPlay Sync, or the two-step Sync
/// and its Follow_Up (to the known general addresses, else to the slave).
pub open spec fn sync_actions_for(
    m: NodeModel,
    slave: PeerAddr,
    t1: PtpTimestamp,
    precise: PtpTimestamp,
) -> Seq<ActionModel> {
    if m.use_airplay_format {
        seq![
            ActionModel::Send(
                PtpSocket::Event,
                slave,
                airplay_bytes(PtpMessageType::Sync, m.sync_sequence, t1, m.clock_id),
            ),
        ]
    } else {
        let fu = ieee_bytes(
            m,
            PtpMessageType::FollowUp,
            m.sync_sequence,
            PtpMessageBody::FollowUp { precise_origin_timestamp: precise },
        );
        let sync = seq![ActionModel::Send(PtpSocket::Event, slave, sync_bytes(m, t1))];
        if m.has_general_socket {
            sync + sends_to_all(PtpSocket::General, m.known_general_slaves, fu) + if m.known_general_slaves.len()
                == 0 {
                seq![ActionModel::Send(PtpSocket::General, slave, fu)]
            } else {
                Seq::empty()
            }
        } else {
            sync + seq![ActionModel::Send(PtpSocket::Event, slave, fu)]
        }
    }
}

/// What a Sync round sends to the slaves in `slaves`, in order.
pub open spec fn sync_actions(
    m: NodeModel,
    slaves: Seq<PeerAddr>,
    t1: PtpTimestamp,
    precise: PtpTimestamp,
) -> Seq<ActionModel>
    decreases slaves.len(),
{
    if slaves.len() == 0 {
        Seq::empty()
    } else {
        sync_actions(m, slaves.drop_last(), t1, precise) + sync_actions_for(
            m,
            slaves.last(),
            t1,
            precise,
        )
    }
}

/// The Sync timer: a master with known slaves sends a Sync round and
/// advances the Sync sequence.
pub open spec fn after_sync_tick(m: NodeModel, t1: PtpTimestamp, precise: PtpTimestamp) -> (
    NodeModel,
    Seq<ActionModel>,
) {
    if m.role == EffectiveRole::Master && m.known_slaves.len() > 0 {
        (
            NodeModel { sync_sequence: next_seq(m.sync_sequence), ..m },
            sync_actions(m, m.known_slaves, t1, precise),
        )
    } else {
        (m, Seq::empty())
    }
}

/// Our Announce with origin timestamp `origin`.
pub open spec fn announce_bytes(m: NodeModel, origin: PtpTimestamp) -> Seq<u8> {
    ieee_bytes(
        m,
        PtpMessageType::Announce,
        m.announce_sequence,
        PtpMessageBody::Announce {
            origin_timestamp: origin,
            grandmaster_identity: m.clock_id,
            grandmaster_priority1: m.priority1,
            grandmaster_priority2: m.priority2,
        },
    )
}

/// The Announces sent to the known general addresses (when there is a
/// general socket).
pub open spec fn announce_actions(m: NodeModel, origin: PtpTimestamp) -> Seq<ActionModel> {
    if m.has_general_socket {
        sends_to_all(PtpSocket::General, m.known_general_slaves, announce_bytes(m, origin))
    } else {
        Seq::empty()
    }
}


/// The bytes of a compact AirPlay timing packet.
pub fn airplay_packet_bytes(t: PtpMessageType, seq: u16, ts: PtpTimestamp, clock_id: u64) -> (r: Vec<
    u8,
>)
    ensures
        r@ == airplay_bytes(t, seq, ts, clock_id),
{
    let pkt = AirPlayTimingPacket { message_type: t, sequence_id: seq, timestamp: ts, clock_id };
    let a = pkt.encode();
    crate::bytes::copy_bytes(a.as_slice())
}

/// The bytes of an IEEE 1588 message from port 1 of clock `clock_id`.
pub fn message_bytes_exec(clock_id: u64, t: PtpMessageType, seq: u16, body: PtpMessageBody) -> (r:
    Vec<u8>)
    ensures
        r@ == message_bytes(clock_id, t, seq, body),
{
    let source = PtpPortIdentity::new(clock_id, 1);
    let msg = PtpMessage { header: PtpHeader::new(t, source, seq), body };
    msg.encode()
}

pub(crate) fn send(socket: PtpSocket, dest: PeerAddr, data: Vec<u8>) -> (r: PtpAction)
    ensures
        crate::ptp::addr::action_model(r) == ActionModel::Send(socket, dest, data@),
{
    PtpAction::Send { socket, dest, data }
}

pub(crate) fn push_action(out: &mut Vec<PtpAction>, a: PtpAction)
    ensures
        actions_model(final(out)@) == actions_model(old(out)@).push(
            crate::ptp::addr::action_model(a),
        ),
{
    out.push(a);
    proof {
        assert(actions_model(final(out)@) =~= actions_model(old(out)@).push(
            crate::ptp::addr::action_model(a),
        ));
    }
}

/// The decision state of a PTP node.
pub struct PtpNodeCore {
    config: PtpNodeConfig,
    has_general_socket: bool,
    role: EffectiveRole,
    sync_sequence: u16,
    delay_req_sequence: u16,
    announce_sequence: u16,
    known_slaves: Vec<PeerAddr>,
    known_general_slaves: Vec<PeerAddr>,
    pending_t1: Option<PtpTimestamp>,
    pending_t2: Option<PtpTimestamp>,
    pending_t3: Option<PtpTimestamp>,
    delay_req_sent_at: Option<u64>,
    remote_master: Option<RemoteMaster>,
    announce_timeout: u64,
}

impl View for PtpNodeCore {
    type V = NodeModel;

    closed spec fn view(&self) -> NodeModel {
        NodeModel {
            config: self.config,
            clock_id: self.config.clock_id,
            priority1: self.config.priority1,
            priority2: self.config.priority2,
            use_airplay_format: self.config.use_airplay_format,
            has_general_socket: self.has_general_socket,
            role: self.role,
            sync_sequence: self.sync_sequence,
            delay_req_sequence: self.delay_req_sequence,
            announce_sequence: self.announce_sequence,
            known_slaves: self.known_slaves@,
            known_general_slaves: self.known_general_slaves@,
            pending_t1: self.pending_t1,
            pending_t2: self.pending_t2,
            pending_t3: self.pending_t3,
            delay_req_sent_at: self.delay_req_sent_at,
            remote_master: self.remote_master,
            announce_timeout: self.announce_timeout,
        }
    }
}

impl PtpNodeCore {
    /// No address is known twice, as an event or as a general address
    /// (`use_type_invariant` gives it for any node).
    #[verifier::type_invariant]
    pub open spec fn lists_distinct(&self) -> bool {
        self@.known_slaves.no_duplicates() && self@.known_general_slaves.no_duplicates()
    }

    /// A new node: master, all sequences at zero, nothing known or pending,
    /// remote masters dropped after six seconds of silence.
    pub fn new(config: PtpNodeConfig, has_general_socket: bool) -> (r: Self)
        ensures
            r@.config == config,
            r@.clock_id == config.clock_id,
            r@.priority1 == config.priority1,
            r@.priority2 == config.priority2,
            r@.use_airplay_format == config.use_airplay_format,
            r@.has_general_socket == has_general_socket,
            r@.role == EffectiveRole::Master,
            r@.sync_sequence == 0,
            r@.delay_req_sequence == 0,
            r@.announce_sequence == 0,
            r@.known_slaves == Seq::<PeerAddr>::empty(),
            r@.known_general_slaves == Seq::<PeerAddr>::empty(),
            r@.pending_t1 is None,
            r@.pending_t2 is None,
            r@.pending_t3 is None,
            r@.delay_req_sent_at is None,
            r@.remote_master is None,
            r@.announce_timeout == ANNOUNCE_TIMEOUT_NANOS,
    {
        Self {
            config,
            has_general_socket,
            role: EffectiveRole::Master,
            sync_sequence: 0,
            delay_req_sequence: 0,
            announce_sequence: 0,
            known_slaves: Vec::new(),
            known_general_slaves: Vec::new(),
            pending_t1: None,
            pending_t2: None,
            pending_t3: None,
            delay_req_sent_at: None,
            remote_master: None,
            announce_timeout: ANNOUNCE_TIMEOUT_NANOS,
        }
    }

    /// The configuration.
    pub fn config(&self) -> (r: &PtpNodeConfig)
        ensures
            *r == self@.config,
    {
        &self.config
    }

    /// Add a known slave event address for Sync broadcasts.
    pub fn add_slave(&mut self, addr: PeerAddr)
        ensures
            final(self)@ == (NodeModel {
                known_slaves: add_unique(old(self)@.known_slaves, addr),
                ..old(self)@
            }),
    {
        proof {
            use_type_invariant(&*self);
            lemma_add_unique_distinct(self.known_slaves@, addr);
        }
        let mut list: Vec<PeerAddr> = Vec::new();
        std::mem::swap(&mut list, &mut self.known_slaves);
        push_unique(&mut list, addr);
        self.known_slaves = list;
    }

    /// Add a known slave general address for Follow_Up messages (call after
    /// `add_slave` for the same peer, so that the lists stay paired).
    pub fn add_general_slave(&mut self, addr: PeerAddr)
        ensures
            final(self)@ == (NodeModel {
                known_general_slaves: add_unique(old(self)@.known_general_slaves, addr),
                ..old(self)@
            }),
    {
        proof {
            use_type_invariant(&*self);
            lemma_add_unique_distinct(self.known_general_slaves@, addr);
        }
        let mut list: Vec<PeerAddr> = Vec::new();
        std::mem::swap(&mut list, &mut self.known_general_slaves);
        push_unique(&mut list, addr);
        self.known_general_slaves = list;
    }

    /// The current effective role.
    pub fn role(&self) -> (r: EffectiveRole)
        ensures
            r == self@.role,
    {
        self.role
    }

    /// The remote master we follow, if any.
    pub fn remote_master(&self) -> (r: Option<RemoteMaster>)
        ensures
            r == self@.remote_master,
    {
        self.remote_master
    }

    /// T1 of the exchange in progress.
    pub fn pending_t1(&self) -> (r: Option<PtpTimestamp>)
        ensures
            r == self@.pending_t1,
    {
        self.pending_t1
    }

    /// T2 of the exchange in progress.
    pub fn pending_t2(&self) -> (r: Option<PtpTimestamp>)
        ensures
            r == self@.pending_t2,
    {
        self.pending_t2
    }

    /// T3 of the exchange in progress.
    pub fn pending_t3(&self) -> (r: Option<PtpTimestamp>)
        ensures
            r == self@.pending_t3,
    {
        self.pending_t3
    }

    /// When the last Delay_Req was sent (monotonic nanoseconds).
    pub fn delay_req_sent_at(&self) -> (r: Option<u64>)
        ensures
            r == self@.delay_req_sent_at,
    {
        self.delay_req_sent_at
    }

    /// Set the time without Announce after which the remote master is
    /// dropped.
    pub fn set_announce_timeout(&mut self, nanos: u64)
        ensures
            final(self)@ == (NodeModel { announce_timeout: nanos, ..old(self)@ }),
    {
        proof {
            use_type_invariant(&*self);
        }
        self.announce_timeout = nanos;
    }

    /// Whether a remote clock is better than ours.
    pub fn compare_priority(&self, remote_p1: u8, remote_p2: u8, remote_clock_id: u64) -> (r: bool)
        ensures
            r == remote_is_better(
                remote_p1,
                remote_p2,
                remote_clock_id,
                self@.priority1,
                self@.priority2,
                self@.clock_id,
            ),
    {
        if remote_p1 != self.config.priority1 {
            return remote_p1 < self.config.priority1;
        }
        if remote_p2 != self.config.priority2 {
            return remote_p2 < self.config.priority2;
        }
        remote_clock_id < self.config.clock_id
    }

    /// The general-port address that corresponds to an event-port source.
    pub fn resolve_general_addr_for_event(&self, event_src: PeerAddr) -> (r: PeerAddr)
        ensures
            r == general_addr_for(self@, event_src),
    {
        let mut i: usize = 0;
        while i < self.known_slaves.len()
            invariant
                i <= self.known_slaves@.len(),
                paired_general_from(self.known_slaves@, self.known_general_slaves@, event_src, 0)
                    == paired_general_from(
                    self.known_slaves@,
                    self.known_general_slaves@,
                    event_src,
                    i as int,
                ),
            decreases self.known_slaves@.len() - i,
        {
            if self.known_slaves[i] == event_src && i < self.known_general_slaves.len() {
                return self.known_general_slaves[i];
            }
            i = i + 1;
        }
        PeerAddr::new(event_src.ip, PTP_GENERAL_PORT)
    }

    fn event_addr_for_announce(&self, src: PeerAddr) -> (r: PeerAddr)
        ensures
            r == announce_event_addr(self@, src),
    {
        let mut i: usize = 0;
        while i < self.known_slaves.len()
            invariant
                i <= self.known_slaves@.len(),
                first_with_ip(self.known_slaves@, src.ip, 0) == first_with_ip(
                    self.known_slaves@,
                    src.ip,
                    i as int,
                ),
            decreases self.known_slaves@.len() - i,
        {
            if self.known_slaves[i].ip == src.ip {
                return self.known_slaves[i];
            }
            i = i + 1;
        }
        PeerAddr::new(src.ip, PTP_EVENT_PORT)
    }

    /// Simplified BMCA on an Announce from grandmaster `gm`, received from
    /// `src` at monotonic time `now`.
    pub fn process_announce(&mut self, gm: u64, priority1: u8, priority2: u8, src: PeerAddr, now: u64)
        ensures
            final(self)@ == after_announce(old(self)@, gm, priority1, priority2, src, now),
    {
        proof {
            use_type_invariant(&*self);
        }
        if gm == self.config.clock_id {
            return;
        }
        let remote_is_better = self.compare_priority(priority1, priority2, gm);
        let event_addr = self.event_addr_for_announce(src);
        let general_addr = PeerAddr::new(src.ip, src.port);
        if remote_is_better {
            self.role = EffectiveRole::Slave;
            self.remote_master = Some(
                RemoteMaster {
                    grandmaster_identity: gm,
                    priority1,
                    priority2,
                    event_addr,
                    general_addr,
                    last_announce: now,
                },
            );
        } else {
            match self.remote_master {
                Some(rm) => {
                    if rm.grandmaster_identity == gm {
                        self.remote_master = Some(RemoteMaster { last_announce: now, ..rm });
                    }
                },
                None => {},
            }
        }
    }

    fn ieee_message_bytes(&self, t: PtpMessageType, seq: u16, body: PtpMessageBody) -> (r: Vec<u8>)
        ensures
            r@ == ieee_bytes(self@, t, seq, body),
    {
        message_bytes_exec(self.config.clock_id, t, seq, body)
    }

    fn process_delay_resp(&mut self, t4: PtpTimestamp, clear_sent: bool) -> (r: Vec<PtpAction>)
        ensures
            (final(self)@, actions_model(r@)) == after_delay_resp(old(self)@, t4, clear_sent),
    {
        proof {
            use_type_invariant(&*self);
        }
        let mut out: Vec<PtpAction> = Vec::new();
        match (self.pending_t1, self.pending_t2, self.pending_t3) {
            (Some(t1), Some(t2), Some(t3)) => {
                push_action(&mut out, PtpAction::ProcessTiming { t1, t2, t3, t4 });
                self.pending_t1 = None;
                self.pending_t2 = None;
                self.pending_t3 = None;
                if clear_sent {
                    self.delay_req_sent_at = None;
                }
            },
            _ => {},
        }
        proof {
            assert(actions_model(out@) =~= after_delay_resp(old(self)@, t4, clear_sent).1);
        }
        out
    }

    /// Send a Delay_Req stamped `t3` at monotonic time `now` (as slave).
    pub fn send_delay_req(&mut self, t3: PtpTimestamp, now: u64) -> (r: Vec<PtpAction>)
        ensures
            (final(self)@, actions_model(r@)) == after_delay_req(old(self)@, t3, now),
    {
        proof {
            use_type_invariant(&*self);
        }
        let mut out: Vec<PtpAction> = Vec::new();
        let dest = match self.remote_master {
            Some(rm) => rm.event_addr,
            None => {
                if self.known_slaves.len() > 0 {
                    self.known_slaves[0]
                } else {
                    proof {
                        assert(actions_model(out@) =~= Seq::<ActionModel>::empty());
                    }
                    return out;
                }
            },
        };
        self.pending_t3 = Some(t3);
        let data = if self.config.use_airplay_format {
            airplay_packet_bytes(
                PtpMessageType::DelayReq,
                self.delay_req_sequence,
                t3,
                self.config.clock_id,
            )
        } else {
            self.ieee_message_bytes(
                PtpMessageType::DelayReq,
                self.delay_req_sequence,
                PtpMessageBody::DelayReq { origin_timestamp: t3 },
            )
        };
        push_action(&mut out, send(PtpSocket::Event, dest, data));
        self.delay_req_sent_at = Some(now);
        self.delay_req_sequence = self.delay_req_sequence.wrapping_add(1);
        proof {
            assert(actions_model(out@) =~= after_delay_req(old(self)@, t3, now).1);
        }
        out
    }

    /// Handle a packet that arrived on the event port from `src` at `rx`;
    /// `reply` is the timestamp that a Delay_Resp in answer carries.
    pub fn handle_event_packet(
        &mut self,
        data: &[u8],
        src: PeerAddr,
        rx: PtpTimestamp,
        reply: PtpTimestamp,
    ) -> (r: Vec<PtpAction>)
        ensures
            (final(self)@, actions_model(r@)) == after_event_packet(old(self)@, data@, src, rx, reply),
    {
        proof {
            use_type_invariant(&*self);
        }
        let mut out: Vec<PtpAction> = Vec::new();
        if self.config.use_airplay_format {
            match AirPlayTimingPacket::decode(data) {
                Ok(pkt) => {
                    match pkt.message_type {
                        PtpMessageType::Sync => {
                            self.pending_t1 = Some(pkt.timestamp);
                            self.pending_t2 = Some(rx);
                        },
                        PtpMessageType::DelayReq => {
                            self.add_slave(src);
                            let bytes = airplay_packet_bytes(
                                PtpMessageType::DelayResp,
                                pkt.sequence_id,
                                reply,
                                self.config.clock_id,
                            );
                            push_action(&mut out, send(PtpSocket::Event, src, bytes));
                        },
                        PtpMessageType::DelayResp => {
                            return self.process_delay_resp(pkt.timestamp, false);
                        },
                        _ => {},
                    }
                },
                Err(_) => {},
            }
            proof {
                assert(actions_model(out@) =~= after_event_packet(
                    old(self)@,
                    data@,
                    src,
                    rx,
                    reply,
                ).1);
            }
            return out;
        }
        match PtpMessage::decode(data) {
            Ok(msg) => {
                match msg.body {
                    PtpMessageBody::Sync { origin_timestamp } => {
                        self.pending_t1 = Some(origin_timestamp);
                        self.pending_t2 = Some(rx);
                    },
                    PtpMessageBody::FollowUp { precise_origin_timestamp } => {
                        self.pending_t1 = Some(precise_origin_timestamp);
                    },
                    PtpMessageBody::DelayReq { .. } => {
                        self.add_slave(src);
                        let bytes = self.ieee_message_bytes(
                            PtpMessageType::DelayResp,
                            msg.header.sequence_id,
                            PtpMessageBody::DelayResp {
                                receive_timestamp: reply,
                                requesting_port_identity: msg.header.source_port_identity,
                            },
                        );
                        if self.has_general_socket {
                            let dest = self.resolve_general_addr_for_event(src);
                            push_action(&mut out, send(PtpSocket::General, dest, bytes));
                        } else {
                            push_action(&mut out, send(PtpSocket::Event, src, bytes));
                        }
                    },
                    PtpMessageBody::DelayResp { receive_timestamp, .. } => {
                        return self.process_delay_resp(receive_timestamp, true);
                    },
                    _ => {},
                }
            },
            Err(_) => {},
        }
        proof {
            assert(actions_model(out@) =~= after_event_packet(old(self)@, data@, src, rx, reply).1);
        }
        out
    }

    /// Handle a packet that arrived on the general port from `src`; `t3`
    /// stamps a Delay_Req sent in answer, `now` is the monotonic time.
    pub fn handle_general_packet(
        &mut self,
        data: &[u8],
        src: PeerAddr,
        t3: PtpTimestamp,
        now: u64,
    ) -> (r: Vec<PtpAction>)
        ensures
            (final(self)@, actions_model(r@)) == after_general_packet(old(self)@, data@, src, t3, now),
    {
        proof {
            use_type_invariant(&*self);
        }
        let mut out: Vec<PtpAction> = Vec::new();
        if self.config.use_airplay_format {
            proof {
                assert(actions_model(out@) =~= Seq::<ActionModel>::empty());
            }
            return out;
        }
        match PtpMessage::decode(data) {
            Ok(msg) => {
                match msg.body {
                    PtpMessageBody::FollowUp { precise_origin_timestamp } => {
                        self.pending_t1 = Some(precise_origin_timestamp);
                        if self.role == EffectiveRole::Slave && self.pending_t2.is_some() {
                            self.pending_t3 = None;
                            self.delay_req_sent_at = None;
                            return self.send_delay_req(t3, now);
                        }
                    },
                    PtpMessageBody::DelayResp { receive_timestamp, .. } => {
                        return self.process_delay_resp(receive_timestamp, true);
                    },
                    PtpMessageBody::Announce {
                        grandmaster_identity,
                        grandmaster_priority1,
                        grandmaster_priority2,
                        ..
                    } => {
                        self.process_announce(
                            grandmaster_identity,
                            grandmaster_priority1,
                            grandmaster_priority2,
                            src,
                            now,
                        );
                    },
                    _ => {},
                }
            },
            Err(_) => {},
        }
        proof {
            assert(actions_model(out@) =~= Seq::<ActionModel>::empty());
        }
        out
    }

    /// The Delay_Req timer fired at monotonic time `now`; `t3` stamps a
    /// Delay_Req sent now.
    pub fn on_delay_req_timer(&mut self, t3: PtpTimestamp, now: u64) -> (r: Vec<PtpAction>)
        ensures
            (final(self)@, actions_model(r@)) == after_delay_req_tick(old(self)@, t3, now),
    {
        proof {
            use_type_invariant(&*self);
        }
        let in_slave_mode = self.role == EffectiveRole::Slave || self.config.use_airplay_format;
        if in_slave_mode && self.pending_t1.is_some() {
            let timed_out = match self.delay_req_sent_at {
                Some(t) => now.saturating_sub(t) > DELAY_REQ_TIMEOUT_NANOS,
                None => false,
            };
            if timed_out {
                self.pending_t3 = None;
                self.delay_req_sent_at = None;
            }
            if self.pending_t3.is_none() {
                return self.send_delay_req(t3, now);
            }
        }
        let out: Vec<PtpAction> = Vec::new();
        proof {
            assert(actions_model(out@) =~= Seq::<ActionModel>::empty());
        }
        out
    }

    fn sync_to(&self, out: &mut Vec<PtpAction>, slave: PeerAddr, t1: PtpTimestamp, precise: PtpTimestamp)
        ensures
            actions_model(final(out)@) == actions_model(old(out)@) + sync_actions_for(
                self@,
                slave,
                t1,
                precise,
            ),
    {
        let ghost start = actions_model(out@);
        if self.config.use_airplay_format {
            let bytes = airplay_packet_bytes(
                PtpMessageType::Sync,
                self.sync_sequence,
                t1,
                self.config.clock_id,
            );
            push_action(out, send(PtpSocket::Event, slave, bytes));
            proof {
                assert(actions_model(out@) =~= start + sync_actions_for(self@, slave, t1, precise));
            }
            return;
        }
        let source = PtpPortIdentity::new(self.config.clock_id, 1);
        let mut sync_msg = PtpMessage::sync(source, self.sync_sequence, t1);
        sync_msg.header.flags = 0x0200;
        push_action(out, send(PtpSocket::Event, slave, sync_msg.encode()));
        let fu = self.ieee_message_bytes(
            PtpMessageType::FollowUp,
            self.sync_sequence,
            PtpMessageBody::FollowUp { precise_origin_timestamp: precise },
        );
        let ghost sync_part = start + seq![ActionModel::Send(PtpSocket::Event, slave, sync_bytes(self@, t1))];
        proof {
            assert(actions_model(out@) =~= sync_part);
        }
        if self.has_general_socket {
            let mut j: usize = 0;
            while j < self.known_general_slaves.len()
                invariant
                    j <= self.known_general_slaves@.len(),
                    actions_model(out@) == sync_part + sends_to_all(
                        PtpSocket::General,
                        self.known_general_slaves@.subrange(0, j as int),
                        fu@,
                    ),
                decreases self.known_general_slaves@.len() - j,
            {
                let g = self.known_general_slaves[j];
                push_action(out, send(PtpSocket::General, g, crate::bytes::copy_bytes(fu.as_slice())));
                proof {
                    assert(sends_to_all(
                        PtpSocket::General,
                        self.known_general_slaves@.subrange(0, j + 1),
                        fu@,
                    ) =~= sends_to_all(
                        PtpSocket::General,
                        self.known_general_slaves@.subrange(0, j as int),
                        fu@,
                    ).push(ActionModel::Send(PtpSocket::General, g, fu@)));
                }
                j = j + 1;
            }
            proof {
                assert(self.known_general_slaves@.subrange(0, self.known_general_slaves@.len() as int)
                    =~= self.known_general_slaves@);
            }
            if self.known_general_slaves.len() == 0 {
                push_action(out, send(PtpSocket::General, slave, fu));
            }
        } else {
            push_action(out, send(PtpSocket::Event, slave, fu));
        }
        proof {
            assert(actions_model(out@) =~= start + sync_actions_for(self@, slave, t1, precise));
        }
    }

    /// Send a Sync round to the known slaves (as master): `t1` stamps the
    /// Syncs and `precise` the Follow_Ups.
    pub fn send_sync(&mut self, t1: PtpTimestamp, precise: PtpTimestamp) -> (r: Vec<PtpAction>)
        ensures
            actions_model(r@) == sync_actions(old(self)@, old(self)@.known_slaves, t1, precise),
            final(self)@ == (NodeModel {
                sync_sequence: next_seq(old(self)@.sync_sequence),
                ..old(self)@
            }),
    {
        proof {
            use_type_invariant(&*self);
        }
        let mut out: Vec<PtpAction> = Vec::new();
        let mut i: usize = 0;
        proof {
            assert(actions_model(out@) =~= sync_actions(
                self@,
                self@.known_slaves.subrange(0, 0),
                t1,
                precise,
            ));
        }
        while i < self.known_slaves.len()
            invariant
                i <= self.known_slaves@.len(),
                self@ == old(self)@,
                actions_model(out@) == sync_actions(
                    self@,
                    self@.known_slaves.subrange(0, i as int),
                    t1,
                    precise,
                ),
            decreases self.known_slaves@.len() - i,
        {
            let slave = self.known_slaves[i];
            self.sync_to(&mut out, slave, t1, precise);
            proof {
                let sub = self@.known_slaves.subrange(0, i + 1);
                assert(sub.drop_last() =~= self@.known_slaves.subrange(0, i as int));
                assert(sub.last() == slave);
            }
            i = i + 1;
        }
        proof {
            assert(self@.known_slaves.subrange(0, self@.known_slaves.len() as int)
                =~= self@.known_slaves);
        }
        self.sync_sequence = self.sync_sequence.wrapping_add(1);
        out
    }

    /// The Sync timer fired: a master with known slaves sends a Sync round.
    pub fn on_sync_timer(&mut self, t1: PtpTimestamp, precise: PtpTimestamp) -> (r: Vec<PtpAction>)
        ensures
            (final(self)@, actions_model(r@)) == after_sync_tick(old(self)@, t1, precise),
    {
        proof {
            use_type_invariant(&*self);
        }
        if self.role == EffectiveRole::Master && self.known_slaves.len() > 0 {
            return self.send_sync(t1, precise);
        }
        let out: Vec<PtpAction> = Vec::new();
        proof {
            assert(actions_model(out@) =~= Seq::<ActionModel>::empty());
        }
        out
    }

    /// Send our Announce to the known general addresses.
    pub fn send_announce(&mut self) -> (r: Vec<PtpAction>)
        ensures
            exists|origin: PtpTimestamp| actions_model(r@) == announce_actions(old(self)@, origin),
            final(self)@ == (NodeModel {
                announce_sequence: next_seq(old(self)@.announce_sequence),
                ..old(self)@
            }),
    {
        proof {
            use_type_invariant(&*self);
        }
        let source = PtpPortIdentity::new(self.config.clock_id, 1);
        let announce = PtpMessage::announce(
            source,
            self.announce_sequence,
            self.config.clock_id,
            self.config.priority1,
            self.config.priority2,
        );
        let ghost origin = announce.body->Announce_origin_timestamp;
        let encoded = announce.encode();
        proof {
            assert(announce == PtpMessage {
                header: spec_new_header(PtpMessageType::Announce, our_port(self@), self@.announce_sequence),
                body: PtpMessageBody::Announce {
                    origin_timestamp: origin,
                    grandmaster_identity: self@.clock_id,
                    grandmaster_priority1: self@.priority1,
                    grandmaster_priority2: self@.priority2,
                },
            });
        }
        let mut out: Vec<PtpAction> = Vec::new();
        if self.has_general_socket {
            let mut j: usize = 0;
            while j < self.known_general_slaves.len()
                invariant
                    j <= self.known_general_slaves@.len(),
                    actions_model(out@) == sends_to_all(
                        PtpSocket::General,
                        self.known_general_slaves@.subrange(0, j as int),
                        encoded@,
                    ),
                decreases self.known_general_slaves@.len() - j,
            {
                let g = self.known_general_slaves[j];
                push_action(&mut out, send(PtpSocket::General, g, crate::bytes::copy_bytes(encoded.as_slice())));
                proof {
                    assert(sends_to_all(
                        PtpSocket::General,
                        self.known_general_slaves@.subrange(0, j + 1),
                        encoded@,
                    ) =~= sends_to_all(
                        PtpSocket::General,
                        self.known_general_slaves@.subrange(0, j as int),
                        encoded@,
                    ).push(ActionModel::Send(PtpSocket::General, g, encoded@)));
                }
                j = j + 1;
            }
            proof {
                assert(self.known_general_slaves@.subrange(0, self.known_general_slaves@.len() as int)
                    =~= self.known_general_slaves@);
            }
        } else {
            proof {
                assert(actions_model(out@) =~= Seq::<ActionModel>::empty());
            }
        }
        proof {
            assert(actions_model(out@) == announce_actions(self@, origin));
        }
        self.announce_sequence = self.announce_sequence.wrapping_add(1);
        out
    }

    /// The Announce timer fired at monotonic time `now`: send our Announce,
    /// then drop a remote master that has gone quiet.
    pub fn on_announce_timer(&mut self, now: u64) -> (r: Vec<PtpAction>)
        ensures
            exists|origin: PtpTimestamp| actions_model(r@) == announce_actions(old(self)@, origin),
            final(self)@ == after_timeout_check(
                NodeModel { announce_sequence: next_seq(old(self)@.announce_sequence), ..old(self)@ },
                now,
            ),
    {
        proof {
            use_type_invariant(&*self);
        }
        let out = self.send_announce();
        self.check_announce_timeout(now);
        out
    }

    /// At monotonic time `now`, drop a remote master whose Announces have
    /// stopped, and become master again.
    pub fn check_announce_timeout(&mut self, now: u64)
        ensures
            final(self)@ == after_timeout_check(old(self)@, now),
    {
        proof {
            use_type_invariant(&*self);
        }
        match self.remote_master {
            Some(rm) => {
                if now.saturating_sub(rm.last_announce) > self.announce_timeout {
                    self.role = EffectiveRole::Master;
                    self.remote_master = None;
                    self.pending_t1 = None;
                    self.pending_t2 = None;
                    self.pending_t3 = None;
                    self.delay_req_sent_at = None;
                }
            },
            None => {},
        }
    }
}

/// BMCA ranks clocks by a strict total order: no clock is better than
/// itself, of two different clocks exactly one is better, and better is
/// transitive.
pub proof fn lemma_bmca_strict_total_order(
    a1: u8,
    a2: u8,
    aid: u64,
    b1: u8,
    b2: u8,
    bid: u64,
    c1: u8,
    c2: u8,
    cid: u64,
)
    ensures
        !remote_is_better(a1, a2, aid, a1, a2, aid),
        (a1, a2, aid) != (b1, b2, bid) ==> (remote_is_better(a1, a2, aid, b1, b2, bid)
            != remote_is_better(b1, b2, bid, a1, a2, aid)),
        remote_is_better(a1, a2, aid, b1, b2, bid) && remote_is_better(b1, b2, bid, c1, c2, cid)
            ==> remote_is_better(a1, a2, aid, c1, c2, cid),
{
}

/// Best-master selection ranks clocks by priority1 first: a remote clock
/// with a lower priority1 than ours is better, and one with a higher
/// priority1 worse, whatever the priority2 values and clock identities;
/// only on equal priority1 does the lower priority2 decide, and only on
/// equal priorities the lower clock identity.
pub proof fn lemma_bmca_priority_order(p1: u8, p2: u8, id: u64, q1: u8, q2: u8, qid: u64)
    ensures
        p1 < q1 ==> remote_is_better(p1, p2, id, q1, q2, qid),
        p1 > q1 ==> !remote_is_better(p1, p2, id, q1, q2, qid),
        p1 == q1 && p2 < q2 ==> remote_is_better(p1, p2, id, q1, q2, qid),
        p1 == q1 && p2 > q2 ==> !remote_is_better(p1, p2, id, q1, q2, qid),
        p1 == q1 && p2 == q2 ==> (remote_is_better(p1, p2, id, q1, q2, qid) <==> id < qid),
{
}

/// A node is a slave exactly when it follows a remote master.
pub open spec fn role_consistent(m: NodeModel) -> bool {
    (m.role == EffectiveRole::Slave) == (m.remote_master is Some)
}

/// A new node is consistent, and every event keeps the node consistent:
/// packets, timer ticks, Announces and the timeout check alike.
pub proof fn lemma_role_consistent_preserved(
    m: NodeModel,
    data: Seq<u8>,
    src: PeerAddr,
    a: PtpTimestamp,
    b: PtpTimestamp,
    now: u64,
    gm: u64,
    p1: u8,
    p2: u8,
)
    requires
        role_consistent(m),
    ensures
        role_consistent(after_event_packet(m, data, src, a, b).0),
        role_consistent(after_general_packet(m, data, src, a, now).0),
        role_consistent(after_delay_req_tick(m, a, now).0),
        role_consistent(after_sync_tick(m, a, b).0),
        role_consistent(after_announce(m, gm, p1, p2, src, now)),
        role_consistent(after_timeout_check(m, now)),
        role_consistent(NodeModel { announce_sequence: next_seq(m.announce_sequence), ..m }),
        role_consistent(NodeModel { known_slaves: add_unique(m.known_slaves, src), ..m }),
        role_consistent(NodeModel { known_general_slaves: add_unique(m.known_general_slaves, src), ..m }),
{
}

/// An Announce that carries our own clock identity changes nothing.
pub proof fn lemma_own_announce_ignored(m: NodeModel, p1: u8, p2: u8, src: PeerAddr, now: u64)
    ensures
        after_announce(m, m.clock_id, p1, p2, src, now) == m,
{
}

/// A measurement is handed to the clock only with T1, T2 and T3 all
/// pending, and afterwards none of them is.
pub proof fn lemma_measurement_complete(m: NodeModel, t4: PtpTimestamp, clear_sent: bool)
    ensures
        after_delay_resp(m, t4, clear_sent).1.len() > 0 ==> {
            &&& m.pending_t1 is Some && m.pending_t2 is Some && m.pending_t3 is Some
            &&& after_delay_resp(m, t4, clear_sent).1 == seq![
                ActionModel::ProcessTiming(
                    m.pending_t1.unwrap(),
                    m.pending_t2.unwrap(),
                    m.pending_t3.unwrap(),
                    t4,
                ),
            ]
            &&& after_delay_resp(m, t4, clear_sent).0.pending_t1 is None
            &&& after_delay_resp(m, t4, clear_sent).0.pending_t2 is None
            &&& after_delay_resp(m, t4, clear_sent).0.pending_t3 is None
        },
{
}

/// The known-peer lists never hold an address twice.
pub proof fn lemma_add_unique_no_duplicates(s: Seq<PeerAddr>, a: PeerAddr)
    requires
        s.no_duplicates(),
    ensures
        add_unique(s, a).no_duplicates(),
        add_unique(s, a).contains(a),
{
    if !s.contains(a) {
        let t = s.push(a);
        assert forall|i: int, j: int| 0 <= i < t.len() && 0 <= j < t.len() && i != j implies t[i]
            != t[j] by {
            if i < s.len() && j < s.len() {
                assert(t[i] == s[i] && t[j] == s[j]);
            } else if i == s.len() {
                assert(t[j] == s[j]);
            } else {
                assert(t[i] == s[i]);
            }
        }
        assert(t[s.len() as int] == a);
    }
}

} // verus!
