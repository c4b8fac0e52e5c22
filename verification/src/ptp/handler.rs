//! The decisions of the single-role PTP handlers: a slave that follows one
//! master, and a master that answers Delay_Req and sends Sync rounds and
//! Announces. The owner of the sockets feeds events in and performs the
//! actions that come back.
use vstd::prelude::*;
use super::addr::{actions_model, add_unique, push_unique, ActionModel, PeerAddr, PtpAction, PtpSocket};
use super::message::{AirPlayTimingPacket, PtpMessage, PtpMessageBody, PtpMessageType, PtpPortIdentity};
use super::node::{
    airplay_bytes, airplay_packet_bytes, message_bytes, message_bytes_exec, next_seq, push_action,
    send, sends_to_all, two_step_sync_bytes,
};
use super::timestamp::PtpTimestamp;
use crate::time::duration_from_secs;
use core::time::Duration;

pub use super::clock::PtpRole;
pub use super::node::{PTP_EVENT_PORT, PTP_GENERAL_PORT};

verus! {

/// Configuration for a PTP handler.
#[derive(Debug, Clone, Copy)]
pub struct PtpHandlerConfig {
    /// Clock identity for this endpoint.
    pub clock_id: u64,
    /// Role (master or slave).
    pub role: PtpRole,
    /// Interval between Sync messages when acting as master.
    pub sync_interval: Duration,
    /// Interval between Delay_Req messages when acting as slave.
    pub delay_req_interval: Duration,
    /// Maximum receive buffer size.
    pub recv_buf_size: usize,
    /// Use AirPlay compact packet format instead of IEEE 1588.
    pub use_airplay_format: bool,
}

impl Default for PtpHandlerConfig {
    fn default() -> (r: Self)
        ensures
            r.clock_id == 0,
            r.role == PtpRole::Slave,
            r.sync_interval == duration_from_secs(1),
            r.delay_req_interval == duration_from_secs(1),
            r.recv_buf_size == 256,
            !r.use_airplay_format,
    {
        Self {
            clock_id: 0,
            role: PtpRole::Slave,
            sync_interval: Duration::from_secs(1),
            delay_req_interval: Duration::from_secs(1),
            recv_buf_size: 256,
            use_airplay_format: false,
        }
    }
}

/// A slave handler as the contracts see it.
pub struct SlaveModel {
    /// The configuration it was made with.
    pub config: PtpHandlerConfig,
    /// Our clock identity.
    pub clock_id: u64,
    /// Whether the AirPlay compact format is used.
    pub use_airplay_format: bool,
    /// The master's event address.
    pub master_addr: PeerAddr,
    /// Next Delay_Req sequence ID.
    pub delay_req_sequence: u16,
    /// T1 of the exchange in progress.
    pub pending_t1: Option<PtpTimestamp>,
    /// T2 of the exchange in progress.
    pub pending_t2: Option<PtpTimestamp>,
    /// T3 of the exchange in progress.
    pub pending_t3: Option<PtpTimestamp>,
}

/// The measurement a Delay_Resp with T4 `t4` completes, if T1..T3 are
/// pending; the exchange is then over.
pub open spec fn slave_after_delay_resp(m: SlaveModel, t4: PtpTimestamp) -> (SlaveModel, Seq<ActionModel>) {
    match (m.pending_t1, m.pending_t2, m.pending_t3) {
        (Some(t1), Some(t2), Some(t3)) => (
            SlaveModel { pending_t1: None, pending_t2: None, pending_t3: None, ..m },
            seq![ActionModel::ProcessTiming(t1, t2, t3, t4)],
        ),
        _ => (m, Seq::empty()),
    }
}

/// What a packet on the event port that arrived at `rx` changes and sends.
pub open spec fn slave_after_event(m: SlaveModel, data: Seq<u8>, rx: PtpTimestamp) -> (
    SlaveModel,
    Seq<ActionModel>,
) {
    if m.use_airplay_format {
        match AirPlayTimingPacket::spec_decode(data) {
            Ok(p) => match p.message_type {
                PtpMessageType::Sync => (
                    SlaveModel { pending_t1: Some(p.timestamp), pending_t2: Some(rx), ..m },
                    Seq::empty(),
                ),
                PtpMessageType::DelayResp => slave_after_delay_resp(m, p.timestamp),
                _ => (m, Seq::empty()),
            },
            Err(_) => (m, Seq::empty()),
        }
    } else {
        match PtpMessage::spec_decode(data) {
            Ok(msg) => match msg.body {
                PtpMessageBody::Sync { origin_timestamp } => (
                    SlaveModel { pending_t1: Some(origin_timestamp), pending_t2: Some(rx), ..m },
                    Seq::empty(),
                ),
                PtpMessageBody::FollowUp { precise_origin_timestamp } => (
                    SlaveModel { pending_t1: Some(precise_origin_timestamp), ..m },
                    Seq::empty(),
                ),
                PtpMessageBody::DelayResp { receive_timestamp, .. } => slave_after_delay_resp(
                    m,
                    receive_timestamp,
                ),
                _ => (m, Seq::empty()),
            },
            Err(_) => (m, Seq::empty()),
        }
    }
}

/// What a packet on the general port changes: a Follow_Up gives the
/// precise T1.
pub open spec fn slave_after_general(m: SlaveModel, data: Seq<u8>) -> SlaveModel {
    if m.use_airplay_format {
        m
    } else {
        match PtpMessage::spec_decode(data) {
            Ok(msg) => match msg.body {
                PtpMessageBody::FollowUp { precise_origin_timestamp } => SlaveModel {
                    pending_t1: Some(precise_origin_timestamp),
                    ..m
                },
                _ => m,
            },
            Err(_) => m,
        }
    }
}

/// Sending a Delay_Req stamped `t3` to the master.
pub open spec fn slave_after_delay_req(m: SlaveModel, t3: PtpTimestamp) -> (SlaveModel, Seq<ActionModel>) {
    (
        SlaveModel {
            pending_t3: Some(t3),
            delay_req_sequence: next_seq(m.delay_req_sequence),
            ..m
        },
        seq![
            ActionModel::Send(
                PtpSocket::Event,
                m.master_addr,
                if m.use_airplay_format {
                    airplay_bytes(PtpMessageType::DelayReq, m.delay_req_sequence, t3, m.clock_id)
                } else {
                    message_bytes(
                        m.clock_id,
                        PtpMessageType::DelayReq,
                        m.delay_req_sequence,
                        PtpMessageBody::DelayReq { origin_timestamp: t3 },
                    )
                },
            ),
        ],
    )
}

/// The Delay_Req timer: with a Sync seen and no request outstanding, a
/// Delay_Req is sent.
pub open spec fn slave_after_tick(m: SlaveModel, t3: PtpTimestamp) -> (SlaveModel, Seq<ActionModel>) {
    if m.pending_t1 is Some && m.pending_t3 is None {
        slave_after_delay_req(m, t3)
    } else {
        (m, Seq::empty())
    }
}

/// The decision state of a PTP slave handler.
pub struct PtpSlaveCore {
    config: PtpHandlerConfig,
    master_addr: PeerAddr,
    delay_req_sequence: u16,
    pending_t1: Option<PtpTimestamp>,
    pending_t2: Option<PtpTimestamp>,
    pending_t3: Option<PtpTimestamp>,
}

impl View for PtpSlaveCore {
    type V = SlaveModel;

    closed spec fn view(&self) -> SlaveModel {
        SlaveModel {
            config: self.config,
            clock_id: self.config.clock_id,
            use_airplay_format: self.config.use_airplay_format,
            master_addr: self.master_addr,
            delay_req_sequence: self.delay_req_sequence,
            pending_t1: self.pending_t1,
            pending_t2: self.pending_t2,
            pending_t3: self.pending_t3,
        }
    }
}

impl PtpSlaveCore {
    /// A new slave of the master at `master_addr`, with nothing pending.
    pub fn new(config: PtpHandlerConfig, master_addr: PeerAddr) -> (r: Self)
        ensures
            r@ == (SlaveModel {
                config,
                clock_id: config.clock_id,
                use_airplay_format: config.use_airplay_format,
                master_addr,
                delay_req_sequence: 0,
                pending_t1: None,
                pending_t2: None,
                pending_t3: None,
            }),
    {
        Self {
            config,
            master_addr,
            delay_req_sequence: 0,
            pending_t1: None,
            pending_t2: None,
            pending_t3: None,
        }
    }

    /// The configuration.
    pub fn config(&self) -> (r: &PtpHandlerConfig)
        ensures
            *r == self@.config,
    {
        &self.config
    }

    fn process_delay_resp(&mut self, t4: PtpTimestamp) -> (r: Vec<PtpAction>)
        ensures
            (final(self)@, actions_model(r@)) == slave_after_delay_resp(old(self)@, t4),
    {
        let mut out: Vec<PtpAction> = Vec::new();
        match (self.pending_t1, self.pending_t2, self.pending_t3) {
            (Some(t1), Some(t2), Some(t3)) => {
                push_action(&mut out, PtpAction::ProcessTiming { t1, t2, t3, t4 });
                self.pending_t1 = None;
                self.pending_t2 = None;
                self.pending_t3 = None;
            },
            _ => {},
        }
        proof {
            assert(actions_model(out@) =~= slave_after_delay_resp(old(self)@, t4).1);
        }
        out
    }

    /// Handle a packet that arrived on the event port at `rx`.
    pub fn handle_event_packet(&mut self, data: &[u8], rx: PtpTimestamp) -> (r: Vec<PtpAction>)
        ensures
            (final(self)@, actions_model(r@)) == slave_after_event(old(self)@, data@, rx),
    {
        if self.config.use_airplay_format {
            match AirPlayTimingPacket::decode(data) {
                Ok(pkt) => {
                    match pkt.message_type {
                        PtpMessageType::Sync => {
                            self.pending_t1 = Some(pkt.timestamp);
                            self.pending_t2 = Some(rx);
                        },
                        PtpMessageType::DelayResp => {
                            return self.process_delay_resp(pkt.timestamp);
                        },
                        _ => {},
                    }
                },
                Err(_) => {},
            }
        } else {
            match PtpMessage::decode(data) {
                Ok(msg) => {
                    match msg.body {
                        PtpMessageBody::Sync { origin_timestamp } => {
                            self.pending_t1 = Some(origin_timestamp);
                            self.pending_t2 = Some(rx);
                        },
                        PtpMessageBody::FollowUp { precise_origin_timestamp } => {
                            self.pending_t1 = Some(precise_origin_timestamp);
                        },
                        PtpMessageBody::DelayResp { receive_timestamp, .. } => {
                            return self.process_delay_resp(receive_timestamp);
                        },
                        _ => {},
                    }
                },
                Err(_) => {},
            }
        }
        let out: Vec<PtpAction> = Vec::new();
        proof {
            assert(actions_model(out@) =~= Seq::<ActionModel>::empty());
        }
        out
    }

    /// Handle a packet that arrived on the general port.
    pub fn handle_general_packet(&mut self, data: &[u8])
        ensures
            final(self)@ == slave_after_general(old(self)@, data@),
    {
        if self.config.use_airplay_format {
            return;
        }
        match PtpMessage::decode(data) {
            Ok(msg) => {
                match msg.body {
                    PtpMessageBody::FollowUp { precise_origin_timestamp } => {
                        self.pending_t1 = Some(precise_origin_timestamp);
                    },
                    _ => {},
                }
            },
            Err(_) => {},
        }
    }

    /// Send a Delay_Req stamped `t3` to the master.
    pub fn send_delay_req(&mut self, t3: PtpTimestamp) -> (r: Vec<PtpAction>)
        ensures
            (final(self)@, actions_model(r@)) == slave_after_delay_req(old(self)@, t3),
    {
        self.pending_t3 = Some(t3);
        let data = if self.config.use_airplay_format {
            airplay_packet_bytes(
                PtpMessageType::DelayReq,
                self.delay_req_sequence,
                t3,
                self.config.clock_id,
            )
        } else {
            message_bytes_exec(
                self.config.clock_id,
                PtpMessageType::DelayReq,
                self.delay_req_sequence,
                PtpMessageBody::DelayReq { origin_timestamp: t3 },
            )
        };
        let mut out: Vec<PtpAction> = Vec::new();
        push_action(&mut out, send(PtpSocket::Event, self.master_addr, data));
        self.delay_req_sequence = self.delay_req_sequence.wrapping_add(1);
        proof {
            assert(actions_model(out@) =~= slave_after_delay_req(old(self)@, t3).1);
        }
        out
    }

    /// The Delay_Req timer fired; `t3` stamps a Delay_Req sent now.
    pub fn on_delay_req_timer(&mut self, t3: PtpTimestamp) -> (r: Vec<PtpAction>)
        ensures
            (final(self)@, actions_model(r@)) == slave_after_tick(old(self)@, t3),
    {
        if self.pending_t1.is_some() && self.pending_t3.is_none() {
            return self.send_delay_req(t3);
        }
        let out: Vec<PtpAction> = Vec::new();
        proof {
            assert(actions_model(out@) =~= Seq::<ActionModel>::empty());
        }
        out
    }
}

/// A master handler as the contracts see it.
pub struct MasterModel {
    /// The configuration it was made with.
    pub config: PtpHandlerConfig,
    /// Our clock identity.
    pub clock_id: u64,
    /// Whether the AirPlay compact format is used.
    pub use_airplay_format: bool,
    /// Whether there is a general socket.
    pub has_general_socket: bool,
    /// Next Sync sequence ID.
    pub sync_sequence: u16,
    /// Next Announce sequence ID.
    pub announce_sequence: u16,
    /// Known slave event addresses.
    pub known_slaves: Seq<PeerAddr>,
    /// Known slave general addresses.
    pub known_general_slaves: Seq<PeerAddr>,
}

/// What a packet on the event port changes and sends: a Delay_Req makes its
/// sender a known slave and is answered with a Delay_Resp carrying `reply`
/// (on the general socket when there is one); anything else is only seen.
pub open spec fn master_after_event(m: MasterModel, data: Seq<u8>, src: PeerAddr, reply: PtpTimestamp) -> (
    MasterModel,
    Seq<ActionModel>,
) {
    let m2 = MasterModel { known_slaves: add_unique(m.known_slaves, src), ..m };
    if m.use_airplay_format {
        match AirPlayTimingPacket::spec_decode(data) {
            Ok(p) => if p.message_type == PtpMessageType::DelayReq {
                (
                    m2,
                    seq![
                        ActionModel::Send(
                            PtpSocket::Event,
                            src,
                            airplay_bytes(PtpMessageType::DelayResp, p.sequence_id, reply, m.clock_id),
                        ),
                    ],
                )
            } else {
                (m, Seq::empty())
            },
            Err(_) => (m, Seq::empty()),
        }
    } else {
        match PtpMessage::spec_decode(data) {
            Ok(msg) => match msg.body {
                PtpMessageBody::DelayReq { .. } => {
                    let resp = message_bytes(
                        m.clock_id,
                        PtpMessageType::DelayResp,
                        msg.header.sequence_id,
                        PtpMessageBody::DelayResp {
                            receive_timestamp: reply,
                            requesting_port_identity: msg.header.source_port_identity,
                        },
                    );
                    (
                        m2,
                        seq![
                            ActionModel::Send(
                                if m.has_general_socket {
                                    PtpSocket::General
                                } else {
                                    PtpSocket::Event
                                },
                                src,
                                resp,
                            ),
                        ],
                    )
                },
                _ => (m, Seq::empty()),
            },
            Err(_) => (m, Seq::empty()),
        }
    }
}

/// What a Sync to one slave sends.
pub open spec fn master_sync_for(
    m: MasterModel,
    slave: PeerAddr,
    t1: PtpTimestamp,
    precise: PtpTimestamp,
) -> Seq<ActionModel> {
    if m.use_airplay_format {
        seq![
            ActionModel::Send(
                PtpSocket::Event,
                slave,
                airplay_bytes(PtpMessageType::Sync, m.sync_sequence, t1, m.clock_id),
            ),
        ]
    } else {
        let fu = message_bytes(
            m.clock_id,
            PtpMessageType::FollowUp,
            m.sync_sequence,
            PtpMessageBody::FollowUp { precise_origin_timestamp: precise },
        );
        let sync = seq![
            ActionModel::Send(
                PtpSocket::Event,
                slave,
                two_step_sync_bytes(m.clock_id, m.sync_sequence, t1),
            ),
        ];
        if m.has_general_socket {
            sync + sends_to_all(PtpSocket::General, m.known_general_slaves, fu) + if m.known_general_slaves.len()
                == 0 {
                seq![ActionModel::Send(PtpSocket::General, slave, fu)]
            } else {
                Seq::empty()
            }
        } else {
            sync + seq![ActionModel::Send(PtpSocket::Event, slave, fu)]
        }
    }
}

/// What a Sync round sends to the slaves in `slaves`, in order.
pub open spec fn master_sync_actions(
    m: MasterModel,
    slaves: Seq<PeerAddr>,
    t1: PtpTimestamp,
    precise: PtpTimestamp,
) -> Seq<ActionModel>
    decreases slaves.len(),
{
    if slaves.len() == 0 {
        Seq::empty()
    } else {
        master_sync_actions(m, slaves.drop_last(), t1, precise) + master_sync_for(
            m,
            slaves.last(),
            t1,
            precise,
        )
    }
}

/// Our Announce as master (grandmaster ourselves, priorities 128) with
/// origin timestamp `origin`.
pub open spec fn master_announce_bytes(m: MasterModel, origin: PtpTimestamp) -> Seq<u8> {
    message_bytes(
        m.clock_id,
        PtpMessageType::Announce,
        m.announce_sequence,
        PtpMessageBody::Announce {
            origin_timestamp: origin,
            grandmaster_identity: m.clock_id,
            grandmaster_priority1: 128,
            grandmaster_priority2: 128,
        },
    )
}

/// The decision state of a PTP master handler.
pub struct PtpMasterCore {
    config: PtpHandlerConfig,
    has_general_socket: bool,
    sync_sequence: u16,
    announce_sequence: u16,
    known_slaves: Vec<PeerAddr>,
    known_general_slaves: Vec<PeerAddr>,
}

impl View for PtpMasterCore {
    type V = MasterModel;

    closed spec fn view(&self) -> MasterModel {
        MasterModel {
            config: self.config,
            clock_id: self.config.clock_id,
            use_airplay_format: self.config.use_airplay_format,
            has_general_socket: self.has_general_socket,
            sync_sequence: self.sync_sequence,
            announce_sequence: self.announce_sequence,
            known_slaves: self.known_slaves@,
            known_general_slaves: self.known_general_slaves@,
        }
    }
}

impl PtpMasterCore {
    /// A new master with no known slaves and all sequences at zero.
    pub fn new(config: PtpHandlerConfig, has_general_socket: bool) -> (r: Self)
        ensures
            r@ == (MasterModel {
                config,
                clock_id: config.clock_id,
                use_airplay_format: config.use_airplay_format,
                has_general_socket,
                sync_sequence: 0,
                announce_sequence: 0,
                known_slaves: Seq::empty(),
                known_general_slaves: Seq::empty(),
            }),
    {
        Self {
            config,
            has_general_socket,
            sync_sequence: 0,
            announce_sequence: 0,
            known_slaves: Vec::new(),
            known_general_slaves: Vec::new(),
        }
    }

    /// The configuration.
    pub fn config(&self) -> (r: &PtpHandlerConfig)
        ensures
            *r == self@.config,
    {
        &self.config
    }

    /// Whether any slave is known.
    pub fn has_slaves(&self) -> (r: bool)
        ensures
            r == (self@.known_slaves.len() > 0),
    {
        self.known_slaves.len() > 0
    }

    /// Add a known slave event address for Sync broadcasts.
    pub fn add_slave(&mut self, addr: PeerAddr)
        ensures
            final(self)@ == (MasterModel {
                known_slaves: add_unique(old(self)@.known_slaves, addr),
                ..old(self)@
            }),
    {
        push_unique(&mut self.known_slaves, addr);
    }

    /// Add a known slave general address for Follow_Up messages.
    pub fn add_general_slave(&mut self, addr: PeerAddr)
        ensures
            final(self)@ == (MasterModel {
                known_general_slaves: add_unique(old(self)@.known_general_slaves, addr),
                ..old(self)@
            }),
    {
        push_unique(&mut self.known_general_slaves, addr);
    }

    /// Handle a message that arrived on the event port from `src`; `reply`
    /// is the timestamp that a Delay_Resp in answer carries.
    pub fn handle_event_message(&mut self, data: &[u8], src: PeerAddr, reply: PtpTimestamp) -> (r: Vec<
        PtpAction,
    >)
        ensures
            (final(self)@, actions_model(r@)) == master_after_event(old(self)@, data@, src, reply),
    {
        let mut out: Vec<PtpAction> = Vec::new();
        if self.config.use_airplay_format {
            match AirPlayTimingPacket::decode(data) {
                Ok(req) => {
                    if req.message_type == PtpMessageType::DelayReq {
                        self.add_slave(src);
                        let bytes = airplay_packet_bytes(
                            PtpMessageType::DelayResp,
                            req.sequence_id,
                            reply,
                            self.config.clock_id,
                        );
                        push_action(&mut out, send(PtpSocket::Event, src, bytes));
                    }
                },
                Err(_) => {},
            }
        } else {
            match PtpMessage::decode(data) {
                Ok(msg) => {
                    match msg.body {
                        PtpMessageBody::DelayReq { .. } => {
                            self.add_slave(src);
                            let bytes = message_bytes_exec(
                                self.config.clock_id,
                                PtpMessageType::DelayResp,
                                msg.header.sequence_id,
                                PtpMessageBody::DelayResp {
                                    receive_timestamp: reply,
                                    requesting_port_identity: msg.header.source_port_identity,
                                },
                            );
                            let socket = if self.has_general_socket {
                                PtpSocket::General
                            } else {
                                PtpSocket::Event
                            };
                            push_action(&mut out, send(socket, src, bytes));
                        },
                        _ => {},
                    }
                },
                Err(_) => {},
            }
        }
        proof {
            assert(actions_model(out@) =~= master_after_event(old(self)@, data@, src, reply).1);
        }
        out
    }

    /// Send our Announce (grandmaster ourselves, priorities 128) to the
    /// known general addresses.
    pub fn send_announce(&mut self) -> (r: Vec<PtpAction>)
        ensures
            exists|origin: PtpTimestamp| actions_model(r@) == (if old(self)@.has_general_socket {
                sends_to_all(
                    PtpSocket::General,
                    old(self)@.known_general_slaves,
                    master_announce_bytes(old(self)@, origin),
                )
            } else {
                Seq::<ActionModel>::empty()
            }),
            final(self)@ == (MasterModel {
                announce_sequence: next_seq(old(self)@.announce_sequence),
                ..old(self)@
            }),
    {
        let source = PtpPortIdentity::new(self.config.clock_id, 1);
        let announce = PtpMessage::announce(
            source,
            self.announce_sequence,
            self.config.clock_id,
            128,
            128,
        );
        let ghost origin = announce.body->Announce_origin_timestamp;
        let encoded = announce.encode();
        proof {
            assert(encoded@ == master_announce_bytes(self@, origin));
        }
        let mut out: Vec<PtpAction> = Vec::new();
        if self.has_general_socket {
            let mut j: usize = 0;
            while j < self.known_general_slaves.len()
                invariant
                    j <= self.known_general_slaves@.len(),
                    actions_model(out@) == sends_to_all(
                        PtpSocket::General,
                        self.known_general_slaves@.subrange(0, j as int),
                        encoded@,
                    ),
                decreases self.known_general_slaves@.len() - j,
            {
                let g = self.known_general_slaves[j];
                push_action(
                    &mut out,
                    send(PtpSocket::General, g, crate::bytes::copy_bytes(encoded.as_slice())),
                );
                proof {
                    assert(sends_to_all(
                        PtpSocket::General,
                        self.known_general_slaves@.subrange(0, j + 1),
                        encoded@,
                    ) =~= sends_to_all(
                        PtpSocket::General,
                        self.known_general_slaves@.subrange(0, j as int),
                        encoded@,
                    ).push(ActionModel::Send(PtpSocket::General, g, encoded@)));
                }
                j = j + 1;
            }
            proof {
                assert(self.known_general_slaves@.subrange(0, self.known_general_slaves@.len() as int)
                    =~= self.known_general_slaves@);
            }
        } else {
            proof {
                assert(actions_model(out@) =~= Seq::<ActionModel>::empty());
            }
        }
        self.announce_sequence = self.announce_sequence.wrapping_add(1);
        out
    }

    fn sync_to(&self, out: &mut Vec<PtpAction>, slave: PeerAddr, t1: PtpTimestamp, precise: PtpTimestamp)
        ensures
            actions_model(final(out)@) == actions_model(old(out)@) + master_sync_for(
                self@,
                slave,
                t1,
                precise,
            ),
    {
        let ghost start = actions_model(out@);
        if self.config.use_airplay_format {
            let bytes = airplay_packet_bytes(
                PtpMessageType::Sync,
                self.sync_sequence,
                t1,
                self.config.clock_id,
            );
            push_action(out, send(PtpSocket::Event, slave, bytes));
            proof {
                assert(actions_model(out@) =~= start + master_sync_for(self@, slave, t1, precise));
            }
            return;
        }
        let source = PtpPortIdentity::new(self.config.clock_id, 1);
        let mut sync_msg = PtpMessage::sync(source, self.sync_sequence, t1);
        sync_msg.header.flags = 0x0200;
        push_action(out, send(PtpSocket::Event, slave, sync_msg.encode()));
        let fu = message_bytes_exec(
            self.config.clock_id,
            PtpMessageType::FollowUp,
            self.sync_sequence,
            PtpMessageBody::FollowUp { precise_origin_timestamp: precise },
        );
        let ghost sync_part = start + seq![
            ActionModel::Send(
                PtpSocket::Event,
                slave,
                two_step_sync_bytes(self@.clock_id, self@.sync_sequence, t1),
            ),
        ];
        proof {
            assert(actions_model(out@) =~= sync_part);
        }
        if self.has_general_socket {
            let mut j: usize = 0;
            while j < self.known_general_slaves.len()
                invariant
                    j <= self.known_general_slaves@.len(),
                    actions_model(out@) == sync_part + sends_to_all(
                        PtpSocket::General,
                        self.known_general_slaves@.subrange(0, j as int),
                        fu@,
                    ),
                decreases self.known_general_slaves@.len() - j,
            {
                let g = self.known_general_slaves[j];
                push_action(out, send(PtpSocket::General, g, crate::bytes::copy_bytes(fu.as_slice())));
                proof {
                    assert(sends_to_all(
                        PtpSocket::General,
                        self.known_general_slaves@.subrange(0, j + 1),
                        fu@,
                    ) =~= sends_to_all(
                        PtpSocket::General,
                        self.known_general_slaves@.subrange(0, j as int),
                        fu@,
                    ).push(ActionModel::Send(PtpSocket::General, g, fu@)));
                }
                j = j + 1;
            }
            proof {
                assert(self.known_general_slaves@.subrange(0, self.known_general_slaves@.len() as int)
                    =~= self.known_general_slaves@);
            }
            if self.known_general_slaves.len() == 0 {
                push_action(out, send(PtpSocket::General, slave, fu));
            }
        } else {
            push_action(out, send(PtpSocket::Event, slave, fu));
        }
        proof {
            assert(actions_model(out@) =~= start + master_sync_for(self@, slave, t1, precise));
        }
    }

    /// Send a Sync round to the known slaves: `t1` stamps the Syncs and
    /// `precise` the Follow_Ups.
    pub fn send_sync(&mut self, t1: PtpTimestamp, precise: PtpTimestamp) -> (r: Vec<PtpAction>)
        ensures
            actions_model(r@) == master_sync_actions(old(self)@, old(self)@.known_slaves, t1, precise),
            final(self)@ == (MasterModel {
                sync_sequence: next_seq(old(self)@.sync_sequence),
                ..old(self)@
            }),
    {
        let mut out: Vec<PtpAction> = Vec::new();
        let mut i: usize = 0;
        proof {
            assert(actions_model(out@) =~= master_sync_actions(
                self@,
                self@.known_slaves.subrange(0, 0),
                t1,
                precise,
            ));
        }
        while i < self.known_slaves.len()
            invariant
                i <= self.known_slaves@.len(),
                self@ == old(self)@,
                actions_model(out@) == master_sync_actions(
                    self@,
                    self@.known_slaves.subrange(0, i as int),
                    t1,
                    precise,
                ),
            decreases self.known_slaves@.len() - i,
        {
            let slave = self.known_slaves[i];
            self.sync_to(&mut out, slave, t1, precise);
            proof {
                let sub = self@.known_slaves.subrange(0, i + 1);
                assert(sub.drop_last() =~= self@.known_slaves.subrange(0, i as int));
                assert(sub.last() == slave);
            }
            i = i + 1;
        }
        proof {
            assert(self@.known_slaves.subrange(0, self@.known_slaves.len() as int)
                =~= self@.known_slaves);
        }
        self.sync_sequence = self.sync_sequence.wrapping_add(1);
        out
    }
}

} // verus!
