//! PTP message types, parsing and encoding.
//!
//! The IEEE 1588 format (a 34-byte header and a typed body) and the compact
//! 24-byte AirPlay timing packet.
use vstd::prelude::*;
use crate::ptp::timestamp::NANOS_PER_SEC;
use crate::bytes::{
    be16, be64, be_bytes, be_value, lemma_be16_roundtrip, lemma_be64_roundtrip,
    lemma_be_bytes_len, lemma_be_value_bound, lemma_be_value_of_bytes, lemma_pow256_values,
    lemma_small_mod, push_be, push_u16_be, read_be, read_u16_be, read_u64_be, to_array10,
    to_array24, to_array34,
};
use crate::ptp::timestamp::{lemma_ieee1588_roundtrip, PtpTimestamp, SECONDS_RANGE};

verus! {

/// Errors from PTP message parsing.
#[derive(Debug, Clone, PartialEq, Eq, Structural)]
pub enum PtpParseError {
    /// Packet too short.
    TooShort {
        /// Minimum bytes needed.
        needed: usize,
        /// Bytes actually available.
        have: usize,
    },
    /// Unknown message type (the low nibble of the first byte).
    UnknownMessageType(u8),
}

/// PTP message type identifiers (IEEE 1588 Section 13.3.2.2).
#[derive(Debug, Clone, Copy, PartialEq, Eq, Structural, Hash)]
pub enum PtpMessageType {
    /// Sync message (master to slave), carries T1.
    Sync,
    /// Delay request (slave to master), sent at T3.
    DelayReq,
    /// Follow-up (master to slave), carries precise T1.
    FollowUp,
    /// Delay response (master to slave), carries T4.
    DelayResp,
    /// Announce (master to slave), clock properties.
    Announce,
}

impl PtpMessageType {
    /// The wire value of the message type (a nibble).
    pub open spec fn spec_nibble(self) -> u8 {
        match self {
            PtpMessageType::Sync => 0x00,
            PtpMessageType::DelayReq => 0x01,
            PtpMessageType::FollowUp => 0x08,
            PtpMessageType::DelayResp => 0x09,
            PtpMessageType::Announce => 0x0B,
        }
    }

    /// The message type named by the low nibble of `value`.
    pub open spec fn spec_from_nibble(value: u8) -> Result<PtpMessageType, PtpParseError> {
        let n = value % 16;
        if n == 0x00 {
            Ok(PtpMessageType::Sync)
        } else if n == 0x01 {
            Ok(PtpMessageType::DelayReq)
        } else if n == 0x08 {
            Ok(PtpMessageType::FollowUp)
        } else if n == 0x09 {
            Ok(PtpMessageType::DelayResp)
        } else if n == 0x0B {
            Ok(PtpMessageType::Announce)
        } else {
            Err(PtpParseError::UnknownMessageType(n))
        }
    }

    /// Parse from the lower 4 bits of a byte.
    pub fn from_nibble(value: u8) -> (r: Result<Self, PtpParseError>)
        ensures
            r == Self::spec_from_nibble(value),
    {
        let n = value % 16;
        if n == 0x00 {
            Ok(PtpMessageType::Sync)
        } else if n == 0x01 {
            Ok(PtpMessageType::DelayReq)
        } else if n == 0x08 {
            Ok(PtpMessageType::FollowUp)
        } else if n == 0x09 {
            Ok(PtpMessageType::DelayResp)
        } else if n == 0x0B {
            Ok(PtpMessageType::Announce)
        } else {
            Err(PtpParseError::UnknownMessageType(n))
        }
    }

    /// The wire value of the message type.
    pub fn to_nibble(&self) -> (r: u8)
        ensures
            r == self.spec_nibble(),
    {
        match self {
            PtpMessageType::Sync => 0x00,
            PtpMessageType::DelayReq => 0x01,
            PtpMessageType::FollowUp => 0x08,
            PtpMessageType::DelayResp => 0x09,
            PtpMessageType::Announce => 0x0B,
        }
    }

    /// The IEEE 1588 name of the message type.
    pub open spec fn spec_name(self) -> Seq<char> {
        match self {
            PtpMessageType::Sync => "Sync"@,
            PtpMessageType::DelayReq => "Delay_Req"@,
            PtpMessageType::FollowUp => "Follow_Up"@,
            PtpMessageType::DelayResp => "Delay_Resp"@,
            PtpMessageType::Announce => "Announce"@,
        }
    }

    /// The IEEE 1588 name of the message type, as it is displayed.
    pub fn name(&self) -> (r: &'static str)
        ensures
            r@ == self.spec_name(),
    {
        match self {
            PtpMessageType::Sync => "Sync",
            PtpMessageType::DelayReq => "Delay_Req",
            PtpMessageType::FollowUp => "Follow_Up",
            PtpMessageType::DelayResp => "Delay_Resp",
            PtpMessageType::Announce => "Announce",
        }
    }

    /// Whether this message type is an event message (requires timestamping).
    pub fn is_event(&self) -> (r: bool)
        ensures
            r == (*self == PtpMessageType::Sync || *self == PtpMessageType::DelayReq),
    {
        match self {
            PtpMessageType::Sync | PtpMessageType::DelayReq => true,
            _ => false,
        }
    }

    /// Whether this message type is a general message.
    pub fn is_general(&self) -> (r: bool)
        ensures
            r == !(*self == PtpMessageType::Sync || *self == PtpMessageType::DelayReq),
    {
        !self.is_event()
    }
}

/// Every message type is read back from its own wire value.
pub proof fn lemma_nibble_roundtrip(t: PtpMessageType)
    ensures
        t.spec_nibble() < 16,
        PtpMessageType::spec_from_nibble(t.spec_nibble()) == Ok::<PtpMessageType, PtpParseError>(
            t,
        ),
{
}

/// PTP port identity: 8-byte clock ID + 2-byte port number.
#[derive(Debug, Clone, Copy, PartialEq, Eq, Structural, Hash, Default)]
pub struct PtpPortIdentity {
    /// 8-byte clock identity (typically derived from MAC address).
    pub clock_identity: u64,
    /// Port number (1-based).
    pub port_number: u16,
}

impl PtpPortIdentity {
    /// The 10-byte wire form.
    pub open spec fn spec_encode(self) -> Seq<u8> {
        be64(self.clock_identity) + be16(self.port_number)
    }

    /// Decoding of the first 10 bytes; `None` when fewer.
    pub open spec fn spec_decode(data: Seq<u8>) -> Option<PtpPortIdentity> {
        if data.len() < 10 {
            None
        } else {
            Some(
                PtpPortIdentity {
                    clock_identity: be_value(data.subrange(0, 8)) as u64,
                    port_number: be_value(data.subrange(8, 10)) as u16,
                },
            )
        }
    }

    /// Create a new port identity.
    pub fn new(clock_identity: u64, port_number: u16) -> (r: Self)
        ensures
            r.clock_identity == clock_identity,
            r.port_number == port_number,
    {
        Self { clock_identity, port_number }
    }

    fn push_to(&self, buf: &mut Vec<u8>)
        ensures
            final(buf)@ == old(buf)@ + self.spec_encode(),
    {
        push_be(buf, self.clock_identity, 8);
        push_u16_be(buf, self.port_number);
        proof {
            assert(final(buf)@ =~= old(buf)@ + self.spec_encode());
        }
    }

    /// Encode as 10 bytes (8-byte clock ID + 2-byte port number, BE).
    pub fn encode(&self) -> (r: [u8; 10])
        ensures
            r@ == self.spec_encode(),
    {
        let mut v: Vec<u8> = Vec::new();
        self.push_to(&mut v);
        proof {
            lemma_be_bytes_len(self.clock_identity as nat, 8);
            lemma_be_bytes_len(self.port_number as nat, 2);
        }
        to_array10(&v)
    }

    /// Decode from the first 10 bytes of `data`.
    pub fn decode(data: &[u8]) -> (r: Option<Self>)
        ensures
            r == Self::spec_decode(data@),
    {
        if data.len() < 10 {
            return None;
        }
        Some(Self { clock_identity: read_u64_be(data, 0), port_number: read_u16_be(data, 8) })
    }
}

/// Decoding an encoded port identity gives it back.
pub proof fn lemma_port_identity_roundtrip(p: PtpPortIdentity)
    ensures
        p.spec_encode().len() == 10,
        PtpPortIdentity::spec_decode(p.spec_encode()) == Some(p),
{
    lemma_be64_roundtrip(p.clock_identity);
    lemma_be16_roundtrip(p.port_number);
    let e = p.spec_encode();
    assert(e.subrange(0, 8) =~= be64(p.clock_identity));
    assert(e.subrange(8, 10) =~= be16(p.port_number));
}

/// Full IEEE 1588 PTP message header (34 bytes).
#[derive(Debug, Clone, Copy, PartialEq, Eq, Structural)]
pub struct PtpHeader {
    /// Transport-specific nibble (upper 4 bits of byte 0).
    pub transport_specific: u8,
    /// Message type (lower 4 bits of byte 0).
    pub message_type: PtpMessageType,
    /// PTP version (typically 2).
    pub version: u8,
    /// Total message length including header.
    pub message_length: u16,
    /// Domain number.
    pub domain_number: u8,
    /// Flags field.
    pub flags: u16,
    /// Correction field (nanoseconds * 2^16, signed).
    pub correction_field: i64,
    /// Source port identity.
    pub source_port_identity: PtpPortIdentity,
    /// Sequence ID.
    pub sequence_id: u16,
    /// Control field (deprecated in v2, but still present).
    pub control_field: u8,
    /// Log message interval.
    pub log_message_interval: i8,
}

/// The message type travels in the low nibble of a message's first byte
/// with the IEEE 1588 numbers: Sync 0x0, Delay_Req 0x1, Follow_Up 0x8,
/// Delay_Resp 0x9, Announce 0xB. Every encoded header carries its type's
/// number, and every decoded header has the type that number names.
pub proof fn lemma_message_type_on_the_wire(h: PtpHeader, body_length: nat, data: Seq<u8>)
    ensures
        ({
            let n = h.spec_encode(body_length)[0] % 16;
            &&& (n == 0x0 <==> h.message_type == PtpMessageType::Sync)
            &&& (n == 0x1 <==> h.message_type == PtpMessageType::DelayReq)
            &&& (n == 0x8 <==> h.message_type == PtpMessageType::FollowUp)
            &&& (n == 0x9 <==> h.message_type == PtpMessageType::DelayResp)
            &&& (n == 0xB <==> h.message_type == PtpMessageType::Announce)
        }),
        PtpHeader::spec_decode(data) matches Ok(d) ==> {
            let n = data[0] % 16;
            &&& (n == 0x0 <==> d.message_type == PtpMessageType::Sync)
            &&& (n == 0x1 <==> d.message_type == PtpMessageType::DelayReq)
            &&& (n == 0x8 <==> d.message_type == PtpMessageType::FollowUp)
            &&& (n == 0x9 <==> d.message_type == PtpMessageType::DelayResp)
            &&& (n == 0xB <==> d.message_type == PtpMessageType::Announce)
        },
{
    let t = h.transport_specific % 16;
    let k = h.message_type.spec_nibble();
    assert(k < 16);
    assert((((t * 16 + k) as u8) % 16) == k) by (nonlinear_arith)
        requires
            t < 16,
            k < 16,
    ;
}

/// The control field that belongs to each message type.
pub open spec fn spec_control_field(t: PtpMessageType) -> u8 {
    match t {
        PtpMessageType::Sync => 0x00,
        PtpMessageType::DelayReq => 0x01,
        PtpMessageType::FollowUp => 0x02,
        PtpMessageType::DelayResp => 0x03,
        PtpMessageType::Announce => 0x05,
    }
}

impl PtpHeader {
    /// Header size in bytes.
    pub const SIZE: usize = 34;

    /// Default PTP version.
    pub const PTP_VERSION_2: u8 = 2;

    /// The 34-byte wire form of the header of a message whose body is
    /// `body_length` bytes long.
    pub open spec fn spec_encode(self, body_length: nat) -> Seq<u8> {
        seq![
            ((self.transport_specific % 16) * 16 + self.message_type.spec_nibble()) as u8,
            self.version % 16,
        ] + be16(((34 + body_length) % 65536) as u16) + seq![self.domain_number, 0u8] + be16(
            self.flags,
        ) + be64(self.correction_field as u64) + seq![0u8, 0u8, 0u8, 0u8]
            + self.source_port_identity.spec_encode() + be16(self.sequence_id) + seq![
            self.control_field,
            self.log_message_interval as u8,
        ]
    }

    /// Decoding of the first 34 bytes.
    pub open spec fn spec_decode(data: Seq<u8>) -> Result<PtpHeader, PtpParseError> {
        if data.len() < 34 {
            Err(PtpParseError::TooShort { needed: 34, have: data.len() as usize })
        } else {
            match PtpMessageType::spec_from_nibble(data[0]) {
                Err(e) => Err(e),
                Ok(t) => Ok(
                    PtpHeader {
                        transport_specific: data[0] / 16,
                        message_type: t,
                        version: data[1] % 16,
                        message_length: be_value(data.subrange(2, 4)) as u16,
                        domain_number: data[4],
                        flags: be_value(data.subrange(6, 8)) as u16,
                        correction_field: (be_value(data.subrange(8, 16)) as u64) as i64,
                        source_port_identity: PtpPortIdentity::spec_decode(
                            data.subrange(20, 30),
                        ).unwrap(),
                        sequence_id: be_value(data.subrange(30, 32)) as u16,
                        control_field: data[32],
                        log_message_interval: data[33] as i8,
                    },
                ),
            }
        }
    }

    /// Create a new header with sensible defaults.
    pub fn new(message_type: PtpMessageType, source: PtpPortIdentity, sequence_id: u16) -> (r:
        Self)
        ensures
            r == (PtpHeader {
                transport_specific: 0,
                message_type,
                version: 2,
                message_length: 0,
                domain_number: 0,
                flags: 0,
                correction_field: 0,
                source_port_identity: source,
                sequence_id,
                control_field: spec_control_field(message_type),
                log_message_interval: 0,
            }),
    {
        let control_field = match message_type {
            PtpMessageType::Sync => 0x00,
            PtpMessageType::DelayReq => 0x01,
            PtpMessageType::FollowUp => 0x02,
            PtpMessageType::DelayResp => 0x03,
            PtpMessageType::Announce => 0x05,
        };
        Self {
            transport_specific: 0,
            message_type,
            version: Self::PTP_VERSION_2,
            message_length: 0,
            domain_number: 0,
            flags: 0,
            correction_field: 0,
            source_port_identity: source,
            sequence_id,
            control_field,
            log_message_interval: 0,
        }
    }

    fn push_to(&self, buf: &mut Vec<u8>, body_length: usize)
        requires
            body_length + 34 <= usize::MAX,
        ensures
            final(buf)@ == old(buf)@ + self.spec_encode(body_length as nat),
    {
        let ts = self.transport_specific % 16;
        let nib = self.message_type.to_nibble();
        buf.push(ts * 16 + nib);
        buf.push(self.version % 16);
        let total_len = ((34 + body_length) % 65536) as u16;
        push_u16_be(buf, total_len);
        buf.push(self.domain_number);
        buf.push(0);
        push_u16_be(buf, self.flags);
        push_be(buf, self.correction_field as u64, 8);
        buf.push(0);
        buf.push(0);
        buf.push(0);
        buf.push(0);
        self.source_port_identity.push_to(buf);
        push_u16_be(buf, self.sequence_id);
        buf.push(self.control_field);
        buf.push(self.log_message_interval as u8);
        proof {
            assert(final(buf)@ =~= old(buf)@ + self.spec_encode(body_length as nat));
        }
    }

    /// Encode to 34 bytes, recording `34 + body_length` (mod 2^16) as the
    /// message length.
    pub fn encode(&self, body_length: usize) -> (r: [u8; 34])
        requires
            body_length + 34 <= usize::MAX,
        ensures
            r@ == self.spec_encode(body_length as nat),
    {
        let mut v: Vec<u8> = Vec::new();
        self.push_to(&mut v, body_length);
        proof {
            lemma_header_encode_len(*self, body_length as nat);
        }
        to_array34(&v)
    }

    /// Decode from bytes.
    pub fn decode(data: &[u8]) -> (r: Result<Self, PtpParseError>)
        ensures
            r == Self::spec_decode(data@),
    {
        if data.len() < 34 {
            return Err(PtpParseError::TooShort { needed: 34, have: data.len() });
        }
        let message_type = match PtpMessageType::from_nibble(data[0]) {
            Ok(t) => t,
            Err(e) => return Err(e),
        };
        let port = PtpPortIdentity::decode(&data[20..30]);
        let source_port_identity = match port {
            Some(p) => p,
            None => {
                return Err(PtpParseError::TooShort { needed: 30, have: data.len() });
            },
        };
        Ok(
            Self {
                transport_specific: data[0] / 16,
                message_type,
                version: data[1] % 16,
                message_length: read_u16_be(data, 2),
                domain_number: data[4],
                flags: read_u16_be(data, 6),
                correction_field: read_u64_be(data, 8) as i64,
                source_port_identity,
                sequence_id: read_u16_be(data, 30),
                control_field: data[32],
                log_message_interval: data[33] as i8,
            },
        )
    }
}

pub proof fn lemma_header_encode_len(h: PtpHeader, body_length: nat)
    ensures
        h.spec_encode(body_length).len() == 34,
{
    lemma_be_bytes_len(((34 + body_length) % 65536) as nat, 2);
    lemma_be_bytes_len(h.flags as nat, 2);
    lemma_be_bytes_len((h.correction_field as u64) as nat, 8);
    lemma_be_bytes_len(h.source_port_identity.clock_identity as nat, 8);
    lemma_be_bytes_len(h.source_port_identity.port_number as nat, 2);
    lemma_be_bytes_len(h.sequence_id as nat, 2);
}

/// A header whose fields fit their wire widths is read back from its encoding,
/// with the message length replaced by the one that the encoding records.
pub proof fn lemma_header_roundtrip(h: PtpHeader, body_length: nat)
    requires
        h.transport_specific < 16,
        h.version < 16,
    ensures
        PtpHeader::spec_decode(h.spec_encode(body_length)) == Ok::<PtpHeader, PtpParseError>(
            PtpHeader { message_length: ((34 + body_length) % 65536) as u16, ..h },
        ),
{
    let e = h.spec_encode(body_length);
    lemma_header_encode_len(h, body_length);
    let len16 = ((34 + body_length) % 65536) as u16;
    lemma_be16_roundtrip(len16);
    lemma_be16_roundtrip(h.flags);
    lemma_be64_roundtrip(h.correction_field as u64);
    lemma_be16_roundtrip(h.sequence_id);
    lemma_port_identity_roundtrip(h.source_port_identity);
    lemma_nibble_roundtrip(h.message_type);
    assert(e.subrange(2, 4) =~= be16(len16));
    assert(e.subrange(6, 8) =~= be16(h.flags));
    assert(e.subrange(8, 16) =~= be64(h.correction_field as u64));
    assert(e.subrange(20, 30) =~= h.source_port_identity.spec_encode());
    assert(e.subrange(30, 32) =~= be16(h.sequence_id));
    let b0 = ((h.transport_specific % 16) * 16 + h.message_type.spec_nibble()) as u8;
    assert(e[0] == b0);
    assert(b0 / 16 == h.transport_specific);
    assert(b0 % 16 == h.message_type.spec_nibble());
    let c = h.correction_field;
    assert(((c as u64) as i64) == c) by (bit_vector);
    let l = h.log_message_interval;
    assert(((l as u8) as i8) == l) by (bit_vector);
}

/// A parsed PTP message with header and typed body.
#[derive(Debug, Clone, PartialEq, Eq, Structural)]
pub struct PtpMessage {
    /// Message header.
    pub header: PtpHeader,
    /// Message body.
    pub body: PtpMessageBody,
}

/// PTP message body variants.
#[derive(Debug, Clone, PartialEq, Eq, Structural)]
pub enum PtpMessageBody {
    /// Sync: origin timestamp (T1 if one-step, or approximate if two-step).
    Sync {
        /// Origin timestamp.
        origin_timestamp: PtpTimestamp,
    },
    /// Follow-up: precise origin timestamp (T1).
    FollowUp {
        /// Precise origin timestamp from the associated Sync.
        precise_origin_timestamp: PtpTimestamp,
    },
    /// Delay request: origin timestamp (T3).
    DelayReq {
        /// Origin timestamp.
        origin_timestamp: PtpTimestamp,
    },
    /// Delay response: receive timestamp (T4) and requesting port identity.
    DelayResp {
        /// Receive timestamp (when master received the `Delay_Req`).
        receive_timestamp: PtpTimestamp,
        /// Port identity of the requester.
        requesting_port_identity: PtpPortIdentity,
    },
    /// Announce: clock properties.
    Announce {
        /// Origin timestamp.
        origin_timestamp: PtpTimestamp,
        /// Grandmaster clock identity.
        grandmaster_identity: u64,
        /// Grandmaster priority 1.
        grandmaster_priority1: u8,
        /// Grandmaster priority 2.
        grandmaster_priority2: u8,
    },
}

impl PtpMessageBody {
    /// The message type that this body belongs to.
    pub open spec fn spec_message_type(self) -> PtpMessageType {
        match self {
            PtpMessageBody::Sync { .. } => PtpMessageType::Sync,
            PtpMessageBody::FollowUp { .. } => PtpMessageType::FollowUp,
            PtpMessageBody::DelayReq { .. } => PtpMessageType::DelayReq,
            PtpMessageBody::DelayResp { .. } => PtpMessageType::DelayResp,
            PtpMessageBody::Announce { .. } => PtpMessageType::Announce,
        }
    }

    /// The wire form of the body.
    pub open spec fn spec_encode(self) -> Seq<u8> {
        match self {
            PtpMessageBody::Sync { origin_timestamp } => origin_timestamp.spec_encode_ieee1588(),
            PtpMessageBody::FollowUp { precise_origin_timestamp } =>
                precise_origin_timestamp.spec_encode_ieee1588(),
            PtpMessageBody::DelayReq { origin_timestamp } =>
                origin_timestamp.spec_encode_ieee1588(),
            PtpMessageBody::DelayResp { receive_timestamp, requesting_port_identity } =>
                receive_timestamp.spec_encode_ieee1588() + requesting_port_identity.spec_encode(),
            PtpMessageBody::Announce {
                origin_timestamp,
                grandmaster_identity,
                grandmaster_priority1,
                grandmaster_priority2,
            } => origin_timestamp.spec_encode_ieee1588() + be64(grandmaster_identity) + seq![
                grandmaster_priority1,
                grandmaster_priority2,
            ],
        }
    }

    /// The timestamps that the body carries fit the 48-bit seconds field.
    pub open spec fn spec_fits_wire(self) -> bool {
        match self {
            PtpMessageBody::Sync { origin_timestamp } => origin_timestamp.seconds < SECONDS_RANGE,
            PtpMessageBody::FollowUp { precise_origin_timestamp } =>
                precise_origin_timestamp.seconds < SECONDS_RANGE,
            PtpMessageBody::DelayReq { origin_timestamp } => origin_timestamp.seconds
                < SECONDS_RANGE,
            PtpMessageBody::DelayResp { receive_timestamp, .. } => receive_timestamp.seconds
                < SECONDS_RANGE,
            PtpMessageBody::Announce { origin_timestamp, .. } => origin_timestamp.seconds
                < SECONDS_RANGE,
        }
    }
}

/// Decoding of a body of the given type from the bytes after the header;
/// `data_len` is the length of the whole message, reported in errors.
pub open spec fn spec_decode_body(t: PtpMessageType, body: Seq<u8>, data_len: nat) -> Result<
    PtpMessageBody,
    PtpParseError,
> {
    match t {
        PtpMessageType::Sync => match PtpTimestamp::spec_decode_ieee1588(body) {
            None => Err(PtpParseError::TooShort { needed: 44, have: data_len as usize }),
            Some(ts) => Ok(PtpMessageBody::Sync { origin_timestamp: ts }),
        },
        PtpMessageType::FollowUp => match PtpTimestamp::spec_decode_ieee1588(body) {
            None => Err(PtpParseError::TooShort { needed: 44, have: data_len as usize }),
            Some(ts) => Ok(PtpMessageBody::FollowUp { precise_origin_timestamp: ts }),
        },
        PtpMessageType::DelayReq => match PtpTimestamp::spec_decode_ieee1588(body) {
            None => Err(PtpParseError::TooShort { needed: 44, have: data_len as usize }),
            Some(ts) => Ok(PtpMessageBody::DelayReq { origin_timestamp: ts }),
        },
        PtpMessageType::DelayResp => if body.len() < 20 {
            Err(PtpParseError::TooShort { needed: 54, have: data_len as usize })
        } else {
            Ok(
                PtpMessageBody::DelayResp {
                    receive_timestamp: PtpTimestamp::spec_decode_ieee1588(body).unwrap(),
                    requesting_port_identity: PtpPortIdentity::spec_decode(
                        body.subrange(10, 20),
                    ).unwrap(),
                },
            )
        },
        PtpMessageType::Announce => if body.len() < 20 {
            Err(PtpParseError::TooShort { needed: 54, have: data_len as usize })
        } else {
            Ok(
                PtpMessageBody::Announce {
                    origin_timestamp: PtpTimestamp::spec_decode_ieee1588(body).unwrap(),
                    grandmaster_identity: be_value(body.subrange(10, 18)) as u64,
                    grandmaster_priority1: body[18],
                    grandmaster_priority2: body[19],
                },
            )
        },
    }
}

impl PtpMessage {
    /// Body size for Sync/FollowUp/DelayReq (10-byte timestamp).
    const TIMESTAMP_BODY_SIZE: usize = 10;

    /// Body size for DelayResp and Announce.
    const LONG_BODY_SIZE: usize = 20;

    /// The wire form of the message: the header, recording the total length,
    /// then the body.
    pub open spec fn spec_encode(self) -> Seq<u8> {
        self.header.spec_encode(self.body.spec_encode().len()) + self.body.spec_encode()
    }

    /// Decoding of a whole message.
    pub open spec fn spec_decode(data: Seq<u8>) -> Result<PtpMessage, PtpParseError> {
        match PtpHeader::spec_decode(data) {
            Err(e) => Err(e),
            Ok(header) => match spec_decode_body(
                header.message_type,
                data.subrange(34, data.len() as int),
                data.len(),
            ) {
                Err(e) => Err(e),
                Ok(body) => Ok(PtpMessage { header, body }),
            },
        }
    }

    /// A message whose header and body agree on the type, and whose fields
    /// fit their wire widths.
    pub open spec fn spec_well_formed(self) -> bool {
        &&& self.header.transport_specific < 16
        &&& self.header.version < 16
        &&& self.header.message_type == self.body.spec_message_type()
        &&& self.body.spec_fits_wire()
    }

    /// Parse a complete PTP message from bytes.
    pub fn decode(data: &[u8]) -> (r: Result<Self, PtpParseError>)
        ensures
            r == Self::spec_decode(data@),
    {
        let header = match PtpHeader::decode(data) {
            Ok(h) => h,
            Err(e) => return Err(e),
        };
        let body_data = &data[34..data.len()];
        let body = match header.message_type {
            PtpMessageType::Sync => match PtpTimestamp::decode_ieee1588(body_data) {
                None => return Err(PtpParseError::TooShort { needed: 44, have: data.len() }),
                Some(ts) => PtpMessageBody::Sync { origin_timestamp: ts },
            },
            PtpMessageType::FollowUp => match PtpTimestamp::decode_ieee1588(body_data) {
                None => return Err(PtpParseError::TooShort { needed: 44, have: data.len() }),
                Some(ts) => PtpMessageBody::FollowUp { precise_origin_timestamp: ts },
            },
            PtpMessageType::DelayReq => match PtpTimestamp::decode_ieee1588(body_data) {
                None => return Err(PtpParseError::TooShort { needed: 44, have: data.len() }),
                Some(ts) => PtpMessageBody::DelayReq { origin_timestamp: ts },
            },
            PtpMessageType::DelayResp => {
                if body_data.len() < Self::LONG_BODY_SIZE {
                    return Err(PtpParseError::TooShort { needed: 54, have: data.len() });
                }
                let ts = match PtpTimestamp::decode_ieee1588(body_data) {
                    None => return Err(PtpParseError::TooShort { needed: 54, have: data.len() }),
                    Some(ts) => ts,
                };
                let port_id = match PtpPortIdentity::decode(&body_data[10..20]) {
                    None => return Err(PtpParseError::TooShort { needed: 54, have: data.len() }),
                    Some(p) => p,
                };
                PtpMessageBody::DelayResp {
                    receive_timestamp: ts,
                    requesting_port_identity: port_id,
                }
            },
            PtpMessageType::Announce => {
                if body_data.len() < Self::LONG_BODY_SIZE {
                    return Err(PtpParseError::TooShort { needed: 54, have: data.len() });
                }
                let ts = match PtpTimestamp::decode_ieee1588(body_data) {
                    None => return Err(PtpParseError::TooShort { needed: 54, have: data.len() }),
                    Some(ts) => ts,
                };
                let gm_identity = read_u64_be(body_data, 10);
                PtpMessageBody::Announce {
                    origin_timestamp: ts,
                    grandmaster_identity: gm_identity,
                    grandmaster_priority1: body_data[18],
                    grandmaster_priority2: body_data[19],
                }
            },
        };
        proof {
            assert(body_data@ =~= data@.subrange(34, data@.len() as int));
            if body_data@.len() >= 20 {
                assert(body_data@.subrange(10, 20) =~= data@.subrange(44, 54));
                assert(body_data@.subrange(10, 18) =~= data@.subrange(44, 52));
            }
        }
        Ok(Self { header, body })
    }

    fn encode_body(&self) -> (r: Vec<u8>)
        ensures
            r@ == self.body.spec_encode(),
            r@.len() <= 20,
    {
        let mut buf: Vec<u8> = Vec::new();
        match &self.body {
            PtpMessageBody::Sync { origin_timestamp } => {
                let ts = origin_timestamp.encode_ieee1588();
                buf.extend_from_slice(ts.as_slice());
            },
            PtpMessageBody::FollowUp { precise_origin_timestamp } => {
                let ts = precise_origin_timestamp.encode_ieee1588();
                buf.extend_from_slice(ts.as_slice());
            },
            PtpMessageBody::DelayReq { origin_timestamp } => {
                let ts = origin_timestamp.encode_ieee1588();
                buf.extend_from_slice(ts.as_slice());
            },
            PtpMessageBody::DelayResp { receive_timestamp, requesting_port_identity } => {
                let ts = receive_timestamp.encode_ieee1588();
                buf.extend_from_slice(ts.as_slice());
                requesting_port_identity.push_to(&mut buf);
            },
            PtpMessageBody::Announce {
                origin_timestamp,
                grandmaster_identity,
                grandmaster_priority1,
                grandmaster_priority2,
            } => {
                let ts = origin_timestamp.encode_ieee1588();
                buf.extend_from_slice(ts.as_slice());
                push_be(&mut buf, *grandmaster_identity, 8);
                buf.push(*grandmaster_priority1);
                buf.push(*grandmaster_priority2);
            },
        }
        proof {
            lemma_body_encode_len(self.body);
            assert(buf@ =~= self.body.spec_encode());
        }
        buf
    }

    /// Encode to bytes.
    pub fn encode(&self) -> (r: Vec<u8>)
        ensures
            r@ == self.spec_encode(),
    {
        let body_bytes = self.encode_body();
        let mut buf: Vec<u8> = Vec::new();
        self.header.push_to(&mut buf, body_bytes.len());
        buf.extend_from_slice(body_bytes.as_slice());
        buf
    }

    /// Create a Sync message.
    pub fn sync(source: PtpPortIdentity, sequence_id: u16, timestamp: PtpTimestamp) -> (r: Self)
        ensures
            r.header == spec_new_header(PtpMessageType::Sync, source, sequence_id),
            r.body == (PtpMessageBody::Sync { origin_timestamp: timestamp }),
    {
        Self {
            header: PtpHeader::new(PtpMessageType::Sync, source, sequence_id),
            body: PtpMessageBody::Sync { origin_timestamp: timestamp },
        }
    }

    /// Create a Follow-up message.
    pub fn follow_up(source: PtpPortIdentity, sequence_id: u16, precise_timestamp: PtpTimestamp) -> (r:
        Self)
        ensures
            r.header == spec_new_header(PtpMessageType::FollowUp, source, sequence_id),
            r.body == (PtpMessageBody::FollowUp { precise_origin_timestamp: precise_timestamp }),
    {
        Self {
            header: PtpHeader::new(PtpMessageType::FollowUp, source, sequence_id),
            body: PtpMessageBody::FollowUp { precise_origin_timestamp: precise_timestamp },
        }
    }

    /// Create a Delay Request message.
    pub fn delay_req(source: PtpPortIdentity, sequence_id: u16, timestamp: PtpTimestamp) -> (r:
        Self)
        ensures
            r.header == spec_new_header(PtpMessageType::DelayReq, source, sequence_id),
            r.body == (PtpMessageBody::DelayReq { origin_timestamp: timestamp }),
    {
        Self {
            header: PtpHeader::new(PtpMessageType::DelayReq, source, sequence_id),
            body: PtpMessageBody::DelayReq { origin_timestamp: timestamp },
        }
    }

    /// Create a Delay Response message.
    pub fn delay_resp(
        source: PtpPortIdentity,
        sequence_id: u16,
        receive_timestamp: PtpTimestamp,
        requesting_port: PtpPortIdentity,
    ) -> (r: Self)
        ensures
            r.header == spec_new_header(PtpMessageType::DelayResp, source, sequence_id),
            r.body == (PtpMessageBody::DelayResp {
                receive_timestamp,
                requesting_port_identity: requesting_port,
            }),
    {
        Self {
            header: PtpHeader::new(PtpMessageType::DelayResp, source, sequence_id),
            body: PtpMessageBody::DelayResp {
                receive_timestamp,
                requesting_port_identity: requesting_port,
            },
        }
    }

    /// Create an Announce message with the given origin timestamp.
    pub fn announce_at(
        source: PtpPortIdentity,
        sequence_id: u16,
        grandmaster_identity: u64,
        priority1: u8,
        priority2: u8,
        origin_timestamp: PtpTimestamp,
    ) -> (r: Self)
        ensures
            r.header == spec_new_header(PtpMessageType::Announce, source, sequence_id),
            r.body == (PtpMessageBody::Announce {
                origin_timestamp,
                grandmaster_identity,
                grandmaster_priority1: priority1,
                grandmaster_priority2: priority2,
            }),
    {
        Self {
            header: PtpHeader::new(PtpMessageType::Announce, source, sequence_id),
            body: PtpMessageBody::Announce {
                origin_timestamp,
                grandmaster_identity,
                grandmaster_priority1: priority1,
                grandmaster_priority2: priority2,
            },
        }
    }

    /// Create an Announce message, stamped with the current time (the
    /// Announce of `announce_at` with a clock reading).
    pub fn announce(
        source: PtpPortIdentity,
        sequence_id: u16,
        grandmaster_identity: u64,
        priority1: u8,
        priority2: u8,
    ) -> (r: Self)
        ensures
            r.header == spec_new_header(PtpMessageType::Announce, source, sequence_id),
            r.body matches PtpMessageBody::Announce {
                origin_timestamp: t,
                grandmaster_identity: g,
                grandmaster_priority1: p1,
                grandmaster_priority2: p2,
            } && g == grandmaster_identity && p1 == priority1 && p2 == priority2
                && t.nanoseconds < NANOS_PER_SEC,
    {
        Self::announce_at(
            source,
            sequence_id,
            grandmaster_identity,
            priority1,
            priority2,
            PtpTimestamp::now(),
        )
    }
}

/// The header that `PtpHeader::new` builds.
pub open spec fn spec_new_header(t: PtpMessageType, source: PtpPortIdentity, sequence_id: u16) -> PtpHeader {
    PtpHeader {
        transport_specific: 0,
        message_type: t,
        version: 2,
        message_length: 0,
        domain_number: 0,
        flags: 0,
        correction_field: 0,
        source_port_identity: source,
        sequence_id,
        control_field: spec_control_field(t),
        log_message_interval: 0,
    }
}

pub proof fn lemma_body_encode_len(b: PtpMessageBody)
    ensures
        b.spec_encode().len() == (match b {
            PtpMessageBody::DelayResp { .. } => 20int,
            PtpMessageBody::Announce { .. } => 20int,
            _ => 10int,
        }),
{
    match b {
        PtpMessageBody::Sync { origin_timestamp: t } => {
            lemma_be_bytes_len(t.seconds as nat, 6);
            lemma_be_bytes_len(t.nanoseconds as nat, 4);
        },
        PtpMessageBody::FollowUp { precise_origin_timestamp: t } => {
            lemma_be_bytes_len(t.seconds as nat, 6);
            lemma_be_bytes_len(t.nanoseconds as nat, 4);
        },
        PtpMessageBody::DelayReq { origin_timestamp: t } => {
            lemma_be_bytes_len(t.seconds as nat, 6);
            lemma_be_bytes_len(t.nanoseconds as nat, 4);
        },
        PtpMessageBody::DelayResp { receive_timestamp: t, requesting_port_identity: p } => {
            lemma_be_bytes_len(t.seconds as nat, 6);
            lemma_be_bytes_len(t.nanoseconds as nat, 4);
            lemma_port_identity_roundtrip(p);
        },
        PtpMessageBody::Announce { origin_timestamp: t, grandmaster_identity: g, .. } => {
            lemma_be_bytes_len(t.seconds as nat, 6);
            lemma_be_bytes_len(t.nanoseconds as nat, 4);
            lemma_be64_roundtrip(g);
        },
    }
}

/// Decoding an encoded well-formed message gives it back, with the header's
/// message length set to the length of the encoding.
pub proof fn lemma_message_roundtrip(m: PtpMessage)
    requires
        m.spec_well_formed(),
    ensures
        PtpMessage::spec_decode(m.spec_encode()) == Ok::<PtpMessage, PtpParseError>(
            PtpMessage {
                header: PtpHeader {
                    message_length: m.spec_encode().len() as u16,
                    ..m.header
                },
                body: m.body,
            },
        ),
{
    let body = m.body.spec_encode();
    let e = m.spec_encode();
    lemma_body_encode_len(m.body);
    lemma_header_encode_len(m.header, body.len());
    lemma_header_roundtrip(m.header, body.len());
    assert(e.subrange(0, 34) =~= m.header.spec_encode(body.len()));
    assert(e.subrange(34, e.len() as int) =~= body);
    let h = PtpHeader::spec_decode(e);
    assert(PtpHeader::spec_decode(e) == PtpHeader::spec_decode(e.subrange(0, 34))) by {
        lemma_header_decode_prefix(e);
    }
    match m.body {
        PtpMessageBody::Sync { origin_timestamp: t } => {
            lemma_ieee1588_roundtrip(t);
        },
        PtpMessageBody::FollowUp { precise_origin_timestamp: t } => {
            lemma_ieee1588_roundtrip(t);
        },
        PtpMessageBody::DelayReq { origin_timestamp: t } => {
            lemma_ieee1588_roundtrip(t);
        },
        PtpMessageBody::DelayResp { receive_timestamp: t, requesting_port_identity: p } => {
            lemma_ieee1588_roundtrip(t);
            lemma_port_identity_roundtrip(p);
            let ts = t.spec_encode_ieee1588();
            assert(body.subrange(10, 20) =~= p.spec_encode());
            assert(body.subrange(0, 10) =~= ts);
            lemma_ieee1588_decode_prefix(body);
        },
        PtpMessageBody::Announce { origin_timestamp: t, grandmaster_identity: g, .. } => {
            lemma_ieee1588_roundtrip(t);
            lemma_be64_roundtrip(g);
            let ts = t.spec_encode_ieee1588();
            assert(body.subrange(10, 18) =~= be64(g));
            assert(body.subrange(0, 10) =~= ts);
            lemma_ieee1588_decode_prefix(body);
        },
    }
    assert((34 + body.len()) % 65536 == e.len() as u16 as nat);
}

/// The IEEE 1588 timestamp decoder reads only the first 10 bytes.
pub proof fn lemma_ieee1588_decode_prefix(data: Seq<u8>)
    requires
        data.len() >= 10,
    ensures
        PtpTimestamp::spec_decode_ieee1588(data) == PtpTimestamp::spec_decode_ieee1588(
            data.subrange(0, 10),
        ),
{
    assert(data.subrange(0, 10).subrange(0, 6) =~= data.subrange(0, 6));
    assert(data.subrange(0, 10).subrange(6, 10) =~= data.subrange(6, 10));
}

/// The header decoder reads only the first 34 bytes.
pub proof fn lemma_header_decode_prefix(data: Seq<u8>)
    requires
        data.len() >= 34,
    ensures
        PtpHeader::spec_decode(data) == PtpHeader::spec_decode(data.subrange(0, 34)),
{
    let p = data.subrange(0, 34);
    assert(p.subrange(2, 4) =~= data.subrange(2, 4));
    assert(p.subrange(6, 8) =~= data.subrange(6, 8));
    assert(p.subrange(8, 16) =~= data.subrange(8, 16));
    assert(p.subrange(20, 30) =~= data.subrange(20, 30));
    assert(p.subrange(30, 32) =~= data.subrange(30, 32));
}

// --- Compact AirPlay timing packet ---

/// Compact AirPlay PTP timing packet (24 bytes on wire).
#[derive(Debug, Clone, PartialEq, Eq, Structural)]
pub struct AirPlayTimingPacket {
    /// Message type.
    pub message_type: PtpMessageType,
    /// Sequence ID.
    pub sequence_id: u16,
    /// Timestamp in AirPlay compact format (48.16 fixed-point).
    pub timestamp: PtpTimestamp,
    /// Clock identity.
    pub clock_id: u64,
}

impl AirPlayTimingPacket {
    /// Wire size in bytes.
    pub const SIZE: usize = 24;

    /// The 24-byte wire form: type, a zero byte, the sequence ID, four zero
    /// bytes, the low 48 bits of the compact timestamp, the clock ID and two
    /// zero bytes.
    pub open spec fn spec_encode(self) -> Seq<u8> {
        seq![self.message_type.spec_nibble(), 0u8] + be16(self.sequence_id) + seq![
            0u8,
            0u8,
            0u8,
            0u8,
        ] + be_bytes(self.timestamp.spec_to_airplay_compact() as nat, 6) + be64(self.clock_id)
            + seq![0u8, 0u8]
    }

    /// Decoding of the first 22 bytes.
    pub open spec fn spec_decode(data: Seq<u8>) -> Result<AirPlayTimingPacket, PtpParseError> {
        if data.len() < 22 {
            Err(PtpParseError::TooShort { needed: 22, have: data.len() as usize })
        } else {
            match PtpMessageType::spec_from_nibble(data[0]) {
                Err(e) => Err(e),
                Ok(t) => Ok(
                    AirPlayTimingPacket {
                        message_type: t,
                        sequence_id: be_value(data.subrange(2, 4)) as u16,
                        timestamp: PtpTimestamp::spec_from_airplay_compact(
                            be_value(data.subrange(8, 14)) as u64,
                        ),
                        clock_id: be_value(data.subrange(14, 22)) as u64,
                    },
                ),
            }
        }
    }

    /// Parse from bytes.
    pub fn decode(data: &[u8]) -> (r: Result<Self, PtpParseError>)
        ensures
            r == Self::spec_decode(data@),
    {
        if data.len() < 22 {
            return Err(PtpParseError::TooShort { needed: 22, have: data.len() });
        }
        let message_type = match PtpMessageType::from_nibble(data[0]) {
            Ok(t) => t,
            Err(e) => return Err(e),
        };
        let sequence_id = read_u16_be(data, 2);
        let compact_ts = read_be(data, 8, 6);
        let timestamp = PtpTimestamp::from_airplay_compact(compact_ts);
        let clock_id = read_u64_be(data, 14);
        Ok(Self { message_type, sequence_id, timestamp, clock_id })
    }

    /// Encode to bytes.
    pub fn encode(&self) -> (r: [u8; 24])
        ensures
            r@ == self.spec_encode(),
    {
        let mut v: Vec<u8> = Vec::new();
        v.push(self.message_type.to_nibble());
        v.push(0);
        push_u16_be(&mut v, self.sequence_id);
        v.push(0);
        v.push(0);
        v.push(0);
        v.push(0);
        let compact = self.timestamp.to_airplay_compact();
        push_be(&mut v, compact, 6);
        push_be(&mut v, self.clock_id, 8);
        v.push(0);
        v.push(0);
        proof {
            lemma_be_bytes_len(self.sequence_id as nat, 2);
            lemma_be_bytes_len(compact as nat, 6);
            lemma_be_bytes_len(self.clock_id as nat, 8);
            assert(v@ =~= self.spec_encode());
        }
        to_array24(&v)
    }
}

/// Decoding an encoded AirPlay timing packet gives it back, except that the
/// timestamp goes through the compact form, keeping its low 48 bits.
pub proof fn lemma_airplay_timing_roundtrip(p: AirPlayTimingPacket)
    ensures
        AirPlayTimingPacket::spec_decode(p.spec_encode()) == Ok::<
            AirPlayTimingPacket,
            PtpParseError,
        >(
            AirPlayTimingPacket {
                timestamp: PtpTimestamp::spec_from_airplay_compact(
                    (p.timestamp.spec_to_airplay_compact() as nat % 0x1_0000_0000_0000) as u64,
                ),
                ..p
            },
        ),
{
    let e = p.spec_encode();
    let c = p.timestamp.spec_to_airplay_compact() as nat;
    lemma_be16_roundtrip(p.sequence_id);
    lemma_be64_roundtrip(p.clock_id);
    lemma_be_bytes_len(c, 6);
    lemma_be_value_of_bytes(c, 6);
    lemma_pow256_values();
    lemma_nibble_roundtrip(p.message_type);
    assert(e.subrange(2, 4) =~= be16(p.sequence_id));
    assert(e.subrange(8, 14) =~= be_bytes(c, 6));
    assert(e.subrange(14, 22) =~= be64(p.clock_id));
}

} // verus!
