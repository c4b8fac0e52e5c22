//! NTP client packets (RFC 5905) and the offset computation of one
//! request/response exchange.
use vstd::prelude::*;
use crate::bytes::{be32, be_value, lemma_be32_roundtrip, push_u32_be, read_u32_be, to_array48};
use crate::rtp::timing::{lemma_ntp_timestamp_roundtrip, NtpTimestamp};

verus! {

/// NTP packet size.
pub const NTP_PACKET_SIZE: usize = 48;

/// Why bytes do not decode as an NTP packet.
#[derive(Debug, Clone, Copy, PartialEq, Eq, Structural)]
pub enum NtpDecodeError {
    /// Fewer than 48 bytes (invalid data: "NTP packet too small").
    PacketTooSmall,
}

/// NTP packet structure.
#[derive(Debug, Clone, Copy, PartialEq, Eq, Structural)]
pub struct NtpPacket {
    /// Leap Indicator, Version Number, and Mode
    pub li_vn_mode: u8,
    /// Stratum level
    pub stratum: u8,
    /// Poll interval
    pub poll: u8,
    /// Precision
    pub precision: i8,
    /// Root delay
    pub root_delay: u32,
    /// Root dispersion
    pub root_dispersion: u32,
    /// Reference identifier
    pub reference_id: u32,
    /// Reference timestamp
    pub reference_timestamp: NtpTimestamp,
    /// Origin timestamp
    pub origin_timestamp: NtpTimestamp,
    /// Receive timestamp
    pub receive_timestamp: NtpTimestamp,
    /// Transmit timestamp
    pub transmit_timestamp: NtpTimestamp,
}

/// The byte of an `i8` (two's complement).
pub open spec fn i8_byte(v: i8) -> u8 {
    if v >= 0 {
        v as u8
    } else {
        (v + 256) as u8
    }
}

/// The `i8` of a byte (two's complement).
pub open spec fn byte_i8(b: u8) -> i8 {
    if b < 128 {
        b as i8
    } else {
        (b - 256) as i8
    }
}

/// The all-zero timestamp.
pub open spec fn zero_timestamp() -> NtpTimestamp {
    NtpTimestamp { seconds: 0, fraction: 0 }
}

impl NtpPacket {
    /// The 48-byte wire form.
    pub open spec fn spec_encode(self) -> Seq<u8> {
        seq![self.li_vn_mode, self.stratum, self.poll, i8_byte(self.precision)] + be32(
            self.root_delay,
        ) + be32(self.root_dispersion) + be32(self.reference_id)
            + self.reference_timestamp.spec_encode() + self.origin_timestamp.spec_encode()
            + self.receive_timestamp.spec_encode() + self.transmit_timestamp.spec_encode()
    }

    /// The packet that the first 48 bytes of `b` hold.
    pub open spec fn spec_decode(b: Seq<u8>) -> NtpPacket {
        NtpPacket {
            li_vn_mode: b[0],
            stratum: b[1],
            poll: b[2],
            precision: byte_i8(b[3]),
            root_delay: be_value(b.subrange(4, 8)) as u32,
            root_dispersion: be_value(b.subrange(8, 12)) as u32,
            reference_id: be_value(b.subrange(12, 16)) as u32,
            reference_timestamp: NtpTimestamp::spec_decode(b.subrange(16, 24)),
            origin_timestamp: NtpTimestamp::spec_decode(b.subrange(24, 32)),
            receive_timestamp: NtpTimestamp::spec_decode(b.subrange(32, 40)),
            transmit_timestamp: NtpTimestamp::spec_decode(b.subrange(40, 48)),
        }
    }

    /// A client request (LI 0, version 4, mode 3) with the given transmit
    /// timestamp and every other field zero.
    pub fn client_request_at(transmit: NtpTimestamp) -> (r: Self)
        ensures
            r == (NtpPacket {
                li_vn_mode: 0x23,
                stratum: 0,
                poll: 0,
                precision: 0,
                root_delay: 0,
                root_dispersion: 0,
                reference_id: 0,
                reference_timestamp: zero_timestamp(),
                origin_timestamp: zero_timestamp(),
                receive_timestamp: zero_timestamp(),
                transmit_timestamp: transmit,
            }),
    {
        let mut packet = Self::default();
        packet.li_vn_mode = 0x23;
        packet.transmit_timestamp = transmit;
        packet
    }

    /// Create a new NTP client request packet: LI 0, version 4, mode 3
    /// (client), stamped with the current time (the request of
    /// `client_request_at` with a clock reading).
    pub fn new_client_request() -> (r: Self)
        ensures
            r.li_vn_mode == 0x23,
            r.stratum == 0,
            r.poll == 0,
            r.precision == 0,
            r.root_delay == 0,
            r.root_dispersion == 0,
            r.reference_id == 0,
            r.reference_timestamp == zero_timestamp(),
            r.origin_timestamp == zero_timestamp(),
            r.receive_timestamp == zero_timestamp(),
            exists|secs: u64, nanos: u32|
                nanos < 1_000_000_000 && r.transmit_timestamp
                    == #[trigger] NtpTimestamp::spec_from_unix(secs, nanos),
    {
        Self::client_request_at(NtpTimestamp::now())
    }

    /// Encode the packet into 48 bytes.
    pub fn encode(&self) -> (r: [u8; 48])
        ensures
            r@ == self.spec_encode(),
    {
        let mut v: Vec<u8> = Vec::new();
        v.push(self.li_vn_mode);
        v.push(self.stratum);
        v.push(self.poll);
        let p = self.precision;
        let pb: u8 = p as u8;
        proof {
            assert(p >= 0 ==> pb == p) by (bit_vector)
                requires
                    pb == p as u8,
            ;
            assert(p < 0 ==> pb == p + 256) by (bit_vector)
                requires
                    pb == p as u8,
            ;
        }
        v.push(pb);
        push_u32_be(&mut v, self.root_delay);
        push_u32_be(&mut v, self.root_dispersion);
        push_u32_be(&mut v, self.reference_id);
        self.reference_timestamp.push_to(&mut v);
        self.origin_timestamp.push_to(&mut v);
        self.receive_timestamp.push_to(&mut v);
        self.transmit_timestamp.push_to(&mut v);
        proof {
            lemma_ntp_timestamp_roundtrip(self.reference_timestamp);
            lemma_ntp_timestamp_roundtrip(self.origin_timestamp);
            lemma_ntp_timestamp_roundtrip(self.receive_timestamp);
            lemma_ntp_timestamp_roundtrip(self.transmit_timestamp);
            lemma_be32_roundtrip(self.root_delay);
            lemma_be32_roundtrip(self.root_dispersion);
            lemma_be32_roundtrip(self.reference_id);
            assert(v@ =~= self.spec_encode());
        }
        to_array48(&v)
    }

    /// Decode a packet from bytes; fails when there are fewer than 48.
    pub fn decode(buf: &[u8]) -> (r: Result<Self, NtpDecodeError>)
        ensures
            r is Err <==> buf@.len() < 48,
            r matches Err(e) ==> e == NtpDecodeError::PacketTooSmall,
            r matches Ok(p) ==> p == Self::spec_decode(buf@),
    {
        if buf.len() < NTP_PACKET_SIZE {
            return Err(NtpDecodeError::PacketTooSmall);
        }
        let b3 = buf[3];
        let precision: i8 = b3 as i8;
        proof {
            assert(b3 < 128 ==> precision == b3) by (bit_vector)
                requires
                    precision == b3 as i8,
            ;
            assert(b3 >= 128 ==> precision == b3 - 256) by (bit_vector)
                requires
                    precision == b3 as i8,
            ;
        }
        let r = Self {
            li_vn_mode: buf[0],
            stratum: buf[1],
            poll: buf[2],
            precision,
            root_delay: read_u32_be(buf, 4),
            root_dispersion: read_u32_be(buf, 8),
            reference_id: read_u32_be(buf, 12),
            reference_timestamp: NtpTimestamp::decode(&buf[16..24]),
            origin_timestamp: NtpTimestamp::decode(&buf[24..32]),
            receive_timestamp: NtpTimestamp::decode(&buf[32..40]),
            transmit_timestamp: NtpTimestamp::decode(&buf[40..48]),
        };
        Ok(r)
    }
}

impl Default for NtpPacket {
    fn default() -> (r: Self)
        ensures
            r.li_vn_mode == 0,
            r.stratum == 0,
            r.poll == 0,
            r.precision == 0,
            r.root_delay == 0,
            r.root_dispersion == 0,
            r.reference_id == 0,
            r.reference_timestamp == zero_timestamp(),
            r.origin_timestamp == zero_timestamp(),
            r.receive_timestamp == zero_timestamp(),
            r.transmit_timestamp == zero_timestamp(),
    {
        let z = NtpTimestamp { seconds: 0, fraction: 0 };
        NtpPacket {
            li_vn_mode: 0,
            stratum: 0,
            poll: 0,
            precision: 0,
            root_delay: 0,
            root_dispersion: 0,
            reference_id: 0,
            reference_timestamp: z,
            origin_timestamp: z,
            receive_timestamp: z,
            transmit_timestamp: z,
        }
    }
}

/// Decoding an encoded packet gives it back.
pub proof fn lemma_ntp_packet_roundtrip(p: NtpPacket)
    ensures
        p.spec_encode().len() == 48,
        NtpPacket::spec_decode(p.spec_encode()) == p,
{
    let e = p.spec_encode();
    lemma_ntp_timestamp_roundtrip(p.reference_timestamp);
    lemma_ntp_timestamp_roundtrip(p.origin_timestamp);
    lemma_ntp_timestamp_roundtrip(p.receive_timestamp);
    lemma_ntp_timestamp_roundtrip(p.transmit_timestamp);
    lemma_be32_roundtrip(p.root_delay);
    lemma_be32_roundtrip(p.root_dispersion);
    lemma_be32_roundtrip(p.reference_id);
    assert(e.subrange(4, 8) =~= be32(p.root_delay));
    assert(e.subrange(8, 12) =~= be32(p.root_dispersion));
    assert(e.subrange(12, 16) =~= be32(p.reference_id));
    assert(e.subrange(16, 24) =~= p.reference_timestamp.spec_encode());
    assert(e.subrange(24, 32) =~= p.origin_timestamp.spec_encode());
    assert(e.subrange(32, 40) =~= p.receive_timestamp.spec_encode());
    assert(e.subrange(40, 48) =~= p.transmit_timestamp.spec_encode());
    assert(byte_i8(i8_byte(p.precision)) == p.precision);
}

/// Half of `x`, rounded toward zero (Rust's integer division by 2).
pub open spec fn half_toward_zero(x: int) -> int {
    if x >= 0 {
        x / 2
    } else {
        -((-x) / 2)
    }
}

/// `a - b`, or 0 when `b > a`.
pub open spec fn sat_sub(a: nat, b: nat) -> nat {
    if a >= b {
        (a - b) as nat
    } else {
        0
    }
}

/// The clock offset and round-trip time of one exchange, in microseconds:
/// `t1` when the request left, `t2` when the server received it, `t3` when
/// the server answered and `t4` when the answer arrived. The offset is
/// `((t2 - t1) + (t3 - t4)) / 2` (server time minus local time), the round
/// trip `(t4 - t1) - (t3 - t2)`, each subtraction saturating at zero.
pub fn offset_and_rtt(t1: NtpTimestamp, t2: NtpTimestamp, t3: NtpTimestamp, t4: NtpTimestamp) -> (r: (
    i64,
    u64,
))
    ensures
        r.0 == half_toward_zero(
            (t2.spec_micros() - t1.spec_micros()) + (t3.spec_micros() - t4.spec_micros()),
        ),
        r.1 == sat_sub(
            sat_sub(t4.spec_micros(), t1.spec_micros()),
            sat_sub(t3.spec_micros(), t2.spec_micros()),
        ),
{
    let m1 = t1.to_micros();
    let m2 = t2.to_micros();
    let m3 = t3.to_micros();
    let m4 = t4.to_micros();
    assert(m1 < 0x1_0000_0000 * 1_000_000 + 1_000_000) by (nonlinear_arith)
        requires
            m1 == t1.seconds as nat * 1_000_000 + (t1.fraction as nat * 1_000_000) / 0x1_0000_0000,
            t1.seconds < 0x1_0000_0000,
            t1.fraction < 0x1_0000_0000,
    ;
    assert(m2 < 0x1_0000_0000 * 1_000_000 + 1_000_000) by (nonlinear_arith)
        requires
            m2 == t2.seconds as nat * 1_000_000 + (t2.fraction as nat * 1_000_000) / 0x1_0000_0000,
            t2.seconds < 0x1_0000_0000,
            t2.fraction < 0x1_0000_0000,
    ;
    assert(m3 < 0x1_0000_0000 * 1_000_000 + 1_000_000) by (nonlinear_arith)
        requires
            m3 == t3.seconds as nat * 1_000_000 + (t3.fraction as nat * 1_000_000) / 0x1_0000_0000,
            t3.seconds < 0x1_0000_0000,
            t3.fraction < 0x1_0000_0000,
    ;
    assert(m4 < 0x1_0000_0000 * 1_000_000 + 1_000_000) by (nonlinear_arith)
        requires
            m4 == t4.seconds as nat * 1_000_000 + (t4.fraction as nat * 1_000_000) / 0x1_0000_0000,
            t4.seconds < 0x1_0000_0000,
            t4.fraction < 0x1_0000_0000,
    ;
    let a1 = m1 as i64;
    let a2 = m2 as i64;
    let a3 = m3 as i64;
    let a4 = m4 as i64;
    let s: i64 = (a2 - a1) + (a3 - a4);
    let offset: i64 = if s >= 0 {
        s / 2
    } else {
        -((-s) / 2)
    };
    let rtt = m4.saturating_sub(m1).saturating_sub(m3.saturating_sub(m2));
    (offset, rtt)
}

} // verus!
