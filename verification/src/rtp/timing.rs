//! NTP timestamps and the RAOP timing exchange.
use vstd::prelude::*;
use crate::bytes::{
    be32, be_value, lemma_be32_roundtrip, push_u16_be, push_u32_be, read_u32_be, to_array8,
};
use crate::time::system_time_now;

verus! {

/// Seconds between the NTP epoch (1900) and the UNIX epoch (1970).
pub const NTP_UNIX_OFFSET: u64 = 2_208_988_800;

/// An NTP timestamp: seconds since 1900 and a 32-bit binary fraction.
#[derive(Debug, Clone, Copy, PartialEq, Eq, Structural, Default)]
pub struct NtpTimestamp {
    /// Seconds since 1900-01-01.
    pub seconds: u32,
    /// Fraction of a second in units of 2^-32 s.
    pub fraction: u32,
}

impl NtpTimestamp {
    /// The 8-byte wire form.
    pub open spec fn spec_encode(self) -> Seq<u8> {
        be32(self.seconds) + be32(self.fraction)
    }

    /// Decoding of the first 8 bytes.
    pub open spec fn spec_decode(data: Seq<u8>) -> NtpTimestamp {
        NtpTimestamp {
            seconds: be_value(data.subrange(0, 4)) as u32,
            fraction: be_value(data.subrange(4, 8)) as u32,
        }
    }

    /// The timestamp in microseconds since the NTP epoch (fraction rounded down).
    pub open spec fn spec_micros(self) -> nat {
        self.seconds as nat * 1_000_000 + (self.fraction as nat * 1_000_000) / 0x1_0000_0000
    }

    /// The NTP timestamp of a UNIX time (seconds and nanoseconds since
    /// 1970): the seconds shifted to the 1900 epoch and taken modulo 2^32,
    /// the nanoseconds scaled to 2^-32 s.
    pub open spec fn spec_from_unix(secs: u64, nanos: u32) -> NtpTimestamp {
        NtpTimestamp {
            seconds: ((secs as nat % 0x1_0000_0000 + NTP_UNIX_OFFSET) % 0x1_0000_0000) as u32,
            fraction: ((nanos as nat * 0x1_0000_0000) / 1_000_000_000) as u32,
        }
    }

    /// The current time.
    pub fn now() -> (r: Self)
        ensures
            exists|secs: u64, nanos: u32|
                nanos < 1_000_000_000 && r == #[trigger] NtpTimestamp::spec_from_unix(secs, nanos),
    {
        let (secs, nanos) = system_time_now();
        let seconds = ((secs % 0x1_0000_0000 + NTP_UNIX_OFFSET) % 0x1_0000_0000) as u32;
        assert((nanos as u64) * 0x1_0000_0000 / 1_000_000_000 < 0x1_0000_0000) by (
        nonlinear_arith)
            requires
                nanos < 1_000_000_000,
        ;
        let fraction = ((nanos as u64) * 0x1_0000_0000 / 1_000_000_000) as u32;
        let r = NtpTimestamp { seconds, fraction };
        assert(r == NtpTimestamp::spec_from_unix(secs, nanos));
        r
    }

    /// Appends the wire form to `buf`.
    pub fn push_to(&self, buf: &mut Vec<u8>)
        ensures
            final(buf)@ == old(buf)@ + self.spec_encode(),
    {
        push_u32_be(buf, self.seconds);
        push_u32_be(buf, self.fraction);
        proof {
            assert(final(buf)@ =~= old(buf)@ + self.spec_encode());
        }
    }

    /// Encodes to 8 bytes.
    pub fn encode(&self) -> (r: [u8; 8])
        ensures
            r@ == self.spec_encode(),
    {
        let mut v: Vec<u8> = Vec::new();
        self.push_to(&mut v);
        proof {
            lemma_be32_roundtrip(self.seconds);
            lemma_be32_roundtrip(self.fraction);
        }
        to_array8(&v)
    }

    /// Decodes the first 8 bytes.
    pub fn decode(data: &[u8]) -> (r: Self)
        requires
            data@.len() >= 8,
        ensures
            r == Self::spec_decode(data@),
    {
        NtpTimestamp { seconds: read_u32_be(data, 0), fraction: read_u32_be(data, 4) }
    }

    /// Microseconds since the NTP epoch.
    pub fn to_micros(&self) -> (r: u64)
        ensures
            r as nat == self.spec_micros(),
    {
        assert((self.fraction as u64) * 1_000_000 / 0x1_0000_0000 < 1_000_000) by (
        nonlinear_arith)
            requires
                self.fraction < 0x1_0000_0000,
        ;
        (self.seconds as u64) * 1_000_000 + (self.fraction as u64) * 1_000_000 / 0x1_0000_0000
    }
}

/// Decoding an encoded NTP timestamp gives it back.
pub proof fn lemma_ntp_timestamp_roundtrip(t: NtpTimestamp)
    ensures
        t.spec_encode().len() == 8,
        NtpTimestamp::spec_decode(t.spec_encode()) == t,
{
    lemma_be32_roundtrip(t.seconds);
    lemma_be32_roundtrip(t.fraction);
    assert(t.spec_encode().subrange(0, 4) =~= be32(t.seconds));
    assert(t.spec_encode().subrange(4, 8) =~= be32(t.fraction));
}

/// A timing request, stamped with the time at which it is sent.
#[derive(Debug, Clone, Copy)]
pub struct TimingRequest {
    /// Transmit time (T1).
    pub send_time: NtpTimestamp,
}

impl TimingRequest {
    /// The 40-byte wire form: a 12-byte header (marker set, payload type
    /// 0x52), four zero bytes, then the reference and receive times (zero)
    /// and the send time.
    pub open spec fn spec_encode(self, sequence: u16, ssrc: u32) -> Seq<u8> {
        seq![0x80u8, 0xD2u8] + crate::bytes::be16(sequence) + seq![0u8, 0u8, 0u8, 0u8] + be32(ssrc)
            + seq![0u8, 0u8, 0u8, 0u8] + NtpTimestamp { seconds: 0, fraction: 0 }.spec_encode()
            + NtpTimestamp { seconds: 0, fraction: 0 }.spec_encode()
            + self.send_time.spec_encode()
    }

    /// Creates a request stamped with the current time.
    pub fn new() -> (r: Self)
        ensures
            exists|secs: u64, nanos: u32|
                nanos < 1_000_000_000 && r.send_time == #[trigger] NtpTimestamp::spec_from_unix(
                    secs,
                    nanos,
                ),
    {
        TimingRequest { send_time: NtpTimestamp::now() }
    }

    /// Encodes the request.
    pub fn encode(&self, sequence: u16, ssrc: u32) -> (r: Vec<u8>)
        ensures
            r@ == self.spec_encode(sequence, ssrc),
            r@.len() == 40,
    {
        let mut buf: Vec<u8> = Vec::new();
        buf.push(0x80);
        buf.push(0xD2);
        push_u16_be(&mut buf, sequence);
        buf.push(0);
        buf.push(0);
        buf.push(0);
        buf.push(0);
        push_u32_be(&mut buf, ssrc);
        buf.push(0);
        buf.push(0);
        buf.push(0);
        buf.push(0);
        let zero = NtpTimestamp { seconds: 0, fraction: 0 };
        zero.push_to(&mut buf);
        zero.push_to(&mut buf);
        self.send_time.push_to(&mut buf);
        proof {
            crate::bytes::lemma_be16_roundtrip(sequence);
            lemma_be32_roundtrip(ssrc);
            lemma_ntp_timestamp_roundtrip(zero);
            lemma_ntp_timestamp_roundtrip(self.send_time);
            assert(buf@ =~= self.spec_encode(sequence, ssrc));
        }
        buf
    }
}

/// A timing response: the request's send time (T1) echoed back, with the
/// times at which the peer received it (T2) and answered (T3).
#[derive(Debug, Clone, Copy)]
pub struct TimingResponse {
    /// T1.
    pub reference_time: NtpTimestamp,
    /// T2.
    pub receive_time: NtpTimestamp,
    /// T3.
    pub send_time: NtpTimestamp,
}

impl TimingResponse {
    /// Round-trip time in microseconds: (T4 - T1) - (T3 - T2), each
    /// difference saturating at zero.
    pub open spec fn spec_rtt(self, t4: NtpTimestamp) -> nat {
        let a = t4.spec_micros() - self.reference_time.spec_micros();
        let b = self.send_time.spec_micros() - self.receive_time.spec_micros();
        let a0: nat = if a < 0 {
            0
        } else {
            a as nat
        };
        let b0: nat = if b < 0 {
            0
        } else {
            b as nat
        };
        if a0 < b0 {
            0
        } else {
            (a0 - b0) as nat
        }
    }

    /// Clock offset in microseconds: ((T2 - T1) + (T3 - T4)) / 2, rounded
    /// toward zero.
    pub open spec fn spec_offset(self, t4: NtpTimestamp) -> int {
        let sum = (self.receive_time.spec_micros() - self.reference_time.spec_micros()) + (
        self.send_time.spec_micros() - t4.spec_micros());
        if sum >= 0 {
            sum / 2
        } else {
            -((-sum) / 2)
        }
    }

    /// Round-trip time in microseconds.
    pub fn calculate_rtt(&self, t4: NtpTimestamp) -> (r: u64)
        ensures
            r as nat == self.spec_rtt(t4),
    {
        let a = t4.to_micros().saturating_sub(self.reference_time.to_micros());
        let b = self.send_time.to_micros().saturating_sub(self.receive_time.to_micros());
        a.saturating_sub(b)
    }

    /// Clock offset in microseconds (peer time minus local time).
    pub fn calculate_offset(&self, t4: NtpTimestamp) -> (r: i64)
        ensures
            r as int == self.spec_offset(t4),
    {
        let t1 = self.reference_time.to_micros() as i64;
        let t2 = self.receive_time.to_micros() as i64;
        let t3 = self.send_time.to_micros() as i64;
        let t4m = t4.to_micros() as i64;
        let sum = (t2 - t1) + (t3 - t4m);
        sum / 2
    }
}

} // verus!
