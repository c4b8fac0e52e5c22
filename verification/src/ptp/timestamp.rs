//! PTP timestamps: seconds and nanoseconds, with the IEEE 1588 wire form
//! (48-bit seconds, 32-bit nanoseconds) and the compact AirPlay form
//! (48.16 fixed point).
use vstd::prelude::*;
use crate::time::system_time_now;
use crate::bytes::{
    be32, be_bytes, be_value, lemma_be32_roundtrip, lemma_be_bytes_len, lemma_be_value_of_bytes,
    lemma_pow256_values, lemma_small_mod, push_be, push_u32_be, read_be, read_u32_be, to_array10,
};

verus! {

/// Number of nanoseconds in one second.
pub const NANOS_PER_SEC: u64 = 1_000_000_000;

/// 2^48: the range of the seconds field on the wire.
pub const SECONDS_RANGE: u64 = 0x1_0000_0000_0000;

/// A PTP timestamp.
#[derive(Debug, Clone, Copy, PartialEq, Eq, Structural, Default)]
pub struct PtpTimestamp {
    /// Whole seconds (48 bits on the wire).
    pub seconds: u64,
    /// Nanoseconds within the second.
    pub nanoseconds: u32,
}

impl PtpTimestamp {
    /// Creates a timestamp from its two parts.
    pub fn new(seconds: u64, nanoseconds: u32) -> (r: Self)
        ensures
            r.seconds == seconds,
            r.nanoseconds == nanoseconds,
    {
        PtpTimestamp { seconds, nanoseconds }
    }

    /// The timestamp as a number of nanoseconds.
    pub open spec fn spec_nanos(self) -> int {
        self.seconds * 1_000_000_000 + self.nanoseconds
    }

    /// The timestamp `n` nanoseconds after the epoch: the epoch itself for
    /// `n <= 0`, and the latest timestamp when the seconds would not fit in
    /// `u64`.
    pub open spec fn spec_from_nanos(n: int) -> PtpTimestamp {
        if n <= 0 {
            PtpTimestamp { seconds: 0, nanoseconds: 0 }
        } else if n / 1_000_000_000 > u64::MAX {
            PtpTimestamp { seconds: u64::MAX, nanoseconds: 999_999_999 }
        } else {
            PtpTimestamp {
                seconds: (n / 1_000_000_000) as u64,
                nanoseconds: (n % 1_000_000_000) as u32,
            }
        }
    }

    /// Total nanoseconds since the epoch.
    pub fn to_nanos(&self) -> (r: i128)
        ensures
            r == self.spec_nanos(),
    {
        assert(self.seconds * 1_000_000_000 <= u64::MAX * 1_000_000_000) by (nonlinear_arith)
            requires
                self.seconds <= u64::MAX,
        ;
        self.seconds as i128 * 1_000_000_000 + self.nanoseconds as i128
    }

    /// The timestamp `n` nanoseconds after the epoch (see
    /// `spec_from_nanos` for the ends of the range).
    pub fn from_nanos(n: i128) -> (r: Self)
        ensures
            r == Self::spec_from_nanos(n as int),
            r.nanoseconds < NANOS_PER_SEC,
    {
        if n <= 0 {
            return PtpTimestamp { seconds: 0, nanoseconds: 0 };
        }
        let secs = n / 1_000_000_000;
        if secs > u64::MAX as i128 {
            return PtpTimestamp { seconds: u64::MAX, nanoseconds: 999_999_999 };
        }
        PtpTimestamp { seconds: secs as u64, nanoseconds: (n % 1_000_000_000) as u32 }
    }

    /// The current time.
    pub fn now() -> (r: Self)
        ensures
            r.nanoseconds < NANOS_PER_SEC,
    {
        let (s, ns) = system_time_now();
        PtpTimestamp { seconds: s, nanoseconds: ns }
    }

    /// The 10-byte IEEE 1588 form: low 48 bits of the seconds, then the
    /// nanoseconds, both big-endian.
    pub open spec fn spec_encode_ieee1588(self) -> Seq<u8> {
        be_bytes(self.seconds as nat, 6) + be32(self.nanoseconds)
    }

    /// Decoding of the IEEE 1588 form; `None` when fewer than 10 bytes.
    pub open spec fn spec_decode_ieee1588(data: Seq<u8>) -> Option<PtpTimestamp> {
        if data.len() < 10 {
            None
        } else {
            Some(
                PtpTimestamp {
                    seconds: be_value(data.subrange(0, 6)) as u64,
                    nanoseconds: be_value(data.subrange(6, 10)) as u32,
                },
            )
        }
    }

    /// Encodes in the IEEE 1588 form.
    pub fn encode_ieee1588(&self) -> (r: [u8; 10])
        ensures
            r@ == self.spec_encode_ieee1588(),
    {
        let mut v: Vec<u8> = Vec::new();
        push_be(&mut v, self.seconds, 6);
        push_u32_be(&mut v, self.nanoseconds);
        proof {
            lemma_be_bytes_len(self.seconds as nat, 6);
            lemma_be_bytes_len(self.nanoseconds as nat, 4);
        }
        to_array10(&v)
    }

    /// Decodes the IEEE 1588 form from the first 10 bytes of `data`.
    pub fn decode_ieee1588(data: &[u8]) -> (r: Option<Self>)
        ensures
            r == Self::spec_decode_ieee1588(data@),
    {
        if data.len() < 10 {
            return None;
        }
        let s = read_be(data, 0, 6);
        let ns = read_u32_be(data, 6);
        Some(PtpTimestamp { seconds: s, nanoseconds: ns })
    }

    /// The compact 48.16 fixed-point form: seconds (mod 2^48) in the upper
    /// 48 bits, the fraction of a second in units of 2^-16 s below.
    pub open spec fn spec_to_airplay_compact(self) -> u64 {
        ((self.seconds as nat % (SECONDS_RANGE as nat)) * 65536 + (self.nanoseconds as nat
            * 65536 / (NANOS_PER_SEC as nat)) % 65536) as u64
    }

    /// The timestamp that a compact value denotes.
    pub open spec fn spec_from_airplay_compact(compact: u64) -> PtpTimestamp {
        PtpTimestamp {
            seconds: compact / 65536,
            nanoseconds: ((compact % 65536) as nat * (NANOS_PER_SEC as nat) / 65536) as u32,
        }
    }

    /// Converts to the compact 48.16 form.
    pub fn to_airplay_compact(&self) -> (r: u64)
        ensures
            r == self.spec_to_airplay_compact(),
    {
        let secs = self.seconds % SECONDS_RANGE;
        let frac = (self.nanoseconds as u64 * 65536 / NANOS_PER_SEC) % 65536;
        assert(secs * 65536 + frac < 0x1_0000_0000_0000_0000) by (nonlinear_arith)
            requires
                secs < SECONDS_RANGE,
                frac < 65536,
                SECONDS_RANGE == 0x1_0000_0000_0000,
        ;
        secs * 65536 + frac
    }

    /// Converts from the compact 48.16 form.
    pub fn from_airplay_compact(compact: u64) -> (r: Self)
        ensures
            r == Self::spec_from_airplay_compact(compact),
            r.nanoseconds < NANOS_PER_SEC,
    {
        let frac = compact % 65536;
        assert(frac * NANOS_PER_SEC / 65536 < NANOS_PER_SEC) by (nonlinear_arith)
            requires
                frac < 65536,
                NANOS_PER_SEC == 1_000_000_000,
        ;
        PtpTimestamp {
            seconds: compact / 65536,
            nanoseconds: (frac * NANOS_PER_SEC / 65536) as u32,
        }
    }
}

/// Converting a timestamp to nanoseconds and back gives it again when its
/// nanoseconds are less than a second.
pub proof fn lemma_nanos_roundtrip(t: PtpTimestamp)
    requires
        t.nanoseconds < NANOS_PER_SEC,
    ensures
        PtpTimestamp::spec_from_nanos(t.spec_nanos()) == t,
{
    let n = t.spec_nanos();
    if n > 0 {
        assert(n / 1_000_000_000 == t.seconds && n % 1_000_000_000 == t.nanoseconds) by (nonlinear_arith)
            requires
                n == t.seconds * 1_000_000_000 + t.nanoseconds,
                0 <= t.nanoseconds < 1_000_000_000,
                t.seconds >= 0,
        ;
    } else {
        assert(t.seconds == 0 && t.nanoseconds == 0) by (nonlinear_arith)
            requires
                n == t.seconds * 1_000_000_000 + t.nanoseconds,
                n <= 0,
                t.seconds >= 0,
                t.nanoseconds >= 0,
        ;
    }
}

/// Encoding and then decoding the IEEE 1588 form gives the timestamp back
/// when its seconds fit in 48 bits.
pub proof fn lemma_ieee1588_roundtrip(t: PtpTimestamp)
    requires
        t.seconds < SECONDS_RANGE,
    ensures
        t.spec_encode_ieee1588().len() == 10,
        PtpTimestamp::spec_decode_ieee1588(t.spec_encode_ieee1588()) == Some(t),
{
    let e = t.spec_encode_ieee1588();
    lemma_be_bytes_len(t.seconds as nat, 6);
    lemma_be32_roundtrip(t.nanoseconds);
    assert(e.subrange(0, 6) =~= be_bytes(t.seconds as nat, 6));
    assert(e.subrange(6, 10) =~= be32(t.nanoseconds));
    lemma_be_value_of_bytes(t.seconds as nat, 6);
    lemma_pow256_values();
    lemma_small_mod(t.seconds as nat, 6);
}

} // verus!
