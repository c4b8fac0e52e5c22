//! RTP packet header and packet, as used by AirPlay (RAOP) audio streaming.
use vstd::prelude::*;
use crate::bytes::{
    be16, be32, be_value, copy_bytes, lemma_be16_roundtrip, lemma_be32_roundtrip, push_u16_be, push_u32_be,
    read_u16_be, read_u32_be, to_array12,
};

verus! {

/// RTP decoding errors.
#[derive(Debug, Clone, PartialEq, Eq, Structural)]
pub enum RtpDecodeError {
    /// Fewer bytes than the format needs.
    BufferTooSmall {
        /// Bytes needed.
        needed: usize,
        /// Bytes available.
        have: usize,
    },
    /// RTP version other than 2.
    InvalidVersion(u8),
    /// Payload type (low 7 bits of the second byte) that AirPlay does not use.
    UnknownPayloadType(u8),
}

/// AirPlay RTP payload types.
#[derive(Debug, Clone, Copy, PartialEq, Eq, Structural)]
pub enum PayloadType {
    /// Timing request (0x52).
    TimingRequest,
    /// Timing response (0x53).
    TimingResponse,
    /// Sync packet (0x54).
    Sync,
    /// Retransmit request (0x55).
    RetransmitRequest,
    /// Retransmit response (0x56).
    RetransmitResponse,
    /// Realtime audio (0x60).
    AudioRealtime,
    /// Buffered audio (0x67).
    AudioBuffered,
}

impl PayloadType {
    /// The 7-bit wire value.
    pub open spec fn spec_value(self) -> u8 {
        match self {
            PayloadType::TimingRequest => 0x52,
            PayloadType::TimingResponse => 0x53,
            PayloadType::Sync => 0x54,
            PayloadType::RetransmitRequest => 0x55,
            PayloadType::RetransmitResponse => 0x56,
            PayloadType::AudioRealtime => 0x60,
            PayloadType::AudioBuffered => 0x67,
        }
    }

    /// The payload type named by the low 7 bits of a byte.
    pub open spec fn spec_from_byte(b: u8) -> Option<PayloadType> {
        let v = b % 128;
        if v == 0x52 {
            Some(PayloadType::TimingRequest)
        } else if v == 0x53 {
            Some(PayloadType::TimingResponse)
        } else if v == 0x54 {
            Some(PayloadType::Sync)
        } else if v == 0x55 {
            Some(PayloadType::RetransmitRequest)
        } else if v == 0x56 {
            Some(PayloadType::RetransmitResponse)
        } else if v == 0x60 {
            Some(PayloadType::AudioRealtime)
        } else if v == 0x67 {
            Some(PayloadType::AudioBuffered)
        } else {
            None
        }
    }

    /// Parses the low 7 bits of a byte (the marker bit is masked off).
    pub fn from_byte(b: u8) -> (r: Option<Self>)
        ensures
            r == Self::spec_from_byte(b),
    {
        let v = b % 128;
        if v == 0x52 {
            Some(PayloadType::TimingRequest)
        } else if v == 0x53 {
            Some(PayloadType::TimingResponse)
        } else if v == 0x54 {
            Some(PayloadType::Sync)
        } else if v == 0x55 {
            Some(PayloadType::RetransmitRequest)
        } else if v == 0x56 {
            Some(PayloadType::RetransmitResponse)
        } else if v == 0x60 {
            Some(PayloadType::AudioRealtime)
        } else if v == 0x67 {
            Some(PayloadType::AudioBuffered)
        } else {
            None
        }
    }

    /// The 7-bit wire value.
    pub fn as_byte(&self) -> (r: u8)
        ensures
            r == self.spec_value(),
    {
        match self {
            PayloadType::TimingRequest => 0x52,
            PayloadType::TimingResponse => 0x53,
            PayloadType::Sync => 0x54,
            PayloadType::RetransmitRequest => 0x55,
            PayloadType::RetransmitResponse => 0x56,
            PayloadType::AudioRealtime => 0x60,
            PayloadType::AudioBuffered => 0x67,
        }
    }
}

/// RTP fixed header (12 bytes).
#[derive(Debug, Clone, Copy, PartialEq, Eq, Structural)]
pub struct RtpHeader {
    /// RTP version (2).
    pub version: u8,
    /// Padding flag.
    pub padding: bool,
    /// Extension flag.
    pub extension: bool,
    /// Number of CSRC identifiers.
    pub csrc_count: u8,
    /// Marker bit.
    pub marker: bool,
    /// Payload type.
    pub payload_type: PayloadType,
    /// Sequence number.
    pub sequence: u16,
    /// RTP timestamp.
    pub timestamp: u32,
    /// Synchronization source.
    pub ssrc: u32,
}

/// 1 for true, 0 for false.
pub open spec fn bit(b: bool) -> u8 {
    if b {
        1
    } else {
        0
    }
}

impl RtpHeader {
    /// Header size in bytes.
    pub const SIZE: usize = 12;

    /// The 12-byte wire form.
    pub open spec fn spec_encode(self) -> Seq<u8> {
        seq![
            ((self.version % 4) * 64 + bit(self.padding) * 32 + bit(self.extension) * 16 + (
            self.csrc_count % 16)) as u8,
            (bit(self.marker) * 128 + self.payload_type.spec_value()) as u8,
        ] + be16(self.sequence) + be32(self.timestamp) + be32(self.ssrc)
    }

    /// Decoding of the first 12 bytes.
    pub open spec fn spec_decode(data: Seq<u8>) -> Result<RtpHeader, RtpDecodeError> {
        if data.len() < 12 {
            Err(RtpDecodeError::BufferTooSmall { needed: 12, have: data.len() as usize })
        } else if data[0] / 64 != 2 {
            Err(RtpDecodeError::InvalidVersion(data[0] / 64))
        } else {
            match PayloadType::spec_from_byte(data[1]) {
                None => Err(RtpDecodeError::UnknownPayloadType(data[1] % 128)),
                Some(pt) => Ok(
                    RtpHeader {
                        version: 2,
                        padding: (data[0] / 32) % 2 == 1,
                        extension: (data[0] / 16) % 2 == 1,
                        csrc_count: data[0] % 16,
                        marker: data[1] / 128 == 1,
                        payload_type: pt,
                        sequence: be_value(data.subrange(2, 4)) as u16,
                        timestamp: be_value(data.subrange(4, 8)) as u32,
                        ssrc: be_value(data.subrange(8, 12)) as u32,
                    },
                ),
            }
        }
    }

    /// The header of an audio packet: version 2, marker set, realtime or
    /// buffered payload type.
    pub open spec fn spec_new_audio(sequence: u16, timestamp: u32, ssrc: u32, buffered: bool) -> RtpHeader {
        RtpHeader {
            version: 2,
            padding: false,
            extension: false,
            csrc_count: 0,
            marker: true,
            payload_type: if buffered {
                PayloadType::AudioBuffered
            } else {
                PayloadType::AudioRealtime
            },
            sequence,
            timestamp,
            ssrc,
        }
    }

    /// Creates the header of an audio packet.
    pub fn new_audio(sequence: u16, timestamp: u32, ssrc: u32, buffered: bool) -> (r: Self)
        ensures
            r == Self::spec_new_audio(sequence, timestamp, ssrc, buffered),
    {
        RtpHeader {
            version: 2,
            padding: false,
            extension: false,
            csrc_count: 0,
            marker: true,
            payload_type: if buffered {
                PayloadType::AudioBuffered
            } else {
                PayloadType::AudioRealtime
            },
            sequence,
            timestamp,
            ssrc,
        }
    }

    /// Appends the wire form to `buf`.
    pub fn push_to(&self, buf: &mut Vec<u8>)
        ensures
            final(buf)@ == old(buf)@ + self.spec_encode(),
    {
        let p: u8 = if self.padding {
            1
        } else {
            0
        };
        let x: u8 = if self.extension {
            1
        } else {
            0
        };
        let m: u8 = if self.marker {
            1
        } else {
            0
        };
        buf.push((self.version % 4) * 64 + p * 32 + x * 16 + self.csrc_count % 16);
        buf.push(m * 128 + self.payload_type.as_byte());
        push_u16_be(buf, self.sequence);
        push_u32_be(buf, self.timestamp);
        push_u32_be(buf, self.ssrc);
        proof {
            assert(final(buf)@ =~= old(buf)@ + self.spec_encode());
        }
    }

    /// Encodes to 12 bytes.
    pub fn encode(&self) -> (r: [u8; 12])
        ensures
            r@ == self.spec_encode(),
    {
        let mut v: Vec<u8> = Vec::new();
        self.push_to(&mut v);
        proof {
            lemma_rtp_header_len(*self);
        }
        to_array12(&v)
    }

    /// Decodes the first 12 bytes.
    pub fn decode(data: &[u8]) -> (r: Result<Self, RtpDecodeError>)
        ensures
            r == Self::spec_decode(data@),
    {
        if data.len() < 12 {
            return Err(RtpDecodeError::BufferTooSmall { needed: 12, have: data.len() });
        }
        let b0 = data[0];
        let b1 = data[1];
        let version = b0 / 64;
        if version != 2 {
            return Err(RtpDecodeError::InvalidVersion(version));
        }
        let payload_type = match PayloadType::from_byte(b1) {
            Some(pt) => pt,
            None => return Err(RtpDecodeError::UnknownPayloadType(b1 % 128)),
        };
        Ok(
            RtpHeader {
                version: 2,
                padding: (b0 / 32) % 2 == 1,
                extension: (b0 / 16) % 2 == 1,
                csrc_count: b0 % 16,
                marker: b1 / 128 == 1,
                payload_type,
                sequence: read_u16_be(data, 2),
                timestamp: read_u32_be(data, 4),
                ssrc: read_u32_be(data, 8),
            },
        )
    }
}

pub proof fn lemma_rtp_header_len(h: RtpHeader)
    ensures
        h.spec_encode().len() == 12,
{
    lemma_be16_roundtrip(h.sequence);
    lemma_be32_roundtrip(h.timestamp);
    lemma_be32_roundtrip(h.ssrc);
}

/// A version-2 header with fewer than 16 CSRCs is read back from its
/// encoding.
pub proof fn lemma_rtp_header_roundtrip(h: RtpHeader)
    requires
        h.version == 2,
        h.csrc_count < 16,
    ensures
        RtpHeader::spec_decode(h.spec_encode()) == Ok::<RtpHeader, RtpDecodeError>(h),
{
    let e = h.spec_encode();
    lemma_rtp_header_len(h);
    lemma_be16_roundtrip(h.sequence);
    lemma_be32_roundtrip(h.timestamp);
    lemma_be32_roundtrip(h.ssrc);
    assert(e.subrange(2, 4) =~= be16(h.sequence));
    assert(e.subrange(4, 8) =~= be32(h.timestamp));
    assert(e.subrange(8, 12) =~= be32(h.ssrc));
    assert(PayloadType::spec_from_byte(h.payload_type.spec_value()) == Some(h.payload_type));
    let b0 = e[0];
    assert(b0 / 64 == 2);
    assert((b0 / 32) % 2 == bit(h.padding));
    assert((b0 / 16) % 2 == bit(h.extension));
    assert(b0 % 16 == h.csrc_count);
    let b1 = e[1];
    assert(b1 / 128 == bit(h.marker));
    assert(b1 % 128 == h.payload_type.spec_value());
}

/// An RTP packet: header and payload.
#[derive(Debug, Clone)]
pub struct RtpPacket {
    /// The header.
    pub header: RtpHeader,
    /// The payload (everything after the 12-byte header).
    pub payload: Vec<u8>,
}

/// Little-endian signed 16-bit sample from two bytes.
pub open spec fn sample_le(lo: u8, hi: u8) -> i16 {
    (hi as nat * 256 + lo as nat) as u16 as i16
}

/// The stereo samples of a 16-bit little-endian interleaved payload; a
/// trailing partial frame is ignored.
pub open spec fn spec_audio_samples(p: Seq<u8>) -> Seq<(i16, i16)> {
    Seq::new(
        p.len() / 4,
        |i: int| (sample_le(p[4 * i], p[4 * i + 1]), sample_le(p[4 * i + 2], p[4 * i + 3])),
    )
}

impl RtpPacket {
    /// The wire form: header then payload.
    pub open spec fn spec_encode(self) -> Seq<u8> {
        self.header.spec_encode() + self.payload@
    }

    /// Creates a packet.
    pub fn new(header: RtpHeader, payload: Vec<u8>) -> (r: Self)
        ensures
            r.header == header,
            r.payload@ == payload@,
    {
        RtpPacket { header, payload }
    }

    /// Creates an audio packet.
    pub fn audio(sequence: u16, timestamp: u32, ssrc: u32, payload: Vec<u8>, buffered: bool) -> (r:
        Self)
        ensures
            r.header == RtpHeader::spec_new_audio(sequence, timestamp, ssrc, buffered),
            r.payload@ == payload@,
    {
        RtpPacket { header: RtpHeader::new_audio(sequence, timestamp, ssrc, buffered), payload }
    }

    /// Encodes header and payload.
    pub fn encode(&self) -> (r: Vec<u8>)
        ensures
            r@ == self.spec_encode(),
    {
        let mut buf: Vec<u8> = Vec::new();
        self.header.push_to(&mut buf);
        buf.extend_from_slice(self.payload.as_slice());
        buf
    }

    /// Decodes a packet: the header, then the rest as payload.
    pub fn decode(data: &[u8]) -> (r: Result<Self, RtpDecodeError>)
        ensures
            match r {
                Ok(p) => RtpHeader::spec_decode(data@) == Ok::<RtpHeader, RtpDecodeError>(
                    p.header,
                ) && p.payload@ == data@.subrange(12, data@.len() as int),
                Err(e) => RtpHeader::spec_decode(data@) == Err::<RtpHeader, RtpDecodeError>(e),
            },
    {
        let header = match RtpHeader::decode(data) {
            Ok(h) => h,
            Err(e) => return Err(e),
        };
        let payload = copy_bytes(&data[12..data.len()]);
        Ok(RtpPacket { header, payload })
    }

    /// The stereo samples of the payload (16-bit little-endian, interleaved).
    pub fn audio_samples(&self) -> (r: Vec<(i16, i16)>)
        ensures
            r@ == spec_audio_samples(self.payload@),
    {
        let mut out: Vec<(i16, i16)> = Vec::new();
        let n = self.payload.len() / 4;
        let mut i: usize = 0;
        while i < n
            invariant
                n == self.payload@.len() / 4,
                i <= n,
                out@ =~= spec_audio_samples(self.payload@).subrange(0, i as int),
            decreases n - i,
        {
            let p = &self.payload;
            assert(4 * i + 3 < p@.len()) by (nonlinear_arith)
                requires
                    i < n,
                    n == p@.len() / 4,
            ;
            assert(p@.len() == p.len());
            let l = ((p[4 * i + 1] as u16) * 256 + p[4 * i] as u16) as i16;
            let r = ((p[4 * i + 3] as u16) * 256 + p[4 * i + 2] as u16) as i16;
            out.push((l, r));
            i = i + 1;
        }
        out
    }
}

/// Decoding an encoded packet gives back its header and payload.
pub proof fn lemma_rtp_packet_roundtrip(p: RtpPacket)
    requires
        p.header.version == 2,
        p.header.csrc_count < 16,
    ensures
        RtpHeader::spec_decode(p.spec_encode()) == Ok::<RtpHeader, RtpDecodeError>(p.header),
        p.spec_encode().subrange(12, p.spec_encode().len() as int) == p.payload@,
{
    let e = p.spec_encode();
    lemma_rtp_header_len(p.header);
    lemma_rtp_header_roundtrip(p.header);
    lemma_rtp_header_decode_prefix(e);
    assert(e.subrange(0, 12) =~= p.header.spec_encode());
    assert(e.subrange(12, e.len() as int) =~= p.payload@);
}

/// The header decoder reads only the first 12 bytes.
pub proof fn lemma_rtp_header_decode_prefix(data: Seq<u8>)
    requires
        data.len() >= 12,
    ensures
        RtpHeader::spec_decode(data) == RtpHeader::spec_decode(data.subrange(0, 12)),
{
    let p = data.subrange(0, 12);
    assert(p.subrange(2, 4) =~= data.subrange(2, 4));
    assert(p.subrange(4, 8) =~= data.subrange(4, 8));
    assert(p.subrange(8, 12) =~= data.subrange(8, 12));
}

} // verus!
