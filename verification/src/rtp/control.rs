//! RTP control channel packets: retransmit requests, sync and PTP time
//! announcements.
use vstd::prelude::*;
use crate::bytes::{
    be16, be32, be64, be_value, lemma_be16_roundtrip, lemma_be32_roundtrip, lemma_be64_roundtrip,
    push_be, push_u16_be, push_u32_be, read_u16_be, read_u32_be, read_u64_be,
};
use crate::rtp::packet::RtpDecodeError;
use crate::rtp::timing::{lemma_ntp_timestamp_roundtrip, NtpTimestamp};

verus! {

/// Retransmit request for lost packets.
#[derive(Debug, Clone, Copy, PartialEq, Eq, Structural)]
pub struct RetransmitRequest {
    /// First sequence number to retransmit.
    pub sequence_start: u16,
    /// Number of packets to retransmit.
    pub count: u16,
}

impl RetransmitRequest {
    /// The 16-byte wire form: an RTP-like header (payload type 0x55 with the
    /// marker bit), then the first sequence number and the count.
    pub open spec fn spec_encode(self, ssrc: u32) -> Seq<u8> {
        seq![0x80u8, 0xD5u8] + be16(self.sequence_start) + seq![0u8, 0u8, 0u8, 0u8] + be32(ssrc)
            + be16(self.sequence_start) + be16(self.count)
    }

    /// Decoding of the request body (the bytes after the header).
    pub open spec fn spec_decode(buf: Seq<u8>) -> Result<RetransmitRequest, RtpDecodeError> {
        if buf.len() < 4 {
            Err(RtpDecodeError::BufferTooSmall { needed: 4, have: buf.len() as usize })
        } else {
            Ok(
                RetransmitRequest {
                    sequence_start: be_value(buf.subrange(0, 2)) as u16,
                    count: be_value(buf.subrange(2, 4)) as u16,
                },
            )
        }
    }

    /// Create a new retransmit request.
    pub fn new(sequence_start: u16, count: u16) -> (r: Self)
        ensures
            r.sequence_start == sequence_start,
            r.count == count,
    {
        Self { sequence_start, count }
    }

    /// Encode to bytes (including RTP-like header).
    pub fn encode(&self, ssrc: u32) -> (r: Vec<u8>)
        ensures
            r@ == self.spec_encode(ssrc),
    {
        let mut buf: Vec<u8> = Vec::new();
        buf.push(0x80);
        buf.push(0xD5);
        push_u16_be(&mut buf, self.sequence_start);
        buf.push(0);
        buf.push(0);
        buf.push(0);
        buf.push(0);
        push_u32_be(&mut buf, ssrc);
        push_u16_be(&mut buf, self.sequence_start);
        push_u16_be(&mut buf, self.count);
        proof {
            assert(buf@ =~= self.spec_encode(ssrc));
        }
        buf
    }

    /// Decode the request body from bytes.
    pub fn decode(buf: &[u8]) -> (r: Result<Self, RtpDecodeError>)
        ensures
            r == Self::spec_decode(buf@),
    {
        if buf.len() < 4 {
            return Err(RtpDecodeError::BufferTooSmall { needed: 4, have: buf.len() });
        }
        Ok(Self { sequence_start: read_u16_be(buf, 0), count: read_u16_be(buf, 2) })
    }
}

/// Time announcement packet using PTP reference (type 215).
///
/// Used to synchronize RTP timestamp with PTP monotonic time.
#[derive(Debug, Clone, Copy, PartialEq, Eq, Structural)]
pub struct TimeAnnouncePtp {
    /// RTP timestamp at the PTP time.
    pub rtp_timestamp: u32,
    /// PTP monotonic timestamp (nanoseconds).
    pub ptp_timestamp: u64,
    /// Next play-at RTP timestamp.
    pub next_rtp_timestamp: u32,
    /// PTP clock identity (Grandmaster ID).
    pub clock_identity: u64,
}

impl TimeAnnouncePtp {
    /// The 28-byte wire form: a 4-byte header (version 2, type 0xD7, length
    /// 6 words), then the four fields big-endian.
    pub open spec fn spec_encode(self) -> Seq<u8> {
        seq![0x80u8, 0xD7u8, 0x00u8, 0x06u8] + be32(self.rtp_timestamp) + be64(self.ptp_timestamp)
            + be32(self.next_rtp_timestamp) + be64(self.clock_identity)
    }

    /// Create a new packet.
    pub fn new(
        rtp_timestamp: u32,
        ptp_timestamp: u64,
        next_rtp_timestamp: u32,
        clock_identity: u64,
    ) -> (r: Self)
        ensures
            r == (TimeAnnouncePtp {
                rtp_timestamp,
                ptp_timestamp,
                next_rtp_timestamp,
                clock_identity,
            }),
    {
        Self { rtp_timestamp, ptp_timestamp, next_rtp_timestamp, clock_identity }
    }

    /// Encode to bytes.
    pub fn encode(&self) -> (r: Vec<u8>)
        ensures
            r@ == self.spec_encode(),
    {
        let mut buf: Vec<u8> = Vec::new();
        buf.push(0x80);
        buf.push(0xD7);
        buf.push(0x00);
        buf.push(0x06);
        push_u32_be(&mut buf, self.rtp_timestamp);
        push_be(&mut buf, self.ptp_timestamp, 8);
        push_u32_be(&mut buf, self.next_rtp_timestamp);
        push_be(&mut buf, self.clock_identity, 8);
        proof {
            assert(buf@ =~= self.spec_encode());
        }
        buf
    }
}

/// Control packet types.
#[derive(Debug, Clone, Copy, PartialEq, Eq, Structural)]
pub enum ControlPacket {
    /// Request retransmission of lost packets.
    RetransmitRequest(RetransmitRequest),
    /// Sync packet for timing.
    Sync {
        /// RTP timestamp of the current playback position.
        rtp_timestamp: u32,
        /// NTP time of that position.
        ntp_timestamp: NtpTimestamp,
        /// RTP timestamp of the next packet.
        next_timestamp: u32,
    },
    /// PTP Time Announcement.
    TimeAnnouncePtp(TimeAnnouncePtp),
}

impl ControlPacket {
    /// Decoding of a control packet, by the second byte.
    pub open spec fn spec_decode(buf: Seq<u8>) -> Result<ControlPacket, RtpDecodeError> {
        if buf.len() < 4 {
            Err(RtpDecodeError::BufferTooSmall { needed: 4, have: buf.len() as usize })
        } else {
            let pt = buf[1];
            if pt == 0x55 || pt == 0xD5 {
                if buf.len() < 12 {
                    Err(RtpDecodeError::BufferTooSmall { needed: 12, have: buf.len() as usize })
                } else {
                    match RetransmitRequest::spec_decode(buf.subrange(12, buf.len() as int)) {
                        Ok(r) => Ok(ControlPacket::RetransmitRequest(r)),
                        Err(e) => Err(e),
                    }
                }
            } else if pt == 0x54 || pt == 0xD4 {
                if buf.len() < 20 {
                    Err(RtpDecodeError::BufferTooSmall { needed: 20, have: buf.len() as usize })
                } else {
                    Ok(
                        ControlPacket::Sync {
                            rtp_timestamp: be_value(buf.subrange(4, 8)) as u32,
                            ntp_timestamp: NtpTimestamp::spec_decode(buf.subrange(8, 16)),
                            next_timestamp: be_value(buf.subrange(16, 20)) as u32,
                        },
                    )
                }
            } else if pt == 0xD7 {
                if buf.len() < 28 {
                    Err(RtpDecodeError::BufferTooSmall { needed: 28, have: buf.len() as usize })
                } else {
                    Ok(
                        ControlPacket::TimeAnnouncePtp(
                            TimeAnnouncePtp {
                                rtp_timestamp: be_value(buf.subrange(4, 8)) as u32,
                                ptp_timestamp: be_value(buf.subrange(8, 16)) as u64,
                                next_rtp_timestamp: be_value(buf.subrange(16, 20)) as u32,
                                clock_identity: be_value(buf.subrange(20, 28)) as u64,
                            },
                        ),
                    )
                }
            } else {
                Err(RtpDecodeError::UnknownPayloadType(pt % 128))
            }
        }
    }

    /// Parse control packet from bytes.
    pub fn decode(buf: &[u8]) -> (r: Result<Self, RtpDecodeError>)
        ensures
            r == Self::spec_decode(buf@),
    {
        if buf.len() < 4 {
            return Err(RtpDecodeError::BufferTooSmall { needed: 4, have: buf.len() });
        }
        let payload_type = buf[1];
        if payload_type == 0x55 || payload_type == 0xD5 {
            if buf.len() < 12 {
                return Err(RtpDecodeError::BufferTooSmall { needed: 12, have: buf.len() });
            }
            match RetransmitRequest::decode(&buf[12..buf.len()]) {
                Ok(r) => Ok(ControlPacket::RetransmitRequest(r)),
                Err(e) => Err(e),
            }
        } else if payload_type == 0x54 || payload_type == 0xD4 {
            if buf.len() < 20 {
                return Err(RtpDecodeError::BufferTooSmall { needed: 20, have: buf.len() });
            }
            let ntp = NtpTimestamp::decode(&buf[8..16]);
            Ok(
                ControlPacket::Sync {
                    rtp_timestamp: read_u32_be(buf, 4),
                    ntp_timestamp: ntp,
                    next_timestamp: read_u32_be(buf, 16),
                },
            )
        } else if payload_type == 0xD7 {
            if buf.len() < 28 {
                return Err(RtpDecodeError::BufferTooSmall { needed: 28, have: buf.len() });
            }
            Ok(
                ControlPacket::TimeAnnouncePtp(
                    TimeAnnouncePtp {
                        rtp_timestamp: read_u32_be(buf, 4),
                        ptp_timestamp: read_u64_be(buf, 8),
                        next_rtp_timestamp: read_u32_be(buf, 16),
                        clock_identity: read_u64_be(buf, 20),
                    },
                ),
            )
        } else {
            Err(RtpDecodeError::UnknownPayloadType(payload_type % 128))
        }
    }
}

/// An encoded retransmit request is decoded as that request.
pub proof fn lemma_retransmit_roundtrip(r: RetransmitRequest, ssrc: u32)
    ensures
        ControlPacket::spec_decode(r.spec_encode(ssrc)) == Ok::<ControlPacket, RtpDecodeError>(
            ControlPacket::RetransmitRequest(r),
        ),
{
    let e = r.spec_encode(ssrc);
    lemma_be16_roundtrip(r.sequence_start);
    lemma_be16_roundtrip(r.count);
    lemma_be32_roundtrip(ssrc);
    let body = e.subrange(12, e.len() as int);
    assert(body.subrange(0, 2) =~= be16(r.sequence_start));
    assert(body.subrange(2, 4) =~= be16(r.count));
}

/// An encoded PTP time announcement is decoded as that announcement.
pub proof fn lemma_time_announce_roundtrip(p: TimeAnnouncePtp)
    ensures
        ControlPacket::spec_decode(p.spec_encode()) == Ok::<ControlPacket, RtpDecodeError>(
            ControlPacket::TimeAnnouncePtp(p),
        ),
{
    let e = p.spec_encode();
    lemma_be32_roundtrip(p.rtp_timestamp);
    lemma_be64_roundtrip(p.ptp_timestamp);
    lemma_be32_roundtrip(p.next_rtp_timestamp);
    lemma_be64_roundtrip(p.clock_identity);
    assert(e.subrange(4, 8) =~= be32(p.rtp_timestamp));
    assert(e.subrange(8, 16) =~= be64(p.ptp_timestamp));
    assert(e.subrange(16, 20) =~= be32(p.next_rtp_timestamp));
    assert(e.subrange(20, 28) =~= be64(p.clock_identity));
}

} // verus!
