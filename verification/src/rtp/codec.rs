//! RTP audio codec: packetizes PCM audio and encrypts it (AES-128-CTR for
//! AirPlay 1, ChaCha20-Poly1305 for AirPlay 2), and the reverse.
use vstd::prelude::*;
use crate::bytes::{be_bytes, lemma_be_bytes_len, push_be};
use crate::crypto::aes::{aes128_ctr_keystream, Aes128Ctr};
use crate::crypto::chacha::{
    chacha20poly1305_open, chacha20poly1305_seal, spec_counter_nonce, ChaCha20Poly1305Cipher,
    Nonce,
};
use crate::crypto::{lemma_xor_twice, xor_seq};
use crate::rtp::packet::{
    lemma_rtp_header_decode_prefix, lemma_rtp_header_len, lemma_rtp_header_roundtrip,
    RtpDecodeError, RtpHeader, RtpPacket,
};

verus! {

/// RTP codec errors.
#[derive(Debug, Clone)]
pub enum RtpCodecError {
    /// The packet could not be decoded.
    Decode(RtpDecodeError),
    /// Encryption is selected but its key is missing.
    EncryptionNotInitialized,
    /// PCM input of the wrong size.
    InvalidAudioSize(usize),
    /// Encryption failed.
    EncryptionFailed(String),
    /// Decryption or authentication failed.
    DecryptionFailed(String),
}

/// Encryption mode for RTP packets.
#[derive(Debug, Clone, Copy, PartialEq, Eq, Structural)]
pub enum RtpEncryptionMode {
    /// No encryption.
    Unencrypted,
    /// AES-128-CTR (legacy AirPlay 1).
    Aes128Ctr,
    /// ChaCha20-Poly1305 (AirPlay 2).
    ChaCha20Poly1305,
}

/// The state of a codec, as the contracts see it.
pub struct RtpCodecState {
    /// SSRC of outgoing packets.
    pub ssrc: u32,
    /// Sequence number of the next packet.
    pub sequence: u16,
    /// RTP timestamp of the next packet.
    pub timestamp: u32,
    /// AES key, if set.
    pub aes_key: Option<Seq<u8>>,
    /// AES IV, if set.
    pub aes_iv: Option<Seq<u8>>,
    /// ChaCha20-Poly1305 key, if set.
    pub chacha_key: Option<Seq<u8>>,
    /// Selected encryption.
    pub mode: RtpEncryptionMode,
    /// Buffered (rather than realtime) audio payload type.
    pub buffered: bool,
    /// Counter for ChaCha20-Poly1305 nonces.
    pub nonce_counter: u64,
}

/// The state of a new codec: unencrypted, realtime, all counters at zero.
pub open spec fn spec_initial_state(ssrc: u32) -> RtpCodecState {
    RtpCodecState {
        ssrc,
        sequence: 0,
        timestamp: 0,
        aes_key: None,
        aes_iv: None,
        chacha_key: None,
        mode: RtpEncryptionMode::Unencrypted,
        buffered: false,
        nonce_counter: 0,
    }
}

/// Bytes of PCM audio per packet: 352 stereo 16-bit frames.
pub open spec fn frame_bytes() -> nat {
    1408
}

/// The state after one packet has been sent: sequence and timestamp advance
/// (wrapping), and the nonce counter too under ChaCha20-Poly1305.
pub open spec fn spec_advance(s: RtpCodecState) -> RtpCodecState {
    RtpCodecState {
        sequence: ((s.sequence + 1) % 0x1_0000) as u16,
        timestamp: ((s.timestamp + 352) % 0x1_0000_0000) as u32,
        nonce_counter: if s.mode == RtpEncryptionMode::ChaCha20Poly1305 {
            ((s.nonce_counter + 1) % 0x1_0000_0000_0000_0000) as u64
        } else {
            s.nonce_counter
        },
        ..s
    }
}

/// The state after `n` packets.
pub open spec fn spec_advance_n(s: RtpCodecState, n: nat) -> RtpCodecState
    decreases n,
{
    if n == 0 {
        s
    } else {
        spec_advance(spec_advance_n(s, (n - 1) as nat))
    }
}

/// Whether encoding can fail for want of a key.
pub open spec fn spec_missing_key(s: RtpCodecState) -> bool {
    s.mode == RtpEncryptionMode::ChaCha20Poly1305 && s.chacha_key is None
}

/// The header of the next packet.
pub open spec fn spec_next_header(s: RtpCodecState) -> RtpHeader {
    RtpHeader::spec_new_audio(s.sequence, s.timestamp, s.ssrc, s.buffered)
}

/// The packet that the codec in state `s` produces for one frame of PCM
/// audio: the header, then the payload as the mode encrypts it. Under
/// AES-128-CTR the payload is XORed with the keystream at offset
/// `sequence * 1408` (when key and IV are set); under ChaCha20-Poly1305 it
/// is sealed with the header's timestamp and SSRC as associated data and
/// the nonce counter as nonce, and the eight little-endian counter bytes
/// follow.
pub open spec fn spec_audio_packet(s: RtpCodecState, pcm: Seq<u8>) -> Seq<u8> {
    let h = spec_next_header(s).spec_encode();
    match s.mode {
        RtpEncryptionMode::Unencrypted => h + pcm,
        RtpEncryptionMode::Aes128Ctr => h + if s.aes_key is Some && s.aes_iv is Some {
            xor_seq(
                pcm,
                aes128_ctr_keystream(
                    s.aes_key.unwrap(),
                    s.aes_iv.unwrap(),
                    s.sequence as nat * frame_bytes(),
                    pcm.len(),
                ),
            )
        } else {
            pcm
        },
        RtpEncryptionMode::ChaCha20Poly1305 => h + chacha20poly1305_seal(
            s.chacha_key.unwrap(),
            spec_counter_nonce(s.nonce_counter),
            h.subrange(4, 12),
            pcm,
        ) + be_bytes(s.nonce_counter as nat, 8).reverse(),
    }
}

/// The length of the packet for `n` bytes of audio: the 12-byte header
/// and the audio, and with ChaCha20-Poly1305 also the 16-byte tag and the
/// 8-byte nonce counter.
pub open spec fn spec_packet_len(mode: RtpEncryptionMode, n: nat) -> nat {
    match mode {
        RtpEncryptionMode::ChaCha20Poly1305 => 12 + n + 16 + 8,
        _ => 12 + n,
    }
}

/// The (header, payload) that a codec in state `s` decodes from `data`, or
/// `None` when decoding fails.
pub open spec fn spec_decode_audio(s: RtpCodecState, data: Seq<u8>) -> Option<
    (RtpHeader, Seq<u8>),
> {
    match s.mode {
        RtpEncryptionMode::Unencrypted => match RtpHeader::spec_decode(data) {
            Ok(h) => Some((h, data.subrange(12, data.len() as int))),
            Err(_) => None,
        },
        RtpEncryptionMode::Aes128Ctr => match RtpHeader::spec_decode(data) {
            Ok(h) => {
                let p = data.subrange(12, data.len() as int);
                Some(
                    (
                        h,
                        if s.aes_key is Some && s.aes_iv is Some {
                            xor_seq(
                                p,
                                aes128_ctr_keystream(
                                    s.aes_key.unwrap(),
                                    s.aes_iv.unwrap(),
                                    h.sequence as nat * frame_bytes(),
                                    p.len(),
                                ),
                            )
                        } else {
                            p
                        },
                    ),
                )
            },
            Err(_) => None,
        },
        RtpEncryptionMode::ChaCha20Poly1305 => if data.len() < 36 {
            None
        } else {
            match RtpHeader::spec_decode(data) {
                Err(_) => None,
                Ok(h) => if s.chacha_key is None {
                    None
                } else {
                    match chacha20poly1305_open(
                        s.chacha_key.unwrap(),
                        seq![0u8, 0u8, 0u8, 0u8] + data.subrange(
                            data.len() - 8,
                            data.len() as int,
                        ),
                        data.subrange(4, 12),
                        data.subrange(12, data.len() - 8),
                    ) {
                        None => None,
                        Some(p) => Some((h, p)),
                    }
                },
            }
        },
    }
}

/// Under AES-128-CTR each packet takes its own stretch of the keystream:
/// the payload of the packet with sequence number `n` is the PCM XORed
/// with the keystream of the key and IV from byte `n * 1408` on, so the
/// next packet uses the stretch right after it, and decoding XORs a
/// received payload with the stretch of the received sequence number.
pub proof fn lemma_aes_keystream_offsets(s: RtpCodecState, pcm: Seq<u8>, data: Seq<u8>)
    requires
        s.mode == RtpEncryptionMode::Aes128Ctr,
        s.aes_key is Some,
        s.aes_iv is Some,
    ensures
        ({
            let p = spec_audio_packet(s, pcm);
            p.subrange(12, p.len() as int) == xor_seq(
                pcm,
                aes128_ctr_keystream(
                    s.aes_key.unwrap(),
                    s.aes_iv.unwrap(),
                    1408 * s.sequence as nat,
                    pcm.len(),
                ),
            )
        }),
        s.sequence < 0xFFFF ==> ({
            let p = spec_audio_packet(spec_advance(s), pcm);
            p.subrange(12, p.len() as int) == xor_seq(
                pcm,
                aes128_ctr_keystream(
                    s.aes_key.unwrap(),
                    s.aes_iv.unwrap(),
                    1408 * s.sequence as nat + 1408,
                    pcm.len(),
                ),
            )
        }),
        spec_decode_audio(s, data) matches Some((h, q)) ==> q == xor_seq(
            data.subrange(12, data.len() as int),
            aes128_ctr_keystream(
                s.aes_key.unwrap(),
                s.aes_iv.unwrap(),
                1408 * h.sequence as nat,
                (data.len() - 12) as nat,
            ),
        ),
{
    let h0 = spec_next_header(s);
    lemma_rtp_header_len(h0);
    let p = spec_audio_packet(s, pcm);
    assert(p.subrange(12, p.len() as int) =~= xor_seq(
        pcm,
        aes128_ctr_keystream(
            s.aes_key.unwrap(),
            s.aes_iv.unwrap(),
            1408 * s.sequence as nat,
            pcm.len(),
        ),
    ));
    let s2 = spec_advance(s);
    let h1 = spec_next_header(s2);
    lemma_rtp_header_len(h1);
    if s.sequence < 0xFFFF {
        assert(s2.sequence == s.sequence + 1);
        assert(1408 * s2.sequence as nat == 1408 * s.sequence as nat + 1408);
        let p2 = spec_audio_packet(s2, pcm);
        assert(p2.subrange(12, p2.len() as int) =~= xor_seq(
            pcm,
            aes128_ctr_keystream(
                s.aes_key.unwrap(),
                s.aes_iv.unwrap(),
                1408 * s.sequence as nat + 1408,
                pcm.len(),
            ),
        ));
    }
    if let Some((h, q)) = spec_decode_audio(s, data) {
        assert(data.subrange(12, data.len() as int).len() == data.len() - 12) by {
            lemma_rtp_header_decode_prefix(data);
        }
    }
}

/// RTP codec for encoding/decoding audio packets.
///
/// Handles encryption if keys are set.
pub struct RtpCodec {
    ssrc: u32,
    sequence: u16,
    timestamp: u32,
    aes_key: Option<[u8; 16]>,
    aes_iv: Option<[u8; 16]>,
    chacha_key: Option<[u8; 32]>,
    encryption_mode: RtpEncryptionMode,
    buffered_mode: bool,
    nonce_counter: u64,
}

/// The contents of an optional key array.
pub open spec fn opt_view16(k: Option<[u8; 16]>) -> Option<Seq<u8>> {
    match k {
        Some(a) => Some(a@),
        None => None,
    }
}

/// The contents of an optional key array.
pub open spec fn opt_view32(k: Option<[u8; 32]>) -> Option<Seq<u8>> {
    match k {
        Some(a) => Some(a@),
        None => None,
    }
}

impl View for RtpCodec {
    type V = RtpCodecState;

    closed spec fn view(&self) -> RtpCodecState {
        RtpCodecState {
            ssrc: self.ssrc,
            sequence: self.sequence,
            timestamp: self.timestamp,
            aes_key: opt_view16(self.aes_key),
            aes_iv: opt_view16(self.aes_iv),
            chacha_key: opt_view32(self.chacha_key),
            mode: self.encryption_mode,
            buffered: self.buffered_mode,
            nonce_counter: self.nonce_counter,
        }
    }
}

impl RtpCodec {
    /// Samples per packet.
    pub const FRAMES_PER_PACKET: u32 = 352;

    /// Poly1305 tag size.
    pub const TAG_SIZE: usize = 16;

    /// Nonce bytes sent in a packet (padded to 12 bytes for the cipher).
    pub const NONCE_SIZE: usize = 8;

    /// Create a new codec.
    pub fn new(ssrc: u32) -> (r: Self)
        ensures
            r@ == spec_initial_state(ssrc),
    {
        Self {
            ssrc,
            sequence: 0,
            timestamp: 0,
            aes_key: None,
            aes_iv: None,
            chacha_key: None,
            encryption_mode: RtpEncryptionMode::Unencrypted,
            buffered_mode: false,
            nonce_counter: 0,
        }
    }

    /// Set AES-128-CTR encryption keys (legacy).
    pub fn set_encryption(&mut self, key: [u8; 16], iv: [u8; 16])
        ensures
            final(self)@ == (RtpCodecState {
                aes_key: Some(key@),
                aes_iv: Some(iv@),
                mode: RtpEncryptionMode::Aes128Ctr,
                ..old(self)@
            }),
    {
        self.aes_key = Some(key);
        self.aes_iv = Some(iv);
        self.encryption_mode = RtpEncryptionMode::Aes128Ctr;
    }

    /// Set ChaCha20-Poly1305 encryption key (AirPlay 2).
    pub fn set_chacha_encryption(&mut self, key: [u8; 32])
        ensures
            final(self)@ == (RtpCodecState {
                chacha_key: Some(key@),
                mode: RtpEncryptionMode::ChaCha20Poly1305,
                ..old(self)@
            }),
    {
        self.chacha_key = Some(key);
        self.encryption_mode = RtpEncryptionMode::ChaCha20Poly1305;
    }

    /// Get the encryption mode.
    pub fn encryption_mode(&self) -> (r: RtpEncryptionMode)
        ensures
            r == self@.mode,
    {
        self.encryption_mode
    }

    /// Enable buffered audio mode.
    pub fn set_buffered_mode(&mut self, enabled: bool)
        ensures
            final(self)@ == (RtpCodecState { buffered: enabled, ..old(self)@ }),
    {
        self.buffered_mode = enabled;
    }

    /// Reset sequence, timestamp and nonce counter.
    pub fn reset(&mut self)
        ensures
            final(self)@ == (RtpCodecState {
                sequence: 0,
                timestamp: 0,
                nonce_counter: 0,
                ..old(self)@
            }),
    {
        self.sequence = 0;
        self.timestamp = 0;
        self.nonce_counter = 0;
    }

    /// Get current sequence number.
    pub fn sequence(&self) -> (r: u16)
        ensures
            r == self@.sequence,
    {
        self.sequence
    }

    /// Get current timestamp.
    pub fn timestamp(&self) -> (r: u32)
        ensures
            r == self@.timestamp,
    {
        self.timestamp
    }

    /// Encode one packet's worth of PCM audio (16-bit signed little-endian
    /// stereo, exactly 352 frames = 1408 bytes) into an RTP packet.
    pub fn encode_audio(&mut self, pcm_data: &[u8]) -> (r: Result<Vec<u8>, RtpCodecError>)
        ensures
            pcm_data@.len() != frame_bytes() ==> (r matches Err(RtpCodecError::InvalidAudioSize(
                n,
            )) && n == pcm_data@.len()),
            pcm_data@.len() == frame_bytes() && spec_missing_key(old(self)@) ==> r matches Err(
                RtpCodecError::EncryptionNotInitialized,
            ),
            pcm_data@.len() == frame_bytes() && !spec_missing_key(old(self)@) ==> r is Ok,
            r matches Ok(p) ==> p@ == spec_audio_packet(old(self)@, pcm_data@) && final(self)@
                == spec_advance(old(self)@),
            r matches Ok(p) ==> p@.len() == spec_packet_len(old(self)@.mode, pcm_data@.len())
                && p@.subrange(0, 12) == spec_next_header(old(self)@).spec_encode(),
            r matches Ok(p) ==> (old(self)@.mode is ChaCha20Poly1305 ==> p@.subrange(
                p@.len() - 8,
                p@.len() as int,
            ) == be_bytes(old(self)@.nonce_counter as nat, 8).reverse()),
            r matches Ok(p) ==> spec_decode_audio(old(self)@, p@) == Some(
                (spec_next_header(old(self)@), pcm_data@),
            ),
            r is Err ==> final(self)@ == old(self)@,
    {
        let expected_size = Self::FRAMES_PER_PACKET as usize * 4;
        if pcm_data.len() != expected_size {
            return Err(RtpCodecError::InvalidAudioSize(pcm_data.len()));
        }
        let header = RtpHeader::new_audio(
            self.sequence,
            self.timestamp,
            self.ssrc,
            self.buffered_mode,
        );
        let header_bytes = header.encode();
        proof {
            lemma_rtp_header_len(header);
        }
        let result = match self.encryption_mode {
            RtpEncryptionMode::Unencrypted => {
                let packet = RtpPacket::new(header, crate::bytes::copy_bytes(pcm_data));
                packet.encode()
            },
            RtpEncryptionMode::Aes128Ctr => {
                let mut payload = crate::bytes::copy_bytes(pcm_data);
                match (&self.aes_key, &self.aes_iv) {
                    (Some(key), Some(iv)) => {
                        let mut cipher = match Aes128Ctr::new(key.as_slice(), iv.as_slice()) {
                            Ok(c) => c,
                            Err(_) => return Err(RtpCodecError::EncryptionNotInitialized),
                        };
                        cipher.seek((self.sequence as u64) * (expected_size as u64));
                        cipher.apply_keystream(payload.as_mut_slice());
                    },
                    _ => {},
                }
                let packet = RtpPacket::new(header, payload);
                packet.encode()
            },
            RtpEncryptionMode::ChaCha20Poly1305 => {
                let key = match &self.chacha_key {
                    Some(k) => k,
                    None => return Err(RtpCodecError::EncryptionNotInitialized),
                };
                let cipher = match ChaCha20Poly1305Cipher::new(key.as_slice()) {
                    Ok(c) => c,
                    Err(_) => return Err(RtpCodecError::EncryptionNotInitialized),
                };
                let counter = self.nonce_counter;
                let nonce = Nonce::from_counter(counter);
                let aad = &header_bytes.as_slice()[4..12];
                let encrypted = match cipher.encrypt_with_aad(&nonce, aad, pcm_data) {
                    Ok(c) => c,
                    Err(e) => match e {
                        crate::crypto::CryptoError::EncryptionFailed(m) => {
                            return Err(RtpCodecError::EncryptionFailed(m));
                        },
                        _ => return Err(RtpCodecError::EncryptionFailed(String::new())),
                    },
                };
                self.nonce_counter = self.nonce_counter.wrapping_add(1);
                let mut out: Vec<u8> = Vec::new();
                out.extend_from_slice(header_bytes.as_slice());
                out.extend_from_slice(encrypted.as_slice());
                let mut le: Vec<u8> = Vec::new();
                push_be(&mut le, counter, 8);
                proof {
                    lemma_be_bytes_len(counter as nat, 8);
                }
                let mut k: usize = 8;
                while k > 0
                    invariant
                        k <= 8,
                        le@ == be_bytes(counter as nat, 8),
                        le@.len() == 8,
                        out@ == header_bytes@ + encrypted@ + be_bytes(
                            counter as nat,
                            8,
                        ).reverse().subrange(0, 8 - k as int),
                    decreases k,
                {
                    out.push(le[k - 1]);
                    proof {
                        assert(be_bytes(counter as nat, 8).reverse().subrange(0, 8 - (k - 1) as int)
                            =~= be_bytes(counter as nat, 8).reverse().subrange(
                            0,
                            8 - k as int,
                        ).push(le@[k - 1]));
                    }
                    k = k - 1;
                }
                proof {
                    assert(be_bytes(counter as nat, 8).reverse().subrange(0, 8) =~= be_bytes(
                        counter as nat,
                        8,
                    ).reverse());
                }
                out
            },
        };
        self.sequence = self.sequence.wrapping_add(1);
        self.timestamp = self.timestamp.wrapping_add(Self::FRAMES_PER_PACKET);
        proof {
            assert(result@ =~= spec_audio_packet(old(self)@, pcm_data@));
            lemma_audio_roundtrip(old(self)@, pcm_data@);
            lemma_be_bytes_len(old(self)@.nonce_counter as nat, 8);
            let h = spec_next_header(old(self)@).spec_encode();
            assert(result@.subrange(0, 12) =~= h);
            if old(self)@.mode is ChaCha20Poly1305 {
                assert(result@.subrange(result@.len() - 8, result@.len() as int) =~= be_bytes(
                    old(self)@.nonce_counter as nat,
                    8,
                ).reverse());
            }
        }
        Ok(result)
    }

    /// Encode PCM audio of any length into packets of 1408 bytes each; the
    /// last one is padded with silence (zero bytes).
    pub fn encode_audio_frames(&mut self, pcm_data: &[u8]) -> (r: Result<
        Vec<Vec<u8>>,
        RtpCodecError,
    >)
        ensures
            pcm_data@.len() > 0 && spec_missing_key(old(self)@) ==> (r matches Err(
                RtpCodecError::EncryptionNotInitialized,
            ) && final(self)@ == old(self)@),
            !(pcm_data@.len() > 0 && spec_missing_key(old(self)@)) ==> r is Ok,
            r matches Ok(ps) ==> {
                let n = spec_frame_count(pcm_data@.len());
                &&& ps@.len() == n
                &&& forall|k: int|
                    0 <= k < n ==> #[trigger] ps@[k]@ == spec_audio_packet(
                        spec_advance_n(old(self)@, k as nat),
                        spec_frame(pcm_data@, k as nat),
                    )
                &&& final(self)@ == spec_advance_n(old(self)@, n)
            },
    {
        let frame_size: usize = 1408;
        let mut packets: Vec<Vec<u8>> = Vec::new();
        let total = pcm_data.len();
        let mut pos: usize = 0;
        let ghost s0 = self@;
        while pos < total
            invariant
                frame_size == 1408,
                total == pcm_data@.len(),
                s0 == old(self)@,
                pos <= total,
                pos < total ==> pos % 1408 == 0,
                packets@.len() == spec_frame_count(pos as nat),
                self@ == spec_advance_n(s0, spec_frame_count(pos as nat)),
                spec_missing_key(self@) == spec_missing_key(s0),
                pos > 0 ==> !spec_missing_key(s0),
                forall|k: int|
                    0 <= k < packets@.len() ==> #[trigger] packets@[k]@ == spec_audio_packet(
                        spec_advance_n(s0, k as nat),
                        spec_frame(pcm_data@, k as nat),
                    ),
            decreases total - pos,
        {
            let end = if total - pos >= frame_size {
                pos + frame_size
            } else {
                total
            };
            proof {
                lemma_frame_count_step(pos as nat, end as nat, total as nat);
            }
            let mut chunk = crate::bytes::copy_bytes(&pcm_data[pos..end]);
            while chunk.len() < frame_size
                invariant
                    frame_size == 1408,
                    pos < end <= pcm_data@.len(),
                    end - pos <= 1408,
                    chunk@.len() <= 1408,
                    end - pos <= chunk@.len(),
                    chunk@ == pcm_data@.subrange(pos as int, end as int) + Seq::new(
                        (chunk@.len() - (end - pos)) as nat,
                        |i: int| 0u8,
                    ),
                decreases 1408 - chunk@.len(),
            {
                chunk.push(0);
                proof {
                    assert(chunk@ =~= pcm_data@.subrange(pos as int, end as int) + Seq::new(
                        (chunk@.len() - (end - pos)) as nat,
                        |i: int| 0u8,
                    ));
                }
            }
            proof {
                lemma_frame_is_chunk(pcm_data@, pos as nat, end as nat, chunk@);
            }
            let ghost before = self@;
            let packet = match self.encode_audio(chunk.as_slice()) {
                Ok(p) => p,
                Err(e) => {
                    proof {
                        assert(chunk@.len() == 1408);
                        assert(spec_frame_count(0) == 0);
                        assert(spec_advance_n(s0, 0) == s0);
                    }
                    return Err(e);
                },
            };
            packets.push(packet);
            proof {
                assert(spec_advance_n(s0, (pos as nat / 1408) + 1) == spec_advance(
                    spec_advance_n(s0, pos as nat / 1408),
                ));
                lemma_advance_keeps_missing_key(before);
            }
            pos = end;
        }
        Ok(packets)
    }

    /// Decode an RTP packet, decrypting its payload as the mode requires.
    pub fn decode_audio(&self, data: &[u8]) -> (r: Result<RtpPacket, RtpCodecError>)
        ensures
            r is Ok <==> spec_decode_audio(self@, data@) is Some,
            r matches Ok(p) ==> (p.header, p.payload@) == spec_decode_audio(self@, data@).unwrap(),
            r matches Err(e) ==> match self@.mode {
                RtpEncryptionMode::ChaCha20Poly1305 => {
                    ||| data@.len() < 36 && e is DecryptionFailed
                    ||| data@.len() >= 36 && RtpHeader::spec_decode(data@) is Err && e
                        == RtpCodecError::Decode(RtpHeader::spec_decode(data@)->Err_0)
                    ||| data@.len() >= 36 && RtpHeader::spec_decode(data@) is Ok
                        && self@.chacha_key is None && e is EncryptionNotInitialized
                    ||| data@.len() >= 36 && RtpHeader::spec_decode(data@) is Ok
                        && self@.chacha_key is Some && e is DecryptionFailed
                },
                _ => e == RtpCodecError::Decode(RtpHeader::spec_decode(data@)->Err_0),
            },
    {
        match self.encryption_mode {
            RtpEncryptionMode::Unencrypted => match RtpPacket::decode(data) {
                Ok(p) => Ok(p),
                Err(e) => Err(RtpCodecError::Decode(e)),
            },
            RtpEncryptionMode::Aes128Ctr => {
                let mut packet = match RtpPacket::decode(data) {
                    Ok(p) => p,
                    Err(e) => return Err(RtpCodecError::Decode(e)),
                };
                match (&self.aes_key, &self.aes_iv) {
                    (Some(key), Some(iv)) => {
                        let mut cipher = match Aes128Ctr::new(key.as_slice(), iv.as_slice()) {
                            Ok(c) => c,
                            Err(_) => return Err(RtpCodecError::EncryptionNotInitialized),
                        };
                        cipher.seek((packet.header.sequence as u64) * 1408);
                        let plen = packet.payload.len();
                        assert(plen <= usize::MAX);
                        cipher.apply_keystream(packet.payload.as_mut_slice());
                    },
                    _ => {},
                }
                Ok(packet)
            },
            RtpEncryptionMode::ChaCha20Poly1305 => {
                let min_size = RtpHeader::SIZE + Self::TAG_SIZE + Self::NONCE_SIZE;
                if data.len() < min_size {
                    return Err(
                        RtpCodecError::DecryptionFailed(
                            "packet too small for ChaCha20-Poly1305".to_string(),
                        ),
                    );
                }
                let header = match RtpHeader::decode(data) {
                    Ok(h) => h,
                    Err(e) => return Err(RtpCodecError::Decode(e)),
                };
                let len = data.len();
                let mut full_nonce: Vec<u8> = Vec::new();
                full_nonce.push(0);
                full_nonce.push(0);
                full_nonce.push(0);
                full_nonce.push(0);
                full_nonce.extend_from_slice(&data[len - 8..len]);
                let nonce = match Nonce::from_bytes(full_nonce.as_slice()) {
                    Ok(n) => n,
                    Err(_) => return Err(RtpCodecError::DecryptionFailed(String::new())),
                };
                let aad = &data[4..12];
                let encrypted = &data[12..len - 8];
                let key = match &self.chacha_key {
                    Some(k) => k,
                    None => return Err(RtpCodecError::EncryptionNotInitialized),
                };
                let cipher = match ChaCha20Poly1305Cipher::new(key.as_slice()) {
                    Ok(c) => c,
                    Err(_) => return Err(RtpCodecError::DecryptionFailed(String::new())),
                };
                proof {
                    assert(full_nonce@ =~= seq![0u8, 0u8, 0u8, 0u8] + data@.subrange(
                        len - 8,
                        len as int,
                    ));
                }
                match cipher.decrypt_with_aad(&nonce, aad, encrypted) {
                    Ok(payload) => Ok(RtpPacket::new(header, payload)),
                    Err(e) => match e {
                        crate::crypto::CryptoError::DecryptionFailed(m) => Err(
                            RtpCodecError::DecryptionFailed(m),
                        ),
                        _ => Err(RtpCodecError::DecryptionFailed(String::new())),
                    },
                }
            },
        }
    }
}

/// Number of packets that `encode_audio_frames` makes of `len` bytes.
pub open spec fn spec_frame_count(len: nat) -> nat {
    (len + 1407) / 1408
}

/// Frame `k` of the PCM input: 1408 bytes from offset `1408 k`, padded with
/// zero bytes where the input ends.
pub open spec fn spec_frame(pcm: Seq<u8>, k: nat) -> Seq<u8> {
    Seq::new(
        1408,
        |i: int|
            if 1408 * k + i < pcm.len() {
                pcm[1408 * k + i]
            } else {
                0u8
            },
    )
}

proof fn lemma_frame_is_chunk(pcm: Seq<u8>, pos: nat, end: nat, chunk: Seq<u8>)
    requires
        pos % 1408 == 0,
        pos < end <= pcm.len(),
        end == pos + 1408 || end == pcm.len(),
        end - pos <= 1408,
        chunk.len() == 1408,
        chunk == pcm.subrange(pos as int, end as int) + Seq::new(
            (chunk.len() - (end - pos)) as nat,
            |i: int| 0u8,
        ),
    ensures
        chunk =~= spec_frame(pcm, pos / 1408),
{
    assert(1408 * (pos / 1408) == pos);
}

proof fn lemma_frame_count(total: nat, pos: nat)
    requires
        pos % 1408 == 0,
        pos >= total,
        pos < total + 1408,
    ensures
        spec_frame_count(total) == pos / 1408,
{
}

proof fn lemma_frame_count_step(pos: nat, end: nat, total: nat)
    requires
        pos % 1408 == 0,
        pos < total,
        end == pos + 1408 || (end == total && total < pos + 1408),
    ensures
        spec_frame_count(pos) == pos / 1408,
        spec_frame_count(end) == pos / 1408 + 1,
        end == pos + 1408 ==> end % 1408 == 0,
{
}

proof fn lemma_advance_keeps_missing_key(s: RtpCodecState)
    ensures
        spec_missing_key(spec_advance(s)) == spec_missing_key(s),
{
}

/// Decoding depends only on the mode and the keys of the decoding codec.
pub proof fn lemma_decode_same_keys(a: RtpCodecState, b: RtpCodecState, data: Seq<u8>)
    requires
        a.mode == b.mode,
        a.aes_key == b.aes_key,
        a.aes_iv == b.aes_iv,
        a.chacha_key == b.chacha_key,
    ensures
        spec_decode_audio(a, data) == spec_decode_audio(b, data),
{
}

/// Decoding the packet that a codec makes of a frame gives back the packet's
/// header and the frame, given (under ChaCha20-Poly1305) that opening the
/// sealed frame gives the frame back.
proof fn lemma_audio_roundtrip(enc: RtpCodecState, pcm: Seq<u8>)
    requires
        pcm.len() == frame_bytes(),
        !spec_missing_key(enc),
        enc.mode == RtpEncryptionMode::ChaCha20Poly1305 ==> {
            let k = enc.chacha_key.unwrap();
            let nonce = spec_counter_nonce(enc.nonce_counter);
            let aad = spec_next_header(enc).spec_encode().subrange(4, 12);
            &&& chacha20poly1305_seal(k, nonce, aad, pcm).len() == pcm.len() + 16
            &&& chacha20poly1305_open(k, nonce, aad, chacha20poly1305_seal(k, nonce, aad, pcm))
                == Some(pcm)
        },
    ensures
        spec_decode_audio(enc, spec_audio_packet(enc, pcm)) == Some((spec_next_header(enc), pcm)),
{
    let h = spec_next_header(enc);
    let hb = h.spec_encode();
    let data = spec_audio_packet(enc, pcm);
    lemma_rtp_header_len(h);
    lemma_rtp_header_roundtrip(h);
    lemma_rtp_header_decode_prefix(data);
    assert(data.subrange(0, 12) =~= hb);
    match enc.mode {
        RtpEncryptionMode::Unencrypted => {
            assert(data.subrange(12, data.len() as int) =~= pcm);
        },
        RtpEncryptionMode::Aes128Ctr => {
            if enc.aes_key is Some && enc.aes_iv is Some {
                let ks = aes128_ctr_keystream(
                    enc.aes_key.unwrap(),
                    enc.aes_iv.unwrap(),
                    enc.sequence as nat * frame_bytes(),
                    pcm.len(),
                );
                let c = xor_seq(pcm, ks);
                assert(data.subrange(12, data.len() as int) =~= c);
                lemma_xor_twice(pcm, ks);
            } else {
                assert(data.subrange(12, data.len() as int) =~= pcm);
            }
        },
        RtpEncryptionMode::ChaCha20Poly1305 => {
            let k = enc.chacha_key.unwrap();
            let nonce = spec_counter_nonce(enc.nonce_counter);
            let aad = hb.subrange(4, 12);
            let sealed = chacha20poly1305_seal(k, nonce, aad, pcm);
            let le = be_bytes(enc.nonce_counter as nat, 8).reverse();
            lemma_be_bytes_len(enc.nonce_counter as nat, 8);
            assert(data.subrange(data.len() - 8, data.len() as int) =~= le);
            assert(seq![0u8, 0u8, 0u8, 0u8] + le =~= nonce);
            assert(data.subrange(4, 12) =~= aad);
            assert(data.subrange(12, data.len() - 8) =~= sealed);
        },
    }
}

/// Builder for audio packet batches.
pub struct AudioPacketBuilder {
    codec: RtpCodec,
    packets: Vec<Vec<u8>>,
}

impl AudioPacketBuilder {
    /// The codec state of the builder.
    pub closed spec fn codec_state(&self) -> RtpCodecState {
        self.codec@
    }

    /// The packets built so far.
    pub closed spec fn packets(&self) -> Seq<Seq<u8>> {
        self.packets@.map_values(|p: Vec<u8>| p@)
    }

    /// Create a new builder.
    pub fn new(ssrc: u32) -> (r: Self)
        ensures
            r.codec_state() == spec_initial_state(ssrc),
            r.packets() == Seq::<Seq<u8>>::empty(),
    {
        let r = Self { codec: RtpCodec::new(ssrc), packets: Vec::new() };
        proof {
            assert(r.packets() =~= Seq::<Seq<u8>>::empty());
        }
        r
    }

    /// Set AES-128-CTR encryption (legacy).
    pub fn with_encryption(self, key: [u8; 16], iv: [u8; 16]) -> (r: Self)
        ensures
            r.codec_state() == (RtpCodecState {
                aes_key: Some(key@),
                aes_iv: Some(iv@),
                mode: RtpEncryptionMode::Aes128Ctr,
                ..self.codec_state()
            }),
            r.packets() == self.packets(),
    {
        let mut s = self;
        s.codec.set_encryption(key, iv);
        s
    }

    /// Set ChaCha20-Poly1305 encryption (AirPlay 2).
    pub fn with_chacha_encryption(self, key: [u8; 32]) -> (r: Self)
        ensures
            r.codec_state() == (RtpCodecState {
                chacha_key: Some(key@),
                mode: RtpEncryptionMode::ChaCha20Poly1305,
                ..self.codec_state()
            }),
            r.packets() == self.packets(),
    {
        let mut s = self;
        s.codec.set_chacha_encryption(key);
        s
    }

    /// Add audio data: it is cut into packets as `encode_audio_frames` does.
    pub fn add_audio(self, pcm_data: &[u8]) -> (r: Result<Self, RtpCodecError>)
        ensures
            pcm_data@.len() > 0 && spec_missing_key(self.codec_state()) ==> r matches Err(
                RtpCodecError::EncryptionNotInitialized,
            ),
            !(pcm_data@.len() > 0 && spec_missing_key(self.codec_state())) ==> r is Ok,
            r matches Ok(b) ==> {
                let n = spec_frame_count(pcm_data@.len());
                &&& b.packets().len() == self.packets().len() + n
                &&& b.packets().subrange(0, self.packets().len() as int) == self.packets()
                &&& forall|k: int|
                    0 <= k < n ==> #[trigger] b.packets()[self.packets().len() + k]
                        == spec_audio_packet(
                        spec_advance_n(self.codec_state(), k as nat),
                        spec_frame(pcm_data@, k as nat),
                    )
                &&& b.codec_state() == spec_advance_n(self.codec_state(), n)
            },
    {
        let mut s = self;
        let new_packets = match s.codec.encode_audio_frames(pcm_data) {
            Ok(p) => p,
            Err(e) => return Err(e),
        };
        let ghost old_packets = s.packets@;
        let mut new_packets = new_packets;
        s.packets.append(&mut new_packets);
        proof {
            let bp = s.packets@.map_values(|p: Vec<u8>| p@);
            let sp = old_packets.map_values(|p: Vec<u8>| p@);
            assert(bp.subrange(0, sp.len() as int) =~= sp);
        }
        Ok(s)
    }

    /// Build all packets.
    pub fn build(self) -> (r: Vec<Vec<u8>>)
        ensures
            r@.map_values(|p: Vec<u8>| p@) == self.packets(),
    {
        self.packets
    }
}

} // verus!
