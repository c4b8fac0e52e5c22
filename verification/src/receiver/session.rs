//! Audio stream parameters negotiated for a receiver session.
use vstd::prelude::*;

verus! {

/// Audio codecs an AirPlay stream can carry.
#[derive(Debug, Clone, Copy, PartialEq, Eq, Structural)]
pub enum AudioCodec {
    /// Apple Lossless
    Alac,
    /// AAC low complexity
    AacLc,
    /// AAC enhanced low delay
    AacEld,
    /// Linear PCM (L16)
    Pcm,
}

/// The parameters of an audio stream.
#[derive(Debug, Clone, Copy)]
pub struct StreamParameters {
    /// Codec
    pub codec: AudioCodec,
    /// Sample rate in Hz
    pub sample_rate: u32,
    /// Bits per sample
    pub bits_per_sample: u8,
    /// Number of channels
    pub channels: u8,
    /// Frames per packet
    pub frames_per_packet: u32,
    /// AES key, when the stream is encrypted and the key could be decrypted
    pub aes_key: Option<[u8; 16]>,
    /// AES IV, when the stream is encrypted
    pub aes_iv: Option<[u8; 16]>,
    /// Minimum latency in samples, if announced
    pub min_latency: Option<u32>,
}

} // verus!
