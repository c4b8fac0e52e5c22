//! RAOP-specific SDP parsing: audio format and encryption parameters.
use vstd::prelude::*;
use super::{attr_text, first_audio, MediaDescription, SdpErrorView, SdpParseError, SessionDescription};
use crate::bytes::copy_array16;
use crate::receiver::session::{AudioCodec, StreamParameters};
use crate::text::{
    contains_seq, decimal, parse_u64, push_decimal, split_words, str_contains, trim, trimmed,
    unsigned_value, words,
};

verus! {

/// ALAC format parameters from the `fmtp` attribute.
#[derive(Debug, Clone)]
pub struct AlacParameters {
    /// Frames per packet
    pub frames_per_packet: u32,
    /// Compatible version
    pub compatible_version: u8,
    /// Bits per sample
    pub bit_depth: u8,
    /// Rice history mult
    pub pb: u8,
    /// Rice initial history
    pub mb: u8,
    /// Rice limit
    pub kb: u8,
    /// Number of channels
    pub channels: u8,
    /// Max run
    pub max_run: u16,
    /// Max frame bytes
    pub max_frame_bytes: u32,
    /// Average bit rate
    pub avg_bit_rate: u32,
    /// Sample rate
    pub sample_rate: u32,
}

/// AAC format parameters.
#[derive(Debug, Clone)]
pub struct AacParameters {
    /// Sample rate
    pub sample_rate: u32,
    /// Channels
    pub channels: u8,
    /// AAC profile
    pub profile: AacProfile,
}

/// AAC profiles.
#[derive(Debug, Clone, Copy, PartialEq, Eq, Structural)]
pub enum AacProfile {
    /// AAC-LC
    LowComplexity,
    /// AAC-ELD
    EnhancedLowDelay,
}

/// Encryption parameters from the SDP.
#[derive(Debug, Clone)]
pub struct EncryptionParams {
    /// RSA-encrypted AES key (base64-decoded)
    pub encrypted_aes_key: Vec<u8>,
    /// AES IV (base64-decoded)
    pub aes_iv: [u8; 16],
}

/// Word `i` read as an unsigned number no larger than `max`, or `default`
/// when it is missing, malformed or too large.
pub open spec fn field_value(ws: Seq<Seq<char>>, i: int, max: nat, default: nat) -> nat {
    if 0 <= i < ws.len() {
        match unsigned_value(ws[i]) {
            Some(v) => if v <= max {
                v
            } else {
                default
            },
            None => default,
        }
    } else {
        default
    }
}

/// The ALAC parameters read from the words of an `fmtp` value, the first
/// parameter at word `off`.
pub open spec fn alac_parameters(ws: Seq<Seq<char>>, off: int) -> AlacParameters {
    AlacParameters {
        frames_per_packet: field_value(ws, off, u32::MAX as nat, 352) as u32,
        compatible_version: field_value(ws, off + 1, u8::MAX as nat, 0) as u8,
        bit_depth: field_value(ws, off + 2, u8::MAX as nat, 16) as u8,
        pb: field_value(ws, off + 3, u8::MAX as nat, 40) as u8,
        mb: field_value(ws, off + 4, u8::MAX as nat, 10) as u8,
        kb: field_value(ws, off + 5, u8::MAX as nat, 14) as u8,
        channels: field_value(ws, off + 6, u8::MAX as nat, 2) as u8,
        max_run: field_value(ws, off + 7, u16::MAX as nat, 255) as u16,
        max_frame_bytes: field_value(ws, off + 8, u32::MAX as nat, 0) as u32,
        avg_bit_rate: field_value(ws, off + 9, u32::MAX as nat, 0) as u32,
        sample_rate: field_value(ws, off + 10, u32::MAX as nat, 44100) as u32,
    }
}

/// What parsing an ALAC `fmtp` value gives: the parameters when it has 11
/// words (no payload type) or 12 (payload type first), else the error.
pub open spec fn alac_outcome(fmtp: Seq<char>) -> Result<AlacParameters, SdpErrorView> {
    let ws = words(fmtp);
    if ws.len() == 12 {
        Ok(alac_parameters(ws, 1))
    } else if ws.len() == 11 {
        Ok(alac_parameters(ws, 0))
    } else {
        Err(
            SdpErrorView::InvalidAttribute(
                "ALAC fmtp needs 11 or 12 fields, got "@ + decimal(ws.len()) + ": "@ + fmtp,
            ),
        )
    }
}

/// A result whose error is taken by its view.
pub open spec fn result_view<T>(r: Result<T, SdpParseError>) -> Result<T, SdpErrorView> {
    match r {
        Ok(v) => Ok(v),
        Err(e) => Err(e@),
    }
}

fn field(ws: &Vec<String>, i: usize, max: u64, default: u64) -> (r: u64)
    requires
        default <= max,
        i < ws@.len(),
    ensures
        r == field_value(ws@.map_values(|w: String| w@), i as int, max as nat, default as nat),
        r <= max,
{
    match parse_u64(ws[i].as_str()) {
        Some(v) => if v <= max {
            v
        } else {
            default
        },
        None => default,
    }
}

impl AlacParameters {
    /// Parse the value of an `fmtp` attribute, such as
    /// `"96 352 0 16 40 10 14 2 255 0 0 44100"`: 12 words with the payload
    /// type first, or 11 without it. A word that does not read as a number
    /// of the field's type leaves that field at its default.
    pub fn parse(fmtp: &str) -> (r: Result<Self, SdpParseError>)
        ensures
            result_view(r) == alac_outcome(fmtp@),
    {
        let parts = split_words(fmtp);
        let n = parts.len();
        let ghost ws = parts@.map_values(|w: String| w@);
        assert(ws.len() == n);
        let offset: usize = if n == 12 {
            1
        } else if n == 11 {
            0
        } else {
            let mut m = String::from_str("ALAC fmtp needs 11 or 12 fields, got ");
            push_decimal(&mut m, n as u64);
            m.append(": ");
            m.append(fmtp);
            return Err(SdpParseError::InvalidAttribute(m));
        };
        let p = AlacParameters {
            frames_per_packet: field(&parts, offset, 0xffff_ffff, 352) as u32,
            compatible_version: field(&parts, offset + 1, 0xff, 0) as u8,
            bit_depth: field(&parts, offset + 2, 0xff, 16) as u8,
            pb: field(&parts, offset + 3, 0xff, 40) as u8,
            mb: field(&parts, offset + 4, 0xff, 10) as u8,
            kb: field(&parts, offset + 5, 0xff, 14) as u8,
            channels: field(&parts, offset + 6, 0xff, 2) as u8,
            max_run: field(&parts, offset + 7, 0xffff, 255) as u16,
            max_frame_bytes: field(&parts, offset + 8, 0xffff_ffff, 0) as u32,
            avg_bit_rate: field(&parts, offset + 9, 0xffff_ffff, 0) as u32,
            sample_rate: field(&parts, offset + 10, 0xffff_ffff, 44100) as u32,
        };
        assert(p == alac_parameters(ws, offset as int));
        Ok(p)
    }
}

/// The text value of an attribute, as `get(..)` followed by `as_deref()`.
fn attr_value<'a>(media: &'a MediaDescription, name: &str) -> (r: Option<&'a str>)
    ensures
        match r {
            Some(v) => attr_text(*media, name@) == Some(v@),
            None => attr_text(*media, name@) is None,
        },
{
    match media.attributes.get(name) {
        Some(Some(v)) => Some(v.as_str()),
        _ => None,
    }
}

/// What the standard base64 alphabet with padding decodes a text to, or
/// `None` when the text is not valid base64.
pub uninterp spec fn base64_standard_decoded(text: Seq<char>) -> Option<Seq<u8>>;

/// Decodes base64 with the standard alphabet and padding
/// (`base64::engine::general_purpose::STANDARD.decode`). Trusted: the result
/// is what that engine decodes the text to, `None` where it reports an
/// error.
#[verifier::external_body]
fn base64_decode(text: &str) -> (r: Option<Vec<u8>>)
    ensures
        match r {
            Some(v) => base64_standard_decoded(text@) == Some(v@),
            None => base64_standard_decoded(text@) is None,
        },
{
    base64::Engine::decode(&base64::engine::general_purpose::STANDARD, text).ok()
}

/// What the encryption attributes of a media description give: `None`
/// without an `rsaaeskey` value; else the decoded key and IV, or the error.
pub open spec fn encryption_outcome(m: MediaDescription) -> Result<
    Option<(Seq<u8>, Seq<u8>)>,
    SdpErrorView,
> {
    match attr_text(m, "rsaaeskey"@) {
        None => Ok(None),
        Some(key) => match attr_text(m, "aesiv"@) {
            None => Err(SdpErrorView::MissingField("aesiv"@)),
            Some(iv) => match base64_standard_decoded(trimmed(key)) {
                None => Err(SdpErrorView::InvalidAttribute("Invalid base64 in rsaaeskey"@)),
                Some(k) => match base64_standard_decoded(trimmed(iv)) {
                    None => Err(SdpErrorView::InvalidAttribute("Invalid base64 in aesiv"@)),
                    Some(ivb) => match iv_outcome(k, ivb) {
                        Ok(p) => Ok(Some(p)),
                        Err(e) => Err(e),
                    },
                },
            },
        },
    }
}

/// The key and IV when the IV has the 16 bytes of an AES block, else the
/// error.
pub open spec fn iv_outcome(key: Seq<u8>, iv: Seq<u8>) -> Result<(Seq<u8>, Seq<u8>), SdpErrorView> {
    if iv.len() == 16 {
        Ok((key, iv))
    } else {
        Err(SdpErrorView::InvalidAttribute("AES IV must be 16 bytes, got "@ + decimal(iv.len())))
    }
}

/// The encryption parameters of a media description as a model.
pub open spec fn encryption_view(r: Result<Option<EncryptionParams>, SdpParseError>) -> Result<
    Option<(Seq<u8>, Seq<u8>)>,
    SdpErrorView,
> {
    match r {
        Ok(Some(p)) => Ok(Some((p.encrypted_aes_key@, p.aes_iv@))),
        Ok(None) => Ok(None),
        Err(e) => Err(e@),
    }
}

/// Builds the encryption parameters from a decoded key and IV; the IV must
/// be 16 bytes.
pub fn encryption_params(key: Vec<u8>, iv: Vec<u8>) -> (r: Result<EncryptionParams, SdpParseError>)
    ensures
        match r {
            Ok(p) => iv_outcome(key@, iv@) == Ok::<(Seq<u8>, Seq<u8>), SdpErrorView>(
                (p.encrypted_aes_key@, p.aes_iv@),
            ),
            Err(e) => iv_outcome(key@, iv@) == Err::<(Seq<u8>, Seq<u8>), SdpErrorView>(e@),
        },
{
    if iv.len() != 16 {
        let mut m = String::from_str("AES IV must be 16 bytes, got ");
        push_decimal(&mut m, iv.len() as u64);
        return Err(SdpParseError::InvalidAttribute(m));
    }
    let aes_iv = copy_array16(iv.as_slice());
    Ok(EncryptionParams { encrypted_aes_key: key, aes_iv })
}

/// Parse the encryption parameters (`rsaaeskey`, `aesiv`) of a media
/// description: `Ok(None)` when it has no `rsaaeskey` value.
pub fn parse_encryption(media: &MediaDescription) -> (r: Result<
    Option<EncryptionParams>,
    SdpParseError,
>)
    ensures
        encryption_view(r) == encryption_outcome(*media),
{
    let encrypted_key = match attr_value(media, "rsaaeskey") {
        Some(k) => k,
        None => return Ok(None),
    };
    let iv_str = match attr_value(media, "aesiv") {
        Some(v) => v,
        None => return Err(SdpParseError::MissingField("aesiv")),
    };
    let encrypted_aes_key = match base64_decode(trim(encrypted_key)) {
        Some(k) => k,
        None => {
            return Err(
                SdpParseError::InvalidAttribute(String::from_str("Invalid base64 in rsaaeskey")),
            )
        },
    };
    let iv_bytes = match base64_decode(trim(iv_str)) {
        Some(v) => v,
        None => {
            return Err(SdpParseError::InvalidAttribute(String::from_str("Invalid base64 in aesiv")))
        },
    };
    match encryption_params(encrypted_aes_key, iv_bytes) {
        Ok(p) => Ok(Some(p)),
        Err(e) => Err(e),
    }
}

/// The codec an `rtpmap` value names.
pub open spec fn codec_of_rtpmap(s: Seq<char>) -> Option<AudioCodec> {
    if contains_seq(s, "AppleLossless"@) {
        Some(AudioCodec::Alac)
    } else if contains_seq(s, "mpeg4-generic"@) || contains_seq(s, "MP4A-LATM"@) {
        if contains_seq(s, "ELD"@) {
            Some(AudioCodec::AacEld)
        } else {
            Some(AudioCodec::AacLc)
        }
    } else if contains_seq(s, "L16"@) {
        Some(AudioCodec::Pcm)
    } else {
        None
    }
}

/// The codec of a media description, from its `rtpmap` attribute.
pub open spec fn media_codec(m: MediaDescription) -> Option<AudioCodec> {
    match attr_text(m, "rtpmap"@) {
        Some(s) => codec_of_rtpmap(s),
        None => None,
    }
}

/// Detect the codec from the `rtpmap` attribute.
pub fn detect_codec(media: &MediaDescription) -> (r: Option<AudioCodec>)
    ensures
        r == media_codec(*media),
{
    let rtpmap = match attr_value(media, "rtpmap") {
        Some(s) => s,
        None => return None,
    };
    if str_contains(rtpmap, "AppleLossless") {
        Some(AudioCodec::Alac)
    } else if str_contains(rtpmap, "mpeg4-generic") || str_contains(rtpmap, "MP4A-LATM") {
        if str_contains(rtpmap, "ELD") {
            Some(AudioCodec::AacEld)
        } else {
            Some(AudioCodec::AacLc)
        }
    } else if str_contains(rtpmap, "L16") {
        Some(AudioCodec::Pcm)
    } else {
        None
    }
}

/// Codec, sample rate, bits per sample, channels and frames per packet.
pub type AudioFormat = (AudioCodec, u32, u8, u8, u32);

/// The audio format a media description announces: ALAC reads it from
/// `fmtp`, the other codecs have 44.1 kHz, 16-bit stereo, 352 frames.
pub open spec fn audio_format(m: MediaDescription) -> Result<AudioFormat, SdpErrorView> {
    match media_codec(m) {
        None => Err(SdpErrorView::MissingField("rtpmap"@)),
        Some(AudioCodec::Alac) => match attr_text(m, "fmtp"@) {
            None => Err(SdpErrorView::MissingField("fmtp"@)),
            Some(f) => match alac_outcome(f) {
                Ok(a) => Ok(
                    (AudioCodec::Alac, a.sample_rate, a.bit_depth, a.channels, a.frames_per_packet),
                ),
                Err(e) => Err(e),
            },
        },
        Some(c) => Ok((c, 44100, 16, 2, 352)),
    }
}

/// The `min-latency` attribute read as a `u32`, if it is one.
pub open spec fn min_latency_of(m: MediaDescription) -> Option<u32> {
    match attr_text(m, "min-latency"@) {
        Some(s) => match unsigned_value(s) {
            Some(v) => if v <= u32::MAX {
                Some(v as u32)
            } else {
                None
            },
            None => None,
        },
        None => None,
    }
}

/// An RSA private key of the `rsa` crate, carried through as an opaque
/// value.
#[verifier::external_type_specification]
#[verifier::external_body]
pub struct ExRsaPrivateKey(rsa::RsaPrivateKey);

/// The error text when the private key does not parse as PKCS#8 DER, or
/// `None` when it does.
pub uninterp spec fn pkcs8_key_error(der: Seq<u8>) -> Option<Seq<char>>;

/// An RSA private key parsed from PKCS#8 DER, kept with the DER bytes it
/// was parsed from (only `rsa_key_from_pkcs8_der` makes one).
pub struct RsaKey {
    key: rsa::RsaPrivateKey,
    der: Vec<u8>,
}

impl RsaKey {
    /// The DER bytes the key was parsed from.
    pub closed spec fn der(&self) -> Seq<u8> {
        self.der@
    }
}

/// Parses an RSA private key from PKCS#8 DER
/// (`rsa::RsaPrivateKey::from_pkcs8_der`), keeping the DER with it.
/// Trusted: it succeeds exactly when the named error is absent, and
/// otherwise returns the error's text.
#[verifier::external_body]
fn rsa_key_from_pkcs8_der(der: &[u8]) -> (r: Result<RsaKey, String>)
    ensures
        match r {
            Ok(k) => pkcs8_key_error(der@) is None && k.der() == der@,
            Err(t) => pkcs8_key_error(der@) == Some(t@),
        },
{
    match <rsa::RsaPrivateKey as rsa::pkcs8::DecodePrivateKey>::from_pkcs8_der(der) {
        Ok(key) => Ok(RsaKey { key, der: der.to_vec() }),
        Err(e) => Err(e.to_string()),
    }
}

/// What PKCS#1 v1.5 decryption with the RSA private key that PKCS#8 DER
/// `der` holds gives for a ciphertext: the plaintext, or the error's text.
pub uninterp spec fn rsa_pkcs1v15_plaintext(der: Seq<u8>, ciphertext: Seq<u8>) -> Result<
    Seq<u8>,
    Seq<char>,
>;

/// Decrypts with PKCS#1 v1.5 padding (`rsa::RsaPrivateKey::decrypt` with
/// `Pkcs1v15Encrypt`), the error as its text. Trusted: the outcome is the
/// named one for the key's DER and the ciphertext (the decryption uses no
/// randomness, so it depends on these alone).
#[verifier::external_body]
fn rsa_pkcs1v15_decrypt(key: &RsaKey, ciphertext: &[u8]) -> (r: Result<Vec<u8>, String>)
    ensures
        match r {
            Ok(v) => rsa_pkcs1v15_plaintext(key.der(), ciphertext@) == Ok::<
                Seq<u8>,
                Seq<char>,
            >(v@),
            Err(t) => rsa_pkcs1v15_plaintext(key.der(), ciphertext@) == Err::<
                Seq<u8>,
                Seq<char>,
            >(t@),
        },
{
    match key.key.decrypt(rsa::Pkcs1v15Encrypt, ciphertext) {
        Ok(v) => Ok(v),
        Err(e) => Err(e.to_string()),
    }
}

/// The AES key, or the error, that the outcome of the RSA decryption
/// gives: the plaintext must be 16 bytes.
pub open spec fn spec_aes_key(d: Result<Seq<u8>, Seq<char>>) -> Result<Seq<u8>, SdpErrorView> {
    match d {
        Err(t) => Err(SdpErrorView::InvalidAttribute("RSA decrypt failed: "@ + t)),
        Ok(v) => if v.len() == 16 {
            Ok(v)
        } else {
            Err(
                SdpErrorView::InvalidAttribute(
                    "Decrypted AES key must be 16 bytes, got "@ + decimal(v.len()),
                ),
            )
        },
    }
}

/// The AES key, or the error, that decrypting `encrypted` with the private
/// key in PKCS#8 DER `der` gives.
pub open spec fn spec_decrypted_key(encrypted: Seq<u8>, der: Seq<u8>) -> Result<
    Seq<u8>,
    SdpErrorView,
> {
    match pkcs8_key_error(der) {
        Some(t) => Err(SdpErrorView::InvalidAttribute("Invalid RSA key: "@ + t)),
        None => spec_aes_key(rsa_pkcs1v15_plaintext(der, encrypted)),
    }
}

/// The AES key from the outcome of the RSA decryption: it must be 16 bytes.
pub fn aes_key_from_decrypted(decrypted: Result<Vec<u8>, String>) -> (r: Result<
    [u8; 16],
    SdpParseError,
>)
    ensures
        match decrypted {
            Err(t) => r matches Err(e) && e@ == SdpErrorView::InvalidAttribute(
                "RSA decrypt failed: "@ + t@,
            ),
            Ok(v) => if v@.len() == 16 {
                r matches Ok(k) && k@ == v@
            } else {
                r matches Err(e) && e@ == SdpErrorView::InvalidAttribute(
                    "Decrypted AES key must be 16 bytes, got "@ + decimal(v@.len()),
                )
            },
        },
{
    match decrypted {
        Err(t) => {
            let mut m = String::from_str("RSA decrypt failed: ");
            m.append(t.as_str());
            Err(SdpParseError::InvalidAttribute(m))
        },
        Ok(v) => {
            if v.len() != 16 {
                let mut m = String::from_str("Decrypted AES key must be 16 bytes, got ");
                push_decimal(&mut m, v.len() as u64);
                return Err(SdpParseError::InvalidAttribute(m));
            }
            Ok(copy_array16(v.as_slice()))
        },
    }
}

/// Decrypt the AES key with the RSA private key (PKCS#8 DER).
fn decrypt_aes_key(encrypted: &[u8], rsa_private_key: &[u8]) -> (r: Result<[u8; 16], SdpParseError>)
    ensures
        match spec_decrypted_key(encrypted@, rsa_private_key@) {
            Ok(k) => r matches Ok(a) && a@ == k,
            Err(ev) => r matches Err(e) && e@ == ev,
        },
{
    let private_key = match rsa_key_from_pkcs8_der(rsa_private_key) {
        Ok(k) => k,
        Err(t) => {
            let mut m = String::from_str("Invalid RSA key: ");
            m.append(t.as_str());
            return Err(SdpParseError::InvalidAttribute(m));
        },
    };
    let decrypted = rsa_pkcs1v15_decrypt(&private_key, encrypted);
    aes_key_from_decrypted(decrypted)
}

/// Whether an error is the one that decrypting the AES key `encrypted`
/// with the given private key gives.
pub open spec fn key_error(e: SdpErrorView, encrypted: Seq<u8>, der: Option<&[u8]>) -> bool {
    match der {
        Some(d) => spec_decrypted_key(encrypted, d@) == Err::<Seq<u8>, SdpErrorView>(e),
        None => false,
    }
}

/// Whether stream parameters carry an audio format, the encryption
/// parameters and the minimum latency, with an AES key exactly when the
/// stream is encrypted and a private key was given.
pub open spec fn stream_matches(
    p: StreamParameters,
    f: AudioFormat,
    enc: Option<(Seq<u8>, Seq<u8>)>,
    der: Option<&[u8]>,
    latency: Option<u32>,
) -> bool {
    &&& p.codec == f.0
    &&& p.sample_rate == f.1
    &&& p.bits_per_sample == f.2
    &&& p.channels == f.3
    &&& p.frames_per_packet == f.4
    &&& p.min_latency == latency
    &&& match enc {
        None => p.aes_key is None && p.aes_iv is None,
        Some((encrypted, iv)) => {
            &&& p.aes_iv matches Some(a) && a@ == iv
            &&& match der {
                None => p.aes_key is None,
                Some(d) => p.aes_key matches Some(k) && spec_decrypted_key(encrypted, d@) == Ok::<
                    Seq<u8>,
                    SdpErrorView,
                >(k@),
            }
        },
    }
}

/// Extract the stream parameters from a session description: those of its
/// first audio media, decrypting the AES key when a private key is given.
pub fn extract_stream_parameters(sdp: &SessionDescription, rsa_private_key: Option<&[u8]>) -> (r:
    Result<StreamParameters, SdpParseError>)
    ensures
        match first_audio(sdp.media@, 0) {
            None => r matches Err(e) && e@ == SdpErrorView::MissingField("audio media"@),
            Some(i) => {
                let m = sdp.media@[i];
                match audio_format(m) {
                    Err(fe) => r matches Err(e) && e@ == fe,
                    Ok(f) => match encryption_outcome(m) {
                        Err(ee) => r matches Err(e) && e@ == ee,
                        Ok(enc) => match r {
                            Ok(p) => stream_matches(p, f, enc, rsa_private_key, min_latency_of(m)),
                            Err(e) => enc matches Some(ek) && key_error(e@, ek.0, rsa_private_key),
                        },
                    },
                }
            },
        },
{
    let media = match sdp.audio_media() {
        Some(m) => m,
        None => return Err(SdpParseError::MissingField("audio media")),
    };
    let codec = match detect_codec(media) {
        Some(c) => c,
        None => return Err(SdpParseError::MissingField("rtpmap")),
    };
    let (sample_rate, bits_per_sample, channels, frames_per_packet) = match codec {
        AudioCodec::Alac => {
            let fmtp = match attr_value(media, "fmtp") {
                Some(f) => f,
                None => return Err(SdpParseError::MissingField("fmtp")),
            };
            let alac = match AlacParameters::parse(fmtp) {
                Ok(a) => a,
                Err(e) => return Err(e),
            };
            (alac.sample_rate, alac.bit_depth, alac.channels, alac.frames_per_packet)
        },
        _ => (44100u32, 16u8, 2u8, 352u32),
    };
    let encryption = match parse_encryption(media) {
        Ok(e) => e,
        Err(e) => return Err(e),
    };
    let (aes_key, aes_iv) = match encryption {
        Some(enc) => {
            let key = match rsa_private_key {
                Some(der) => match decrypt_aes_key(enc.encrypted_aes_key.as_slice(), der) {
                    Ok(k) => Some(k),
                    Err(e) => return Err(e),
                },
                None => None,
            };
            (key, Some(enc.aes_iv))
        },
        None => (None, None),
    };
    let min_latency = match attr_value(media, "min-latency") {
        Some(s) => match parse_u64(s) {
            Some(v) => if v <= 0xffff_ffff {
                Some(v as u32)
            } else {
                None
            },
            None => None,
        },
        None => None,
    };
    Ok(
        StreamParameters {
            codec,
            sample_rate,
            bits_per_sample,
            channels,
            frames_per_packet,
            aes_key,
            aes_iv,
            min_latency,
        },
    )
}

} // verus!
