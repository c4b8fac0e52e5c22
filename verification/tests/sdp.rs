use airplay2::receiver::session::AudioCodec;
use airplay2::sdp::raop::{
    aes_key_from_decrypted, detect_codec, encryption_params, extract_stream_parameters,
    parse_encryption, AlacParameters,
};
use airplay2::sdp::{MediaDescription, SdpAttributes, SdpParseError, SessionDescription};

fn media(kind: &str, attrs: &[(&str, Option<&str>)]) -> MediaDescription {
    let mut attributes = SdpAttributes::new();
    for (name, value) in attrs {
        attributes.insert(name, *value);
    }
    MediaDescription { media_type: kind.to_string(), attributes }
}

#[test]
fn alac_fmtp_with_payload_type() {
    let p = AlacParameters::parse("96 352 0 16 40 10 14 2 255 0 0 44100").unwrap();
    assert_eq!(p.frames_per_packet, 352);
    assert_eq!(p.compatible_version, 0);
    assert_eq!(p.bit_depth, 16);
    assert_eq!(p.pb, 40);
    assert_eq!(p.mb, 10);
    assert_eq!(p.kb, 14);
    assert_eq!(p.channels, 2);
    assert_eq!(p.max_run, 255);
    assert_eq!(p.max_frame_bytes, 0);
    assert_eq!(p.avg_bit_rate, 0);
    assert_eq!(p.sample_rate, 44100);
}

#[test]
fn alac_fmtp_without_payload_type() {
    let p = AlacParameters::parse("4096 0 24 40 10 14 6 255 0 0 48000").unwrap();
    assert_eq!(p.frames_per_packet, 4096);
    assert_eq!(p.bit_depth, 24);
    assert_eq!(p.channels, 6);
    assert_eq!(p.sample_rate, 48000);
}

#[test]
fn alac_fmtp_bad_words_take_defaults() {
    // A bit depth that does not fit a u8 and a word that is not a number.
    let p = AlacParameters::parse("96 352 0 300 40 10 14 x 255 0 0 44100").unwrap();
    assert_eq!(p.bit_depth, 16);
    assert_eq!(p.channels, 2);
}

#[test]
fn alac_fmtp_wrong_field_count() {
    match AlacParameters::parse("96 352 0") {
        Err(SdpParseError::InvalidAttribute(m)) => {
            assert_eq!(m, "ALAC fmtp needs 11 or 12 fields, got 3: 96 352 0")
        }
        other => panic!("unexpected {other:?}"),
    }
}

#[test]
fn codec_detection() {
    let m = media("audio", &[("rtpmap", Some("96 AppleLossless"))]);
    assert_eq!(detect_codec(&m), Some(AudioCodec::Alac));
    let m = media("audio", &[("rtpmap", Some("96 mpeg4-generic/44100/2"))]);
    assert_eq!(detect_codec(&m), Some(AudioCodec::AacLc));
    let m = media("audio", &[("rtpmap", Some("96 mpeg4-generic/44100/2 ELD"))]);
    assert_eq!(detect_codec(&m), Some(AudioCodec::AacEld));
    let m = media("audio", &[("rtpmap", Some("96 L16/44100/2"))]);
    assert_eq!(detect_codec(&m), Some(AudioCodec::Pcm));
    let m = media("audio", &[("rtpmap", Some("96 opus"))]);
    assert_eq!(detect_codec(&m), None);
    let m = media("audio", &[("rtpmap", None)]);
    assert_eq!(detect_codec(&m), None);
}

#[test]
fn encryption_absent_and_errors() {
    let m = media("audio", &[]);
    assert!(matches!(parse_encryption(&m), Ok(None)));

    let m = media("audio", &[("rsaaeskey", Some("AAAA"))]);
    assert!(matches!(parse_encryption(&m), Err(SdpParseError::MissingField("aesiv"))));

    let m = media("audio", &[("rsaaeskey", Some("!!"), ), ("aesiv", Some("AAAA"))]);
    match parse_encryption(&m) {
        Err(SdpParseError::InvalidAttribute(msg)) => assert_eq!(msg, "Invalid base64 in rsaaeskey"),
        other => panic!("unexpected {other:?}"),
    }

    let m = media("audio", &[("rsaaeskey", Some("AAAA")), ("aesiv", Some("AAAA"))]);
    match parse_encryption(&m) {
        Err(SdpParseError::InvalidAttribute(msg)) => assert_eq!(msg, "AES IV must be 16 bytes, got 3"),
        other => panic!("unexpected {other:?}"),
    }
}

#[test]
fn encryption_decodes_key_and_iv() {
    // "AAECAwQFBgcICQoLDA0ODw==" is the bytes 0..16.
    let m = media(
        "audio",
        &[("rsaaeskey", Some("  AQID  ")), ("aesiv", Some("AAECAwQFBgcICQoLDA0ODw=="))],
    );
    let p = parse_encryption(&m).unwrap().unwrap();
    assert_eq!(p.encrypted_aes_key, vec![1, 2, 3]);
    let expected: Vec<u8> = (0..16).collect();
    assert_eq!(&p.aes_iv[..], &expected[..]);
}

#[test]
fn iv_length_is_checked() {
    assert!(encryption_params(vec![1], vec![0; 16]).is_ok());
    assert!(encryption_params(vec![1], vec![0; 15]).is_err());
}

#[test]
fn aes_key_from_decryption_outcome() {
    let k = aes_key_from_decrypted(Ok((0..16).collect())).unwrap();
    assert_eq!(k[15], 15);
    match aes_key_from_decrypted(Ok(vec![0; 5])) {
        Err(SdpParseError::InvalidAttribute(m)) => {
            assert_eq!(m, "Decrypted AES key must be 16 bytes, got 5")
        }
        other => panic!("unexpected {other:?}"),
    }
    match aes_key_from_decrypted(Err("boom".to_string())) {
        Err(SdpParseError::InvalidAttribute(m)) => assert_eq!(m, "RSA decrypt failed: boom"),
        other => panic!("unexpected {other:?}"),
    }
}

#[test]
fn stream_parameters_from_alac_sdp() {
    let sdp = SessionDescription {
        media: vec![
            media("video", &[]),
            media(
                "audio",
                &[
                    ("rtpmap", Some("96 AppleLossless")),
                    ("fmtp", Some("96 352 0 16 40 10 14 2 255 0 0 48000")),
                    ("min-latency", Some("11025")),
                ],
            ),
        ],
    };
    let p = extract_stream_parameters(&sdp, None).unwrap();
    assert_eq!(p.codec, AudioCodec::Alac);
    assert_eq!(p.sample_rate, 48000);
    assert_eq!(p.bits_per_sample, 16);
    assert_eq!(p.channels, 2);
    assert_eq!(p.frames_per_packet, 352);
    assert_eq!(p.min_latency, Some(11025));
    assert!(p.aes_key.is_none());
    assert!(p.aes_iv.is_none());
}

#[test]
fn stream_parameters_errors() {
    let sdp = SessionDescription { media: vec![media("video", &[])] };
    assert!(matches!(
        extract_stream_parameters(&sdp, None),
        Err(SdpParseError::MissingField("audio media"))
    ));
    let sdp = SessionDescription { media: vec![media("audio", &[])] };
    assert!(matches!(
        extract_stream_parameters(&sdp, None),
        Err(SdpParseError::MissingField("rtpmap"))
    ));
    let sdp = SessionDescription {
        media: vec![media("audio", &[("rtpmap", Some("96 AppleLossless"))])],
    };
    assert!(matches!(
        extract_stream_parameters(&sdp, None),
        Err(SdpParseError::MissingField("fmtp"))
    ));
}

#[test]
fn stream_parameters_pcm_defaults_and_iv_without_key() {
    let sdp = SessionDescription {
        media: vec![media(
            "audio",
            &[
                ("rtpmap", Some("96 L16/44100/2")),
                ("rsaaeskey", Some("AQID")),
                ("aesiv", Some("AAECAwQFBgcICQoLDA0ODw==")),
                ("min-latency", Some("99999999999")),
            ],
        )],
    };
    let p = extract_stream_parameters(&sdp, None).unwrap();
    assert_eq!(p.codec, AudioCodec::Pcm);
    assert_eq!((p.sample_rate, p.bits_per_sample, p.channels, p.frames_per_packet), (44100, 16, 2, 352));
    assert!(p.aes_key.is_none());
    assert!(p.aes_iv.is_some());
    assert_eq!(p.min_latency, None);
}

#[test]
fn stream_parameters_invalid_rsa_key() {
    let sdp = SessionDescription {
        media: vec![media(
            "audio",
            &[
                ("rtpmap", Some("96 L16/44100/2")),
                ("rsaaeskey", Some("AQID")),
                ("aesiv", Some("AAECAwQFBgcICQoLDA0ODw==")),
            ],
        )],
    };
    match extract_stream_parameters(&sdp, Some(&[1, 2, 3][..])) {
        Err(SdpParseError::InvalidAttribute(m)) => assert!(m.starts_with("Invalid RSA key: ")),
        other => panic!("unexpected {other:?}"),
    }
}

#[test]
fn sdp_attributes_replace_and_flags() {
    let mut a = SdpAttributes::new();
    a.insert("recvonly", None);
    a.insert("fmtp", Some("1"));
    a.insert("fmtp", Some("2"));
    assert_eq!(a.get("fmtp"), Some(&Some("2".to_string())));
    assert_eq!(a.get("recvonly"), Some(&None));
    assert_eq!(a.get("absent"), None);
}
