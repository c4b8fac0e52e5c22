use airplay2::rtp::packet_buffer::{BufferedPacket, PacketBuffer, PacketLossDetector};
use airplay2::rtp::codec::{AudioPacketBuilder, RtpCodec, RtpCodecError};
use airplay2::rtp::control::{ControlPacket, TimeAnnouncePtp};
use airplay2::rtp::packet::{PayloadType, RtpDecodeError, RtpHeader, RtpPacket};
use airplay2::rtp::timing::{NtpTimestamp, TimingRequest, TimingResponse};

#[test]
fn packet_tests_test_header_encode_decode() {
    let header = RtpHeader::new_audio(100, 44100, 0x12345678, false);
    let encoded = header.encode();
    let decoded = RtpHeader::decode(&encoded).unwrap();
    assert_eq!(decoded.version, 2);
    assert_eq!(decoded.sequence, 100);
    assert_eq!(decoded.timestamp, 44100);
    assert_eq!(decoded.ssrc, 0x12345678);
    assert!(decoded.marker);
}

#[test]
fn packet_tests_test_packet_encode_decode() {
    let payload = vec![0x01, 0x02, 0x03, 0x04];
    let packet = RtpPacket::audio(1, 352, 0xAABBCCDD, payload.clone(), false);
    let encoded = packet.encode();
    let decoded = RtpPacket::decode(&encoded).unwrap();
    assert_eq!(decoded.header.sequence, 1);
    assert_eq!(decoded.payload, payload);
}

#[test]
fn packet_tests_test_payload_type_values() {
    assert_eq!(PayloadType::TimingRequest.as_byte(), 0x52);
    assert_eq!(PayloadType::AudioRealtime.as_byte(), 0x60);
}

#[test]
fn packet_tests_test_decode_invalid_version() {
    let mut buf = [0u8; 12];
    buf[0] = 0x00;
    let result = RtpHeader::decode(&buf);
    assert!(matches!(result, Err(RtpDecodeError::InvalidVersion(0))));
}

#[test]
fn packet_tests_test_audio_samples_iterator() {
    let payload = vec![0x00, 0x01, 0x02, 0x03, 0x04, 0x05, 0x06, 0x07];
    let packet = RtpPacket::audio(0, 0, 0, payload, false);
    let samples: Vec<(i16, i16)> = packet.audio_samples();
    assert_eq!(samples.len(), 2);
    assert_eq!(samples[0], (0x0100, 0x0302));
    assert_eq!(samples[1], (0x0504, 0x0706));
}

#[test]
fn packet_tests_test_packet_buffer_too_small() {
    let buf = [0u8; 5];
    let result = RtpHeader::decode(&buf);
    assert!(matches!(result, Err(RtpDecodeError::BufferTooSmall { .. })));
}

#[test]
fn tests_test_header_encode_decode() {
    let header = RtpHeader::new_audio(100, 44100, 0x12345678, false);
    let encoded = header.encode();
    let decoded = RtpHeader::decode(&encoded).unwrap();
    assert_eq!(decoded.version, 2);
    assert_eq!(decoded.sequence, 100);
    assert_eq!(decoded.timestamp, 44100);
    assert_eq!(decoded.ssrc, 0x12345678);
    assert!(decoded.marker);
}

#[test]
fn tests_test_packet_encode_decode() {
    let payload = vec![0x01, 0x02, 0x03, 0x04];
    let packet = RtpPacket::audio(1, 352, 0xAABBCCDD, payload.clone(), false);
    let encoded = packet.encode();
    let decoded = RtpPacket::decode(&encoded).unwrap();
    assert_eq!(decoded.header.sequence, 1);
    assert_eq!(decoded.payload, payload);
}

#[test]
fn tests_test_payload_type_values() {
    assert_eq!(PayloadType::TimingRequest.as_byte(), 0x52);
    assert_eq!(PayloadType::AudioRealtime.as_byte(), 0x60);
}

#[test]
fn tests_test_decode_invalid_version() {
    let mut buf = [0u8; 12];
    buf[0] = 0x00;
    let result = RtpHeader::decode(&buf);
    assert!(matches!(result, Err(RtpDecodeError::InvalidVersion(0))));
}

#[test]
fn tests_test_audio_samples_iterator() {
    let payload = vec![0x00, 0x01, 0x02, 0x03, 0x04, 0x05, 0x06, 0x07];
    let packet = RtpPacket::audio(0, 0, 0, payload, false);
    let samples: Vec<(i16, i16)> = packet.audio_samples();
    assert_eq!(samples.len(), 2);
    assert_eq!(samples[0], (0x0100, 0x0302));
    assert_eq!(samples[1], (0x0504, 0x0706));
}

#[test]
fn tests_test_packet_buffer_too_small() {
    let buf = [0u8; 5];
    let result = RtpHeader::decode(&buf);
    assert!(matches!(result, Err(RtpDecodeError::BufferTooSmall { .. })));
}

#[test]
fn test_decode_unknown_payload_type() {
    let mut buf = [0u8; 12];
    buf[0] = 0x80;
    buf[1] = 0xFF;
    let result = RtpHeader::decode(&buf);
    assert!(matches!(result, Err(RtpDecodeError::UnknownPayloadType(0x7F))));
}

#[test]
fn test_decode_truncated_packet() {
    let buf = [0u8; 11];
    let result = RtpHeader::decode(&buf);
    assert!(matches!(result, Err(RtpDecodeError::BufferTooSmall { .. })));
}

#[test]
fn packet_test_header_encode_decode() {
    let header = RtpHeader::new_audio(100, 44100, 0x1234_5678, false);
    let encoded = header.encode();
    let decoded = RtpHeader::decode(&encoded).unwrap();
    assert_eq!(decoded.version, 2);
    assert_eq!(decoded.sequence, 100);
    assert_eq!(decoded.timestamp, 44100);
    assert_eq!(decoded.ssrc, 0x1234_5678);
    assert!(decoded.marker);
}

#[test]
fn packet_test_packet_encode_decode() {
    let payload = vec![0x01, 0x02, 0x03, 0x04];
    let header = RtpHeader::new_audio(101, 44100, 0x1234_5678, false);
    let packet = RtpPacket::new(header, payload.clone());
    let encoded = packet.encode();
    let decoded = RtpPacket::decode(&encoded).unwrap();
    assert_eq!(decoded.header.sequence, 101);
    assert_eq!(decoded.payload, payload);
}

#[test]
fn test_payload_type_parsing() {
    assert_eq!(PayloadType::from_byte(0x60), Some(PayloadType::AudioRealtime));
    assert_eq!(PayloadType::from_byte(0xE0), Some(PayloadType::AudioRealtime));
    assert_eq!(PayloadType::from_byte(0x56), Some(PayloadType::RetransmitResponse));
    assert_eq!(PayloadType::from_byte(0xFF), None);
}

#[test]
fn test_buffer_too_small() {
    let buf = [0u8; 5];
    let result = RtpHeader::decode(&buf);
    assert!(matches!(result, Err(RtpDecodeError::BufferTooSmall { .. })));
}

#[test]
fn test_invalid_version() {
    let buf = [0x40, 0x00, 0x00, 0x00, 0x00, 0x00, 0x00, 0x00, 0x00, 0x00, 0x00, 0x00];
    let result = RtpHeader::decode(&buf);
    assert!(matches!(result, Err(RtpDecodeError::InvalidVersion(1))));
}

#[test]
fn packet_test_audio_samples_iterator() {
    let payload = vec![0x02, 0x01, 0x04, 0x03];
    let packet = RtpPacket::new(RtpHeader::new_audio(0, 0, 0, false), payload);
    let samples: Vec<(i16, i16)> = packet.audio_samples();
    assert_eq!(samples.len(), 1);
    assert_eq!(samples[0], (258, 772));
}

#[test]
fn test_header_flags() {
    let mut header = RtpHeader::new_audio(100, 44100, 0x1234_5678, false);
    header.padding = true;
    header.extension = true;
    header.marker = false;
    let encoded = header.encode();
    let decoded = RtpHeader::decode(&encoded).unwrap();
    assert!(decoded.padding);
    assert!(decoded.extension);
    assert!(!decoded.marker);
    assert_eq!(decoded.version, 2);
}

#[test]
fn test_csrc_count() {
    let mut header = RtpHeader::new_audio(100, 44100, 0x1234_5678, false);
    header.csrc_count = 3;
    let encoded = header.encode();
    let decoded = RtpHeader::decode(&encoded).unwrap();
    assert_eq!(decoded.csrc_count, 3);
    assert_eq!(encoded[0] & 0x0F, 3);
}

#[test]
fn rtp_header_wire_bytes() {
    let header = RtpHeader::new_audio(0x0102, 0x0304_0506, 0x0708_090A, true);
    assert_eq!(
        header.encode().to_vec(),
        vec![0x80, 0xE7, 0x01, 0x02, 0x03, 0x04, 0x05, 0x06, 0x07, 0x08, 0x09, 0x0A]
    );
}

// --- timing ---

#[test]
fn test_ntp_timestamp_encode_decode() {
    let ts = NtpTimestamp { seconds: 1234567890, fraction: 0x80000000 };
    let encoded = ts.encode();
    let decoded = NtpTimestamp::decode(&encoded);
    assert_eq!(decoded.seconds, ts.seconds);
    assert_eq!(decoded.fraction, ts.fraction);
}

#[test]
fn test_ntp_timestamp_now() {
    let ts = NtpTimestamp::now();
    assert!(ts.seconds > 3786825600);
}

#[test]
fn test_timing_request_encode() {
    let request = TimingRequest::new();
    let encoded = request.encode(1, 0x12345678);
    assert_eq!(encoded[0], 0x80);
    assert_eq!(encoded[1], 0xD2);
    assert_eq!(encoded.len(), 40);
}

#[test]
fn test_rtt_calculation() {
    let t1 = NtpTimestamp { seconds: 100, fraction: 0 };
    let t2 = NtpTimestamp { seconds: 100, fraction: 0x028F5C28 };
    let t3 = NtpTimestamp { seconds: 100, fraction: 0x051EB851 };
    let t4 = NtpTimestamp { seconds: 100, fraction: 0x0A3D70A3 };
    let response = TimingResponse { reference_time: t1, receive_time: t2, send_time: t3 };
    let rtt = response.calculate_rtt(t4);
    assert!(rtt > 25000 && rtt < 35000, "RTT was {}", rtt);
}

#[test]
fn test_offset_calculation() {
    let t1 = NtpTimestamp { seconds: 100, fraction: 0 };
    let t2 = NtpTimestamp { seconds: 105, fraction: 0x028F5C28 };
    let t3 = NtpTimestamp { seconds: 105, fraction: 0x051EB851 };
    let t4 = NtpTimestamp { seconds: 100, fraction: 0x0A3D70A3 };
    let response = TimingResponse { reference_time: t1, receive_time: t2, send_time: t3 };
    let offset = response.calculate_offset(t4);
    let expected = 4_995_000;
    let tolerance = 5_000;
    assert!((offset - expected).abs() < tolerance, "Offset was {}", offset);
}

#[test]
fn ntp_timestamp_micros() {
    let ts = NtpTimestamp { seconds: 2, fraction: 0x8000_0000 };
    assert_eq!(ts.to_micros(), 2_500_000);
}

// --- control ---

#[test]
fn test_time_announce_ptp_encode() {
    let packet = TimeAnnouncePtp {
        rtp_timestamp: 0x11223344,
        ptp_timestamp: 0x5566778899AABBCC,
        next_rtp_timestamp: 0xDDEEFF00,
        clock_identity: 0x123456789ABCDEF0,
    };
    let encoded = packet.encode();
    assert_eq!(encoded.len(), 28);
    assert_eq!(encoded[0], 0x80);
    assert_eq!(encoded[1], 0xD7);
    assert_eq!(encoded[2], 0x00);
    assert_eq!(encoded[3], 0x06);
    assert_eq!(&encoded[4..8], &[0x11, 0x22, 0x33, 0x44]);
    assert_eq!(&encoded[8..16], &[0x55, 0x66, 0x77, 0x88, 0x99, 0xAA, 0xBB, 0xCC]);
    assert_eq!(&encoded[16..20], &[0xDD, 0xEE, 0xFF, 0x00]);
    assert_eq!(&encoded[20..28], &[0x12, 0x34, 0x56, 0x78, 0x9A, 0xBC, 0xDE, 0xF0]);
}

#[test]
fn test_time_announce_ptp_decode() {
    let data = vec![
        0x80, 0xD7, 0x00, 0x06, 0x11, 0x22, 0x33, 0x44, 0x55, 0x66, 0x77, 0x88, 0x99, 0xAA,
        0xBB, 0xCC, 0xDD, 0xEE, 0xFF, 0x00, 0x12, 0x34, 0x56, 0x78, 0x9A, 0xBC, 0xDE, 0xF0,
    ];
    let decoded = ControlPacket::decode(&data).unwrap();
    if let ControlPacket::TimeAnnouncePtp(packet) = decoded {
        assert_eq!(packet.rtp_timestamp, 0x11223344);
        assert_eq!(packet.ptp_timestamp, 0x5566778899AABBCC);
        assert_eq!(packet.next_rtp_timestamp, 0xDDEEFF00);
        assert_eq!(packet.clock_identity, 0x123456789ABCDEF0);
    } else {
        panic!("Expected TimeAnnouncePtp packet");
    }
}

#[test]
fn tests_test_codec_sequence_increment() {
    let mut codec = RtpCodec::new(0x12345678);
    let frame_size = RtpCodec::FRAMES_PER_PACKET as usize * 4;
    let audio = vec![0u8; frame_size];
    let _ = codec.encode_audio(&audio).unwrap();
    assert_eq!(codec.sequence(), 1);
    let _ = codec.encode_audio(&audio).unwrap();
    assert_eq!(codec.sequence(), 2);
}

#[test]
fn tests_test_codec_timestamp_increment() {
    let mut codec = RtpCodec::new(0x12345678);
    let frame_size = RtpCodec::FRAMES_PER_PACKET as usize * 4;
    let audio = vec![0u8; frame_size];
    let _ = codec.encode_audio(&audio).unwrap();
    assert_eq!(codec.timestamp(), 352);
    let _ = codec.encode_audio(&audio).unwrap();
    assert_eq!(codec.timestamp(), 704);
}

#[test]
fn tests_test_codec_invalid_audio_size() {
    let mut codec = RtpCodec::new(0);
    let audio = vec![0u8; 100];
    let result = codec.encode_audio(&audio);
    assert!(matches!(result, Err(RtpCodecError::InvalidAudioSize(100))));
}

#[test]
fn tests_test_codec_encode_multiple_frames() {
    let mut codec = RtpCodec::new(0);
    let frame_size = RtpCodec::FRAMES_PER_PACKET as usize * 4;
    let audio = vec![0u8; frame_size * 3];
    let packets = codec.encode_audio_frames(&audio).unwrap();
    assert_eq!(packets.len(), 3);
    assert_eq!(codec.sequence(), 3);
}

#[test]
fn tests_test_codec_with_encryption() {
    let mut codec = RtpCodec::new(0);
    let key = [0x42u8; 16];
    let iv = [0x00u8; 16];
    codec.set_encryption(key, iv);
    let frame_size = RtpCodec::FRAMES_PER_PACKET as usize * 4;
    let audio = vec![0xAA; frame_size];
    let packet = codec.encode_audio(&audio).unwrap();
    let decoded = RtpPacket::decode(&packet).unwrap();
    assert_ne!(decoded.payload, audio);
}

#[test]
fn tests_test_codec_encrypt_decrypt_roundtrip() {
    let key = [0x42u8; 16];
    let iv = [0x00u8; 16];
    let mut encoder = RtpCodec::new(0x12345678);
    encoder.set_encryption(key, iv);
    let frame_size = RtpCodec::FRAMES_PER_PACKET as usize * 4;
    let original = vec![0xAA; frame_size];
    let packet = encoder.encode_audio(&original).unwrap();
    let mut decoder = RtpCodec::new(0);
    decoder.set_encryption(key, iv);
    let decoded = decoder.decode_audio(&packet).unwrap();
    assert_eq!(decoded.payload, original);
}

#[test]
fn tests_test_packet_builder() {
    let builder = AudioPacketBuilder::new(0x1234);
    let packets = builder.add_audio(&vec![0u8; 352 * 4]).unwrap().build();
    assert_eq!(packets.len(), 1);
}

#[test]
fn codec_test_codec_sequence_increment() {
    let mut codec = RtpCodec::new(0x12345678);
    let frame_size = RtpCodec::FRAMES_PER_PACKET as usize * 4;
    let audio = vec![0u8; frame_size];
    let _ = codec.encode_audio(&audio).unwrap();
    assert_eq!(codec.sequence(), 1);
    let _ = codec.encode_audio(&audio).unwrap();
    assert_eq!(codec.sequence(), 2);
}

#[test]
fn codec_test_codec_timestamp_increment() {
    let mut codec = RtpCodec::new(0x12345678);
    let frame_size = RtpCodec::FRAMES_PER_PACKET as usize * 4;
    let audio = vec![0u8; frame_size];
    let _ = codec.encode_audio(&audio).unwrap();
    assert_eq!(codec.timestamp(), 352);
    let _ = codec.encode_audio(&audio).unwrap();
    assert_eq!(codec.timestamp(), 704);
}

#[test]
fn codec_test_codec_invalid_audio_size() {
    let mut codec = RtpCodec::new(0);
    let audio = vec![0u8; 100];
    let result = codec.encode_audio(&audio);
    assert!(matches!(result, Err(RtpCodecError::InvalidAudioSize(100))));
}

#[test]
fn codec_test_codec_encode_multiple_frames() {
    let mut codec = RtpCodec::new(0);
    let frame_size = RtpCodec::FRAMES_PER_PACKET as usize * 4;
    let audio = vec![0u8; frame_size * 3];
    let packets = codec.encode_audio_frames(&audio).unwrap();
    assert_eq!(packets.len(), 3);
    assert_eq!(codec.sequence(), 3);
}

#[test]
fn codec_test_codec_with_encryption() {
    let mut codec = RtpCodec::new(0);
    let key = [0x42u8; 16];
    let iv = [0x00u8; 16];
    codec.set_encryption(key, iv);
    let frame_size = RtpCodec::FRAMES_PER_PACKET as usize * 4;
    let audio = vec![0xAA; frame_size];
    let packet = codec.encode_audio(&audio).unwrap();
    let decoded = RtpPacket::decode(&packet).unwrap();
    assert_ne!(decoded.payload, audio);
}

#[test]
fn codec_test_codec_encrypt_decrypt_roundtrip() {
    let key = [0x42u8; 16];
    let iv = [0x00u8; 16];
    let mut encoder = RtpCodec::new(0x12345678);
    encoder.set_encryption(key, iv);
    let frame_size = RtpCodec::FRAMES_PER_PACKET as usize * 4;
    let original = vec![0xAA; frame_size];
    let packet = encoder.encode_audio(&original).unwrap();
    let mut decoder = RtpCodec::new(0);
    decoder.set_encryption(key, iv);
    let decoded = decoder.decode_audio(&packet).unwrap();
    assert_eq!(decoded.payload, original);
}

#[test]
fn codec_test_packet_builder() {
    let builder = AudioPacketBuilder::new(0x1234);
    let packets = builder.add_audio(&vec![0u8; 352 * 4]).unwrap().build();
    assert_eq!(packets.len(), 1);
}

#[test]
fn test_codec_chacha_encryption() {
    let mut codec = RtpCodec::new(0x1234_5678);
    let key = [0x42u8; 32];
    codec.set_chacha_encryption(key);
    let frame_size = RtpCodec::FRAMES_PER_PACKET as usize * 4;
    let audio = vec![0xAA; frame_size];
    let packet = codec.encode_audio(&audio).unwrap();
    let decoded = RtpPacket::decode(&packet).unwrap();
    assert_eq!(packet.len(), 12 + frame_size + 16 + 8);
    assert_ne!(decoded.payload, audio);
}

#[test]
fn test_codec_chacha_roundtrip() {
    let key = [0x42u8; 32];
    let mut encoder = RtpCodec::new(0x1234_5678);
    encoder.set_chacha_encryption(key);
    let mut decoder = RtpCodec::new(0);
    decoder.set_chacha_encryption(key);
    let frame_size = RtpCodec::FRAMES_PER_PACKET as usize * 4;
    let original = vec![0xAA; frame_size];
    let packet = encoder.encode_audio(&original).unwrap();
    let decoded_packet = decoder.decode_audio(&packet).unwrap();
    assert_eq!(decoded_packet.payload, original);
}

#[test]
fn test_chacha_roundtrip() {
    let key = [0x42u8; 32];
    let mut encoder = RtpCodec::new(0x1234_5678);
    encoder.set_chacha_encryption(key);
    let mut decoder = RtpCodec::new(0);
    decoder.set_chacha_encryption(key);
    let frame_size = RtpCodec::FRAMES_PER_PACKET as usize * 4;
    let audio = vec![0xAAu8; frame_size];
    let packet = encoder.encode_audio(&audio).unwrap();
    let decoded_packet = decoder.decode_audio(&packet).unwrap();
    assert_eq!(decoded_packet.payload, audio);
}

#[test]
fn test_chacha_nonce_increment() {
    let key = [0x42u8; 32];
    let mut encoder = RtpCodec::new(0x1234_5678);
    encoder.set_chacha_encryption(key);
    let frame_size = RtpCodec::FRAMES_PER_PACKET as usize * 4;
    let audio = vec![0u8; frame_size];
    let packet1 = encoder.encode_audio(&audio).unwrap();
    let packet2 = encoder.encode_audio(&audio).unwrap();
    let nonce1 = &packet1[packet1.len() - 8..];
    let nonce2 = &packet2[packet2.len() - 8..];
    assert_eq!(nonce1, &[0, 0, 0, 0, 0, 0, 0, 0]);
    assert_eq!(nonce2, &[1, 0, 0, 0, 0, 0, 0, 0]);
}

#[test]
fn test_chacha_tag_validation_failure() {
    let key = [0x42u8; 32];
    let mut encoder = RtpCodec::new(0x1234_5678);
    encoder.set_chacha_encryption(key);
    let mut decoder = RtpCodec::new(0);
    decoder.set_chacha_encryption(key);
    let frame_size = RtpCodec::FRAMES_PER_PACKET as usize * 4;
    let audio = vec![0u8; frame_size];
    let mut packet = encoder.encode_audio(&audio).unwrap();
    let tag_idx = packet.len() - 8 - 16;
    packet[tag_idx] ^= 0xFF;
    let result = decoder.decode_audio(&packet);
    assert!(result.is_err());
}

#[test]
fn test_chacha_aad_validation_failure() {
    let key = [0x42u8; 32];
    let mut encoder = RtpCodec::new(0x1234_5678);
    encoder.set_chacha_encryption(key);
    let mut decoder = RtpCodec::new(0);
    decoder.set_chacha_encryption(key);
    let frame_size = RtpCodec::FRAMES_PER_PACKET as usize * 4;
    let audio = vec![0u8; frame_size];
    let mut packet = encoder.encode_audio(&audio).unwrap();
    packet[4] ^= 0xFF;
    let result = decoder.decode_audio(&packet);
    assert!(result.is_err());
}

#[test]
fn test_chacha_packet_structure() {
    let key = [0x42u8; 32];
    let mut encoder = RtpCodec::new(0x1234_5678);
    encoder.set_chacha_encryption(key);
    let frame_size = RtpCodec::FRAMES_PER_PACKET as usize * 4;
    let audio = vec![0u8; frame_size];
    let packet = encoder.encode_audio(&audio).unwrap();
    let expected_len = 12 + audio.len() + 16 + 8;
    assert_eq!(packet.len(), expected_len);
}

#[test]
fn codec_unencrypted_payload_is_verbatim() {
    let mut codec = RtpCodec::new(7);
    let audio: Vec<u8> = (0..1408u32).map(|i| (i % 251) as u8).collect();
    let packet = codec.encode_audio(&audio).unwrap();
    assert_eq!(&packet[12..], &audio[..]);
    let decoded = codec.decode_audio(&packet).unwrap();
    assert_eq!(decoded.payload, audio);
}

#[test]
fn codec_frames_pad_the_last_packet() {
    let mut codec = RtpCodec::new(0);
    let packets = codec.encode_audio_frames(&[1u8; 1500]).unwrap();
    assert_eq!(packets.len(), 2);
    assert_eq!(packets[1].len(), 12 + 1408);
    assert!(packets[1][12 + 92..].iter().all(|&b| b == 0));
    assert_eq!(codec.timestamp(), 704);
}

#[test]
fn codec_reset_restarts_counters() {
    let mut codec = RtpCodec::new(0);
    let _ = codec.encode_audio(&[0u8; 1408]).unwrap();
    codec.reset();
    assert_eq!(codec.sequence(), 0);
    assert_eq!(codec.timestamp(), 0);
}

// --- retransmission buffer and loss detection ---


#[test]
fn test_packet_buffer_new() {
    let buffer = PacketBuffer::new(10);
    assert!(buffer.is_empty());
    assert_eq!(buffer.len(), 0);
    assert_eq!(buffer.sequence_range(), None);
}

#[test]
fn test_packet_buffer_push_and_get() {
    let mut buffer = PacketBuffer::new(5);

    let packet = BufferedPacket {
        sequence: 100,
        timestamp: 12345,
        data: vec![1, 2, 3],
    };

    buffer.push(packet);

    assert!(!buffer.is_empty());
    assert_eq!(buffer.len(), 1);

    let retrieved = buffer.get(100).unwrap();
    assert_eq!(retrieved.sequence, 100);
    assert_eq!(retrieved.data, vec![1, 2, 3]);

    assert!(buffer.get(99).is_none());
}

#[test]
fn test_packet_buffer_overflow() {
    let mut buffer = PacketBuffer::new(3);

    for i in 0..5 {
        buffer.push(BufferedPacket {
            sequence: i,
            timestamp: u32::from(i),
            data: Vec::new(),
        });
    }

    assert_eq!(buffer.len(), 3);
    assert!(buffer.get(0).is_none());
    assert!(buffer.get(1).is_none());
    assert!(buffer.get(2).is_some());
    assert!(buffer.get(4).is_some());
}

#[test]
fn test_packet_buffer_get_range() {
    let mut buffer = PacketBuffer::new(10);

    for i in 100..105 {
        buffer.push(BufferedPacket {
            sequence: i,
            timestamp: u32::from(i),
            data: Vec::new(),
        });
    }

    let range = buffer.get_range(101, 3);
    assert_eq!(range.len(), 3);
    assert_eq!(range[0].sequence, 101);
    assert_eq!(range[2].sequence, 103);

    let range = buffer.get_range(103, 5);
    assert_eq!(range.len(), 2);
    assert_eq!(range[0].sequence, 103);
    assert_eq!(range[1].sequence, 104);
}

#[test]
fn test_packet_buffer_get_range_wrapping() {
    let mut buffer = PacketBuffer::new(10);

    let seqs = [65534, 65535, 0, 1];
    for &seq in &seqs {
        buffer.push(BufferedPacket {
            sequence: seq,
            timestamp: u32::from(seq),
            data: vec![],
        });
    }

    let range = buffer.get_range(65535, 2);

    assert_eq!(range.len(), 2, "Should return 2 packets for wrapping range");
    assert_eq!(range[0].sequence, 65535);
    assert_eq!(range[1].sequence, 0);
}

#[test]
fn test_packet_buffer_clear() {
    let mut buffer = PacketBuffer::new(5);
    buffer.push(BufferedPacket {
        sequence: 1,
        timestamp: 0,
        data: Vec::new(),
    });
    buffer.clear();
    assert!(buffer.is_empty());
}

#[test]
fn test_sequence_range() {
    let mut buffer = PacketBuffer::new(5);
    assert_eq!(buffer.sequence_range(), None);

    buffer.push(BufferedPacket {
        sequence: 10,
        timestamp: 0,
        data: Vec::new(),
    });
    assert_eq!(buffer.sequence_range(), Some((10, 10)));

    buffer.push(BufferedPacket {
        sequence: 11,
        timestamp: 0,
        data: Vec::new(),
    });
    assert_eq!(buffer.sequence_range(), Some((10, 11)));
}

#[test]
fn test_loss_detector_sequential() {
    let mut detector = PacketLossDetector::new();

    let missing = detector.process(100);
    assert!(missing.is_empty());

    let missing = detector.process(101);
    assert!(missing.is_empty());

    let missing = detector.process(102);
    assert!(missing.is_empty());
}

#[test]
fn test_loss_detector_gap() {
    let mut detector = PacketLossDetector::new();

    detector.process(100);

    let missing = detector.process(102);
    assert_eq!(missing, vec![101]);

    let missing = detector.process(105);
    assert_eq!(missing, vec![103, 104]);
}

#[test]
fn test_loss_detector_wrapping() {
    let mut detector = PacketLossDetector::new();

    detector.process(65534);
    detector.process(65535);

    let missing = detector.process(0);
    assert!(missing.is_empty());

    let mut detector = PacketLossDetector::new();
    detector.process(65535);
    let missing = detector.process(1);
    assert_eq!(missing, vec![0]);
}

#[test]
fn test_loss_detector_reorder() {
    let mut detector = PacketLossDetector::new();

    detector.process(100);

    let missing = detector.process(99);
    assert!(missing.is_empty());

    let missing = detector.process(101);
    assert!(missing.is_empty());
}

#[test]
fn test_packet_buffer_out_of_order() {
    let mut buffer = PacketBuffer::new(10);
    buffer.push(BufferedPacket {
        sequence: 10,
        timestamp: 0,
        data: Vec::new(),
    });
    buffer.push(BufferedPacket {
        sequence: 8,
        timestamp: 0,
        data: Vec::new(),
    });
    buffer.push(BufferedPacket {
        sequence: 9,
        timestamp: 0,
        data: Vec::new(),
    });

    let mut iter = buffer.get_range(8, 3).into_iter();

    let p1 = iter.next().expect("Expected packet 8");
    assert_eq!(p1.sequence, 8);

    let p2 = iter.next().expect("Expected packet 9");
    assert_eq!(p2.sequence, 9);

    let p3 = iter.next().expect("Expected packet 10");
    assert_eq!(p3.sequence, 10);
}

#[test]
fn test_packet_buffer_wrapping_out_of_order() {
    let mut buffer = PacketBuffer::new(10);
    buffer.push(BufferedPacket {
        sequence: 65535,
        timestamp: 0,
        data: Vec::new(),
    });
    buffer.push(BufferedPacket {
        sequence: 1,
        timestamp: 0,
        data: Vec::new(),
    });
    buffer.push(BufferedPacket {
        sequence: 0,
        timestamp: 0,
        data: Vec::new(),
    });

    let mut iter = buffer.get_range(65535, 3).into_iter();

    let p1 = iter.next().expect("Expected packet 65535");
    assert_eq!(p1.sequence, 65535);

    let p2 = iter.next().expect("Expected packet 0");
    assert_eq!(p2.sequence, 0);

    let p3 = iter.next().expect("Expected packet 1");
    assert_eq!(p3.sequence, 1);
}

#[test]
fn test_packet_buffer_gap_handling() {
    let mut buffer = PacketBuffer::new(10);
    buffer.push(BufferedPacket {
        sequence: 10,
        timestamp: 0,
        data: Vec::new(),
    });
    buffer.push(BufferedPacket {
        sequence: 12,
        timestamp: 0,
        data: Vec::new(),
    });

    let mut iter = buffer.get_range(10, 3).into_iter();

    let p1 = iter.next().expect("Expected packet 10");
    assert_eq!(p1.sequence, 10);

    let p2 = iter.next().expect("Expected packet 12");
    assert_eq!(p2.sequence, 12);

    assert!(iter.next().is_none());
}

#[test]
fn test_packet_loss_detector_large_jump() {
    let mut detector = PacketLossDetector::new();
    detector.process(100);

    let missing = detector.process(301);

    assert!(missing.is_empty());

    let missing = detector.process(303);
    assert_eq!(missing, vec![302]);
}

#[test]
fn test_packet_loss_detector_exact_threshold() {
    let mut detector = PacketLossDetector::new();
    detector.process(100);

    let missing = detector.process(200);
    assert_eq!(missing.len(), 99);
    assert_eq!(missing[0], 101);
    assert_eq!(missing[98], 199);
}

#[test]
fn test_packet_loss_detector_boundary_threshold() {
    let mut detector = PacketLossDetector::new();
    detector.process(100);

    let missing = detector.process(201);
    assert!(missing.is_empty());
}

#[test]
fn packet_buffer_zero_capacity_and_duplicates() {
    let mut buffer = PacketBuffer::new(0);
    buffer.push(BufferedPacket { sequence: 1, timestamp: 0, data: vec![9] });
    assert!(buffer.is_empty());

    let mut buffer = PacketBuffer::new(4);
    buffer.push(BufferedPacket { sequence: 7, timestamp: 1, data: vec![1] });
    buffer.push(BufferedPacket { sequence: 7, timestamp: 2, data: vec![2] });
    assert_eq!(buffer.get(7).unwrap().timestamp, 1);
    assert_eq!(buffer.get_range(7, 1).len(), 1);
    assert_eq!(buffer.sequence_range(), Some((7, 7)));
}

#[test]
fn loss_detector_gap_across_wrap() {
    let mut detector = PacketLossDetector::new();
    detector.process(65533);
    assert_eq!(detector.process(2), vec![65534, 65535, 0, 1]);
    assert!(detector.process(3).is_empty());
}

#[test]
fn rtp_chacha_packet_layout() {
    let key = [0x42u8; 32];
    let mut encoder = RtpCodec::new(0x1234_5678);
    encoder.set_chacha_encryption(key);
    let audio = vec![7u8; 1408];
    let packet = encoder.encode_audio(&audio).unwrap();
    assert_eq!(packet.len(), 12 + 1408 + 16 + 8);
    assert_eq!(&packet[1436..1444], &[0, 0, 0, 0, 0, 0, 0, 0]);
}
