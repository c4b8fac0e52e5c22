use airplay2::ntp::client::{offset_and_rtt, NtpDecodeError, NtpPacket, NTP_PACKET_SIZE};
use airplay2::rtp::timing::NtpTimestamp;

#[test]
fn test_ntp_packet_encode_decode() {
    let mut packet = NtpPacket::new_client_request();
    packet.stratum = 2;
    packet.poll = 4;
    packet.precision = -6;
    packet.root_delay = 1000;
    packet.root_dispersion = 2000;
    packet.reference_id = 12345;
    packet.reference_timestamp = NtpTimestamp { seconds: 1, fraction: 2 };
    packet.origin_timestamp = NtpTimestamp { seconds: 3, fraction: 4 };
    packet.receive_timestamp = NtpTimestamp { seconds: 5, fraction: 6 };

    let encoded = packet.encode();
    assert_eq!(encoded.len(), NTP_PACKET_SIZE);

    let decoded = NtpPacket::decode(&encoded).expect("Failed to decode NTP packet");
    assert_eq!(decoded.li_vn_mode, packet.li_vn_mode);
    assert_eq!(decoded.stratum, packet.stratum);
    assert_eq!(decoded.poll, packet.poll);
    assert_eq!(decoded.precision, packet.precision);
    assert_eq!(decoded.root_delay, packet.root_delay);
    assert_eq!(decoded.root_dispersion, packet.root_dispersion);
    assert_eq!(decoded.reference_id, packet.reference_id);
    assert_eq!(decoded.reference_timestamp.seconds, packet.reference_timestamp.seconds);
    assert_eq!(decoded.reference_timestamp.fraction, packet.reference_timestamp.fraction);
    assert_eq!(decoded.origin_timestamp.seconds, packet.origin_timestamp.seconds);
    assert_eq!(decoded.origin_timestamp.fraction, packet.origin_timestamp.fraction);
    assert_eq!(decoded.receive_timestamp.seconds, packet.receive_timestamp.seconds);
    assert_eq!(decoded.receive_timestamp.fraction, packet.receive_timestamp.fraction);
    assert_eq!(decoded.transmit_timestamp.seconds, packet.transmit_timestamp.seconds);
    assert_eq!(decoded.transmit_timestamp.fraction, packet.transmit_timestamp.fraction);
}

#[test]
fn ntp_packet_too_small_is_an_error() {
    assert!(NtpPacket::decode(&[0u8; 47]).is_err());
    assert_eq!(NtpPacket::decode(&[0u8; 47]).unwrap_err(), NtpDecodeError::PacketTooSmall);
    assert!(NtpPacket::decode(&[0u8; 48]).is_ok());
}

#[test]
fn ntp_client_request_header() {
    let p = NtpPacket::new_client_request();
    // Version 4, mode 3 (client).
    assert_eq!(p.li_vn_mode, 0x23);
    assert_eq!(p.encode()[0], 0x23);
}

#[test]
fn ntp_offset_and_round_trip() {
    // The server is 1 s ahead; each way takes 0.25 s; the server holds the
    // request for 0.5 s.
    let t1 = NtpTimestamp { seconds: 100, fraction: 0 };
    let t2 = NtpTimestamp { seconds: 101, fraction: 0x4000_0000 };
    let t3 = NtpTimestamp { seconds: 101, fraction: 0xC000_0000 };
    let t4 = NtpTimestamp { seconds: 101, fraction: 0 };
    let (offset, rtt) = offset_and_rtt(t1, t2, t3, t4);
    assert_eq!(offset, 1_000_000);
    assert_eq!(rtt, 500_000);
}

#[test]
fn ntp_client_request_at_stamps_transmit_only() {
    let t = NtpTimestamp { seconds: 3_900_000_000, fraction: 0x8000_0000 };
    let p = NtpPacket::client_request_at(t);
    assert_eq!(p.li_vn_mode, 0x23);
    assert_eq!(p.transmit_timestamp, t);
    assert_eq!(p.origin_timestamp, NtpTimestamp { seconds: 0, fraction: 0 });
    assert_eq!(p.receive_timestamp, NtpTimestamp { seconds: 0, fraction: 0 });
    assert_eq!(p.stratum, 0);
}
