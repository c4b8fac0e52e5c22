use airplay2::ptp::addr::{IpAddress, PeerAddr};
use airplay2::ptp::handler::{PtpHandlerConfig, PtpRole, PTP_EVENT_PORT, PTP_GENERAL_PORT};
use airplay2::ptp::message::{PtpMessage, PtpMessageBody, PtpMessageType, PtpPortIdentity};
use airplay2::ptp::node::{
    client_node_config, delay_req_timeout, EffectiveRole, PtpNodeConfig, PtpNodeCore,
};
use airplay2::ptp::timestamp::PtpTimestamp;
use std::time::Duration;

fn make_node(priority1: u8, clock_id: u64) -> PtpNodeCore {
    PtpNodeCore::new(client_node_config(clock_id, priority1), false)
}

fn addr(last: u8, port: u16) -> PeerAddr {
    PeerAddr::new(IpAddress::V4(0xC0A8_0100 | last as u32), port)
}

#[test]
fn test_port_constants() {
    assert_eq!(PTP_EVENT_PORT, 319);
    assert_eq!(PTP_GENERAL_PORT, 320);
}

#[test]
fn test_handler_config_defaults() {
    let config = PtpHandlerConfig::default();
    assert_eq!(config.clock_id, 0);
    assert_eq!(config.role, PtpRole::Slave);
    assert_eq!(config.sync_interval, Duration::from_secs(1));
    assert_eq!(config.delay_req_interval, Duration::from_secs(1));
    assert_eq!(config.recv_buf_size, 256);
    assert!(!config.use_airplay_format);
}

#[test]
fn test_node_config_defaults() {
    let config = PtpNodeConfig::default();
    assert_eq!(config.clock_id, 0);
    assert_eq!(config.priority1, 128);
    assert_eq!(config.priority2, 128);
    assert_eq!(config.sync_interval, Duration::from_secs(1));
    assert_eq!(config.delay_req_interval, Duration::from_secs(1));
    assert_eq!(config.announce_interval, Duration::from_secs(2));
    assert!(!config.use_airplay_format);
}

#[test]
fn node_test_delay_req_timeout_constant_is_one_second() {
    assert_eq!(delay_req_timeout(), Duration::from_millis(1000), "DELAY_REQ_TIMEOUT must be 1 second");
}

#[test]
fn tests_unit_test_delay_req_timeout_constant_is_one_second() {
    assert_eq!(delay_req_timeout(), Duration::from_secs(1), "DELAY_REQ_TIMEOUT must be 1 second");
}

#[test]
fn test_compare_priority_remote_wins_lower_p1() {
    let node = make_node(255, 0xAAAA);
    assert!(node.compare_priority(128, 128, 0xBBBB));
}

#[test]
fn test_compare_priority_we_win_with_lower_p1() {
    let node = make_node(64, 0xAAAA);
    assert!(!node.compare_priority(128, 128, 0xBBBB));
}

#[test]
fn test_compare_priority_equal_p1_remote_wins_lower_p2() {
    let node = make_node(128, 0xAAAA);
    assert!(node.compare_priority(128, 64, 0xBBBB));
}

#[test]
fn test_compare_priority_equal_p1_we_win_higher_remote_p2() {
    let node = make_node(128, 0xAAAA);
    assert!(!node.compare_priority(128, 200, 0xBBBB));
}

#[test]
fn test_compare_priority_tiebreak_on_lower_clock_id() {
    let node = make_node(128, 0xAAAA);
    assert!(node.compare_priority(128, 128, 0x0001));
}

#[test]
fn test_compare_priority_tiebreak_on_higher_clock_id_we_win() {
    let node = make_node(128, 0xAAAA);
    assert!(!node.compare_priority(128, 128, 0xFFFF));
}

#[test]
fn test_compare_priority_identical_parameters_is_false() {
    let node = make_node(128, 0xAAAA);
    assert!(!node.compare_priority(128, 128, 0xAAAA));
}

#[test]
fn test_process_announce_switches_to_slave_when_remote_better() {
    let mut node = make_node(255, 0xAAAA);
    assert_eq!(node.role(), EffectiveRole::Master);
    node.process_announce(0xBBBB_CCCC_DDDD_EEEE, 128, 128, addr(100, 320), 1_000);
    assert_eq!(node.role(), EffectiveRole::Slave);
    assert!(node.remote_master().is_some());
}

#[test]
fn test_process_announce_stays_master_when_remote_worse() {
    let mut node = make_node(64, 0xAAAA);
    assert_eq!(node.role(), EffectiveRole::Master);
    node.process_announce(0xBBBB_CCCC_DDDD_EEEE, 128, 128, addr(100, 320), 1_000);
    assert_eq!(node.role(), EffectiveRole::Master);
    assert!(node.remote_master().is_none());
}

#[test]
fn test_process_announce_ignores_own_clock_id() {
    let our_clock_id = 0xAAAA_BBBB_CCCC_DDDD;
    let mut node = make_node(255, our_clock_id);
    node.process_announce(our_clock_id, 1, 1, addr(100, 320), 1_000);
    assert_eq!(node.role(), EffectiveRole::Master);
    assert!(node.remote_master().is_none());
}

#[test]
fn test_announce_timeout_reverts_to_master() {
    let mut node = make_node(255, 0xAAAA);
    node.process_announce(0xBBBB, 128, 128, addr(100, 320), 1_000);
    assert_eq!(node.role(), EffectiveRole::Slave);
    node.set_announce_timeout(1);
    node.check_announce_timeout(1_000 + 5_000_000);
    assert_eq!(node.role(), EffectiveRole::Master);
    assert!(node.remote_master().is_none());
    assert!(node.pending_t1().is_none());
    assert!(node.pending_t2().is_none());
    assert!(node.pending_t3().is_none());
    assert!(node.delay_req_sent_at().is_none());
}

#[test]
fn test_announce_timeout_does_not_fire_when_recent() {
    let mut node = make_node(255, 0xAAAA);
    node.process_announce(0xBBBB, 128, 128, addr(100, 320), 1_000);
    assert_eq!(node.role(), EffectiveRole::Slave);
    node.set_announce_timeout(60_000_000_000);
    node.check_announce_timeout(2_000);
    assert_eq!(node.role(), EffectiveRole::Slave);
    assert!(node.remote_master().is_some());
}

#[test]
fn test_announce_timeout_is_no_op_when_no_remote_master() {
    let mut node = make_node(128, 0xAAAA);
    assert_eq!(node.role(), EffectiveRole::Master);
    assert!(node.remote_master().is_none());
    node.set_announce_timeout(1);
    node.check_announce_timeout(10_000_000);
    assert_eq!(node.role(), EffectiveRole::Master);
}

#[test]
fn ptp_remote_master_addresses() {
    let mut node = make_node(255, 0xAAAA);
    node.process_announce(0xBBBB, 128, 128, addr(100, 320), 7);
    let rm = node.remote_master().unwrap();
    assert_eq!(rm.grandmaster_identity, 0xBBBB);
    assert_eq!(rm.general_addr.port, 320);
    assert_eq!(rm.event_addr.port, 319);
    assert_eq!(rm.last_announce, 7);
}

#[test]
fn ptp_message_roundtrip() {
    let source = PtpPortIdentity::new(0x1122_3344_5566_7788, 1);
    let ts = PtpTimestamp::new(12, 345);
    let msg = PtpMessage::sync(source, 9, ts);
    let bytes = msg.encode();
    let decoded = PtpMessage::decode(&bytes).unwrap();
    assert_eq!(decoded.header.message_type, PtpMessageType::Sync);
    assert_eq!(decoded.header.sequence_id, 9);
    assert!(PtpMessage::decode(&bytes[..10]).is_err());
}

#[test]
fn ptp_announce_at_places_origin_timestamp() {
    let source = PtpPortIdentity { clock_identity: 0xAAAA, port_number: 1 };
    let t = PtpTimestamp { seconds: 12, nanoseconds: 345 };
    let m = PtpMessage::announce_at(source, 7, 0xBBBB, 128, 64, t);
    assert_eq!(m.header.message_type, PtpMessageType::Announce);
    assert_eq!(m.header.sequence_id, 7);
    assert_eq!(
        m.body,
        PtpMessageBody::Announce {
            origin_timestamp: t,
            grandmaster_identity: 0xBBBB,
            grandmaster_priority1: 128,
            grandmaster_priority2: 64,
        }
    );
}
