use airplay2::ptp::clock::{PtpClock, PtpRole, TimingMeasurement};
use airplay2::ptp::timestamp::PtpTimestamp;
use std::time::Duration;

fn offset_millis(clock: &PtpClock) -> f64 {
    clock.offset_nanos() as f64 / 1_000_000.0
}

#[test]
fn test_new_clock_not_synchronized() {
    let clock = PtpClock::new(0x123456, PtpRole::Slave);
    assert!(!clock.is_synchronized());
    assert_eq!(clock.offset_nanos(), 0);
    assert_eq!(clock.drift_ppm(), 0);
    assert_eq!(clock.measurement_count(), 0);
}

#[test]
fn test_clock_id() {
    let clock = PtpClock::new(0xDEADBEEF, PtpRole::Master);
    assert_eq!(clock.clock_id(), 0xDEADBEEF);
}

#[test]
fn test_clock_role() {
    let slave = PtpClock::new(0, PtpRole::Slave);
    assert_eq!(slave.role(), PtpRole::Slave);

    let master = PtpClock::new(0, PtpRole::Master);
    assert_eq!(master.role(), PtpRole::Master);
}

#[test]
fn test_measurement_zero_offset_symmetric() {
    let t1 = PtpTimestamp::new(100, 0);
    let t2 = PtpTimestamp::new(100, 1_000_000);
    let t3 = PtpTimestamp::new(100, 2_000_000);
    let t4 = PtpTimestamp::new(100, 3_000_000);

    let m = TimingMeasurement::calculate(t1, t2, t3, t4, std::time::Instant::now());

    assert_eq!(m.offset_ns, 0);
}

#[test]
fn test_measurement_positive_offset() {
    let t1 = PtpTimestamp::new(100, 0);
    let t2 = PtpTimestamp::new(105, 1_000_000);
    let t3 = PtpTimestamp::new(105, 2_000_000);
    let t4 = PtpTimestamp::new(100, 3_000_000);

    let m = TimingMeasurement::calculate(t1, t2, t3, t4, std::time::Instant::now());

    let expected_ns: i128 = 5_000_000_000;
    assert!(
        (m.offset_ns - expected_ns).unsigned_abs() < 1_000,
        "Expected ~{expected_ns}, got {}",
        m.offset_ns
    );
}

#[test]
fn test_measurement_negative_offset() {
    let t1 = PtpTimestamp::new(100, 0);
    let t2 = PtpTimestamp::new(98, 1_000_000);
    let t3 = PtpTimestamp::new(98, 2_000_000);
    let t4 = PtpTimestamp::new(100, 3_000_000);

    let m = TimingMeasurement::calculate(t1, t2, t3, t4, std::time::Instant::now());

    let expected_ns: i128 = -2_000_000_000;
    assert!(
        (m.offset_ns - expected_ns).unsigned_abs() < 1_000,
        "Expected ~{expected_ns}, got {}",
        m.offset_ns
    );
}

#[test]
fn test_measurement_rtt_calculation() {
    let t1 = PtpTimestamp::new(100, 0);
    let t2 = PtpTimestamp::new(100, 5_000_000);
    let t3 = PtpTimestamp::new(100, 10_000_000);
    let t4 = PtpTimestamp::new(100, 40_000_000);

    let m = TimingMeasurement::calculate(t1, t2, t3, t4, std::time::Instant::now());

    let expected_rtt = Duration::from_millis(35);
    let diff = if m.rtt > expected_rtt {
        m.rtt - expected_rtt
    } else {
        expected_rtt - m.rtt
    };
    assert!(
        diff < Duration::from_millis(1),
        "Expected RTT ~{expected_rtt:?}, got {:?}",
        m.rtt
    );
}

#[test]
fn test_measurement_rtt_never_negative() {
    let t1 = PtpTimestamp::new(100, 0);
    let t2 = PtpTimestamp::new(100, 50_000_000);
    let t3 = PtpTimestamp::new(100, 10_000_000);
    let t4 = PtpTimestamp::new(100, 20_000_000);

    let m = TimingMeasurement::calculate(t1, t2, t3, t4, std::time::Instant::now());

    assert!(m.rtt >= Duration::ZERO);
}

#[test]
fn test_process_timing_synchronizes() {
    let mut clock = PtpClock::new(0x42, PtpRole::Slave);
    assert!(!clock.is_synchronized());

    let t1 = PtpTimestamp::new(100, 0);
    let t2 = PtpTimestamp::new(100, 1_000_000);
    let t3 = PtpTimestamp::new(100, 2_000_000);
    let t4 = PtpTimestamp::new(100, 3_000_000);

    let accepted = clock.process_timing(t1, t2, t3, t4);
    assert!(accepted);
    assert!(clock.is_synchronized());
    assert_eq!(clock.measurement_count(), 1);
}

#[test]
fn test_process_timing_multiple_measurements() {
    let mut clock = PtpClock::new(0x42, PtpRole::Slave);

    for i in 0..5 {
        let base = 100 + i;
        let t1 = PtpTimestamp::new(base, 0);
        let t2 = PtpTimestamp::new(base, 1_000_000);
        let t3 = PtpTimestamp::new(base, 2_000_000);
        let t4 = PtpTimestamp::new(base, 3_000_000);
        clock.process_timing(t1, t2, t3, t4);
    }

    assert_eq!(clock.measurement_count(), 5);
    assert!(clock.is_synchronized());
}

#[test]
fn test_process_timing_max_measurements_eviction() {
    let mut clock = PtpClock::new(0, PtpRole::Slave);
    clock.set_max_measurements(3);

    for i in 0..10 {
        let t1 = PtpTimestamp::new(i, 0);
        let t2 = PtpTimestamp::new(i, 1_000_000);
        let t3 = PtpTimestamp::new(i, 2_000_000);
        let t4 = PtpTimestamp::new(i, 3_000_000);
        clock.process_timing(t1, t2, t3, t4);
    }

    assert_eq!(clock.measurement_count(), 3);
}

#[test]
fn test_process_timing_offset_calculation() {
    let mut clock = PtpClock::new(0x42, PtpRole::Slave);

    let t1 = PtpTimestamp::new(100, 0);
    let t2 = PtpTimestamp::new(101, 1_000_000);
    let t3 = PtpTimestamp::new(101, 2_000_000);
    let t4 = PtpTimestamp::new(100, 3_000_000);

    clock.process_timing(t1, t2, t3, t4);

    let offset_ms = offset_millis(&clock);
    assert!(
        (offset_ms - 1000.0).abs() < 2.0,
        "Expected offset ~1000ms, got {offset_ms}ms"
    );
}

#[test]
fn test_process_timing_rejects_high_rtt() {
    let mut clock = PtpClock::new(0, PtpRole::Slave);
    clock.set_max_rtt(Duration::from_millis(10));

    let t1 = PtpTimestamp::new(100, 0);
    let t2 = PtpTimestamp::new(100, 1_000_000);
    let t3 = PtpTimestamp::new(100, 2_000_000);
    let t4 = PtpTimestamp::new(100, 500_000_000);

    let accepted = clock.process_timing(t1, t2, t3, t4);
    assert!(!accepted);
    assert!(!clock.is_synchronized());
    assert_eq!(clock.measurement_count(), 0);
}

#[test]
fn test_process_timing_accepts_low_rtt() {
    let mut clock = PtpClock::new(0, PtpRole::Slave);
    clock.set_max_rtt(Duration::from_millis(10));

    let t1 = PtpTimestamp::new(100, 0);
    let t2 = PtpTimestamp::new(100, 500_000);
    let t3 = PtpTimestamp::new(100, 1_000_000);
    let t4 = PtpTimestamp::new(100, 2_000_000);

    let accepted = clock.process_timing(t1, t2, t3, t4);
    assert!(accepted);
}

#[test]
fn test_median_filter_single_measurement() {
    let mut clock = PtpClock::new(0, PtpRole::Slave);

    let t1 = PtpTimestamp::new(100, 0);
    let t2 = PtpTimestamp::new(100, 1_000_000);
    let t3 = PtpTimestamp::new(100, 2_000_000);
    let t4 = PtpTimestamp::new(100, 3_000_000);
    clock.process_timing(t1, t2, t3, t4);

    assert_eq!(clock.offset_nanos(), 0);
}

#[test]
fn test_median_filter_odd_count() {
    let mut clock = PtpClock::new(0, PtpRole::Slave);
    clock.set_max_measurements(5);
    clock.set_max_rtt(Duration::from_secs(10));

    let t1 = PtpTimestamp::new(100, 0);
    let t2 = PtpTimestamp::new(101, 500_000);
    let t3 = PtpTimestamp::new(101, 1_000_000);
    let t4 = PtpTimestamp::new(100, 1_500_000);
    clock.process_timing(t1, t2, t3, t4);

    let t1 = PtpTimestamp::new(200, 0);
    let t2 = PtpTimestamp::new(203, 500_000);
    let t3 = PtpTimestamp::new(203, 1_000_000);
    let t4 = PtpTimestamp::new(200, 1_500_000);
    clock.process_timing(t1, t2, t3, t4);

    let t1 = PtpTimestamp::new(300, 0);
    let t2 = PtpTimestamp::new(301, 500_000);
    let t3 = PtpTimestamp::new(301, 1_000_000);
    let t4 = PtpTimestamp::new(300, 1_500_000);
    clock.process_timing(t1, t2, t3, t4);

    let offset_ms = offset_millis(&clock);
    assert!(
        (offset_ms - 1000.0).abs() < 5.0,
        "Expected offset ~1000ms (median filter), got {offset_ms}ms"
    );
}

#[test]
fn test_remote_to_local_no_offset() {
    let clock = PtpClock::new(0, PtpRole::Slave);
    let remote = PtpTimestamp::new(100, 0);
    let local = clock.remote_to_local(remote);
    assert_eq!(local, remote);
}

#[test]
fn test_local_to_remote_no_offset() {
    let clock = PtpClock::new(0, PtpRole::Slave);
    let local = PtpTimestamp::new(100, 0);
    let remote = clock.local_to_remote(local);
    assert_eq!(remote, local);
}

#[test]
fn test_remote_to_local_with_offset() {
    let mut clock = PtpClock::new(0, PtpRole::Slave);

    let t1 = PtpTimestamp::new(100, 0);
    let t2 = PtpTimestamp::new(105, 1_000_000);
    let t3 = PtpTimestamp::new(105, 2_000_000);
    let t4 = PtpTimestamp::new(100, 3_000_000);
    clock.process_timing(t1, t2, t3, t4);

    let remote = PtpTimestamp::new(200, 0);
    let local = clock.remote_to_local(remote);

    assert!(
        (local.seconds as i64 - 195).abs() <= 1,
        "Expected ~195s, got {}",
        local.seconds
    );
}

#[test]
fn test_local_to_remote_with_offset() {
    let mut clock = PtpClock::new(0, PtpRole::Slave);

    let t1 = PtpTimestamp::new(100, 0);
    let t2 = PtpTimestamp::new(105, 1_000_000);
    let t3 = PtpTimestamp::new(105, 2_000_000);
    let t4 = PtpTimestamp::new(100, 3_000_000);
    clock.process_timing(t1, t2, t3, t4);

    let local = PtpTimestamp::new(195, 0);
    let remote = clock.local_to_remote(local);

    assert!(
        (remote.seconds as i64 - 200).abs() <= 1,
        "Expected ~200s, got {}",
        remote.seconds
    );
}

#[test]
fn test_remote_local_roundtrip() {
    let mut clock = PtpClock::new(0, PtpRole::Slave);

    let t1 = PtpTimestamp::new(100, 0);
    let t2 = PtpTimestamp::new(103, 1_000_000);
    let t3 = PtpTimestamp::new(103, 2_000_000);
    let t4 = PtpTimestamp::new(100, 3_000_000);
    clock.process_timing(t1, t2, t3, t4);

    let original = PtpTimestamp::new(500, 123_456_789);
    let remote = clock.local_to_remote(original);
    let back = clock.remote_to_local(remote);

    let diff_nanos = (back.to_nanos() - original.to_nanos()).unsigned_abs();
    assert!(
        diff_nanos < 1_000,
        "Roundtrip error too large: {diff_nanos} nanos"
    );
}

#[test]
fn test_rtp_to_local_ptp_basic() {
    let clock = PtpClock::new(0, PtpRole::Slave);
    let sample_rate = 44100;

    let anchor_rtp: u32 = 0;
    let anchor_ptp = PtpTimestamp::new(100, 0);

    let local_ptp = clock.rtp_to_local_ptp(44100, sample_rate, anchor_rtp, anchor_ptp);
    assert_eq!(local_ptp.seconds, 101);
    assert!(local_ptp.nanoseconds < 1_000_000);
}

#[test]
fn test_rtp_to_local_ptp_wrapping() {
    let clock = PtpClock::new(0, PtpRole::Slave);
    let sample_rate = 44100;

    let anchor_rtp: u32 = u32::MAX - 1000;
    let anchor_ptp = PtpTimestamp::new(100, 0);

    let rtp_after_wrap = anchor_rtp.wrapping_add(44100);
    let local_ptp = clock.rtp_to_local_ptp(rtp_after_wrap, sample_rate, anchor_rtp, anchor_ptp);

    assert_eq!(local_ptp.seconds, 101);
}

#[test]
fn test_reset_clears_state() {
    let mut clock = PtpClock::new(0, PtpRole::Slave);

    let t1 = PtpTimestamp::new(100, 0);
    let t2 = PtpTimestamp::new(100, 1_000_000);
    let t3 = PtpTimestamp::new(100, 2_000_000);
    let t4 = PtpTimestamp::new(100, 3_000_000);
    clock.process_timing(t1, t2, t3, t4);
    assert!(clock.is_synchronized());

    clock.reset();
    assert!(!clock.is_synchronized());
    assert_eq!(clock.measurement_count(), 0);
    assert_eq!(clock.offset_nanos(), 0);
    assert_eq!(clock.drift_ppm(), 0);
}

#[test]
fn test_last_rtt_none_when_empty() {
    let clock = PtpClock::new(0, PtpRole::Slave);
    assert!(clock.last_rtt().is_none());
}

#[test]
fn test_last_rtt_some_after_measurement() {
    let mut clock = PtpClock::new(0, PtpRole::Slave);

    let t1 = PtpTimestamp::new(100, 0);
    let t2 = PtpTimestamp::new(100, 1_000_000);
    let t3 = PtpTimestamp::new(100, 2_000_000);
    let t4 = PtpTimestamp::new(100, 5_000_000);
    clock.process_timing(t1, t2, t3, t4);

    let rtt = clock.last_rtt().unwrap();
    assert!(
        (rtt.as_millis() as i64 - 4).abs() <= 1,
        "Expected RTT ~4ms, got {rtt:?}"
    );
}

#[test]
fn test_median_rtt_none_when_empty() {
    let clock = PtpClock::new(0, PtpRole::Slave);
    assert!(clock.median_rtt().is_none());
}

#[test]
fn test_median_rtt_with_measurements() {
    let mut clock = PtpClock::new(0, PtpRole::Slave);
    clock.set_max_rtt(Duration::from_secs(10));

    for rtt_ms in [2, 10, 4] {
        let t1 = PtpTimestamp::new(100, 0);
        let t2 = PtpTimestamp::new(100, 500_000);
        let t3 = PtpTimestamp::new(100, 1_000_000);
        let t4 = PtpTimestamp::new(100, rtt_ms * 1_000_000);
        clock.process_timing(t1, t2, t3, t4);
    }

    let median_rtt = clock.median_rtt().unwrap();
    assert!(
        median_rtt.as_millis() > 1 && median_rtt.as_millis() < 15,
        "Median RTT out of range: {median_rtt:?}"
    );
}

#[test]
fn test_offset_micros_conversion() {
    let mut clock = PtpClock::new(0, PtpRole::Slave);

    let t1 = PtpTimestamp::new(100, 0);
    let t2 = PtpTimestamp::new(101, 1_000_000);
    let t3 = PtpTimestamp::new(101, 2_000_000);
    let t4 = PtpTimestamp::new(100, 3_000_000);
    clock.process_timing(t1, t2, t3, t4);

    let offset_us = clock.offset_micros();
    assert!(
        (offset_us - 1_000_000).abs() < 2_000,
        "Expected ~1000000us, got {offset_us}us"
    );
}

#[test]
fn test_set_max_measurements_minimum_one() {
    let mut clock = PtpClock::new(0, PtpRole::Slave);
    clock.set_max_measurements(0);
    let t1 = PtpTimestamp::new(100, 0);
    let t2 = PtpTimestamp::new(100, 1_000_000);
    let t3 = PtpTimestamp::new(100, 2_000_000);
    let t4 = PtpTimestamp::new(100, 3_000_000);
    clock.process_timing(t1, t2, t3, t4);
    assert_eq!(clock.measurement_count(), 1);
}

#[test]
fn test_set_min_sync_measurements() {
    let mut clock = PtpClock::new(0, PtpRole::Slave);
    clock.set_min_sync_measurements(3);

    let t1 = PtpTimestamp::new(100, 0);
    let t2 = PtpTimestamp::new(100, 1_000_000);
    let t3 = PtpTimestamp::new(100, 2_000_000);
    let t4 = PtpTimestamp::new(100, 3_000_000);

    clock.process_timing(t1, t2, t3, t4);
    assert!(!clock.is_synchronized());

    clock.process_timing(t1, t2, t3, t4);
    assert!(!clock.is_synchronized());

    clock.process_timing(t1, t2, t3, t4);
    assert!(clock.is_synchronized());
}

#[test]
fn test_debug_format() {
    let clock = PtpClock::new(0xABCD, PtpRole::Slave);
    let debug = clock.debug_string();
    assert!(debug.contains("PtpClock"));
    assert!(debug.contains("Slave"));
    assert!(debug.contains("ABCD"));
}

#[test]
fn test_measurements_iterator() {
    let mut clock = PtpClock::new(0, PtpRole::Slave);

    let t1 = PtpTimestamp::new(100, 0);
    let t2 = PtpTimestamp::new(100, 1_000_000);
    let t3 = PtpTimestamp::new(100, 2_000_000);
    let t4 = PtpTimestamp::new(100, 3_000_000);

    clock.process_timing(t1, t2, t3, t4);
    clock.process_timing(t1, t2, t3, t4);

    let count = clock.measurements().len();
    assert_eq!(count, 2);
}

#[test]
fn test_rtp_to_local_ptp_large_diff_overflow_check() {
    let clock = PtpClock::new(0, PtpRole::Slave);
    let sample_rate = 44100;

    let rtp_anchor = 0;
    let ptp_anchor = PtpTimestamp::new(100, 0);

    let rtp_timestamp = u32::MAX;
    let local = clock.rtp_to_local_ptp(rtp_timestamp, sample_rate, rtp_anchor, ptp_anchor);

    assert_eq!(local.seconds, 99);
    assert!(local.nanoseconds > 999_000_000);
}

#[test]
fn test_rtp_to_local_ptp_half_range_boundary() {
    let clock = PtpClock::new(0, PtpRole::Slave);
    let sample_rate = 44100;

    let rtp_anchor = 0;
    let ptp_anchor = PtpTimestamp::new(100, 0);

    let rtp_timestamp = i32::MAX as u32;
    let local = clock.rtp_to_local_ptp(rtp_timestamp, sample_rate, rtp_anchor, ptp_anchor);

    assert!(local.seconds > 100 + 48000);

    let rtp_timestamp = (i32::MAX as u32) + 1;
    let local = clock.rtp_to_local_ptp(rtp_timestamp, sample_rate, rtp_anchor, ptp_anchor);

    assert!(local.seconds < 100);
}

#[test]
fn clock_median_of_even_count_and_window() {
    let mut clock = PtpClock::new(1, PtpRole::Slave);
    clock.set_max_rtt(Duration::from_secs(10));
    clock.set_max_measurements(2);
    // Offsets of 1 s, 2 s and 4 s; only the last two are kept.
    for (i, secs) in [1u64, 2, 4].iter().enumerate() {
        let base = 100 * (i as u64 + 1);
        let t1 = PtpTimestamp::new(base, 0);
        let t2 = PtpTimestamp::new(base + secs, 0);
        let t3 = PtpTimestamp::new(base + secs, 0);
        let t4 = PtpTimestamp::new(base, 0);
        assert!(clock.process_timing(t1, t2, t3, t4));
    }
    assert_eq!(clock.measurement_count(), 2);
    assert_eq!(clock.offset_nanos(), 3_000_000_000);
    assert_eq!(clock.offset_micros(), 3_000_000);
    assert_eq!(clock.median_rtt(), Some(Duration::ZERO));
}

#[test]
fn clock_rejection_keeps_state_and_exact_conversions() {
    let mut clock = PtpClock::new(7, PtpRole::Slave);
    let t1 = PtpTimestamp::new(10, 0);
    let t2 = PtpTimestamp::new(12, 0);
    let t3 = PtpTimestamp::new(12, 0);
    let t4 = PtpTimestamp::new(10, 0);
    assert!(clock.process_timing(t1, t2, t3, t4));
    assert_eq!(clock.offset_nanos(), 2_000_000_000);
    // A round trip of one second is over the default limit.
    assert!(!clock.process_timing(t1, t2, t3, PtpTimestamp::new(11, 0)));
    assert_eq!(clock.measurement_count(), 1);
    assert_eq!(clock.offset_nanos(), 2_000_000_000);
    assert_eq!(
        clock.remote_to_local(PtpTimestamp::new(1, 0)),
        PtpTimestamp::new(0, 0)
    );
    assert_eq!(
        clock.local_to_remote(PtpTimestamp::new(1, 5)),
        PtpTimestamp::new(3, 5)
    );
    assert_eq!(
        clock.debug_string(),
        "PtpClock { clock_id: 0x0000000000000007, role: Slave, measurements: 1, synchronized: true }"
    );
}
