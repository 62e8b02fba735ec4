use speed_cli::latency::{isqrt_u128, LatencyMeasurement, LatencyResult};
use speed_cli::measurement::{ConnectionError, ErrorKind, ThroughputMeasurement};
use speed_cli::throughput::ThroughputResult;

fn ok(rtt_ms: u64) -> LatencyMeasurement {
    LatencyMeasurement {
        rtt_micros: Some(rtt_ms * 1000),
        elapsed_micros: 0,
    }
}

fn dropped() -> LatencyMeasurement {
    LatencyMeasurement {
        rtt_micros: None,
        elapsed_micros: 0,
    }
}

fn latency_result(ms: &[u64]) -> LatencyResult {
    LatencyResult {
        measurements: ms.iter().map(|&m| ok(m)).collect(),
        timestamp_micros: 0,
    }
}

#[test]
fn latency_percentile_scenario() {
    // Successful RTTs 10, 20, 30, 40, 50 ms.
    let r = latency_result(&[10, 20, 30, 40, 50]);
    assert_eq!(r.min_rtt(), Some(10_000));
    assert_eq!(r.max_rtt(), Some(50_000));
    assert_eq!(r.avg_rtt(), Some(30_000));
    assert_eq!(r.percentile_rtt(50), Some(30_000));
    // Jitter is the population standard deviation: about 14.142 ms.
    assert_eq!(r.jitter(), Some(14_142));
}

#[test]
fn latency_counts_track_drops() {
    let r = LatencyResult {
        measurements: vec![ok(10), dropped(), ok(30), dropped(), dropped()],
        timestamp_micros: 0,
    };
    assert_eq!(r.count(), 5);
    assert_eq!(r.successful_count(), 2);
    assert_eq!(r.dropped_count(), 3);
    assert_eq!(r.avg_rtt(), Some(20_000));
}

#[test]
fn percentile_defined_iff_in_range_with_successes() {
    let r = latency_result(&[10, 20, 30, 40, 50]);
    assert!(r.percentile_rtt(0).is_some());
    assert!(r.percentile_rtt(100).is_some());
    assert!(r.percentile_rtt(101).is_none());

    let empty = LatencyResult {
        measurements: vec![dropped()],
        timestamp_micros: 0,
    };
    assert!(empty.percentile_rtt(50).is_none());
    assert!(empty.avg_rtt().is_none());
    assert!(empty.min_rtt().is_none());
    assert!(empty.max_rtt().is_none());
    assert!(empty.jitter().is_none());
}

#[test]
fn percentile_values_stay_within_bounds() {
    let r = latency_result(&[42, 7, 88, 13, 99, 7]);
    let min = r.min_rtt().unwrap();
    let max = r.max_rtt().unwrap();
    for p in 0..=100 {
        let v = r.percentile_rtt(p).unwrap();
        assert!(min <= v && v <= max);
    }
}

#[test]
fn percentile_sorts_unordered_samples() {
    let r = latency_result(&[50, 10, 40, 20, 30]);
    assert_eq!(r.percentile_rtt(0), Some(10_000));
    assert_eq!(r.percentile_rtt(50), Some(30_000));
    assert_eq!(r.percentile_rtt(100), Some(50_000));
}

#[test]
fn integer_square_root_brackets_the_value() {
    assert_eq!(isqrt_u128(0), 0);
    assert_eq!(isqrt_u128(1), 1);
    assert_eq!(isqrt_u128(3), 1);
    assert_eq!(isqrt_u128(4), 2);
    assert_eq!(isqrt_u128(200_000_000), 14_142);
    assert_eq!(isqrt_u128(u128::from(u64::MAX)) , 4_294_967_295);
}

fn success(bytes: u64, duration_micros: u64) -> ThroughputMeasurement {
    ThroughputMeasurement::new(bytes, duration_micros)
}

fn failure(error: ConnectionError, retries: u32) -> ThroughputMeasurement {
    ThroughputMeasurement::new_error(error, 1000, retries)
}

#[test]
fn throughput_sums_successes_only() {
    let r = ThroughputResult {
        measurements: vec![
            success(1000, 10),
            failure(ConnectionError::Timeout("slow".to_string()), 2),
            success(2000, 10),
        ],
        total_duration_micros: 2_000_000,
        timestamp_micros: 0,
    };
    assert_eq!(r.bytes_transferred(), 3000);
    // 3000 bytes over 2 seconds.
    assert_eq!(r.avg_throughput(), 1500);
    assert_eq!(r.total_errors(), 1);
}

#[test]
fn throughput_average_is_exact_division() {
    let r = ThroughputResult {
        measurements: vec![success(1_048_576, 1)],
        total_duration_micros: 1_000_000,
        timestamp_micros: 0,
    };
    assert_eq!(r.avg_throughput(), 1_048_576);

    let zero = ThroughputResult {
        measurements: vec![success(5, 1)],
        total_duration_micros: 0,
        timestamp_micros: 0,
    };
    assert_eq!(zero.avg_throughput(), 0);
}

#[test]
fn throughput_success_rates() {
    let r = ThroughputResult {
        measurements: vec![
            success(1, 1),
            success(1, 1),
            success(1, 1),
            failure(ConnectionError::Unknown("boom".to_string()), 0),
        ],
        total_duration_micros: 1,
        timestamp_micros: 0,
    };
    // 3 of 4 in permille.
    assert_eq!(r.connection_success_rate(), 750);
    assert_eq!(r.request_success_rate(), 750);

    let empty = ThroughputResult {
        measurements: vec![],
        total_duration_micros: 1,
        timestamp_micros: 0,
    };
    assert_eq!(empty.connection_success_rate(), 0);
}

#[test]
fn retry_statistics_count_failures() {
    let r = ThroughputResult {
        measurements: vec![
            success(1, 1),
            failure(ConnectionError::Timeout("a".to_string()), 2),
            failure(ConnectionError::TransferFailed("b".to_string()), 3),
        ],
        total_duration_micros: 1,
        timestamp_micros: 0,
    };
    let (total, after_retry_ok, after_retry_failed) = r.retry_statistics();
    assert_eq!(total, 5);
    assert_eq!(after_retry_ok, 0);
    assert_eq!(after_retry_failed, 2);
    assert_eq!(r.retry_success_rate(), 0);

    let clean = ThroughputResult {
        measurements: vec![success(1, 1)],
        total_duration_micros: 1,
        timestamp_micros: 0,
    };
    assert_eq!(clean.retry_success_rate(), 1000);
}

#[test]
fn error_distribution_counts_each_kind() {
    let r = ThroughputResult {
        measurements: vec![
            failure(ConnectionError::ConnectionFailed("dns".to_string()), 0),
            failure(ConnectionError::TransferFailed("reset".to_string()), 0),
            failure(ConnectionError::TransferFailed("eof".to_string()), 0),
            failure(ConnectionError::Timeout("deadline".to_string()), 0),
            failure(ConnectionError::Unknown("other".to_string()), 0),
            success(1, 1),
        ],
        total_duration_micros: 1,
        timestamp_micros: 0,
    };
    assert_eq!(r.error_count_of(ErrorKind::ConnectionFailed), 1);
    assert_eq!(r.error_count_of(ErrorKind::TransferFailed), 2);
    assert_eq!(r.error_count_of(ErrorKind::Timeout), 1);
    assert_eq!(r.error_count_of(ErrorKind::Unknown), 1);
    let dist = r.error_distribution();
    assert_eq!(
        dist,
        vec![
            (ErrorKind::ConnectionFailed, 1),
            (ErrorKind::TransferFailed, 2),
            (ErrorKind::Timeout, 1),
            (ErrorKind::Unknown, 1),
        ]
    );
}

#[test]
fn error_kinds_and_messages() {
    let e = ConnectionError::ConnectionFailed("no route".to_string());
    assert_eq!(e.kind(), ErrorKind::ConnectionFailed);
    assert_eq!(e.message().as_str(), "no route");
    let e = ConnectionError::Timeout("deadline".to_string());
    assert_eq!(e.kind(), ErrorKind::Timeout);
    assert_eq!(e.message().as_str(), "deadline");
}

#[test]
fn measurement_throughput_bps() {
    // One megabyte in half a second is sixteen megabits per second.
    let m = ThroughputMeasurement::new(1_000_000, 500_000);
    assert_eq!(m.throughput_bps(), 16_000_000);
    let zero = ThroughputMeasurement::new(1_000_000, 0);
    assert_eq!(zero.throughput_bps(), 0);
    let f = ThroughputMeasurement::new_error(ConnectionError::Unknown("x".to_string()), 10, 0);
    assert_eq!(f.throughput_bps(), 0);
}
