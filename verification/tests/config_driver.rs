use speed_cli::bandwidth::{BandwidthMeasurement, BandwidthMonitor, PacketLossTracker};
use speed_cli::config::{
    dedup_sizes, default_chunk_size, u64_to_string, HttpTestConfig, HttpVersion, TcpTestConfig,
    TestConfig, TestType, UdpTestConfig,
};
use speed_cli::driver::{phase_plan, PhaseStep};
use speed_cli::latency::LatencyResult;
use speed_cli::results::{NetworkProtocol, NetworkTestResult, SizeResultMap, TestReport, TestResult};
use speed_cli::throughput::ThroughputResult;

#[test]
fn decimal_rendering() {
    assert_eq!(u64_to_string(0), "0");
    assert_eq!(u64_to_string(7), "7");
    assert_eq!(u64_to_string(5201), "5201");
    assert_eq!(u64_to_string(8443), "8443");
    assert_eq!(u64_to_string(u64::MAX), "18446744073709551615");
}

#[test]
fn size_dedup_keeps_first_occurrence_order() {
    assert_eq!(dedup_sizes(&vec![3, 1, 3, 2, 1]), vec![3, 1, 2]);
    assert_eq!(dedup_sizes(&vec![]), Vec::<usize>::new());
}

#[test]
fn tcp_config_defaults() {
    let c = TcpTestConfig::new(
        "localhost".to_string(),
        None,
        10,
        0,
        TestType::Bidirectional,
        vec![],
    );
    assert_eq!(c.port, 5201);
    assert_eq!(c.parallel_connections, 1);
    assert_eq!(c.payload_sizes, vec![1024, 8192, 65536]);

    let c = TcpTestConfig::new(
        "localhost".to_string(),
        Some(7000),
        10,
        4,
        TestType::Download,
        vec![512, 512, 2048],
    );
    assert_eq!(c.port, 7000);
    assert_eq!(c.parallel_connections, 4);
    assert_eq!(c.payload_sizes, vec![512, 2048]);
}

#[test]
fn udp_config_defaults() {
    let c = UdpTestConfig::new(
        "server".to_string(),
        None,
        5,
        0,
        TestType::Upload,
        vec![],
    );
    assert_eq!(c.port, 5201);
    assert_eq!(c.parallel_streams, 1);
    assert_eq!(c.payload_sizes, vec![1024, 8192, 65536]);
}

#[test]
fn http_config_builds_url_from_scheme_host_port() {
    let c = HttpTestConfig::new(
        "example.test".to_string(),
        None,
        10,
        2,
        TestType::Download,
        vec![],
        HttpVersion::HTTP1,
    );
    assert_eq!(c.server_url, "http://example.test:8080");
    assert_eq!(c.payload_sizes, vec![1_048_576, 10_485_760, 104_857_600]);
    assert_eq!(c.chunk_size, default_chunk_size());

    let c = HttpTestConfig::new(
        "example.test".to_string(),
        None,
        10,
        2,
        TestType::Download,
        vec![4096],
        HttpVersion::HTTP2,
    );
    assert_eq!(c.server_url, "https://example.test:8443");

    let c = HttpTestConfig::new(
        "10.0.0.1".to_string(),
        Some(9000),
        10,
        2,
        TestType::Download,
        vec![4096],
        HttpVersion::H2C,
    );
    assert_eq!(c.server_url, "http://10.0.0.1:9000");
}

#[test]
fn http_version_schemes() {
    assert!(!HttpVersion::HTTP1.is_secure());
    assert!(!HttpVersion::H2C.is_secure());
    assert!(HttpVersion::HTTP2.is_secure());
    assert!(HttpVersion::HTTP3.is_secure());
    assert_eq!(HttpVersion::HTTP1.scheme(), "http");
    assert_eq!(HttpVersion::HTTP3.scheme(), "https");
}

#[test]
fn phase_plan_orders_phases_by_size() {
    let sizes = vec![1024usize, 4096, 65536];
    let plan = phase_plan(TestType::Bidirectional, &sizes);
    assert_eq!(
        plan,
        vec![
            PhaseStep::Download(1024),
            PhaseStep::Upload(1024),
            PhaseStep::Download(4096),
            PhaseStep::Upload(4096),
            PhaseStep::Download(65536),
            PhaseStep::Upload(65536),
        ]
    );

    let plan = phase_plan(TestType::Simultaneous, &sizes);
    assert_eq!(
        plan,
        vec![
            PhaseStep::Simultaneous(1024),
            PhaseStep::Simultaneous(4096),
            PhaseStep::Simultaneous(65536),
        ]
    );

    let plan = phase_plan(TestType::LatencyOnly, &sizes);
    assert_eq!(plan, vec![PhaseStep::Latency]);

    let plan = phase_plan(TestType::Download, &sizes);
    assert_eq!(
        plan,
        vec![
            PhaseStep::Download(1024),
            PhaseStep::Download(4096),
            PhaseStep::Download(65536),
        ]
    );
}

fn result_with_bytes(bytes: u64) -> ThroughputResult {
    ThroughputResult {
        measurements: vec![speed_cli::measurement::ThroughputMeasurement::new(bytes, 1)],
        total_duration_micros: 1_000_000,
        timestamp_micros: 0,
    }
}

#[test]
fn size_map_iterates_in_insertion_order() {
    let mut map = SizeResultMap::new();
    map.insert(65536, result_with_bytes(3));
    map.insert(1024, result_with_bytes(1));
    map.insert(8192, result_with_bytes(2));
    assert_eq!(map.keys(), vec![65536, 1024, 8192]);
    assert_eq!(map.len(), 3);
    assert!(!map.is_empty());
    assert_eq!(map.get(1024).unwrap().bytes_transferred(), 1);
    assert!(map.get(555).is_none());

    // Reinserting a present size replaces its value in place.
    map.insert(1024, result_with_bytes(9));
    assert_eq!(map.keys(), vec![65536, 1024, 8192]);
    assert_eq!(map.get(1024).unwrap().bytes_transferred(), 9);
}

#[test]
fn report_envelope_carries_version() {
    let config = TestConfig::Tcp(TcpTestConfig::new(
        "h".to_string(),
        None,
        1,
        1,
        TestType::Download,
        vec![1024],
    ));
    let mut network = NetworkTestResult::new_tcp();
    network.download.insert(1024, result_with_bytes(10));
    assert_eq!(network.protocol, NetworkProtocol::Tcp);
    let report = TestReport::new(100, config, TestResult::Network(network), 200);
    assert_eq!(report.start_time_micros, 100);
    assert_eq!(report.timestamp_micros, 200);
    assert_eq!(report.version, "0.1.0");
}

#[test]
fn config_wraps_into_the_common_enum() {
    let tcp = TcpTestConfig::new(
        "h".to_string(),
        None,
        1,
        1,
        TestType::Download,
        vec![1024],
    );
    let wrapped: TestConfig = tcp.clone().into();
    assert_eq!(wrapped, TestConfig::Tcp(tcp));
}

#[test]
fn network_results_start_empty() {
    let r = NetworkTestResult::new_http();
    assert!(r.latency.is_none());
    assert!(r.download.is_empty());
    assert!(r.upload.is_empty());
    assert_eq!(r.protocol, NetworkProtocol::Http);
    assert_eq!(NetworkTestResult::new_udp().protocol, NetworkProtocol::Udp);
}

#[test]
fn latency_result_new_keeps_measurements() {
    let r = LatencyResult::new(vec![]);
    assert_eq!(r.count(), 0);
}

#[test]
fn bandwidth_monitor_window() {
    let mut m = BandwidthMonitor::new(1_000_000);
    m.add_measurement_at(1000, 1_000_000);
    m.add_measurement_at(3000, 1_500_000);
    // 2000 bytes in half a second: 32000 bits per second.
    assert_eq!(m.current_bandwidth_bps(), 32_000);

    // A sample two windows later evicts the old ones.
    m.add_measurement_at(5000, 4_000_000);
    assert_eq!(m.current_bandwidth_bps(), 0);
    assert_eq!(m.measurements.len(), 1);
}

#[test]
fn bandwidth_measurement_holds_bytes() {
    let m = BandwidthMeasurement::new(777);
    assert_eq!(m.bytes, 777);
    let m = BandwidthMeasurement::new_at(5, 10);
    assert_eq!(m.timestamp_micros, 10);
}

#[test]
fn packet_loss_tracker_counts() {
    let mut t = PacketLossTracker::new();
    for _ in 0..10 {
        t.packet_sent();
    }
    for _ in 0..7 {
        t.packet_received();
    }
    assert_eq!(t.packets_lost(), 3);
    assert_eq!(t.loss_permille(), 300);

    let t = PacketLossTracker::new();
    assert_eq!(t.packets_lost(), 0);
    assert_eq!(t.loss_permille(), 0);
}
