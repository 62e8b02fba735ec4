use speed_cli::http_logic::{chunk_sizes, latency_body, upload_decision, within_ten_percent};
use speed_cli::stp_server::{parse_usize, requested_download_size, starts_with, StpPeerState};
use speed_cli::protocol::{StpHeader, StpPacket};
use speed_cli::tcp_logic::{
    download_buffer_len, fill_buffer, parse_command, reached_byte_cap, ConnectionStats,
    TcpRole, TcpServerBuilder, TcpServerMetrics,
};

#[test]
fn download_chunk_plan_scenario() {
    // A megabyte in 64 KiB chunks streams as 16 full chunks.
    let sizes = chunk_sizes(1_048_576, 65_536);
    assert_eq!(sizes.len(), 16);
    assert!(sizes.iter().all(|&c| c == 65_536));
    assert_eq!(sizes.iter().sum::<usize>(), 1_048_576);
}

#[test]
fn download_chunk_plan_truncates_last() {
    let sizes = chunk_sizes(100, 30);
    assert_eq!(sizes, vec![30, 30, 30, 10]);
    assert_eq!(sizes.iter().sum::<usize>(), 100);

    let empty = chunk_sizes(0, 30);
    assert!(empty.is_empty());

    let one = chunk_sizes(7, 30);
    assert_eq!(one, vec![7]);
}

#[test]
fn upload_cap_decision() {
    let (status, received) = upload_decision(100, 1000);
    assert_eq!(status, 200);
    assert_eq!(received, 100);

    let (status, _) = upload_decision(1001, 1000);
    assert_eq!(status, 413);

    let (status, received) = upload_decision(1000, 1000);
    assert_eq!(status, 200);
    assert_eq!(received, 1000);
}

#[test]
fn latency_endpoint_body() {
    assert_eq!(latency_body(), "OK");
}

#[test]
fn ten_percent_window() {
    assert!(within_ten_percent(1000, 1000));
    assert!(within_ten_percent(1000, 900));
    assert!(within_ten_percent(1000, 1100));
    assert!(!within_ten_percent(1000, 899));
    assert!(!within_ten_percent(1000, 1101));
}

#[test]
fn decimal_parser_accepts_digits_only() {
    assert_eq!(parse_usize(b"0"), Some(0));
    assert_eq!(parse_usize(b"8192"), Some(8192));
    assert_eq!(parse_usize(b""), None);
    assert_eq!(parse_usize(b"12a"), None);
    assert_eq!(parse_usize(b"-5"), None);
    assert_eq!(parse_usize(b"99999999999999999999999999"), None);
}

#[test]
fn download_command_sizes() {
    assert!(starts_with(b"DOWNLOAD", b"DOWNLOAD"));
    assert!(starts_with(b"DOWNLOAD:4096", b"DOWNLOAD"));
    assert!(!starts_with(b"PING", b"DOWNLOAD"));
    assert_eq!(requested_download_size(b"DOWNLOAD"), 1024);
    assert_eq!(requested_download_size(b"DOWNLOAD:4096"), 4096);
    assert_eq!(requested_download_size(b"DOWNLOAD:junk"), 1024);
    assert_eq!(requested_download_size(b"DOWNLOAD:"), 1024);
}

#[test]
fn stp_server_acks_and_enters_download_mode() {
    let mut peer = StpPeerState::new("client".to_string());

    // A short datagram is dropped without reply or state change.
    assert!(peer.handle_datagram(&[0u8; 31]).is_none());
    assert_eq!(peer.packets_received, 0);

    // A data packet gets an ACK naming it and echoing its timestamp.
    let packet = StpPacket {
        header: StpHeader::with_timestamp(7, 5555, 0, 0),
        payload: vec![1, 2, 3],
    };
    let reply = peer.handle_datagram(&packet.encode()).unwrap();
    assert_eq!(reply.ack.header.latest_ack, 7);
    assert_eq!(reply.ack.header.ack_timestamp_echo, 5555);
    assert!(reply.ack.is_ack_only());
    assert!(reply.download_fragments.is_none());
    assert_eq!(peer.packets_received, 1);
    assert_eq!(peer.total_bytes, 3);
    assert!(peer.connection.established);
    assert!(!peer.download_mode);

    // A download command switches the peer into download mode with the
    // requested size, fragmented to the datagram ceiling.
    let cmd = StpPacket {
        header: StpHeader::with_timestamp(8, 6000, 0, 0),
        payload: b"DOWNLOAD:3000".to_vec(),
    };
    let reply = peer.handle_datagram(&cmd.encode()).unwrap();
    assert!(peer.download_mode);
    assert_eq!(peer.download_payload_size, 3000);
    let frags = reply.download_fragments.unwrap();
    assert_eq!(frags, vec![1400, 1400, 200]);
    assert_eq!(frags.iter().sum::<usize>(), 3000);
}

#[test]
fn stp_server_ping_gets_plain_ack() {
    let mut peer = StpPeerState::new("client".to_string());
    let ping = StpPacket {
        header: StpHeader::with_timestamp(1, 42, 0, 0),
        payload: b"PING".to_vec(),
    };
    let reply = peer.handle_datagram(&ping.encode()).unwrap();
    assert_eq!(reply.ack.header.latest_ack, 1);
    assert_eq!(reply.ack.header.ack_timestamp_echo, 42);
    assert!(reply.download_fragments.is_none());
    assert!(!peer.download_mode);
}

#[test]
fn tcp_command_byte_selects_role() {
    assert_eq!(parse_command(b'U'), Some(TcpRole::Upload));
    assert_eq!(parse_command(b'D'), Some(TcpRole::Download));
    assert_eq!(parse_command(b'X'), None);
    assert_eq!(parse_command(0), None);
}

#[test]
fn client_download_buffer_is_capped() {
    assert_eq!(download_buffer_len(1024), 1024);
    assert_eq!(download_buffer_len(8192), 8192);
    assert_eq!(download_buffer_len(65536), 8192);
}

#[test]
fn download_fill_buffer_pattern() {
    let buf = fill_buffer(16);
    assert_eq!(buf.len(), 16);
    assert!(buf.iter().all(|&b| b == 0x42));
}

#[test]
fn byte_cap_check() {
    assert!(!reached_byte_cap(100, None));
    assert!(!reached_byte_cap(99, Some(100)));
    assert!(reached_byte_cap(100, Some(100)));
}

#[test]
fn test_server_builder() {
    let config = TcpServerBuilder::new()
        .max_connections(100)
        .connection_timeout_secs(60)
        .buffer_size(32768)
        .build();

    assert_eq!(config.max_connections, 100);
    assert_eq!(config.connection_timeout_secs, 60);
    assert_eq!(config.buffer_size, 32768);
}

#[test]
fn test_server_metrics() {
    let mut metrics = TcpServerMetrics::new();

    metrics.total_connections = 42;
    metrics.total_bytes_received = 1024;

    assert_eq!(metrics.total_connections, 42);
    assert_eq!(metrics.total_bytes_received, 1024);
}

#[test]
fn test_server_builder_and_metrics() {
    let config = TcpServerBuilder::new()
        .max_connections(50)
        .connection_timeout_secs(120)
        .buffer_size(32768)
        .report_interval_secs(2)
        .max_bytes_per_connection(Some(1_000_000))
        .build();

    let metrics = TcpServerMetrics::new();
    assert_eq!(metrics.total_connections, 0);

    assert_eq!(config.max_connections, 50);
    assert_eq!(config.connection_timeout_secs, 120);
    assert_eq!(config.buffer_size, 32768);
}

#[test]
fn metrics_counters_move_as_recorded() {
    let mut m = TcpServerMetrics::new();
    m.record_connection();
    m.record_connection();
    m.record_bytes_received(10);
    m.record_bytes_sent(20);
    m.record_error();
    m.record_disconnect();
    assert_eq!(m.total_connections, 2);
    assert_eq!(m.active_connections, 1);
    assert_eq!(m.total_bytes_received, 10);
    assert_eq!(m.total_bytes_sent, 20);
    assert_eq!(m.connection_errors, 1);
}

#[test]
fn connection_stats_report_and_idle() {
    let mut stats = ConnectionStats::new(1_000_000);
    stats.add_bytes(500, 1_200_000);
    assert_eq!(stats.total_bytes, 500);

    // Not yet due at half the interval; due after it, which resets.
    assert!(!stats.should_report(5_000_000, 3_000_000));
    assert!(stats.should_report(5_000_000, 6_000_000));
    assert!(!stats.should_report(5_000_000, 6_000_001));

    assert!(!stats.is_idle(1_000_000, 2_000_000));
    assert!(stats.is_idle(1_000_000, 2_300_000));

    // 500 bytes over two seconds is 250 bytes per second.
    let (bytes, elapsed, bps) = stats.get_summary(3_000_000);
    assert_eq!(bytes, 500);
    assert_eq!(elapsed, 2_000_000);
    assert_eq!(bps, 250);
}
