use speed_cli::protocol::{
    current_timestamp_micros, rtt_micros, ConnectionState, InFlightPacket, LossRecovery,
    StpHeader, StpPacket,
};

#[test]
fn test_header_encode_decode() {
    let header = StpHeader::new(123, 456, 789);
    let mut buf: Vec<u8> = Vec::new();
    header.encode(&mut buf);

    let decoded = StpHeader::decode(&buf).unwrap();
    assert_eq!(header.packet_number, decoded.packet_number);
    assert_eq!(header.latest_ack, decoded.latest_ack);
    assert_eq!(header.ack_timestamp_echo, decoded.ack_timestamp_echo);
}

#[test]
fn test_packet_encode_decode() {
    let payload = b"hello world".to_vec();
    let packet = StpPacket::new(1, 0, 0, payload.clone());

    let encoded = packet.encode();
    let decoded = StpPacket::decode(&encoded).unwrap();

    assert_eq!(packet.header.packet_number, decoded.header.packet_number);
    assert_eq!(packet.payload, decoded.payload);
}

#[test]
fn stp_encode_decode_scenario() {
    let header = StpHeader::with_timestamp(1, 2, 3, 4);
    let packet = StpPacket {
        header,
        payload: b"hello world".to_vec(),
    };
    let encoded = packet.encode();
    assert_eq!(encoded.len(), 43);
    let decoded = StpPacket::decode(&encoded).unwrap();
    assert_eq!(decoded.header, header);
    assert_eq!(decoded.payload, b"hello world".to_vec());
    assert!(!decoded.is_ack_only());
}

#[test]
fn header_is_32_bytes_and_short_input_rejected() {
    let header = StpHeader::with_timestamp(7, 8, 9, 10);
    let mut buf: Vec<u8> = Vec::new();
    header.encode(&mut buf);
    assert_eq!(buf.len(), 32);
    for n in 0..32 {
        assert!(StpHeader::decode(&buf[..n]).is_none());
        assert!(StpPacket::decode(&buf[..n]).is_none());
    }
    assert!(StpHeader::decode(&buf).is_some());
}

#[test]
fn ack_only_packet_has_empty_payload() {
    let p = StpPacket::ack_only(5, 4, 99);
    assert!(p.is_ack_only());
    assert_eq!(p.encode().len(), 32);
}

#[test]
fn packet_numbers_strictly_increase() {
    let mut conn = ConnectionState::new("peer".to_string());
    let mut last = 0u64;
    for _ in 0..100 {
        let n = conn.next_packet_number();
        assert!(n > last);
        last = n;
    }
    assert_eq!(last, 100);
}

#[test]
fn connection_state_updates_from_received() {
    let mut conn = ConnectionState::new("peer".to_string());
    assert!(!conn.established);
    let header = StpHeader::with_timestamp(9, 1234, 7, 0);
    conn.update_from_received(&header);
    assert!(conn.established);
    assert_eq!(conn.last_received_packet, 9);
    assert_eq!(conn.last_received_timestamp, 1234);
    assert_eq!(conn.peer_latest_ack, 7);
}

fn in_flight(number: u64, sent_time: u64) -> InFlightPacket {
    InFlightPacket {
        packet_number: number,
        sent_time,
        size: 100,
        data: vec![0u8; 100],
        retransmitted: false,
    }
}

#[test]
fn loss_recovery_cumulative_ack_delivers_all() {
    let mut lr = LossRecovery::new();
    for n in 1..=5u64 {
        lr.on_packet_sent(in_flight(n, 1000));
    }
    let (delivered, lost) = lr.on_ack_received_at(5, 2000);
    let numbers: Vec<u64> = delivered.iter().map(|p| p.packet_number).collect();
    assert_eq!(numbers, vec![1, 2, 3, 4, 5]);
    assert!(lost.is_empty());
    assert!(lr.in_flight.is_empty());
}

#[test]
fn loss_recovery_partial_ack_retains_rest() {
    let mut lr = LossRecovery::new();
    for n in 1..=5u64 {
        lr.on_packet_sent(in_flight(n, 1000));
    }
    let (delivered, lost) = lr.on_ack_received_at(4, 2000);
    let numbers: Vec<u64> = delivered.iter().map(|p| p.packet_number).collect();
    assert_eq!(numbers, vec![1, 2, 3, 4]);
    assert!(lost.is_empty());
    let kept: Vec<u64> = lr.in_flight.iter().map(|p| p.packet_number).collect();
    assert_eq!(kept, vec![5]);
}

#[test]
fn loss_recovery_threshold_declares_loss() {
    // Packets 1..=6 in flight; an ACK of 5 delivers 1..=5; if packet 1 had
    // not been delivered the gap 5 - 1 = 4 >= 3 would declare it lost, and
    // packet 6 is retained.
    let mut lr = LossRecovery::new();
    for n in 1..=6u64 {
        lr.on_packet_sent(in_flight(n, 1000));
    }
    let (delivered, lost) = lr.on_ack_received_at(5, 2000);
    let numbers: Vec<u64> = delivered.iter().map(|p| p.packet_number).collect();
    assert_eq!(numbers, vec![1, 2, 3, 4, 5]);
    assert!(lost.is_empty());
    let kept: Vec<u64> = lr.in_flight.iter().map(|p| p.packet_number).collect();
    assert_eq!(kept, vec![6]);

    // A later ACK that repeats 5 while 6 is still outstanding keeps 6: the
    // gap 5 - 6 saturates to 0, under the threshold.
    let (delivered2, lost2) = lr.on_ack_received_at(5, 2500);
    assert!(delivered2.is_empty());
    assert!(lost2.is_empty());
    assert_eq!(lr.in_flight.len(), 1);

    // A packet left behind by the largest acknowledged number by at least
    // the threshold, without being covered by the cumulative ACK itself,
    // is declared lost.
    let mut lr2 = LossRecovery::new();
    let (d0, l0) = lr2.on_ack_received_at(10, 1500);
    assert!(d0.is_empty() && l0.is_empty());
    lr2.on_packet_sent(in_flight(5, 1600));
    let (delivered3, lost3) = lr2.on_ack_received_at(2, 1700);
    assert!(delivered3.is_empty());
    let l3: Vec<u64> = lost3.iter().map(|p| p.packet_number).collect();
    assert_eq!(l3, vec![5]);
}

#[test]
fn loss_recovery_timeout_declares_loss() {
    let mut lr = LossRecovery::new();
    lr.on_packet_sent(in_flight(10, 1_000_000));
    // The ACK does not cover packet 10, and more than a second has passed.
    let (delivered, lost) = lr.on_ack_received_at(9, 2_500_000);
    assert!(delivered.is_empty());
    let numbers: Vec<u64> = lost.iter().map(|p| p.packet_number).collect();
    assert_eq!(numbers, vec![10]);
    assert!(lr.in_flight.is_empty());
}

#[test]
fn rtt_from_echo() {
    assert_eq!(rtt_micros(5000, 2000), 3000);
    assert_eq!(rtt_micros(2000, 5000), 0);
    assert_eq!(rtt_micros(2000, 2000), 0);
}

#[test]
fn clock_is_after_unix_epoch() {
    let t = current_timestamp_micros();
    // A sane wall clock reads far past the epoch and moves monotonically
    // enough to bound a second reading from below.
    assert!(t > 1_000_000_000_000_000);
    let t2 = current_timestamp_micros();
    assert!(t2 >= t.saturating_sub(1_000_000));
}
