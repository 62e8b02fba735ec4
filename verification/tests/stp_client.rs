use speed_cli::protocol::{StpHeader, StpPacket};
use speed_cli::stp_client::StpClientState;

#[test]
fn client_prepares_numbered_paced_sends() {
    let mut client = StpClientState::new("server".to_string());
    let first = client.prepare_send(b"abc".to_vec(), 1_000_000);
    assert_eq!(first.datagram.len(), 35);
    let decoded = StpPacket::decode(&first.datagram).unwrap();
    assert_eq!(decoded.header.packet_number, 1);
    assert_eq!(decoded.payload, b"abc".to_vec());
    // The first send goes out at once.
    assert!(first.wait_micros.is_none());

    let second = client.prepare_send(b"defg".to_vec(), 1_000_000);
    let decoded = StpPacket::decode(&second.datagram).unwrap();
    assert_eq!(decoded.header.packet_number, 2);
    // Asked again at the same instant, the pacer imposes a gap.
    assert!(second.wait_micros.is_some());

    assert_eq!(client.packets_sent, 2);
    assert_eq!(client.bytes_sent, 35 + 36);
    assert_eq!(client.loss_recovery.in_flight.len(), 2);
}

#[test]
fn client_counts_deliveries_from_acks() {
    let mut client = StpClientState::new("server".to_string());
    client.prepare_send(b"one".to_vec(), 0);
    client.prepare_send(b"two".to_vec(), 0);

    // An ACK covering both packets, echoing a timestamp 5 ms old.
    let ack = StpPacket {
        header: StpHeader::with_timestamp(1, 77, 2, 995_000),
        payload: Vec::new(),
    };
    let retransmits = client.on_ack_datagram(&ack.encode(), 1_000_000);
    assert!(retransmits.is_empty());
    assert_eq!(client.packets_acked, 2);
    assert_eq!(client.bytes_acked, client.bytes_sent);
    assert!(client.loss_recovery.in_flight.is_empty());
    assert_eq!(client.rtt_samples, vec![5000, 5000]);
    assert!(client.connection.established);
    assert_eq!(client.connection.last_received_packet, 1);
}

#[test]
fn client_retransmits_timed_out_packets_under_fresh_numbers() {
    let mut client = StpClientState::new("server".to_string());
    client.prepare_send(b"stale".to_vec(), 0);

    // The ACK does not cover packet 1, and far more than the loss timeout
    // has passed since it was sent; its send time is the clock, so an ACK
    // far in the future times it out.
    let sent_time = client.loss_recovery.in_flight[0].sent_time;
    let ack = StpPacket {
        header: StpHeader::with_timestamp(9, 0, 0, 0),
        payload: Vec::new(),
    };
    let retransmits = client.on_ack_datagram(&ack.encode(), sent_time + 2_000_000);
    assert_eq!(retransmits.len(), 1);
    let resent = StpPacket::decode(&retransmits[0]).unwrap();
    assert_eq!(resent.header.packet_number, 2);
    assert_eq!(resent.payload, b"stale".to_vec());
    assert_eq!(client.loss_recovery.in_flight.len(), 1);
    assert!(client.loss_recovery.in_flight[0].retransmitted);
}

#[test]
fn client_ignores_short_datagrams() {
    let mut client = StpClientState::new("server".to_string());
    client.prepare_send(b"x".to_vec(), 0);
    let before = client.clone();
    let retransmits = client.on_ack_datagram(&[0u8; 31], 999);
    assert!(retransmits.is_empty());
    assert_eq!(client, before);
}

#[test]
fn client_window_gates_sending() {
    let client = StpClientState::new("server".to_string());
    // Nothing in flight: the initial window admits data.
    assert!(client.can_send());
}
