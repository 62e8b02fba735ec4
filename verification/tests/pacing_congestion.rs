use speed_cli::congestion::{BandwidthFilter, BbrCongestionControl};
use speed_cli::pacing::{send_duration_micros, Pacer};

#[test]
fn test_pacer_initialization() {
    let pacer = Pacer::new(10000);
    assert_eq!(pacer.get_rate(), 10000);
}

#[test]
fn test_pacer_rate_update() {
    let mut pacer = Pacer::new(10000);
    pacer.update_rate(20000);
    assert_eq!(pacer.get_rate(), 20000);
}

#[test]
fn test_pacer_minimum_rate() {
    let pacer = Pacer::new(100);
    assert_eq!(pacer.get_rate(), 1000);
}

#[test]
fn pacer_rate_floor_holds_after_any_update() {
    let mut pacer = Pacer::new(0);
    assert!(pacer.get_rate() >= 1000);
    pacer.update_rate(999);
    assert!(pacer.get_rate() >= 1000);
    pacer.update_rate(0);
    assert!(pacer.get_rate() >= 1000);
    pacer.update_rate(u64::MAX);
    assert_eq!(pacer.get_rate(), u64::MAX);
}

#[test]
fn pacer_schedules_gaps_at_the_rate() {
    // 1000 bytes at 1000 bytes/s take one second.
    assert_eq!(send_duration_micros(1000, 1000), 1_000_000);
    assert_eq!(send_duration_micros(500, 1000), 500_000);

    let mut pacer = Pacer::new(1000);
    // The first send goes out at once.
    assert_eq!(pacer.schedule_next_send(1000, 1_000_000), None);
    // The next is due a second later; asking right away waits the gap.
    assert_eq!(pacer.schedule_next_send(1000, 1_000_000), Some(1_000_000));
    // Asking after the ideal time sends at once.
    assert_eq!(pacer.schedule_next_send(1000, 10_000_000), None);
}

#[test]
fn test_bbr_initialization() {
    let bbr = BbrCongestionControl::new();
    assert!(bbr.get_cwnd() > 0);
    assert!(bbr.get_sending_rate() >= 1000);
}

#[test]
fn test_bandwidth_filter() {
    let mut filter = BandwidthFilter::new();
    let now: u64 = 10_000_000;

    filter.update(1000, now, 1_000_000);
    filter.update(2000, now + 100_000, 1_000_000);
    filter.update(1500, now + 200_000, 1_000_000);

    assert_eq!(filter.get_max_bw(), 2000);
}

#[test]
fn bandwidth_filter_forgets_stale_samples() {
    let mut filter = BandwidthFilter::new();
    filter.update(9000, 1_000_000, 1_000_000);
    // Two seconds later the old maximum has left the window.
    filter.update(100, 3_000_000, 1_000_000);
    assert_eq!(filter.get_max_bw(), 100);
}

#[test]
fn bbr_tracks_acks_and_allows_sends_under_cwnd() {
    let mut bbr = BbrCongestionControl::new_at(0);
    let cwnd = bbr.get_cwnd();
    assert!(bbr.can_send(cwnd - 1));
    assert!(!bbr.can_send(cwnd));

    // Feed a steady stream of ACKs: 1400 bytes per 10 ms RTT.
    let mut now: u64 = 0;
    for _ in 0..50 {
        now += 10_000;
        bbr.on_ack_received(1400, 10_000, now);
    }
    assert!(bbr.get_sending_rate() >= 1000);
    assert!(bbr.get_cwnd() >= 5600);
    assert!(bbr.get_cwnd() <= 1_048_576);
}

#[test]
fn bbr_rate_floor_holds_with_no_samples() {
    let mut bbr = BbrCongestionControl::new_at(0);
    bbr.on_packet_sent(1);
    bbr.on_packet_lost(2);
    assert!(bbr.get_sending_rate() >= 1000);
}
