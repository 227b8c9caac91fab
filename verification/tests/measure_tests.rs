use parse_pcap::direction::{is_toward_receiver, sender_dst_pattern};
use parse_pcap::inflight::{InflightState, SeqProgress};
use parse_pcap::packet::{Ipv4Header, Pkts, TcpHeader};
use parse_pcap::pattern::{Pattern, PatternError};
use parse_pcap::rtt::{PacketTime, RTTState, RttWindow};
use parse_pcap::throughput::ThroughputState;

const TO_RECEIVER: [u8; 4] = [192, 168, 1, 20];
const TO_SENDER: [u8; 4] = [192, 168, 2, 20];

fn pkt(time: i64, dst: [u8; 4], len: u16, seq: u32, ack: u32) -> Pkts {
    Pkts {
        time,
        ip_p: Ipv4Header { destination: dst, total_length: len },
        tcp_p: TcpHeader { source: 40001, destination: 5201, sequence: seq, acknowledgement: ack },
    }
}

fn pattern() -> Pattern {
    sender_dst_pattern().unwrap()
}

#[test]
fn invalid_pattern_is_refused() {
    assert!(matches!(Pattern::new("192.168.(1"), Err(PatternError::Invalid)));
    assert!(Pattern::new(".*bbr.*.pcap$").is_ok());
}

#[test]
fn sender_destination_pattern_matches_receiver_subnet() {
    let p = pattern();
    assert!(p.is_match("192.168.1.5"));
    assert!(p.is_match("192.168.10.5"));
    assert!(p.is_match("10.192.168.123"));
    assert!(!p.is_match("192.168.2.5"));
    assert!(!p.is_match("192.168.1"));
    assert!(is_toward_receiver(&p, &pkt(0, TO_RECEIVER, 0, 0, 0)));
    assert!(!is_toward_receiver(&p, &pkt(0, TO_SENDER, 0, 0, 0)));
}

#[test]
fn pattern_clone_matches_alike() {
    let p = Pattern::new("^a+b$").unwrap();
    let q = p.clone();
    assert!(q.is_match("aab"));
    assert!(!q.is_match("ba"));
}

#[test]
fn throughput_counts_bytes_toward_receivers() {
    let mut t = ThroughputState::new(pattern());
    assert_eq!(t.get_label(), "throughput");
    t.on_packet(7, pkt(0, TO_RECEIVER, 1500, 0, 0), 500);
    t.on_packet(7, pkt(1, TO_SENDER, 52, 0, 0), 500);
    t.on_packet(7, pkt(2, TO_RECEIVER, 1000, 0, 0), 500);
    t.on_packet(8, pkt(2, TO_RECEIVER, 60, 0, 0), 500);
    assert_eq!(t.close_window(7), 2500);
    // the window starts again empty
    assert_eq!(t.close_window(7), 0);
    assert_eq!(t.close_window(8), 60);
    assert!(t.tracks(8));
    assert!(!t.tracks(9));
}

#[test]
fn throughput_between_and_packet_len() {
    let t = ThroughputState::new(pattern());
    let pkts = [pkt(0, TO_RECEIVER, 65535, 0, 0), pkt(0, TO_RECEIVER, 65535, 0, 0), pkt(0, TO_SENDER, 9, 0, 0)];
    assert_eq!(t.calculate_throughput_between(&pkts), 131070);
    assert_eq!(t.calculate_throughput_between(&[]), 0);
    assert_eq!(ThroughputState::packet_len(&pkts[2]), 9);
}

#[test]
fn inflight_is_highest_sent_minus_highest_acked() {
    let mut s = InflightState::new(pattern());
    assert_eq!(s.get_label(), "inflight");
    assert!(!s.tracks(7));
    s.on_packet(7, pkt(0, TO_RECEIVER, 0, 1000, 0), 500);
    s.on_packet(7, pkt(1, TO_RECEIVER, 0, 5000, 0), 500);
    s.on_packet(7, pkt(2, TO_RECEIVER, 0, 3000, 0), 500);
    assert_eq!(s.on_window(7, 500), 5000);
    s.on_packet(7, pkt(3, TO_SENDER, 0, 0, 4000), 500);
    assert_eq!(s.on_window(7, 500), 1000);
    s.on_packet(7, pkt(4, TO_SENDER, 0, 0, 6000), 500);
    assert_eq!(s.on_window(7, 500), 0);
}

#[test]
fn inflight_follows_sequence_numbers_past_wrap() {
    let mut s = InflightState::new(pattern());
    let first = 4_000_000_000u32;
    s.on_packet(3, pkt(0, TO_RECEIVER, 0, first, 0), 500);
    s.on_packet(3, pkt(1, TO_RECEIVER, 0, first + 100_000, 0), 500);
    s.on_packet(3, pkt(1, TO_SENDER, 0, 0, first), 500);
    s.on_packet(3, pkt(1, TO_SENDER, 0, 0, first + 1000), 500);
    assert_eq!(s.on_window(3, 500), 99_000);
    // wrapped: 200 lies below the first number while the highest lies above it
    s.on_packet(3, pkt(2, TO_RECEIVER, 0, 200, 0), 500);
    assert_eq!(s.on_window(3, 500), 0);
    s.on_packet(3, pkt(3, TO_RECEIVER, 0, 300, 0), 500);
    s.on_packet(3, pkt(4, TO_SENDER, 0, 0, 250), 500);
    assert_eq!(s.on_window(3, 500), 50);
    // both wrapped: the smaller distance below the first number is behind
    s.on_packet(3, pkt(5, TO_SENDER, 0, 0, 100), 500);
    assert_eq!(s.on_window(3, 500), 50);
}

#[test]
fn inflight_repeated_number_changes_nothing() {
    let mut s = InflightState::new(pattern());
    s.on_packet(1, pkt(0, TO_RECEIVER, 0, 700, 0), 500);
    s.on_packet(1, pkt(0, TO_SENDER, 0, 0, 200), 500);
    s.on_packet(1, pkt(1, TO_RECEIVER, 0, 700, 0), 500);
    s.on_packet(1, pkt(1, TO_SENDER, 0, 0, 200), 500);
    assert_eq!(s.on_window(1, 500), 500);
    let zero = SeqProgress { last_sent: 0, last_acked: 0, first_sent: 0, first_acked: 0 };
    assert_eq!(zero, zero.clone());
}

#[test]
fn rtt_averages_acknowledged_packets() {
    let mut r = RTTState::new(pattern());
    assert_eq!(r.get_label(), "rtt");
    assert_eq!(r.last_rtt(), 0);
    r.on_packet(5, pkt(0, TO_RECEIVER, 0, 100, 0), 500);
    r.on_packet(5, pkt(10, TO_RECEIVER, 0, 200, 0), 500);
    r.on_packet(5, pkt(20, TO_RECEIVER, 0, 300, 0), 500);
    r.on_packet(5, pkt(50, TO_SENDER, 0, 0, 200), 500);
    // the second acknowledgement does not change the first's time
    r.on_packet(5, pkt(80, TO_SENDER, 0, 0, 300), 500);
    let w = r.close_window(5);
    assert_eq!(w, RttWindow { sum: 50 + 40 + 60, count: 3 });
    assert_eq!(r.finish_window(w, 50), 50);
    assert_eq!(r.last_rtt(), 50);
    // the list was cleared up to the last acknowledged packet
    assert_eq!(r.close_window(5), RttWindow { sum: 0, count: 0 });
    assert!(r.tracks(5));
    assert!(!r.tracks(6));
}

#[test]
fn rtt_throws_away_long_round_trips() {
    let mut r = RTTState::new(pattern());
    r.on_packet(5, pkt(0, TO_RECEIVER, 0, 100, 0), 500);
    r.on_packet(5, pkt(600, TO_RECEIVER, 0, 200, 0), 500);
    r.on_packet(5, pkt(601, TO_SENDER, 0, 0, 100), 500);
    r.on_packet(5, pkt(700, TO_SENDER, 0, 0, 200), 500);
    let w = r.close_window(5);
    assert_eq!(w, RttWindow { sum: 100, count: 1 });
    // both packets were acknowledged, so both left the list
    r.on_packet(5, pkt(701, TO_SENDER, 0, 0, 200), 500);
    assert_eq!(r.close_window(5), RttWindow { sum: 0, count: 0 });
}

#[test]
fn rtt_clears_up_to_last_acknowledged_packet() {
    let mut r = RTTState::new(pattern());
    r.on_packet(1, pkt(0, TO_RECEIVER, 0, 100, 0), 500);
    r.on_packet(1, pkt(590, TO_RECEIVER, 0, 200, 0), 500);
    r.on_packet(1, pkt(600, TO_SENDER, 0, 0, 200), 500);
    let w = r.close_window(1);
    assert_eq!(w, RttWindow { sum: 10, count: 1 });
    assert_eq!(r.finish_window(w, 10), 10);
    r.on_packet(1, pkt(1000, TO_RECEIVER, 0, 300, 0), 500);
    r.on_packet(1, pkt(1020, TO_SENDER, 0, 0, 300), 500);
    let w = r.close_window(1);
    assert_eq!(w, RttWindow { sum: 20, count: 1 });
    assert_eq!(r.finish_window(w, 20), 20);
}

#[test]
fn rtt_keeps_unacknowledged_packets_after_the_last_acknowledged() {
    let mut r = RTTState::new(pattern());
    r.on_packet(1, pkt(0, TO_RECEIVER, 0, 100, 0), 500);
    r.on_packet(1, pkt(5, TO_RECEIVER, 0, 200, 0), 500);
    r.on_packet(1, pkt(7, TO_RECEIVER, 0, 300, 0), 500);
    r.on_packet(1, pkt(40, TO_SENDER, 0, 0, 100), 500);
    assert_eq!(r.close_window(1), RttWindow { sum: 40, count: 1 });
    r.on_packet(1, pkt(70, TO_SENDER, 0, 0, 300), 500);
    assert_eq!(r.close_window(1), RttWindow { sum: 65 + 63, count: 2 });
}

#[test]
fn rtt_without_samples_keeps_last_report() {
    let mut r = RTTState::new(pattern());
    r.on_packet(5, pkt(0, TO_RECEIVER, 0, 100, 0), 500);
    let w = r.close_window(5);
    assert_eq!(w.count, 0);
    assert_eq!(r.finish_window(w, 123), 0);
    r.on_packet(5, pkt(30, TO_SENDER, 0, 0, 100), 500);
    let w = r.close_window(5);
    assert_eq!(r.finish_window(w, 30), 30);
    let w = r.close_window(5);
    assert_eq!(r.finish_window(w, 999), 30);
    let t = PacketTime { seq_num: 1, sent_time: 2, ack_time: -1 };
    assert_eq!(t, t.clone());
}

#[test]
fn rtt_acknowledgement_at_or_before_send_counts_as_zero() {
    let mut r = RTTState::new(pattern());
    r.on_packet(5, pkt(10, TO_RECEIVER, 0, 100, 0), 500);
    r.on_packet(5, pkt(10, TO_SENDER, 0, 0, 100), 500);
    assert_eq!(r.close_window(5), RttWindow { sum: 0, count: 1 });
}
