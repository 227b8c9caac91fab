use parse_pcap::direction::sender_dst_pattern;
use parse_pcap::packet::{Ipv4Header, Pkts, TcpHeader};
use parse_pcap::rtt::RttWindow;
use parse_pcap::{InflightState, RTTState, ThroughputState};

const TO_RECEIVER: [u8; 4] = [192, 168, 1, 30];
const TO_SENDER: [u8; 4] = [192, 168, 2, 30];

fn pkt(time: i64, dst: [u8; 4], len: u16, seq: u32, ack: u32) -> Pkts {
    Pkts {
        time,
        ip_p: Ipv4Header { destination: dst, total_length: len },
        tcp_p: TcpHeader { source: 41000, destination: 5201, sequence: seq, acknowledgement: ack },
    }
}

#[test]
fn throughput_of_two_stretches_adds_up() {
    let a = [pkt(0, TO_RECEIVER, 100, 0, 0), pkt(1, TO_SENDER, 52, 0, 0)];
    let b = [pkt(2, TO_RECEIVER, 900, 0, 0), pkt(3, TO_RECEIVER, 40, 0, 0)];
    let mut split = ThroughputState::new(sender_dst_pattern().unwrap());
    for p in a.iter() {
        split.on_packet(1, *p, 500);
    }
    let x = split.close_window(1);
    for p in b.iter() {
        split.on_packet(1, *p, 500);
    }
    let y = split.close_window(1);
    let mut whole = ThroughputState::new(sender_dst_pattern().unwrap());
    for p in a.iter().chain(b.iter()) {
        whole.on_packet(1, *p, 500);
    }
    assert_eq!(whole.close_window(1), x + y);
    assert_eq!(x + y, 1040);
}

#[test]
fn wrapped_sequence_number_advances() {
    let mut s = InflightState::new(sender_dst_pattern().unwrap());
    s.on_packet(1, pkt(0, TO_RECEIVER, 0, u32::MAX - 10, 0), 500);
    s.on_packet(1, pkt(1, TO_RECEIVER, 0, u32::MAX - 5, 0), 500);
    s.on_packet(1, pkt(2, TO_RECEIVER, 0, 20, 0), 500);
    assert_eq!(s.on_window(1, 500), 20);
}

#[test]
fn first_sequence_number_is_kept() {
    let mut s = InflightState::new(sender_dst_pattern().unwrap());
    s.on_packet(1, pkt(0, TO_RECEIVER, 0, 1000, 0), 500);
    s.on_packet(1, pkt(1, TO_RECEIVER, 0, 3000, 0), 500);
    // 500 lies below the first number (1000) while the highest (3000) lies
    // above it: it counts as wrapped and moves the highest
    s.on_packet(1, pkt(2, TO_RECEIVER, 0, 500, 0), 500);
    assert_eq!(s.on_window(1, 500), 500);
}

#[test]
fn acknowledgements_leave_sequence_numbers_alone() {
    let mut s = InflightState::new(sender_dst_pattern().unwrap());
    s.on_packet(1, pkt(0, TO_RECEIVER, 0, 9000, 0), 500);
    s.on_packet(1, pkt(1, TO_SENDER, 0, 123_456, 4000), 500);
    assert_eq!(s.on_window(1, 500), 5000);
    s.on_packet(1, pkt(2, TO_RECEIVER, 0, 9500, 1_000_000), 500);
    assert_eq!(s.on_window(1, 500), 5500);
}

#[test]
fn in_flight_is_never_negative() {
    let mut s = InflightState::new(sender_dst_pattern().unwrap());
    s.on_packet(1, pkt(0, TO_SENDER, 0, 0, 70_000), 500);
    s.on_packet(1, pkt(1, TO_RECEIVER, 0, 60_000, 0), 500);
    assert_eq!(s.on_window(1, 500), 0);
}

#[test]
fn first_acknowledgement_time_sticks_and_covers() {
    let mut r = RTTState::new(sender_dst_pattern().unwrap());
    r.on_packet(1, pkt(0, TO_RECEIVER, 0, 10, 0), 500);
    r.on_packet(1, pkt(5, TO_RECEIVER, 0, 20, 0), 500);
    r.on_packet(1, pkt(8, TO_RECEIVER, 0, 30, 0), 500);
    // covers the first two packets
    r.on_packet(1, pkt(100, TO_SENDER, 0, 0, 20), 500);
    // covers all three; the first two keep their times
    r.on_packet(1, pkt(300, TO_SENDER, 0, 0, 30), 500);
    let w = r.close_window(1);
    assert_eq!(w.count, 3);
    assert_eq!(w.sum, 100 + 95 + 292);
}

#[test]
fn round_trip_samples_lie_within_bounds() {
    let mut r = RTTState::new(sender_dst_pattern().unwrap());
    for k in 0..10u32 {
        r.on_packet(1, pkt(k as i64 * 100, TO_RECEIVER, 0, k, 0), 500);
    }
    r.on_packet(1, pkt(950, TO_SENDER, 0, 0, 9), 500);
    let w = r.close_window(1);
    assert!(w.sum >= 0);
    assert!(w.sum <= 500 * w.count as i128);
    // only the packets sent at 500 ms and later came back within 500 ms
    assert_eq!(w.count, 5);
    assert_eq!(w.sum, 450 + 350 + 250 + 150 + 50);
}

#[test]
fn no_wraparound_in_flight_is_largest_sent_minus_largest_acked() {
    let mut s = InflightState::new(sender_dst_pattern().unwrap());
    for (t, seq) in [(0, 1000u32), (1, 9000), (2, 4000), (3, 9000), (4, 2000)] {
        s.on_packet(1, pkt(t, TO_RECEIVER, 0, seq, 0), 500);
    }
    for (t, ack) in [(5, 3000u32), (6, 7000), (7, 5000)] {
        s.on_packet(1, pkt(t, TO_SENDER, 0, 0, ack), 500);
    }
    assert_eq!(s.on_window(1, 500), 9000 - 7000);
}

#[test]
fn closing_a_window_twice_finds_nothing_and_spares_other_flows() {
    let mut t = ThroughputState::new(sender_dst_pattern().unwrap());
    t.on_packet(1, pkt(0, TO_RECEIVER, 700, 0, 0), 500);
    t.on_packet(2, pkt(0, TO_RECEIVER, 300, 0, 0), 500);
    assert_eq!(t.close_window(1), 700);
    assert_eq!(t.close_window(1), 0);
    assert_eq!(t.close_window(2), 300);
}

#[test]
fn round_trip_report_stays_between_zero_and_limit() {
    let mut r = RTTState::new(sender_dst_pattern().unwrap());
    r.on_packet(1, pkt(0, TO_RECEIVER, 0, 10, 0), 500);
    r.on_packet(1, pkt(100, TO_RECEIVER, 0, 20, 0), 500);
    r.on_packet(1, pkt(550, TO_SENDER, 0, 0, 20), 500);
    let w = r.close_window(1);
    assert_eq!(w, RttWindow { sum: 450, count: 1 });
    let mean = (w.sum / w.count as i128) as i64;
    let reported = r.finish_window(w, mean);
    assert!((0..=500).contains(&reported));
}

#[test]
fn throughput_does_not_depend_on_packet_order() {
    let pkts = [
        pkt(0, TO_RECEIVER, 100, 0, 0),
        pkt(1, TO_SENDER, 52, 0, 0),
        pkt(2, TO_RECEIVER, 900, 0, 0),
    ];
    let mut forward = ThroughputState::new(sender_dst_pattern().unwrap());
    let mut backward = ThroughputState::new(sender_dst_pattern().unwrap());
    for p in pkts.iter() {
        forward.on_packet(1, *p, 500);
    }
    for p in pkts.iter().rev() {
        backward.on_packet(1, *p, 500);
    }
    assert_eq!(forward.close_window(1), backward.close_window(1));
}

#[test]
fn reported_round_trip_time_is_always_in_range() {
    let mut r = RTTState::new(sender_dst_pattern().unwrap());
    assert!((0..=500).contains(&r.last_rtt()));
    r.on_packet(1, pkt(0, TO_RECEIVER, 0, 10, 0), 500);
    r.on_packet(1, pkt(500, TO_SENDER, 0, 0, 10), 500);
    let w = r.close_window(1);
    assert_eq!(w, RttWindow { sum: 500, count: 1 });
    assert_eq!(r.finish_window(w, 500), 500);
    assert!((0..=500).contains(&r.last_rtt()));
}
