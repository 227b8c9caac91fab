use parse_pcap::direction::sender_dst_pattern;
use parse_pcap::measure::{MeasureKind, MeasureTotals};
use parse_pcap::measurements::{FlowMeasurements, WindowTotals};
use parse_pcap::packet::{Ipv4Header, Pkts, TcpHeader};
use parse_pcap::report::{csv_contents, printable};
use parse_pcap::rtt::RttWindow;
use parse_pcap::selection::{matching_files, measured_flows, min_start_time, pcap_pattern, FileEntry};
use parse_pcap::pattern::Pattern;

const TO_RECEIVER: [u8; 4] = [192, 168, 1, 20];
const TO_SENDER: [u8; 4] = [192, 168, 2, 20];

/// A data packet from sender port `port` toward the receivers.
fn data(time: i64, port: u16, len: u16, seq: u32) -> Pkts {
    Pkts {
        time,
        ip_p: Ipv4Header { destination: TO_RECEIVER, total_length: len },
        tcp_p: TcpHeader { source: port, destination: 5201, sequence: seq, acknowledgement: 0 },
    }
}

/// An acknowledgement back to sender port `port`.
fn ack(time: i64, port: u16, ack: u32) -> Pkts {
    Pkts {
        time,
        ip_p: Ipv4Header { destination: TO_SENDER, total_length: 52 },
        tcp_p: TcpHeader { source: 5201, destination: port, sequence: 0, acknowledgement: ack },
    }
}

const ALL: [MeasureKind; 3] = [MeasureKind::Throughput, MeasureKind::Inflight, MeasureKind::Rtt];

fn all_measures(g: i64) -> FlowMeasurements {
    FlowMeasurements::new(sender_dst_pattern().unwrap(), g, &ALL)
}

/// Feeds one packet and records every window it closes, with `values` for
/// each.
fn feed(m: &mut FlowMeasurements, p: Pkts, values: &[i64]) -> Vec<i64> {
    let mut ends = Vec::new();
    let mut closed = m.on_packet(p);
    while let Some(t) = closed {
        ends.push(t.window_end);
        assert!(m.record_window(&t, values));
        closed = m.next_window(t.flow_label, p.time);
    }
    ends
}

#[test]
fn measure_labels() {
    assert_eq!(MeasureKind::Throughput.label(), "throughput");
    assert_eq!(MeasureKind::Inflight.label(), "inflight");
    assert_eq!(MeasureKind::Rtt.label(), "rtt");
}

#[test]
fn flow_label_is_the_sender_port() {
    let m = all_measures(500);
    assert_eq!(m.flow_label(&data(0, 40001, 100, 0)), 40001);
    assert_eq!(m.flow_label(&ack(0, 40001, 0)), 40001);
    assert_eq!(m.granularity(), 500);
}

#[test]
fn windows_close_after_their_end() {
    let mut m = all_measures(500);
    assert_eq!(m.on_packet(data(1000, 7, 1500, 10_000)), None);
    assert_eq!(m.on_packet(ack(1020, 7, 10_000)), None);
    assert_eq!(m.on_packet(data(1500, 7, 1500, 11_500)), None);
    let closed = m.on_packet(data(1501, 7, 1000, 13_000)).unwrap();
    assert_eq!(
        closed,
        WindowTotals {
            flow_label: 7,
            window_end: 1500,
            parts: vec![
                MeasureTotals::Throughput(4000),
                MeasureTotals::Inflight(3000),
                MeasureTotals::Rtt(RttWindow { sum: 20, count: 1 }),
            ],
        }
    );
    assert!(m.record_window(&closed, &[64, 0, 20]));
    // the same window cannot be recorded twice
    assert!(!m.record_window(&closed, &[64, 0, 20]));
    assert_eq!(m.next_window(7, 1501), None);
    assert_eq!(m.on_packet(ack(1900, 7, 14_000)), None);
    let next = m.on_packet(data(2001, 7, 100, 14_000)).unwrap();
    assert_eq!(next.window_end, 2000);
    assert_eq!(
        next.parts,
        vec![
            MeasureTotals::Throughput(100),
            MeasureTotals::Inflight(0),
            MeasureTotals::Rtt(RttWindow { sum: 399 + 400, count: 2 }),
        ]
    );
    assert!(m.record_window(&next, &[1, 0, 399]));
    let table = m.into_table();
    assert_eq!(table.len(), 1);
    assert_eq!(table[&7], vec![vec![1500, 64, 3000, 20], vec![2000, 1, 0, 399]]);
}

#[test]
fn every_elapsed_window_gets_a_row() {
    let mut m = all_measures(500);
    assert_eq!(feed(&mut m, data(0, 3, 100, 1), &[0, 0, 0]), Vec::<i64>::new());
    assert_eq!(feed(&mut m, data(2000, 3, 100, 2), &[0, 0, 0]), vec![500, 1000, 1500]);
    let rows = &m.into_table()[&3];
    let ends: Vec<i64> = rows.iter().map(|r| r[0]).collect();
    assert_eq!(ends, vec![500, 1000, 1500]);
}

#[test]
fn windows_after_a_gap_report_nothing_new() {
    let mut m = all_measures(100);
    feed(&mut m, data(0, 4, 200, 1), &[0, 0, 0]);
    let first = m.on_packet(data(350, 4, 50, 2)).unwrap();
    assert_eq!(first.window_end, 100);
    assert_eq!(first.parts[0], MeasureTotals::Throughput(250));
    assert!(m.record_window(&first, &[9, 0, 0]));
    let second = m.next_window(4, 350).unwrap();
    assert_eq!(second.window_end, 200);
    assert_eq!(second.parts[0], MeasureTotals::Throughput(0));
    assert!(m.record_window(&second, &[0, 0, 0]));
    let third = m.next_window(4, 350).unwrap();
    assert_eq!(third.window_end, 300);
    assert!(m.record_window(&third, &[0, 0, 0]));
    assert_eq!(m.next_window(4, 350), None);
}

#[test]
fn measurements_are_chosen_by_the_caller() {
    let to_receiver = |time, seq| Pkts {
        time,
        ip_p: Ipv4Header { destination: [192, 168, 1, 2], total_length: 60 },
        tcp_p: TcpHeader { source: 5000, destination: 5201, sequence: seq, acknowledgement: 0 },
    };
    let back = Pkts {
        time: 100,
        ip_p: Ipv4Header { destination: [192, 168, 2, 3], total_length: 52 },
        tcp_p: TcpHeader { source: 5201, destination: 5000, sequence: 0, acknowledgement: 400 },
    };
    let mut m = FlowMeasurements::new(sender_dst_pattern().unwrap(), 500, &[MeasureKind::Inflight]);
    assert_eq!(m.on_packet(to_receiver(0, 1000)), None);
    assert_eq!(m.on_packet(back), None);
    let t = m.on_packet(to_receiver(600, 1000)).unwrap();
    assert_eq!(t.parts, vec![MeasureTotals::Inflight(600)]);
    assert!(m.record_window(&t, &[0]));
    let table = m.into_table();
    assert_eq!(table[&5000], vec![vec![500, 600]]);
}

#[test]
fn record_window_refuses_mismatched_values() {
    let mut m = all_measures(100);
    m.on_packet(data(0, 5, 10, 0));
    let t = m.on_packet(data(200, 5, 10, 0)).unwrap();
    assert!(!m.record_window(&t, &[0, 0]));
    let wrong = WindowTotals { flow_label: 5, window_end: 100, parts: vec![t.parts[1], t.parts[0], t.parts[2]] };
    assert!(!m.record_window(&wrong, &[0, 0, 0]));
    assert!(m.record_window(&t, &[0, 0, 0]));
}

#[test]
fn record_window_refuses_round_trip_out_of_range() {
    let mut m = all_measures(100);
    m.on_packet(data(0, 5, 10, 100));
    m.on_packet(ack(30, 5, 100));
    let t = m.on_packet(data(200, 5, 10, 200)).unwrap();
    assert_eq!(t.parts[2], MeasureTotals::Rtt(RttWindow { sum: 30, count: 1 }));
    assert!(!m.record_window(&t, &[0, 0, 501]));
    assert!(!m.record_window(&t, &[0, 0, -1]));
    assert!(m.record_window(&t, &[0, 0, 30]));
}

#[test]
fn flows_have_separate_windows() {
    let mut m = all_measures(100);
    assert_eq!(m.on_packet(data(0, 1, 10, 0)), None);
    assert_eq!(m.on_packet(data(50, 2, 20, 0)), None);
    let c1 = m.on_packet(data(101, 1, 30, 0)).unwrap();
    assert_eq!((c1.flow_label, c1.window_end, c1.parts[0]), (1, 100, MeasureTotals::Throughput(40)));
    assert_eq!(m.on_packet(data(120, 2, 20, 0)), None);
    assert!(m.record_window(&c1, &[0, 0, 0]));
    let table = m.into_table();
    assert_eq!(table[&1], vec![vec![100, 0, 0, 0]]);
    assert_eq!(table[&2], Vec::<Vec<i64>>::new());
}

#[test]
fn rows_are_one_granularity_apart() {
    let g = 250;
    let mut m = all_measures(g);
    let mut t = 0;
    for k in 0..20 {
        t += 130 + 90 * (k % 4);
        feed(&mut m, data(t, 9, 100, 0), &[0, 0, 0]);
    }
    let rows = &m.into_table()[&9];
    assert!(rows.len() >= 2);
    for k in 1..rows.len() {
        assert_eq!(rows[k][0] - rows[k - 1][0], g);
        assert_eq!(rows[k].len(), 4);
    }
}

#[test]
fn no_further_windows_without_positive_granularity() {
    let mut m = all_measures(0);
    assert_eq!(m.on_packet(data(10, 6, 1, 0)), None);
    let t = m.on_packet(data(50, 6, 1, 0)).unwrap();
    assert_eq!(t.window_end, 10);
    assert!(m.record_window(&t, &[0, 0, 0]));
    assert_eq!(m.next_window(6, 50), None);
}

#[test]
fn record_window_refuses_overflowing_end() {
    let mut m = all_measures(i64::MAX);
    assert_eq!(m.on_packet(data(-10, 3, 1, 0)), None);
    let c = m.on_packet(data(i64::MAX - 9, 3, 1, 0)).unwrap();
    assert!(!m.record_window(&c, &[0, 0, 0]));
}

#[test]
fn csv_contents_writes_header_and_relative_times() {
    let labels = ["throughput", "inflight", "rtt"];
    let rows = vec![vec![1500, 64, 3000, 20], vec![2000, 1, 0, -399]];
    assert!(printable(&rows, 1000));
    let text = csv_contents(&labels, &rows, 1000);
    assert_eq!(text, "time,throughput,inflight,rtt\n500,64,3000,20\n1000,1,0,-399\n");
    let only_time = vec![vec![7]];
    assert_eq!(csv_contents(&[], &only_time, 7), "time,\n0,\n");
}

#[test]
fn rows_without_time_are_not_printable() {
    let rows = vec![vec![1, 2], vec![]];
    assert!(!printable(&rows, 0));
    let far = vec![vec![i64::MAX, 1]];
    assert!(!printable(&far, -1));
    assert!(printable(&[], i64::MIN));
}

#[test]
fn pcap_pattern_wraps_the_argument() {
    assert_eq!(pcap_pattern("80.*bbr1_bbr1"), ".*80.*bbr1_bbr1.*.pcap$");
    assert_eq!(pcap_pattern(""), ".*.*.pcap$");
}

#[test]
fn matching_files_keeps_matching_plain_files() {
    let p = Pattern::new(&pcap_pattern("bbr")).unwrap();
    let entries = vec![
        FileEntry { name: String::from("bbr_tarta.pcap"), is_dir: false },
        FileEntry { name: String::from("cubic_tarta.pcap"), is_dir: false },
        FileEntry { name: String::from("bbr_dir.pcap"), is_dir: true },
        FileEntry { name: String::from("x_bbr_y.pcap"), is_dir: false },
        FileEntry { name: String::from("bbr.pcap.txt"), is_dir: false },
    ];
    assert_eq!(matching_files(&p, &entries), vec![0, 3]);
}

#[test]
fn measured_flows_drop_empty_flows_and_find_start() {
    let flows = vec![
        (1u16, vec![vec![900, 1], vec![1000, 2]]),
        (2u16, vec![]),
        (3u16, vec![vec![]]),
        (4u16, vec![vec![800, 5]]),
    ];
    let (start, kept) = measured_flows(flows);
    assert_eq!(start, 800);
    assert_eq!(kept, vec![(1u16, vec![vec![900, 1], vec![1000, 2]]), (4u16, vec![vec![800, 5]])]);
    let (start, kept) = measured_flows(vec![(5u16, vec![])]);
    assert_eq!(start, i64::MAX);
    assert!(kept.is_empty());
}

#[test]
fn min_start_time_of_captures() {
    assert_eq!(min_start_time(&[]), i64::MAX);
    assert_eq!(min_start_time(&[30, -4, 12]), -4);
}
