use parse_pcap::packet::{parse, timestamp_millis, try_parse, Ipv4Header, Pkts, TcpHeader};
use parse_pcap::text::{ipv4_text, push_signed, push_unsigned};

/// An Ethernet frame carrying an IPv4 datagram (header length `ihl` words)
/// carrying a TCP segment with the given header fields.
fn frame(dst: [u8; 4], ihl: u8, src_port: u16, dst_port: u16, seq: u32, ack: u32, data: usize) -> Vec<u8> {
    let mut f = vec![0u8; 14];
    f[12] = 0x08;
    let header = (ihl as usize) * 4;
    let total = header + 20 + data;
    let mut ip = vec![0u8; header];
    ip[0] = 0x40 | ihl;
    ip[2] = (total >> 8) as u8;
    ip[3] = total as u8;
    ip[9] = 6;
    ip[12..16].copy_from_slice(&[192, 168, 2, 9]);
    ip[16..20].copy_from_slice(&dst);
    f.extend_from_slice(&ip);
    let mut tcp = vec![0u8; 20];
    tcp[0..2].copy_from_slice(&src_port.to_be_bytes());
    tcp[2..4].copy_from_slice(&dst_port.to_be_bytes());
    tcp[4..8].copy_from_slice(&seq.to_be_bytes());
    tcp[8..12].copy_from_slice(&ack.to_be_bytes());
    tcp[12] = 0x50;
    f.extend_from_slice(&tcp);
    f.extend(std::iter::repeat(7u8).take(data));
    f
}

#[test]
fn parse_reads_every_header_field() {
    let f = frame([192, 168, 1, 7], 5, 5201, 40000, 1000, 2000, 10);
    let p = parse(f, 1234);
    assert_eq!(p.time, 1234);
    assert_eq!(p.ip_p.destination, [192, 168, 1, 7]);
    assert_eq!(p.ip_p.total_length, 50);
    assert_eq!(p.tcp_p.source, 5201);
    assert_eq!(p.tcp_p.destination, 40000);
    assert_eq!(p.tcp_p.sequence, 1000);
    assert_eq!(p.tcp_p.acknowledgement, 2000);
}

#[test]
fn try_parse_agrees_with_parse() {
    let f = frame([192, 168, 1, 7], 5, 5201, 40000, 1000, 2000, 3);
    let p = try_parse(f.clone(), 9).unwrap();
    let q = parse(f, 9);
    assert_eq!(p.tcp_p.sequence, q.tcp_p.sequence);
    assert_eq!(p.ip_p.destination, q.ip_p.destination);
    assert_eq!(p.time, 9);
}

#[test]
fn parse_skips_ipv4_options() {
    let f = frame([10, 0, 0, 1], 6, 80, 443, 0xdead_beef, 0x0102_0304, 0);
    let p = parse(f, -5);
    assert_eq!(p.ip_p.total_length, 44);
    assert_eq!(p.tcp_p.source, 80);
    assert_eq!(p.tcp_p.destination, 443);
    assert_eq!(p.tcp_p.sequence, 0xdead_beef);
    assert_eq!(p.tcp_p.acknowledgement, 0x0102_0304);
}

#[test]
fn parse_refuses_short_frames() {
    assert!(try_parse(vec![0u8; 13], 0).is_none());
    assert!(try_parse(vec![0u8; 33], 0).is_none());
    // Ethernet and IPv4 headers but the TCP header is cut short.
    let mut f = frame([192, 168, 1, 7], 5, 1, 2, 3, 4, 0);
    f.truncate(14 + 20 + 19);
    assert!(try_parse(f, 0).is_none());
}

#[test]
fn parse_bounds_the_segment_by_total_length() {
    // The total length claims only the IPv4 header: no TCP header follows.
    let mut f = frame([192, 168, 1, 7], 5, 1, 2, 3, 4, 0);
    f[14 + 2] = 0;
    f[14 + 3] = 20;
    assert!(try_parse(f, 0).is_none());
}

#[test]
fn timestamp_millis_combines_seconds_and_microseconds() {
    assert_eq!(timestamp_millis(1, 500_000), Some(1500));
    assert_eq!(timestamp_millis(0, 999), Some(0));
    assert_eq!(timestamp_millis(2, -1500), Some(1999));
    assert_eq!(timestamp_millis(i64::MAX / 1000 + 1, 0), None);
    assert_eq!(timestamp_millis(i64::MAX / 1000, 999_999_999), None);
}

#[test]
fn ipv4_text_is_dotted_decimal() {
    assert_eq!(ipv4_text([192, 168, 1, 5]), "192.168.1.5");
    assert_eq!(ipv4_text([0, 10, 100, 255]), "0.10.100.255");
}

#[test]
fn decimal_text_of_integers() {
    let mut s = String::new();
    push_unsigned(&mut s, 0);
    push_unsigned(&mut s, 1907);
    assert_eq!(s, "01907");
    let mut t = String::new();
    push_signed(&mut t, -42);
    push_signed(&mut t, i64::MIN);
    assert_eq!(t, format!("-42{}", i64::MIN));
}

#[test]
fn packets_are_plain_values() {
    let p = Pkts {
        time: 3,
        ip_p: Ipv4Header { destination: [1, 2, 3, 4], total_length: 60 },
        tcp_p: TcpHeader { source: 1, destination: 2, sequence: 3, acknowledgement: 4 },
    };
    let q = p;
    assert_eq!(q.ip_p.total_length, p.ip_p.total_length);
}
