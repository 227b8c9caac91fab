//! Decoding captured Ethernet/IPv4/TCP frames into the fields the
//! measurements read, through the `pnet_packet` crate.
use vstd::prelude::*;
use pnet_packet::Packet;
use pnet_packet::ethernet::EthernetPacket;
use pnet_packet::ipv4::Ipv4Packet;
use pnet_packet::tcp::TcpPacket;

verus! {

/// The IPv4 header fields the measurements read.
#[derive(Debug, Clone, Copy)]
pub struct Ipv4Header {
    /// The destination address, as its four octets.
    pub destination: [u8; 4],
    /// The total length field: header and data, in bytes.
    pub total_length: u16,
}

/// The TCP header fields the measurements read.
#[derive(Debug, Clone, Copy)]
pub struct TcpHeader {
    pub source: u16,
    pub destination: u16,
    pub sequence: u32,
    pub acknowledgement: u32,
}

/// One captured packet.
#[derive(Debug, Clone, Copy)]
pub struct Pkts {
    /// Capture time in milliseconds.
    pub time: i64,
    pub ip_p: Ipv4Header,
    pub tcp_p: TcpHeader,
}

/// The big-endian 16-bit number at bytes `i` and `i + 1` of `b`.
pub open spec fn be16(b: Seq<u8>, i: int) -> int {
    b[i] * 256 + b[i + 1]
}

/// The big-endian 32-bit number at bytes `i` to `i + 3` of `b`.
pub open spec fn be32(b: Seq<u8>, i: int) -> int {
    be16(b, i) * 65536 + be16(b, i + 2)
}

/// Length of an Ethernet II header: two MAC addresses and the ethertype.
pub open spec fn ethernet_header_len() -> int {
    14
}

/// Length of an IPv4 header without options.
pub open spec fn ipv4_min_len() -> int {
    20
}

/// Length of a TCP header without options.
pub open spec fn tcp_min_len() -> int {
    20
}

/// What follows the Ethernet header of `frame`.
pub open spec fn ethernet_payload_of(frame: Seq<u8>) -> Seq<u8> {
    frame.subrange(ethernet_header_len(), frame.len() as int)
}

/// The data of an IPv4 datagram as `pnet_packet` delimits it: from the end of
/// the header (four times the header-length nibble, at least 20 bytes) for
/// `total_length` minus the header length bytes, cut at the end of the buffer.
pub open spec fn ipv4_payload_of(d: Seq<u8>) -> Seq<u8> {
    let header = (d[0] % 16) * 4;
    let start: int = if header < ipv4_min_len() { ipv4_min_len() } else { header };
    let data_len: int = if be16(d, 2) > header { be16(d, 2) - header } else { 0 };
    let end: int = if start + data_len < d.len() { start + data_len } else { d.len() as int };
    if d.len() <= start {
        Seq::empty()
    } else {
        d.subrange(start, end)
    }
}

/// The data of a plain IPv4 datagram (no options) whose total length is its
/// size is everything after its 20-byte header; the data never runs past the
/// total length, nor past the buffer.
pub proof fn lemma_ipv4_payload_plain(d: Seq<u8>)
    requires
        d.len() >= 20,
        d[0] % 16 == 5,
    ensures
        ipv4_payload_of(d).len() <= d.len() - 20,
        be16(d, 2) >= 20 ==> ipv4_payload_of(d).len() <= be16(d, 2) - 20,
        be16(d, 2) == d.len() ==> ipv4_payload_of(d) == d.subrange(20, d.len() as int),
        forall|j: int| 0 <= j < ipv4_payload_of(d).len() ==> #[trigger] ipv4_payload_of(d)[j] == d[20 + j],
{
}

/// The IPv4 datagram carried by `frame`.
pub open spec fn datagram_of(frame: Seq<u8>) -> Seq<u8> {
    ethernet_payload_of(frame)
}

/// The TCP segment carried by `frame`.
pub open spec fn segment_of(frame: Seq<u8>) -> Seq<u8> {
    ipv4_payload_of(datagram_of(frame))
}

/// `frame` is long enough for an Ethernet header, an IPv4 header and a TCP
/// header.
pub open spec fn frame_decodes(frame: Seq<u8>) -> bool {
    &&& frame.len() >= ethernet_header_len() + ipv4_min_len()
    &&& segment_of(frame).len() >= tcp_min_len()
}

/// `h` holds the IPv4 header fields of datagram `d`.
pub open spec fn ipv4_header_of(d: Seq<u8>, h: Ipv4Header) -> bool {
    &&& h.destination@ == d.subrange(16, 20)
    &&& h.total_length == be16(d, 2)
}

/// `h` holds the TCP header fields of segment `s`.
pub open spec fn tcp_header_of(s: Seq<u8>, h: TcpHeader) -> bool {
    &&& h.source == be16(s, 0)
    &&& h.destination == be16(s, 2)
    &&& h.sequence == be32(s, 4)
    &&& h.acknowledgement == be32(s, 8)
}

/// `p` is what decoding `frame`, captured at `time`, gives.
pub open spec fn decoded(frame: Seq<u8>, time: i64, p: Pkts) -> bool {
    &&& p.time == time
    &&& ipv4_header_of(datagram_of(frame), p.ip_p)
    &&& tcp_header_of(segment_of(frame), p.tcp_p)
}

/// Calls `EthernetPacket::owned` on `frame` and copies its payload
/// (`from_packet().payload` copies the same bytes). It claims what the
/// `pnet_packet` source shows: the frame is accepted exactly when it holds at
/// least the 14 header bytes, and the payload is everything after them.
#[verifier::external_body]
fn ethernet_payload(frame: Vec<u8>) -> (payload: Option<Vec<u8>>)
    ensures
        payload is Some <==> frame@.len() >= ethernet_header_len(),
        payload matches Some(p) ==> p@ == ethernet_payload_of(frame@),
{
    EthernetPacket::owned(frame).map(|eth| eth.payload().to_vec())
}

/// Calls `Ipv4Packet::owned` on `datagram` and reads `get_destination`,
/// `get_total_length` and the payload. It claims what the `pnet_packet`
/// source shows: the datagram is accepted exactly when it holds the 20 bytes
/// of a header without options; the destination is bytes 16 to 19, the total
/// length the big-endian number in bytes 2 and 3, and the payload as
/// `ipv4_payload_of` delimits it.
#[verifier::external_body]
fn ipv4_fields(datagram: Vec<u8>) -> (r: Option<(Ipv4Header, Vec<u8>)>)
    ensures
        r is Some <==> datagram@.len() >= ipv4_min_len(),
        r matches Some(f) ==> ipv4_header_of(datagram@, f.0) && f.1@ == ipv4_payload_of(
            datagram@,
        ),
{
    Ipv4Packet::owned(datagram).map(
        |ip| {
            let header = Ipv4Header {
                destination: ip.get_destination().octets(),
                total_length: ip.get_total_length(),
            };
            (header, ip.payload().to_vec())
        },
    )
}

/// Calls `TcpPacket::owned` on `segment` and reads `get_source`,
/// `get_destination`, `get_sequence` and `get_acknowledgement`. It claims
/// what the `pnet_packet` source shows: the segment is accepted exactly when
/// it holds the 20 bytes of a header without options, and the four fields are
/// the big-endian numbers at bytes 0, 2, 4 and 8.
#[verifier::external_body]
fn tcp_fields(segment: Vec<u8>) -> (r: Option<TcpHeader>)
    ensures
        r is Some <==> segment@.len() >= tcp_min_len(),
        r matches Some(h) ==> tcp_header_of(segment@, h),
{
    TcpPacket::owned(segment).map(
        |tcp| TcpHeader {
            source: tcp.get_source(),
            destination: tcp.get_destination(),
            sequence: tcp.get_sequence(),
            acknowledgement: tcp.get_acknowledgement(),
        },
    )
}

/// Decodes an Ethernet frame carrying IPv4 and TCP, captured at `time`
/// (milliseconds); `None` when the frame is too short for one of the three
/// headers.
pub fn try_parse(pkt: Vec<u8>, time: i64) -> (r: Option<Pkts>)
    ensures
        r is Some <==> frame_decodes(pkt@),
        r matches Some(p) ==> decoded(pkt@, time, p),
{
    let datagram = match ethernet_payload(pkt) {
        Some(d) => d,
        None => return None,
    };
    let (ip_p, segment) = match ipv4_fields(datagram) {
        Some(f) => f,
        None => return None,
    };
    match tcp_fields(segment) {
        Some(tcp_p) => Some(Pkts { time, ip_p, tcp_p }),
        None => None,
    }
}

/// Decodes an Ethernet frame carrying IPv4 and TCP, captured at `time`
/// (milliseconds); the frame holds all three headers.
pub fn parse(pkt: Vec<u8>, time: i64) -> (p: Pkts)
    requires
        frame_decodes(pkt@),
    ensures
        decoded(pkt@, time, p),
{
    match try_parse(pkt, time) {
        Some(p) => p,
        None => {
            proof {
                assert(false);
            }
            Pkts {
                time,
                ip_p: Ipv4Header { destination: [0, 0, 0, 0], total_length: 0 },
                tcp_p: TcpHeader { source: 0, destination: 0, sequence: 0, acknowledgement: 0 },
            }
        },
    }
}

/// Truncating division, as Rust's `/` on integers rounds toward zero.
pub open spec fn trunc_div(a: int, b: int) -> int {
    if a >= 0 {
        a / b
    } else {
        -((-a) / b)
    }
}

/// Milliseconds of a capture timestamp of `sec` seconds and `usec` microseconds.
pub open spec fn millis(sec: int, usec: int) -> int {
    sec * 1000 + trunc_div(usec, 1000)
}

/// A timestamp with a valid microsecond part falls in the millisecond of its
/// second that the microseconds reach: `usec` microseconds after second
/// `sec` lie between `sec * 1000` and `sec * 1000 + 999` ms, and later
/// microseconds never give an earlier millisecond.
pub proof fn lemma_millis_within_second(sec: int, usec: int, later: int)
    requires
        0 <= usec <= later < 1_000_000,
    ensures
        sec * 1000 <= millis(sec, usec) <= sec * 1000 + 999,
        millis(sec, usec) <= millis(sec, later),
        millis(sec, usec) == sec * 1000 + usec / 1000,
        millis(sec, 1000 * (usec / 1000)) == millis(sec, usec),
{
}

/// Calls `linux_api::time::timeval::to_milliseconds` on `{tv_sec, tv_usec}`,
/// which computes `tv_sec * 1000 + tv_usec / 1000` in `i64`. It claims that
/// value, and requires that neither step leaves `i64`.
#[verifier::external_body]
fn timeval_to_milliseconds(tv_sec: i64, tv_usec: i64) -> (ms: i64)
    requires
        i64::MIN <= tv_sec * 1000 <= i64::MAX,
        i64::MIN <= millis(tv_sec as int, tv_usec as int) <= i64::MAX,
    ensures
        ms == millis(tv_sec as int, tv_usec as int),
{
    linux_api::time::timeval { tv_sec, tv_usec }.to_milliseconds()
}

/// The capture time in milliseconds of a timestamp of `tv_sec` seconds and
/// `tv_usec` microseconds; `None` where that leaves `i64`.
pub fn timestamp_millis(tv_sec: i64, tv_usec: i64) -> (r: Option<i64>)
    ensures
        r is Some <==> (i64::MIN <= tv_sec * 1000 <= i64::MAX && i64::MIN <= millis(
            tv_sec as int,
            tv_usec as int,
        ) <= i64::MAX),
        r matches Some(ms) ==> ms == millis(tv_sec as int, tv_usec as int),
{
    let sec = tv_sec as i128;
    let usec = tv_usec as i128;
    let scaled = sec * 1000;
    let whole_ms: i128 = if usec >= 0 {
        usec / 1000
    } else {
        0 - (0 - usec) / 1000
    };
    let ms = scaled + whole_ms;
    if scaled < i64::MIN as i128 || scaled > i64::MAX as i128 || ms < i64::MIN as i128 || ms
        > i64::MAX as i128 {
        None
    } else {
        Some(timeval_to_milliseconds(tv_sec, tv_usec))
    }
}

} // verus!
