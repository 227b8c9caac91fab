# parse_pcap

Per-flow TCP measurements from packet captures: for every flow, the capture
is cut into windows of a fixed length (`granularity`, in milliseconds), and
each window reports throughput (megabits per second toward the receivers),
bytes in flight (highest sequence number sent minus highest acknowledgement)
and round-trip time (mean time from a segment to the first acknowledgement
that covers it). Packets whose destination address matches `192.168.1..` go
toward the receivers.

## Layout

- `src/` — the verified library (Verus):
  - `packet.rs`: decoding Ethernet/IPv4/TCP frames (through `pnet_packet`)
    and capture timestamps (through `linux-api`);
  - `pattern.rs`: regular expressions (through `regex`);
  - `text.rs`: decimal and dotted-decimal text;
  - `direction.rs`: which way a packet travels, and its flow;
  - `throughput.rs`, `inflight.rs`, `rtt.rs`: the three measurements;
  - `measure.rs`: one measurement of any of the three kinds;
  - `measurements.rs`: windows per flow over a whole capture, with the
    measurements the caller chooses; every window that elapses gets a row;
  - `report.rs`: the CSV text of a flow;
  - `selection.rs`: choosing capture files and the flows worth reporting.
- `app/` — the program around it: arguments, reading captures (`pcap`),
  files, parallelism (`rayon`), the two floating-point steps (megabits per
  second, mean round-trip time), and the traffic generator (run the program
  under the name `ServerSender`).
- `tests/` — tests of the library on concrete frames and packets.
