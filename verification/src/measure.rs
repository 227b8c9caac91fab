//! A measurement chosen for a capture, as one value of three kinds, and the
//! three steps every measurement takes: a packet, a window's close, and the
//! window's report.
use vstd::prelude::*;
use crate::inflight::{InflightState, in_flight, progress_after, progress_of, SeqProgress};
use crate::packet::Pkts;
use crate::pattern::Pattern;
use crate::rtt::{RTTState, RttWindow, PacketTime, sample_count, sample_sum, unacked_tail, window_after, MAX_RTT};
use crate::throughput::{ThroughputState, recorded, sent_bytes};

verus! {

/// The throughput windows after `p` joined the window of `flow`.
pub open spec fn windows_with(flows: Map<u16, Seq<Pkts>>, flow: u16, p: Pkts) -> Map<u16, Seq<Pkts>> {
    flows.insert(flow, recorded(flows, flow).push(p))
}

/// The sequence progress after `p` of `flow`.
pub open spec fn progress_with(
    pattern: Seq<char>,
    m: Map<u16, SeqProgress>,
    flow: u16,
    p: Pkts,
) -> Map<u16, SeqProgress> {
    m.insert(flow, progress_after(pattern, progress_of(m, flow), p))
}

/// The round-trip windows after `p` of `flow`.
pub open spec fn rtt_windows_with(
    pattern: Seq<char>,
    m: Map<u16, Seq<PacketTime>>,
    flow: u16,
    p: Pkts,
) -> Map<u16, Seq<PacketTime>> {
    m.insert(flow, window_after(pattern, recorded(m, flow), p))
}

/// Which measurement to take.
#[derive(Debug, Clone, Copy, PartialEq, Eq)]
pub enum MeasureKind {
    Throughput,
    Inflight,
    Rtt,
}

/// The label under which a measurement of kind `k` is reported.
pub open spec fn kind_label(k: MeasureKind) -> Seq<char> {
    match k {
        MeasureKind::Throughput => "throughput"@,
        MeasureKind::Inflight => "inflight"@,
        MeasureKind::Rtt => "rtt"@,
    }
}

impl MeasureKind {
    /// The label under which this measurement is reported.
    pub fn label(&self) -> (l: &'static str)
        ensures
            l@ == kind_label(*self),
    {
        match self {
            MeasureKind::Throughput => "throughput",
            MeasureKind::Inflight => "inflight",
            MeasureKind::Rtt => "rtt",
        }
    }
}

/// One measurement and its state.
pub enum Measure {
    Throughput(ThroughputState),
    Inflight(InflightState),
    Rtt(RTTState),
}

/// What one measurement found when a window closed.
#[derive(Debug, Clone, Copy, PartialEq, Eq)]
pub enum MeasureTotals {
    /// Bytes sent toward the receivers.
    Throughput(i128),
    /// Bytes in flight.
    Inflight(i64),
    /// The round-trip samples.
    Rtt(RttWindow),
}

pub open spec fn kind_of(m: Measure) -> MeasureKind {
    match m {
        Measure::Throughput(_) => MeasureKind::Throughput,
        Measure::Inflight(_) => MeasureKind::Inflight,
        Measure::Rtt(_) => MeasureKind::Rtt,
    }
}

pub open spec fn totals_kind(t: MeasureTotals) -> MeasureKind {
    match t {
        MeasureTotals::Throughput(_) => MeasureKind::Throughput,
        MeasureTotals::Inflight(_) => MeasureKind::Inflight,
        MeasureTotals::Rtt(_) => MeasureKind::Rtt,
    }
}

/// The pattern by which `m` tells packets toward the receivers.
pub open spec fn measure_pattern(m: Measure) -> Seq<char> {
    match m {
        Measure::Throughput(s) => s.pattern(),
        Measure::Inflight(s) => s.pattern(),
        Measure::Rtt(s) => s.pattern(),
    }
}

/// Whether `m` has seen `flow`.
pub open spec fn tracks_flow(m: Measure, flow: u16) -> bool {
    match m {
        Measure::Throughput(s) => s.flows().contains_key(flow),
        Measure::Inflight(s) => s.progress().contains_key(flow),
        Measure::Rtt(s) => s.windows().contains_key(flow),
    }
}

/// Whether `m` is a round-trip measurement whose last report lies out of
/// range; false of the other kinds.
pub open spec fn report_out_of_range(m: Measure) -> bool {
    m matches Measure::Rtt(s) && !s.report_in_range()
}

/// `m` is a measurement of kind `k` that has seen nothing.
pub open spec fn is_fresh(m: Measure, k: MeasureKind, pattern: Seq<char>) -> bool {
    &&& kind_of(m) == k
    &&& measure_pattern(m) == pattern
    &&& match m {
        Measure::Throughput(s) => s.flows() == Map::<u16, Seq<Pkts>>::empty(),
        Measure::Inflight(s) => s.progress() == Map::<u16, SeqProgress>::empty(),
        Measure::Rtt(s) => s.windows() == Map::<u16, Seq<PacketTime>>::empty() && s.last() == 0,
    }
}

/// `new` is `old` after packet `p` of `flow`.
pub open spec fn fed(old: Measure, new: Measure, flow: u16, p: Pkts) -> bool {
    match old {
        Measure::Throughput(a) => new matches Measure::Throughput(b) && b.pattern() == a.pattern()
            && b.flows() == windows_with(a.flows(), flow, p),
        Measure::Inflight(a) => new matches Measure::Inflight(b) && b.pattern() == a.pattern()
            && b.progress() == progress_with(a.pattern(), a.progress(), flow, p),
        Measure::Rtt(a) => new matches Measure::Rtt(b) && b.pattern() == a.pattern() && b.last()
            == a.last() && b.windows() == rtt_windows_with(a.pattern(), a.windows(), flow, p),
    }
}

/// `new` is `old` after the window of `flow`, a flow `old` has seen, closed
/// and found `t`.
pub open spec fn closes(old: Measure, new: Measure, t: MeasureTotals, flow: u16) -> bool {
    match old {
        Measure::Throughput(a) => new matches Measure::Throughput(b) && t matches MeasureTotals::Throughput(n)
            && a.flows().contains_key(flow) && b.pattern() == a.pattern() && n == sent_bytes(
            a.pattern(),
            a.flows()[flow],
        ) && b.flows() == a.flows().insert(flow, Seq::empty()),
        Measure::Inflight(a) => new matches Measure::Inflight(b) && t matches MeasureTotals::Inflight(n)
            && a.progress().contains_key(flow) && b.pattern() == a.pattern() && n == in_flight(
            a.progress()[flow],
        ) && b.progress() == a.progress(),
        Measure::Rtt(a) => new matches Measure::Rtt(b) && t matches MeasureTotals::Rtt(w)
            && a.windows().contains_key(flow) && b.pattern() == a.pattern() && b.last() == a.last()
            && w.sum == sample_sum(a.windows()[flow]) && w.count == sample_count(a.windows()[flow])
            && b.windows() == a.windows().insert(flow, unacked_tail(a.windows()[flow])),
    }
}

/// `new` is `old` after packet `p` of `flow` and then the close of that
/// flow's window, which found `t`.
pub open spec fn fed_and_closed(old: Measure, new: Measure, t: MeasureTotals, flow: u16, p: Pkts) -> bool {
    match old {
        Measure::Throughput(a) => {
            let w = windows_with(a.flows(), flow, p);
            new matches Measure::Throughput(b) && t matches MeasureTotals::Throughput(n) && b.pattern()
                == a.pattern() && n == sent_bytes(a.pattern(), w[flow]) && b.flows() == w.insert(
                flow,
                Seq::empty(),
            )
        },
        Measure::Inflight(a) => {
            let pr = progress_with(a.pattern(), a.progress(), flow, p);
            new matches Measure::Inflight(b) && t matches MeasureTotals::Inflight(n) && b.pattern()
                == a.pattern() && n == in_flight(pr[flow]) && b.progress() == pr
        },
        Measure::Rtt(a) => {
            let rw = rtt_windows_with(a.pattern(), a.windows(), flow, p);
            new matches Measure::Rtt(b) && t matches MeasureTotals::Rtt(w) && b.pattern() == a.pattern()
                && b.last() == a.last() && w.sum == sample_sum(rw[flow]) && w.count == sample_count(
                rw[flow],
            ) && b.windows() == rw.insert(flow, unacked_tail(rw[flow]))
        },
    }
}

/// `new` is `old` after reporting a closed window that found `t`, given the
/// worked-out `value` (megabits per second for throughput, the mean of the
/// samples for round-trip time); `reported` is what goes in the row:
/// `value` for throughput, the bytes in flight found, and for round-trip time
/// the report now standing (`value`, or the last report when the window had
/// no sample).
pub open spec fn finished(old: Measure, new: Measure, t: MeasureTotals, value: i64, reported: i64) -> bool {
    match old {
        Measure::Throughput(_) => new == old && t is Throughput && reported == value,
        Measure::Inflight(_) => t matches MeasureTotals::Inflight(n) && new == old && reported == n,
        Measure::Rtt(a) => new matches Measure::Rtt(b) && t matches MeasureTotals::Rtt(w) && b.pattern()
            == a.pattern() && b.windows() == a.windows() && b.last() == (if w.count == 0 {
            a.last()
        } else {
            value
        }) && reported == b.last(),
    }
}

/// Whether `value` is a report `t` may take: for round-trip time with
/// samples, between 0 and `MAX_RTT`; anything otherwise.
pub open spec fn value_fits(t: MeasureTotals, value: i64) -> bool {
    t matches MeasureTotals::Rtt(w) && w.count > 0 ==> 0 <= value <= MAX_RTT
}

/// A fresh measurement of kind `kind`.
pub fn fresh_measure(kind: MeasureKind, sender_dst: Pattern) -> (m: Measure)
    ensures
        is_fresh(m, kind, sender_dst.text()),
        !report_out_of_range(m),
{
    match kind {
        MeasureKind::Throughput => Measure::Throughput(ThroughputState::new(sender_dst)),
        MeasureKind::Inflight => Measure::Inflight(InflightState::new(sender_dst)),
        MeasureKind::Rtt => Measure::Rtt(RTTState::new(sender_dst)),
    }
}

/// Hands packet `p` of `flow` to `m`.
pub fn feed_measure(m: Measure, flow: u16, p: Pkts, granularity: i64) -> (r: Measure)
    ensures
        fed(m, r, flow, p),
        report_out_of_range(r) == report_out_of_range(m),
{
    match m {
        Measure::Throughput(mut s) => {
            s.on_packet(flow, p, granularity);
            Measure::Throughput(s)
        },
        Measure::Inflight(mut s) => {
            s.on_packet(flow, p, granularity);
            Measure::Inflight(s)
        },
        Measure::Rtt(mut s) => {
            s.on_packet(flow, p, granularity);
            Measure::Rtt(s)
        },
    }
}

/// Closes the window of `flow`, a flow `m` has seen.
pub fn close_measure(m: Measure, flow: u16, granularity: i64) -> (r: (Measure, MeasureTotals))
    requires
        tracks_flow(m, flow),
    ensures
        closes(m, r.0, r.1, flow),
        report_out_of_range(r.0) == report_out_of_range(m),
{
    match m {
        Measure::Throughput(mut s) => {
            let n = s.close_window(flow);
            (Measure::Throughput(s), MeasureTotals::Throughput(n))
        },
        Measure::Inflight(mut s) => {
            let n = s.on_window(flow, granularity);
            (Measure::Inflight(s), MeasureTotals::Inflight(n))
        },
        Measure::Rtt(mut s) => {
            let w = s.close_window(flow);
            (Measure::Rtt(s), MeasureTotals::Rtt(w))
        },
    }
}

/// Reports a closed window of `m` that found `t`, of the same kind, with the
/// worked-out `value`.
pub fn finish_measure(m: Measure, t: MeasureTotals, value: i64) -> (r: (Measure, i64))
    requires
        kind_of(m) == totals_kind(t),
        value_fits(t, value),
    ensures
        finished(m, r.0, t, value, r.1),
        !report_out_of_range(r.0),
{
    match m {
        Measure::Throughput(s) => (Measure::Throughput(s), value),
        Measure::Inflight(s) => {
            let n = match t {
                MeasureTotals::Inflight(n) => n,
                _ => 0,
            };
            (Measure::Inflight(s), n)
        },
        Measure::Rtt(mut s) => {
            let w = match t {
                MeasureTotals::Rtt(w) => w,
                _ => RttWindow { sum: 0, count: 0 },
            };
            let reported = s.finish_window(w, value);
            (Measure::Rtt(s), reported)
        },
    }
}

/// A packet and then a close is a packet, then a close.
pub proof fn lemma_fed_then_closed(
    old: Measure,
    mid: Measure,
    new: Measure,
    t: MeasureTotals,
    flow: u16,
    p: Pkts,
)
    requires
        fed(old, mid, flow, p),
        closes(mid, new, t, flow),
    ensures
        fed_and_closed(old, new, t, flow, p),
{
}

/// A measurement that took a packet of `flow` has seen `flow`, and still
/// has seen every flow it had.
pub proof fn lemma_fed_tracks(old: Measure, new: Measure, flow: u16, p: Pkts, g: u16)
    requires
        fed(old, new, flow, p),
    ensures
        tracks_flow(new, flow),
        tracks_flow(old, g) ==> tracks_flow(new, g),
        measure_pattern(new) == measure_pattern(old),
        kind_of(new) == kind_of(old),
{
}

/// Closing a window forgets no flow.
pub proof fn lemma_closes_tracks(old: Measure, new: Measure, t: MeasureTotals, flow: u16, g: u16)
    requires
        closes(old, new, t, flow),
    ensures
        tracks_flow(old, g) ==> tracks_flow(new, g),
        measure_pattern(new) == measure_pattern(old),
        kind_of(new) == kind_of(old),
        totals_kind(t) == kind_of(old),
{
}

/// Reporting a window forgets no flow.
pub proof fn lemma_finished_tracks(old: Measure, new: Measure, t: MeasureTotals, v: i64, r: i64, g: u16)
    requires
        finished(old, new, t, v, r),
    ensures
        tracks_flow(old, g) ==> tracks_flow(new, g),
        measure_pattern(new) == measure_pattern(old),
        kind_of(new) == kind_of(old),
{
}

} // verus!
