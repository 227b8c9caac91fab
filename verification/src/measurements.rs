//! Cutting every flow of a capture into windows of fixed length and taking,
//! per window, each chosen measurement.
use vstd::prelude::*;
use std::collections::HashMap;
use crate::direction::{is_toward_receiver, toward_receiver};
use crate::measure::{
    Measure, MeasureKind, MeasureTotals, close_measure, closes, fed, fed_and_closed, feed_measure,
    finish_measure, finished, fresh_measure, is_fresh, kind_of, lemma_closes_tracks,
    lemma_fed_then_closed, lemma_fed_tracks, lemma_finished_tracks, measure_pattern,
    report_out_of_range, totals_kind, tracks_flow, value_fits,
};
use crate::packet::Pkts;
use crate::pattern::Pattern;
use crate::throughput::recorded;

verus! {

/// The flow a packet belongs to: its source port when it goes toward the
/// receivers, else its destination port (the port on the sender's side).
pub open spec fn flow_of(pattern: Seq<char>, p: Pkts) -> u16 {
    if toward_receiver(pattern, p) {
        p.tcp_p.source
    } else {
        p.tcp_p.destination
    }
}

/// A packet whose destination matches the pattern belongs to the flow of its
/// TCP source port, any other packet to that of its TCP destination port,
/// whatever its sequence and acknowledgement numbers; so a flow's data and
/// the acknowledgements sent back to it share a flow.
pub proof fn lemma_flow_is_sender_port(pattern: Seq<char>, p: Pkts, q: Pkts)
    ensures
        toward_receiver(pattern, p) ==> flow_of(pattern, p) == p.tcp_p.source,
        !toward_receiver(pattern, p) ==> flow_of(pattern, p) == p.tcp_p.destination,
        q.ip_p == p.ip_p && q.tcp_p.source == p.tcp_p.source && q.tcp_p.destination
            == p.tcp_p.destination ==> flow_of(pattern, q) == flow_of(pattern, p),
{
}

/// The end of the open window of `flow`, or `fresh` for a flow not seen yet.
pub open spec fn window_end_or(ends: Map<u16, i64>, flow: u16, fresh: int) -> int {
    if ends.contains_key(flow) {
        ends[flow] as int
    } else {
        fresh
    }
}

/// The rows of `rows` end their windows `g` apart, the last one at `end - g`,
/// and each holds the window's end and one value per measurement (`width`
/// values in all).
pub open spec fn rows_well_spaced(rows: Seq<Seq<i64>>, end: int, g: int, width: int) -> bool {
    forall|k: int|
        0 <= k < rows.len() ==> #[trigger] rows[k].len() == width && rows[k][0] == end - (rows.len()
            - k) * g
}

/// What a window that has just closed found, one entry per measurement,
/// before its throughput and mean round-trip time are worked out.
#[derive(Debug, PartialEq, Eq)]
pub struct WindowTotals {
    pub flow_label: u16,
    /// The time at which the window ended.
    pub window_end: i64,
    pub parts: Vec<MeasureTotals>,
}

/// Hands packet `p` of `flow` to every measurement.
fn feed_all(measures: Vec<Measure>, flow: u16, p: Pkts, granularity: i64) -> (r: Vec<Measure>)
    ensures
        r@.len() == measures@.len(),
        forall|j: int| 0 <= j < r@.len() ==> #[trigger] fed(measures@[j], r@[j], flow, p),
        forall|j: int|
            0 <= j < r@.len() ==> #[trigger] report_out_of_range(r@[j]) == report_out_of_range(
                measures@[j],
            ),
{
    let ghost olds = measures@;
    let mut r: Vec<Measure> = Vec::new();
    for m in it: measures
        invariant
            it.seq() == olds,
            r@.len() == it.index(),
            forall|j: int| 0 <= j < r@.len() ==> #[trigger] fed(olds[j], r@[j], flow, p),
            forall|j: int|
                0 <= j < r@.len() ==> #[trigger] report_out_of_range(r@[j]) == report_out_of_range(
                    olds[j],
                ),
    {
        r.push(feed_measure(m, flow, p, granularity));
    }
    r
}

/// Closes the window of `flow`, which every measurement has seen.
fn close_all(measures: Vec<Measure>, flow: u16, granularity: i64) -> (r: (
    Vec<Measure>,
    Vec<MeasureTotals>,
))
    requires
        forall|j: int| 0 <= j < measures@.len() ==> #[trigger] tracks_flow(measures@[j], flow),
    ensures
        r.0@.len() == measures@.len(),
        r.1@.len() == measures@.len(),
        forall|j: int| 0 <= j < r.0@.len() ==> #[trigger] closes(measures@[j], r.0@[j], r.1@[j], flow),
        forall|j: int|
            0 <= j < r.0@.len() ==> #[trigger] report_out_of_range(r.0@[j]) == report_out_of_range(
                measures@[j],
            ),
{
    let ghost olds = measures@;
    let mut ms: Vec<Measure> = Vec::new();
    let mut parts: Vec<MeasureTotals> = Vec::new();
    for m in it: measures
        invariant
            it.seq() == olds,
            forall|j: int| 0 <= j < olds.len() ==> #[trigger] tracks_flow(olds[j], flow),
            ms@.len() == it.index(),
            parts@.len() == it.index(),
            forall|j: int| 0 <= j < ms@.len() ==> #[trigger] closes(olds[j], ms@[j], parts@[j], flow),
            forall|j: int|
                0 <= j < ms@.len() ==> #[trigger] report_out_of_range(ms@[j]) == report_out_of_range(
                    olds[j],
                ),
    {
        let (m2, t) = close_measure(m, flow, granularity);
        ms.push(m2);
        parts.push(t);
    }
    (ms, parts)
}

/// Reports a closed window with every measurement, each with its part of the
/// totals and its worked-out value.
fn finish_all(measures: Vec<Measure>, parts: &[MeasureTotals], values: &[i64]) -> (r: (
    Vec<Measure>,
    Vec<i64>,
))
    requires
        parts@.len() == measures@.len(),
        values@.len() == measures@.len(),
        forall|j: int|
            0 <= j < measures@.len() ==> #[trigger] kind_of(measures@[j]) == totals_kind(parts@[j])
                && value_fits(parts@[j], values@[j]),
    ensures
        r.0@.len() == measures@.len(),
        r.1@.len() == measures@.len(),
        forall|j: int|
            0 <= j < r.0@.len() ==> #[trigger] finished(
                measures@[j],
                r.0@[j],
                parts@[j],
                values@[j],
                r.1@[j],
            ),
        forall|j: int| 0 <= j < r.0@.len() ==> !report_out_of_range(#[trigger] r.0@[j]),
{
    let ghost olds = measures@;
    let mut ms: Vec<Measure> = Vec::new();
    let mut reported: Vec<i64> = Vec::new();
    let mut j: usize = 0;
    for m in it: measures
        invariant
            it.seq() == olds,
            j == it.index(),
            parts@.len() == olds.len(),
            values@.len() == olds.len(),
            forall|k: int|
                0 <= k < olds.len() ==> #[trigger] kind_of(olds[k]) == totals_kind(parts@[k])
                    && value_fits(parts@[k], values@[k]),
            ms@.len() == j,
            reported@.len() == j,
            forall|k: int|
                0 <= k < j ==> #[trigger] finished(olds[k], ms@[k], parts@[k], values@[k], reported@[k]),
            forall|k: int| 0 <= k < j ==> !report_out_of_range(#[trigger] ms@[k]),
    {
        let (m2, v) = finish_measure(m, parts[j], values[j]);
        ms.push(m2);
        reported.push(v);
        j = j + 1;
    }
    (ms, reported)
}

/// The windows of every flow seen in a capture and the measurements taken in
/// each window that has closed.
pub struct FlowMeasurements {
    measures: Vec<Measure>,
    intermediate_t_top: HashMap<u16, i64>,
    flows_throughput: HashMap<u16, Vec<Vec<i64>>>,
    sender_dst: Pattern,
    granularity: i64,
}

impl FlowMeasurements {
    /// The measurements taken, in the order of the row values.
    pub closed spec fn measures(&self) -> Seq<Measure> {
        self.measures@
    }

    /// The end of the open window of each flow seen.
    pub closed spec fn window_ends(&self) -> Map<u16, i64> {
        self.intermediate_t_top@
    }

    /// Per flow seen, one row per closed window: its end, then one value per
    /// measurement.
    pub closed spec fn rows(&self) -> Map<u16, Seq<Seq<i64>>> {
        self.flows_throughput@.map_values(|rs: Vec<Vec<i64>>| rs@.map_values(|r: Vec<i64>| r@))
    }

    /// Window length, in milliseconds.
    pub closed spec fn spec_granularity(&self) -> i64 {
        self.granularity
    }

    /// The pattern that tells packets toward the receivers.
    pub closed spec fn pattern(&self) -> Seq<char> {
        self.sender_dst.text()
    }

    /// Every measurement tells direction by the same pattern and has seen
    /// every flow with an open window; the round-trip time reported lies
    /// between 0 and 500 ms; every flow seen has rows, and they end their
    /// windows one window length apart, the last one just before the open
    /// window, each with one value per measurement.
    pub closed spec fn wf(&self) -> bool {
        &&& forall|j: int|
            0 <= j < self.measures@.len() ==> measure_pattern(#[trigger] self.measures@[j])
                == self.pattern() && !report_out_of_range(self.measures@[j])
        &&& self.window_ends().dom() == self.rows().dom()
        &&& forall|f: u16, j: int|
            self.window_ends().contains_key(f) && 0 <= j < self.measures@.len() ==> #[trigger] tracks_flow(
                self.measures@[j],
                f,
            )
        &&& forall|f: u16| #[trigger]
            self.rows().contains_key(f) ==> rows_well_spaced(
                self.rows()[f],
                self.window_ends()[f] as int,
                self.granularity as int,
                self.measures@.len() + 1int,
            )
    }

    /// No flow seen yet; windows of `granularity` milliseconds; one
    /// measurement per entry of `kinds`, in that order; `sender_dst` tells
    /// which packets go toward the receivers.
    pub fn new(sender_dst: Pattern, granularity: i64, kinds: &[MeasureKind]) -> (s: Self)
        ensures
            s.wf(),
            s.pattern() == sender_dst.text(),
            s.spec_granularity() == granularity,
            s.window_ends() == Map::<u16, i64>::empty(),
            s.rows() == Map::<u16, Seq<Seq<i64>>>::empty(),
            s.measures().len() == kinds@.len(),
            forall|j: int|
                0 <= j < kinds@.len() ==> is_fresh(
                    #[trigger] s.measures()[j],
                    kinds@[j],
                    sender_dst.text(),
                ),
    {
        let mut measures: Vec<Measure> = Vec::new();
        let mut j: usize = 0;
        while j < kinds.len()
            invariant
                j <= kinds@.len(),
                measures@.len() == j,
                forall|k: int|
                    0 <= k < j ==> is_fresh(#[trigger] measures@[k], kinds@[k], sender_dst.text())
                        && !report_out_of_range(measures@[k]),
            decreases kinds.len() - j,
        {
            measures.push(fresh_measure(kinds[j], sender_dst.clone()));
            j = j + 1;
        }
        let s = FlowMeasurements {
            measures,
            intermediate_t_top: HashMap::new(),
            flows_throughput: HashMap::new(),
            sender_dst,
            granularity,
        };
        assert(s.rows() =~= Map::<u16, Seq<Seq<i64>>>::empty());
        s
    }

    /// Window length, in milliseconds.
    pub fn granularity(&self) -> (g: i64)
        ensures
            g == self.spec_granularity(),
    {
        self.granularity
    }

    /// The flow `packet` belongs to.
    pub fn flow_label(&self, packet: &Pkts) -> (f: u16)
        ensures
            f == flow_of(self.pattern(), *packet),
            toward_receiver(self.pattern(), *packet) ==> f == packet.tcp_p.source,
            !toward_receiver(self.pattern(), *packet) ==> f == packet.tcp_p.destination,
    {
        if is_toward_receiver(&self.sender_dst, packet) {
            packet.tcp_p.source
        } else {
            packet.tcp_p.destination
        }
    }

    /// Takes one packet of the capture: opens a window for its flow if the
    /// flow is new (ending one window length after the packet), hands the
    /// packet to every measurement, and, when the packet comes after the end
    /// of its flow's window, closes that window and returns what each
    /// measurement found. The window's row is written by `record_window`;
    /// `next_window` then closes any further window the packet is past.
    pub fn on_packet(&mut self, packet: Pkts) -> (r: Option<WindowTotals>)
        requires
            old(self).wf(),
            i64::MIN <= packet.time + old(self).spec_granularity() <= i64::MAX,
        ensures
            final(self).wf(),
            final(self).pattern() == old(self).pattern(),
            final(self).spec_granularity() == old(self).spec_granularity(),
            final(self).measures().len() == old(self).measures().len(),
            ({
                let f = flow_of(old(self).pattern(), packet);
                let end = window_end_or(
                    old(self).window_ends(),
                    f,
                    packet.time + old(self).spec_granularity(),
                );
                &&& final(self).window_ends() == old(self).window_ends().insert(f, end as i64)
                &&& final(self).rows() == old(self).rows().insert(f, recorded(old(self).rows(), f))
                &&& packet.time > end ==> (r matches Some(t) && t.flow_label == f && t.window_end
                    == end && t.parts@.len() == old(self).measures().len() && forall|j: int|
                    0 <= j < t.parts@.len() ==> #[trigger] fed_and_closed(
                        old(self).measures()[j],
                        final(self).measures()[j],
                        t.parts@[j],
                        f,
                        packet,
                    ))
                &&& packet.time <= end ==> r is None && forall|j: int|
                    0 <= j < old(self).measures().len() ==> #[trigger] fed(
                        old(self).measures()[j],
                        final(self).measures()[j],
                        f,
                        packet,
                    )
            }),
    {
        let g = self.granularity;
        let flow_label = self.flow_label(&packet);
        let ghost end = window_end_or(self.window_ends(), flow_label, packet.time + g);
        // start tracking the flow if it has not been seen
        let t_top = match self.intermediate_t_top.get(&flow_label) {
            Some(t) => *t,
            None => {
                let t = packet.time + g;
                self.intermediate_t_top.insert(flow_label, t);
                t
            },
        };
        if !self.flows_throughput.contains_key(&flow_label) {
            let no_rows: Vec<Vec<i64>> = Vec::new();
            assert(no_rows@.map_values(|r: Vec<i64>| r@) =~= Seq::<Seq<i64>>::empty());
            self.flows_throughput.insert(flow_label, no_rows);
            assert(self.rows() =~= old(self).rows().insert(flow_label, Seq::empty()));
        } else {
            assert(self.rows() =~= old(self).rows().insert(
                flow_label,
                recorded(old(self).rows(), flow_label),
            ));
        }
        assert(self.window_ends() =~= old(self).window_ends().insert(flow_label, end as i64));
        // update packet tracking
        let mut taken: Vec<Measure> = Vec::new();
        std::mem::swap(&mut taken, &mut self.measures);
        let ghost olds = taken@;
        let fed_ms = feed_all(taken, flow_label, packet, g);
        let ghost mids = fed_ms@;
        proof {
            assert forall|j: int| 0 <= j < mids.len() implies #[trigger] tracks_flow(
                mids[j],
                flow_label,
            ) by {
                lemma_fed_tracks(olds[j], mids[j], flow_label, packet, flow_label);
            }
        }
        let r = if packet.time > t_top {
            // the window is over: take each measurement
            let (closed, parts) = close_all(fed_ms, flow_label, g);
            self.measures = closed;
            proof {
                assert forall|j: int| 0 <= j < parts@.len() implies #[trigger] fed_and_closed(
                    olds[j],
                    self.measures@[j],
                    parts@[j],
                    flow_label,
                    packet,
                ) by {
                    lemma_fed_then_closed(
                        olds[j],
                        mids[j],
                        self.measures@[j],
                        parts@[j],
                        flow_label,
                        packet,
                    );
                }
            }
            Some(WindowTotals { flow_label, window_end: t_top, parts })
        } else {
            self.measures = fed_ms;
            None
        };
        proof {
            assert forall|f: u16, j: int|
                self.window_ends().contains_key(f) && 0 <= j < self.measures@.len() implies #[trigger] tracks_flow(
                self.measures@[j],
                f,
            ) && measure_pattern(self.measures@[j]) == self.pattern() by {
                lemma_fed_tracks(olds[j], mids[j], flow_label, packet, f);
                if packet.time > t_top {
                    let parts = r.unwrap().parts@;
                    lemma_closes_tracks(mids[j], self.measures@[j], parts[j], flow_label, f);
                }
                if f != flow_label {
                    assert(old(self).window_ends().contains_key(f));
                }
            }
            assert forall|j: int| 0 <= j < self.measures@.len() implies measure_pattern(
                #[trigger] self.measures@[j],
            ) == self.pattern() && !report_out_of_range(self.measures@[j]) by {
                lemma_fed_tracks(olds[j], mids[j], flow_label, packet, flow_label);
                if packet.time > t_top {
                    let parts = r.unwrap().parts@;
                    lemma_closes_tracks(mids[j], self.measures@[j], parts[j], flow_label, flow_label);
                }
            }
            assert forall|f: u16| #[trigger] self.rows().contains_key(f) implies rows_well_spaced(
                self.rows()[f],
                self.window_ends()[f] as int,
                g as int,
                self.measures@.len() + 1int,
            ) by {
                if f != flow_label {
                    assert(old(self).rows().contains_key(f));
                }
            }
        }
        r
    }

    /// Whether `totals` closed the open window of its flow, the next window's
    /// end stays within `i64`, and `values` gives, for each measurement, a
    /// value for a part of the same kind (a mean round-trip time between 0
    /// and `MAX_RTT` where the window had samples).
    pub open spec fn awaits(&self, totals: WindowTotals, values: Seq<i64>) -> bool {
        &&& self.window_ends().contains_key(totals.flow_label)
        &&& self.window_ends()[totals.flow_label] == totals.window_end
        &&& totals.window_end + self.spec_granularity() <= i64::MAX
        &&& i64::MIN <= totals.window_end + self.spec_granularity()
        &&& totals.parts@.len() == self.measures().len()
        &&& values.len() == self.measures().len()
        &&& forall|j: int|
            0 <= j < self.measures().len() ==> totals_kind(#[trigger] totals.parts@[j]) == kind_of(
                self.measures()[j],
            ) && value_fits(totals.parts@[j], values[j])
    }

    /// Writes the row of a window that `on_packet` or `next_window` closed,
    /// given per measurement the value worked out from its part of `totals`
    /// (megabits per second for throughput, the mean of the samples for
    /// round-trip time, anything for bytes in flight), and opens the flow's
    /// next window, one window length later. The row holds the window's end
    /// and, per measurement, what it reports. Returns false, changing
    /// nothing, unless `awaits(totals, values)`.
    pub fn record_window(&mut self, totals: &WindowTotals, values: &[i64]) -> (r: bool)
        requires
            old(self).wf(),
        ensures
            final(self).wf(),
            final(self).pattern() == old(self).pattern(),
            final(self).spec_granularity() == old(self).spec_granularity(),
            final(self).measures().len() == old(self).measures().len(),
            r == old(self).awaits(*totals, values@),
            r ==> ({
                let f = totals.flow_label;
                let row = final(self).rows()[f].last();
                &&& final(self).rows().contains_key(f)
                &&& final(self).rows() == old(self).rows().insert(f, old(self).rows()[f].push(row))
                &&& row.len() == old(self).measures().len() + 1
                &&& row[0] == totals.window_end
                &&& forall|j: int|
                    0 <= j < old(self).measures().len() ==> #[trigger] finished(
                        old(self).measures()[j],
                        final(self).measures()[j],
                        totals.parts@[j],
                        values@[j],
                        row[j + 1],
                    )
                &&& final(self).window_ends() == old(self).window_ends().insert(
                    f,
                    (totals.window_end + old(self).spec_granularity()) as i64,
                )
            }),
            !r ==> final(self).measures() == old(self).measures() && final(self).rows() == old(
                self,
            ).rows() && final(self).window_ends() == old(self).window_ends(),
    {
        let f = totals.flow_label;
        let g = self.granularity;
        let t_top = match self.intermediate_t_top.get(&f) {
            Some(t) => *t,
            None => return false,
        };
        if t_top != totals.window_end {
            return false;
        }
        let next = match t_top.checked_add(g) {
            Some(n) => n,
            None => return false,
        };
        let n = self.measures.len();
        if totals.parts.len() != n || values.len() != n {
            return false;
        }
        let mut j: usize = 0;
        while j < n
            invariant
                j <= n,
                n == self.measures@.len(),
                totals.parts@.len() == n,
                values@.len() == n,
                self.wf(),
                forall|k: int|
                    0 <= k < j ==> totals_kind(#[trigger] totals.parts@[k]) == kind_of(
                        self.measures@[k],
                    ) && value_fits(totals.parts@[k], values@[k]),
            decreases n - j,
        {
            if !same_kind(&self.measures[j], &totals.parts[j]) || !fits(&totals.parts[j], values[j]) {
                return false;
            }
            j = j + 1;
        }
        let ghost end = t_top;
        let mut rows = match self.flows_throughput.remove(&f) {
            Some(rs) => rs,
            None => Vec::new(),
        };
        let ghost before = rows@;
        let mut taken: Vec<Measure> = Vec::new();
        std::mem::swap(&mut taken, &mut self.measures);
        let ghost olds = taken@;
        let (finished_ms, reported) = finish_all(taken, totals.parts.as_slice(), values);
        self.measures = finished_ms;
        let mut all_results: Vec<i64> = Vec::new();
        all_results.push(t_top);
        let mut k: usize = 0;
        while k < reported.len()
            invariant
                k <= reported@.len(),
                all_results@ == seq![end] + reported@.take(k as int),
            decreases reported.len() - k,
        {
            all_results.push(reported[k]);
            assert(reported@.take(k + 1) =~= reported@.take(k as int).push(reported@[k as int]));
            k = k + 1;
        }
        assert(reported@.take(k as int) =~= reported@);
        let ghost row = all_results@;
        assert(old(self).rows().contains_key(f));
        assert(before.map_values(|r: Vec<i64>| r@) == old(self).rows()[f]);
        rows.push(all_results);
        assert(rows@.map_values(|r: Vec<i64>| r@) =~= before.map_values(|r: Vec<i64>| r@).push(
            row,
        ));
        self.flows_throughput.insert(f, rows);
        self.intermediate_t_top.insert(f, next);
        assert(self.rows() =~= old(self).rows().insert(f, old(self).rows()[f].push(row)));
        assert(self.window_ends() =~= old(self).window_ends().insert(f, next));
        proof {
            assert forall|j: int| 0 <= j < n implies #[trigger] finished(
                olds[j],
                self.measures@[j],
                totals.parts@[j],
                values@[j],
                row[j + 1],
            ) by {
                assert(row[j + 1] == reported@[j]);
            }
            assert forall|h: u16, j: int|
                self.window_ends().contains_key(h) && 0 <= j < self.measures@.len() implies #[trigger] tracks_flow(
                self.measures@[j],
                h,
            ) by {
                lemma_finished_tracks(olds[j], self.measures@[j], totals.parts@[j], values@[j], reported@[j], h);
            }
            assert forall|j: int| 0 <= j < self.measures@.len() implies measure_pattern(
                #[trigger] self.measures@[j],
            ) == self.pattern() && !report_out_of_range(self.measures@[j]) by {
                lemma_finished_tracks(olds[j], self.measures@[j], totals.parts@[j], values@[j], reported@[j], f);
            }
            assert forall|h: u16| #[trigger] self.rows().contains_key(h) implies rows_well_spaced(
                self.rows()[h],
                self.window_ends()[h] as int,
                g as int,
                self.measures@.len() + 1int,
            ) by {
                assert(row.len() == n + 1);
                assert(self.measures@.len() == n);
                if h != f {
                    assert(old(self).rows().contains_key(h));
                }
                if h == f {
                    let old_rows = old(self).rows()[f];
                    assert(rows_well_spaced(old_rows, end as int, g as int, n + 1int));
                    assert forall|k: int| 0 <= k < self.rows()[f].len() implies #[trigger] self.rows()[f][k].len()
                        == n + 1 && self.rows()[f][k][0] == next - (self.rows()[f].len() - k) * g by {
                        let m = old_rows.len() as int;
                        assert((m + 1 - k) * g == (m - k) * g + g) by (nonlinear_arith);
                        if k < m {
                            assert(self.rows()[f][k] == old_rows[k]);
                            assert(old_rows[k][0] == end - (m - k) * g);
                        } else {
                            assert(self.rows()[f][k] == row);
                            assert((m - k) * g == 0) by (nonlinear_arith)
                                requires
                                    k == m,
                            ;
                        }
                    }
                }
            }
        }
        true
    }

    /// Closes the open window of `flow` when `now` is past its end and windows
    /// move forward (a positive granularity): every window a packet is past
    /// gets closed in turn, each followed by `record_window`. Returns what
    /// each measurement found; `None`, changing nothing, otherwise.
    pub fn next_window(&mut self, flow: u16, now: i64) -> (r: Option<WindowTotals>)
        requires
            old(self).wf(),
        ensures
            final(self).wf(),
            final(self).pattern() == old(self).pattern(),
            final(self).spec_granularity() == old(self).spec_granularity(),
            final(self).measures().len() == old(self).measures().len(),
            final(self).rows() == old(self).rows(),
            final(self).window_ends() == old(self).window_ends(),
            r is Some <==> (old(self).spec_granularity() > 0 && old(self).window_ends().contains_key(
                flow,
            ) && now > old(self).window_ends()[flow]),
            r matches Some(t) ==> t.flow_label == flow && t.window_end == old(self).window_ends()[flow]
                && t.parts@.len() == old(self).measures().len() && forall|j: int|
                0 <= j < t.parts@.len() ==> #[trigger] closes(
                    old(self).measures()[j],
                    final(self).measures()[j],
                    t.parts@[j],
                    flow,
                ),
            r is None ==> final(self).measures() == old(self).measures(),
    {
        if self.granularity <= 0 {
            return None;
        }
        let t_top = match self.intermediate_t_top.get(&flow) {
            Some(t) => *t,
            None => return None,
        };
        if now <= t_top {
            return None;
        }
        let mut taken: Vec<Measure> = Vec::new();
        std::mem::swap(&mut taken, &mut self.measures);
        let ghost olds = taken@;
        let (closed, parts) = close_all(taken, flow, self.granularity);
        self.measures = closed;
        proof {
            assert forall|h: u16, j: int|
                self.window_ends().contains_key(h) && 0 <= j < self.measures@.len() implies #[trigger] tracks_flow(
                self.measures@[j],
                h,
            ) by {
                assert(tracks_flow(olds[j], h));
                lemma_closes_tracks(olds[j], self.measures@[j], parts@[j], flow, h);
            }
            assert forall|j: int| 0 <= j < self.measures@.len() implies measure_pattern(
                #[trigger] self.measures@[j],
            ) == self.pattern() && !report_out_of_range(self.measures@[j]) by {
                lemma_closes_tracks(olds[j], self.measures@[j], parts@[j], flow, flow);
            }
        }
        Some(WindowTotals { flow_label: flow, window_end: t_top, parts })
    }

    /// The rows of every flow seen, by flow.
    pub fn into_table(self) -> (t: HashMap<u16, Vec<Vec<i64>>>)
        ensures
            t@.map_values(|rs: Vec<Vec<i64>>| rs@.map_values(|r: Vec<i64>| r@)) == self.rows(),
    {
        self.flows_throughput
    }
}

/// Whether `t` is a part of the same kind as measurement `m`.
fn same_kind(m: &Measure, t: &MeasureTotals) -> (b: bool)
    ensures
        b == (kind_of(*m) == totals_kind(*t)),
{
    match (m, t) {
        (Measure::Throughput(_), MeasureTotals::Throughput(_)) => true,
        (Measure::Inflight(_), MeasureTotals::Inflight(_)) => true,
        (Measure::Rtt(_), MeasureTotals::Rtt(_)) => true,
        _ => false,
    }
}

/// Whether `value` is a report `t` may take.
fn fits(t: &MeasureTotals, value: i64) -> (b: bool)
    ensures
        b == value_fits(*t, value),
{
    match t {
        MeasureTotals::Rtt(w) => w.count == 0 || (0 <= value && value <= crate::rtt::MAX_RTT),
        _ => true,
    }
}

/// In every capture, the rows of each flow end their windows one window
/// length apart, the last one just before the open window, and every row
/// holds the window's end and one value per measurement; and every
/// round-trip time reported lies between 0 and 500 ms.
pub proof fn lemma_rows_well_spaced(m: &FlowMeasurements, f: u16)
    requires
        m.wf(),
        m.rows().contains_key(f),
    ensures
        m.window_ends().contains_key(f),
        rows_well_spaced(
            m.rows()[f],
            m.window_ends()[f] as int,
            m.spec_granularity() as int,
            m.measures().len() + 1int,
        ),
        forall|j: int| 0 <= j < m.measures().len() ==> !report_out_of_range(#[trigger] m.measures()[j]),
{
}

} // verus!
