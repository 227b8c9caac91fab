//! Round-trip time: the mean time from sending a packet toward the receivers
//! to the first acknowledgement that covers it.
use vstd::prelude::*;
use std::collections::HashMap;
use crate::direction::{is_toward_receiver, toward_receiver};
use crate::packet::Pkts;
use crate::pattern::Pattern;
use crate::throughput::recorded;

verus! {

/// A packet sent toward the receivers, and when it was acknowledged.
#[derive(Debug, Clone, Copy, PartialEq, Eq)]
pub struct PacketTime {
    pub seq_num: u32,
    /// When it was sent, in milliseconds.
    pub sent_time: i64,
    /// When an acknowledgement first covered it, or -1 while none has.
    pub ack_time: i64,
}

/// Samples above this many milliseconds are thrown away as implausible.
pub const MAX_RTT: i64 = 500;

/// An acknowledgement numbered `ack` at `time` marks every packet of `w` with
/// a sequence number up to `ack` that had no acknowledgement yet.
pub open spec fn acknowledged(w: Seq<PacketTime>, ack: u32, time: i64) -> Seq<PacketTime> {
    w.map_values(
        |p: PacketTime|
            if p.seq_num <= ack && p.ack_time == -1 {
                PacketTime { ack_time: time, ..p }
            } else {
                p
            },
    )
}

/// The window of a flow after one more packet `p`: a packet toward the
/// receivers joins it unacknowledged; any other acknowledges.
pub open spec fn window_after(pattern: Seq<char>, w: Seq<PacketTime>, p: Pkts) -> Seq<PacketTime> {
    if toward_receiver(pattern, p) {
        w.push(PacketTime { seq_num: p.tcp_p.sequence, sent_time: p.time, ack_time: -1i64 })
    } else {
        acknowledged(w, p.tcp_p.acknowledgement, p.time)
    }
}

/// Whether `p` was acknowledged.
pub open spec fn is_acked(p: PacketTime) -> bool {
    p.ack_time != -1
}

/// Whether `p` was acknowledged after a round trip longer than `MAX_RTT`.
pub open spec fn is_outlier(p: PacketTime) -> bool {
    is_acked(p) && p.ack_time > p.sent_time && p.ack_time - p.sent_time > MAX_RTT
}

/// The round-trip time `p` contributes: its round trip when it was
/// acknowledged after it was sent and within `MAX_RTT`, else 0.
pub open spec fn sample(p: PacketTime) -> int {
    if is_acked(p) && p.ack_time > p.sent_time && !is_outlier(p) {
        p.ack_time - p.sent_time
    } else {
        0
    }
}

/// The number of acknowledged packets of `w` that are not outliers.
pub open spec fn sample_count(w: Seq<PacketTime>) -> int
    decreases w.len(),
{
    if w.len() == 0 {
        0
    } else {
        sample_count(w.drop_last()) + if is_acked(w.last()) && !is_outlier(w.last()) {
            1int
        } else {
            0
        }
    }
}

/// The sum of the samples of `w`.
pub open spec fn sample_sum(w: Seq<PacketTime>) -> int
    decreases w.len(),
{
    if w.len() == 0 {
        0
    } else {
        sample_sum(w.drop_last()) + sample(w.last())
    }
}

/// There are no more samples than packets, and each lies between 0 and `MAX_RTT`.
pub proof fn lemma_sample_bounds(w: Seq<PacketTime>)
    ensures
        0 <= sample_count(w) <= w.len(),
        0 <= sample_sum(w) <= MAX_RTT * sample_count(w),
    decreases w.len(),
{
    if w.len() > 0 {
        lemma_sample_bounds(w.drop_last());
    }
}

/// How many packets from the front of `w` reach up to and including its last
/// acknowledged packet (0 when none is acknowledged).
pub open spec fn cleared_len(w: Seq<PacketTime>) -> int
    decreases w.len(),
{
    if w.len() == 0 {
        0
    } else if is_acked(w.last()) {
        w.len() as int
    } else {
        cleared_len(w.drop_last())
    }
}

/// What stays of `w` once the packets up to its last acknowledged one are
/// cleared: the packets after it, none of them acknowledged.
pub open spec fn unacked_tail(w: Seq<PacketTime>) -> Seq<PacketTime> {
    w.subrange(cleared_len(w), w.len() as int)
}

/// `cleared_len` lies within the window, and no packet after it is
/// acknowledged.
pub proof fn lemma_cleared_len_bounds(w: Seq<PacketTime>)
    ensures
        0 <= cleared_len(w) <= w.len(),
        forall|j: int| cleared_len(w) <= j < w.len() ==> !is_acked(#[trigger] w[j]),
    decreases w.len(),
{
    if w.len() > 0 {
        lemma_cleared_len_bounds(w.drop_last());
        if !is_acked(w.last()) {
            assert forall|j: int| cleared_len(w) <= j < w.len() implies !is_acked(#[trigger] w[j]) by {
                if j < w.len() - 1 {
                    assert(w[j] == w.drop_last()[j]);
                }
            }
        }
    }
}

/// A round trip of at most 500 ms counts as a sample of its length (a
/// non-positive one counts as a sample of 0); a longer one is thrown away
/// and counts as no sample; an unacknowledged packet counts as none.
pub proof fn lemma_sample_rule(p: PacketTime)
    ensures
        !is_acked(p) ==> sample_count(seq![p]) == 0 && sample_sum(seq![p]) == 0,
        is_acked(p) && p.ack_time - p.sent_time > 500 ==> sample_count(seq![p]) == 0
            && sample_sum(seq![p]) == 0,
        is_acked(p) && 0 < p.ack_time - p.sent_time <= 500 ==> sample_count(seq![p]) == 1
            && sample_sum(seq![p]) == p.ack_time - p.sent_time,
        is_acked(p) && p.ack_time <= p.sent_time ==> sample_count(seq![p]) == 1 && sample_sum(
            seq![p],
        ) == 0,
{
    assert(seq![p].drop_last() =~= Seq::<PacketTime>::empty());
    assert(sample_count(Seq::<PacketTime>::empty()) == 0);
    assert(sample_sum(Seq::<PacketTime>::empty()) == 0);
    assert(seq![p].last() == p);
}

/// Closing clears the window up to and including its last acknowledged
/// packet: what stays is the tail after that packet, none of it
/// acknowledged, and the packet just before the tail (if any) was
/// acknowledged.
pub proof fn lemma_clearing_rule(w: Seq<PacketTime>)
    ensures
        0 <= cleared_len(w) <= w.len(),
        unacked_tail(w) == w.subrange(cleared_len(w), w.len() as int),
        forall|j: int| 0 <= j < unacked_tail(w).len() ==> !is_acked(#[trigger] unacked_tail(w)[j]),
        cleared_len(w) > 0 ==> is_acked(w[cleared_len(w) - 1]),
    decreases w.len(),
{
    lemma_cleared_len_bounds(w);
    assert forall|j: int| 0 <= j < unacked_tail(w).len() implies !is_acked(
        #[trigger] unacked_tail(w)[j],
    ) by {
        assert(unacked_tail(w)[j] == w[cleared_len(w) + j]);
    }
    if w.len() > 0 && !is_acked(w.last()) {
        lemma_clearing_rule(w.drop_last());
        if cleared_len(w) > 0 {
            assert(w[cleared_len(w) - 1] == w.drop_last()[cleared_len(w) - 1]);
        }
    }
}

/// A window in which no packet was acknowledged stays as it was when it
/// closes; it has no sample, so the last report stands.
pub proof fn lemma_unacknowledged_window_kept(w: Seq<PacketTime>)
    requires
        forall|j: int| 0 <= j < w.len() ==> !is_acked(#[trigger] w[j]),
    ensures
        cleared_len(w) == 0,
        unacked_tail(w) == w,
        sample_count(w) == 0,
        sample_sum(w) == 0,
    decreases w.len(),
{
    if w.len() > 0 {
        let p = w.drop_last();
        assert forall|j: int| 0 <= j < p.len() implies !is_acked(#[trigger] p[j]) by {
            assert(p[j] == w[j]);
        }
        lemma_unacknowledged_window_kept(p);
        assert(!is_acked(w[w.len() - 1]));
    }
    assert(w.subrange(0, w.len() as int) =~= w);
}

/// The round-trip time of a window with samples, their mean rounded toward
/// zero, lies between 0 and `MAX_RTT`.
pub proof fn lemma_mean_within_bounds(w: Seq<PacketTime>)
    requires
        sample_count(w) > 0,
    ensures
        0 <= sample_sum(w) / sample_count(w) <= MAX_RTT,
{
    lemma_sample_bounds(w);
    let s = sample_sum(w);
    let c = sample_count(w);
    assert(0 <= s / c <= MAX_RTT) by (nonlinear_arith)
        requires
            0 <= s <= MAX_RTT * c,
            c > 0,
            MAX_RTT == 500,
    ;
}

/// What closing a window found: the sum of its samples and their number.
#[derive(Debug, Clone, Copy, PartialEq, Eq)]
pub struct RttWindow {
    pub sum: i128,
    pub count: usize,
}

/// Per flow, the packets sent toward the receivers and not yet dropped from
/// the window; and the round-trip time last reported.
pub struct RTTState {
    intermediate_flows: HashMap<u16, Vec<PacketTime>>,
    last_rtt: i64,
    sender_dst: Pattern,
}

impl RTTState {
    /// The round-trip time reported is never negative and never above
    /// `MAX_RTT`.
    #[verifier::type_invariant]
    spec fn report_bounded(self) -> bool {
        0 <= self.last_rtt <= MAX_RTT
    }

    /// The window of each flow seen.
    pub closed spec fn windows(&self) -> Map<u16, Seq<PacketTime>> {
        self.intermediate_flows@.map_values(|w: Vec<PacketTime>| w@)
    }

    /// The round-trip time last reported.
    pub closed spec fn last(&self) -> i64 {
        self.last_rtt
    }

    /// The pattern that tells packets toward the receivers.
    pub closed spec fn pattern(&self) -> Seq<char> {
        self.sender_dst.text()
    }

    /// The last report lies between 0 and `MAX_RTT` milliseconds.
    pub open spec fn report_in_range(&self) -> bool {
        0 <= self.last() <= MAX_RTT
    }

    /// No flow seen yet and a last round-trip time of 0; `sender_dst` tells
    /// which packets go toward the receivers.
    pub fn new(sender_dst: Pattern) -> (s: Self)
        ensures
            s.windows() == Map::<u16, Seq<PacketTime>>::empty(),
            s.last() == 0,
            s.report_in_range(),
            s.pattern() == sender_dst.text(),
    {
        let s = RTTState { intermediate_flows: HashMap::new(), last_rtt: 0, sender_dst };
        assert(s.windows() =~= Map::<u16, Seq<PacketTime>>::empty());
        s
    }

    /// The label under which the measurement is reported.
    pub fn get_label(&self) -> (l: &'static str)
        ensures
            l@ == "rtt"@,
    {
        "rtt"
    }

    /// The round-trip time last reported; it lies between 0 and `MAX_RTT`.
    pub fn last_rtt(&self) -> (r: i64)
        ensures
            r == self.last(),
            0 <= r <= MAX_RTT,
    {
        proof {
            use_type_invariant(self);
        }
        self.last_rtt
    }

    /// Takes `packet` of `flow_label` into account: a packet toward the
    /// receivers joins the window unacknowledged, any other acknowledges the
    /// packets it covers.
    pub fn on_packet(&mut self, flow_label: u16, packet: Pkts, _granularity: i64)
        ensures
            final(self).pattern() == old(self).pattern(),
            final(self).last() == old(self).last(),
            final(self).windows() == old(self).windows().insert(
                flow_label,
                window_after(old(self).pattern(), recorded(old(self).windows(), flow_label), packet),
            ),
    {
        proof {
            use_type_invariant(&*self);
        }
        let mut flows: HashMap<u16, Vec<PacketTime>> = HashMap::new();
        std::mem::swap(&mut flows, &mut self.intermediate_flows);
        let mut window = match flows.remove(&flow_label) {
            Some(w) => w,
            None => Vec::new(),
        };
        let ghost before = window@;
        if is_toward_receiver(&self.sender_dst, &packet) {
            window.push(
                PacketTime { seq_num: packet.tcp_p.sequence, sent_time: packet.time, ack_time: -1 },
            );
        } else {
            let ack_num = packet.tcp_p.acknowledgement;
            let mut i: usize = 0;
            while i < window.len()
                invariant
                    i <= window@.len(),
                    window@.len() == before.len(),
                    forall|j: int|
                        0 <= j < i ==> window@[j] == acknowledged(before, ack_num, packet.time)[j],
                    forall|j: int| i <= j < window@.len() ==> window@[j] == before[j],
                decreases window.len() - i,
            {
                let p = window[i];
                if p.seq_num <= ack_num && p.ack_time == -1 {
                    window.set(i, PacketTime { ack_time: packet.time, ..p });
                }
                i = i + 1;
            }
            assert(window@ =~= acknowledged(before, ack_num, packet.time));
        }
        flows.insert(flow_label, window);
        self.intermediate_flows = flows;
        assert(self.windows() =~= old(self).windows().insert(
            flow_label,
            window_after(old(self).pattern(), recorded(old(self).windows(), flow_label), packet),
        ));
    }

    /// Whether `flow_label` has been seen.
    pub fn tracks(&self, flow_label: u16) -> (b: bool)
        ensures
            b == self.windows().contains_key(flow_label),
    {
        self.intermediate_flows.contains_key(&flow_label)
    }

    /// Closes the window of `flow_label`, a flow already seen: the sum and
    /// number of its samples, and the window cleared up to and including
    /// the last acknowledged packet.
    pub fn close_window(&mut self, flow_label: u16) -> (t: RttWindow)
        requires
            old(self).windows().contains_key(flow_label),
        ensures
            final(self).pattern() == old(self).pattern(),
            final(self).last() == old(self).last(),
            ({
                let w = old(self).windows()[flow_label];
                &&& t.sum == sample_sum(w)
                &&& t.count == sample_count(w)
                &&& final(self).windows() == old(self).windows().insert(flow_label, unacked_tail(w))
            }),
    {
        proof {
            use_type_invariant(&*self);
        }
        let mut flows: HashMap<u16, Vec<PacketTime>> = HashMap::new();
        std::mem::swap(&mut flows, &mut self.intermediate_flows);
        let mut window = match flows.remove(&flow_label) {
            Some(w) => w,
            None => Vec::new(),
        };
        let mut sum: i128 = 0;
        let mut count: usize = 0;
        let mut acked_through: usize = 0;
        let mut i: usize = 0;
        while i < window.len()
            invariant
                i <= window@.len(),
                sum == sample_sum(window@.take(i as int)),
                count == sample_count(window@.take(i as int)),
                acked_through == cleared_len(window@.take(i as int)),
            decreases window.len() - i,
        {
            let pkt = window[i];
            proof {
                assert(window@.take(i + 1).drop_last() =~= window@.take(i as int));
                lemma_sample_bounds(window@.take(i as int));
            }
            if pkt.ack_time != -1 {
                acked_through = i + 1;
                count = count + 1;
                if pkt.ack_time > pkt.sent_time {
                    let cur_rtt = pkt.ack_time as i128 - pkt.sent_time as i128;
                    if cur_rtt > MAX_RTT as i128 {
                        // implausibly long: thrown away
                        count = count - 1;
                    } else {
                        sum = sum + cur_rtt;
                    }
                }
            }
            i = i + 1;
        }
        assert(window@.take(i as int) =~= window@);
        proof {
            lemma_sample_bounds(window@);
            lemma_cleared_len_bounds(window@);
        }
        let ghost whole = window@;
        // clear the list up to the last acked packet
        let rest = window.split_off(acked_through);
        flows.insert(flow_label, rest);
        self.intermediate_flows = flows;
        assert(self.windows() =~= old(self).windows().insert(flow_label, unacked_tail(whole)));
        RttWindow { sum, count }
    }

    /// Reports the round-trip time of a closed window whose samples average
    /// `mean` (a mean of samples, so between 0 and `MAX_RTT` where there are
    /// samples): with no sample the last report stands, else `mean` replaces
    /// it. Every report lies between 0 and `MAX_RTT`.
    pub fn finish_window(&mut self, closed: RttWindow, mean: i64) -> (r: i64)
        requires
            closed.count == 0 || 0 <= mean <= MAX_RTT,
        ensures
            final(self).pattern() == old(self).pattern(),
            final(self).windows() == old(self).windows(),
            final(self).report_in_range(),
            0 <= r <= MAX_RTT,
            final(self).last() == if closed.count == 0 {
                old(self).last()
            } else {
                mean
            },
            r == final(self).last(),
    {
        proof {
            use_type_invariant(&*self);
        }
        if closed.count != 0 {
            self.last_rtt = mean;
        }
        self.last_rtt
    }
}

/// The first acknowledgement of a packet is the one that counts: a later
/// packet never changes a packet already acknowledged, nor the sequence
/// number or send time of any packet in the window, nor drops any.
pub proof fn lemma_acknowledgement_sticks(pattern: Seq<char>, w: Seq<PacketTime>, p: Pkts)
    ensures
        window_after(pattern, w, p).len() >= w.len(),
        forall|j: int|
            0 <= j < w.len() ==> {
                let q = #[trigger] window_after(pattern, w, p)[j];
                &&& q.seq_num == w[j].seq_num
                &&& q.sent_time == w[j].sent_time
                &&& is_acked(w[j]) ==> q == w[j]
            },
{
}

/// A packet sent toward the receivers joins the end of the window with its
/// own full 32-bit sequence number and send time, unacknowledged, and leaves
/// every earlier entry as it was.
pub proof fn lemma_send_recorded(pattern: Seq<char>, w: Seq<PacketTime>, p: Pkts)
    requires
        toward_receiver(pattern, p),
    ensures
        window_after(pattern, w, p).len() == w.len() + 1,
        window_after(pattern, w, p)[w.len() as int].seq_num == p.tcp_p.sequence,
        window_after(pattern, w, p)[w.len() as int].sent_time == p.time,
        !is_acked(window_after(pattern, w, p)[w.len() as int]),
        forall|j: int| 0 <= j < w.len() ==> #[trigger] window_after(pattern, w, p)[j] == w[j],
{
}

/// An acknowledgement numbered `a` (at a time other than -1) marks an
/// unacknowledged packet exactly when the packet's sequence number is at
/// most `a`: every packet numbered above `a` stays unacknowledged, and a
/// packet it marks gets the acknowledgement's time.
pub proof fn lemma_acknowledgement_exact(pattern: Seq<char>, w: Seq<PacketTime>, p: Pkts)
    requires
        !toward_receiver(pattern, p),
        p.time != -1,
    ensures
        window_after(pattern, w, p).len() == w.len(),
        forall|j: int|
            0 <= j < w.len() && !is_acked(w[j]) ==> (is_acked(
                #[trigger] window_after(pattern, w, p)[j],
            ) <==> w[j].seq_num <= p.tcp_p.acknowledgement),
        forall|j: int|
            0 <= j < w.len() && !is_acked(w[j]) && w[j].seq_num <= p.tcp_p.acknowledgement
                ==> #[trigger] window_after(pattern, w, p)[j].ack_time == p.time,
{
}

/// An acknowledgement covers every packet up to its number: afterwards each
/// such packet carries an acknowledgement time (when the acknowledgement's
/// own time is not -1).
pub proof fn lemma_acknowledgement_covers(pattern: Seq<char>, w: Seq<PacketTime>, p: Pkts)
    requires
        !toward_receiver(pattern, p),
        p.time != -1,
    ensures
        forall|j: int|
            0 <= j < w.len() && w[j].seq_num <= p.tcp_p.acknowledgement ==> is_acked(
                #[trigger] window_after(pattern, w, p)[j],
            ),
{
}

} // verus!
