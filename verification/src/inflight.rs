//! Bytes in flight: how far the highest sequence number sent runs ahead of
//! the highest acknowledgement, per flow.
use vstd::prelude::*;
use std::collections::HashMap;
use crate::direction::{is_toward_receiver, toward_receiver};
use crate::packet::Pkts;
use crate::pattern::Pattern;

verus! {

/// What one flow has shown of its sequence space.
#[derive(Debug, Clone, Copy, PartialEq, Eq)]
pub struct SeqProgress {
    /// Highest sequence number sent, by `advances`.
    pub last_sent: u32,
    /// Highest acknowledgement number received, by `advances`.
    pub last_acked: u32,
    /// First nonzero sequence number seen, or 0.
    pub first_sent: u32,
    /// First nonzero acknowledgement number seen, or 0.
    pub first_acked: u32,
}

/// The progress of a flow before any packet.
pub open spec fn no_progress() -> SeqProgress {
    SeqProgress { last_sent: 0, last_acked: 0, first_sent: 0, first_acked: 0 }
}

/// Whether `new` moves past `last` in a 32-bit sequence space that may wrap
/// past zero after `first`: `new` is larger than `last`, or `new` lies below
/// `first` (it wrapped) while `last` lies above `first` or lies farther below
/// `first` than `new` does.
pub open spec fn advances(new: u32, last: u32, first: u32) -> bool {
    new > last || (new < first && (last > first || first - new < first - last))
}

/// The progress of a flow after one more packet `p`.
pub open spec fn progress_after(pattern: Seq<char>, s: SeqProgress, p: Pkts) -> SeqProgress {
    if toward_receiver(pattern, p) {
        let sent = p.tcp_p.sequence;
        SeqProgress {
            first_sent: if s.first_sent == 0 { sent } else { s.first_sent },
            last_sent: if advances(sent, s.last_sent, s.first_sent) { sent } else { s.last_sent },
            ..s
        }
    } else {
        let acked = p.tcp_p.acknowledgement;
        SeqProgress {
            first_acked: if s.first_acked == 0 { acked } else { s.first_acked },
            last_acked: if advances(acked, s.last_acked, s.first_acked) { acked } else { s.last_acked },
            ..s
        }
    }
}

/// Bytes in flight: the highest sequence number sent minus the highest
/// acknowledgement, or 0 when the acknowledgement is not behind.
pub open spec fn in_flight(s: SeqProgress) -> int {
    if s.last_sent > s.last_acked {
        s.last_sent - s.last_acked
    } else {
        0
    }
}

/// The progress recorded for `flow`, or none.
pub open spec fn progress_of(flows: Map<u16, SeqProgress>, flow: u16) -> SeqProgress {
    if flows.contains_key(flow) {
        flows[flow]
    } else {
        no_progress()
    }
}

/// Per flow, the sequence and acknowledgement numbers seen so far.
pub struct InflightState {
    flows: HashMap<u16, SeqProgress>,
    sender_dst: Pattern,
}

impl InflightState {
    /// The progress of each flow seen.
    pub closed spec fn progress(&self) -> Map<u16, SeqProgress> {
        self.flows@
    }

    /// The pattern that tells packets toward the receivers.
    pub closed spec fn pattern(&self) -> Seq<char> {
        self.sender_dst.text()
    }

    /// No flow seen yet; `sender_dst` tells which packets go toward the receivers.
    pub fn new(sender_dst: Pattern) -> (s: Self)
        ensures
            s.progress() == Map::<u16, SeqProgress>::empty(),
            s.pattern() == sender_dst.text(),
    {
        InflightState { flows: HashMap::new(), sender_dst }
    }

    /// The label under which the measurement is reported.
    pub fn get_label(&self) -> (l: &'static str)
        ensures
            l@ == "inflight"@,
    {
        "inflight"
    }

    /// Takes `packet` of `flow_label` into account: a packet toward the
    /// receivers may move the highest sequence number sent, any other the
    /// highest acknowledgement.
    pub fn on_packet(&mut self, flow_label: u16, packet: Pkts, _granularity: i64)
        ensures
            final(self).pattern() == old(self).pattern(),
            final(self).progress() == old(self).progress().insert(
                flow_label,
                progress_after(old(self).pattern(), progress_of(old(self).progress(), flow_label), packet),
            ),
    {
        let mut s = match self.flows.get(&flow_label) {
            Some(s) => *s,
            None => SeqProgress { last_sent: 0, last_acked: 0, first_sent: 0, first_acked: 0 },
        };
        let last_sent = s.last_sent;
        let last_acked = s.last_acked;
        let first_sent = s.first_sent;
        let first_acked = s.first_acked;
        if is_toward_receiver(&self.sender_dst, &packet) {
            let sent = packet.tcp_p.sequence;
            if first_sent == 0 {
                s.first_sent = sent;
            }
            // sequence numbers may wrap past zero
            if sent > last_sent || (sent < first_sent && (last_sent > first_sent || first_sent
                - sent < first_sent - last_sent)) {
                s.last_sent = sent;
            }
        } else {
            let acked = packet.tcp_p.acknowledgement;
            if first_acked == 0 {
                s.first_acked = acked;
            }
            // acknowledgement numbers may wrap past zero
            if acked > last_acked || (acked < first_acked && (last_acked > first_acked
                || first_acked - acked < first_acked - last_acked)) {
                s.last_acked = acked;
            }
        }
        self.flows.insert(flow_label, s);
    }

    /// Whether `flow_label` has been seen.
    pub fn tracks(&self, flow_label: u16) -> (b: bool)
        ensures
            b == self.progress().contains_key(flow_label),
    {
        self.flows.contains_key(&flow_label)
    }

    /// Bytes in flight on `flow_label`, a flow already seen; nothing changes.
    pub fn on_window(&mut self, flow_label: u16, _granularity: i64) -> (n: i64)
        requires
            old(self).progress().contains_key(flow_label),
        ensures
            final(self).pattern() == old(self).pattern(),
            final(self).progress() == old(self).progress(),
            n == in_flight(old(self).progress()[flow_label]),
    {
        let s = match self.flows.get(&flow_label) {
            Some(s) => *s,
            None => SeqProgress { last_sent: 0, last_acked: 0, first_sent: 0, first_acked: 0 },
        };
        let mut inflight: u32 = 0;
        if s.last_sent > s.last_acked {
            inflight = s.last_sent - s.last_acked;
        }
        inflight as i64
    }
}

/// Sequence numbers that wrapped past zero: a number below the first one
/// seen moves past a highest number that lies above the first one.
pub proof fn lemma_wrapped_number_advances(new: u32, last: u32, first: u32)
    requires
        new < first,
        last > first,
    ensures
        advances(new, last, first),
{
}

/// A number never moves past itself: a repeated (retransmitted or duplicate)
/// sequence or acknowledgement number leaves the flow's highest numbers as
/// they were.
pub proof fn lemma_repeat_does_not_advance(pattern: Seq<char>, s: SeqProgress, p: Pkts)
    requires
        toward_receiver(pattern, p) ==> p.tcp_p.sequence == s.last_sent,
        !toward_receiver(pattern, p) ==> p.tcp_p.acknowledgement == s.last_acked,
    ensures
        progress_after(pattern, s, p).last_sent == s.last_sent,
        progress_after(pattern, s, p).last_acked == s.last_acked,
{
}

/// The first nonzero numbers a flow shows are kept: once recorded, no later
/// packet replaces them.
pub proof fn lemma_first_numbers_kept(pattern: Seq<char>, s: SeqProgress, p: Pkts)
    ensures
        s.first_sent != 0 ==> progress_after(pattern, s, p).first_sent == s.first_sent,
        s.first_acked != 0 ==> progress_after(pattern, s, p).first_acked == s.first_acked,
{
}

/// A packet moves only the numbers of its own direction: one toward the
/// receivers leaves the acknowledgements alone, any other the sequence
/// numbers.
pub proof fn lemma_direction_separates(pattern: Seq<char>, s: SeqProgress, p: Pkts)
    ensures
        toward_receiver(pattern, p) ==> progress_after(pattern, s, p).last_acked == s.last_acked
            && progress_after(pattern, s, p).first_acked == s.first_acked,
        !toward_receiver(pattern, p) ==> progress_after(pattern, s, p).last_sent == s.last_sent
            && progress_after(pattern, s, p).first_sent == s.first_sent,
{
}

/// Bytes in flight never exceed the highest sequence number sent, and are
/// never negative.
pub proof fn lemma_in_flight_bounds(s: SeqProgress)
    ensures
        0 <= in_flight(s) <= s.last_sent,
{
}

/// The progress of a flow after the packets `pkts`, in order.
pub open spec fn progress_through(pattern: Seq<char>, pkts: Seq<Pkts>) -> SeqProgress
    decreases pkts.len(),
{
    if pkts.len() == 0 {
        no_progress()
    } else {
        progress_after(pattern, progress_through(pattern, pkts.drop_last()), pkts.last())
    }
}

/// The largest sequence number among the packets of `pkts` toward the
/// receivers, or 0.
pub open spec fn max_sent(pattern: Seq<char>, pkts: Seq<Pkts>) -> u32
    decreases pkts.len(),
{
    if pkts.len() == 0 {
        0
    } else {
        let rest = max_sent(pattern, pkts.drop_last());
        if toward_receiver(pattern, pkts.last()) && pkts.last().tcp_p.sequence > rest {
            pkts.last().tcp_p.sequence
        } else {
            rest
        }
    }
}

/// The largest acknowledgement number among the other packets of `pkts`, or 0.
pub open spec fn max_acked(pattern: Seq<char>, pkts: Seq<Pkts>) -> u32
    decreases pkts.len(),
{
    if pkts.len() == 0 {
        0
    } else {
        let rest = max_acked(pattern, pkts.drop_last());
        if !toward_receiver(pattern, pkts.last()) && pkts.last().tcp_p.acknowledgement > rest {
            pkts.last().tcp_p.acknowledgement
        } else {
            rest
        }
    }
}

/// The first nonzero sequence number of a packet toward the receivers, or 0.
pub open spec fn first_sent_of(pattern: Seq<char>, pkts: Seq<Pkts>) -> u32
    decreases pkts.len(),
{
    if pkts.len() == 0 {
        0
    } else {
        let rest = first_sent_of(pattern, pkts.drop_last());
        if rest == 0 && toward_receiver(pattern, pkts.last()) {
            pkts.last().tcp_p.sequence
        } else {
            rest
        }
    }
}

/// The first nonzero acknowledgement number of the other packets, or 0.
pub open spec fn first_acked_of(pattern: Seq<char>, pkts: Seq<Pkts>) -> u32
    decreases pkts.len(),
{
    if pkts.len() == 0 {
        0
    } else {
        let rest = first_acked_of(pattern, pkts.drop_last());
        if rest == 0 && !toward_receiver(pattern, pkts.last()) {
            pkts.last().tcp_p.acknowledgement
        } else {
            rest
        }
    }
}

/// No number wrapped: every sequence number is positive and at least the
/// first one sent, and every acknowledgement number positive and at least
/// the first one received.
pub open spec fn no_wrap(pattern: Seq<char>, pkts: Seq<Pkts>) -> bool {
    forall|j: int|
        0 <= j < pkts.len() ==> (toward_receiver(pattern, #[trigger] pkts[j]) ==> 0
            < pkts[j].tcp_p.sequence && first_sent_of(pattern, pkts) <= pkts[j].tcp_p.sequence)
            && (!toward_receiver(pattern, pkts[j]) ==> 0 < pkts[j].tcp_p.acknowledgement
            && first_acked_of(pattern, pkts) <= pkts[j].tcp_p.acknowledgement)
}

/// Without wraparound, a flow's progress holds the largest sequence number
/// sent and the largest acknowledgement received, whatever order the packets
/// came in, so bytes in flight are the one minus the other, or 0.
pub proof fn lemma_no_wrap_tracks_maxima(pattern: Seq<char>, pkts: Seq<Pkts>)
    requires
        no_wrap(pattern, pkts),
    ensures
        progress_through(pattern, pkts) == (SeqProgress {
            last_sent: max_sent(pattern, pkts),
            last_acked: max_acked(pattern, pkts),
            first_sent: first_sent_of(pattern, pkts),
            first_acked: first_acked_of(pattern, pkts),
        }),
        first_sent_of(pattern, pkts) == 0 ==> max_sent(pattern, pkts) == 0,
        first_acked_of(pattern, pkts) == 0 ==> max_acked(pattern, pkts) == 0,
        in_flight(progress_through(pattern, pkts)) == if max_sent(pattern, pkts) > max_acked(
            pattern,
            pkts,
        ) {
            max_sent(pattern, pkts) - max_acked(pattern, pkts)
        } else {
            0
        },
    decreases pkts.len(),
{
    if pkts.len() > 0 {
        let prefix = pkts.drop_last();
        assert(no_wrap(pattern, prefix)) by {
            assert forall|j: int| 0 <= j < prefix.len() implies (toward_receiver(
                pattern,
                #[trigger] prefix[j],
            ) ==> 0 < prefix[j].tcp_p.sequence && first_sent_of(pattern, prefix)
                <= prefix[j].tcp_p.sequence) && (!toward_receiver(pattern, prefix[j]) ==> 0
                < prefix[j].tcp_p.acknowledgement && first_acked_of(pattern, prefix)
                <= prefix[j].tcp_p.acknowledgement) by {
                assert(prefix[j] == pkts[j]);
            }
        }
        lemma_no_wrap_tracks_maxima(pattern, prefix);
        assert(pkts.last() == pkts[pkts.len() - 1]);
    }
}

} // verus!
