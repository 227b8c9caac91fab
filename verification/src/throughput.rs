//! Throughput: the bytes each flow sends toward the receivers in a window.
use vstd::prelude::*;
use std::collections::HashMap;
use crate::direction::{is_toward_receiver, toward_receiver};
use crate::packet::Pkts;
use crate::pattern::Pattern;

verus! {

/// The packets recorded for `flow` in `flows`, or none.
pub open spec fn recorded<T>(flows: Map<u16, Seq<T>>, flow: u16) -> Seq<T> {
    if flows.contains_key(flow) {
        flows[flow]
    } else {
        Seq::empty()
    }
}

/// Bytes (IPv4 total length) of the packets in `pkts` that go toward the
/// receivers by `pattern`.
pub open spec fn sent_bytes(pattern: Seq<char>, pkts: Seq<Pkts>) -> int
    decreases pkts.len(),
{
    if pkts.len() == 0 {
        0
    } else {
        sent_bytes(pattern, pkts.drop_last()) + if toward_receiver(pattern, pkts.last()) {
            pkts.last().ip_p.total_length as int
        } else {
            0
        }
    }
}

/// A lone packet toward the receivers counts its IPv4 total length, whatever
/// its TCP ports, sequence and acknowledgement numbers; a lone packet the
/// other way counts nothing.
pub proof fn lemma_single_packet_bytes(pattern: Seq<char>, p: Pkts)
    ensures
        toward_receiver(pattern, p) ==> sent_bytes(pattern, seq![p]) == p.ip_p.total_length,
        !toward_receiver(pattern, p) ==> sent_bytes(pattern, seq![p]) == 0,
{
    assert(seq![p].drop_last() =~= Seq::<Pkts>::empty());
    assert(sent_bytes(pattern, Seq::<Pkts>::empty()) == 0);
    assert(seq![p].last() == p);
}

/// Packets toward the receivers count their IPv4 total length: adding one
/// to a window adds exactly its length, adding one the other way adds
/// nothing, whatever the TCP header holds.
pub proof fn lemma_packet_adds_its_length(pattern: Seq<char>, w: Seq<Pkts>, p: Pkts)
    ensures
        toward_receiver(pattern, p) ==> sent_bytes(pattern, w.push(p)) == sent_bytes(pattern, w)
            + p.ip_p.total_length,
        !toward_receiver(pattern, p) ==> sent_bytes(pattern, w.push(p)) == sent_bytes(pattern, w),
{
    lemma_single_packet_bytes(pattern, p);
    lemma_sent_bytes_additive(pattern, w, seq![p]);
    assert(w + seq![p] =~= w.push(p));
}

/// `sent_bytes` lies between zero and 65535 bytes per packet.
pub proof fn lemma_sent_bytes_bounds(pattern: Seq<char>, pkts: Seq<Pkts>)
    ensures
        0 <= sent_bytes(pattern, pkts) <= 65535 * pkts.len(),
    decreases pkts.len(),
{
    if pkts.len() > 0 {
        lemma_sent_bytes_bounds(pattern, pkts.drop_last());
    }
}

/// Throughput adds up: the bytes of two stretches of packets, one after the
/// other, are the bytes of each stretch together.
pub proof fn lemma_sent_bytes_additive(pattern: Seq<char>, a: Seq<Pkts>, b: Seq<Pkts>)
    ensures
        sent_bytes(pattern, a + b) == sent_bytes(pattern, a) + sent_bytes(pattern, b),
    decreases b.len(),
{
    if b.len() == 0 {
        assert(a + b =~= a);
    } else {
        lemma_sent_bytes_additive(pattern, a, b.drop_last());
        assert((a + b).drop_last() =~= a + b.drop_last());
    }
}

/// Throughput does not depend on the order of the packets: two stretches
/// holding the same packets, however arranged, carry the same bytes.
pub proof fn lemma_sent_bytes_order_free(pattern: Seq<char>, a: Seq<Pkts>, b: Seq<Pkts>)
    requires
        a.to_multiset() == b.to_multiset(),
    ensures
        sent_bytes(pattern, a) == sent_bytes(pattern, b),
    decreases a.len(),
{
    broadcast use vstd::seq_lib::to_multiset_build, vstd::seq_lib::to_multiset_remove,
        vstd::seq_lib::to_multiset_len, vstd::seq_lib::to_multiset_contains;

    if a.len() == 0 {
        assert(b.to_multiset().len() == 0);
        assert(b =~= a);
    } else {
        let x = a.last();
        let rest = a.drop_last();
        assert(rest.push(x) =~= a);
        assert(a.to_multiset() =~= rest.to_multiset().insert(x));
        assert(b.to_multiset().count(x) > 0);
        assert(b.contains(x));
        let i = choose|i: int| 0 <= i < b.len() && b[i] == x;
        let b2 = b.remove(i);
        assert(b2.to_multiset() == b.to_multiset().remove(x));
        assert(rest.to_multiset() =~= b2.to_multiset());
        lemma_sent_bytes_order_free(pattern, rest, b2);
        let left = b.subrange(0, i);
        let right = b.subrange(i + 1, b.len() as int);
        assert(b2 =~= left + right);
        assert(b =~= left.push(x) + right);
        lemma_sent_bytes_additive(pattern, left, right);
        lemma_sent_bytes_additive(pattern, left.push(x), right);
        assert(left.push(x).drop_last() =~= left);
    }
}

/// Per flow, the packets seen since the flow's last window closed.
pub struct ThroughputState {
    intermediate_flows: HashMap<u16, Vec<Pkts>>,
    sender_dst: Pattern,
}

impl ThroughputState {
    /// The packets of each flow in its open window.
    pub closed spec fn flows(&self) -> Map<u16, Seq<Pkts>> {
        self.intermediate_flows@.map_values(|w: Vec<Pkts>| w@)
    }

    /// The pattern that tells packets toward the receivers.
    pub closed spec fn pattern(&self) -> Seq<char> {
        self.sender_dst.text()
    }

    /// No flow seen yet; `sender_dst` tells which packets go toward the receivers.
    pub fn new(sender_dst: Pattern) -> (s: Self)
        ensures
            s.flows() == Map::<u16, Seq<Pkts>>::empty(),
            s.pattern() == sender_dst.text(),
    {
        let s = ThroughputState { intermediate_flows: HashMap::new(), sender_dst };
        assert(s.flows() =~= Map::<u16, Seq<Pkts>>::empty());
        s
    }

    /// The label under which the measurement is reported.
    pub fn get_label(&self) -> (l: &'static str)
        ensures
            l@ == "throughput"@,
    {
        "throughput"
    }

    /// The IPv4 total length of `pkt`.
    pub fn packet_len(pkt: &Pkts) -> (n: u32)
        ensures
            n == pkt.ip_p.total_length,
    {
        pkt.ip_p.total_length as u32
    }

    /// The bytes that the packets of `pkts` bound for the receivers carry.
    pub fn calculate_throughput_between(&self, pkts: &[Pkts]) -> (n: i128)
        ensures
            n == sent_bytes(self.pattern(), pkts@),
    {
        let mut data_size: i128 = 0;
        let mut idx: usize = 0;
        while idx < pkts.len()
            invariant
                idx <= pkts@.len(),
                data_size == sent_bytes(self.pattern(), pkts@.take(idx as int)),
            decreases pkts.len() - idx,
        {
            let p = &pkts[idx];
            proof {
                assert(pkts@.take(idx + 1).drop_last() =~= pkts@.take(idx as int));
                lemma_sent_bytes_bounds(self.pattern(), pkts@.take(idx as int));
            }
            if is_toward_receiver(&self.sender_dst, p) {
                data_size = data_size + Self::packet_len(p) as i128;
            }
            idx = idx + 1;
        }
        assert(pkts@.take(idx as int) =~= pkts@);
        data_size
    }

    /// Records `packet` in the open window of `flow_label`.
    pub fn on_packet(&mut self, flow_label: u16, packet: Pkts, _granularity: i64)
        ensures
            final(self).pattern() == old(self).pattern(),
            final(self).flows() == old(self).flows().insert(
                flow_label,
                recorded(old(self).flows(), flow_label).push(packet),
            ),
    {
        let mut window = match self.intermediate_flows.remove(&flow_label) {
            Some(w) => w,
            None => Vec::with_capacity(1000),
        };
        window.push(packet);
        self.intermediate_flows.insert(flow_label, window);
        assert(self.flows() =~= old(self).flows().insert(
            flow_label,
            recorded(old(self).flows(), flow_label).push(packet),
        ));
    }

    /// Whether `flow_label` has been seen.
    pub fn tracks(&self, flow_label: u16) -> (b: bool)
        ensures
            b == self.flows().contains_key(flow_label),
    {
        self.intermediate_flows.contains_key(&flow_label)
    }

    /// Closes the window of `flow_label`, a flow already seen: the bytes its
    /// packets bound for the receivers carried, and an empty window in its
    /// place.
    pub fn close_window(&mut self, flow_label: u16) -> (n: i128)
        requires
            old(self).flows().contains_key(flow_label),
        ensures
            final(self).pattern() == old(self).pattern(),
            n == sent_bytes(old(self).pattern(), old(self).flows()[flow_label]),
            final(self).flows() == old(self).flows().insert(flow_label, Seq::empty()),
            sent_bytes(final(self).pattern(), final(self).flows()[flow_label]) == 0,
            forall|g: u16|
                g != flow_label ==> (#[trigger] final(self).flows().contains_key(g)
                    == old(self).flows().contains_key(g)) && (old(self).flows().contains_key(g)
                    ==> final(self).flows()[g] == old(self).flows()[g]),
    {
        let window = match self.intermediate_flows.remove(&flow_label) {
            Some(w) => w,
            None => Vec::new(),
        };
        let bytes = self.calculate_throughput_between(window.as_slice());
        self.intermediate_flows.insert(flow_label, Vec::with_capacity(1000));
        assert(self.flows() =~= old(self).flows().insert(flow_label, Seq::empty()));
        bytes
    }
}

/// Closing a window empties it: closing it again at once finds no bytes,
/// and the windows of all other flows stay as they were.
pub proof fn lemma_closed_window_is_empty(
    pattern: Seq<char>,
    before: Map<u16, Seq<Pkts>>,
    after: Map<u16, Seq<Pkts>>,
    flow: u16,
)
    requires
        after == before.insert(flow, Seq::<Pkts>::empty()),
    ensures
        after.contains_key(flow),
        sent_bytes(pattern, after[flow]) == 0,
        forall|g: u16| g != flow ==> #[trigger] after.contains_key(g) == before.contains_key(g),
        forall|g: u16| g != flow && before.contains_key(g) ==> #[trigger] after[g] == before[g],
{
}

} // verus!
