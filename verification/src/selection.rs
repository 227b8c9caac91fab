//! Which capture files to read, and which flows of a capture to report.
use vstd::prelude::*;
use crate::pattern::{Pattern, regex_matches};
use crate::report::rows_of;

verus! {

/// `.*`, then `arg`, then `.*.pcap$`: file names holding `arg` and ending in
/// `pcap` after one more character.
pub open spec fn pcap_pattern_text(arg: Seq<char>) -> Seq<char> {
    seq!['.', '*'] + arg + seq!['.', '*', '.', 'p', 'c', 'a', 'p', '$']
}

/// The pattern of capture file names for the user's argument `arg`.
pub fn pcap_pattern(arg: &str) -> (s: String)
    ensures
        s@ == pcap_pattern_text(arg@),
{
    proof {
        reveal_strlit(".*");
        reveal_strlit(".*.pcap$");
    }
    let mut s = String::new();
    s.append(".*");
    s.append(arg);
    s.append(".*.pcap$");
    assert(s@ =~= pcap_pattern_text(arg@));
    s
}

/// An entry of a directory: its file name and whether it is a directory.
pub struct FileEntry {
    pub name: String,
    pub is_dir: bool,
}

/// Whether `e` is a file whose name `pattern` matches.
pub open spec fn selected(pattern: Seq<char>, e: FileEntry) -> bool {
    !e.is_dir && regex_matches(pattern, e.name@)
}

/// The positions, in order, of the entries of `entries` that are selected.
pub open spec fn selected_positions(pattern: Seq<char>, entries: Seq<FileEntry>) -> Seq<usize>
    decreases entries.len(),
{
    if entries.len() == 0 {
        Seq::empty()
    } else {
        let rest = selected_positions(pattern, entries.drop_last());
        if selected(pattern, entries.last()) {
            rest.push((entries.len() - 1) as usize)
        } else {
            rest
        }
    }
}

/// The files chosen are exactly the entries that are not directories and
/// whose names the pattern matches: every such position is returned, no other
/// one, each within the entries, in increasing order.
pub proof fn lemma_selected_positions_exact(pattern: Seq<char>, entries: Seq<FileEntry>)
    requires
        entries.len() <= usize::MAX,
    ensures
        forall|i: int|
            0 <= i < entries.len() ==> (selected_positions(pattern, entries).contains(i as usize)
                <==> selected(pattern, #[trigger] entries[i])),
        forall|k: int|
            0 <= k < selected_positions(pattern, entries).len() ==> #[trigger] selected_positions(
                pattern,
                entries,
            )[k] < entries.len(),
        forall|k1: int, k2: int|
            0 <= k1 < k2 < selected_positions(pattern, entries).len() ==> #[trigger] selected_positions(
                pattern,
                entries,
            )[k1] < #[trigger] selected_positions(pattern, entries)[k2],
    decreases entries.len(),
{
    if entries.len() > 0 {
        let prefix = entries.drop_last();
        lemma_selected_positions_exact(pattern, prefix);
        let rest = selected_positions(pattern, prefix);
        let last = (entries.len() - 1) as usize;
        assert forall|i: int| 0 <= i < entries.len() implies (selected_positions(
            pattern,
            entries,
        ).contains(i as usize) <==> selected(pattern, #[trigger] entries[i])) by {
            let all = selected_positions(pattern, entries);
            if i < entries.len() - 1 {
                assert(entries[i] == prefix[i]);
                if selected(pattern, entries.last()) {
                    assert(all == rest.push(last));
                    if rest.contains(i as usize) {
                        let k = choose|k: int| 0 <= k < rest.len() && rest[k] == i as usize;
                        assert(all[k] == i as usize);
                    }
                    if all.contains(i as usize) {
                        let k = choose|k: int| 0 <= k < all.len() && all[k] == i as usize;
                        if k < rest.len() {
                            assert(rest[k] == i as usize);
                        }
                    }
                }
            } else {
                if selected(pattern, entries.last()) {
                    assert(all[rest.len() as int] == last);
                } else {
                    if rest.contains(i as usize) {
                        let k = choose|k: int| 0 <= k < rest.len() && rest[k] == i as usize;
                        assert(rest[k] < prefix.len());
                    }
                }
            }
        }
        let all = selected_positions(pattern, entries);
        assert forall|k1: int, k2: int| 0 <= k1 < k2 < all.len() implies #[trigger] all[k1]
            < #[trigger] all[k2] by {
            if selected(pattern, entries.last()) {
                assert(all == rest.push(last));
                if k2 == rest.len() {
                    assert(rest[k1] < prefix.len());
                } else {
                    assert(all[k1] == rest[k1] && all[k2] == rest[k2]);
                }
            }
        }
        assert forall|k: int| 0 <= k < all.len() implies #[trigger] all[k] < entries.len() by {
            if selected(pattern, entries.last()) && k < rest.len() {
                assert(all[k] == rest[k]);
            }
        }
    }
}

/// The positions of the files among `entries` whose names `pattern` matches.
pub fn matching_files(pattern: &Pattern, entries: &[FileEntry]) -> (r: Vec<usize>)
    ensures
        r@ == selected_positions(pattern.text(), entries@),
        forall|i: int|
            0 <= i < entries@.len() ==> (r@.contains(i as usize) <==> (!(#[trigger] entries@[i]).is_dir
                && regex_matches(pattern.text(), entries@[i].name@))),
        forall|k1: int, k2: int| 0 <= k1 < k2 < r@.len() ==> #[trigger] r@[k1] < #[trigger] r@[k2],
{
    let n: usize = entries.len();
    proof {
        lemma_selected_positions_exact(pattern.text(), entries@);
    }
    let mut r: Vec<usize> = Vec::new();
    let mut i: usize = 0;
    while i < entries.len()
        invariant
            i <= entries@.len(),
            r@ == selected_positions(pattern.text(), entries@.take(i as int)),
        decreases entries.len() - i,
    {
        let entry = &entries[i];
        assert(entries@.take(i + 1).drop_last() =~= entries@.take(i as int));
        if !entry.is_dir && pattern.is_match(entry.name.as_str()) {
            r.push(i);
        }
        i = i + 1;
    }
    assert(entries@.take(i as int) =~= entries@);
    r
}

/// Whether a flow closed at least one window with something in it.
pub open spec fn measured(rows: Seq<Seq<i64>>) -> bool {
    rows.len() > 0 && rows[0].len() > 0
}

/// The flows of `flows` that are measured, in order.
pub open spec fn measured_of(flows: Seq<(u16, Vec<Vec<i64>>)>) -> Seq<(u16, Vec<Vec<i64>>)>
    decreases flows.len(),
{
    if flows.len() == 0 {
        Seq::empty()
    } else {
        let rest = measured_of(flows.drop_last());
        if measured(rows_of(flows.last().1@)) {
            rest.push(flows.last())
        } else {
            rest
        }
    }
}

/// The earliest first window end among the measured flows of `flows`, or
/// `i64::MAX` when none is measured.
pub open spec fn earliest_start(flows: Seq<(u16, Vec<Vec<i64>>)>) -> i64
    decreases flows.len(),
{
    if flows.len() == 0 {
        i64::MAX
    } else {
        let rest = earliest_start(flows.drop_last());
        let rows = rows_of(flows.last().1@);
        if measured(rows) && rows[0][0] < rest {
            rows[0][0]
        } else {
            rest
        }
    }
}

/// The flows kept are exactly the measured ones: each kept flow is measured
/// and comes from the capture, and each measured flow of the capture is
/// kept. The start time is no later than the first window of any measured
/// flow, and is one of those times, or `i64::MAX` when none is measured.
pub proof fn lemma_measured_flows_exact(flows: Seq<(u16, Vec<Vec<i64>>)>)
    ensures
        forall|k: int|
            0 <= k < measured_of(flows).len() ==> measured(rows_of(#[trigger] measured_of(flows)[k].1@))
                && flows.contains(measured_of(flows)[k]),
        forall|i: int|
            0 <= i < flows.len() && measured(rows_of((#[trigger] flows[i]).1@)) ==> measured_of(
                flows,
            ).contains(flows[i]),
        measured_of(flows).len() <= flows.len(),
        forall|i: int|
            0 <= i < flows.len() && measured(rows_of((#[trigger] flows[i]).1@)) ==> earliest_start(
                flows,
            ) <= rows_of(flows[i].1@)[0][0],
        earliest_start(flows) == i64::MAX || exists|i: int|
            0 <= i < flows.len() && measured(rows_of((#[trigger] flows[i]).1@)) && earliest_start(
                flows,
            ) == rows_of(flows[i].1@)[0][0],
    decreases flows.len(),
{
    if flows.len() > 0 {
        let prefix = flows.drop_last();
        lemma_measured_flows_exact(prefix);
        let kept = measured_of(flows);
        let rest = measured_of(prefix);
        let x = flows.last();
        assert(flows[flows.len() - 1] == x);
        assert forall|k: int| 0 <= k < kept.len() implies measured(rows_of(#[trigger] kept[k].1@))
            && flows.contains(kept[k]) by {
            if k < rest.len() {
                assert(kept[k] == rest[k]);
                assert(measured(rows_of(rest[k].1@)) && prefix.contains(rest[k]));
                let j = choose|j: int| 0 <= j < prefix.len() && prefix[j] == rest[k];
                assert(flows[j] == prefix[j]);
            }
        }
        assert forall|i: int| 0 <= i < flows.len() && measured(rows_of((#[trigger] flows[i]).1@))
            implies kept.contains(flows[i]) by {
            if i < flows.len() - 1 {
                assert(flows[i] == prefix[i]);
                let k = choose|k: int| 0 <= k < rest.len() && rest[k] == prefix[i];
                assert(kept[k] == rest[k]);
            } else {
                assert(kept[kept.len() - 1] == x);
            }
        }
        assert forall|i: int| 0 <= i < flows.len() && measured(rows_of((#[trigger] flows[i]).1@))
            implies earliest_start(flows) <= rows_of(flows[i].1@)[0][0] by {
            if i < flows.len() - 1 {
                assert(flows[i] == prefix[i]);
            }
        }
        if earliest_start(flows) != i64::MAX {
            if measured(rows_of(x.1@)) && rows_of(x.1@)[0][0] < earliest_start(prefix) {
            } else {
                let i = choose|i: int|
                    0 <= i < prefix.len() && measured(rows_of((#[trigger] prefix[i]).1@))
                        && earliest_start(prefix) == rows_of(prefix[i].1@)[0][0];
                assert(flows[i] == prefix[i]);
            }
        }
    }
}

/// The measured flows of a capture, and the earliest time among their first
/// windows.
pub fn measured_flows(flows: Vec<(u16, Vec<Vec<i64>>)>) -> (r: (i64, Vec<(u16, Vec<Vec<i64>>)>))
    ensures
        r.0 == earliest_start(flows@),
        r.1@ == measured_of(flows@),
        forall|i: int|
            0 <= i < flows@.len() && measured(rows_of((#[trigger] flows@[i]).1@)) ==> r.0 <= rows_of(
                flows@[i].1@,
            )[0][0] && r.1@.contains(flows@[i]),
        forall|k: int|
            0 <= k < r.1@.len() ==> measured(rows_of((#[trigger] r.1@[k]).1@)) && flows@.contains(
                r.1@[k],
            ),
{
    proof {
        lemma_measured_flows_exact(flows@);
    }
    let ghost all = flows@;
    let mut start_time: i64 = i64::MAX;
    let mut kept: Vec<(u16, Vec<Vec<i64>>)> = Vec::new();
    for flow in it: flows
        invariant
            it.seq() == all,
            start_time == earliest_start(all.take(it.index() as int)),
            kept@ == measured_of(all.take(it.index() as int)),
    {
        let ghost k = it.index() as int;
        assert(all.take(k + 1).drop_last() =~= all.take(k));
        assert(all.take(k + 1).last() == flow);
        let (port, tp) = flow;
        if tp.len() > 0 && tp[0].len() > 0 {
            if tp[0][0] < start_time {
                start_time = tp[0][0];
            }
            kept.push((port, tp));
        }
    }
    assert(all.take(all.len() as int) =~= all);
    (start_time, kept)
}

/// The smallest of `starts` and `i64::MAX`.
pub open spec fn min_or_max(starts: Seq<i64>) -> i64
    decreases starts.len(),
{
    if starts.len() == 0 {
        i64::MAX
    } else {
        let rest = min_or_max(starts.drop_last());
        if starts.last() < rest {
            starts.last()
        } else {
            rest
        }
    }
}

/// The earliest start time is no later than any capture's, and is one of
/// them; `i64::MAX` only when there is no capture.
pub proof fn lemma_min_or_max_is_minimum(starts: Seq<i64>)
    ensures
        forall|i: int| 0 <= i < starts.len() ==> min_or_max(starts) <= #[trigger] starts[i],
        starts.len() > 0 ==> starts.contains(min_or_max(starts)),
        starts.len() == 0 ==> min_or_max(starts) == i64::MAX,
    decreases starts.len(),
{
    if starts.len() > 0 {
        let prefix = starts.drop_last();
        lemma_min_or_max_is_minimum(prefix);
        assert forall|i: int| 0 <= i < starts.len() implies min_or_max(starts) <= #[trigger] starts[i] by {
            if i < starts.len() - 1 {
                assert(starts[i] == prefix[i]);
            }
        }
        if starts.last() < min_or_max(prefix) || prefix.len() == 0 {
            assert(starts[starts.len() - 1] == starts.last());
        } else {
            let k = choose|k: int| 0 <= k < prefix.len() && prefix[k] == min_or_max(prefix);
            assert(starts[k] == prefix[k]);
        }
    }
}

/// The earliest of the start times of several captures, `i64::MAX` for none.
pub fn min_start_time(starts: &[i64]) -> (t: i64)
    ensures
        t == min_or_max(starts@),
        forall|i: int| 0 <= i < starts@.len() ==> t <= #[trigger] starts@[i],
        starts@.len() > 0 ==> starts@.contains(t),
        starts@.len() == 0 ==> t == i64::MAX,
{
    proof {
        lemma_min_or_max_is_minimum(starts@);
    }
    let mut min_start_time = i64::MAX;
    let mut i: usize = 0;
    while i < starts.len()
        invariant
            i <= starts@.len(),
            min_start_time == min_or_max(starts@.take(i as int)),
        decreases starts.len() - i,
    {
        assert(starts@.take(i + 1).drop_last() =~= starts@.take(i as int));
        if starts[i] < min_start_time {
            min_start_time = starts[i];
        }
        i = i + 1;
    }
    assert(starts@.take(i as int) =~= starts@);
    min_start_time
}

} // verus!
