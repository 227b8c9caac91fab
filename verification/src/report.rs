//! The CSV text written for each flow: one line per closed window.
use vstd::prelude::*;
use crate::text::{push_signed, signed_decimal, decimal, is_digit, lemma_decimal_reads_back};

verus! {

/// `parts` joined by `sep`.
pub open spec fn join(parts: Seq<Seq<char>>, sep: Seq<char>) -> Seq<char>
    decreases parts.len(),
{
    if parts.len() == 0 {
        Seq::empty()
    } else if parts.len() == 1 {
        parts[0]
    } else {
        join(parts.drop_last(), sep) + sep + parts.last()
    }
}

/// The header line: `time,` and then the labels, comma-separated.
pub open spec fn header_line(labels: Seq<Seq<char>>) -> Seq<char> {
    seq!['t', 'i', 'm', 'e', ','] + join(labels, seq![',']) + seq!['\n']
}

/// The texts of the numbers in `values`.
pub open spec fn number_texts(values: Seq<i64>) -> Seq<Seq<char>> {
    values.map_values(|v: i64| signed_decimal(v as int))
}

/// The line of one window: its time relative to `start`, then its
/// measurements, comma-separated.
pub open spec fn row_line(row: Seq<i64>, start: int) -> Seq<char> {
    signed_decimal(row[0] - start) + seq![','] + join(number_texts(row.drop_first()), seq![','])
        + seq!['\n']
}

/// The lines of the windows in `rows`.
pub open spec fn row_lines(rows: Seq<Seq<i64>>, start: int) -> Seq<char>
    decreases rows.len(),
{
    if rows.len() == 0 {
        Seq::empty()
    } else {
        row_lines(rows.drop_last(), start) + row_line(rows.last(), start)
    }
}

/// Every row has a time, and its time relative to `start` fits in `i64`.
pub open spec fn rows_printable(rows: Seq<Seq<i64>>, start: int) -> bool {
    forall|k: int|
        0 <= k < rows.len() ==> #[trigger] rows[k].len() > 0 && i64::MIN <= rows[k][0] - start
            <= i64::MAX
}

/// The whole text of a flow's file.
pub open spec fn csv_text(labels: Seq<Seq<char>>, rows: Seq<Seq<i64>>, start: int) -> Seq<char> {
    header_line(labels) + row_lines(rows, start)
}

/// How many times `c` occurs in `s`.
pub open spec fn occurrences(s: Seq<char>, c: char) -> int
    decreases s.len(),
{
    if s.len() == 0 {
        0
    } else {
        occurrences(s.drop_last(), c) + if s.last() == c {
            1int
        } else {
            0
        }
    }
}

/// Occurrences add up over concatenation.
pub proof fn lemma_occurrences_concat(a: Seq<char>, b: Seq<char>, c: char)
    ensures
        occurrences(a + b, c) == occurrences(a, c) + occurrences(b, c),
    decreases b.len(),
{
    if b.len() == 0 {
        assert(a + b =~= a);
    } else {
        lemma_occurrences_concat(a, b.drop_last(), c);
        assert((a + b).drop_last() =~= a + b.drop_last());
    }
}

/// A one-character string holds `c` once if it is `c`, else not at all.
pub proof fn lemma_occurrences_single(x: char, c: char)
    ensures
        occurrences(seq![x], c) == if x == c {
            1int
        } else {
            0
        },
{
    assert(seq![x].drop_last() =~= Seq::<char>::empty());
    assert(occurrences(Seq::<char>::empty(), c) == 0);
    assert(seq![x].last() == x);
}

/// A string without `c` has no occurrence of it.
pub proof fn lemma_occurrences_absent(s: Seq<char>, c: char)
    requires
        forall|i: int| 0 <= i < s.len() ==> #[trigger] s[i] != c,
    ensures
        occurrences(s, c) == 0,
    decreases s.len(),
{
    if s.len() > 0 {
        assert forall|i: int| 0 <= i < s.drop_last().len() implies #[trigger] s.drop_last()[i] != c by {
            assert(s.drop_last()[i] == s[i]);
        }
        lemma_occurrences_absent(s.drop_last(), c);
        assert(s.last() == s[s.len() - 1]);
    }
}

/// The text of a number holds neither a comma nor a line break.
pub proof fn lemma_number_text_plain(n: int)
    ensures
        occurrences(signed_decimal(n), ',') == 0,
        occurrences(signed_decimal(n), '\n') == 0,
{
    let m: nat = if n < 0 { (-n) as nat } else { n as nat };
    lemma_decimal_reads_back(m);
    let d = decimal(m);
    assert forall|i: int| 0 <= i < d.len() implies #[trigger] d[i] != ',' && d[i] != '\n' by {
        assert(is_digit(d[i]));
    }
    lemma_occurrences_absent(d, ',');
    lemma_occurrences_absent(d, '\n');
    if n < 0 {
        lemma_occurrences_concat(seq!['-'], d, ',');
        lemma_occurrences_concat(seq!['-'], d, '\n');
        lemma_occurrences_single('-', ',');
        lemma_occurrences_single('-', '\n');
    }
}

/// Joining `k` number texts with commas puts `k - 1` commas between them
/// and no line break.
pub proof fn lemma_joined_numbers_commas(values: Seq<i64>)
    ensures
        values.len() > 0 ==> occurrences(join(number_texts(values), seq![',']), ',') == values.len()
            - 1,
        values.len() == 0 ==> occurrences(join(number_texts(values), seq![',']), ',') == 0,
        occurrences(join(number_texts(values), seq![',']), '\n') == 0,
    decreases values.len(),
{
    let parts = number_texts(values);
    if values.len() == 0 {
        assert(join(parts, seq![',']) =~= Seq::<char>::empty());
    } else if values.len() == 1 {
        lemma_number_text_plain(values[0] as int);
    } else {
        let prefix = values.drop_last();
        lemma_joined_numbers_commas(prefix);
        assert(parts.drop_last() =~= number_texts(prefix));
        lemma_number_text_plain(values.last() as int);
        let j = join(number_texts(prefix), seq![',']);
        lemma_occurrences_concat(j, seq![','], ',');
        lemma_occurrences_concat(j + seq![','], parts.last(), ',');
        lemma_occurrences_concat(j, seq![','], '\n');
        lemma_occurrences_concat(j + seq![','], parts.last(), '\n');
        lemma_occurrences_single(',', ',');
        lemma_occurrences_single(',', '\n');
    }
}

/// The line of a window holds one comma per measurement (one field per value
/// of the row, the time first) and ends with its only line break.
pub proof fn lemma_row_line_fields(row: Seq<i64>, start: int)
    requires
        row.len() >= 2,
    ensures
        occurrences(row_line(row, start), ',') == row.len() - 1,
        occurrences(row_line(row, start), '\n') == 1,
        row_line(row, start).last() == '\n',
{
    let t = signed_decimal(row[0] - start);
    let j = join(number_texts(row.drop_first()), seq![',']);
    lemma_number_text_plain(row[0] - start);
    lemma_joined_numbers_commas(row.drop_first());
    lemma_occurrences_concat(t, seq![','], ',');
    lemma_occurrences_concat(t + seq![','], j, ',');
    lemma_occurrences_concat(t + seq![','] + j, seq!['\n'], ',');
    lemma_occurrences_concat(t, seq![','], '\n');
    lemma_occurrences_concat(t + seq![','], j, '\n');
    lemma_occurrences_concat(t + seq![','] + j, seq!['\n'], '\n');
    lemma_occurrences_single(',', ',');
    lemma_occurrences_single(',', '\n');
    lemma_occurrences_single('\n', ',');
    lemma_occurrences_single('\n', '\n');
}

/// Joined texts without line breaks hold none.
pub proof fn lemma_join_no_newline(parts: Seq<Seq<char>>)
    requires
        forall|k: int| 0 <= k < parts.len() ==> occurrences(#[trigger] parts[k], '\n') == 0,
    ensures
        occurrences(join(parts, seq![',']), '\n') == 0,
    decreases parts.len(),
{
    if parts.len() == 0 {
        assert(join(parts, seq![',']) =~= Seq::<char>::empty());
    } else if parts.len() > 1 {
        let prefix = parts.drop_last();
        assert forall|k: int| 0 <= k < prefix.len() implies occurrences(#[trigger] prefix[k], '\n')
            == 0 by {
            assert(prefix[k] == parts[k]);
        }
        lemma_join_no_newline(prefix);
        let j = join(prefix, seq![',']);
        lemma_occurrences_concat(j, seq![','], '\n');
        lemma_occurrences_concat(j + seq![','], parts.last(), '\n');
        lemma_occurrences_single(',', '\n');
        assert(parts.last() == parts[parts.len() - 1]);
    }
}

/// A flow's text has one line per window after the header line, whatever
/// the values (given labels without line breaks).
pub proof fn lemma_csv_lines(labels: Seq<Seq<char>>, rows: Seq<Seq<i64>>, start: int)
    requires
        forall|k: int| 0 <= k < labels.len() ==> occurrences(#[trigger] labels[k], '\n') == 0,
        forall|k: int| 0 <= k < rows.len() ==> (#[trigger] rows[k]).len() >= 2,
    ensures
        occurrences(csv_text(labels, rows, start), '\n') == rows.len() + 1,
    decreases rows.len(),
{
    if rows.len() == 0 {
        lemma_join_no_newline(labels);
        let h = seq!['t', 'i', 'm', 'e', ','];
        let j = join(labels, seq![',']);
        assert forall|i: int| 0 <= i < h.len() implies #[trigger] h[i] != '\n' by {}
        lemma_occurrences_absent(h, '\n');
        lemma_occurrences_concat(h, j, '\n');
        lemma_occurrences_concat(h + j, seq!['\n'], '\n');
        lemma_occurrences_single('\n', '\n');
        assert(row_lines(rows, start) =~= Seq::<char>::empty());
        assert(csv_text(labels, rows, start) =~= header_line(labels));
    } else {
        let prefix = rows.drop_last();
        assert forall|k: int| 0 <= k < prefix.len() implies (#[trigger] prefix[k]).len() >= 2 by {
            assert(prefix[k] == rows[k]);
        }
        lemma_csv_lines(labels, prefix, start);
        assert(rows.last() == rows[rows.len() - 1]);
        lemma_row_line_fields(rows.last(), start);
        let before = csv_text(labels, prefix, start);
        assert(csv_text(labels, rows, start) =~= before + row_line(rows.last(), start));
        lemma_occurrences_concat(before, row_line(rows.last(), start), '\n');
    }
}

/// The views of `rows`.
pub open spec fn rows_of(rows: Seq<Vec<i64>>) -> Seq<Seq<i64>> {
    rows.map_values(|r: Vec<i64>| r@)
}

/// The views of `labels`.
pub open spec fn texts_of(labels: Seq<&str>) -> Seq<Seq<char>> {
    labels.map_values(|l: &str| l@)
}

/// Appends `values`, comma-separated, to `s`.
fn push_joined_numbers(s: &mut String, values: &[i64])
    ensures
        final(s)@ == old(s)@ + join(number_texts(values@), seq![',']),
{
    proof {
        reveal_strlit(",");
    }
    let ghost start = s@;
    let mut i: usize = 0;
    while i < values.len()
        invariant
            i <= values@.len(),
            s@ == start + join(number_texts(values@.take(i as int)), seq![',']),
        decreases values.len() - i,
    {
        proof {
            reveal_strlit(",");
        }
        let ghost prefix = number_texts(values@.take(i as int));
        assert(number_texts(values@.take(i + 1)) =~= prefix.push(signed_decimal(values@[i as int] as int)));
        if i > 0 {
            s.append(",");
        }
        push_signed(s, values[i]);
        proof {
            let next = prefix.push(signed_decimal(values@[i as int] as int));
            assert(next.drop_last() =~= prefix);
            if i == 0 {
                assert(prefix.len() == 0);
                assert(s@ =~= start + join(next, seq![',']));
            } else {
                assert(s@ =~= start + join(next, seq![',']));
            }
        }
        i = i + 1;
    }
    assert(values@.take(i as int) =~= values@);
}

/// Appends `labels`, comma-separated, to `s`.
fn push_joined_labels(s: &mut String, labels: &[&str])
    ensures
        final(s)@ == old(s)@ + join(texts_of(labels@), seq![',']),
{
    proof {
        reveal_strlit(",");
    }
    let ghost start = s@;
    let mut i: usize = 0;
    while i < labels.len()
        invariant
            i <= labels@.len(),
            s@ == start + join(texts_of(labels@.take(i as int)), seq![',']),
        decreases labels.len() - i,
    {
        proof {
            reveal_strlit(",");
        }
        let ghost prefix = texts_of(labels@.take(i as int));
        let ghost next = prefix.push(labels@[i as int]@);
        assert(texts_of(labels@.take(i + 1)) =~= next);
        if i > 0 {
            s.append(",");
        }
        s.append(labels[i]);
        assert(next.drop_last() =~= prefix);
        assert(s@ =~= start + join(next, seq![',']));
        i = i + 1;
    }
    assert(labels@.take(i as int) =~= labels@);
}

/// Whether every row of `tps` has a time whose offset from `start_time`
/// fits in `i64`.
pub fn printable(tps: &[Vec<i64>], start_time: i64) -> (b: bool)
    ensures
        b == rows_printable(rows_of(tps@), start_time as int),
{
    let mut i: usize = 0;
    while i < tps.len()
        invariant
            i <= tps@.len(),
            rows_printable(rows_of(tps@.take(i as int)), start_time as int),
        decreases tps.len() - i,
    {
        let tp = &tps[i];
        assert(rows_of(tps@)[i as int] == tp@);
        if tp.len() == 0 || tp[0].checked_sub(start_time).is_none() {
            return false;
        }
        proof {
            let rows = rows_of(tps@.take(i + 1));
            assert forall|k: int| 0 <= k < rows.len() implies #[trigger] rows[k].len() > 0 && i64::MIN
                <= rows[k][0] - start_time <= i64::MAX by {
                if k < i {
                    assert(rows[k] == rows_of(tps@.take(i as int))[k]);
                }
            }
        }
        i = i + 1;
    }
    assert(tps@.take(i as int) =~= tps@);
    true
}

/// The CSV text of a flow: a header with `time` and the labels, then one line
/// per row of `tps` holding the row's time relative to `start_time` and the
/// rest of the row. Every row has a time, and its relative time fits in `i64`.
pub fn csv_contents(labels: &[&str], tps: &[Vec<i64>], start_time: i64) -> (s: String)
    requires
        rows_printable(rows_of(tps@), start_time as int),
    ensures
        s@ == csv_text(texts_of(labels@), rows_of(tps@), start_time as int),
{
    proof {
        reveal_strlit("time,");
        reveal_strlit(",");
        reveal_strlit("\n");
    }
    let mut s = String::new();
    s.append("time,");
    push_joined_labels(&mut s, labels);
    s.append("\n");
    assert(s@ =~= header_line(texts_of(labels@)));
    let ghost header = s@;
    let mut i: usize = 0;
    while i < tps.len()
        invariant
            i <= tps@.len(),
            rows_printable(rows_of(tps@), start_time as int),
            s@ == header + row_lines(rows_of(tps@.take(i as int)), start_time as int),
        decreases tps.len() - i,
    {
        proof {
            reveal_strlit(",");
            reveal_strlit("\n");
        }
        let tp = &tps[i];
        assert(rows_of(tps@)[i as int] == tp@);
        let time = tp[0];
        let shifted = time - start_time;
        let ghost before = s@;
        push_signed(&mut s, shifted);
        s.append(",");
        let (_, measures) = tp.split_at(1);
        push_joined_numbers(&mut s, measures);
        s.append("\n");
        proof {
            let rows = rows_of(tps@.take(i + 1));
            assert(rows.drop_last() =~= rows_of(tps@.take(i as int)));
            assert(rows.last() == tp@);
            assert(tp@.drop_first() =~= measures@);
            assert(s@ =~= before + row_line(tp@, start_time as int));
        }
        i = i + 1;
    }
    assert(tps@.take(i as int) =~= tps@);
    s
}

} // verus!
