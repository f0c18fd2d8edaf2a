//! Row selections over the rows of a Parquet file.
use parquet::arrow::arrow_reader::RowSelection;
use vstd::prelude::*;

verus! {

/// `parquet`'s row selection: a list of runs of rows, each run either read or skipped.
#[verifier::external_type_specification]
#[verifier::external_body]
pub struct ExRowSelection(RowSelection);

/// The runs of a selection, in order. A run is its number of rows and whether it is skipped.
pub uninterp spec fn runs(selection: RowSelection) -> Seq<(usize, bool)>;

/// The number of rows that a list of runs covers.
pub open spec fn covered_rows(runs: Seq<(usize, bool)>) -> nat
    decreases runs.len(),
{
    if runs.len() == 0 {
        0
    } else {
        runs[0].0 as nat + covered_rows(runs.drop_first())
    }
}

/// The first `rows` rows of a list of runs, and the runs of the rows behind them. A run that
/// holds rows of both sides is cut in two.
pub open spec fn split_runs(runs: Seq<(usize, bool)>, rows: nat) -> (
    Seq<(usize, bool)>,
    Seq<(usize, bool)>,
)
    decreases runs.len(),
{
    if runs.len() == 0 {
        (runs, runs)
    } else if runs[0].0 <= rows {
        let (head, rest) = split_runs(runs.drop_first(), (rows - runs[0].0) as nat);
        (seq![runs[0]] + head, rest)
    } else {
        let cut = if rows == 0 {
            Seq::empty()
        } else {
            seq![(rows as usize, runs[0].1)]
        };
        (cut, seq![((runs[0].0 - rows) as usize, runs[0].1)] + runs.drop_first())
    }
}

/// The number of rows of the runs up to the first that ends behind the first `rows` rows, that
/// run included; of all the runs, where none does.
pub open spec fn reached_rows(runs: Seq<(usize, bool)>, rows: nat) -> nat
    decreases runs.len(),
{
    if runs.len() == 0 {
        0
    } else if runs[0].0 <= rows {
        runs[0].0 as nat + reached_rows(runs.drop_first(), (rows - runs[0].0) as nat)
    } else {
        runs[0].0 as nat
    }
}

/// Whether some run of the list is read.
pub open spec fn reads_any(runs: Seq<(usize, bool)>) -> bool {
    exists|i: int| 0 <= i < runs.len() && !(#[trigger] runs[i]).1
}

/// Calls `RowSelection::split_off`, which takes the runs of the first `row_count` rows out of
/// the selection and leaves the rest. On the way it sums up the row counts of the runs, up to
/// the first run that ends behind those rows, so these must be countable.
#[verifier::external_body]
pub(crate) fn split_off(selection: &mut RowSelection, row_count: usize) -> (head: RowSelection)
    requires
        reached_rows(runs(*old(selection)), row_count as nat) <= usize::MAX,
    ensures
        runs(head) == split_runs(runs(*old(selection)), row_count as nat).0,
        runs(*final(selection)) == split_runs(runs(*old(selection)), row_count as nat).1,
{
    selection.split_off(row_count)
}

/// Calls `RowSelection::selects_any`, which tells whether some run is read.
#[verifier::external_body]
pub(crate) fn selects_any(selection: &RowSelection) -> (any: bool)
    ensures
        any == reads_any(runs(*selection)),
{
    selection.selects_any()
}

/// Calls the conversion of a `RowSelection` into the `Vec` of its `RowSelector`s, and hands
/// each selector out as its two fields.
#[verifier::external_body]
pub(crate) fn into_runs(selection: RowSelection) -> (list: Vec<(usize, bool)>)
    ensures
        list@ == runs(selection),
{
    let selectors: Vec<parquet::arrow::arrow_reader::RowSelector> = selection.into();
    selectors.into_iter().map(|s| (s.row_count, s.skip)).collect()
}

/// Calls `RowSelection::iter`, which walks the `RowSelector`s, and hands each selector out as
/// its two fields.
#[verifier::external_body]
pub(crate) fn list_runs(selection: &RowSelection) -> (list: Vec<(usize, bool)>)
    ensures
        list@ == runs(*selection),
{
    selection.iter().map(|s| (s.row_count, s.skip)).collect()
}

/// Tells whether the first rows of a selection can be split off: whether the rows of the runs up
/// to the first that ends behind them can be counted in a `usize`.
pub fn can_split_off(selection: &RowSelection, row_count: usize) -> (can: bool)
    ensures
        can == (reached_rows(runs(*selection), row_count as nat) <= usize::MAX),
{
    let list = list_runs(selection);
    let mut left: usize = row_count;
    let ghost all = list@;
    assert(all.skip(0) =~= all);
    for i in 0..list.len()
        invariant
            all == list@,
            all == runs(*selection),
            left <= row_count,
            reached_rows(all, row_count as nat) == row_count - left + reached_rows(
                all.skip(i as int),
                left as nat,
            ),
    {
        assert(all.skip(i as int).drop_first() =~= all.skip(i + 1));
        if list[i].0 > left {
            return list[i].0 <= usize::MAX - (row_count - left);
        }
        left = left - list[i].0;
    }
    assert(all.skip(list.len() as int) =~= Seq::empty());
    true
}

/// One flag for each row that a list of runs covers: whether the row is read.
pub open spec fn row_flags(runs: Seq<(usize, bool)>) -> Seq<bool>
    decreases runs.len(),
{
    if runs.len() == 0 {
        Seq::empty()
    } else {
        Seq::new(runs[0].0 as nat, |i: int| !runs[0].1) + row_flags(runs.drop_first())
    }
}

/// The smaller of two counts.
pub open spec fn smaller(a: nat, b: nat) -> nat {
    if a <= b {
        a
    } else {
        b
    }
}

/// A list of runs has one flag for each row it covers.
pub proof fn law_row_flags_len(runs: Seq<(usize, bool)>)
    ensures
        row_flags(runs).len() == covered_rows(runs),
    decreases runs.len(),
{
    if runs.len() > 0 {
        law_row_flags_len(runs.drop_first());
    }
}

/// Splitting a list of runs loses, repeats and reorders no row: the rows of the head are the
/// first `rows` rows (or all of them, where there are fewer), and the rows of the rest are
/// the rows behind those.
pub proof fn law_split_keeps_rows(runs: Seq<(usize, bool)>, rows: nat)
    ensures
        row_flags(split_runs(runs, rows).0) == row_flags(runs).take(
            smaller(rows, covered_rows(runs)) as int,
        ),
        row_flags(split_runs(runs, rows).1) == row_flags(runs).skip(
            smaller(rows, covered_rows(runs)) as int,
        ),
    decreases runs.len(),
{
    law_row_flags_len(runs);
    if runs.len() == 0 {
    } else if runs[0].0 <= rows {
        let tail = runs.drop_first();
        let left = (rows - runs[0].0) as nat;
        law_split_keeps_rows(tail, left);
        law_row_flags_len(tail);
        let (head, rest) = split_runs(tail, left);
        assert((seq![runs[0]] + head).drop_first() =~= head);
        assert(row_flags(split_runs(runs, rows).0) =~= row_flags(runs).take(
            smaller(rows, covered_rows(runs)) as int,
        ));
        assert(row_flags(split_runs(runs, rows).1) =~= row_flags(runs).skip(
            smaller(rows, covered_rows(runs)) as int,
        ));
    } else {
        let (head, rest) = split_runs(runs, rows);
        law_row_flags_len(runs.drop_first());
        assert(rest.drop_first() =~= runs.drop_first());
        if rows > 0 {
            assert(row_flags(head.drop_first()) =~= Seq::empty());
        }
        assert(row_flags(head) =~= row_flags(runs).take(rows as int));
        assert(row_flags(rest) =~= row_flags(runs).skip(rows as int));
    }
}

/// A list of runs of which none is read flags no row as read.
pub proof fn law_unread_runs_read_no_row(runs: Seq<(usize, bool)>, row: int)
    requires
        !reads_any(runs),
        0 <= row < row_flags(runs).len(),
    ensures
        !row_flags(runs)[row],
    decreases runs.len(),
{
    if runs.len() > 0 {
        let tail = runs.drop_first();
        assert(runs[0].1);
        assert forall|i: int| 0 <= i < tail.len() implies (#[trigger] tail[i]).1 by {
            assert(runs[i + 1].1);
        }
        if row >= runs[0].0 {
            law_unread_runs_read_no_row(tail, row - runs[0].0);
        }
    }
}

/// Splitting cuts at the right row, and cuts at most one run: the head has just the rows that were
/// asked for, as far as there are so many. Put behind each other again, the head and the rest
/// are the runs, with the run that was cut in two counted as one. A run without rows that stands
/// at the cut belongs to the head.
pub proof fn law_split_cuts_one_run(runs: Seq<(usize, bool)>, rows: nat)
    ensures
        covered_rows(split_runs(runs, rows).0) == smaller(rows, covered_rows(runs)),
        split_runs(runs, rows).1.len() > 0 ==> split_runs(runs, rows).1[0].0 > 0,
        is_split(runs, split_runs(runs, rows).0, split_runs(runs, rows).1),
    decreases runs.len(),
{
    let (head, rest) = split_runs(runs, rows);
    if runs.len() == 0 {
        assert(head + rest =~= runs);
    } else if runs[0].0 <= rows {
        let tail = runs.drop_first();
        let (tail_head, tail_rest) = split_runs(tail, (rows - runs[0].0) as nat);
        law_split_cuts_one_run(tail, (rows - runs[0].0) as nat);
        assert(head.drop_first() =~= tail_head);
        assert(runs =~= seq![runs[0]] + tail);
        if tail == tail_head + tail_rest {
            assert(head + rest =~= seq![runs[0]] + (tail_head + tail_rest));
        } else {
            let cut = (tail_head.last().0 + tail_rest[0].0) as usize;
            assert(head.drop_last() =~= seq![runs[0]] + tail_head.drop_last());
            assert(runs =~= head.drop_last() + seq![(cut, rest[0].1)] + rest.drop_first());
        }
    } else if rows == 0 {
        assert(rest =~= runs);
        assert(head + rest =~= runs);
        assert(covered_rows(head) == 0);
    } else {
        assert(head.drop_first() =~= Seq::empty());
        assert(covered_rows(head.drop_first()) == 0);
        assert(rest.drop_first() =~= runs.drop_first());
        assert(runs =~= head.drop_last() + seq![(runs[0].0, rest[0].1)] + rest.drop_first());
    }
}

/// Whether two lists of runs are what a list was split into: the list, cut between two runs or
/// within one.
pub open spec fn is_split(
    runs: Seq<(usize, bool)>,
    head: Seq<(usize, bool)>,
    rest: Seq<(usize, bool)>,
) -> bool {
    ||| runs == head + rest
    ||| {
        &&& head.len() > 0
        &&& rest.len() > 0
        &&& head.last().1 == rest[0].1
        &&& head.last().0 + rest[0].0 <= usize::MAX
        &&& runs == head.drop_last() + seq![
            ((head.last().0 + rest[0].0) as usize, rest[0].1),
        ] + rest.drop_first()
    }
}

/// A list of runs with a read run that has rows flags a row as read.
pub proof fn law_read_run_reads_a_row(runs: Seq<(usize, bool)>, run: int) -> (row: int)
    requires
        0 <= run < runs.len(),
        !runs[run].1,
        runs[run].0 > 0,
    ensures
        0 <= row < row_flags(runs).len(),
        row_flags(runs)[row],
    decreases runs.len(),
{
    if run == 0 {
        0
    } else {
        let behind = law_read_run_reads_a_row(runs.drop_first(), run - 1);
        behind + runs[0].0
    }
}

/// Rows can be split off where the rows of all the runs can be counted, and where the rows of the
/// runs up to some run can be counted that ends behind them. They cannot where some run starts
/// among them, or right behind them, and ends where rows can no longer be counted.
pub proof fn law_rows_that_can_be_split_off(
    selection: RowSelection,
    row_count: usize,
    can: bool,
    count: int,
)
    requires
        call_ensures(can_split_off, (&selection, row_count), can),
        0 <= count <= runs(selection).len(),
    ensures
        covered_rows(runs(selection)) <= usize::MAX ==> can,
        row_count < covered_rows(runs(selection).take(count)) <= usize::MAX ==> can,
        0 < count && covered_rows(runs(selection).take(count - 1)) <= row_count && covered_rows(
            runs(selection).take(count),
        ) > usize::MAX ==> !can,
{
    lemma_reached(runs(selection), row_count as nat, count);
    lemma_reached(runs(selection), row_count as nat, runs(selection).len() as int);
    assert(runs(selection).take(runs(selection).len() as int) =~= runs(selection));
    if count > 0 {
        lemma_reached(runs(selection), row_count as nat, count - 1);
    }
}

/// The rows that are reached are no more than those of the runs up to one that ends behind the
/// rows, and no fewer than those of the runs up to one that starts among them.
pub(crate) proof fn lemma_reached(runs: Seq<(usize, bool)>, rows: nat, count: int)
    requires
        0 <= count <= runs.len(),
    ensures
        rows < covered_rows(runs.take(count)) ==> reached_rows(runs, rows) <= covered_rows(
            runs.take(count),
        ),
        count == runs.len() ==> reached_rows(runs, rows) <= covered_rows(runs),
        covered_rows(runs.take(count)) <= rows && count < runs.len() ==> reached_rows(runs, rows)
            >= covered_rows(runs.take(count + 1)),
    decreases runs.len(),
{
    assert(covered_rows(Seq::<(usize, bool)>::empty()) == 0);
    assert(runs.take(0) =~= Seq::empty());
    if runs.len() > 0 {
        let tail = runs.drop_first();
        assert(runs.take(1).drop_first() =~= Seq::empty());
        if count > 0 {
            assert(runs.take(count).drop_first() =~= tail.take(count - 1));
            if runs[0].0 <= rows {
                lemma_reached(tail, (rows - runs[0].0) as nat, count - 1);
            }
        }
        if count < runs.len() {
            assert(runs.take(count + 1).drop_first() =~= tail.take(count));
        }
    }
}

} // verus!
