//! Partitions of a Parquet table: one for each row group that a scan has to read.
use crate::error::ErrorCode;
use crate::row_selection::{
    can_split_off, covered_rows, into_runs, law_row_flags_len, law_split_keeps_rows,
    law_unread_runs_read_no_row, lemma_reached, reached_rows, reads_any, row_flags, runs, selects_any, smaller,
    split_off, split_runs,
};
use parquet::arrow::arrow_reader::RowSelection;
use vstd::prelude::*;

verus! {

/// A run of rows of a row group, as a partition carries it to the reader.
#[derive(Clone, Copy, Debug, PartialEq, Eq)]
pub struct SerdeRowSelector {
    /// The number of rows of the run.
    pub row_count: usize,
    /// Whether the run is skipped.
    pub skip: bool,
}

/// Where a page of a column lies in its file.
#[derive(Clone, Copy, Debug, PartialEq, Eq)]
pub struct PageLocation {
    /// Offset of the page in the file.
    pub offset: i64,
    /// Size of the page, with its header, as it lies in the file.
    pub compressed_page_size: i32,
    /// Index of the page's first row within the row group.
    pub first_row_index: i64,
}

/// A page location as a partition carries it to the reader.
#[derive(Clone, Copy, Debug, PartialEq, Eq)]
pub struct SerdePageLocation {
    /// Offset of the page in the file.
    pub offset: i64,
    /// Size of the page, with its header, as it lies in the file.
    pub compressed_page_size: i32,
    /// Index of the page's first row within the row group.
    pub first_row_index: i64,
}

/// What a scan reads of a row group's metadata. `meta` is a handle on the metadata itself,
/// which a partition hands on to the reader.
#[derive(Debug, PartialEq, Eq)]
pub struct RowGroup<G> {
    /// Number of rows of the row group, as the file says it.
    pub num_rows: i64,
    /// Size of all the column data, as the file says it.
    pub total_byte_size: i64,
    /// The row group's metadata.
    pub meta: G,
}

/// What a scan reads of a file's metadata.
#[derive(Debug, PartialEq, Eq)]
pub struct FileMeta<G> {
    /// The row groups of the file.
    pub row_groups: Vec<RowGroup<G>>,
    /// For each row group and each of its columns, where the column's pages lie.
    pub offset_index: Option<Vec<Vec<Vec<PageLocation>>>>,
}

/// What the pruner leaves of a file.
#[derive(Debug, PartialEq, Eq)]
pub struct Pruning {
    /// The row groups that may hold matching rows.
    pub row_groups: Vec<usize>,
    /// Of the rows of those row groups, put one behind the other, which may match.
    pub selection: Option<RowSelection>,
}

/// A file to scan, with what the pruner said of it.
#[derive(Debug, PartialEq, Eq)]
pub struct PrunedFile<G> {
    /// Where the file is.
    pub location: String,
    /// Its metadata.
    pub meta: FileMeta<G>,
    /// What the pruner leaves of it, or the pruner's error.
    pub pruned: Result<Pruning, ErrorCode>,
}

/// A partition: a row group to read.
#[derive(Debug, PartialEq, Eq)]
pub struct ParquetRSRowGroupPart<G> {
    /// Where the file is.
    pub location: String,
    /// The rows of the row group to read; all of them where there is no list.
    pub selectors: Option<Vec<SerdeRowSelector>>,
    /// The row group's metadata.
    pub meta: G,
    /// For each column of the row group, where its pages lie.
    pub page_locations: Option<Vec<Vec<SerdePageLocation>>>,
}

/// How partitions are spread over the nodes of a cluster.
#[derive(Clone, Copy, Debug, PartialEq, Eq, Structural)]
pub enum PartitionsShuffleKind {
    /// By the hash of the partition, modulo the number of nodes.
    Mod,
}

/// The partitions of a scan.
#[derive(Debug, PartialEq, Eq)]
pub struct Partitions<G> {
    /// How the partitions are spread.
    pub kind: PartitionsShuffleKind,
    /// The partitions.
    pub partitions: Vec<ParquetRSRowGroupPart<G>>,
    /// Whether the partitions are still to be made by the nodes that read them.
    pub is_lazy: bool,
}

/// How much a scan reads.
#[derive(Clone, Copy, Debug, PartialEq, Eq, Structural)]
pub struct PartStatistics {
    /// Rows of the partitions to read.
    pub read_rows: usize,
    /// Bytes of the partitions to read.
    pub read_bytes: usize,
    /// Partitions to read.
    pub partitions_scanned: usize,
    /// Partitions there are.
    pub partitions_total: usize,
    /// Whether the counts are exact, not estimated.
    pub is_exact: bool,
}

/// A partition, by what it holds.
#[verifier::ext_equal]
pub struct PartView<G> {
    pub location: Seq<char>,
    pub selectors: Option<Seq<(usize, bool)>>,
    pub meta: G,
    pub page_locations: Option<Seq<Seq<SerdePageLocation>>>,
}

impl<G> View for ParquetRSRowGroupPart<G> {
    type V = PartView<G>;

    open spec fn view(&self) -> PartView<G> {
        PartView {
            location: self.location@,
            selectors: match self.selectors {
                Some(list) => Some(list@.map_values(|s: SerdeRowSelector| (s.row_count, s.skip))),
                None => None,
            },
            meta: self.meta,
            page_locations: match self.page_locations {
                Some(columns) => Some(
                    columns@.map_values(|column: Vec<SerdePageLocation>| column@),
                ),
                None => None,
            },
        }
    }
}

/// What a list of partitions holds.
pub open spec fn part_views<G>(parts: Seq<ParquetRSRowGroupPart<G>>) -> Seq<PartView<G>> {
    parts.map_values(|part: ParquetRSRowGroupPart<G>| part@)
}

/// The page locations of a row group as a partition carries them.
pub open spec fn serde_pages(columns: Seq<Vec<PageLocation>>) -> Seq<Seq<SerdePageLocation>> {
    columns.map_values(
        |column: Vec<PageLocation>|
            column@.map_values(
                |page: PageLocation|
                    SerdePageLocation {
                        offset: page.offset,
                        compressed_page_size: page.compressed_page_size,
                        first_row_index: page.first_row_index,
                    },
            ),
    )
}

/// A row group that a scan reads, with the runs of its rows where they were selected.
pub struct Kept {
    pub group: usize,
    pub runs: Option<Seq<(usize, bool)>>,
}

/// The number of rows of a row group.
pub open spec fn group_rows<G>(group: RowGroup<G>) -> nat {
    (group.num_rows as usize) as nat
}

/// The number of bytes of a row group.
pub open spec fn group_bytes<G>(group: RowGroup<G>) -> nat {
    (group.total_byte_size as usize) as nat
}

/// The row groups of the list `picked` that a scan reads. The selection runs over the rows of
/// the picked row groups, one row group behind the other; a row group of which it reads no run
/// is left out. With no selection every picked row group is read whole.
pub open spec fn kept<G>(
    groups: Seq<RowGroup<G>>,
    picked: Seq<usize>,
    selection: Option<Seq<(usize, bool)>>,
) -> Seq<Kept>
    decreases picked.len(),
{
    if picked.len() == 0 {
        Seq::empty()
    } else {
        match selection {
            None => seq![Kept { group: picked[0], runs: None }] + kept(
                groups,
                picked.drop_first(),
                None,
            ),
            Some(runs) => {
                let (own, rest) = split_runs(runs, group_rows(groups[picked[0] as int]));
                let behind = kept(groups, picked.drop_first(), Some(rest));
                if reads_any(own) {
                    seq![Kept { group: picked[0], runs: Some(own) }] + behind
                } else {
                    behind
                }
            },
        }
    }
}

/// The rows of the row groups of a list.
pub open spec fn kept_rows<G>(groups: Seq<RowGroup<G>>, list: Seq<Kept>) -> nat
    decreases list.len(),
{
    if list.len() == 0 {
        0
    } else {
        group_rows(groups[list[0].group as int]) + kept_rows(groups, list.drop_first())
    }
}

/// The bytes of the row groups of a list.
pub open spec fn kept_bytes<G>(groups: Seq<RowGroup<G>>, list: Seq<Kept>) -> nat
    decreases list.len(),
{
    if list.len() == 0 {
        0
    } else {
        group_bytes(groups[list[0].group as int]) + kept_bytes(groups, list.drop_first())
    }
}

/// The partition of a row group that a scan reads.
pub open spec fn part_of<G>(location: Seq<char>, meta: FileMeta<G>, entry: Kept) -> PartView<G> {
    PartView {
        location,
        selectors: entry.runs,
        meta: meta.row_groups@[entry.group as int].meta,
        page_locations: match meta.offset_index {
            Some(index) => Some(serde_pages(index@[entry.group as int]@)),
            None => None,
        },
    }
}

/// The runs of an optional selection.
pub open spec fn selected_runs(selection: Option<RowSelection>) -> Option<Seq<(usize, bool)>> {
    match selection {
        Some(s) => Some(runs(s)),
        None => None,
    }
}

/// The row groups that a scan reads of a file.
pub open spec fn file_kept<G>(meta: FileMeta<G>, pruning: Pruning) -> Seq<Kept> {
    kept(meta.row_groups@, pruning.row_groups@, selected_runs(pruning.selection))
}

/// The partitions of a file.
pub open spec fn file_parts<G>(
    location: Seq<char>,
    meta: FileMeta<G>,
    pruning: Pruning,
) -> Seq<PartView<G>> {
    file_kept(meta, pruning).map_values(|entry: Kept| part_of(location, meta, entry))
}

/// The counts of `PartStatistics`, without the limits of a `usize`.
pub struct Totals {
    pub read_rows: nat,
    pub read_bytes: nat,
    pub partitions_scanned: nat,
    pub partitions_total: nat,
}

impl Totals {
    /// No counts at all.
    pub open spec fn zero() -> Totals {
        Totals { read_rows: 0, read_bytes: 0, partitions_scanned: 0, partitions_total: 0 }
    }

    /// The sum of two counts.
    pub open spec fn plus(self, other: Totals) -> Totals {
        Totals {
            read_rows: self.read_rows + other.read_rows,
            read_bytes: self.read_bytes + other.read_bytes,
            partitions_scanned: self.partitions_scanned + other.partitions_scanned,
            partitions_total: self.partitions_total + other.partitions_total,
        }
    }

    /// Whether each count is a `usize`.
    pub open spec fn fits(self) -> bool {
        &&& self.read_rows <= usize::MAX
        &&& self.read_bytes <= usize::MAX
        &&& self.partitions_scanned <= usize::MAX
        &&& self.partitions_total <= usize::MAX
    }
}

impl PartStatistics {
    /// The counts.
    pub open spec fn totals(self) -> Totals {
        Totals {
            read_rows: self.read_rows as nat,
            read_bytes: self.read_bytes as nat,
            partitions_scanned: self.partitions_scanned as nat,
            partitions_total: self.partitions_total as nat,
        }
    }

    /// Exact statistics of a scan that reads nothing.
    pub fn default_exact() -> (stats: PartStatistics)
        ensures
            stats.is_exact,
            stats.totals() == Totals::zero(),
    {
        PartStatistics {
            read_rows: 0,
            read_bytes: 0,
            partitions_scanned: 0,
            partitions_total: 0,
            is_exact: true,
        }
    }

    /// Adds the statistics of another part of the same scan.
    pub fn merge(&mut self, other: &PartStatistics)
        requires
            old(self).totals().plus(other.totals()).fits(),
        ensures
            final(self).totals() == old(self).totals().plus(other.totals()),
            final(self).is_exact == (old(self).is_exact && other.is_exact),
    {
        self.read_rows = self.read_rows + other.read_rows;
        self.read_bytes = self.read_bytes + other.read_bytes;
        self.partitions_scanned = self.partitions_scanned + other.partitions_scanned;
        self.partitions_total = self.partitions_total + other.partitions_total;
        self.is_exact = self.is_exact && other.is_exact;
    }
}

impl<G> Partitions<G> {
    /// Partitions that are made already.
    pub fn create_nolazy(
        kind: PartitionsShuffleKind,
        partitions: Vec<ParquetRSRowGroupPart<G>>,
    ) -> (made: Partitions<G>)
        ensures
            made.kind == kind,
            made.partitions == partitions,
            !made.is_lazy,
    {
        Partitions { kind, partitions, is_lazy: false }
    }
}

/// The counts of a file.
pub open spec fn file_totals<G>(meta: FileMeta<G>, pruning: Pruning) -> Totals {
    Totals {
        read_rows: kept_rows(meta.row_groups@, file_kept(meta, pruning)),
        read_bytes: kept_bytes(meta.row_groups@, file_kept(meta, pruning)),
        partitions_scanned: file_kept(meta, pruning).len(),
        partitions_total: meta.row_groups@.len(),
    }
}

/// The outcome of pruning a list of files: the error of the first file that the pruner failed
/// on, or the counts and the partitions of all the files, in the order of the files.
pub open spec fn pruned_scan<G>(files: Seq<PrunedFile<G>>) -> Result<
    (Totals, Seq<PartView<G>>),
    ErrorCode,
>
    decreases files.len(),
{
    if files.len() == 0 {
        Ok((Totals::zero(), Seq::empty()))
    } else {
        match pruned_scan(files.drop_last()) {
            Err(error) => Err(error),
            Ok((totals, parts)) => {
                let file = files.last();
                match file.pruned {
                    Err(error) => Err(error),
                    Ok(pruning) => Ok(
                        (
                            totals.plus(file_totals(file.meta, pruning)),
                            parts + file_parts(file.location@, file.meta, pruning),
                        ),
                    ),
                }
            },
        }
    }
}

/// Whether what the pruner leaves of a file speaks of the file's own row groups.
pub open spec fn picks_own_groups<G>(meta: FileMeta<G>, pruning: Pruning) -> bool {
    forall|i: int|
        0 <= i < pruning.row_groups@.len() ==> (#[trigger] pruning.row_groups@[i])
            < meta.row_groups@.len()
}

/// Whether the rows of each picked row group can be split off a selection, one row group behind
/// the other: each time the runs that are gone through have rows that can be counted.
pub open spec fn can_split<G>(
    groups: Seq<RowGroup<G>>,
    picked: Seq<usize>,
    selection: Option<Seq<(usize, bool)>>,
) -> bool
    decreases picked.len(),
{
    selection is Some && picked.len() > 0 ==> {
        let rows = group_rows(groups[picked[0] as int]);
        &&& reached_rows(selection->0, rows) <= usize::MAX
        &&& can_split(groups, picked.drop_first(), Some(split_runs(selection->0, rows).1))
    }
}

/// Whether the selection of a file can be split into the rows of its picked row groups.
pub open spec fn file_can_split<G>(meta: FileMeta<G>, pruning: Pruning) -> bool {
    can_split(meta.row_groups@, pruning.row_groups@, selected_runs(pruning.selection))
}

/// Whether an offset index, where there is one, knows the pages of each row group of the list.
pub open spec fn knows_pages<G>(meta: FileMeta<G>, list: Seq<Kept>) -> bool {
    meta.offset_index matches Some(index) ==> forall|i: int|
        0 <= i < list.len() ==> (#[trigger] list[i]).group < index@.len()
}

/// Whether a scan of the files can be counted: up to the first file that the pruner failed on,
/// the pruner speaks of each file's own row groups, its selection can be split into their rows,
/// the pages of the row groups to read are known, and the counts are `usize`s.
pub open spec fn scannable<G>(files: Seq<PrunedFile<G>>) -> bool
    decreases files.len(),
{
    files.len() > 0 ==> {
        &&& scannable(files.drop_last())
        &&& pruned_scan(files.drop_last()) is Ok && files.last().pruned is Ok ==> {
            &&& picks_own_groups(files.last().meta, files.last().pruned->Ok_0)
            &&& file_can_split(files.last().meta, files.last().pruned->Ok_0)
            &&& knows_pages(
                files.last().meta,
                file_kept(files.last().meta, files.last().pruned->Ok_0),
            )
            &&& pruned_scan(files)->Ok_0.0.fits()
        }
    }
}

/// The selectors of a list of runs.
fn to_serde_selectors(list: &Vec<(usize, bool)>) -> (selectors: Vec<SerdeRowSelector>)
    ensures
        selectors@.map_values(|s: SerdeRowSelector| (s.row_count, s.skip)) == list@,
{
    let mut selectors: Vec<SerdeRowSelector> = Vec::with_capacity(list.len());
    for i in 0..list.len()
        invariant
            selectors@.map_values(|s: SerdeRowSelector| (s.row_count, s.skip)) == list@.take(
                i as int,
            ),
    {
        let ghost before = selectors@;
        selectors.push(SerdeRowSelector { row_count: list[i].0, skip: list[i].1 });
        assert(selectors@.map_values(|s: SerdeRowSelector| (s.row_count, s.skip))
            =~= before.map_values(|s: SerdeRowSelector| (s.row_count, s.skip)).push(
            list@[i as int],
        ));
        assert(list@.take(i + 1) =~= list@.take(i as int).push(list@[i as int]));
    }
    assert(list@.take(list.len() as int) =~= list@);
    selectors
}

/// The page locations of the columns of a row group, for a partition.
fn to_serde_pages(columns: &Vec<Vec<PageLocation>>) -> (pages: Vec<Vec<SerdePageLocation>>)
    ensures
        pages@.map_values(|column: Vec<SerdePageLocation>| column@) == serde_pages(columns@),
{
    let mut pages: Vec<Vec<SerdePageLocation>> = Vec::with_capacity(columns.len());
    for i in 0..columns.len()
        invariant
            pages@.len() == i,
            forall|k: int| 0 <= k < i ==> (#[trigger] pages@[k])@ == serde_pages(columns@)[k],
    {
        let column = &columns[i];
        let mut list: Vec<SerdePageLocation> = Vec::with_capacity(column.len());
        for j in 0..column.len()
            invariant
                0 <= i < columns@.len(),
                column@ == columns@[i as int]@,
                list@ =~= serde_pages(columns@)[i as int].take(j as int),
        {
            list.push(
                SerdePageLocation {
                    offset: column[j].offset,
                    compressed_page_size: column[j].compressed_page_size,
                    first_row_index: column[j].first_row_index,
                },
            );
        }
        assert(list@ =~= serde_pages(columns@)[i as int]);
        pages.push(list);
    }
    assert(pages@.map_values(|column: Vec<SerdePageLocation>| column@) =~= serde_pages(columns@));
    pages
}

/// The list of the row groups that a scan reads, one row group at a time.
proof fn lemma_kept_step<G>(
    groups: Seq<RowGroup<G>>,
    picked: Seq<usize>,
    selection: Option<Seq<(usize, bool)>>,
)
    requires
        picked.len() > 0,
    ensures
        ({
            let rows = group_rows(groups[picked[0] as int]);
            let all = kept(groups, picked, selection);
            let rest = match selection {
                Some(runs) => Some(split_runs(runs, rows).1),
                None => None,
            };
            let behind = kept(groups, picked.drop_first(), rest);
            if selection is Some && !reads_any(split_runs(selection->0, rows).0) {
                all == behind
            } else {
                let entry = Kept {
                    group: picked[0],
                    runs: match selection {
                        Some(runs) => Some(split_runs(runs, rows).0),
                        None => None,
                    },
                };
                &&& all == seq![entry] + behind
                &&& kept_rows(groups, all) == rows + kept_rows(groups, behind)
                &&& kept_bytes(groups, all) == group_bytes(groups[picked[0] as int]) + kept_bytes(
                    groups,
                    behind,
                )
            }
        }),
{
    let rows = group_rows(groups[picked[0] as int]);
    let all = kept(groups, picked, selection);
    let rest = match selection {
        Some(runs) => Some(split_runs(runs, rows).1),
        None => None,
    };
    let behind = kept(groups, picked.drop_first(), rest);
    if selection is None || reads_any(split_runs(selection->0, rows).0) {
        assert(all.drop_first() =~= behind);
    }
}

/// The pages of the row groups of a list are known, one row group at a time.
proof fn lemma_knows_pages<G>(meta: FileMeta<G>, entry: Kept, behind: Seq<Kept>)
    ensures
        knows_pages(meta, seq![entry] + behind) == (knows_pages(meta, behind) && (
        meta.offset_index matches Some(index) ==> entry.group < index@.len())),
{
    let all = seq![entry] + behind;
    if meta.offset_index is Some && knows_pages(meta, all) {
        assert(all[0].group < meta.offset_index->0@.len());
        assert forall|i: int| 0 <= i < behind.len() implies (#[trigger] behind[i]).group
            < meta.offset_index->0@.len() by {
            assert(all[i + 1].group < meta.offset_index->0@.len());
        }
    }
}

/// Tells whether what the pruner leaves of a file speaks of the file's own row groups.
fn has_own_groups<G>(meta: &FileMeta<G>, pruning: &Pruning) -> (own: bool)
    ensures
        own == picks_own_groups(*meta, *pruning),
{
    for i in 0..pruning.row_groups.len()
        invariant
            forall|k: int|
                0 <= k < i ==> (#[trigger] pruning.row_groups@[k]) < meta.row_groups@.len(),
    {
        let rg: usize = pruning.row_groups[i];
        if rg >= meta.row_groups.len() {
            return false;
        }
    }
    true
}

/// Adds the partitions of a file, and counts them. Stops where the rows of a row group cannot be
/// split off the selection, its pages are not known, or a count is no `usize`.
fn add_file<G: Copy>(
    location: &String,
    meta: &FileMeta<G>,
    pruning: Pruning,
    part_stats: &mut PartStatistics,
    parts: &mut Vec<ParquetRSRowGroupPart<G>>,
) -> (added: bool)
    requires
        picks_own_groups(*meta, pruning),
    ensures
        added == {
            &&& file_can_split(*meta, pruning)
            &&& knows_pages(*meta, file_kept(*meta, pruning))
            &&& old(part_stats).totals().plus(file_totals(*meta, pruning)).fits()
        },
        added ==> {
            &&& final(part_stats).totals() == old(part_stats).totals().plus(
                file_totals(*meta, pruning),
            )
            &&& final(part_stats).is_exact == old(part_stats).is_exact
            &&& part_views(final(parts)@) == part_views(old(parts)@) + file_parts(
                location@,
                *meta,
                pruning,
            )
        },
{
    let ghost whole = file_kept(*meta, pruning);
    let ghost groups = meta.row_groups@;
    let ghost of_entry = |entry: Kept| part_of(location@, *meta, entry);
    let ghost stats0 = *part_stats;
    let ghost parts0 = parts@;
    match part_stats.partitions_total.checked_add(meta.row_groups.len()) {
        Some(total) => {
            part_stats.partitions_total = total;
        },
        None => {
            return false;
        },
    }
    let picked = pruning.row_groups;
    let mut row_selections = pruning.selection;
    let ghost picked_all = picked@;
    proof {
        assert(picked_all.skip(0) =~= picked_all);
    }
    for i in 0..picked.len()
        invariant
            picked@ == picked_all,
            groups == meta.row_groups@,
            of_entry == (|entry: Kept| part_of(location@, *meta, entry)),
            forall|k: int|
                0 <= k < picked_all.len() ==> (#[trigger] picked_all[k]) < groups.len(),
            knows_pages(*meta, whole) == knows_pages(
                *meta,
                kept(groups, picked_all.skip(i as int), selected_runs(row_selections)),
            ),
            file_can_split(*meta, pruning) == can_split(
                groups,
                picked_all.skip(i as int),
                selected_runs(row_selections),
            ),
            whole == file_kept(*meta, pruning),
            stats0 == *old(part_stats),
            part_stats.is_exact == stats0.is_exact,
            part_stats.partitions_total == stats0.partitions_total + groups.len(),
            part_stats.read_rows + kept_rows(
                groups,
                kept(groups, picked_all.skip(i as int), selected_runs(row_selections)),
            ) == stats0.read_rows + kept_rows(groups, whole),
            part_stats.read_bytes + kept_bytes(
                groups,
                kept(groups, picked_all.skip(i as int), selected_runs(row_selections)),
            ) == stats0.read_bytes + kept_bytes(groups, whole),
            part_stats.partitions_scanned + kept(
                groups,
                picked_all.skip(i as int),
                selected_runs(row_selections),
            ).len() == stats0.partitions_scanned + whole.len(),
            part_views(parts@) + kept(
                groups,
                picked_all.skip(i as int),
                selected_runs(row_selections),
            ).map_values(of_entry) == part_views(parts0) + whole.map_values(of_entry),
    {
        let rg: usize = picked[i];
        let rg_meta = &meta.row_groups[rg];
        let num_rows: usize = rg_meta.num_rows as usize;
        let num_bytes: usize = rg_meta.total_byte_size as usize;
        let ghost before = selected_runs(row_selections);
        let ghost left = picked_all.skip(i as int);
        let ghost parts1 = parts@;
        proof {
            lemma_kept_step(groups, left, before);
            assert(left.drop_first() =~= picked_all.skip(i + 1));
        }
        if let Some(s) = &row_selections {
            if !can_split_off(s, num_rows) {
                return false;
            }
        }
        // The runs of the rows that belong to this row group.
        let selection = match &mut row_selections {
            Some(s) => Some(split_off(s, num_rows)),
            None => None,
        };
        let keep = match &selection {
            Some(s) => selects_any(s),
            None => true,
        };
        if keep {
            let ghost behind = kept(groups, left.drop_first(), selected_runs(row_selections));
            let ghost entry = Kept { group: rg, runs: selected_runs(selection) };
            proof {
                lemma_knows_pages(*meta, entry, behind);
            }
            let selectors = match selection {
                Some(s) => Some(to_serde_selectors(&into_runs(s))),
                None => None,
            };
            match (
                part_stats.read_rows.checked_add(num_rows),
                part_stats.read_bytes.checked_add(num_bytes),
                part_stats.partitions_scanned.checked_add(1),
            ) {
                (Some(rows), Some(bytes), Some(scanned)) => {
                    part_stats.read_rows = rows;
                    part_stats.read_bytes = bytes;
                    part_stats.partitions_scanned = scanned;
                },
                _ => {
                    return false;
                },
            }
            let page_locations = match &meta.offset_index {
                Some(index) => {
                    if rg >= index.len() {
                        return false;
                    }
                    Some(to_serde_pages(&index[rg]))
                },
                None => None,
            };
            parts.push(
                ParquetRSRowGroupPart {
                    location: location.clone(),
                    selectors,
                    meta: rg_meta.meta,
                    page_locations,
                },
            );
            proof {
                assert(parts@.last()@ == of_entry(entry));
                assert(part_views(parts@) =~= part_views(parts1).push(of_entry(entry)));
                assert((seq![entry] + behind).map_values(of_entry) =~= seq![of_entry(entry)]
                    + behind.map_values(of_entry));
                assert(part_views(parts@) + behind.map_values(of_entry) =~= part_views(parts1) + (
                seq![of_entry(entry)] + behind.map_values(of_entry)));
            }
        }
    }
    proof {
        let none = kept(
            groups,
            picked_all.skip(picked_all.len() as int),
            selected_runs(row_selections),
        );
        assert(part_views(parts@) + none.map_values(of_entry) =~= part_views(parts@));
    }
    true
}

/// Whether the outcome of a scan is the one that its files call for.
pub open spec fn scan_matches<G>(
    scan: Result<(PartStatistics, Partitions<G>), ErrorCode>,
    expected: Result<(Totals, Seq<PartView<G>>), ErrorCode>,
) -> bool {
    match (scan, expected) {
        (Ok((stats, partitions)), Ok((totals, parts))) => {
            &&& stats.is_exact
            &&& stats.totals() == totals
            &&& partitions.kind == PartitionsShuffleKind::Mod
            &&& !partitions.is_lazy
            &&& part_views(partitions.partitions@) == parts
        },
        (Err(error), Err(expected_error)) => error == expected_error,
        _ => false,
    }
}

/// Makes the partitions of the files that the pruner has seen, and counts what they read: one
/// partition for each row group that the pruner left, but none for a row group of which its
/// selection reads no run. Fails with the pruner's error on the first file it failed on.
pub fn prune_and_generate_partitions<G: Copy>(files: Vec<PrunedFile<G>>) -> (scan: Result<
    (PartStatistics, Partitions<G>),
    ErrorCode,
>)
    requires
        scannable(files@),
    ensures
        scan_matches(scan, pruned_scan(files@)),
{
    checked_prune_and_generate_partitions(files).unwrap()
}

/// As [`prune_and_generate_partitions`], on any files: gives nothing where the scan cannot be
/// counted.
pub fn checked_prune_and_generate_partitions<G: Copy>(files: Vec<PrunedFile<G>>) -> (scan: Option<
    Result<(PartStatistics, Partitions<G>), ErrorCode>,
>)
    ensures
        scan is Some == scannable(files@),
        scan matches Some(outcome) ==> scan_matches(outcome, pruned_scan(files@)),
{
    let mut parts: Vec<ParquetRSRowGroupPart<G>> = Vec::new();
    let mut part_stats = PartStatistics::default_exact();
    let ghost all = files@;
    assert(part_views(parts@) =~= Seq::empty());
    for file in it: files
        invariant
            it.seq() == all,
            all == files@,
            scannable(all.take(it.index() as int)),
            pruned_scan(all.take(it.index() as int)) == Ok::<_, ErrorCode>(
                (part_stats.totals(), part_views(parts@)),
            ),
            part_stats.is_exact,
    {
        let ghost k = it.index() as int;
        proof {
            assert(all.take(k + 1).drop_last() =~= all.take(k));
            assert(all.take(k + 1).last() == file);
            if scannable(all) {
                lemma_scannable_prefix(all, k + 1);
            }
        }
        match file.pruned {
            Err(error) => {
                proof {
                    lemma_first_error(all, k + 1);
                }
                return Some(Err(error));
            },
            Ok(pruning) => {
                if !has_own_groups(&file.meta, &pruning) {
                    return None;
                }
                if !add_file(&file.location, &file.meta, pruning, &mut part_stats, &mut parts) {
                    return None;
                }
            },
        }
    }
    assert(all.take(all.len() as int) =~= all);
    Some(Ok((part_stats, Partitions::create_nolazy(PartitionsShuffleKind::Mod, parts))))
}

/// The first files of a scan that can be counted can be counted.
pub(crate) proof fn lemma_scannable_prefix<G>(files: Seq<PrunedFile<G>>, k: int)
    requires
        scannable(files),
        0 <= k <= files.len(),
    ensures
        scannable(files.take(k)),
    decreases files.len(),
{
    if k < files.len() {
        lemma_scannable_prefix(files.drop_last(), k);
        assert(files.drop_last().take(k) =~= files.take(k));
    } else {
        assert(files.take(k) =~= files);
    }
}

/// An error among the first files of a scan is the outcome of the scan.
pub(crate) proof fn lemma_first_error<G>(files: Seq<PrunedFile<G>>, k: int)
    requires
        0 <= k <= files.len(),
        pruned_scan(files.take(k)) is Err,
    ensures
        pruned_scan(files) == pruned_scan(files.take(k)),
        scannable(files) == scannable(files.take(k)),
    decreases files.len(),
{
    if k < files.len() {
        assert(files.drop_last().take(k) =~= files.take(k));
        lemma_first_error(files.drop_last(), k);
    } else {
        assert(files.take(k) =~= files);
    }
}

/// The number of rows of the first `count` picked row groups.
pub open spec fn rows_before<G>(
    groups: Seq<RowGroup<G>>,
    picked: Seq<usize>,
    count: int,
) -> nat
    decreases count,
{
    if count <= 0 {
        0
    } else {
        rows_before(groups, picked, count - 1) + group_rows(groups[picked[count - 1] as int])
    }
}

/// The runs of a selection that are left behind the first `count` picked row groups.
pub open spec fn runs_behind<G>(
    groups: Seq<RowGroup<G>>,
    picked: Seq<usize>,
    selection: Seq<(usize, bool)>,
    count: int,
) -> Seq<(usize, bool)>
    decreases count,
{
    if count <= 0 {
        selection
    } else {
        split_runs(
            runs_behind(groups, picked, selection, count - 1),
            group_rows(groups[picked[count - 1] as int]),
        ).1
    }
}

/// What a scan reads of the picked row group at `index`.
pub open spec fn entry_at<G>(
    groups: Seq<RowGroup<G>>,
    picked: Seq<usize>,
    selection: Seq<(usize, bool)>,
    index: int,
) -> Kept {
    Kept {
        group: picked[index],
        runs: Some(
            split_runs(
                runs_behind(groups, picked, selection, index),
                group_rows(groups[picked[index] as int]),
            ).0,
        ),
    }
}

/// The rows that are left behind the first picked row groups are the rows behind theirs.
pub proof fn law_rows_behind<G>(
    groups: Seq<RowGroup<G>>,
    picked: Seq<usize>,
    selection: Seq<(usize, bool)>,
    count: int,
)
    requires
        0 <= count <= picked.len(),
    ensures
        row_flags(runs_behind(groups, picked, selection, count)) == row_flags(selection).skip(
            smaller(rows_before(groups, picked, count), covered_rows(selection)) as int,
        ),
    decreases count,
{
    law_row_flags_len(selection);
    if count > 0 {
        law_rows_behind(groups, picked, selection, count - 1);
        let before = runs_behind(groups, picked, selection, count - 1);
        law_row_flags_len(before);
        law_split_keeps_rows(before, group_rows(groups[picked[count - 1] as int]));
        assert(row_flags(runs_behind(groups, picked, selection, count)) =~= row_flags(
            selection,
        ).skip(smaller(rows_before(groups, picked, count), covered_rows(selection)) as int));
    } else {
        assert(row_flags(selection).skip(0) =~= row_flags(selection));
    }
}

/// The rows that a scan reads of a picked row group are those that the selection has at the row
/// group's own place among the picked rows.
pub proof fn law_entry_has_its_own_rows<G>(
    groups: Seq<RowGroup<G>>,
    picked: Seq<usize>,
    selection: Seq<(usize, bool)>,
    index: int,
)
    requires
        0 <= index < picked.len(),
    ensures
        row_flags(entry_at(groups, picked, selection, index).runs->0) == row_flags(
            selection,
        ).subrange(
            smaller(rows_before(groups, picked, index), covered_rows(selection)) as int,
            smaller(rows_before(groups, picked, index + 1), covered_rows(selection)) as int,
        ),
{
    let before = runs_behind(groups, picked, selection, index);
    law_row_flags_len(selection);
    law_rows_behind(groups, picked, selection, index);
    law_row_flags_len(before);
    law_split_keeps_rows(before, group_rows(groups[picked[index] as int]));
    assert(row_flags(entry_at(groups, picked, selection, index).runs->0) =~= row_flags(
        selection,
    ).subrange(
        smaller(rows_before(groups, picked, index), covered_rows(selection)) as int,
        smaller(rows_before(groups, picked, index + 1), covered_rows(selection)) as int,
    ));
}

/// The entries at the indices of a list.
pub open spec fn entries_at<G>(
    groups: Seq<RowGroup<G>>,
    picked: Seq<usize>,
    selection: Seq<(usize, bool)>,
    indices: Seq<int>,
) -> Seq<Kept> {
    indices.map_values(|index: int| entry_at(groups, picked, selection, index))
}

/// The indices below `count` of the picked row groups of which a run is read.
pub open spec fn read_indices<G>(
    groups: Seq<RowGroup<G>>,
    picked: Seq<usize>,
    selection: Seq<(usize, bool)>,
    count: int,
) -> Seq<int>
    decreases count,
{
    if count <= 0 {
        Seq::empty()
    } else {
        let before = read_indices(groups, picked, selection, count - 1);
        if reads_any(entry_at(groups, picked, selection, count - 1).runs->0) {
            before.push(count - 1)
        } else {
            before
        }
    }
}

/// A scan with a selection reads, in their order, the picked row groups of which a run is read,
/// and no others.
pub proof fn law_scan_reads_the_selected_groups<G>(
    groups: Seq<RowGroup<G>>,
    picked: Seq<usize>,
    selection: Seq<(usize, bool)>,
)
    ensures
        kept(groups, picked, Some(selection)) == entries_at(
            groups,
            picked,
            selection,
            read_indices(groups, picked, selection, picked.len() as int),
        ),
{
    lemma_kept_from(groups, picked, selection, picked.len() as int);
    let last = picked.len() as int;
    assert(kept(groups, picked.skip(last), Some(runs_behind(groups, picked, selection, last)))
        =~= Seq::empty());
    assert(kept(groups, picked, Some(selection)) =~= entries_at(
        groups,
        picked,
        selection,
        read_indices(groups, picked, selection, last),
    ));
}

proof fn lemma_kept_from<G>(
    groups: Seq<RowGroup<G>>,
    picked: Seq<usize>,
    selection: Seq<(usize, bool)>,
    count: int,
)
    requires
        0 <= count <= picked.len(),
    ensures
        kept(groups, picked, Some(selection)) == entries_at(
            groups,
            picked,
            selection,
            read_indices(groups, picked, selection, count),
        ) + kept(
            groups,
            picked.skip(count),
            Some(runs_behind(groups, picked, selection, count)),
        ),
    decreases count,
{
    if count == 0 {
        assert(picked.skip(0) =~= picked);
        assert(Seq::<Kept>::empty() + kept(groups, picked, Some(selection)) =~= kept(
            groups,
            picked,
            Some(selection),
        ));
    } else {
        let last = count - 1;
        lemma_kept_from(groups, picked, selection, last);
        assert(picked.skip(last).drop_first() =~= picked.skip(count));
        let before = read_indices(groups, picked, selection, last);
        let entry = entry_at(groups, picked, selection, last);
        assert(entries_at(groups, picked, selection, before.push(last)) =~= entries_at(
            groups,
            picked,
            selection,
            before,
        ).push(entry));
        assert(kept(groups, picked, Some(selection)) =~= entries_at(
            groups,
            picked,
            selection,
            read_indices(groups, picked, selection, count),
        ) + kept(
            groups,
            picked.skip(count),
            Some(runs_behind(groups, picked, selection, count)),
        ));
    }
}

/// No selected row is lost: a row group in which the selection reads a row is scanned.
pub proof fn law_selected_row_is_scanned<G>(
    groups: Seq<RowGroup<G>>,
    picked: Seq<usize>,
    selection: Seq<(usize, bool)>,
    index: int,
    row: int,
)
    requires
        0 <= index < picked.len(),
        rows_before(groups, picked, index) <= row < rows_before(groups, picked, index + 1),
        row < covered_rows(selection),
        row_flags(selection)[row],
    ensures
        kept(groups, picked, Some(selection)).contains(
            entry_at(groups, picked, selection, index),
        ),
{
    let entry = entry_at(groups, picked, selection, index);
    law_entry_has_its_own_rows(groups, picked, selection, index);
    law_row_flags_len(selection);
    let at = row - rows_before(groups, picked, index);
    assert(row_flags(entry.runs->0)[at]);
    if !reads_any(entry.runs->0) {
        law_unread_runs_read_no_row(entry.runs->0, at);
    }
    law_scan_reads_the_selected_groups(groups, picked, selection);
    let indices = read_indices(groups, picked, selection, picked.len() as int);
    lemma_read_index(groups, picked, selection, picked.len() as int, index);
    let k = choose|k: int| 0 <= k < indices.len() && indices[k] == index;
    assert(kept(groups, picked, Some(selection))[k] == entry);
}

proof fn lemma_read_index<G>(
    groups: Seq<RowGroup<G>>,
    picked: Seq<usize>,
    selection: Seq<(usize, bool)>,
    count: int,
    index: int,
)
    requires
        0 <= index < count,
        reads_any(entry_at(groups, picked, selection, index).runs->0),
    ensures
        read_indices(groups, picked, selection, count).contains(index),
    decreases count,
{
    let all = read_indices(groups, picked, selection, count);
    if index == count - 1 {
        assert(all.last() == index);
    } else {
        lemma_read_index(groups, picked, selection, count - 1, index);
        let before = read_indices(groups, picked, selection, count - 1);
        let k = choose|k: int| 0 <= k < before.len() && before[k] == index;
        assert(all[k] == index);
    }
}

/// A scan without a selection reads every picked row group whole, in order.
pub proof fn law_scan_without_selection<G>(groups: Seq<RowGroup<G>>, picked: Seq<usize>)
    ensures
        kept(groups, picked, None) == picked.map_values(
            |group: usize| Kept { group, runs: None },
        ),
    decreases picked.len(),
{
    let whole = |group: usize| Kept { group, runs: None::<Seq<(usize, bool)>> };
    if picked.len() > 0 {
        law_scan_without_selection(groups, picked.drop_first());
        assert(kept(groups, picked, None) =~= picked.map_values(whole));
    } else {
        assert(kept(groups, picked, None) =~= picked.map_values(whole));
    }
}

/// The statistics count the partitions: as many are scanned as there are in the list.
pub proof fn law_scanned_is_the_number_of_partitions<G>(files: Seq<PrunedFile<G>>)
    ensures
        pruned_scan(files) matches Ok((totals, parts)) ==> totals.partitions_scanned == parts.len(),
    decreases files.len(),
{
    if files.len() > 0 {
        law_scanned_is_the_number_of_partitions(files.drop_last());
    }
}

/// Two lists of files, one behind the other, are scanned as the first and then, where it did not
/// fail, the second.
pub proof fn law_scan_of_a_longer_list<G>(first: Seq<PrunedFile<G>>, second: Seq<PrunedFile<G>>)
    ensures
        pruned_scan(first + second) == match (pruned_scan(first), pruned_scan(second)) {
            (Err(error), _) => Err(error),
            (_, Err(error)) => Err(error),
            (Ok((totals, parts)), Ok((more_totals, more_parts))) => Ok(
                (totals.plus(more_totals), parts + more_parts),
            ),
        },
    decreases second.len(),
{
    if second.len() == 0 {
        assert(first + second =~= first);
        if pruned_scan(first) is Ok {
            let (totals, parts) = pruned_scan(first)->Ok_0;
            assert(parts + Seq::empty() =~= parts);
        }
    } else {
        law_scan_of_a_longer_list(first, second.drop_last());
        assert((first + second).drop_last() =~= first + second.drop_last());
        assert((first + second).last() == second.last());
        let file = second.last();
        if pruned_scan(first) is Ok && pruned_scan(second) is Ok {
            let (totals, parts) = pruned_scan(first)->Ok_0;
            let (some_totals, some_parts) = pruned_scan(second.drop_last())->Ok_0;
            let last_parts = file_parts(file.location@, file.meta, file.pruned->Ok_0);
            assert((parts + some_parts) + last_parts =~= parts + (some_parts + last_parts));
        }
    }
}

/// The counts of a row group are those that its file says. What the file says is signed; a
/// negative number stands for the unsigned one of the same bits.
pub proof fn law_row_group_counts<G>(group: RowGroup<G>)
    ensures
        0 <= group.num_rows <= usize::MAX ==> group_rows(group) == group.num_rows,
        0 <= group.total_byte_size <= usize::MAX ==> group_bytes(group) == group.total_byte_size,
        group.num_rows < 0 ==> group_rows(group) == group.num_rows as usize,
        group.total_byte_size < 0 ==> group_bytes(group) == group.total_byte_size as usize,
{
}

/// One flag for each row that the selectors of a partition cover: whether the row is read.
pub open spec fn selector_flags(selectors: Seq<SerdeRowSelector>) -> Seq<bool>
    decreases selectors.len(),
{
    if selectors.len() == 0 {
        Seq::empty()
    } else {
        Seq::new(selectors[0].row_count as nat, |i: int| !selectors[0].skip) + selector_flags(
            selectors.drop_first(),
        )
    }
}

/// The selectors of a partition flag the rows that their runs flag.
proof fn lemma_selector_flags(selectors: Seq<SerdeRowSelector>)
    ensures
        selector_flags(selectors) == row_flags(
            selectors.map_values(|s: SerdeRowSelector| (s.row_count, s.skip)),
        ),
    decreases selectors.len(),
{
    let pairs = selectors.map_values(|s: SerdeRowSelector| (s.row_count, s.skip));
    if selectors.len() > 0 {
        lemma_selector_flags(selectors.drop_first());
        assert(pairs.drop_first() =~= selectors.drop_first().map_values(
            |s: SerdeRowSelector| (s.row_count, s.skip),
        ));
        assert(selector_flags(selectors) =~= row_flags(pairs));
    }
}

/// Whether the pages of a partition are those of an offset index: of each column the same pages in
/// the same order, each with its offset, its size and its first row.
pub open spec fn same_pages(
    pages: Seq<Vec<SerdePageLocation>>,
    columns: Seq<Vec<PageLocation>>,
) -> bool {
    &&& pages.len() == columns.len()
    &&& forall|c: int|
        0 <= c < columns.len() ==> (#[trigger] pages[c])@.len() == columns[c]@.len()
    &&& forall|c: int, p: int|
        0 <= c < columns.len() && 0 <= p < columns[c]@.len() ==> {
            &&& (#[trigger] pages[c]@[p]).offset == columns[c]@[p].offset
            &&& pages[c]@[p].compressed_page_size == columns[c]@[p].compressed_page_size
            &&& pages[c]@[p].first_row_index == columns[c]@[p].first_row_index
        }
}

/// The flags that the selection of a file has at the place of the picked row group at `index`, the
/// rows of the picked row groups being put one behind the other.
pub open spec fn flags_at<G>(file: PrunedFile<G>, index: int) -> Seq<bool> {
    let picked = file.pruned->Ok_0.row_groups@;
    let flags = row_flags(runs(file.pruned->Ok_0.selection->0));
    flags.subrange(
        smaller(rows_before(file.meta.row_groups@, picked, index), flags.len()) as int,
        smaller(rows_before(file.meta.row_groups@, picked, index + 1), flags.len()) as int,
    )
}

/// Whether a partition tells its reader to read the picked row group of a file at `index`: from
/// the right place, with the row group's own metadata and pages, and, where rows were selected,
/// just the rows that were selected of it.
pub open spec fn reads_group<G>(
    part: ParquetRSRowGroupPart<G>,
    file: PrunedFile<G>,
    index: int,
) -> bool {
    let pruning = file.pruned->Ok_0;
    let group = pruning.row_groups@[index] as int;
    &&& part.location@ == file.location@
    &&& part.meta == file.meta.row_groups@[group].meta
    &&& part.selectors is Some == pruning.selection is Some
    &&& part.selectors matches Some(selectors) ==> {
        &&& selector_flags(selectors@) == flags_at(file, index)
        &&& exists|j: int| 0 <= j < selectors@.len() && !(#[trigger] selectors@[j]).skip
        &&& selectors@.map_values(|s: SerdeRowSelector| (s.row_count, s.skip)) == entry_at(
            file.meta.row_groups@,
            pruning.row_groups@,
            runs(pruning.selection->0),
            index,
        ).runs->0
    }
    &&& part.page_locations is Some == file.meta.offset_index is Some
    &&& part.page_locations matches Some(pages) ==> same_pages(
        pages@,
        file.meta.offset_index->0@[group]@,
    )
}

/// Whether something of the picked row group at `index` of a file has to be read: there is no
/// selection, or the selection has a row of it.
pub open spec fn has_rows_to_read<G>(file: PrunedFile<G>, index: int) -> bool {
    file.pruned->Ok_0.selection is Some ==> flags_at(file, index).contains(true)
}

/// Whether each partition of a list reads a row group of the files: the partition at `k` reads the
/// row group that its file and its place among the picked ones, `origins[k]`, name. The
/// partitions come in the order of the files and of the picked row groups, and no row group of
/// which something has to be read is left out.
pub open spec fn partitions_read<G>(
    files: Seq<PrunedFile<G>>,
    parts: Seq<ParquetRSRowGroupPart<G>>,
    origins: Seq<(int, int)>,
) -> bool {
    &&& parts.len() == origins.len()
    &&& forall|k: int|
        0 <= k < origins.len() ==> {
            &&& 0 <= (#[trigger] origins[k]).0 < files.len()
            &&& 0 <= origins[k].1 < files[origins[k].0].pruned->Ok_0.row_groups@.len()
            &&& reads_group(parts[k], files[origins[k].0], origins[k].1)
        }
    &&& forall|k: int, l: int|
        0 <= k < l < origins.len() ==> (#[trigger] origins[k]).0 < (#[trigger] origins[l]).0 || (
        origins[k].0 == origins[l].0 && origins[k].1 < origins[l].1)
    &&& forall|f: int, i: int|
        0 <= f < files.len() && 0 <= i < files[f].pruned->Ok_0.row_groups@.len()
            && #[trigger] has_rows_to_read(files[f], i) ==> origins.contains((f, i))
}

/// The row group of the files that an origin names.
pub open spec fn group_at<G>(files: Seq<PrunedFile<G>>, origin: (int, int)) -> RowGroup<G> {
    files[origin.0].meta.row_groups@[files[origin.0].pruned->Ok_0.row_groups@[origin.1] as int]
}

/// The rows of the row groups that a list of origins names.
pub open spec fn origin_rows<G>(files: Seq<PrunedFile<G>>, origins: Seq<(int, int)>) -> int
    decreases origins.len(),
{
    if origins.len() == 0 {
        0
    } else {
        origin_rows(files, origins.drop_last()) + (group_at(files, origins.last()).num_rows as usize)
    }
}

/// The bytes of the row groups that a list of origins names.
pub open spec fn origin_bytes<G>(files: Seq<PrunedFile<G>>, origins: Seq<(int, int)>) -> int
    decreases origins.len(),
{
    if origins.len() == 0 {
        0
    } else {
        origin_bytes(files, origins.drop_last()) + (group_at(
            files,
            origins.last(),
        ).total_byte_size as usize)
    }
}

/// The row groups of all the files, counted.
pub open spec fn all_groups<G>(files: Seq<PrunedFile<G>>) -> int
    decreases files.len(),
{
    if files.len() == 0 {
        0
    } else {
        all_groups(files.drop_last()) + files.last().meta.row_groups@.len()
    }
}

/// Whether statistics count what the partitions with these origins read.
pub open spec fn counts_origins<G>(
    files: Seq<PrunedFile<G>>,
    stats: PartStatistics,
    origins: Seq<(int, int)>,
) -> bool {
    &&& stats.read_rows == origin_rows(files, origins)
    &&& stats.read_bytes == origin_bytes(files, origins)
    &&& stats.partitions_scanned == origins.len()
    &&& stats.partitions_total == all_groups(files)
    &&& stats.is_exact
}

/// Whether this is the outcome of a scan of the files. It fails with the error of the first file
/// that the pruner failed on. Else each partition reads a row group, no row that was selected is
/// missing, none that was not selected is read, and the statistics count the partitions.
pub open spec fn is_scan_of<G>(
    files: Seq<PrunedFile<G>>,
    scan: Result<(PartStatistics, Partitions<G>), ErrorCode>,
) -> bool {
    match scan {
        Err(error) => exists|f: int|
            {
                &&& 0 <= f < files.len()
                &&& (#[trigger] files[f]).pruned == Err::<Pruning, ErrorCode>(error)
                &&& forall|g: int| 0 <= g < f ==> (#[trigger] files[g]).pruned is Ok
            },
        Ok((stats, partitions)) => {
            &&& forall|f: int| 0 <= f < files.len() ==> (#[trigger] files[f]).pruned is Ok
            &&& partitions.kind is Mod
            &&& !partitions.is_lazy
            &&& exists|origins: Seq<(int, int)>|
                #[trigger] partitions_read(files, partitions.partitions@, origins)
                    && counts_origins(files, stats, origins)
        },
    }
}

/// A scan reads just the rows that were selected: of each picked row group with something to read
/// there is one partition, in order, that names the file, the row group's metadata and pages,
/// and the selected rows of that row group; the statistics count the partitions.
pub proof fn law_scan_reads_what_was_selected<G: Copy>(
    files: Vec<PrunedFile<G>>,
    scan: Result<(PartStatistics, Partitions<G>), ErrorCode>,
)
    requires
        call_ensures(prune_and_generate_partitions::<G>, (files,), scan),
    ensures
        is_scan_of(files@, scan),
{
    lemma_scan_matches(files@, scan);
}

/// A scan of any files reads just the rows that were selected, where it gives anything.
pub proof fn law_checked_scan_reads_what_was_selected<G: Copy>(
    files: Vec<PrunedFile<G>>,
    scan: Option<Result<(PartStatistics, Partitions<G>), ErrorCode>>,
)
    requires
        call_ensures(checked_prune_and_generate_partitions::<G>, (files,), scan),
        scan is Some,
    ensures
        is_scan_of(files@, scan->0),
{
    lemma_scan_matches(files@, scan->0);
}

/// The places, among the picked row groups of a file, of those that a scan reads.
pub open spec fn file_indices<G>(file: PrunedFile<G>) -> Seq<int> {
    let picked = file.pruned->Ok_0.row_groups@;
    match file.pruned->Ok_0.selection {
        None => Seq::new(picked.len(), |i: int| i),
        Some(selection) => read_indices(
            file.meta.row_groups@,
            picked,
            runs(selection),
            picked.len() as int,
        ),
    }
}

/// What a scan reads of the picked row group of a file at `index`.
spec fn file_entry<G>(file: PrunedFile<G>, index: int) -> Kept {
    let picked = file.pruned->Ok_0.row_groups@;
    match file.pruned->Ok_0.selection {
        None => Kept { group: picked[index], runs: None },
        Some(selection) => entry_at(file.meta.row_groups@, picked, runs(selection), index),
    }
}

proof fn lemma_read_indices<G>(
    groups: Seq<RowGroup<G>>,
    picked: Seq<usize>,
    selection: Seq<(usize, bool)>,
    count: int,
)
    ensures
        ({
            let indices = read_indices(groups, picked, selection, count);
            &&& forall|k: int|
                0 <= k < indices.len() ==> 0 <= #[trigger] indices[k] < count && reads_any(
                    entry_at(groups, picked, selection, indices[k]).runs->0,
                )
            &&& forall|k: int, l: int| 0 <= k < l < indices.len() ==> indices[k] < indices[l]
        }),
    decreases count,
{
    if count > 0 {
        lemma_read_indices(groups, picked, selection, count - 1);
    }
}

/// The row groups that a scan reads of a file are those at its indices.
proof fn lemma_file_indices<G>(file: PrunedFile<G>)
    requires
        file.pruned is Ok,
    ensures
        file_kept(file.meta, file.pruned->Ok_0) == file_indices(file).map_values(
            |i: int| file_entry(file, i),
        ),
        forall|k: int|
            0 <= k < file_indices(file).len() ==> {
                &&& 0 <= #[trigger] file_indices(file)[k] < file.pruned->Ok_0.row_groups@.len()
                &&& file.pruned->Ok_0.selection is Some ==> reads_any(
                    file_entry(file, file_indices(file)[k]).runs->0,
                )
            },
        forall|k: int, l: int|
            0 <= k < l < file_indices(file).len() ==> file_indices(file)[k] < file_indices(file)[l],
        forall|i: int|
            0 <= i < file.pruned->Ok_0.row_groups@.len() && #[trigger] has_rows_to_read(file, i)
                ==> file_indices(file).contains(i),
{
    let groups = file.meta.row_groups@;
    let pruning = file.pruned->Ok_0;
    let picked = pruning.row_groups@;
    match pruning.selection {
        None => {
            law_scan_without_selection(groups, picked);
            assert(file_kept(file.meta, pruning) =~= file_indices(file).map_values(
                |i: int| file_entry(file, i),
            ));
            assert forall|i: int| 0 <= i < picked.len() && #[trigger] has_rows_to_read(
                file,
                i,
            ) implies file_indices(file).contains(i) by {
                assert(file_indices(file)[i] == i);
            }
        },
        Some(selection) => {
            law_scan_reads_the_selected_groups(groups, picked, runs(selection));
            lemma_read_indices(groups, picked, runs(selection), picked.len() as int);
            assert(file_kept(file.meta, pruning) =~= file_indices(file).map_values(
                |i: int| file_entry(file, i),
            ));
            assert forall|i: int| 0 <= i < picked.len() && #[trigger] has_rows_to_read(
                file,
                i,
            ) implies file_indices(file).contains(i) by {
                lemma_flags_at(file, i);
                let flags = flags_at(file, i);
                let row = choose|row: int| 0 <= row < flags.len() && flags[row];
                let own = entry_at(groups, picked, runs(selection), i).runs->0;
                if !reads_any(own) {
                    law_unread_runs_read_no_row(own, row);
                }
                lemma_read_index(groups, picked, runs(selection), picked.len() as int, i);
            }
        },
    }
}

/// The flags of what a scan reads of a picked row group are the selection's at its place.
proof fn lemma_flags_at<G>(file: PrunedFile<G>, index: int)
    requires
        file.pruned is Ok,
        file.pruned->Ok_0.selection is Some,
        0 <= index < file.pruned->Ok_0.row_groups@.len(),
    ensures
        row_flags(file_entry(file, index).runs->0) == flags_at(file, index),
{
    let pruning = file.pruned->Ok_0;
    let selection = runs(pruning.selection->0);
    law_entry_has_its_own_rows(file.meta.row_groups@, pruning.row_groups@, selection, index);
    law_row_flags_len(selection);
}

/// The partition of a row group reads the row group.
proof fn lemma_part_reads_group<G>(
    part: ParquetRSRowGroupPart<G>,
    file: PrunedFile<G>,
    index: int,
)
    requires
        file.pruned is Ok,
        0 <= index < file.pruned->Ok_0.row_groups@.len(),
        file.pruned->Ok_0.selection is Some ==> reads_any(file_entry(file, index).runs->0),
        part@ == part_of(file.location@, file.meta, file_entry(file, index)),
    ensures
        reads_group(part, file, index),
{
    let pruning = file.pruned->Ok_0;
    let expected = part_of(file.location@, file.meta, file_entry(file, index));
    if let Some(selectors) = part.selectors {
        let pairs = selectors@.map_values(|s: SerdeRowSelector| (s.row_count, s.skip));
        let own = file_entry(file, index).runs->0;
        assert(pairs == own);
        lemma_selector_flags(selectors@);
        lemma_flags_at(file, index);
        let j = choose|j: int| 0 <= j < own.len() && !(#[trigger] own[j]).1;
        assert(pairs[j] == (selectors@[j].row_count, selectors@[j].skip));
        assert(!selectors@[j].skip);
    }
    if let Some(pages) = part.page_locations {
        let group = pruning.row_groups@[index] as int;
        let columns = file.meta.offset_index->0@[group]@;
        let views = pages@.map_values(|column: Vec<SerdePageLocation>| column@);
        assert(views == serde_pages(columns));
        assert forall|c: int| 0 <= c < columns.len() implies (#[trigger] pages@[c])@.len()
            == columns[c]@.len() by {
            assert(views[c] == serde_pages(columns)[c]);
        }
        assert forall|c: int, p: int| 0 <= c < columns.len() && 0 <= p < columns[c]@.len() implies {
            &&& (#[trigger] pages@[c]@[p]).offset == columns[c]@[p].offset
            &&& pages@[c]@[p].compressed_page_size == columns[c]@[p].compressed_page_size
            &&& pages@[c]@[p].first_row_index == columns[c]@[p].first_row_index
        } by {
            assert(views[c] == serde_pages(columns)[c]);
            assert(views[c][p] == serde_pages(columns)[c][p]);
        }
    }
}

/// The row groups that a scan of the files reads.
pub open spec fn scan_origins<G>(files: Seq<PrunedFile<G>>) -> Seq<(int, int)>
    decreases files.len(),
{
    if files.len() == 0 {
        Seq::empty()
    } else {
        scan_origins(files.drop_last()) + file_indices(files.last()).map_values(
            |i: int| (files.len() - 1, i),
        )
    }
}

/// Origins among the first files name the same row groups among more files.
proof fn lemma_origin_counts<G>(
    files: Seq<PrunedFile<G>>,
    more: Seq<PrunedFile<G>>,
    origins: Seq<(int, int)>,
)
    requires
        files.len() <= more.len(),
        forall|f: int| 0 <= f < files.len() ==> files[f] == more[f],
        forall|k: int| 0 <= k < origins.len() ==> 0 <= (#[trigger] origins[k]).0 < files.len(),
    ensures
        origin_rows(files, origins) == origin_rows(more, origins),
        origin_bytes(files, origins) == origin_bytes(more, origins),
    decreases origins.len(),
{
    if origins.len() > 0 {
        assert forall|k: int| 0 <= k < origins.drop_last().len() implies 0 <= (
        #[trigger] origins.drop_last()[k]).0 < files.len() by {
            assert(origins.drop_last()[k] == origins[k]);
        }
        lemma_origin_counts(files, more, origins.drop_last());
        assert(0 <= origins[origins.len() - 1].0 < files.len());
    }
}

/// The counts of a list of row groups, the last one apart.
proof fn lemma_kept_push<G>(groups: Seq<RowGroup<G>>, list: Seq<Kept>)
    requires
        list.len() > 0,
    ensures
        kept_rows(groups, list) == kept_rows(groups, list.drop_last()) + group_rows(
            groups[list.last().group as int],
        ),
        kept_bytes(groups, list) == kept_bytes(groups, list.drop_last()) + group_bytes(
            groups[list.last().group as int],
        ),
    decreases list.len(),
{
    if list.len() > 1 {
        lemma_kept_push(groups, list.drop_first());
        assert(list.drop_first().drop_last() =~= list.drop_last().drop_first());
    } else {
        assert(list.drop_first() =~= Seq::empty());
        assert(list.drop_last() =~= Seq::empty());
    }
}

/// The counts of the row groups that are read of the last file.
proof fn lemma_last_file_counts<G>(
    files: Seq<PrunedFile<G>>,
    before: Seq<(int, int)>,
    indices: Seq<int>,
)
    requires
        files.len() > 0,
    ensures
        ({
            let file = files.last();
            let own = indices.map_values(|i: int| (files.len() - 1, i));
            let list = indices.map_values(|i: int| file_entry(file, i));
            &&& origin_rows(files, before + own) == origin_rows(files, before) + kept_rows(
                file.meta.row_groups@,
                list,
            )
            &&& origin_bytes(files, before + own) == origin_bytes(files, before) + kept_bytes(
                file.meta.row_groups@,
                list,
            )
        }),
    decreases indices.len(),
{
    let file = files.last();
    let own = indices.map_values(|i: int| (files.len() - 1, i));
    let list = indices.map_values(|i: int| file_entry(file, i));
    if indices.len() == 0 {
        assert(before + own =~= before);
    } else {
        let shorter = indices.drop_last();
        lemma_last_file_counts(files, before, shorter);
        lemma_kept_push(file.meta.row_groups@, list);
        assert((before + own).drop_last() =~= before + shorter.map_values(
            |i: int| (files.len() - 1, i),
        ));
        assert(list.drop_last() =~= shorter.map_values(|i: int| file_entry(file, i)));
        assert((before + own).last() == (files.len() - 1, indices.last()));
        assert(list.last() == file_entry(file, indices.last()));
    }
}

/// The partitions of the last file read its row groups, behind those of the files before it.
proof fn lemma_last_file_is_read<G>(
    files: Seq<PrunedFile<G>>,
    parts: Seq<ParquetRSRowGroupPart<G>>,
    before: Seq<(int, int)>,
)
    requires
        files.len() > 0,
        files.last().pruned is Ok,
        before.len() <= parts.len(),
        partitions_read(files.drop_last(), parts.take(before.len() as int), before),
        part_views(parts.skip(before.len() as int)) == file_parts(
            files.last().location@,
            files.last().meta,
            files.last().pruned->Ok_0,
        ),
    ensures
        partitions_read(
            files,
            parts,
            before + file_indices(files.last()).map_values(|i: int| (files.len() - 1, i)),
        ),
{
    let file = files.last();
    let last = files.len() - 1;
    let indices = file_indices(file);
    let own = indices.map_values(|i: int| (files.len() - 1, i));
    let origins = before + own;
    let n = before.len() as int;
    lemma_file_indices(file);
    let views = part_views(parts.skip(n));
    assert(views.len() == indices.len());
    assert forall|k: int| 0 <= k < origins.len() implies {
        &&& 0 <= (#[trigger] origins[k]).0 < files.len()
        &&& 0 <= origins[k].1 < files[origins[k].0].pruned->Ok_0.row_groups@.len()
        &&& reads_group(parts[k], files[origins[k].0], origins[k].1)
    } by {
        if k < n {
            assert(origins[k] == before[k]);
            assert(files[origins[k].0] == files.drop_last()[origins[k].0]);
            assert(parts.take(n)[k] == parts[k]);
        } else {
            let i = indices[k - n];
            assert(origins[k] == (last, i));
            assert(views[k - n] == parts[k]@);
            assert(views[k - n] == part_of(file.location@, file.meta, file_entry(file, i)));
            lemma_part_reads_group(parts[k], file, i);
        }
    }
    assert forall|k: int, l: int| 0 <= k < l < origins.len() implies (#[trigger] origins[k]).0 < (
    #[trigger] origins[l]).0 || (origins[k].0 == origins[l].0 && origins[k].1 < origins[l].1) by {
        if l < n {
            assert(origins[k] == before[k] && origins[l] == before[l]);
        } else if k < n {
            assert(origins[k] == before[k]);
            assert(origins[l] == (last, indices[l - n]));
        } else {
            assert(origins[k] == (last, indices[k - n]));
            assert(origins[l] == (last, indices[l - n]));
        }
    }
    assert forall|f: int, i: int|
        0 <= f < files.len() && 0 <= i < files[f].pruned->Ok_0.row_groups@.len()
            && #[trigger] has_rows_to_read(files[f], i) implies origins.contains((f, i)) by {
        if f < last {
            assert(files[f] == files.drop_last()[f]);
            assert(has_rows_to_read(files.drop_last()[f], i));
            let k = choose|k: int| 0 <= k < before.len() && before[k] == (f, i);
            assert(origins[k] == (f, i));
        } else {
            let k = choose|k: int| 0 <= k < indices.len() && indices[k] == i;
            assert(origins[n + k] == (f, i));
        }
    }
}

/// The partitions of a scan read the row groups of its files, and are counted.
proof fn lemma_scan_origins<G>(
    files: Seq<PrunedFile<G>>,
    parts: Seq<ParquetRSRowGroupPart<G>>,
)
    requires
        pruned_scan(files) is Ok,
        pruned_scan(files)->Ok_0.1 == part_views(parts),
    ensures
        forall|f: int| 0 <= f < files.len() ==> (#[trigger] files[f]).pruned is Ok,
        partitions_read(files, parts, scan_origins(files)),
        pruned_scan(files)->Ok_0.0.read_rows == origin_rows(files, scan_origins(files)),
        pruned_scan(files)->Ok_0.0.read_bytes == origin_bytes(files, scan_origins(files)),
        pruned_scan(files)->Ok_0.0.partitions_scanned == scan_origins(files).len(),
        pruned_scan(files)->Ok_0.0.partitions_total == all_groups(files),
    decreases files.len(),
{
    assert(part_views(parts).len() == parts.len());
    if files.len() > 0 {
        let before = files.drop_last();
        let file = files.last();
        let (totals, views) = pruned_scan(before)->Ok_0;
        let own = file_parts(file.location@, file.meta, file.pruned->Ok_0);
        let n = views.len() as int;
        assert(part_views(parts.take(n)) =~= views) by {
            assert(part_views(parts).take(n) =~= views);
            assert(part_views(parts.take(n)) =~= part_views(parts).take(n));
        }
        assert(part_views(parts.skip(n)) =~= own) by {
            assert(part_views(parts).skip(n) =~= own);
            assert(part_views(parts.skip(n)) =~= part_views(parts).skip(n));
        }
        lemma_scan_origins(before, parts.take(n));
        let origins = scan_origins(before);
        lemma_last_file_is_read(files, parts, origins);
        lemma_file_indices(file);
        lemma_origin_counts(before, files, origins);
        lemma_last_file_counts(files, origins, file_indices(file));
        assert forall|f: int| 0 <= f < files.len() implies (#[trigger] files[f]).pruned is Ok by {
            if f < before.len() {
                assert(before[f] == files[f]);
            }
        }
    }
}

/// The error of a scan is that of the first file that the pruner failed on.
proof fn lemma_scan_error<G>(files: Seq<PrunedFile<G>>) -> (f: int)
    requires
        pruned_scan(files) is Err,
    ensures
        0 <= f < files.len(),
        files[f].pruned == Err::<Pruning, ErrorCode>(pruned_scan(files)->Err_0),
        forall|g: int| 0 <= g < f ==> (#[trigger] files[g]).pruned is Ok,
    decreases files.len(),
{
    let before = files.drop_last();
    if pruned_scan(before) is Err {
        let f = lemma_scan_error(before);
        assert forall|g: int| 0 <= g < f implies (#[trigger] files[g]).pruned is Ok by {
            assert(before[g] == files[g]);
        }
        f
    } else {
        lemma_scan_is_ok(before);
        assert forall|g: int| 0 <= g < files.len() - 1 implies (#[trigger] files[g]).pruned is Ok by {
            assert(before[g] == files[g]);
        }
        files.len() - 1
    }
}

proof fn lemma_scan_is_ok<G>(files: Seq<PrunedFile<G>>)
    requires
        pruned_scan(files) is Ok,
    ensures
        forall|f: int| 0 <= f < files.len() ==> (#[trigger] files[f]).pruned is Ok,
    decreases files.len(),
{
    if files.len() > 0 {
        lemma_scan_is_ok(files.drop_last());
        assert forall|f: int| 0 <= f < files.len() implies (#[trigger] files[f]).pruned is Ok by {
            if f < files.len() - 1 {
                assert(files.drop_last()[f] == files[f]);
            }
        }
    }
}

proof fn lemma_scan_matches<G>(
    files: Seq<PrunedFile<G>>,
    scan: Result<(PartStatistics, Partitions<G>), ErrorCode>,
)
    requires
        scan_matches(scan, pruned_scan(files)),
    ensures
        is_scan_of(files, scan),
{
    match scan {
        Err(error) => {
            let f = lemma_scan_error(files);
            assert(files[f].pruned == Err::<Pruning, ErrorCode>(error));
        },
        Ok((stats, partitions)) => {
            lemma_scan_origins(files, partitions.partitions@);
            assert(partitions_read(files, partitions.partitions@, scan_origins(files)));
            assert(counts_origins(files, stats, scan_origins(files)));
        },
    }
}

/// New statistics count nothing, and are exact.
pub proof fn law_new_statistics_count_nothing(stats: PartStatistics)
    requires
        call_ensures(PartStatistics::default_exact, (), stats),
    ensures
        stats.read_rows == 0,
        stats.read_bytes == 0,
        stats.partitions_scanned == 0,
        stats.partitions_total == 0,
        stats.is_exact,
{
    assert(stats.totals().read_rows == 0);
}

/// Merging adds each count to the same count, and is exact where both were.
pub proof fn law_merging_adds_each_count(stats: &mut PartStatistics, other: PartStatistics)
    requires
        call_ensures(PartStatistics::merge, (stats, &other), ()),
    ensures
        final(stats).read_rows == old(stats).read_rows + other.read_rows,
        final(stats).read_bytes == old(stats).read_bytes + other.read_bytes,
        final(stats).partitions_scanned == old(stats).partitions_scanned
            + other.partitions_scanned,
        final(stats).partitions_total == old(stats).partitions_total + other.partitions_total,
        final(stats).is_exact == (old(stats).is_exact && other.is_exact),
{
    assert(final(stats).totals().read_rows == final(stats).read_rows);
}

/// Partitions that are made keep their list and how they are spread.
pub proof fn law_made_partitions_are_kept<G>(
    kind: PartitionsShuffleKind,
    partitions: Vec<ParquetRSRowGroupPart<G>>,
    made: Partitions<G>,
)
    requires
        call_ensures(Partitions::<G>::create_nolazy, (kind, partitions), made),
    ensures
        made.partitions@ == partitions@,
        made.kind == kind,
        !made.is_lazy,
{
}

/// The rows of the picked row groups.
pub open spec fn picked_rows<G>(groups: Seq<RowGroup<G>>, picked: Seq<usize>) -> nat
    decreases picked.len(),
{
    if picked.len() == 0 {
        0
    } else {
        group_rows(groups[picked[0] as int]) + picked_rows(groups, picked.drop_first())
    }
}

/// The bytes of the picked row groups.
pub open spec fn picked_bytes<G>(groups: Seq<RowGroup<G>>, picked: Seq<usize>) -> nat
    decreases picked.len(),
{
    if picked.len() == 0 {
        0
    } else {
        group_bytes(groups[picked[0] as int]) + picked_bytes(groups, picked.drop_first())
    }
}

/// The counts of all that the pruner leaves of the files, before rows are selected.
pub open spec fn picked_totals<G>(files: Seq<PrunedFile<G>>) -> Totals
    decreases files.len(),
{
    if files.len() == 0 {
        Totals { read_rows: 0, read_bytes: 0, partitions_scanned: 0, partitions_total: 0 }
    } else {
        let before = picked_totals(files.drop_last());
        let file = files.last();
        match file.pruned {
            Err(_) => before,
            Ok(pruning) => Totals {
                read_rows: before.read_rows + picked_rows(
                    file.meta.row_groups@,
                    pruning.row_groups@,
                ),
                read_bytes: before.read_bytes + picked_bytes(
                    file.meta.row_groups@,
                    pruning.row_groups@,
                ),
                partitions_scanned: before.partitions_scanned + pruning.row_groups@.len(),
                partitions_total: before.partitions_total + file.meta.row_groups@.len(),
            },
        }
    }
}

/// Whether a file is as files are: the pruner failed on it, or picks row groups of the file, the
/// selection has rows that can be counted, and the pages of each row group are known where those
/// of any are.
pub open spec fn is_ordinary<G>(file: PrunedFile<G>) -> bool {
    file.pruned matches Ok(pruning) ==> {
        &&& forall|i: int|
            0 <= i < pruning.row_groups@.len() ==> (#[trigger] pruning.row_groups@[i])
                < file.meta.row_groups@.len()
        &&& pruning.selection matches Some(selection) ==> covered_rows(runs(selection))
            <= usize::MAX
        &&& file.meta.offset_index matches Some(index) ==> file.meta.row_groups@.len()
            <= index@.len()
    }
}

/// Files that are as files are give a scan, where all that the pruner leaves of them can be
/// counted.
pub proof fn law_ordinary_files_are_scanned<G: Copy>(
    files: Vec<PrunedFile<G>>,
    scan: Option<Result<(PartStatistics, Partitions<G>), ErrorCode>>,
)
    requires
        call_ensures(checked_prune_and_generate_partitions::<G>, (files,), scan),
        forall|f: int| 0 <= f < files@.len() ==> is_ordinary(#[trigger] files@[f]),
        picked_totals(files@).read_rows <= usize::MAX,
        picked_totals(files@).read_bytes <= usize::MAX,
        picked_totals(files@).partitions_scanned <= usize::MAX,
        picked_totals(files@).partitions_total <= usize::MAX,
    ensures
        scan is Some,
{
    lemma_ordinary_files(files@);
}

proof fn lemma_kept_is_picked<G>(
    groups: Seq<RowGroup<G>>,
    picked: Seq<usize>,
    selection: Option<Seq<(usize, bool)>>,
    bound: nat,
)
    requires
        forall|i: int| 0 <= i < picked.len() ==> (#[trigger] picked[i]) < bound,
    ensures
        kept_rows(groups, kept(groups, picked, selection)) <= picked_rows(groups, picked),
        kept_bytes(groups, kept(groups, picked, selection)) <= picked_bytes(groups, picked),
        kept(groups, picked, selection).len() <= picked.len(),
        forall|i: int|
            0 <= i < kept(groups, picked, selection).len() ==> (#[trigger] kept(
                groups,
                picked,
                selection,
            )[i]).group < bound,
    decreases picked.len(),
{
    if picked.len() > 0 {
        lemma_kept_step(groups, picked, selection);
        let rest = match selection {
            Some(runs) => Some(split_runs(runs, group_rows(groups[picked[0] as int])).1),
            None => None,
        };
        lemma_kept_is_picked(groups, picked.drop_first(), rest, bound);
        let all = kept(groups, picked, selection);
        let behind = kept(groups, picked.drop_first(), rest);
        assert forall|i: int| 0 <= i < all.len() implies (#[trigger] all[i]).group < bound by {
            if all != behind && i > 0 {
                assert(all[i] == behind[i - 1]);
            }
        }
    }
}

proof fn lemma_countable_can_split<G>(
    groups: Seq<RowGroup<G>>,
    picked: Seq<usize>,
    selection: Option<Seq<(usize, bool)>>,
)
    requires
        selection is Some ==> covered_rows(selection->0) <= usize::MAX,
    ensures
        can_split(groups, picked, selection),
    decreases picked.len(),
{
    if picked.len() > 0 && selection is Some {
        let list = selection->0;
        let rows = group_rows(groups[picked[0] as int]);
        let rest = split_runs(list, rows).1;
        lemma_reached(list, rows, list.len() as int);
        law_split_keeps_rows(list, rows);
        law_row_flags_len(list);
        law_row_flags_len(rest);
        lemma_countable_can_split(groups, picked.drop_first(), Some(rest));
    }
}

proof fn lemma_ordinary_files<G>(files: Seq<PrunedFile<G>>)
    requires
        forall|f: int| 0 <= f < files.len() ==> is_ordinary(#[trigger] files[f]),
        picked_totals(files).read_rows <= usize::MAX,
        picked_totals(files).read_bytes <= usize::MAX,
        picked_totals(files).partitions_scanned <= usize::MAX,
        picked_totals(files).partitions_total <= usize::MAX,
    ensures
        scannable(files),
        pruned_scan(files) matches Ok((totals, _)) ==> {
            &&& totals.read_rows <= picked_totals(files).read_rows
            &&& totals.read_bytes <= picked_totals(files).read_bytes
            &&& totals.partitions_scanned <= picked_totals(files).partitions_scanned
            &&& totals.partitions_total <= picked_totals(files).partitions_total
        },
    decreases files.len(),
{
    if files.len() > 0 {
        let before = files.drop_last();
        let file = files.last();
        assert forall|f: int| 0 <= f < before.len() implies is_ordinary(#[trigger] before[f]) by {
            assert(before[f] == files[f]);
        }
        assert(is_ordinary(files[files.len() - 1]));
        lemma_ordinary_files(before);
        if let Ok(pruning) = file.pruned {
            lemma_kept_is_picked(
                file.meta.row_groups@,
                pruning.row_groups@,
                selected_runs(pruning.selection),
                file.meta.row_groups@.len(),
            );
            lemma_countable_can_split(
                file.meta.row_groups@,
                pruning.row_groups@,
                selected_runs(pruning.selection),
            );
        }
    }
}

/// Whether the picked row group at `index` of a file is read: there is no selection, or the
/// selection reads a run of it.
pub open spec fn is_read<G>(file: PrunedFile<G>, index: int) -> bool {
    file.pruned->Ok_0.selection matches Some(selection) ==> reads_any(
        entry_at(
            file.meta.row_groups@,
            file.pruned->Ok_0.row_groups@,
            runs(selection),
            index,
        ).runs->0,
    )
}

/// Whether a scan can go through a file: each picked row group is one of the file, the rows of the
/// runs that are gone through for it can be counted, and where the pages of any row group are
/// known those of each row group that is read are.
pub open spec fn can_go_through<G>(file: PrunedFile<G>) -> bool {
    let groups = file.meta.row_groups@;
    let pruning = file.pruned->Ok_0;
    let picked = pruning.row_groups@;
    &&& forall|i: int| 0 <= i < picked.len() ==> (#[trigger] picked[i]) < groups.len()
    &&& pruning.selection matches Some(selection) ==> forall|i: int|
        0 <= i < picked.len() ==> reached_rows(
            #[trigger] runs_behind(groups, picked, runs(selection), i),
            group_rows(groups[picked[i] as int]),
        ) <= usize::MAX
    &&& file.meta.offset_index matches Some(index) ==> forall|i: int|
        0 <= i < picked.len() && #[trigger] is_read(file, i) ==> picked[i] < index@.len()
}

/// The row groups of the files that are read, by their files and their places among the picked
/// ones: each that is read, once and in order.
pub proof fn law_origins_are_the_row_groups_that_are_read<G>(
    files: Seq<PrunedFile<G>>,
    f: int,
    i: int,
)
    requires
        forall|g: int| 0 <= g < files.len() ==> (#[trigger] files[g]).pruned is Ok,
    ensures
        scan_origins(files).contains((f, i)) == {
            &&& 0 <= f < files.len()
            &&& 0 <= i < files[f].pruned->Ok_0.row_groups@.len()
            &&& is_read(files[f], i)
        },
        forall|k: int, l: int|
            0 <= k < l < scan_origins(files).len() ==> scan_origins(files)[k] != scan_origins(
                files,
            )[l],
    decreases files.len(),
{
    let origins = scan_origins(files);
    if files.len() > 0 {
        let before = files.drop_last();
        let last = files.len() - 1;
        let file = files.last();
        let head = scan_origins(before);
        let indices = file_indices(file);
        let own = indices.map_values(|i: int| (files.len() - 1, i));
        assert(files[last].pruned is Ok);
        lemma_file_indices(file);
        lemma_indices_are_read(file, i);
        assert forall|g: int| 0 <= g < before.len() implies (#[trigger] before[g]).pruned is Ok by {
            assert(before[g] == files[g]);
        }
        law_origins_are_the_row_groups_that_are_read(before, f, i);
        assert(origins == head + own);
        if head.contains((f, i)) {
            let k = choose|k: int| 0 <= k < head.len() && head[k] == (f, i);
            assert(origins[k] == (f, i));
        }
        if f == last && indices.contains(i) {
            let k = choose|k: int| 0 <= k < indices.len() && indices[k] == i;
            assert(origins[head.len() + k] == (f, i));
        }
        if origins.contains((f, i)) {
            let k = choose|k: int| 0 <= k < origins.len() && origins[k] == (f, i);
            if k < head.len() {
                assert(head[k] == (f, i));
            } else {
                assert(own[k - head.len()] == (last, indices[k - head.len()]));
                assert(indices[k - head.len()] == i);
            }
        }
        assert forall|k: int, l: int| 0 <= k < l < origins.len() implies origins[k] != origins[l] by {
            if k < head.len() && l >= head.len() {
                law_origins_are_the_row_groups_that_are_read(before, head[k].0, head[k].1);
                assert(head.contains(head[k]));
                assert(origins[l] == (last, indices[l - head.len()]));
            } else if k >= head.len() {
                assert(origins[k] == (last, indices[k - head.len()]));
                assert(origins[l] == (last, indices[l - head.len()]));
            } else {
                assert(origins[k] == head[k] && origins[l] == head[l]);
            }
        }
    }
}

proof fn lemma_indices_are_read<G>(file: PrunedFile<G>, i: int)
    requires
        file.pruned is Ok,
    ensures
        file_indices(file).contains(i) == (0 <= i < file.pruned->Ok_0.row_groups@.len() && is_read(
            file,
            i,
        )),
{
    let groups = file.meta.row_groups@;
    let picked = file.pruned->Ok_0.row_groups@;
    let n = picked.len() as int;
    let indices = file_indices(file);
    lemma_file_indices(file);
    if indices.contains(i) {
        let k = choose|k: int| 0 <= k < indices.len() && indices[k] == i;
        assert(0 <= indices[k] < n);
    }
    if 0 <= i < n && is_read(file, i) {
        match file.pruned->Ok_0.selection {
            Some(selection) => {
                lemma_read_index(groups, picked, runs(selection), n, i);
            },
            None => {
                assert(indices[i] == i);
            },
        }
    }
}

proof fn lemma_can_split_from<G>(
    groups: Seq<RowGroup<G>>,
    picked: Seq<usize>,
    selection: Seq<(usize, bool)>,
    count: int,
)
    requires
        0 <= count <= picked.len(),
    ensures
        can_split(groups, picked, Some(selection)) == {
            &&& forall|i: int|
                0 <= i < count ==> reached_rows(
                    #[trigger] runs_behind(groups, picked, selection, i),
                    group_rows(groups[picked[i] as int]),
                ) <= usize::MAX
            &&& can_split(
                groups,
                picked.skip(count),
                Some(runs_behind(groups, picked, selection, count)),
            )
        },
    decreases count,
{
    if count == 0 {
        assert(picked.skip(0) =~= picked);
    } else {
        let last = count - 1;
        lemma_can_split_from(groups, picked, selection, last);
        assert(picked.skip(last).drop_first() =~= picked.skip(count));
        assert(picked.skip(last)[0] == picked[last]);
        let here = runs_behind(groups, picked, selection, last);
        let rows = group_rows(groups[picked[last] as int]);
        assert(can_split(groups, picked.skip(last), Some(here)) == (reached_rows(here, rows)
            <= usize::MAX && can_split(
            groups,
            picked.skip(count),
            Some(runs_behind(groups, picked, selection, count)),
        )));
    }
}

proof fn lemma_can_go_through<G>(file: PrunedFile<G>)
    requires
        file.pruned is Ok,
    ensures
        can_go_through(file) == {
            &&& picks_own_groups(file.meta, file.pruned->Ok_0)
            &&& file_can_split(file.meta, file.pruned->Ok_0)
            &&& knows_pages(file.meta, file_kept(file.meta, file.pruned->Ok_0))
        },
{
    let groups = file.meta.row_groups@;
    let pruning = file.pruned->Ok_0;
    let picked = pruning.row_groups@;
    let n = picked.len() as int;
    let list = file_kept(file.meta, pruning);
    let indices = file_indices(file);
    if let Some(selection) = pruning.selection {
        lemma_can_split_from(groups, picked, runs(selection), n);
    }
    lemma_file_indices(file);
    assert forall|k: int| 0 <= k < list.len() implies (#[trigger] list[k]).group
        == picked[indices[k]] by {
        assert(list[k] == file_entry(file, indices[k]));
    }
    if let Some(index) = file.meta.offset_index {
        if knows_pages(file.meta, list) {
            assert forall|i: int| 0 <= i < n && #[trigger] is_read(file, i) implies picked[i]
                < index@.len() by {
                lemma_indices_are_read(file, i);
                let k = choose|k: int| 0 <= k < indices.len() && indices[k] == i;
                assert(list[k].group < index@.len());
            }
        }
        if forall|i: int|
            0 <= i < n && #[trigger] is_read(file, i) ==> picked[i] < index@.len() {
            assert forall|k: int| 0 <= k < list.len() implies (#[trigger] list[k]).group
                < index@.len() by {
                lemma_indices_are_read(file, indices[k]);
                assert(indices.contains(indices[k]));
                assert(is_read(file, indices[k]));
            }
        }
    }
}

/// A scan is given just where it can be: it can go through each file up to the first that the
/// pruner failed on, and the rows, the bytes and the number of the row groups that are read of
/// these files, and the number of all their row groups, can be counted.
pub proof fn law_scan_is_given_where_it_can_be<G: Copy>(
    files: Vec<PrunedFile<G>>,
    count: int,
    scan: Option<Result<(PartStatistics, Partitions<G>), ErrorCode>>,
)
    requires
        call_ensures(checked_prune_and_generate_partitions::<G>, (files,), scan),
        0 <= count <= files@.len(),
        forall|f: int| 0 <= f < count ==> (#[trigger] files@[f]).pruned is Ok,
        count < files@.len() ==> files@[count].pruned is Err,
    ensures
        scan is Some == {
            let first = files@.take(count);
            &&& forall|f: int| 0 <= f < count ==> can_go_through(#[trigger] files@[f])
            &&& origin_rows(first, scan_origins(first)) <= usize::MAX
            &&& origin_bytes(first, scan_origins(first)) <= usize::MAX
            &&& scan_origins(first).len() <= usize::MAX
            &&& all_groups(first) <= usize::MAX
        },
{
    let all = files@;
    let first = all.take(count);
    assert forall|f: int| 0 <= f < first.len() implies (#[trigger] first[f]).pruned is Ok by {
        assert(first[f] == all[f]);
    }
    lemma_scannable(first);
    if forall|f: int| 0 <= f < count ==> can_go_through(#[trigger] all[f]) {
        assert forall|f: int| 0 <= f < first.len() implies can_go_through(#[trigger] first[f]) by {
            assert(first[f] == all[f]);
        }
    }
    if forall|f: int| 0 <= f < first.len() ==> can_go_through(#[trigger] first[f]) {
        assert forall|f: int| 0 <= f < count implies can_go_through(#[trigger] all[f]) by {
            assert(first[f] == all[f]);
        }
    }
    if count < all.len() {
        let failed = all.take(count + 1);
        assert(failed.drop_last() =~= first);
        assert(failed.last() == all[count]);
        lemma_first_error(all, count + 1);
    } else {
        assert(first =~= all);
    }
}

proof fn lemma_scannable<G>(files: Seq<PrunedFile<G>>)
    requires
        forall|f: int| 0 <= f < files.len() ==> (#[trigger] files[f]).pruned is Ok,
    ensures
        pruned_scan(files) is Ok,
        pruned_scan(files)->Ok_0.0.read_rows == origin_rows(files, scan_origins(files)),
        pruned_scan(files)->Ok_0.0.read_bytes == origin_bytes(files, scan_origins(files)),
        pruned_scan(files)->Ok_0.0.partitions_scanned == scan_origins(files).len(),
        pruned_scan(files)->Ok_0.0.partitions_total == all_groups(files),
        forall|k: int|
            0 <= k < scan_origins(files).len() ==> 0 <= (#[trigger] scan_origins(files)[k]).0
                < files.len(),
        scannable(files) == {
            &&& forall|f: int| 0 <= f < files.len() ==> can_go_through(#[trigger] files[f])
            &&& origin_rows(files, scan_origins(files)) <= usize::MAX
            &&& origin_bytes(files, scan_origins(files)) <= usize::MAX
            &&& scan_origins(files).len() <= usize::MAX
            &&& all_groups(files) <= usize::MAX
        },
    decreases files.len(),
{
    if files.len() > 0 {
        let before = files.drop_last();
        let file = files.last();
        assert(files[files.len() - 1].pruned is Ok);
        assert forall|f: int| 0 <= f < before.len() implies (#[trigger] before[f]).pruned is Ok by {
            assert(before[f] == files[f]);
        }
        lemma_scannable(before);
        lemma_can_go_through(file);
        lemma_file_indices(file);
        let origins = scan_origins(before);
        let indices = file_indices(file);
        lemma_origin_counts(before, files, origins);
        lemma_last_file_counts(files, origins, indices);
        let own = indices.map_values(|i: int| (files.len() - 1, i));
        assert forall|k: int| 0 <= k < scan_origins(files).len() implies 0 <= (
        #[trigger] scan_origins(files)[k]).0 < files.len() by {
            if k < origins.len() {
                assert(scan_origins(files)[k] == origins[k]);
            } else {
                assert(scan_origins(files)[k] == own[k - origins.len()]);
            }
        }
        if forall|f: int| 0 <= f < files.len() ==> can_go_through(#[trigger] files[f]) {
            assert forall|f: int| 0 <= f < before.len() implies can_go_through(
                #[trigger] before[f],
            ) by {
                assert(can_go_through(files[f]));
            }
            assert(can_go_through(files[files.len() - 1]));
        }
        if can_go_through(file) && forall|f: int|
            0 <= f < before.len() ==> can_go_through(#[trigger] before[f]) {
            assert forall|f: int| 0 <= f < files.len() implies can_go_through(
                #[trigger] files[f],
            ) by {
                if f < before.len() {
                    assert(can_go_through(before[f]));
                }
            }
        }
    }
}

} // verus!
