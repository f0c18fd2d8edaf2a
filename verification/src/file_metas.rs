//! Listing the files of a table, and loading their metadata in batches.
use crate::error::{ErrorClass, ErrorCode};
use crate::text::{
    append_decimal, append_signed_decimal, decimal, law_decimal_reads_back,
    law_signed_decimal_reads_back, says, says_signed, signed_decimal,
};
use vstd::prelude::*;

verus! {

/// A file of a table.
#[derive(Debug, PartialEq, Eq)]
pub struct StageFileInfo {
    /// Where the file is.
    pub path: String,
    /// Its size in bytes.
    pub size: u64,
}

/// The path and the size of each file of a list.
pub open spec fn locations(files: Seq<StageFileInfo>) -> Seq<(Seq<char>, u64)> {
    files.map_values(|file: StageFileInfo| (file.path@, file.size))
}

/// What a list of paths and sizes holds.
pub open spec fn location_views(list: Seq<(String, u64)>) -> Seq<(Seq<char>, u64)> {
    list.map_values(|entry: (String, u64)| (entry.0@, entry.1))
}

/// The path and the size of each file of a list.
pub fn file_locations(files: &Vec<StageFileInfo>) -> (list: Vec<(String, u64)>)
    ensures
        location_views(list@) == locations(files@),
{
    let mut list: Vec<(String, u64)> = Vec::with_capacity(files.len());
    for i in 0..files.len()
        invariant
            location_views(list@) =~= locations(files@).take(i as int),
    {
        let ghost before = list@;
        list.push((files[i].path.clone(), files[i].size));
        assert(location_views(list@) =~= location_views(before).push(
            (files@[i as int].path@, files@[i as int].size),
        ));
    }
    assert(locations(files@).take(files.len() as int) =~= locations(files@));
    list
}

/// Where the files of a scan come from.
#[derive(Debug, PartialEq, Eq)]
pub enum FileListing {
    /// The table names them: their paths and sizes.
    Given(Vec<(String, u64)>),
    /// They are listed by a call that blocks.
    Blocking,
    /// They are listed by a call that is awaited.
    Awaited,
}

/// Decides where the files of a scan come from. A table that names its files is not listed;
/// any other is listed with a blocking call where its storage has one.
pub fn plan_listing(files_to_read: &Option<Vec<StageFileInfo>>, can_blocking: bool) -> (listing:
    FileListing)
    ensures
        match listing {
            FileListing::Given(list) => files_to_read matches Some(files) && location_views(list@)
                == locations(files@),
            FileListing::Blocking => files_to_read is None && can_blocking,
            FileListing::Awaited => files_to_read is None && !can_blocking,
        },
{
    match files_to_read {
        Some(files) => FileListing::Given(file_locations(files)),
        None => if can_blocking {
            FileListing::Blocking
        } else {
            FileListing::Awaited
        },
    }
}

/// A character with an ASCII capital letter made small.
pub open spec fn ascii_small(c: char) -> char {
    if 'A' <= c && c <= 'Z' {
        (c as u32 + 32) as char
    } else {
        c
    }
}

/// A text with its ASCII capital letters made small.
pub open spec fn ascii_small_text(text: Seq<char>) -> Seq<char> {
    text.map_values(|c: char| ascii_small(c))
}

/// `str::eq_ignore_ascii_case` tells whether two texts are the same but for the case of ASCII
/// letters.
pub assume_specification[ str::eq_ignore_ascii_case ](text: &str, other: &str) -> (same: bool)
    ensures
        same == (ascii_small_text(text@) == ascii_small_text(other@)),
;

/// Tells whether a query of this kind copies files, so that each file it loads is reported.
pub fn reports_copy_status(query_kind: &str) -> (reports: bool)
    ensures
        reports == (ascii_small_text(query_kind@) == ascii_small_text("copy"@)),
{
    query_kind.eq_ignore_ascii_case("copy")
}

/// The memory that has to be free after the metadata of a batch was loaded: 100 MiB.
pub const MIN_FREE_MEMORY: i64 = 100 * 1024 * 1024;

/// A memory limit as a signed number. A limit with the highest bit set counts as negative.
pub open spec fn signed_limit(max_memory_usage: u64) -> int {
    if max_memory_usage <= i64::MAX {
        max_memory_usage as int
    } else {
        max_memory_usage - 0x1_0000_0000_0000_0000
    }
}

/// What is said where memory ran short.
pub open spec fn memory_text(max_memory_usage: u64, used: i64) -> Seq<char> {
    "not enough memory to load parquet file metas, max_memory_usage = "@ + decimal(
        max_memory_usage as nat,
    ) + ", used = "@ + signed_decimal(used as int) + "."@
}

/// Whether so little memory is left that a scan has to give up.
pub open spec fn runs_short(max_memory_usage: u64, used: i64) -> bool {
    signed_limit(max_memory_usage) - used < MIN_FREE_MEMORY
}

/// Checks that enough memory is free.
pub fn check_memory(max_memory_usage: u64, used: i64) -> (checked: Result<(), ErrorCode>)
    requires
        i64::MIN <= signed_limit(max_memory_usage) - used <= i64::MAX,
    ensures
        checked is Err == runs_short(max_memory_usage, used),
        checked matches Err(error) ==> {
            &&& error.class == ErrorClass::Internal
            &&& error.message@ == memory_text(max_memory_usage, used)
        },
{
    assert((max_memory_usage as i64) as int == signed_limit(max_memory_usage)) by {
        assert(max_memory_usage <= 0x7fff_ffff_ffff_ffff ==> (max_memory_usage as i64)
            == max_memory_usage) by (bit_vector);
        assert(max_memory_usage > 0x7fff_ffff_ffff_ffff ==> (max_memory_usage as i64)
            == max_memory_usage - 0x1_0000_0000_0000_0000) by (bit_vector);
    }
    if (max_memory_usage as i64) - used < MIN_FREE_MEMORY {
        let mut message = String::new();
        message.append("not enough memory to load parquet file metas, max_memory_usage = ");
        append_decimal(&mut message, max_memory_usage);
        message.append(", used = ");
        append_signed_decimal(&mut message, used);
        message.append(".");
        assert(message@ =~= memory_text(max_memory_usage, used));
        Err(ErrorCode { class: ErrorClass::Internal, message })
    } else {
        Ok(())
    }
}

/// How a file was loaded by a query that copies files.
#[derive(Debug, PartialEq, Eq)]
pub struct FileStatus {
    /// Number of rows loaded.
    pub num_rows_loaded: usize,
    /// The error that stopped the file, where one did.
    pub error: Option<ErrorCode>,
}

/// A report on a file.
#[derive(Debug, PartialEq, Eq)]
pub struct FileReport {
    /// Where the file is.
    pub path: String,
    /// How it was loaded.
    pub status: FileStatus,
}

/// The files of one batch while their metadata is loaded, one file behind the other.
#[derive(Debug)]
pub struct MetaBatch<M> {
    file_infos: Vec<(String, u64)>,
    metas: Vec<(String, M)>,
    reports_status: bool,
}

/// A batch, by the paths of its files, the metadata that is loaded, and whether each file is
/// reported.
#[verifier::ext_equal]
pub struct MetaBatchView<M> {
    pub paths: Seq<Seq<char>>,
    pub metas: Seq<M>,
    pub reports_status: bool,
}

impl<M> View for MetaBatch<M> {
    type V = MetaBatchView<M>;

    closed spec fn view(&self) -> MetaBatchView<M> {
        MetaBatchView {
            paths: self.file_infos@.map_values(|info: (String, u64)| info.0@),
            metas: self.metas@.map_values(|entry: (String, M)| entry.1),
            reports_status: self.reports_status,
        }
    }
}

impl<M> MetaBatch<M> {
    /// Whether the metadata that is loaded is that of the first files, in order.
    pub closed spec fn wf(self) -> bool {
        &&& self.metas@.len() <= self.file_infos@.len()
        &&& forall|i: int|
            0 <= i < self.metas@.len() ==> (#[trigger] self.metas@[i]).0@
                == self.file_infos@[i].0@
    }

    /// Whether all the files are loaded.
    pub open spec fn is_loaded(self) -> bool {
        self@.metas.len() == self@.paths.len()
    }

    /// A batch of which nothing is loaded yet.
    pub fn create(file_infos: Vec<(String, u64)>, reports_status: bool) -> (batch: MetaBatch<M>)
        ensures
            batch.wf(),
            batch@ == (MetaBatchView::<M> {
                paths: file_infos@.map_values(|info: (String, u64)| info.0@),
                metas: Seq::empty(),
                reports_status,
            }),
    {
        let batch = MetaBatch { file_infos, metas: Vec::new(), reports_status };
        assert(batch@.metas =~= Seq::empty());
        batch
    }

    /// The path of the file to load next, where there is one left.
    pub fn next_path(&self) -> (path: Option<&String>)
        requires
            self.wf(),
        ensures
            match path {
                Some(path) => self@.metas.len() < self@.paths.len() && path@
                    == self@.paths[self@.metas.len() as int],
                None => self.is_loaded(),
            },
    {
        if self.metas.len() < self.file_infos.len() {
            Some(&self.file_infos[self.metas.len()].0)
        } else {
            None
        }
    }

    /// Takes the outcome of loading the next file: its metadata and the number of rows that the
    /// metadata says, or an error. Gives the report on the file, where files are reported.
    pub fn on_loaded(&mut self, outcome: Result<(M, i64), ErrorCode>) -> (report: Result<
        Option<FileReport>,
        ErrorCode,
    >)
        requires
            old(self).wf(),
            old(self)@.metas.len() < old(self)@.paths.len(),
        ensures
            final(self).wf(),
            match outcome {
                Err(error) => report == Err::<Option<FileReport>, ErrorCode>(error) && final(self)@
                    == old(self)@,
                Ok((meta, num_rows)) => {
                    &&& final(self)@ == (MetaBatchView {
                        metas: old(self)@.metas.push(meta),
                        ..old(self)@
                    })
                    &&& report matches Ok(made)
                    &&& made is Some == old(self)@.reports_status
                    &&& made matches Some(report) ==> {
                        &&& report.path@ == old(self)@.paths[old(self)@.metas.len() as int]
                        &&& report.status.num_rows_loaded == num_rows as usize
                        &&& report.status.error is None
                    }
                },
            },
    {
        let (meta, num_rows) = match outcome {
            Err(error) => {
                return Err(error);
            },
            Ok(loaded) => loaded,
        };
        let path = self.file_infos[self.metas.len()].0.clone();
        let report = if self.reports_status {
            Some(
                FileReport {
                    path: path.clone(),
                    status: FileStatus { num_rows_loaded: num_rows as usize, error: None },
                },
            )
        } else {
            None
        };
        self.metas.push((path, meta));
        assert(self@.metas =~= old(self)@.metas.push(meta));
        Ok(report)
    }

    /// Hands out the metadata of all the files, each with its path, unless memory runs short.
    pub fn finish(self, max_memory_usage: u64, used: i64) -> (loaded: Result<
        Vec<(String, M)>,
        ErrorCode,
    >)
        requires
            self.wf(),
            self.is_loaded(),
            i64::MIN <= signed_limit(max_memory_usage) - used <= i64::MAX,
        ensures
            loaded is Err == runs_short(max_memory_usage, used),
            match loaded {
                Ok(list) => {
                    &&& list@.len() == self@.paths.len()
                    &&& forall|i: int|
                        0 <= i < list@.len() ==> (#[trigger] list@[i]).0@ == self@.paths[i]
                            && list@[i].1 == self@.metas[i]
                },
                Err(error) => {
                    &&& error.class == ErrorClass::Internal
                    &&& error.message@ == memory_text(max_memory_usage, used)
                },
            },
    {
        match check_memory(max_memory_usage, used) {
            Err(error) => Err(error),
            Ok(()) => Ok(self.metas),
        }
    }
}

/// Every file keeps its path and its size, and its place.
pub proof fn law_locations_are_those_of_the_files(
    files: Vec<StageFileInfo>,
    list: Vec<(String, u64)>,
)
    requires
        call_ensures(file_locations, (&files,), list),
    ensures
        list@.len() == files@.len(),
        forall|i: int|
            0 <= i < files@.len() ==> (#[trigger] list@[i]).0@ == files@[i].path@ && list@[i].1
                == files@[i].size,
{
    assert(location_views(list@).len() == locations(files@).len());
    assert forall|i: int| 0 <= i < files@.len() implies (#[trigger] list@[i]).0@ == files@[i].path@
        && list@[i].1 == files@[i].size by {
        assert(location_views(list@)[i] == locations(files@)[i]);
    }
}

/// The files that a table names are read, all of them and in order. Only where a table names none
/// its storage is asked, with a blocking call where and only where it has one.
pub proof fn law_named_files_are_not_listed(
    files_to_read: Option<Vec<StageFileInfo>>,
    can_blocking: bool,
    listing: FileListing,
)
    requires
        call_ensures(plan_listing, (&files_to_read, can_blocking), listing),
    ensures
        files_to_read is Some == listing is Given,
        (files_to_read is None && can_blocking) == listing is Blocking,
        (files_to_read is None && !can_blocking) == listing is Awaited,
        listing matches FileListing::Given(list) ==> {
            &&& list@.len() == files_to_read->0@.len()
            &&& forall|i: int|
                0 <= i < list@.len() ==> (#[trigger] list@[i]).0@ == files_to_read->0@[i].path@
                    && list@[i].1 == files_to_read->0@[i].size
        },
{
    if let FileListing::Given(list) = listing {
        let files = files_to_read->0;
        assert(location_views(list@).len() == locations(files@).len());
        assert forall|i: int| 0 <= i < list@.len() implies (#[trigger] list@[i]).0@
            == files@[i].path@ && list@[i].1 == files@[i].size by {
            assert(location_views(list@)[i] == locations(files@)[i]);
        }
    }
}

/// The files of a query are reported where its kind is the word "copy", in capital letters, small
/// letters or both, and nowhere else.
pub proof fn law_only_copies_are_reported(query_kind: &str, reports: bool)
    requires
        call_ensures(reports_copy_status, (query_kind,), reports),
    ensures
        reports == {
            &&& query_kind@.len() == 4
            &&& query_kind@[0] == 'c' || query_kind@[0] == 'C'
            &&& query_kind@[1] == 'o' || query_kind@[1] == 'O'
            &&& query_kind@[2] == 'p' || query_kind@[2] == 'P'
            &&& query_kind@[3] == 'y' || query_kind@[3] == 'Y'
        },
{
    reveal_strlit("copy");
    let word = ascii_small_text("copy"@);
    let small = ascii_small_text(query_kind@);
    assert(word =~= seq!['c', 'o', 'p', 'y']);
    if query_kind@.len() == 4 {
        assert(small[0] == ascii_small(query_kind@[0]));
        assert(small[1] == ascii_small(query_kind@[1]));
        assert(small[2] == ascii_small(query_kind@[2]));
        assert(small[3] == ascii_small(query_kind@[3]));
        if small[0] == 'c' && small[1] == 'o' && small[2] == 'p' && small[3] == 'y' {
            assert(small =~= word);
        }
    } else {
        assert(small.len() != word.len());
    }
}

/// Whether a text says that memory ran short, with this limit and this use.
pub open spec fn says_memory(text: Seq<char>, max_memory_usage: u64, used: i64) -> bool {
    exists|limit: Seq<char>, used_text: Seq<char>|
        {
            &&& #[trigger] says(limit, max_memory_usage as int)
            &&& #[trigger] says_signed(used_text, used as int)
            &&& text == "not enough memory to load parquet file metas, max_memory_usage = "@
                + limit + ", used = "@ + used_text + "."@
        }
}

proof fn lemma_memory_text(max_memory_usage: u64, used: i64)
    ensures
        says_memory(memory_text(max_memory_usage, used), max_memory_usage, used),
{
    law_decimal_reads_back(max_memory_usage as nat);
    law_signed_decimal_reads_back(used as int);
}

/// Only the memory that is left counts: a check fails just where less than 100 MiB lie between
/// the use and the limit, a limit that is no signed number being the negative number of the same
/// bits. What is said then names the limit and the use.
pub proof fn law_memory_that_is_left_counts(
    max_memory_usage: u64,
    used: i64,
    checked: Result<(), ErrorCode>,
)
    requires
        call_ensures(check_memory, (max_memory_usage, used), checked),
    ensures
        max_memory_usage <= i64::MAX ==> checked is Err == (max_memory_usage - used
            < 104_857_600),
        max_memory_usage > i64::MAX ==> checked is Err == (max_memory_usage - used
            < 0x1_0000_0000_0000_0000 + 104_857_600),
        checked matches Err(error) ==> error.class is Internal && says_memory(
            error.message@,
            max_memory_usage,
            used,
        ),
{
    lemma_memory_text(max_memory_usage, used);
}

/// A limit and a use that are raised by the same amount leave the outcome of a check as it is.
pub proof fn law_raising_limit_and_use_changes_nothing(
    max_memory_usage: u64,
    used: i64,
    checked: Result<(), ErrorCode>,
    more_max: u64,
    more_used: i64,
    checked_again: Result<(), ErrorCode>,
)
    requires
        call_ensures(check_memory, (max_memory_usage, used), checked),
        call_ensures(check_memory, (more_max, more_used), checked_again),
        max_memory_usage <= more_max <= i64::MAX,
        more_max - max_memory_usage == more_used - used,
    ensures
        checked is Ok == checked_again is Ok,
{
}

/// More memory in use never makes a check that failed succeed.
pub proof fn law_more_use_is_no_better(
    max_memory_usage: u64,
    used: i64,
    checked: Result<(), ErrorCode>,
    more_used: i64,
    checked_again: Result<(), ErrorCode>,
)
    requires
        call_ensures(check_memory, (max_memory_usage, used), checked),
        call_ensures(check_memory, (max_memory_usage, more_used), checked_again),
        used <= more_used,
    ensures
        checked is Err ==> checked_again is Err,
{
}

/// Whether a batch is one of these files, of which the first ones have this metadata.
pub open spec fn has_loaded<M>(
    batch: MetaBatch<M>,
    file_infos: Seq<(String, u64)>,
    metas: Seq<M>,
) -> bool {
    &&& batch@.metas == metas
    &&& batch@.paths.len() == file_infos.len()
    &&& forall|i: int|
        0 <= i < file_infos.len() ==> #[trigger] batch@.paths[i] == file_infos[i].0@
}

/// A new batch is one of its files, of which none is loaded.
pub proof fn law_new_batch_has_loaded_nothing<M>(
    file_infos: Vec<(String, u64)>,
    reports_status: bool,
    batch: MetaBatch<M>,
)
    requires
        call_ensures(MetaBatch::<M>::create, (file_infos, reports_status), batch),
    ensures
        has_loaded(batch, file_infos@, Seq::empty()),
        batch@.reports_status == reports_status,
{
}

/// The files of a batch are loaded in order, each once: the file to load is the first that is not
/// loaded, and there is none just where all are.
pub proof fn law_next_file_is_the_first_that_is_not_loaded<M>(
    batch: MetaBatch<M>,
    file_infos: Seq<(String, u64)>,
    metas: Seq<M>,
    path: Option<&String>,
)
    requires
        call_ensures(MetaBatch::<M>::next_path, (&batch,), path),
        batch.wf(),
        has_loaded(batch, file_infos, metas),
    ensures
        path is None == (metas.len() == file_infos.len()),
        path matches Some(path) ==> path@ == file_infos[metas.len() as int].0@,
{
}

/// A file that was loaded adds its metadata, and is reported under its path with its rows where
/// the files are reported. A file that could not be loaded changes nothing.
pub proof fn law_loaded_file_is_added<M>(
    batch: &mut MetaBatch<M>,
    file_infos: Seq<(String, u64)>,
    metas: Seq<M>,
    outcome: Result<(M, i64), ErrorCode>,
    report: Result<Option<FileReport>, ErrorCode>,
)
    requires
        call_ensures(MetaBatch::<M>::on_loaded, (batch, outcome), report),
        has_loaded(*old(batch), file_infos, metas),
        metas.len() < file_infos.len(),
    ensures
        final(batch)@.reports_status == old(batch)@.reports_status,
        match outcome {
            Err(error) => {
                &&& has_loaded(*final(batch), file_infos, metas)
                &&& report == Err::<Option<FileReport>, ErrorCode>(error)
            },
            Ok((meta, num_rows)) => {
                &&& has_loaded(*final(batch), file_infos, metas.push(meta))
                &&& report is Ok
                &&& report->Ok_0 is Some == old(batch)@.reports_status
                &&& report->Ok_0 matches Some(made) ==> {
                    &&& made.path@ == file_infos[metas.len() as int].0@
                    &&& made.status.error is None
                    &&& 0 <= num_rows <= usize::MAX ==> made.status.num_rows_loaded == num_rows
                    &&& num_rows < 0 ==> made.status.num_rows_loaded == num_rows as usize
                }
            },
        },
{
}

/// A batch that is loaded hands out all its files in order, each under its path with its own
/// metadata, just where 100 MiB of memory are left.
pub proof fn law_finished_batch_has_all_files<M>(
    batch: MetaBatch<M>,
    file_infos: Seq<(String, u64)>,
    metas: Seq<M>,
    max_memory_usage: u64,
    used: i64,
    loaded: Result<Vec<(String, M)>, ErrorCode>,
)
    requires
        call_ensures(MetaBatch::<M>::finish, (batch, max_memory_usage, used), loaded),
        has_loaded(batch, file_infos, metas),
        metas.len() == file_infos.len(),
    ensures
        max_memory_usage <= i64::MAX ==> loaded is Err == (max_memory_usage - used < 104_857_600),
        max_memory_usage > i64::MAX ==> loaded is Err == (max_memory_usage - used
            < 0x1_0000_0000_0000_0000 + 104_857_600),
        match loaded {
            Ok(list) => {
                &&& list@.len() == file_infos.len()
                &&& forall|i: int|
                    0 <= i < file_infos.len() ==> (#[trigger] list@[i]).0@ == file_infos[i].0@
                        && list@[i].1 == metas[i]
            },
            Err(error) => error.class is Internal && says_memory(
                error.message@,
                max_memory_usage,
                used,
            ),
        },
{
    lemma_memory_text(max_memory_usage, used);
}

} // verus!
