//! Spreading the files of a scan over threads, and putting together what the threads made.
use crate::error::ErrorCode;
use crate::partition::{
    law_scan_of_a_longer_list, part_views, pruned_scan, scan_matches, ParquetRSRowGroupPart,
    PartStatistics, PartView, Partitions, PartitionsShuffleKind, PrunedFile, Totals,
};
use vstd::arithmetic::div_mod::{
    lemma_div_is_ordered, lemma_div_multiples_vanish, lemma_div_non_zero, lemma_div_pos_is_pos,
    lemma_fundamental_div_mod, lemma_mod_bound,
};
use vstd::prelude::*;

verus! {

/// The index of the first file of thread `thread`, where `files` files are spread evenly.
pub open spec fn batch_start(files: nat, threads: nat, thread: int) -> int {
    files * thread / threads as int
}

/// The files of thread `thread`.
pub open spec fn batch<T>(files: Seq<T>, threads: nat, thread: int) -> Seq<T> {
    files.subrange(
        batch_start(files.len(), threads, thread),
        batch_start(files.len(), threads, thread + 1),
    )
}

/// The batches of the first `count` threads. A thread without files has no batch.
pub open spec fn batches<T>(files: Seq<T>, threads: nat, count: int) -> Seq<Seq<T>>
    decreases count,
{
    if count <= 0 {
        Seq::empty()
    } else {
        let before = batches(files, threads, count - 1);
        let own = batch(files, threads, count - 1);
        if own.len() == 0 {
            before
        } else {
            before.push(own)
        }
    }
}

/// What a list of batches holds.
pub open spec fn batch_views<T>(list: Seq<Vec<T>>) -> Seq<Seq<T>> {
    list.map_values(|own: Vec<T>| own@)
}

/// The batches start in order, and end with the last file.
proof fn lemma_batch_start(files: nat, threads: nat, thread: int)
    requires
        0 <= thread < threads,
    ensures
        0 <= batch_start(files, threads, thread) <= batch_start(files, threads, thread + 1)
            <= files,
        batch_start(files, threads, 0) == 0,
        batch_start(files, threads, threads as int) == files,
        files * thread <= files * (thread + 1) <= files * threads,
{
    let t = threads as int;
    assert(files * thread <= files * (thread + 1) <= files * threads) by (nonlinear_arith)
        requires
            0 <= thread < threads,
    ;
    assert(0 <= files * thread) by (nonlinear_arith)
        requires
            0 <= thread,
    ;
    lemma_div_is_ordered(files * thread, files * (thread + 1), t);
    lemma_div_is_ordered(files * (thread + 1), files * t, t);
    lemma_div_pos_is_pos(files * thread, t);
    lemma_div_multiples_vanish(files as int, t);
    assert(t * files == files * t) by (nonlinear_arith);
    assert(files * 0 == 0);
    assert(0int / t == 0) by (nonlinear_arith)
        requires
            t > 0,
    ;
}

/// Spreads the files of a scan evenly over threads, in order: one batch of files for each
/// thread that has any.
pub fn plan_batches(file_infos: &Vec<(String, u64)>, num_threads: usize) -> (plan: Vec<
    Vec<(String, u64)>,
>)
    requires
        file_infos@.len() * num_threads <= usize::MAX,
    ensures
        batch_views(plan@) == batches(file_infos@, num_threads as nat, num_threads as int),
{
    let num_files = file_infos.len();
    let mut tasks: Vec<Vec<(String, u64)>> = Vec::new();
    assert(batch_views(tasks@) =~= Seq::empty());
    for i in 0..num_threads
        invariant
            num_files == file_infos@.len(),
            num_files * num_threads <= usize::MAX,
            batch_views(tasks@) == batches(file_infos@, num_threads as nat, i as int),
    {
        proof {
            lemma_batch_start(num_files as nat, num_threads as nat, i as int);
        }
        let begin: usize = num_files * i / num_threads;
        let end: usize = num_files * (i + 1) / num_threads;
        let ghost own = batch(file_infos@, num_threads as nat, i as int);
        if begin != end {
            let mut task: Vec<(String, u64)> = Vec::with_capacity(end - begin);
            for k in begin..end
                invariant
                    0 <= begin <= k <= end <= file_infos@.len(),
                    task@ =~= file_infos@.subrange(begin as int, k as int),
            {
                task.push((file_infos[k].0.clone(), file_infos[k].1));
            }
            let ghost before = tasks@;
            tasks.push(task);
            assert(batch_views(tasks@) =~= batch_views(before).push(own));
        }
    }
    tasks
}

/// The files of the first threads are the first files.
proof fn lemma_batches_flatten<T>(files: Seq<T>, threads: nat, count: int)
    requires
        0 <= count <= threads,
        threads > 0,
    ensures
        batches(files, threads, count).flatten() == files.take(
            batch_start(files.len(), threads, count),
        ),
    decreases count,
{
    lemma_batch_start(files.len(), threads, 0);
    if count == 0 {
        assert(batches(files, threads, count).flatten() =~= files.take(0));
    } else {
        lemma_batch_start(files.len(), threads, count - 1);
        lemma_batches_flatten(files, threads, count - 1);
        let before = batches(files, threads, count - 1);
        let own = batch(files, threads, count - 1);
        before.lemma_flatten_push(own);
        assert(files.take(batch_start(files.len(), threads, count)) =~= files.take(
            batch_start(files.len(), threads, count - 1),
        ) + own);
        if own.len() == 0 {
            assert(before.flatten() + own =~= before.flatten());
        }
    }
}

/// No file is lost, repeated or moved: the batches of all the threads, one behind the other, are
/// the files.
pub proof fn law_batches_hold_the_files<T>(files: Seq<T>, threads: nat)
    requires
        threads > 0,
    ensures
        batches(files, threads, threads as int).flatten() == files,
{
    lemma_batches_flatten(files, threads, threads as int);
    lemma_batch_start(files.len(), threads, 0);
    assert(files.take(files.len() as int) =~= files);
}

/// The files are spread evenly: each thread has as many as any other, or one more; just as many,
/// where the threads can have equal shares.
pub proof fn law_batches_are_even<T>(files: Seq<T>, threads: nat, thread: int)
    requires
        0 <= thread < threads,
    ensures
        files.len() / threads <= batch(files, threads, thread).len() <= files.len() / threads + 1,
        files.len() % threads == 0 ==> batch(files, threads, thread).len() == files.len() / threads,
{
    let n = files.len() as int;
    let t = threads as int;
    lemma_batch_start(files.len(), threads, thread);
    let a = n * thread;
    let b = n * (thread + 1);
    assert(b == a + n) by (nonlinear_arith)
        requires
            a == n * thread,
            b == n * (thread + 1),
    ;
    lemma_fundamental_div_mod(a, t);
    lemma_fundamental_div_mod(b, t);
    lemma_fundamental_div_mod(n, t);
    lemma_mod_bound(a, t);
    lemma_mod_bound(b, t);
    lemma_mod_bound(n, t);
    let d = b / t - a / t - n / t;
    assert(t * d == t * (b / t) - t * (a / t) - t * (n / t)) by (nonlinear_arith)
        requires
            d == b / t - a / t - n / t,
    ;
    assert(-t < t * d < 2 * t);
    assert(0 <= d <= 1) by (nonlinear_arith)
        requires
            t > 0,
            -t < t * d < 2 * t,
    ;
    if n % t == 0 {
        assert(t * d < t);
        assert(d < 1) by (nonlinear_arith)
            requires
                t > 0,
                t * d < t,
        ;
    }
}

/// Which thread has a file depends on the file's place alone: what is made of the files, one by
/// one, is spread over the threads as the files are.
pub proof fn law_batches_go_by_place<T, U>(
    files: Seq<T>,
    threads: nat,
    count: int,
    f: spec_fn(T) -> U,
)
    requires
        0 <= count <= threads,
    ensures
        batches(files.map_values(f), threads, count) == batches(files, threads, count).map_values(
            |own: Seq<T>| own.map_values(f),
        ),
    decreases count,
{
    let of_batch = |own: Seq<T>| own.map_values(f);
    if count > 0 {
        law_batches_go_by_place(files, threads, count - 1, f);
        lemma_batch_start(files.len(), threads, count - 1);
        let before = batches(files, threads, count - 1);
        let own = batch(files, threads, count - 1);
        assert(batch(files.map_values(f), threads, count - 1) =~= own.map_values(f));
        assert(before.push(own).map_values(of_batch) =~= before.map_values(of_batch).push(
            of_batch(own),
        ));
    }
    assert(batches(files.map_values(f), threads, count) =~= batches(
        files,
        threads,
        count,
    ).map_values(of_batch));
}

/// No batch is empty.
pub proof fn law_no_batch_is_empty<T>(files: Seq<T>, threads: nat, count: int, i: int)
    requires
        0 <= i < batches(files, threads, count).len(),
    ensures
        batches(files, threads, count)[i].len() > 0,
    decreases count,
{
    let before = batches(files, threads, count - 1);
    if count > 0 && i < before.len() {
        law_no_batch_is_empty(files, threads, count - 1, i);
        assert(batches(files, threads, count)[i] == before[i]);
    }
}

/// There are as many batches as threads, or as files, where those are fewer.
pub proof fn law_number_of_batches<T>(files: Seq<T>, threads: nat)
    requires
        threads > 0,
    ensures
        batches(files, threads, threads as int).len() == if files.len() < threads {
            files.len()
        } else {
            threads
        },
{
    lemma_number_of_batches(files, threads, threads as int);
    lemma_batch_start(files.len(), threads, 0);
}

proof fn lemma_number_of_batches<T>(files: Seq<T>, threads: nat, count: int)
    requires
        threads > 0,
        0 <= count <= threads,
    ensures
        batches(files, threads, count).len() == if files.len() < threads {
            batch_start(files.len(), threads, count)
        } else {
            count
        },
    decreases count,
{
    lemma_batch_start(files.len(), threads, 0);
    if count > 0 {
        lemma_number_of_batches(files, threads, count - 1);
        lemma_batch_start(files.len(), threads, count - 1);
        law_batches_are_even(files, threads, count - 1);
        let n = files.len() as int;
        let t = threads as int;
        if files.len() < threads {
            assert(n / t == 0) by (nonlinear_arith)
                requires
                    0 <= n < t,
            ;
        } else {
            lemma_div_non_zero(n, t);
        }
    }
}

/// What a scan made, by what it holds.
#[verifier::ext_equal]
pub struct ScanView<G> {
    pub totals: Totals,
    pub is_exact: bool,
    pub kind: PartitionsShuffleKind,
    pub is_lazy: bool,
    pub parts: Seq<PartView<G>>,
}

/// What statistics and partitions hold.
pub open spec fn scan_view<G>(stats: PartStatistics, partitions: Partitions<G>) -> ScanView<G> {
    ScanView {
        totals: stats.totals(),
        is_exact: stats.is_exact,
        kind: partitions.kind,
        is_lazy: partitions.is_lazy,
        parts: part_views(partitions.partitions@),
    }
}

/// The scan of no files.
pub open spec fn empty_scan<G>() -> ScanView<G> {
    ScanView {
        totals: Totals::zero(),
        is_exact: true,
        kind: PartitionsShuffleKind::Mod,
        is_lazy: false,
        parts: Seq::empty(),
    }
}

/// The scans of several batches as one: the first error there is, or the sum of the counts and
/// all the partitions, in the order of the batches, spread as those of the first batch.
pub open spec fn merged<G>(
    scans: Seq<Result<(PartStatistics, Partitions<G>), ErrorCode>>,
) -> Result<ScanView<G>, ErrorCode>
    decreases scans.len(),
{
    if scans.len() == 0 {
        Ok(empty_scan())
    } else {
        match (merged(scans.drop_last()), scans.last()) {
            (Err(error), _) => Err(error),
            (_, Err(error)) => Err(error),
            (Ok(before), Ok((stats, partitions))) => {
                let own = scan_view(stats, partitions);
                if scans.len() == 1 {
                    Ok(own)
                } else {
                    Ok(
                        ScanView {
                            totals: before.totals.plus(own.totals),
                            is_exact: before.is_exact && own.is_exact,
                            kind: before.kind,
                            is_lazy: before.is_lazy,
                            parts: before.parts + own.parts,
                        },
                    )
                }
            },
        }
    }
}

/// An error among the first scans is the outcome of all.
proof fn lemma_merged_error<G>(
    scans: Seq<Result<(PartStatistics, Partitions<G>), ErrorCode>>,
    k: int,
)
    requires
        0 <= k <= scans.len(),
        merged(scans.take(k)) is Err,
    ensures
        merged(scans) == merged(scans.take(k)),
    decreases scans.len(),
{
    if k < scans.len() {
        assert(scans.drop_last().take(k) =~= scans.take(k));
        lemma_merged_error(scans.drop_last(), k);
    } else {
        assert(scans.take(k) =~= scans);
    }
}

/// The counts of the first scans are no larger than those of all.
proof fn lemma_merged_prefix<G>(
    scans: Seq<Result<(PartStatistics, Partitions<G>), ErrorCode>>,
    k: int,
)
    requires
        0 <= k <= scans.len(),
        merged(scans) is Ok,
        merged(scans)->Ok_0.totals.fits(),
    ensures
        merged(scans.take(k)) is Ok,
        merged(scans.take(k))->Ok_0.totals.fits(),
    decreases scans.len(),
{
    if k < scans.len() {
        assert(scans.drop_last().take(k) =~= scans.take(k));
        lemma_merged_prefix(scans.drop_last(), k);
    } else {
        assert(scans.take(k) =~= scans);
    }
}

/// Puts the scans of several batches together: fails with the first error there is, else adds
/// the counts up and lists all the partitions, in the order of the batches.
pub fn merge_scans<G>(
    scans: Vec<Result<(PartStatistics, Partitions<G>), ErrorCode>>,
) -> (scan: Result<(PartStatistics, Partitions<G>), ErrorCode>)
    requires
        merged(scans@) matches Ok(whole) ==> whole.totals.fits(),
    ensures
        match (scan, merged(scans@)) {
            (Ok((stats, partitions)), Ok(whole)) => scan_view(stats, partitions) == whole,
            (Err(error), Err(expected)) => error == expected,
            _ => false,
        },
{
    let ghost all = scans@;
    let mut made: Vec<(PartStatistics, Partitions<G>)> = Vec::new();
    for scan in it: scans
        invariant
            it.seq() == all,
            all == scans@,
            made@.len() == it.index(),
            forall|k: int| 0 <= k < made@.len() ==> all[k] == Ok::<_, ErrorCode>(#[trigger] made@[k]),
            merged(all.take(it.index() as int)) is Ok,
    {
        let ghost k = it.index() as int;
        proof {
            assert(all.take(k + 1).drop_last() =~= all.take(k));
            assert(all.take(k + 1).last() == scan);
        }
        match scan {
            Err(error) => {
                proof {
                    lemma_merged_error(all, k + 1);
                }
                return Err(error);
            },
            Ok(own) => {
                made.push(own);
            },
        }
    }
    assert(all.take(all.len() as int) =~= all);
    let ghost made_all = made@;
    let mut whole: Option<(PartStatistics, Partitions<G>)> = None;
    for own in it: made
        invariant
            it.seq() == made_all,
            made_all.len() == all.len(),
            forall|k: int|
                0 <= k < made_all.len() ==> all[k] == Ok::<_, ErrorCode>(#[trigger] made_all[k]),
            merged(all) is Ok,
            merged(all)->Ok_0.totals.fits(),
            whole is Some == (it.index() > 0),
            whole matches Some((stats, partitions)) ==> merged(all.take(it.index() as int))
                == Ok::<_, ErrorCode>(scan_view(stats, partitions)),
    {
        let ghost k = it.index() as int;
        proof {
            assert(all.take(k + 1).drop_last() =~= all.take(k));
            assert(all.take(k + 1).last() == all[k]);
            assert(all[k] == Ok::<_, ErrorCode>(made_all[k]));
            lemma_merged_prefix(all, k);
            lemma_merged_prefix(all, k + 1);
        }
        whole = match whole {
            None => Some(own),
            Some((mut stats_acc, mut parts_acc)) => {
                let (stats, mut parts) = own;
                let ghost parts0 = parts_acc.partitions@;
                let ghost more = parts.partitions@;
                stats_acc.merge(&stats);
                parts_acc.partitions.append(&mut parts.partitions);
                assert(part_views(parts_acc.partitions@) =~= part_views(parts0) + part_views(more));
                Some((stats_acc, parts_acc))
            },
        };
    }
    match whole {
        Some(scan) => Ok(scan),
        None => {
            let none: Vec<ParquetRSRowGroupPart<G>> = Vec::new();
            assert(part_views(none@) =~= Seq::empty());
            Ok(
                (
                    PartStatistics::default_exact(),
                    Partitions::create_nolazy(PartitionsShuffleKind::Mod, none),
                ),
            )
        },
    }
}

/// Tells whether the counts of several scans can be added up. Where one of the scans failed
/// there is nothing to add.
pub fn can_merge_scans<G>(
    scans: &Vec<Result<(PartStatistics, Partitions<G>), ErrorCode>>,
) -> (can: bool)
    ensures
        can == (merged(scans@) matches Ok(whole) ==> whole.totals.fits()),
{
    let ghost all = scans@;
    for i in 0..scans.len()
        invariant
            all == scans@,
            merged(all.take(i as int)) is Ok,
    {
        proof {
            assert(all.take(i + 1).drop_last() =~= all.take(i as int));
            assert(all.take(i + 1).last() == all[i as int]);
        }
        if scans[i].is_err() {
            proof {
                lemma_merged_error(all, i + 1);
            }
            return true;
        }
    }
    assert(all.take(all.len() as int) =~= all);
    let mut sum = PartStatistics::default_exact();
    for i in 0..scans.len()
        invariant
            all == scans@,
            merged(all) is Ok,
            merged(all.take(i as int)) is Ok,
            merged(all.take(i as int))->Ok_0.totals == sum.totals(),
    {
        proof {
            assert(all.take(i + 1).drop_last() =~= all.take(i as int));
            assert(all.take(i + 1).last() == all[i as int]);
            if merged(all.take(i + 1)) is Err {
                lemma_merged_error(all, i + 1);
            }
            if merged(all)->Ok_0.totals.fits() {
                lemma_merged_prefix(all, i + 1);
            }
        }
        if let Ok((stats, _)) = &scans[i] {
            match (
                sum.read_rows.checked_add(stats.read_rows),
                sum.read_bytes.checked_add(stats.read_bytes),
                sum.partitions_scanned.checked_add(stats.partitions_scanned),
                sum.partitions_total.checked_add(stats.partitions_total),
            ) {
                (Some(rows), Some(bytes), Some(scanned), Some(total)) => {
                    sum = PartStatistics {
                        read_rows: rows,
                        read_bytes: bytes,
                        partitions_scanned: scanned,
                        partitions_total: total,
                        is_exact: true,
                    };
                },
                _ => {
                    return false;
                },
            }
        }
    }
    true
}

/// Whether what was put together is what a scan of the files gives.
pub open spec fn merged_matches<G>(
    whole: Result<ScanView<G>, ErrorCode>,
    expected: Result<(Totals, Seq<PartView<G>>), ErrorCode>,
) -> bool {
    match (whole, expected) {
        (Ok(view), Ok((totals, parts))) => view == (ScanView { totals, parts, ..empty_scan() }),
        (Err(error), Err(expected_error)) => error == expected_error,
        _ => false,
    }
}

/// Scanning batches of files and putting the scans together gives what scanning all the files,
/// batch behind batch, gives: the same counts, the same partitions in the same order, or the
/// same error.
pub proof fn law_batches_scan_as_one<G>(
    parts_of_files: Seq<Seq<PrunedFile<G>>>,
    scans: Seq<Result<(PartStatistics, Partitions<G>), ErrorCode>>,
)
    requires
        scans.len() == parts_of_files.len(),
        forall|i: int|
            0 <= i < scans.len() ==> scan_matches(
                #[trigger] scans[i],
                pruned_scan(parts_of_files[i]),
            ),
    ensures
        merged_matches(merged(scans), pruned_scan(parts_of_files.flatten())),
    decreases scans.len(),
{
    if scans.len() == 0 {
        assert(parts_of_files.flatten() =~= Seq::empty());
    } else {
        let before = parts_of_files.drop_last();
        let last = parts_of_files.last();
        assert(before.push(last) =~= parts_of_files);
        assert forall|i: int| 0 <= i < scans.drop_last().len() implies scan_matches(
            #[trigger] scans.drop_last()[i],
            pruned_scan(before[i]),
        ) by {
            assert(scan_matches(scans[i], pruned_scan(parts_of_files[i])));
        }
        law_batches_scan_as_one(before, scans.drop_last());
        before.lemma_flatten_push(last);
        law_scan_of_a_longer_list(before.flatten(), last);
        assert(scan_matches(scans[scans.len() - 1], pruned_scan(last)));
        if scans.len() == 1 {
            assert(before.flatten() =~= Seq::empty());
            assert(merged(scans.drop_last()) == Ok::<ScanView<G>, ErrorCode>(empty_scan()));
            if pruned_scan(last) is Ok {
                assert(Seq::empty() + pruned_scan(last)->Ok_0.1 =~= pruned_scan(last)->Ok_0.1);
            }
        }
    }
}

/// The number of threads does not matter: spread over any number of threads, the files are
/// scanned as one thread would scan them.
pub proof fn law_threads_do_not_matter<G>(
    files: Seq<PrunedFile<G>>,
    threads: nat,
    scans: Seq<Result<(PartStatistics, Partitions<G>), ErrorCode>>,
)
    requires
        threads > 0,
        scans.len() == batches(files, threads, threads as int).len(),
        forall|i: int|
            0 <= i < scans.len() ==> scan_matches(
                #[trigger] scans[i],
                pruned_scan(batches(files, threads, threads as int)[i]),
            ),
    ensures
        merged_matches(merged(scans), pruned_scan(files)),
{
    law_batches_hold_the_files(files, threads);
    law_batches_scan_as_one(batches(files, threads, threads as int), scans);
}

/// The plan of a scan does not matter: where each batch of the plan for a number of threads is
/// scanned as its files read, the scans put together are the scan of all the files, as they
/// read, in the order in which they were listed.
pub proof fn law_plan_does_not_matter<G>(
    file_infos: Seq<(String, u64)>,
    threads: nat,
    plan: Seq<Vec<(String, u64)>>,
    read: spec_fn((String, u64)) -> PrunedFile<G>,
    scans: Seq<Result<(PartStatistics, Partitions<G>), ErrorCode>>,
)
    requires
        threads > 0,
        batch_views(plan) == batches(file_infos, threads, threads as int),
        scans.len() == plan.len(),
        forall|i: int|
            0 <= i < scans.len() ==> scan_matches(
                #[trigger] scans[i],
                pruned_scan(plan[i]@.map_values(read)),
            ),
    ensures
        merged_matches(merged(scans), pruned_scan(file_infos.map_values(read))),
{
    let files = file_infos.map_values(read);
    let spread = batches(files, threads, threads as int);
    law_batches_go_by_place(file_infos, threads, threads as int, read);
    assert forall|i: int| 0 <= i < scans.len() implies scan_matches(
        #[trigger] scans[i],
        pruned_scan(spread[i]),
    ) by {
        assert(batch_views(plan)[i] == plan[i]@);
        assert(spread[i] == plan[i]@.map_values(read));
    }
    assert(batch_views(plan).len() == plan.len());
    law_threads_do_not_matter(files, threads, scans);
}

/// The first batches of so many files that each thread has some are those of the first threads.
proof fn lemma_batches_of_many<T>(files: Seq<T>, threads: nat, count: int)
    requires
        0 < threads <= files.len(),
        0 <= count <= threads,
    ensures
        batches(files, threads, count).len() == count,
        forall|b: int|
            0 <= b < count ==> #[trigger] batches(files, threads, count)[b] == batch(
                files,
                threads,
                b,
            ),
    decreases count,
{
    if count > 0 {
        lemma_batches_of_many(files, threads, count - 1);
        law_batches_are_even(files, threads, count - 1);
        lemma_div_non_zero(files.len() as int, threads as int);
    }
}

/// The first batches of fewer files than threads are the first files, one by one.
proof fn lemma_batches_of_few<T>(files: Seq<T>, threads: nat, count: int)
    requires
        files.len() < threads,
        0 <= count <= threads,
    ensures
        batches(files, threads, count).len() == batch_start(files.len(), threads, count),
        forall|b: int|
            0 <= b < batches(files, threads, count).len() ==> #[trigger] batches(
                files,
                threads,
                count,
            )[b] == files.subrange(b, b + 1),
    decreases count,
{
    lemma_batch_start(files.len(), threads, 0);
    if count > 0 {
        lemma_batches_of_few(files, threads, count - 1);
        law_batches_are_even(files, threads, count - 1);
        lemma_batch_start(files.len(), threads, count - 1);
        let n = files.len() as int;
        let t = threads as int;
        assert(n / t == 0) by (nonlinear_arith)
            requires
                0 <= n < t,
        ;
    }
}

/// A plan cuts the list of the files into slices. Where there are fewer files than threads each
/// file is a batch of its own. Else the batch of a thread starts at the last file whose index is
/// no larger than the thread's share of the files, and ends where the next thread's starts.
pub proof fn law_plan_cuts_the_list(
    file_infos: Vec<(String, u64)>,
    num_threads: usize,
    plan: Vec<Vec<(String, u64)>>,
    b: int,
    start: int,
    end: int,
)
    requires
        call_ensures(plan_batches, (&file_infos, num_threads), plan),
    ensures
        num_threads == 0 ==> plan@.len() == 0,
        num_threads > 0 ==> plan@.len() == if file_infos@.len() < num_threads {
            file_infos@.len()
        } else {
            num_threads as nat
        },
        file_infos@.len() < num_threads && 0 <= b < plan@.len() ==> plan@[b]@ == seq![
            file_infos@[b],
        ],
        0 < num_threads <= file_infos@.len() && 0 <= b < num_threads && start * num_threads
            <= file_infos@.len() * b < (start + 1) * num_threads && end * num_threads
            <= file_infos@.len() * (b + 1) < (end + 1) * num_threads ==> {
            &&& 0 <= start < end <= file_infos@.len()
            &&& plan@[b]@ == file_infos@.subrange(start, end)
        },
{
    let files = file_infos@;
    let threads = num_threads as nat;
    assert(batch_views(plan@).len() == plan@.len());
    if threads > 0 {
        law_number_of_batches(files, threads);
        if 0 <= b < plan@.len() {
            assert(batch_views(plan@)[b] == plan@[b]@);
            if files.len() < threads {
                lemma_batches_of_few(files, threads, threads as int);
                assert(files.subrange(b, b + 1) =~= seq![files[b]]);
            } else {
                lemma_batches_of_many(files, threads, threads as int);
                lemma_batch_start(files.len(), threads, b);
                law_no_batch_is_empty(files, threads, threads as int, b);
                let n = files.len() as int;
                let t = threads as int;
                if start * t <= n * b < (start + 1) * t {
                    lemma_quotient(n * b, t, start);
                }
                if end * t <= n * (b + 1) < (end + 1) * t {
                    lemma_quotient(n * (b + 1), t, end);
                }
            }
        }
    }
}

/// A quotient is the only number that lies as close below the fraction.
proof fn lemma_quotient(a: int, d: int, q: int)
    requires
        d > 0,
        q * d <= a < (q + 1) * d,
    ensures
        a / d == q,
{
    lemma_fundamental_div_mod(a, d);
    lemma_mod_bound(a, d);
    let p = a / d;
    assert(p == q) by (nonlinear_arith)
        requires
            d > 0,
            q * d <= a < (q + 1) * d,
            a == d * p + a % d,
            0 <= a % d < d,
    ;
}

/// The sum of a count over scans that did not fail.
pub open spec fn sum_of<G>(
    scans: Seq<Result<(PartStatistics, Partitions<G>), ErrorCode>>,
    count: spec_fn(PartStatistics) -> int,
) -> int
    decreases scans.len(),
{
    if scans.len() == 0 {
        0
    } else {
        sum_of(scans.drop_last(), count) + count(scans.last()->Ok_0.0)
    }
}

/// The number of the partitions of scans that did not fail.
pub open spec fn number_of_parts<G>(
    scans: Seq<Result<(PartStatistics, Partitions<G>), ErrorCode>>,
) -> int
    decreases scans.len(),
{
    if scans.len() == 0 {
        0
    } else {
        number_of_parts(scans.drop_last()) + scans.last()->Ok_0.1.partitions@.len()
    }
}

/// Whether this is what the scans of several batches come to. The first error there is is the
/// outcome. Else each count is the sum of that count over the scans, exact where all are, and
/// the partitions of the scans stand one scan behind the other, each at its place.
pub open spec fn comes_to<G>(
    scans: Seq<Result<(PartStatistics, Partitions<G>), ErrorCode>>,
    scan: Result<(PartStatistics, Partitions<G>), ErrorCode>,
) -> bool {
    match scan {
        Err(error) => exists|k: int|
            {
                &&& 0 <= k < scans.len()
                &&& (#[trigger] scans[k]) is Err
                &&& scans[k]->Err_0 == error
                &&& forall|j: int| 0 <= j < k ==> (#[trigger] scans[j]) is Ok
            },
        Ok((stats, partitions)) => {
            &&& forall|k: int| 0 <= k < scans.len() ==> (#[trigger] scans[k]) is Ok
            &&& stats.read_rows == sum_of(scans, |s: PartStatistics| s.read_rows as int)
            &&& stats.read_bytes == sum_of(scans, |s: PartStatistics| s.read_bytes as int)
            &&& stats.partitions_scanned == sum_of(
                scans,
                |s: PartStatistics| s.partitions_scanned as int,
            )
            &&& stats.partitions_total == sum_of(
                scans,
                |s: PartStatistics| s.partitions_total as int,
            )
            &&& stats.is_exact == forall|k: int|
                0 <= k < scans.len() ==> (#[trigger] scans[k])->Ok_0.0.is_exact
            &&& scans.len() == 0 ==> partitions.kind is Mod && !partitions.is_lazy
            &&& scans.len() > 0 ==> partitions.kind == scans[0]->Ok_0.1.kind
                && partitions.is_lazy == scans[0]->Ok_0.1.is_lazy
            &&& partitions.partitions@.len() == number_of_parts(scans)
            &&& forall|k: int, j: int|
                0 <= k < scans.len() && 0 <= j < scans[k]->Ok_0.1.partitions@.len()
                    ==> partitions.partitions@[number_of_parts(scans.take(k)) + j]@
                    == #[trigger] scans[k]->Ok_0.1.partitions@[j]@
        },
    }
}

/// Scans that are put together lose nothing, repeat nothing and move nothing.
pub proof fn law_merging_keeps_every_partition<G>(
    scans: Vec<Result<(PartStatistics, Partitions<G>), ErrorCode>>,
    scan: Result<(PartStatistics, Partitions<G>), ErrorCode>,
)
    requires
        call_ensures(merge_scans::<G>, (scans,), scan),
    ensures
        comes_to(scans@, scan),
{
    match scan {
        Err(error) => {
            let k = lemma_first_failed(scans@);
            assert(scans@[k] is Err);
        },
        Ok((stats, partitions)) => {
            lemma_merged_counts(scans@);
            let whole = scan_view(stats, partitions);
            assert(whole.totals.read_rows == stats.read_rows);
            assert forall|k: int, j: int|
                0 <= k < scans@.len() && 0 <= j < scans@[k]->Ok_0.1.partitions@.len() implies
                partitions.partitions@[number_of_parts(scans@.take(k)) + j]@
                == #[trigger] scans@[k]->Ok_0.1.partitions@[j]@ by {
                lemma_merged_part(scans@, k, j);
                assert(whole.parts[number_of_parts(scans@.take(k)) + j]
                    == partitions.partitions@[number_of_parts(scans@.take(k)) + j]@);
            }
        },
    }
}

/// Scans can be put together where one of them failed, or each sum of their counts is a `usize`,
/// and nowhere else.
pub proof fn law_scans_that_can_be_merged<G>(
    scans: Vec<Result<(PartStatistics, Partitions<G>), ErrorCode>>,
    can: bool,
)
    requires
        call_ensures(can_merge_scans::<G>, (&scans,), can),
    ensures
        can == ((forall|k: int| 0 <= k < scans@.len() ==> (#[trigger] scans@[k]) is Ok) ==> {
            &&& sum_of(scans@, |s: PartStatistics| s.read_rows as int) <= usize::MAX
            &&& sum_of(scans@, |s: PartStatistics| s.read_bytes as int) <= usize::MAX
            &&& sum_of(scans@, |s: PartStatistics| s.partitions_scanned as int) <= usize::MAX
            &&& sum_of(scans@, |s: PartStatistics| s.partitions_total as int) <= usize::MAX
        }),
{
    if merged(scans@) is Err {
        let k = lemma_first_failed(scans@);
        assert(scans@[k] is Err);
    } else {
        lemma_merged_counts(scans@);
    }
}

proof fn lemma_first_failed<G>(
    scans: Seq<Result<(PartStatistics, Partitions<G>), ErrorCode>>,
) -> (k: int)
    requires
        merged(scans) is Err,
    ensures
        0 <= k < scans.len(),
        scans[k] is Err,
        scans[k]->Err_0 == merged(scans)->Err_0,
        forall|j: int| 0 <= j < k ==> (#[trigger] scans[j]) is Ok,
    decreases scans.len(),
{
    let before = scans.drop_last();
    if merged(before) is Err {
        let k = lemma_first_failed(before);
        assert forall|j: int| 0 <= j < k implies (#[trigger] scans[j]) is Ok by {
            assert(before[j] == scans[j]);
        }
        k
    } else {
        lemma_merged_counts(before);
        assert forall|j: int| 0 <= j < scans.len() - 1 implies (#[trigger] scans[j]) is Ok by {
            assert(before[j] == scans[j]);
        }
        scans.len() - 1
    }
}

proof fn lemma_merged_counts<G>(scans: Seq<Result<(PartStatistics, Partitions<G>), ErrorCode>>)
    requires
        merged(scans) is Ok,
    ensures
        forall|k: int| 0 <= k < scans.len() ==> (#[trigger] scans[k]) is Ok,
        ({
            let whole = merged(scans)->Ok_0;
            &&& whole.totals.read_rows == sum_of(scans, |s: PartStatistics| s.read_rows as int)
            &&& whole.totals.read_bytes == sum_of(scans, |s: PartStatistics| s.read_bytes as int)
            &&& whole.totals.partitions_scanned == sum_of(
                scans,
                |s: PartStatistics| s.partitions_scanned as int,
            )
            &&& whole.totals.partitions_total == sum_of(
                scans,
                |s: PartStatistics| s.partitions_total as int,
            )
            &&& whole.is_exact == forall|k: int|
                0 <= k < scans.len() ==> (#[trigger] scans[k])->Ok_0.0.is_exact
            &&& scans.len() == 0 ==> whole.kind is Mod && !whole.is_lazy
            &&& scans.len() > 0 ==> whole.kind == scans[0]->Ok_0.1.kind && whole.is_lazy
                == scans[0]->Ok_0.1.is_lazy
            &&& whole.parts.len() == number_of_parts(scans)
        }),
    decreases scans.len(),
{
    if scans.len() > 0 {
        let before = scans.drop_last();
        lemma_merged_counts(before);
        assert forall|k: int| 0 <= k < scans.len() implies (#[trigger] scans[k]) is Ok by {
            if k < before.len() {
                assert(before[k] == scans[k]);
            }
        }
        if forall|k: int| 0 <= k < scans.len() ==> (#[trigger] scans[k])->Ok_0.0.is_exact {
            assert forall|k: int| 0 <= k < before.len() implies (
            #[trigger] before[k])->Ok_0.0.is_exact by {
                assert(scans[k]->Ok_0.0.is_exact);
            }
            assert(scans[scans.len() - 1]->Ok_0.0.is_exact);
        }
        if merged(scans)->Ok_0.is_exact {
            assert forall|k: int| 0 <= k < scans.len() implies (
            #[trigger] scans[k])->Ok_0.0.is_exact by {
                if k < before.len() {
                    assert(before[k] == scans[k]);
                }
            }
        }
        if scans.len() == 1 {
            assert(sum_of(before, |s: PartStatistics| s.read_rows as int) == 0);
            assert(sum_of(before, |s: PartStatistics| s.read_bytes as int) == 0);
            assert(sum_of(before, |s: PartStatistics| s.partitions_scanned as int) == 0);
            assert(sum_of(before, |s: PartStatistics| s.partitions_total as int) == 0);
        } else {
            assert(before[0] == scans[0]);
        }
    }
}

proof fn lemma_merged_part<G>(
    scans: Seq<Result<(PartStatistics, Partitions<G>), ErrorCode>>,
    k: int,
    j: int,
)
    requires
        merged(scans) is Ok,
        0 <= k < scans.len(),
        0 <= j < scans[k]->Ok_0.1.partitions@.len(),
    ensures
        0 <= number_of_parts(scans.take(k)) + j < number_of_parts(scans),
        merged(scans)->Ok_0.parts[number_of_parts(scans.take(k)) + j]
            == scans[k]->Ok_0.1.partitions@[j]@,
    decreases scans.len(),
{
    let before = scans.drop_last();
    let own = part_views(scans.last()->Ok_0.1.partitions@);
    lemma_merged_counts(before);
    lemma_merged_counts(scans);
    if k < before.len() {
        lemma_merged_part(before, k, j);
        assert(before.take(k) =~= scans.take(k));
    } else {
        assert(scans.take(k) =~= before);
        assert(own[j] == scans[k]->Ok_0.1.partitions@[j]@);
        if scans.len() == 1 {
            assert(number_of_parts(before) == 0);
        }
    }
}

} // verus!
