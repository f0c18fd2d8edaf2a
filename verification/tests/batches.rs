use databend_query::batches::{can_merge_scans, merge_scans, plan_batches};
use databend_query::error::{ErrorClass, ErrorCode};
use databend_query::partition::{
    prune_and_generate_partitions, FileMeta, PartStatistics, Partitions, PartitionsShuffleKind,
    PrunedFile, Pruning, RowGroup,
};

type Scan = Result<(PartStatistics, Partitions<u32>), ErrorCode>;

fn infos(count: u64) -> Vec<(String, u64)> {
    (0..count).map(|i| (format!("f{}", i), i)).collect()
}

fn sizes(count: u64, threads: usize) -> Vec<usize> {
    plan_batches(&infos(count), threads).iter().map(|b| b.len()).collect()
}

fn pruned(info: &(String, u64)) -> PrunedFile<u32> {
    PrunedFile {
        location: info.0.clone(),
        meta: FileMeta {
            row_groups: vec![RowGroup {
                num_rows: info.1 as i64,
                total_byte_size: 2 * info.1 as i64,
                meta: info.1 as u32,
            }],
            offset_index: None,
        },
        pruned: Ok(Pruning { row_groups: vec![0], selection: None }),
    }
}

fn scan(files: &[(String, u64)]) -> Scan {
    prune_and_generate_partitions(files.iter().map(pruned).collect())
}

fn error(message: &str) -> Scan {
    Err(ErrorCode { class: ErrorClass::Other(7), message: message.to_string() })
}

#[test]
fn files_are_spread_evenly() {
    assert_eq!(sizes(10, 4), vec![2, 3, 2, 3]);
    assert_eq!(sizes(8, 4), vec![2, 2, 2, 2]);
    assert_eq!(sizes(5, 1), vec![5]);
}

#[test]
fn batches_go_by_the_places_of_the_files() {
    let other: Vec<(String, u64)> = (0..10).map(|_| ("same".to_string(), 1)).collect();
    let lengths = |plan: Vec<Vec<(String, u64)>>| -> Vec<usize> {
        plan.iter().map(|b| b.len()).collect()
    };
    assert_eq!(lengths(plan_batches(&other, 4)), sizes(10, 4));
}

#[test]
fn no_batch_is_empty() {
    assert_eq!(sizes(3, 8), vec![1, 1, 1]);
    assert_eq!(sizes(0, 8), Vec::<usize>::new());
}

#[test]
fn no_threads_take_no_files() {
    assert_eq!(sizes(3, 0), Vec::<usize>::new());
}

#[test]
fn batches_hold_the_files_in_order() {
    for threads in 1..12 {
        let joined: Vec<(String, u64)> =
            plan_batches(&infos(10), threads).into_iter().flatten().collect();
        assert_eq!(joined, infos(10));
    }
}

#[test]
fn the_number_of_threads_does_not_matter() {
    let whole = scan(&infos(10));
    for threads in 1..12 {
        let scans: Vec<Scan> =
            plan_batches(&infos(10), threads).iter().map(|b| scan(b)).collect();
        assert!(can_merge_scans(&scans));
        assert_eq!(merge_scans(scans), whole);
    }
    assert_eq!(whole.unwrap().0.read_rows, 45);
}

#[test]
fn nothing_merges_to_an_empty_scan() {
    let (stats, parts) = merge_scans::<u32>(vec![]).unwrap();
    assert_eq!(stats, PartStatistics::default_exact());
    assert!(parts.partitions.is_empty());
    assert_eq!(parts.kind, PartitionsShuffleKind::Mod);
    assert!(!parts.is_lazy);
}

#[test]
fn the_first_error_of_a_batch_is_returned() {
    let scans = vec![scan(&infos(2)), error("first"), error("second")];
    assert_eq!(merge_scans(scans), error("first"));
}

#[test]
fn the_first_batch_says_how_partitions_are_spread() {
    let mut lazy = scan(&infos(2)).unwrap();
    lazy.1.is_lazy = true;
    let (_, parts) = merge_scans(vec![Ok(lazy), scan(&infos(3))]).unwrap();
    assert!(parts.is_lazy);
    assert_eq!(parts.partitions.len(), 5);
    let (_, single) = merge_scans(vec![scan(&infos(1))]).unwrap();
    assert!(!single.is_lazy);
}

#[test]
fn counts_that_are_too_large_cannot_be_merged() {
    let mut large = scan(&infos(1)).unwrap();
    large.0.read_bytes = usize::MAX;
    let mut small = scan(&infos(1)).unwrap();
    small.0.read_bytes = 1;
    assert!(!can_merge_scans(&vec![Ok(large), Ok(small)]));
    let mut with_error = scan(&infos(1)).unwrap();
    with_error.0.read_bytes = usize::MAX;
    let mut one = scan(&infos(1)).unwrap();
    one.0.read_bytes = 1;
    assert!(can_merge_scans(&vec![Ok(with_error), Ok(one), error("e")]));
}
