use databend_query::error::{ErrorClass, ErrorCode};
use databend_query::partition::{
    checked_prune_and_generate_partitions, prune_and_generate_partitions, FileMeta, PageLocation,
    PartStatistics, PartitionsShuffleKind, PrunedFile, Pruning, RowGroup, SerdePageLocation,
    SerdeRowSelector,
};
use databend_query::row_selection::can_split_off;
use parquet::arrow::arrow_reader::{RowSelection, RowSelector};

fn group(num_rows: i64, total_byte_size: i64, meta: u32) -> RowGroup<u32> {
    RowGroup { num_rows, total_byte_size, meta }
}

fn select(row_count: usize) -> SerdeRowSelector {
    SerdeRowSelector { row_count, skip: false }
}

fn skip(row_count: usize) -> SerdeRowSelector {
    SerdeRowSelector { row_count, skip: true }
}

fn file(
    location: &str,
    row_groups: Vec<RowGroup<u32>>,
    picked: Vec<usize>,
    selection: Option<Vec<RowSelector>>,
) -> PrunedFile<u32> {
    PrunedFile {
        location: location.to_string(),
        meta: FileMeta { row_groups, offset_index: None },
        pruned: Ok(Pruning {
            row_groups: picked,
            selection: selection.map(RowSelection::from),
        }),
    }
}

fn failed(message: &str) -> PrunedFile<u32> {
    PrunedFile {
        location: "failed".to_string(),
        meta: FileMeta { row_groups: vec![], offset_index: None },
        pruned: Err(ErrorCode {
            class: ErrorClass::Internal,
            message: message.to_string(),
        }),
    }
}

#[test]
fn no_files_give_no_partitions() {
    let (stats, parts) = prune_and_generate_partitions::<u32>(vec![]).unwrap();
    assert_eq!(stats, PartStatistics::default_exact());
    assert!(stats.is_exact);
    assert_eq!(parts.kind, PartitionsShuffleKind::Mod);
    assert!(parts.partitions.is_empty());
    assert!(!parts.is_lazy);
}

#[test]
fn without_a_selection_every_picked_group_is_read_whole() {
    let groups = vec![group(10, 100, 7), group(20, 200, 8), group(30, 300, 9)];
    let (stats, parts) =
        prune_and_generate_partitions(vec![file("a", groups, vec![0, 2], None)]).unwrap();
    assert_eq!(
        stats,
        PartStatistics {
            read_rows: 40,
            read_bytes: 400,
            partitions_scanned: 2,
            partitions_total: 3,
            is_exact: true,
        }
    );
    assert_eq!(parts.partitions.len(), 2);
    assert_eq!(parts.partitions[0].meta, 7);
    assert_eq!(parts.partitions[1].meta, 9);
    assert_eq!(parts.partitions[0].location, "a");
    assert_eq!(parts.partitions[0].selectors, None);
    assert_eq!(parts.partitions[0].page_locations, None);
}

#[test]
fn a_group_without_selected_rows_is_left_out() {
    let groups = vec![group(10, 100, 0), group(10, 200, 1), group(10, 300, 2)];
    let selection = vec![
        RowSelector::skip(10),
        RowSelector::select(5),
        RowSelector::skip(5),
        RowSelector::select(10),
    ];
    let (stats, parts) =
        prune_and_generate_partitions(vec![file("a", groups, vec![0, 1, 2], Some(selection))])
            .unwrap();
    assert_eq!(
        stats,
        PartStatistics {
            read_rows: 20,
            read_bytes: 500,
            partitions_scanned: 2,
            partitions_total: 3,
            is_exact: true,
        }
    );
    assert_eq!(parts.partitions[0].meta, 1);
    assert_eq!(parts.partitions[0].selectors, Some(vec![select(5), skip(5)]));
    assert_eq!(parts.partitions[1].meta, 2);
    assert_eq!(parts.partitions[1].selectors, Some(vec![select(10)]));
}

#[test]
fn a_run_over_two_groups_is_cut() {
    let groups = vec![group(4, 1, 0), group(6, 1, 1)];
    let selection = vec![RowSelector::select(7), RowSelector::skip(3)];
    let (_, parts) =
        prune_and_generate_partitions(vec![file("a", groups, vec![0, 1], Some(selection))])
            .unwrap();
    assert_eq!(parts.partitions[0].selectors, Some(vec![select(4)]));
    assert_eq!(parts.partitions[1].selectors, Some(vec![select(3), skip(3)]));
}

#[test]
fn a_selection_that_ends_early_leaves_out_the_rest() {
    let groups = vec![group(4, 1, 0), group(6, 1, 1)];
    let selection = vec![RowSelector::skip(1), RowSelector::select(2)];
    let (stats, parts) =
        prune_and_generate_partitions(vec![file("a", groups, vec![0, 1], Some(selection))])
            .unwrap();
    assert_eq!(stats.partitions_scanned, 1);
    assert_eq!(parts.partitions[0].selectors, Some(vec![skip(1), select(2)]));
}

#[test]
fn a_read_run_of_no_rows_keeps_its_group() {
    let selection = vec![RowSelector::select(0)];
    let (stats, parts) =
        prune_and_generate_partitions(vec![file("a", vec![group(5, 1, 0)], vec![0], Some(selection))])
            .unwrap();
    assert_eq!(stats.partitions_scanned, 1);
    assert_eq!(parts.partitions[0].selectors, Some(vec![select(0)]));
}

#[test]
fn page_locations_go_with_their_group() {
    let page = |offset: i64| PageLocation {
        offset,
        compressed_page_size: 8,
        first_row_index: 2,
    };
    let mut one = file("a", vec![group(1, 1, 0), group(1, 1, 1)], vec![1], None);
    one.meta.offset_index = Some(vec![
        vec![vec![page(1)]],
        vec![vec![page(2), page(3)], vec![]],
    ]);
    let (_, parts) = prune_and_generate_partitions(vec![one]).unwrap();
    let serde = |offset: i64| SerdePageLocation {
        offset,
        compressed_page_size: 8,
        first_row_index: 2,
    };
    assert_eq!(
        parts.partitions[0].page_locations,
        Some(vec![vec![serde(2), serde(3)], vec![]])
    );
}

#[test]
fn the_first_error_of_the_pruner_is_returned() {
    let files = vec![
        file("a", vec![group(1, 1, 0)], vec![0], None),
        failed("first"),
        failed("second"),
    ];
    let error = prune_and_generate_partitions(files).unwrap_err();
    assert_eq!(error.message, "first");
    assert_eq!(error.class, ErrorClass::Internal);
}

#[test]
fn a_longer_list_is_scanned_as_its_parts() {
    let first = || file("a", vec![group(3, 10, 1)], vec![0], None);
    let second = || file("b", vec![group(4, 20, 2), group(5, 30, 3)], vec![1], None);
    let (both_stats, both) = prune_and_generate_partitions(vec![first(), second()]).unwrap();
    let (mut stats, mut one) = prune_and_generate_partitions(vec![first()]).unwrap();
    let (more_stats, two) = prune_and_generate_partitions(vec![second()]).unwrap();
    stats.merge(&more_stats);
    one.partitions.extend(two.partitions);
    assert_eq!(both_stats, stats);
    assert_eq!(both, one);
    assert_eq!(both_stats.read_rows, 8);
    assert_eq!(both_stats.partitions_scanned, both.partitions.len());
}

#[test]
fn merging_keeps_exactness_only_of_both() {
    let mut stats = PartStatistics::default_exact();
    let estimated = PartStatistics { read_rows: 3, is_exact: false, ..stats };
    stats.merge(&estimated);
    assert_eq!(stats, estimated);
}

#[test]
fn a_negative_row_count_is_read_as_unsigned() {
    let (stats, _) =
        prune_and_generate_partitions(vec![file("a", vec![group(-1, 0, 0)], vec![0], None)])
            .unwrap();
    assert_eq!(stats.read_rows, usize::MAX);
}

#[test]
fn a_scan_that_cannot_be_counted_gives_nothing() {
    let out_of_range = file("a", vec![group(1, 1, 0)], vec![1], None);
    assert_eq!(checked_prune_and_generate_partitions(vec![out_of_range]), None);

    let too_many_rows = file("a", vec![group(-1, 0, 0), group(1, 0, 0)], vec![0, 1], None);
    assert_eq!(checked_prune_and_generate_partitions(vec![too_many_rows]), None);

    let too_many_bytes = file("a", vec![group(0, -1, 0), group(0, 1, 0)], vec![0, 1], None);
    assert_eq!(checked_prune_and_generate_partitions(vec![too_many_bytes]), None);

    let selection = vec![RowSelector::select(1), RowSelector::skip(usize::MAX)];
    let uncountable = file("a", vec![group(1, 1, 0)], vec![0], Some(selection));
    assert_eq!(checked_prune_and_generate_partitions(vec![uncountable]), None);

    let mut no_pages = file("a", vec![group(1, 1, 0)], vec![0], None);
    no_pages.meta.offset_index = Some(vec![]);
    assert_eq!(checked_prune_and_generate_partitions(vec![no_pages]), None);

    // A row group that is not read needs no pages.
    let mut unread = file(
        "a",
        vec![group(1, 1, 0)],
        vec![0],
        Some(vec![RowSelector::skip(1)]),
    );
    unread.meta.offset_index = Some(vec![]);
    let (stats, _) = checked_prune_and_generate_partitions(vec![unread]).unwrap().unwrap();
    assert_eq!(stats.partitions_scanned, 0);

    let after_error = vec![failed("first"), file("a", vec![], vec![9], None)];
    let error = checked_prune_and_generate_partitions(after_error).unwrap().unwrap_err();
    assert_eq!(error.message, "first");

    let fine = file("a", vec![group(1, 1, 0)], vec![0], None);
    assert!(checked_prune_and_generate_partitions(vec![fine]).unwrap().is_ok());
}

#[test]
fn runs_behind_a_row_group_need_not_be_countable() {
    let selection = vec![RowSelector::select(usize::MAX), RowSelector::skip(1)];
    let one = file("a", vec![group(1, 7, 3)], vec![0], Some(selection));
    let (stats, parts) = prune_and_generate_partitions(vec![one]).unwrap();
    assert_eq!(stats.partitions_scanned, 1);
    assert_eq!(stats.read_rows, 1);
    assert_eq!(parts.partitions[0].selectors, Some(vec![select(1)]));

    // Nothing is split off where no row group is picked.
    let selection = vec![RowSelector::select(1), RowSelector::skip(usize::MAX)];
    let none = file("a", vec![group(1, 7, 3)], vec![], Some(selection));
    let (stats, _) = prune_and_generate_partitions(vec![none]).unwrap();
    assert_eq!(stats.partitions_scanned, 0);
}

#[test]
fn rows_are_split_off_up_to_the_largest_count() {
    let most = RowSelection::from(vec![RowSelector::select(usize::MAX)]);
    assert!(can_split_off(&most, 0));
    assert!(can_split_off(&most, usize::MAX));
    let more = RowSelection::from(vec![RowSelector::select(usize::MAX), RowSelector::skip(1)]);
    assert!(can_split_off(&more, usize::MAX - 1));
    assert!(!can_split_off(&more, usize::MAX));
    assert!(can_split_off(&RowSelection::from(Vec::<RowSelector>::new()), 5));
}
