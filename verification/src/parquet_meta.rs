//! Checking the metadata of a Parquet file, and reading what a scan needs out of it.
use crate::error::{ErrorClass, ErrorCode};
use crate::partition::{FileMeta, PageLocation, RowGroup};
use crate::schema::{
    check_parquet_schema, lemma_mismatch, mismatch_text, says_mismatch, schema_text,
};
use parquet::file::metadata::ParquetMetaData;
use parquet::schema::types::SchemaDescriptor;
use vstd::prelude::*;

verus! {

/// `parquet`'s metadata of a file: the row groups of the file, and what is known of each.
#[verifier::external_type_specification]
#[verifier::external_body]
pub struct ExParquetMetaData(ParquetMetaData);

/// The row groups that the metadata holds: of each its number of rows and its size in bytes.
pub uninterp spec fn row_group_sizes(meta: ParquetMetaData) -> Seq<(i64, i64)>;

/// Where the pages lie, for each row group that the metadata holds and each of its columns.
pub uninterp spec fn page_index(meta: ParquetMetaData) -> Option<Seq<Seq<Seq<PageLocation>>>>;

/// The schema descriptor that the metadata holds.
pub uninterp spec fn file_schema(meta: ParquetMetaData) -> SchemaDescriptor;

/// The number of rows of the file, as the metadata says it.
pub uninterp spec fn file_rows(meta: ParquetMetaData) -> i64;

/// What an offset index holds.
pub open spec fn index_view(index: Option<Vec<Vec<Vec<PageLocation>>>>) -> Option<
    Seq<Seq<Seq<PageLocation>>>,
> {
    match index {
        Some(groups) => Some(
            groups@.map_values(
                |columns: Vec<Vec<PageLocation>>|
                    columns@.map_values(|pages: Vec<PageLocation>| pages@),
            ),
        ),
        None => None,
    }
}

/// Calls `ParquetMetaData::num_row_groups`, which counts the row groups.
#[verifier::external_body]
fn num_row_groups(meta: &ParquetMetaData) -> (count: usize)
    ensures
        count == row_group_sizes(*meta).len(),
{
    meta.num_row_groups()
}

/// Calls `RowGroupMetaData::num_rows` on a row group of the metadata. There has to be such a row
/// group.
#[verifier::external_body]
fn num_rows(meta: &ParquetMetaData, group: usize) -> (rows: i64)
    requires
        group < row_group_sizes(*meta).len(),
    ensures
        rows == row_group_sizes(*meta)[group as int].0,
{
    meta.row_group(group).num_rows()
}

/// Calls `RowGroupMetaData::total_byte_size` on a row group of the metadata. There has to be such
/// a row group.
#[verifier::external_body]
fn total_byte_size(meta: &ParquetMetaData, group: usize) -> (bytes: i64)
    requires
        group < row_group_sizes(*meta).len(),
    ensures
        bytes == row_group_sizes(*meta)[group as int].1,
{
    meta.row_group(group).total_byte_size()
}

/// Calls `ParquetMetaData::offset_index`, and hands each page location out by its three fields.
#[verifier::external_body]
fn offset_index(meta: &ParquetMetaData) -> (index: Option<Vec<Vec<Vec<PageLocation>>>>)
    ensures
        index_view(index) == page_index(*meta),
{
    let page = |p: &parquet::format::PageLocation| PageLocation {
        offset: p.offset,
        compressed_page_size: p.compressed_page_size,
        first_row_index: p.first_row_index,
    };
    let column = |pages: &Vec<_>| pages.iter().map(page).collect();
    let group = |columns: &Vec<Vec<_>>| columns.iter().map(column).collect();
    meta.offset_index().map(|groups| groups.iter().map(group).collect())
}

/// Calls `FileMetaData::schema_descr` on the file's part of the metadata, which hands the schema
/// descriptor out.
#[verifier::external_body]
fn schema_descr(meta: &ParquetMetaData) -> (schema: &SchemaDescriptor)
    ensures
        *schema == file_schema(*meta),
{
    meta.file_metadata().schema_descr()
}

/// Calls `FileMetaData::num_rows` on the file's part of the metadata, which hands the number of
/// rows out.
#[verifier::external_body]
fn num_file_rows(meta: &ParquetMetaData) -> (rows: i64)
    ensures
        rows == file_rows(*meta),
{
    meta.file_metadata().num_rows()
}

/// Checks that the metadata that was loaded of the file at `path` has the schema that the table
/// took from the file `schema_from`, and gives the number of rows that it says.
pub fn check_loaded_meta(
    expect: &SchemaDescriptor,
    meta: &ParquetMetaData,
    path: &str,
    schema_from: &str,
) -> (checked: Result<i64, ErrorCode>)
    ensures
        checked is Ok == (*expect == file_schema(*meta)),
        checked matches Ok(rows) ==> rows == file_rows(*meta),
        checked matches Err(error) ==> {
            &&& error.class == ErrorClass::TableSchemaMismatch
            &&& error.message@ == mismatch_text(
                schema_from@,
                path@,
                schema_text(*expect),
                schema_text(file_schema(*meta)),
            )
        },
{
    match check_parquet_schema(expect, schema_descr(meta), path, schema_from) {
        Err(error) => Err(error),
        Ok(()) => Ok(num_file_rows(meta)),
    }
}

/// What a scan needs of the metadata of a file. The metadata of a row group is known by the row
/// group's index.
pub fn read_file_meta(meta: &ParquetMetaData) -> (read: FileMeta<usize>)
    ensures
        read.row_groups@ == Seq::new(
            row_group_sizes(*meta).len(),
            |i: int|
                RowGroup {
                    num_rows: row_group_sizes(*meta)[i].0,
                    total_byte_size: row_group_sizes(*meta)[i].1,
                    meta: i as usize,
                },
        ),
        index_view(read.offset_index) == page_index(*meta),
{
    let count = num_row_groups(meta);
    let mut row_groups: Vec<RowGroup<usize>> = Vec::with_capacity(count);
    for i in 0..count
        invariant
            count == row_group_sizes(*meta).len(),
            row_groups@.len() == i,
            forall|k: int|
                0 <= k < i ==> #[trigger] row_groups@[k] == (RowGroup {
                    num_rows: row_group_sizes(*meta)[k].0,
                    total_byte_size: row_group_sizes(*meta)[k].1,
                    meta: k as usize,
                }),
    {
        row_groups.push(
            RowGroup {
                num_rows: num_rows(meta, i),
                total_byte_size: total_byte_size(meta, i),
                meta: i,
            },
        );
    }
    FileMeta { row_groups, offset_index: offset_index(meta) }
}

/// Metadata that was loaded is refused just where its schema is not the one that was expected; else
/// the number of rows is the one that it says.
pub proof fn law_loaded_metadata_is_checked(
    expect: SchemaDescriptor,
    meta: ParquetMetaData,
    path: &str,
    schema_from: &str,
    checked: Result<i64, ErrorCode>,
)
    requires
        call_ensures(check_loaded_meta, (&expect, &meta, path, schema_from), checked),
    ensures
        checked is Err == (expect != file_schema(meta)),
        checked matches Ok(rows) ==> rows == file_rows(meta),
        checked matches Err(error) ==> says_mismatch(
            error,
            schema_from@,
            path@,
            schema_text(expect),
            schema_text(file_schema(meta)),
        ),
{
    if let Err(error) = checked {
        lemma_mismatch(
            error,
            schema_from@,
            path@,
            schema_text(expect),
            schema_text(file_schema(meta)),
        );
    }
}

/// Every row group is read, in order, with its rows and its bytes and under its index, and every
/// page of every column with its offset, its size and its first row.
pub proof fn law_metadata_is_read_whole(meta: ParquetMetaData, read: FileMeta<usize>)
    requires
        call_ensures(read_file_meta, (&meta,), read),
    ensures
        read.row_groups@.len() == row_group_sizes(meta).len(),
        forall|g: int|
            0 <= g < read.row_groups@.len() ==> {
                &&& (#[trigger] read.row_groups@[g]).num_rows == row_group_sizes(meta)[g].0
                &&& read.row_groups@[g].total_byte_size == row_group_sizes(meta)[g].1
                &&& read.row_groups@[g].meta == g
            },
        read.offset_index is Some == page_index(meta) is Some,
        read.offset_index matches Some(index) ==> {
            &&& index@.len() == page_index(meta)->0.len()
            &&& forall|g: int|
                0 <= g < index@.len() ==> (#[trigger] index@[g])@.len() == page_index(
                    meta,
                )->0[g].len()
            &&& forall|g: int, c: int|
                0 <= g < index@.len() && 0 <= c < index@[g]@.len() ==> (
                #[trigger] index@[g]@[c])@ == page_index(meta)->0[g][c]
        },
{
    let count = read.row_groups.len();
    assert(read.row_groups@.len() == count);
    if let Some(index) = read.offset_index {
        let view = index_view(read.offset_index)->0;
        assert(view.len() == index@.len());
        assert forall|g: int| 0 <= g < index@.len() implies (#[trigger] index@[g])@.len()
            == page_index(meta)->0[g].len() by {
            assert(view[g].len() == index@[g]@.len());
        }
        assert forall|g: int, c: int|
            0 <= g < index@.len() && 0 <= c < index@[g]@.len() implies (
        #[trigger] index@[g]@[c])@ == page_index(meta)->0[g][c] by {
            assert(view[g][c] == index@[g]@[c]@);
        }
    }
}

} // verus!
