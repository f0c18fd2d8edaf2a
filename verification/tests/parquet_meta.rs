use databend_query::error::ErrorClass;
use databend_query::parquet_meta::{check_loaded_meta, read_file_meta};
use databend_query::partition::{FileMeta, PageLocation, RowGroup};
use parquet::file::metadata::{FileMetaData, ParquetMetaData, RowGroupMetaData};
use parquet::schema::types::{SchemaDescPtr, SchemaDescriptor, Type};
use std::sync::Arc;

fn empty_schema() -> SchemaDescPtr {
    let root = Type::group_type_builder("m").build().unwrap();
    Arc::new(SchemaDescriptor::new(Arc::new(root)))
}

fn row_group(num_rows: i64, total_byte_size: i64) -> RowGroupMetaData {
    RowGroupMetaData::builder(empty_schema())
        .set_num_rows(num_rows)
        .set_total_byte_size(total_byte_size)
        .build()
        .unwrap()
}

fn file_metadata() -> FileMetaData {
    FileMetaData::new(1, 30, None, None, empty_schema(), None)
}

#[test]
fn row_groups_are_read_with_their_index() {
    let meta = ParquetMetaData::new(file_metadata(), vec![row_group(10, 100), row_group(20, 300)]);
    assert_eq!(
        read_file_meta(&meta),
        FileMeta {
            row_groups: vec![
                RowGroup { num_rows: 10, total_byte_size: 100, meta: 0 },
                RowGroup { num_rows: 20, total_byte_size: 300, meta: 1 },
            ],
            offset_index: None,
        }
    );
}

#[test]
fn the_offset_index_is_read() {
    let pages = vec![vec![
        vec![
            parquet::format::PageLocation::new(4, 50, 0),
            parquet::format::PageLocation::new(54, 60, 7),
        ],
        vec![],
    ]];
    let meta = ParquetMetaData::new_with_page_index(
        file_metadata(),
        vec![row_group(10, 100)],
        None,
        Some(pages),
    );
    assert_eq!(
        read_file_meta(&meta).offset_index,
        Some(vec![vec![
            vec![
                PageLocation { offset: 4, compressed_page_size: 50, first_row_index: 0 },
                PageLocation { offset: 54, compressed_page_size: 60, first_row_index: 7 },
            ],
            vec![],
        ]])
    );
}

#[test]
fn loaded_metadata_is_checked_and_says_its_rows() {
    let meta = ParquetMetaData::new(file_metadata(), vec![row_group(10, 100)]);
    assert_eq!(check_loaded_meta(&empty_schema(), &meta, "b", "a"), Ok(30));

    let root = Type::group_type_builder("other").build().unwrap();
    let other = SchemaDescriptor::new(Arc::new(root));
    let error = check_loaded_meta(&other, &meta, "b", "a").unwrap_err();
    assert_eq!(error.class, ErrorClass::TableSchemaMismatch);
    assert_eq!(
        error.message,
        format!(
            "infer schema from 'a', but get diff schema in file 'b'. Expected schema: {:?}, actual: {:?}",
            other,
            empty_schema()
        )
    );
}
