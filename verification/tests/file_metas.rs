use databend_query::error::{ErrorClass, ErrorCode};
use databend_query::file_metas::{
    check_memory, file_locations, plan_listing, reports_copy_status, FileListing, FileReport,
    FileStatus, MetaBatch, StageFileInfo, MIN_FREE_MEMORY,
};
use databend_query::schema::{check_parquet_schema, schema_mismatch};
use databend_query::text::{append_decimal, append_signed_decimal};
use parquet::schema::parser::parse_message_type;
use parquet::schema::types::SchemaDescriptor;
use std::sync::Arc;

fn files() -> Vec<StageFileInfo> {
    vec![
        StageFileInfo { path: "a".to_string(), size: 3 },
        StageFileInfo { path: "b".to_string(), size: 4 },
    ]
}

fn infos() -> Vec<(String, u64)> {
    vec![("a".to_string(), 3), ("b".to_string(), 4)]
}

#[test]
fn locations_are_paths_and_sizes() {
    assert_eq!(file_locations(&files()), infos());
}

#[test]
fn named_files_are_not_listed() {
    assert_eq!(plan_listing(&Some(files()), true), FileListing::Given(infos()));
    assert_eq!(plan_listing(&Some(files()), false), FileListing::Given(infos()));
    assert_eq!(plan_listing(&None, true), FileListing::Blocking);
    assert_eq!(plan_listing(&None, false), FileListing::Awaited);
}

#[test]
fn copies_are_reported_whatever_their_case() {
    assert!(reports_copy_status("copy"));
    assert!(reports_copy_status("Copy"));
    assert!(reports_copy_status("COPY"));
    assert!(!reports_copy_status("Query"));
    assert!(!reports_copy_status("copy "));
    assert!(!reports_copy_status(""));
}

#[test]
fn memory_must_be_left() {
    assert_eq!(MIN_FREE_MEMORY, 104857600);
    assert_eq!(check_memory(104857600, 0), Ok(()));
    assert_eq!(
        check_memory(104857599, 0),
        Err(ErrorCode {
            class: ErrorClass::Internal,
            message: "not enough memory to load parquet file metas, max_memory_usage = \
                      104857599, used = 0."
                .to_string(),
        })
    );
    assert_eq!(
        check_memory(0, -5).unwrap_err().message,
        "not enough memory to load parquet file metas, max_memory_usage = 0, used = -5."
    );
}

#[test]
fn a_limit_with_the_highest_bit_set_counts_as_negative() {
    assert_eq!(
        check_memory(u64::MAX, 7).unwrap_err().message,
        "not enough memory to load parquet file metas, max_memory_usage = \
         18446744073709551615, used = 7."
    );
    assert_eq!(check_memory(i64::MAX as u64, 0), Ok(()));
}

#[test]
fn numbers_are_written_in_decimal() {
    let mut text = "n=".to_string();
    append_decimal(&mut text, 0);
    append_decimal(&mut text, 1234567890);
    assert_eq!(text, "n=01234567890");
    let mut signed = String::new();
    append_signed_decimal(&mut signed, i64::MIN);
    append_signed_decimal(&mut signed, i64::MAX);
    assert_eq!(signed, format!("{}{}", i64::MIN, i64::MAX));
}

#[test]
fn metadata_is_kept_with_its_path() {
    let mut batch: MetaBatch<u32> = MetaBatch::create(infos(), false);
    assert_eq!(batch.next_path(), Some(&"a".to_string()));
    assert_eq!(batch.on_loaded(Ok((11, 100))), Ok(None));
    assert_eq!(batch.next_path(), Some(&"b".to_string()));
    assert_eq!(batch.on_loaded(Ok((12, 200))), Ok(None));
    assert_eq!(batch.next_path(), None);
    assert_eq!(
        batch.finish(1 << 30, 0),
        Ok(vec![("a".to_string(), 11), ("b".to_string(), 12)])
    );
}

#[test]
fn loaded_files_are_reported_to_a_copy() {
    let mut batch: MetaBatch<u32> = MetaBatch::create(infos(), true);
    assert_eq!(
        batch.on_loaded(Ok((11, 100))),
        Ok(Some(FileReport {
            path: "a".to_string(),
            status: FileStatus { num_rows_loaded: 100, error: None },
        }))
    );
    assert_eq!(
        batch.on_loaded(Ok((12, -1))),
        Ok(Some(FileReport {
            path: "b".to_string(),
            status: FileStatus { num_rows_loaded: usize::MAX, error: None },
        }))
    );
}

#[test]
fn a_file_that_cannot_be_loaded_fails_its_batch() {
    let mut batch: MetaBatch<u32> = MetaBatch::create(infos(), true);
    let error = ErrorCode { class: ErrorClass::Other(3), message: "gone".to_string() };
    assert_eq!(batch.on_loaded(Err(error)).unwrap_err().message, "gone");
    assert_eq!(batch.next_path(), Some(&"a".to_string()));
}

#[test]
fn a_batch_fails_where_memory_runs_short() {
    let batch: MetaBatch<u32> = MetaBatch::create(vec![], false);
    assert_eq!(batch.finish(1000, 0).unwrap_err().class, ErrorClass::Internal);
}

fn schema(message: &str) -> SchemaDescriptor {
    SchemaDescriptor::new(Arc::new(parse_message_type(message).unwrap()))
}

#[test]
fn files_with_the_expected_schema_pass() {
    let one = schema("message m { REQUIRED INT32 a; OPTIONAL BYTE_ARRAY b (UTF8); }");
    let same = schema("message m { REQUIRED INT32 a; OPTIONAL BYTE_ARRAY b (UTF8); }");
    assert_eq!(check_parquet_schema(&one, &same, "x.parquet", "y.parquet"), Ok(()));
}

#[test]
fn files_with_another_schema_are_refused() {
    let one = schema("message m { REQUIRED INT32 a; }");
    for other in [
        "message m { REQUIRED INT64 a; }",
        "message m { OPTIONAL INT32 a; }",
        "message m { REQUIRED INT32 b; }",
        "message m { REQUIRED INT32 a; REQUIRED INT32 b; }",
        "message n { REQUIRED INT32 a; }",
    ] {
        let other = schema(other);
        let error = check_parquet_schema(&one, &other, "x.parquet", "y.parquet").unwrap_err();
        assert_eq!(error.class, ErrorClass::TableSchemaMismatch);
        assert_eq!(
            error.message,
            format!(
                "infer schema from '{}', but get diff schema in file '{}'. Expected schema: \
                 {:?}, actual: {:?}",
                "y.parquet", "x.parquet", one, other
            )
        );
    }
}

#[test]
fn a_mismatch_names_both_files_and_schemas() {
    let error = schema_mismatch("from", "path", "E", "A");
    assert_eq!(
        error.message,
        "infer schema from 'from', but get diff schema in file 'path'. Expected schema: E, \
         actual: A"
    );
}
