//! Checking that the files of a table have the table's schema.
use crate::error::{ErrorClass, ErrorCode};
use parquet::schema::types::SchemaDescriptor;
use vstd::prelude::*;

verus! {

/// `parquet`'s schema descriptor: the columns of a file.
#[verifier::external_type_specification]
#[verifier::external_body]
pub struct ExSchemaDescriptor(SchemaDescriptor);

/// The columns that a descriptor holds, written out.
pub uninterp spec fn schema_text(schema: SchemaDescriptor) -> Seq<char>;

/// Calls `SchemaDescriptor::root_schema` on two descriptors and compares the root schemas, field
/// by field. A descriptor is made of its root schema alone (the rest of it is computed from
/// that), so the root schemas are the same just where the descriptors are.
#[verifier::external_body]
fn has_same_root_schema(expect: &SchemaDescriptor, actual: &SchemaDescriptor) -> (same: bool)
    ensures
        same == (*expect == *actual),
{
    expect.root_schema() == actual.root_schema()
}

/// Calls the `Debug` output of `SchemaDescriptor`, which writes the root schema out.
#[verifier::external_body]
fn describe_schema(schema: &SchemaDescriptor) -> (text: String)
    ensures
        text@ == schema_text(*schema),
{
    format!("{:?}", schema)
}

/// What is said of a file whose schema is not the expected one.
pub open spec fn mismatch_text(
    schema_from: Seq<char>,
    path: Seq<char>,
    expect: Seq<char>,
    actual: Seq<char>,
) -> Seq<char> {
    "infer schema from '"@ + schema_from + "', but get diff schema in file '"@ + path
        + "'. Expected schema: "@ + expect + ", actual: "@ + actual
}

/// The error for a file whose schema is not the expected one, from the two schemas as they are
/// written out.
pub fn schema_mismatch(schema_from: &str, path: &str, expect: &str, actual: &str) -> (error:
    ErrorCode)
    ensures
        error.class == ErrorClass::TableSchemaMismatch,
        error.message@ == mismatch_text(schema_from@, path@, expect@, actual@),
{
    let mut message = String::new();
    message.append("infer schema from '");
    message.append(schema_from);
    message.append("', but get diff schema in file '");
    message.append(path);
    message.append("'. Expected schema: ");
    message.append(expect);
    message.append(", actual: ");
    message.append(actual);
    assert(message@ =~= mismatch_text(schema_from@, path@, expect@, actual@));
    ErrorCode { class: ErrorClass::TableSchemaMismatch, message }
}

/// Checks that a file has the schema that the table took from the file `schema_from`.
pub fn check_parquet_schema(
    expect: &SchemaDescriptor,
    actual: &SchemaDescriptor,
    path: &str,
    schema_from: &str,
) -> (checked: Result<(), ErrorCode>)
    ensures
        checked is Ok == (*expect == *actual),
        checked matches Err(error) ==> {
            &&& error.class == ErrorClass::TableSchemaMismatch
            &&& error.message@ == mismatch_text(
                schema_from@,
                path@,
                schema_text(*expect),
                schema_text(*actual),
            )
        },
{
    if !has_same_root_schema(expect, actual) {
        let expect_text = describe_schema(expect);
        let actual_text = describe_schema(actual);
        return Err(
            schema_mismatch(schema_from, path, expect_text.as_str(), actual_text.as_str()),
        );
    }
    Ok(())
}

/// Whether an error says that the schema of a file is not the one that was expected: it names the
/// file that the expected schema was taken from, then the file, then the expected schema, and then
/// the schema that the file has.
pub open spec fn says_mismatch(
    error: ErrorCode,
    schema_from: Seq<char>,
    path: Seq<char>,
    expect: Seq<char>,
    actual: Seq<char>,
) -> bool {
    let a = "infer schema from '"@;
    let b = "', but get diff schema in file '"@;
    let c = "'. Expected schema: "@;
    let d = ", actual: "@;
    let text = error.message@;
    let at_from = a.len() as int;
    let at_path = at_from + schema_from.len() + b.len();
    let at_expect = at_path + path.len() + c.len();
    let at_actual = at_expect + expect.len() + d.len();
    &&& error.class is TableSchemaMismatch
    &&& text.len() == at_actual + actual.len()
    &&& text.subrange(0, at_from) == a
    &&& text.subrange(at_from, at_from + schema_from.len()) == schema_from
    &&& text.subrange(at_from + schema_from.len(), at_path) == b
    &&& text.subrange(at_path, at_path + path.len()) == path
    &&& text.subrange(at_path + path.len(), at_expect) == c
    &&& text.subrange(at_expect, at_expect + expect.len()) == expect
    &&& text.subrange(at_expect + expect.len(), at_actual) == d
    &&& text.subrange(at_actual, at_actual + actual.len()) == actual
}

pub(crate) proof fn lemma_mismatch(
    error: ErrorCode,
    schema_from: Seq<char>,
    path: Seq<char>,
    expect: Seq<char>,
    actual: Seq<char>,
)
    requires
        error.class == ErrorClass::TableSchemaMismatch,
        error.message@ == mismatch_text(schema_from, path, expect, actual),
    ensures
        says_mismatch(error, schema_from, path, expect, actual),
{
    let a = "infer schema from '"@;
    let b = "', but get diff schema in file '"@;
    let c = "'. Expected schema: "@;
    let d = ", actual: "@;
    let text = error.message@;
    let at_from = a.len() as int;
    let at_path = at_from + schema_from.len() + b.len();
    let at_expect = at_path + path.len() + c.len();
    let at_actual = at_expect + expect.len() + d.len();
    assert(text.subrange(0, at_from) =~= a);
    assert(text.subrange(at_from, at_from + schema_from.len()) =~= schema_from);
    assert(text.subrange(at_from + schema_from.len(), at_path) =~= b);
    assert(text.subrange(at_path, at_path + path.len()) =~= path);
    assert(text.subrange(at_path + path.len(), at_expect) =~= c);
    assert(text.subrange(at_expect, at_expect + expect.len()) =~= expect);
    assert(text.subrange(at_expect + expect.len(), at_actual) =~= d);
    assert(text.subrange(at_actual, at_actual + actual.len()) =~= actual);
}

/// The error for a schema that was not expected names the two files and the two schemas, each at
/// its place.
pub proof fn law_mismatch_names_files_and_schemas(
    schema_from: &str,
    path: &str,
    expect: &str,
    actual: &str,
    error: ErrorCode,
)
    requires
        call_ensures(schema_mismatch, (schema_from, path, expect, actual), error),
    ensures
        says_mismatch(error, schema_from@, path@, expect@, actual@),
{
    lemma_mismatch(error, schema_from@, path@, expect@, actual@);
}

/// A file is refused just where its schema is not the one that was expected.
pub proof fn law_other_schemas_are_refused(
    expect: SchemaDescriptor,
    actual: SchemaDescriptor,
    path: &str,
    schema_from: &str,
    checked: Result<(), ErrorCode>,
)
    requires
        call_ensures(check_parquet_schema, (&expect, &actual, path, schema_from), checked),
    ensures
        checked is Err == (expect != actual),
        checked matches Err(error) ==> says_mismatch(
            error,
            schema_from@,
            path@,
            schema_text(expect),
            schema_text(actual),
        ),
{
    if let Err(error) = checked {
        lemma_mismatch(error, schema_from@, path@, schema_text(expect), schema_text(actual));
    }
}

} // verus!
