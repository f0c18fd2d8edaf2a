//! The columns of a result set, as a MySQL client is told of them.
use crate::error::{ErrorClass, ErrorCode};
use vstd::prelude::*;

verus! {

/// The type of a number.
#[derive(Clone, Copy, Debug, PartialEq, Eq, Structural)]
pub enum NumberDataType {
    UInt8,
    UInt16,
    UInt32,
    UInt64,
    Int8,
    Int16,
    Int32,
    Int64,
    Float32,
    Float64,
}

/// The type of a field, as far as a MySQL client is told of it.
#[derive(Debug, PartialEq, Eq)]
pub enum DataType {
    Null,
    EmptyArray,
    Boolean,
    String,
    Number(NumberDataType),
    Date,
    Timestamp,
    Array,
    /// A list of keys with a value for each.
    Mapping,
    Tuple,
    Variant,
    /// A type whose values may be missing.
    Nullable(Box<DataType>),
    /// Any other type.
    Other,
}

/// A field of a result.
#[derive(Debug, PartialEq, Eq)]
pub struct DataField {
    /// The name of the field.
    pub name: String,
    /// The type of the field.
    pub data_type: DataType,
    /// The type as it is written out in a message.
    pub type_text: String,
}

/// The fields of a result.
#[derive(Debug, PartialEq, Eq)]
pub struct DataSchema {
    /// The fields, in order.
    pub fields: Vec<DataField>,
}

/// The column types of the MySQL protocol that results have.
#[derive(Clone, Copy, Debug, PartialEq, Eq, Structural)]
#[allow(non_camel_case_types)]
pub enum ColumnType {
    MYSQL_TYPE_NULL,
    MYSQL_TYPE_VARCHAR,
    MYSQL_TYPE_TINY,
    MYSQL_TYPE_SHORT,
    MYSQL_TYPE_LONG,
    MYSQL_TYPE_LONGLONG,
    MYSQL_TYPE_FLOAT,
    MYSQL_TYPE_DOUBLE,
    MYSQL_TYPE_DATE,
    MYSQL_TYPE_DATETIME,
}

/// A column of a result set.
#[derive(Debug, PartialEq, Eq)]
pub struct Column {
    /// The table of the column.
    pub table: String,
    /// The name of the column.
    pub column: String,
    /// The type of the column.
    pub coltype: ColumnType,
    /// The flags of the column, one bit for each.
    pub colflags: u16,
}

/// A column, by what it holds.
#[verifier::ext_equal]
pub struct ColumnView {
    pub table: Seq<char>,
    pub column: Seq<char>,
    pub coltype: ColumnType,
    pub colflags: u16,
}

impl View for Column {
    type V = ColumnView;

    open spec fn view(&self) -> ColumnView {
        ColumnView {
            table: self.table@,
            column: self.column@,
            coltype: self.coltype,
            colflags: self.colflags,
        }
    }
}

/// What a list of columns holds.
pub open spec fn column_views(columns: Seq<Column>) -> Seq<ColumnView> {
    columns.map_values(|column: Column| column@)
}

impl DataType {
    /// The type of the values that are there.
    pub open spec fn present(self) -> DataType {
        match self {
            DataType::Nullable(inner) => *inner,
            other => other,
        }
    }

    /// The type of the values that are there.
    pub fn remove_nullable(&self) -> (inner: &DataType)
        ensures
            *inner == self.present(),
    {
        match self {
            DataType::Nullable(inner) => inner,
            _ => self,
        }
    }
}

/// The column type of the numbers of a type. The protocol knows one type for the signed and the
/// unsigned integers of a width.
pub open spec fn number_column_type(number: NumberDataType) -> ColumnType {
    match number {
        NumberDataType::Int8 | NumberDataType::UInt8 => ColumnType::MYSQL_TYPE_TINY,
        NumberDataType::Int16 | NumberDataType::UInt16 => ColumnType::MYSQL_TYPE_SHORT,
        NumberDataType::Int32 | NumberDataType::UInt32 => ColumnType::MYSQL_TYPE_LONG,
        NumberDataType::Int64 | NumberDataType::UInt64 => ColumnType::MYSQL_TYPE_LONGLONG,
        NumberDataType::Float32 => ColumnType::MYSQL_TYPE_FLOAT,
        NumberDataType::Float64 => ColumnType::MYSQL_TYPE_DOUBLE,
    }
}

/// The column type of the fields of a type, where there is one. What has no type of its own in
/// the protocol is sent as text.
pub open spec fn column_type(data_type: DataType) -> Option<ColumnType> {
    match data_type.present() {
        DataType::Null => Some(ColumnType::MYSQL_TYPE_NULL),
        DataType::Boolean => Some(ColumnType::MYSQL_TYPE_SHORT),
        DataType::Number(number) => Some(number_column_type(number)),
        DataType::Date => Some(ColumnType::MYSQL_TYPE_DATE),
        DataType::Timestamp => Some(ColumnType::MYSQL_TYPE_DATETIME),
        DataType::EmptyArray
        | DataType::String
        | DataType::Array
        | DataType::Mapping
        | DataType::Tuple
        | DataType::Variant => Some(ColumnType::MYSQL_TYPE_VARCHAR),
        DataType::Nullable(_) | DataType::Other => None,
    }
}

/// What is said of a field whose type has no column type.
pub open spec fn unsupported_text(field: DataField) -> Seq<char> {
    "Unsupported column type:"@ + field.type_text@
}

/// Whether this is the error for a field whose type has no column type.
pub open spec fn is_unsupported(error: ErrorCode, field: DataField) -> bool {
    error.class == ErrorClass::Unimplemented && error.message@ == unsupported_text(field)
}

/// The column type of a field.
pub fn convert_field_type(field: &DataField) -> (converted: Result<ColumnType, ErrorCode>)
    ensures
        match converted {
            Ok(coltype) => column_type(field.data_type) == Some(coltype),
            Err(error) => column_type(field.data_type) is None && is_unsupported(error, *field),
        },
{
    match field.data_type.remove_nullable() {
        DataType::Null => Ok(ColumnType::MYSQL_TYPE_NULL),
        DataType::EmptyArray => Ok(ColumnType::MYSQL_TYPE_VARCHAR),
        DataType::Boolean => Ok(ColumnType::MYSQL_TYPE_SHORT),
        DataType::String => Ok(ColumnType::MYSQL_TYPE_VARCHAR),
        DataType::Number(num_ty) => match num_ty {
            NumberDataType::Int8 => Ok(ColumnType::MYSQL_TYPE_TINY),
            NumberDataType::Int16 => Ok(ColumnType::MYSQL_TYPE_SHORT),
            NumberDataType::Int32 => Ok(ColumnType::MYSQL_TYPE_LONG),
            NumberDataType::Int64 => Ok(ColumnType::MYSQL_TYPE_LONGLONG),
            NumberDataType::UInt8 => Ok(ColumnType::MYSQL_TYPE_TINY),
            NumberDataType::UInt16 => Ok(ColumnType::MYSQL_TYPE_SHORT),
            NumberDataType::UInt32 => Ok(ColumnType::MYSQL_TYPE_LONG),
            NumberDataType::UInt64 => Ok(ColumnType::MYSQL_TYPE_LONGLONG),
            NumberDataType::Float32 => Ok(ColumnType::MYSQL_TYPE_FLOAT),
            NumberDataType::Float64 => Ok(ColumnType::MYSQL_TYPE_DOUBLE),
        },
        DataType::Date => Ok(ColumnType::MYSQL_TYPE_DATE),
        DataType::Timestamp => Ok(ColumnType::MYSQL_TYPE_DATETIME),
        DataType::Array => Ok(ColumnType::MYSQL_TYPE_VARCHAR),
        DataType::Mapping => Ok(ColumnType::MYSQL_TYPE_VARCHAR),
        DataType::Tuple => Ok(ColumnType::MYSQL_TYPE_VARCHAR),
        DataType::Variant => Ok(ColumnType::MYSQL_TYPE_VARCHAR),
        DataType::Nullable(_) | DataType::Other => {
            let mut message = String::new();
            message.append("Unsupported column type:");
            message.append(field.type_text.as_str());
            assert(message@ =~= unsupported_text(*field));
            Err(ErrorCode { class: ErrorClass::Unimplemented, message })
        },
    }
}

/// The column of a field: of no table, under the name of the field, with no flags.
pub open spec fn field_column(field: DataField) -> ColumnView
    recommends
        column_type(field.data_type) is Some,
{
    ColumnView {
        table: Seq::empty(),
        column: field.name@,
        coltype: column_type(field.data_type)->0,
        colflags: 0,
    }
}

/// The column of a field.
pub fn make_column_from_field(field: &DataField) -> (made: Result<Column, ErrorCode>)
    ensures
        match made {
            Ok(column) => column_type(field.data_type) is Some && column@ == field_column(*field),
            Err(error) => column_type(field.data_type) is None && is_unsupported(error, *field),
        },
{
    match convert_field_type(field) {
        Ok(coltype) => Ok(
            Column { table: String::new(), column: field.name.clone(), coltype, colflags: 0 },
        ),
        Err(error) => Err(error),
    }
}

/// Whether each field has a column type.
pub open spec fn is_supported(fields: Seq<DataField>) -> bool {
    forall|i: int| 0 <= i < fields.len() ==> column_type((#[trigger] fields[i]).data_type) is Some
}

/// The columns of the fields.
pub open spec fn schema_columns(fields: Seq<DataField>) -> Seq<ColumnView> {
    fields.map_values(|field: DataField| field_column(field))
}

/// Whether this is the error for fields of which one has no column type: it speaks of the first
/// such field.
pub open spec fn is_schema_error(error: ErrorCode, fields: Seq<DataField>) -> bool {
    exists|i: int|
        {
            &&& 0 <= i < fields.len()
            &&& is_supported(fields.take(i))
            &&& column_type((#[trigger] fields[i]).data_type) is None
            &&& is_unsupported(error, fields[i])
        }
}

/// The columns of a schema. Fails on the first field whose type has no column type.
pub fn convert_schema(schema: &DataSchema) -> (converted: Result<Vec<Column>, ErrorCode>)
    ensures
        converted is Ok == is_supported(schema.fields@),
        match converted {
            Ok(columns) => column_views(columns@) == schema_columns(schema.fields@),
            Err(error) => is_schema_error(error, schema.fields@),
        },
{
    let mut columns: Vec<Column> = Vec::with_capacity(schema.fields.len());
    let ghost fields = schema.fields@;
    for i in 0..schema.fields.len()
        invariant
            fields == schema.fields@,
            is_supported(fields.take(i as int)),
            column_views(columns@) =~= schema_columns(fields).take(i as int),
    {
        let ghost before = columns@;
        match make_column_from_field(&schema.fields[i]) {
            Ok(column) => {
                columns.push(column);
                assert(column_views(columns@) =~= column_views(before).push(column@));
                assert forall|k: int| 0 <= k < i + 1 implies column_type(
                    (#[trigger] fields.take(i + 1)[k]).data_type,
                ) is Some by {
                    if k < i {
                        assert(fields.take(i as int)[k] == fields[k]);
                    }
                }
            },
            Err(error) => {
                return Err(error);
            },
        }
    }
    assert(fields.take(fields.len() as int) =~= fields);
    assert(schema_columns(fields).take(fields.len() as int) =~= schema_columns(fields));
    Ok(columns)
}

/// A field whose values may be missing has the column type of the values that are there.
pub proof fn law_nullable_has_the_same_column_type(data_type: DataType)
    requires
        !(data_type is Nullable),
    ensures
        column_type(DataType::Nullable(Box::new(data_type))) == column_type(data_type),
{
}

/// A schema is refused for its first field that has no column type, and only for such a field.
pub proof fn law_schema_error_is_of_the_first_field(fields: Seq<DataField>, index: int)
    requires
        0 <= index < fields.len(),
        is_supported(fields.take(index)),
        column_type(fields[index].data_type) is None,
    ensures
        !is_supported(fields),
        forall|error: ErrorCode| #[trigger]
            is_schema_error(error, fields) ==> is_unsupported(error, fields[index]),
{
    assert forall|error: ErrorCode| #[trigger] is_schema_error(error, fields) implies is_unsupported(
        error,
        fields[index],
    ) by {
        let i = choose|i: int|
            {
                &&& 0 <= i < fields.len()
                &&& is_supported(fields.take(i))
                &&& column_type((#[trigger] fields[i]).data_type) is None
                &&& is_unsupported(error, fields[i])
            };
        if i < index {
            assert(fields.take(index)[i] == fields[i]);
        } else if i > index {
            assert(fields.take(i)[index] == fields[index]);
        }
    }
}

/// Taking the missing values away gives the inner type where values may be missing, and the type
/// itself where they may not.
pub proof fn law_inner_type(data_type: DataType, inner: &DataType)
    requires
        call_ensures(DataType::remove_nullable, (&data_type,), inner),
    ensures
        data_type is Nullable ==> *inner == *data_type->Nullable_0,
        !(data_type is Nullable) ==> *inner == data_type,
{
}

/// How many bits the numbers of a type have, and whether they have a fraction.
pub open spec fn number_shape(number: NumberDataType) -> (nat, bool) {
    match number {
        NumberDataType::UInt8 => (8, false),
        NumberDataType::UInt16 => (16, false),
        NumberDataType::UInt32 => (32, false),
        NumberDataType::UInt64 => (64, false),
        NumberDataType::Int8 => (8, false),
        NumberDataType::Int16 => (16, false),
        NumberDataType::Int32 => (32, false),
        NumberDataType::Int64 => (64, false),
        NumberDataType::Float32 => (32, true),
        NumberDataType::Float64 => (64, true),
    }
}

/// How many bits the numbers of a column type have, and whether they have a fraction, where it is
/// one of numbers.
pub open spec fn column_shape(coltype: ColumnType) -> Option<(nat, bool)> {
    match coltype {
        ColumnType::MYSQL_TYPE_TINY => Some((8, false)),
        ColumnType::MYSQL_TYPE_SHORT => Some((16, false)),
        ColumnType::MYSQL_TYPE_LONG => Some((32, false)),
        ColumnType::MYSQL_TYPE_LONGLONG => Some((64, false)),
        ColumnType::MYSQL_TYPE_FLOAT => Some((32, true)),
        ColumnType::MYSQL_TYPE_DOUBLE => Some((64, true)),
        _ => None,
    }
}

/// Whether a column type tells a client of the values of a type. Numbers have a column type of
/// their own shape, dates and times one of their own, truth values that of short integers, and
/// all that the protocol does not know is text.
pub open spec fn tells(coltype: ColumnType, data_type: DataType) -> bool
    decreases data_type,
{
    match data_type {
        DataType::Null => coltype is MYSQL_TYPE_NULL,
        DataType::Boolean => coltype is MYSQL_TYPE_SHORT,
        DataType::Number(number) => column_shape(coltype) == Some(number_shape(number)),
        DataType::Date => coltype is MYSQL_TYPE_DATE,
        DataType::Timestamp => coltype is MYSQL_TYPE_DATETIME,
        DataType::EmptyArray => coltype is MYSQL_TYPE_VARCHAR,
        DataType::String => coltype is MYSQL_TYPE_VARCHAR,
        DataType::Array => coltype is MYSQL_TYPE_VARCHAR,
        DataType::Mapping => coltype is MYSQL_TYPE_VARCHAR,
        DataType::Tuple => coltype is MYSQL_TYPE_VARCHAR,
        DataType::Variant => coltype is MYSQL_TYPE_VARCHAR,
        DataType::Nullable(inner) => !(*inner is Nullable) && tells(coltype, *inner),
        DataType::Other => false,
    }
}

/// Whether a client can be told of the values of a type: of all types but those that are not
/// known, and those whose values may be missing twice over.
pub open spec fn can_be_told(data_type: DataType) -> bool {
    match data_type {
        DataType::Other => false,
        DataType::Nullable(inner) => !(*inner is Other) && !(*inner is Nullable),
        _ => true,
    }
}

/// Whether an error names the type of a field as one that is not supported.
pub open spec fn names_unsupported(error: ErrorCode, field: DataField) -> bool {
    &&& error.class is Unimplemented
    &&& error.message@ == "Unsupported column type:"@ + field.type_text@
}

proof fn lemma_column_type_tells(data_type: DataType)
    ensures
        column_type(data_type) is Some == can_be_told(data_type),
        column_type(data_type) matches Some(coltype) ==> tells(coltype, data_type),
{
    reveal_with_fuel(tells, 2);
}

/// The column type of a field tells of its values. A field of which a client cannot be told is
/// refused, and no other.
pub proof fn law_column_type_tells_of_the_field(
    field: DataField,
    converted: Result<ColumnType, ErrorCode>,
)
    requires
        call_ensures(convert_field_type, (&field,), converted),
    ensures
        converted is Ok == can_be_told(field.data_type),
        converted matches Ok(coltype) ==> tells(coltype, field.data_type),
        converted matches Err(error) ==> names_unsupported(error, field),
{
    lemma_column_type_tells(field.data_type);
}

/// Whether a column is that of a field: it has the whole name of the field and a type that tells
/// of it, belongs to no table and has no flags.
pub open spec fn is_column_of(column: Column, field: DataField) -> bool {
    &&& column.column@ == field.name@
    &&& tells(column.coltype, field.data_type)
    &&& column.table@.len() == 0
    &&& column.colflags == 0
}

/// The column that is made of a field is the field's.
pub proof fn law_column_is_that_of_its_field(field: DataField, made: Result<Column, ErrorCode>)
    requires
        call_ensures(make_column_from_field, (&field,), made),
    ensures
        made is Ok == can_be_told(field.data_type),
        made matches Ok(column) ==> is_column_of(column, field),
        made matches Err(error) ==> names_unsupported(error, field),
{
    lemma_column_type_tells(field.data_type);
    if let Ok(column) = made {
        assert(column@.table.len() == 0);
        assert(column@.column == field.name@);
    }
}

/// Whether columns are those of the fields: one for each field, in order.
pub open spec fn are_columns_of(columns: Seq<Column>, fields: Seq<DataField>) -> bool {
    &&& columns.len() == fields.len()
    &&& forall|i: int| 0 <= i < fields.len() ==> is_column_of(#[trigger] columns[i], fields[i])
}

/// Whether an error names the first field of which a client cannot be told.
pub open spec fn names_first_unsupported(error: ErrorCode, fields: Seq<DataField>) -> bool {
    exists|i: int|
        {
            &&& 0 <= i < fields.len()
            &&& !can_be_told((#[trigger] fields[i]).data_type)
            &&& forall|j: int| 0 <= j < i ==> can_be_told((#[trigger] fields[j]).data_type)
            &&& names_unsupported(error, fields[i])
        }
}

/// What holds of the columns of fields holds of the list.
pub(crate) proof fn lemma_schema_columns(fields: Seq<DataField>, columns: Seq<Column>)
    requires
        is_supported(fields),
        column_views(columns) == schema_columns(fields),
    ensures
        are_columns_of(columns, fields),
{
    assert(column_views(columns).len() == columns.len());
    assert(schema_columns(fields).len() == fields.len());
    assert forall|i: int| 0 <= i < fields.len() implies is_column_of(
        #[trigger] columns[i],
        fields[i],
    ) by {
        lemma_column_type_tells(fields[i].data_type);
        assert(column_views(columns)[i] == columns[i]@);
        assert(schema_columns(fields)[i] == field_column(fields[i]));
        assert(columns[i]@.table.len() == 0);
    }
}

/// Fields are supported just where a client can be told of each.
pub(crate) proof fn lemma_supported(fields: Seq<DataField>)
    ensures
        is_supported(fields) == forall|i: int|
            0 <= i < fields.len() ==> can_be_told((#[trigger] fields[i]).data_type),
{
    assert forall|i: int| 0 <= i < fields.len() implies column_type(
        (#[trigger] fields[i]).data_type,
    ) is Some == can_be_told(fields[i].data_type) by {
        lemma_column_type_tells(fields[i].data_type);
    }
}

/// The error for a schema names the first field of which a client cannot be told.
pub(crate) proof fn lemma_schema_error(error: ErrorCode, fields: Seq<DataField>)
    requires
        is_schema_error(error, fields),
    ensures
        names_first_unsupported(error, fields),
{
    let i = choose|i: int|
        {
            &&& 0 <= i < fields.len()
            &&& is_supported(fields.take(i))
            &&& column_type((#[trigger] fields[i]).data_type) is None
            &&& is_unsupported(error, fields[i])
        };
    lemma_column_type_tells(fields[i].data_type);
    lemma_supported(fields.take(i));
    assert forall|j: int| 0 <= j < i implies can_be_told((#[trigger] fields[j]).data_type) by {
        assert(fields.take(i)[j] == fields[j]);
    }
}

/// A client is told of each field of a schema, in order, by its whole name and a type that tells
/// of it; or of none, where it cannot be told of one.
pub proof fn law_columns_are_those_of_the_fields(
    schema: DataSchema,
    converted: Result<Vec<Column>, ErrorCode>,
)
    requires
        call_ensures(convert_schema, (&schema,), converted),
    ensures
        converted is Ok == forall|i: int|
            0 <= i < schema.fields@.len() ==> can_be_told((#[trigger] schema.fields@[i]).data_type),
        converted matches Ok(columns) ==> are_columns_of(columns@, schema.fields@),
        converted matches Err(error) ==> names_first_unsupported(error, schema.fields@),
{
    lemma_supported(schema.fields@);
    match converted {
        Ok(columns) => {
            lemma_schema_columns(schema.fields@, columns@);
        },
        Err(error) => {
            lemma_schema_error(error, schema.fields@);
        },
    }
}

/// Fields with different names never have the same column name.
pub proof fn law_names_are_told_apart(
    schema: DataSchema,
    columns: Vec<Column>,
    i: int,
    j: int,
)
    requires
        call_ensures(convert_schema, (&schema,), Ok(columns)),
        0 <= i < schema.fields@.len(),
        0 <= j < schema.fields@.len(),
        schema.fields@[i].name@ != schema.fields@[j].name@,
    ensures
        columns@[i].column@ != columns@[j].column@,
{
    lemma_schema_columns(schema.fields@, columns@);
    assert(is_column_of(columns@[i], schema.fields@[i]));
    assert(is_column_of(columns@[j], schema.fields@[j]));
}

} // verus!
