use databend_query::error::{ErrorClass, ErrorCode};
use databend_query::mysql::cell::{write_cell, write_row, Cell, Chunk, NumberScalar, Scalar};
use databend_query::mysql::column::{
    convert_field_type, convert_schema, make_column_from_field, Column, ColumnType, DataField,
    DataSchema, DataType, NumberDataType,
};
use databend_query::mysql::query_result_writer::{
    DFQueryResultWriter, ProgressReporter, QueryResult,
};
use databend_query::mysql::response::{
    completed, err, finished, Action, ErrorContext, ErrorKind, ErrorReply, Event, Response,
};

struct Reporter;

impl ProgressReporter for Reporter {
    fn progress_info(&self) -> String {
        "Read 3 rows".to_string()
    }

    fn affected_rows(&self) -> u64 {
        42
    }
}

fn error(class: ErrorClass, message: &str) -> ErrorCode {
    ErrorCode { class, message: message.to_string() }
}

fn field(name: &str, data_type: DataType) -> DataField {
    let type_text = format!("{:?}", data_type);
    DataField { name: name.to_string(), data_type, type_text }
}

fn nullable(data_type: DataType) -> DataType {
    DataType::Nullable(Box::new(data_type))
}

fn column(name: &str, coltype: ColumnType) -> Column {
    Column { table: String::new(), column: name.to_string(), coltype, colflags: 0 }
}

fn int64(v: i64) -> Scalar {
    Scalar::Number(NumberScalar::Int64(v))
}

fn chunk(rows: Vec<i64>) -> Chunk {
    Chunk { num_rows: rows.len(), columns: vec![rows.into_iter().map(int64).collect()] }
}

fn result(
    extra_info: Option<Reporter>,
    has_result_set: bool,
    fields: Vec<DataField>,
) -> Result<QueryResult<(), Reporter>, ErrorCode> {
    Ok(QueryResult::create((), extra_info, has_result_set, DataSchema { fields }))
}

fn run(
    query_result: Result<QueryResult<(), Reporter>, ErrorCode>,
    pulled: Vec<Result<Chunk, ErrorCode>>,
) -> Vec<Action> {
    let mut writer = DFQueryResultWriter::create("connection");
    let answer = writer.write(query_result).unwrap();
    assert_eq!(answer.writer, "connection");
    let mut chunks = pulled.into_iter();
    let mut sent = vec![];
    let mut response: Response<Reporter> = answer.response;
    let mut action = answer.action;
    loop {
        let event = match action {
            Action::PullChunk => Event::Chunk(chunks.next()),
            Action::Return(outcome) => {
                assert_eq!(outcome, Ok(()));
                return sent;
            }
            other => {
                sent.push(other);
                Event::Sent(Ok(()))
            }
        };
        let (after, next) = response.step(event);
        response = after;
        action = next;
    }
}

#[test]
fn every_supported_type_has_its_column_type() {
    let number = |n: NumberDataType| DataType::Number(n);
    let cases = vec![
        (DataType::Null, ColumnType::MYSQL_TYPE_NULL),
        (DataType::EmptyArray, ColumnType::MYSQL_TYPE_VARCHAR),
        (DataType::Boolean, ColumnType::MYSQL_TYPE_SHORT),
        (DataType::String, ColumnType::MYSQL_TYPE_VARCHAR),
        (number(NumberDataType::Int8), ColumnType::MYSQL_TYPE_TINY),
        (number(NumberDataType::Int16), ColumnType::MYSQL_TYPE_SHORT),
        (number(NumberDataType::Int32), ColumnType::MYSQL_TYPE_LONG),
        (number(NumberDataType::Int64), ColumnType::MYSQL_TYPE_LONGLONG),
        (number(NumberDataType::UInt8), ColumnType::MYSQL_TYPE_TINY),
        (number(NumberDataType::UInt16), ColumnType::MYSQL_TYPE_SHORT),
        (number(NumberDataType::UInt32), ColumnType::MYSQL_TYPE_LONG),
        (number(NumberDataType::UInt64), ColumnType::MYSQL_TYPE_LONGLONG),
        (number(NumberDataType::Float32), ColumnType::MYSQL_TYPE_FLOAT),
        (number(NumberDataType::Float64), ColumnType::MYSQL_TYPE_DOUBLE),
        (DataType::Date, ColumnType::MYSQL_TYPE_DATE),
        (DataType::Timestamp, ColumnType::MYSQL_TYPE_DATETIME),
        (DataType::Array, ColumnType::MYSQL_TYPE_VARCHAR),
        (DataType::Mapping, ColumnType::MYSQL_TYPE_VARCHAR),
        (DataType::Tuple, ColumnType::MYSQL_TYPE_VARCHAR),
        (DataType::Variant, ColumnType::MYSQL_TYPE_VARCHAR),
    ];
    for (data_type, coltype) in cases {
        assert_eq!(convert_field_type(&field("f", data_type)), Ok(coltype));
    }
}

#[test]
fn a_nullable_field_has_the_type_of_its_values() {
    assert_eq!(
        make_column_from_field(&field("f", nullable(DataType::Date))),
        Ok(column("f", ColumnType::MYSQL_TYPE_DATE))
    );
    assert_eq!(*nullable(DataType::Date).remove_nullable(), DataType::Date);
    assert_eq!(*DataType::Date.remove_nullable(), DataType::Date);
}

#[test]
fn other_types_are_unsupported() {
    assert_eq!(
        convert_field_type(&field("f", nullable(DataType::Other))),
        Err(error(
            ErrorClass::Unimplemented,
            "Unsupported column type:Nullable(Other)"
        ))
    );
    assert!(convert_field_type(&field("f", nullable(nullable(DataType::Date)))).is_err());
}

#[test]
fn a_schema_fails_on_its_first_unsupported_field() {
    let mut second = field("b", DataType::Other);
    second.type_text = "Bitmap".to_string();
    let mut third = field("c", DataType::Other);
    third.type_text = "Generic(0)".to_string();
    let schema = DataSchema { fields: vec![field("a", DataType::String), second, third] };
    assert_eq!(
        convert_schema(&schema).unwrap_err().message,
        "Unsupported column type:Bitmap"
    );
    let fine = DataSchema {
        fields: vec![field("a", DataType::String), field("b", DataType::Boolean)],
    };
    assert_eq!(
        convert_schema(&fine),
        Ok(vec![
            column("a", ColumnType::MYSQL_TYPE_VARCHAR),
            column("b", ColumnType::MYSQL_TYPE_SHORT),
        ])
    );
}

#[test]
fn integers_are_sent_as_they_are_and_the_rest_is_encoded() {
    let number = |n: NumberScalar| Scalar::Number(n);
    let row = vec![
        (Scalar::Null, Cell::Null),
        (Scalar::Boolean(true), Cell::UInt8(1)),
        (Scalar::Boolean(false), Cell::UInt8(0)),
        (number(NumberScalar::UInt8(8)), Cell::UInt8(8)),
        (number(NumberScalar::UInt16(16)), Cell::UInt16(16)),
        (number(NumberScalar::UInt32(32)), Cell::UInt32(32)),
        (number(NumberScalar::UInt64(64)), Cell::UInt64(64)),
        (number(NumberScalar::Int8(-8)), Cell::Int8(-8)),
        (number(NumberScalar::Int16(-16)), Cell::Int16(-16)),
        (number(NumberScalar::Int32(-32)), Cell::Int32(-32)),
        (number(NumberScalar::Int64(-64)), Cell::Int64(-64)),
        (number(NumberScalar::Float32), Cell::Field { column: 11, row: 0 }),
        (number(NumberScalar::Float64), Cell::Field { column: 12, row: 0 }),
        (Scalar::Other, Cell::Field { column: 13, row: 0 }),
    ];
    let one = Chunk { num_rows: 1, columns: row.iter().map(|(s, _)| vec![*s]).collect() };
    let cells: Vec<Cell> = row.iter().map(|(_, c)| *c).collect();
    assert_eq!(write_row(&one, 0), cells);
    assert_eq!(write_cell(Scalar::Other, 4, 5), Cell::Field { column: 4, row: 5 });
}

#[test]
fn a_result_set_is_sent_in_order() {
    let fields = vec![field("a", DataType::Number(NumberDataType::Int64))];
    let sent = run(
        result(Some(Reporter), true, fields),
        vec![Ok(chunk(vec![1, 2])), Ok(chunk(vec![])), Ok(chunk(vec![3]))],
    );
    assert_eq!(
        sent,
        vec![
            Action::Start(vec![column("a", ColumnType::MYSQL_TYPE_LONGLONG)]),
            Action::WriteRow(vec![Cell::Int64(1)]),
            Action::WriteRow(vec![Cell::Int64(2)]),
            Action::WriteRow(vec![Cell::Int64(3)]),
            Action::FinishWithInfo { info: "Read 3 rows".to_string() },
        ]
    );
}

/// The rows that are sent, with each encoded field by its value in the chunk that it lies in.
fn delivered(values: &[Vec<&str>]) -> Vec<Vec<String>> {
    let mut chunks = values.iter().map(|rows| Chunk {
        num_rows: rows.len(),
        columns: vec![rows.iter().map(|_| Scalar::Other).collect()],
    });
    let mut pulled = 0;
    let mut writer = DFQueryResultWriter::create(());
    let answer = writer
        .write(result(None, true, vec![field("a", DataType::String)]))
        .unwrap();
    let mut response: Response<Reporter> = answer.response;
    let mut action = answer.action;
    let mut rows = vec![];
    loop {
        let event = match &action {
            Action::PullChunk => {
                pulled += 1;
                Event::Chunk(chunks.next().map(Ok))
            }
            Action::Return(_) => return rows,
            Action::WriteRow(cells) => {
                let encode = |cell: &Cell| match *cell {
                    Cell::Field { column: 0, row } => values[pulled - 1][row].to_string(),
                    _ => panic!("no field of the column"),
                };
                rows.push(cells.iter().map(encode).collect());
                Event::Sent(Ok(()))
            }
            _ => Event::Sent(Ok(())),
        };
        let stepped = response.step(event);
        response = stepped.0;
        action = stepped.1;
    }
}

#[test]
fn the_bounds_of_the_chunks_do_not_show() {
    let whole = delivered(&[vec!["a", "b", "c", "d"]]);
    assert_eq!(whole, vec![vec!["a"], vec!["b"], vec!["c"], vec!["d"]]);
    assert_eq!(delivered(&[vec!["a"], vec![], vec!["b", "c"], vec!["d"], vec![]]), whole);

    let sent = |chunks: Vec<Chunk>| {
        run(
            result(Some(Reporter), true, vec![field("a", DataType::Number(NumberDataType::Int64))]),
            chunks.into_iter().map(Ok).collect(),
        )
    };
    assert_eq!(
        sent(vec![chunk(vec![1, 2, 3])]),
        sent(vec![chunk(vec![1]), chunk(vec![]), chunk(vec![2, 3])])
    );
}

#[test]
fn an_error_among_the_rows_ends_the_result_set() {
    let sent = run(
        result(Some(Reporter), true, vec![]),
        vec![
            Ok(chunk(vec![1])),
            Err(error(ErrorClass::Other(9), "lost")),
            Ok(chunk(vec![2])),
        ],
    );
    assert_eq!(
        sent,
        vec![
            Action::Start(vec![]),
            Action::WriteRow(vec![Cell::Int64(1)]),
            Action::FinishError(ErrorReply {
                kind: ErrorKind::ER_UNKNOWN_ERROR,
                context: ErrorContext::ResultRowWrite,
                error: error(ErrorClass::Other(9), "lost"),
            }),
        ]
    );
}

#[test]
fn an_abort_among_the_rows_is_an_unknown_error() {
    let sent = run(
        result(None, true, vec![]),
        vec![Err(error(ErrorClass::AbortedQuery, "aborted"))],
    );
    assert_eq!(
        sent[1],
        Action::FinishError(ErrorReply {
            kind: ErrorKind::ER_UNKNOWN_ERROR,
            context: ErrorContext::ResultRowWrite,
            error: error(ErrorClass::AbortedQuery, "aborted"),
        })
    );
}

#[test]
fn a_query_without_a_result_set_is_drained_and_completed() {
    let sent = run(
        result(Some(Reporter), false, vec![]),
        vec![Ok(chunk(vec![1])), Ok(chunk(vec![]))],
    );
    assert_eq!(sent, vec![Action::Completed { affected_rows: 42 }]);
    let unreported = run(result(None, false, vec![]), vec![]);
    assert_eq!(unreported, vec![Action::Completed { affected_rows: 0 }]);
}

#[test]
fn an_error_while_draining_is_sent() {
    let sent = run(
        result(Some(Reporter), false, vec![]),
        vec![Ok(chunk(vec![1])), Err(error(ErrorClass::Internal, "broken"))],
    );
    assert_eq!(
        sent,
        vec![Action::Error(ErrorReply {
            kind: ErrorKind::ER_UNKNOWN_ERROR,
            context: ErrorContext::DatasetWrite,
            error: error(ErrorClass::Internal, "broken"),
        })]
    );
}

#[test]
fn without_a_reporter_the_info_is_empty() {
    let sent = run(result(None, true, vec![]), vec![]);
    assert_eq!(
        sent,
        vec![Action::Start(vec![]), Action::FinishWithInfo { info: String::new() }]
    );
}

#[test]
fn a_failed_query_is_answered_with_its_error() {
    for (class, kind) in [
        (ErrorClass::AbortedQuery, ErrorKind::ER_ABORTING_CONNECTION),
        (ErrorClass::AbortedSession, ErrorKind::ER_ABORTING_CONNECTION),
        (ErrorClass::Internal, ErrorKind::ER_UNKNOWN_ERROR),
        (ErrorClass::Other(1), ErrorKind::ER_UNKNOWN_ERROR),
    ] {
        let sent = run(Err(error(class, "no")), vec![]);
        let reply = ErrorReply { kind, context: ErrorContext::Query, error: error(class, "no") };
        assert_eq!(sent, vec![Action::Error(reply)]);
        assert_eq!(err(error(class, "no")).kind, kind);
    }
}

#[test]
fn an_unsupported_schema_is_answered_with_an_error() {
    let sent = run(result(None, true, vec![field("a", DataType::Other)]), vec![]);
    assert_eq!(
        sent,
        vec![Action::Error(ErrorReply {
            kind: ErrorKind::ER_UNKNOWN_ERROR,
            context: ErrorContext::Query,
            error: error(ErrorClass::Unimplemented, "Unsupported column type:Other"),
        })]
    );
}

#[test]
fn a_failed_send_ends_the_answer() {
    let mut writer = DFQueryResultWriter::create(());
    let answer = writer.write(result(Some(Reporter), true, vec![])).unwrap();
    assert_eq!(answer.action, Action::Start(vec![]));
    let broken = || error(ErrorClass::Other(2), "pipe");
    let (_, action) = answer.response.step(Event::Sent(Err(broken())));
    assert_eq!(action, Action::Return(Err(broken())));
}

#[test]
fn only_one_query_is_answered() {
    let mut writer = DFQueryResultWriter::create(());
    assert!(writer.write(result(None, true, vec![])).is_some());
    assert!(writer.write(result(None, true, vec![])).is_none());
    assert!(writer.write(result(None, false, vec![])).is_none());
}

#[test]
fn error_texts_say_where_the_error_came_up() {
    let reply = |context: ErrorContext| ErrorReply {
        kind: ErrorKind::ER_UNKNOWN_ERROR,
        context,
        error: error(ErrorClass::Internal, "e"),
    };
    assert_eq!(reply(ErrorContext::Query).text("oops"), "oops");
    assert_eq!(reply(ErrorContext::DatasetWrite).text("oops"), "dataset write failed: oops");
    assert_eq!(
        reply(ErrorContext::ResultRowWrite).text("oops"),
        "result row write failed: oops"
    );
}

#[test]
fn ends_of_answers_default_to_nothing() {
    assert_eq!(completed(None), Action::Completed { affected_rows: 0 });
    assert_eq!(completed(Some(3)), Action::Completed { affected_rows: 3 });
    assert_eq!(finished(None), Action::FinishWithInfo { info: String::new() });
    assert_eq!(
        finished(Some("x".to_string())),
        Action::FinishWithInfo { info: "x".to_string() }
    );
}
