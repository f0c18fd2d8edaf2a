//! Writing the result of a query to a MySQL client.
use crate::error::ErrorCode;
use crate::mysql::cell::Chunk;
use crate::mysql::column::{
    are_columns_of, can_be_told, convert_schema, is_schema_error, is_supported,
    lemma_schema_columns, lemma_schema_error, lemma_supported, names_first_unsupported,
    schema_columns, DataField, DataSchema,
};
use crate::mysql::response::{
    completion, err, is_query_reply, law_completion_is_all_that_is_sent,
    law_result_set_is_sent_in_order,
    lemma_closing_sends_nothing, query_error, result_set, sends, transcript, Action, ActionView,
    Report, Response, Stage,
};
use vstd::prelude::*;

verus! {

/// Reports on a query, for the packet that ends its answer. It keeps the writer apart from
/// concrete types such as a query context.
///
/// The progress reads something like
/// "Read x rows, y MiB in z sec., A million rows/sec., B MiB/sec."
pub trait ProgressReporter {
    /// The progress, as text.
    fn progress_info(&self) -> String;

    /// The number of rows that the query changed.
    fn affected_rows(&self) -> u64;
}

/// The result of a query.
#[derive(Debug)]
pub struct QueryResult<S, R> {
    chunks: S,
    extra_info: Option<R>,
    has_result_set: bool,
    schema: DataSchema,
}

impl<S, R> QueryResult<S, R> {
    /// The chunks of the result, which are still to be pulled.
    pub closed spec fn chunks(self) -> S {
        self.chunks
    }

    /// The reporter of the query.
    pub closed spec fn extra_info(self) -> Option<R> {
        self.extra_info
    }

    /// Whether the query has a result set.
    pub closed spec fn has_result_set(self) -> bool {
        self.has_result_set
    }

    /// The fields of the result set.
    pub closed spec fn schema(self) -> DataSchema {
        self.schema
    }

    /// The result of a query.
    pub fn create(
        chunks: S,
        extra_info: Option<R>,
        has_result_set: bool,
        schema: DataSchema,
    ) -> (result: QueryResult<S, R>)
        ensures
            result.chunks() == chunks,
            result.extra_info() == extra_info,
            result.has_result_set() == has_result_set,
            result.schema() == schema,
    {
        QueryResult { chunks, extra_info, has_result_set, schema }
    }
}

/// An answer at its beginning: what it is sent through, what it is made of, and what to do first.
#[derive(Debug)]
pub struct Answer<W, S, R> {
    /// The writer of the connection.
    pub writer: W,
    /// The chunks of the result, where the query did not fail.
    pub chunks: Option<S>,
    /// The answer.
    pub response: Response<R>,
    /// What to do first.
    pub action: Action,
}

/// Whether this is how the answer to a query begins. A query without a result set is drained
/// first. A result set is begun with its columns. A failed query, or a result set with a field
/// that has no column type, is answered with an error.
pub open spec fn begins<W, S, R: ProgressReporter>(
    query_result: Result<QueryResult<S, R>, ErrorCode>,
    answer: Answer<W, S, R>,
) -> bool {
    match query_result {
        Err(error) => {
            &&& answer.chunks is None
            &&& answer.response.extra_info() is None
            &&& answer.response.stage() == Stage::Closing
            &&& answer.action@ == ActionView::Error(query_error(error))
        },
        Ok(result) => {
            &&& answer.chunks == Some(result.chunks())
            &&& answer.response.extra_info() == result.extra_info()
            &&& if !result.has_result_set() {
                &&& answer.response.stage() == Stage::Draining
                &&& answer.action@ == ActionView::PullChunk
            } else if is_supported(result.schema().fields@) {
                &&& answer.response.stage() == Stage::Opening
                &&& answer.action@ == ActionView::Start(schema_columns(result.schema().fields@))
            } else {
                &&& answer.response.stage() == Stage::Closing
                &&& answer.action matches Action::Error(reply)
                &&& reply == query_error(reply.error)
                &&& is_schema_error(reply.error, result.schema().fields@)
            }
        },
    }
}

/// Writes the result of one query through the writer of a connection.
#[derive(Debug)]
pub struct DFQueryResultWriter<W> {
    inner: Option<W>,
}

impl<W> DFQueryResultWriter<W> {
    /// The writer of the connection, as long as nothing was written.
    pub closed spec fn inner(self) -> Option<W> {
        self.inner
    }

    /// A writer through which nothing was written.
    pub fn create(inner: W) -> (writer: DFQueryResultWriter<W>)
        ensures
            writer.inner() == Some(inner),
    {
        DFQueryResultWriter { inner: Some(inner) }
    }

    /// Begins the answer to a query. Only one query is answered: where one was answered already
    /// nothing is begun.
    pub fn write<S, R: ProgressReporter>(
        &mut self,
        query_result: Result<QueryResult<S, R>, ErrorCode>,
    ) -> (answer: Option<Answer<W, S, R>>)
        ensures
            final(self).inner() is None,
            match answer {
                Some(answer) => old(self).inner() == Some(answer.writer) && begins(
                    query_result,
                    answer,
                ),
                None => old(self).inner() is None,
            },
    {
        match self.inner.take() {
            Some(writer) => Some(
                match query_result {
                    Ok(query_result) => Self::ok(query_result, writer),
                    Err(error) => Answer {
                        writer,
                        chunks: None,
                        response: Response::at(Stage::Closing, None),
                        action: Action::Error(err(error)),
                    },
                },
            ),
            None => None,
        }
    }

    /// Begins the answer to a query that did not fail.
    fn ok<S, R: ProgressReporter>(query_result: QueryResult<S, R>, writer: W) -> (answer: Answer<
        W,
        S,
        R,
    >)
        ensures
            answer.writer == writer,
            begins(Ok(query_result), answer),
    {
        let chunks = Some(query_result.chunks);
        let extra_info = query_result.extra_info;
        if !query_result.has_result_set {
            return Answer {
                writer,
                chunks,
                response: Response::at(Stage::Draining, extra_info),
                action: Action::PullChunk,
            };
        }
        match convert_schema(&query_result.schema) {
            Err(error) => Answer {
                writer,
                chunks,
                response: Response::at(Stage::Closing, extra_info),
                action: Action::Error(err(error)),
            },
            Ok(columns) => Answer {
                writer,
                chunks,
                response: Response::at(Stage::Opening, extra_info),
                action: Action::Start(columns),
            },
        }
    }
}

/// All that is sent for an answer from its beginning on, where the result goes on with the chunks
/// `pulled` and then ends, and everything can be sent.
pub open spec fn whole_answer<W, S, R: ProgressReporter>(
    answer: Answer<W, S, R>,
    pulled: Seq<Result<Chunk, ErrorCode>>,
    report: Report,
) -> Seq<ActionView> {
    sends(answer.action@) + transcript(answer.response.stage(), pulled, report)
}

/// Every query is answered in full: a failed query with its error, a query without a result set
/// with one reply, a result set with its columns, its rows and its end, and a result set with a
/// field that has no column type with one error.
pub proof fn law_every_query_is_answered<W, S, R: ProgressReporter>(
    query_result: Result<QueryResult<S, R>, ErrorCode>,
    answer: Answer<W, S, R>,
    pulled: Seq<Result<Chunk, ErrorCode>>,
    report: Report,
)
    requires
        begins(query_result, answer),
    ensures
        match query_result {
            Err(error) => whole_answer(answer, pulled, report) == seq![
                ActionView::Error(query_error(error)),
            ],
            Ok(result) => if !result.has_result_set() {
                whole_answer(answer, pulled, report) == seq![completion(pulled, report)]
            } else if is_supported(result.schema().fields@) {
                whole_answer(answer, pulled, report) == seq![
                    ActionView::Start(schema_columns(result.schema().fields@)),
                ] + result_set(pulled, report)
            } else {
                exists|error: ErrorCode|
                    is_schema_error(error, result.schema().fields@) && whole_answer(
                        answer,
                        pulled,
                        report,
                    ) == seq![ActionView::Error(#[trigger] query_error(error))]
            },
        },
{
    law_completion_is_all_that_is_sent(pulled, report);
    law_result_set_is_sent_in_order(pulled, report);
    lemma_closing_sends_nothing(pulled, report);
    match query_result {
        Err(error) => {
            assert(whole_answer(answer, pulled, report) =~= seq![
                ActionView::Error(query_error(error)),
            ]);
        },
        Ok(result) => {
            if !result.has_result_set() {
                assert(whole_answer(answer, pulled, report) =~= seq![completion(pulled, report)]);
            } else if !is_supported(result.schema().fields@) {
                let error = answer.action->Error_0.error;
                assert(whole_answer(answer, pulled, report) =~= seq![
                    ActionView::Error(query_error(error)),
                ]);
            }
        },
    }
}

/// The result of a query holds what it was made of.
pub proof fn law_result_holds_what_it_is_made_of<S, R>(
    chunks: S,
    extra_info: Option<R>,
    has_result_set: bool,
    schema: DataSchema,
    result: QueryResult<S, R>,
)
    requires
        call_ensures(
            QueryResult::<S, R>::create,
            (chunks, extra_info, has_result_set, schema),
            result,
        ),
    ensures
        result.chunks() == chunks,
        result.extra_info() == extra_info,
        result.has_result_set() == has_result_set,
        result.schema() == schema,
{
}

/// The first query that is written through a writer is answered, through the connection that the
/// writer was made of, and no other query is.
pub proof fn law_first_query_is_answered_and_no_other<W, S, R: ProgressReporter>(
    connection: W,
    writer: DFQueryResultWriter<W>,
    first: &mut DFQueryResultWriter<W>,
    first_result: Result<QueryResult<S, R>, ErrorCode>,
    first_answer: Option<Answer<W, S, R>>,
    second: &mut DFQueryResultWriter<W>,
    second_result: Result<QueryResult<S, R>, ErrorCode>,
    second_answer: Option<Answer<W, S, R>>,
)
    requires
        call_ensures(DFQueryResultWriter::<W>::create, (connection,), writer),
        *old(first) == writer,
        call_ensures(
            DFQueryResultWriter::<W>::write::<S, R>,
            (first, first_result),
            first_answer,
        ),
        *old(second) == *final(first),
        call_ensures(
            DFQueryResultWriter::<W>::write::<S, R>,
            (second, second_result),
            second_answer,
        ),
    ensures
        first_answer is Some,
        first_answer->0.writer == connection,
        second_answer is None,
{
}

/// An answer begins as its query calls for. A failed query is told, with the error it failed with.
/// A query without a result set is drained. A result set is begun with the columns of all its
/// fields, in order; one with a field of which a client cannot be told is refused, with an error
/// that names the first such field.
pub proof fn law_answer_begins_as_its_query_calls_for<W, S, R: ProgressReporter>(
    writer: &mut DFQueryResultWriter<W>,
    query_result: Result<QueryResult<S, R>, ErrorCode>,
    answer: Answer<W, S, R>,
)
    requires
        call_ensures(
            DFQueryResultWriter::<W>::write::<S, R>,
            (writer, query_result),
            Some(answer),
        ),
    ensures
        query_result matches Err(error) ==> {
            &&& answer.chunks is None
            &&& answer.action is Error
            &&& is_query_reply(answer.action->Error_0, error)
            &&& answer.response.stage() is Closing
        },
        query_result matches Ok(result) ==> {
            &&& answer.chunks == Some(result.chunks())
            &&& answer.response.extra_info() == result.extra_info()
            &&& !result.has_result_set() ==> {
                &&& answer.action is PullChunk
                &&& answer.response.stage() is Draining
            }
            &&& result.has_result_set() && all_can_be_told(result.schema().fields@) ==> {
                &&& answer.action is Start
                &&& are_columns_of(answer.action->Start_0@, result.schema().fields@)
                &&& answer.response.stage() is Opening
            }
            &&& result.has_result_set() && !all_can_be_told(result.schema().fields@) ==> {
                &&& answer.action is Error
                &&& is_query_reply(answer.action->Error_0, answer.action->Error_0.error)
                &&& names_first_unsupported(
                    answer.action->Error_0.error,
                    result.schema().fields@,
                )
                &&& answer.response.stage() is Closing
            }
        },
{
    if let Ok(result) = query_result {
        let fields = result.schema().fields@;
        lemma_supported(fields);
        if result.has_result_set() {
            if all_can_be_told(fields) {
                lemma_schema_columns(fields, answer.action->Start_0@);
            } else {
                lemma_schema_error(answer.action->Error_0.error, fields);
            }
        }
    }
}

/// Whether a client can be told of each of the fields.
pub open spec fn all_can_be_told(fields: Seq<DataField>) -> bool {
    forall|i: int| 0 <= i < fields.len() ==> can_be_told((#[trigger] fields[i]).data_type)
}

} // verus!
