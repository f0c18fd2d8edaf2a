//! The answer to a query, step by step.
//!
//! An answer alternates waiting and deciding: it pulls a chunk of the result, or sends a part of
//! the answer, waits for the outcome, and decides what to do next. [`Response`] takes the
//! decisions. Whoever holds the connection performs each [`Action`] and hands the outcome back as
//! an [`Event`].
use crate::error::ErrorCode;
use crate::mysql::cell::{
    carries_row, cell_of, lemma_row_is_carried, row_of, write_row, Cell, Chunk, Scalar,
};
use crate::mysql::column::{column_views, Column, ColumnView};
use crate::mysql::query_result_writer::ProgressReporter;
use vstd::prelude::*;

verus! {

/// The error codes of the MySQL protocol that answers have.
#[derive(Clone, Copy, Debug, PartialEq, Eq, Structural)]
#[allow(non_camel_case_types)]
pub enum ErrorKind {
    ER_UNKNOWN_ERROR,
    ER_ABORTING_CONNECTION,
}

/// Where an error came up.
#[derive(Clone, Copy, Debug, PartialEq, Eq, Structural)]
pub enum ErrorContext {
    /// The query failed, or its answer could not be begun.
    Query,
    /// While a query without a result set ran.
    DatasetWrite,
    /// While the rows of a result set were sent.
    ResultRowWrite,
}

/// An error, as a client is told of it.
#[derive(Debug, PartialEq, Eq)]
pub struct ErrorReply {
    /// The error code of the protocol.
    pub kind: ErrorKind,
    /// Where the error came up.
    pub context: ErrorContext,
    /// The error.
    pub error: ErrorCode,
}

/// What stands before the text of an error.
pub open spec fn context_text(context: ErrorContext) -> Seq<char> {
    match context {
        ErrorContext::Query => Seq::empty(),
        ErrorContext::DatasetWrite => "dataset write failed: "@,
        ErrorContext::ResultRowWrite => "result row write failed: "@,
    }
}

impl ErrorReply {
    /// The text that is sent, where the error itself reads `rendered`.
    pub fn text(&self, rendered: &str) -> (text: String)
        ensures
            text@ == context_text(self.context) + rendered@,
    {
        let mut text = String::new();
        match self.context {
            ErrorContext::Query => {},
            ErrorContext::DatasetWrite => {
                text.append("dataset write failed: ");
            },
            ErrorContext::ResultRowWrite => {
                text.append("result row write failed: ");
            },
        }
        text.append(rendered);
        assert(text@ =~= context_text(self.context) + rendered@);
        text
    }
}

/// What a client is told of a failed query. An abort closes the connection; any other error is
/// an unknown error to the protocol.
pub open spec fn query_error(error: ErrorCode) -> ErrorReply {
    ErrorReply {
        kind: if error.spec_is_abort() {
            ErrorKind::ER_ABORTING_CONNECTION
        } else {
            ErrorKind::ER_UNKNOWN_ERROR
        },
        context: ErrorContext::Query,
        error,
    }
}

/// What a client is told of an error that comes up later.
pub open spec fn late_error(context: ErrorContext, error: ErrorCode) -> ErrorReply {
    ErrorReply { kind: ErrorKind::ER_UNKNOWN_ERROR, context, error }
}

/// What a client is told of a failed query.
pub fn err(error: ErrorCode) -> (reply: ErrorReply)
    ensures
        reply == query_error(error),
{
    if !error.is_abort() {
        ErrorReply { kind: ErrorKind::ER_UNKNOWN_ERROR, context: ErrorContext::Query, error }
    } else {
        ErrorReply { kind: ErrorKind::ER_ABORTING_CONNECTION, context: ErrorContext::Query, error }
    }
}

/// What to do next.
#[derive(Debug, PartialEq, Eq)]
pub enum Action {
    /// Pull the next chunk of the result.
    PullChunk,
    /// Begin a result set with these columns.
    Start(Vec<Column>),
    /// Send these cells and end the row.
    WriteRow(Vec<Cell>),
    /// Send that a query without a result set is done.
    Completed {
        /// The number of rows that the query changed.
        affected_rows: u64,
    },
    /// Send an error in place of a result.
    Error(ErrorReply),
    /// End the result set with an error.
    FinishError(ErrorReply),
    /// End the result set.
    FinishWithInfo {
        /// The progress, as text.
        info: String,
    },
    /// Stop: the answer is over, or could not be sent.
    Return(Result<(), ErrorCode>),
}

/// An action, by what it holds.
#[verifier::ext_equal]
pub enum ActionView {
    PullChunk,
    Start(Seq<ColumnView>),
    WriteRow(Seq<Cell>),
    Completed { affected_rows: u64 },
    Error(ErrorReply),
    FinishError(ErrorReply),
    FinishWithInfo { info: Seq<char> },
    Return(Result<(), ErrorCode>),
}

impl View for Action {
    type V = ActionView;

    open spec fn view(&self) -> ActionView {
        match *self {
            Action::PullChunk => ActionView::PullChunk,
            Action::Start(columns) => ActionView::Start(column_views(columns@)),
            Action::WriteRow(cells) => ActionView::WriteRow(cells@),
            Action::Completed { affected_rows } => ActionView::Completed { affected_rows },
            Action::Error(reply) => ActionView::Error(reply),
            Action::FinishError(reply) => ActionView::FinishError(reply),
            Action::FinishWithInfo { info } => ActionView::FinishWithInfo { info: info@ },
            Action::Return(outcome) => ActionView::Return(outcome),
        }
    }
}

/// What came of an action.
#[derive(Debug, PartialEq, Eq)]
pub enum Event {
    /// A chunk was pulled, or its place was taken by an error, or the result has ended.
    Chunk(Option<Result<Chunk, ErrorCode>>),
    /// Something was sent, or could not be sent.
    Sent(Result<(), ErrorCode>),
}

/// How far an answer has come.
#[derive(Debug, PartialEq, Eq)]
pub enum Stage {
    /// The query has no result set. Its chunks are pulled all the same, for an error among them.
    Draining,
    /// The columns are being sent.
    Opening,
    /// A chunk of the result set is being pulled.
    Streaming,
    /// A row of a chunk is being sent.
    Writing {
        /// The chunk.
        chunk: Chunk,
        /// The index of the row.
        row: usize,
    },
    /// The end of the answer is being sent.
    Closing,
    /// The answer is over.
    Closed,
}

impl Stage {
    /// Whether a row that is being sent is one of its chunk.
    pub open spec fn wf(self) -> bool {
        match self {
            Stage::Writing { chunk, row } => chunk.wf() && row < chunk.num_rows,
            _ => true,
        }
    }

    /// Whether this is what the answer waits for.
    pub open spec fn awaits(self, event: Event) -> bool {
        match (self, event) {
            (Stage::Draining, Event::Chunk(_)) => true,
            (Stage::Streaming, Event::Chunk(pulled)) => pulled matches Some(Ok(chunk))
                ==> chunk.wf(),
            (Stage::Opening, Event::Sent(_)) => true,
            (Stage::Writing { .. }, Event::Sent(_)) => true,
            (Stage::Closing, Event::Sent(_)) => true,
            _ => false,
        }
    }
}

/// What a progress reporter says.
pub struct Report {
    pub affected_rows: u64,
    pub progress_info: Seq<char>,
}

/// The action that sends a row of a chunk.
pub open spec fn row_action(chunk: Chunk, row: usize) -> ActionView {
    ActionView::WriteRow(row_of(chunk, row))
}

/// How an answer goes on: the next stage and the next action.
pub open spec fn next(stage: Stage, event: Event, report: Report) -> (Stage, ActionView) {
    match (stage, event) {
        (Stage::Draining, Event::Chunk(Some(Ok(_)))) => (Stage::Draining, ActionView::PullChunk),
        (Stage::Draining, Event::Chunk(Some(Err(error)))) => (
            Stage::Closing,
            ActionView::Error(late_error(ErrorContext::DatasetWrite, error)),
        ),
        (Stage::Draining, Event::Chunk(None)) => (
            Stage::Closing,
            ActionView::Completed { affected_rows: report.affected_rows },
        ),
        (Stage::Streaming, Event::Chunk(Some(Ok(chunk)))) => if chunk.num_rows == 0 {
            (Stage::Streaming, ActionView::PullChunk)
        } else {
            (Stage::Writing { chunk, row: 0 }, row_action(chunk, 0))
        },
        (Stage::Streaming, Event::Chunk(Some(Err(error)))) => (
            Stage::Closing,
            ActionView::FinishError(late_error(ErrorContext::ResultRowWrite, error)),
        ),
        (Stage::Streaming, Event::Chunk(None)) => (
            Stage::Closing,
            ActionView::FinishWithInfo { info: report.progress_info },
        ),
        (Stage::Opening, Event::Sent(Ok(()))) => (Stage::Streaming, ActionView::PullChunk),
        (Stage::Writing { chunk, row }, Event::Sent(Ok(()))) => if row + 1 < chunk.num_rows {
            (
                Stage::Writing { chunk, row: (row + 1) as usize },
                row_action(chunk, (row + 1) as usize),
            )
        } else {
            (Stage::Streaming, ActionView::PullChunk)
        },
        (Stage::Closing, Event::Sent(Ok(()))) => (Stage::Closed, ActionView::Return(Ok(()))),
        (_, Event::Sent(Err(error))) => (Stage::Closed, ActionView::Return(Err(error))),
        _ => (Stage::Closed, ActionView::Return(Ok(()))),
    }
}

/// Whether a query may have changed this many rows, as its reporter, where there is one, says.
pub open spec fn rows_reported<R: ProgressReporter>(extra_info: Option<R>, rows: u64) -> bool {
    match extra_info {
        Some(reporter) => call_ensures(R::affected_rows, (&reporter,), rows),
        None => rows == 0,
    }
}

/// Whether this may be the progress of a query, as its reporter, where there is one, says.
pub open spec fn info_reported<R: ProgressReporter>(
    extra_info: Option<R>,
    info: Seq<char>,
) -> bool {
    match extra_info {
        Some(reporter) => exists|text: String|
            #[trigger] call_ensures(R::progress_info, (&reporter,), text) && text@ == info,
        None => info == Seq::<char>::empty(),
    }
}

/// Whether the answer goes on in this way, with what the reporter says where it is asked.
pub open spec fn goes_on<R: ProgressReporter>(
    extra_info: Option<R>,
    stage: Stage,
    event: Event,
    report: Report,
    after: Stage,
    action: ActionView,
) -> bool {
    &&& (after, action) == next(stage, event, report)
    &&& stage is Draining && event == Event::Chunk(None) ==> rows_reported(
        extra_info,
        report.affected_rows,
    )
    &&& stage is Streaming && event == Event::Chunk(None) ==> info_reported(
        extra_info,
        report.progress_info,
    )
}

/// The action that ends the answer to a query without a result set, from what the reporter says,
/// where there is one.
pub fn completed(affected_rows: Option<u64>) -> (action: Action)
    ensures
        action@ == (ActionView::Completed {
            affected_rows: match affected_rows {
                Some(rows) => rows,
                None => 0,
            },
        }),
{
    match affected_rows {
        Some(rows) => Action::Completed { affected_rows: rows },
        None => Action::Completed { affected_rows: 0 },
    }
}

/// The action that ends a result set, from what the reporter says, where there is one.
pub fn finished(progress_info: Option<String>) -> (action: Action)
    ensures
        action@ == (ActionView::FinishWithInfo {
            info: match progress_info {
                Some(info) => info@,
                None => Seq::empty(),
            },
        }),
{
    match progress_info {
        Some(info) => Action::FinishWithInfo { info },
        None => Action::FinishWithInfo { info: String::new() },
    }
}

/// An answer that is being sent.
#[derive(Debug)]
pub struct Response<R> {
    stage: Stage,
    extra_info: Option<R>,
}

impl<R: ProgressReporter> Response<R> {
    /// How far the answer has come.
    pub closed spec fn stage(self) -> Stage {
        self.stage
    }

    /// The reporter of the query.
    pub closed spec fn extra_info(self) -> Option<R> {
        self.extra_info
    }

    /// An answer at its beginning.
    pub(crate) fn at(stage: Stage, extra_info: Option<R>) -> (response: Response<R>)
        ensures
            response.stage() == stage,
            response.extra_info() == extra_info,
    {
        Response { stage, extra_info }
    }

    /// Takes what came of the last action, and gives the next one.
    pub fn step(self, event: Event) -> (stepped: (Response<R>, Action))
        requires
            self.stage().wf(),
            self.stage().awaits(event),
        ensures
            stepped.0.stage().wf(),
            stepped.0.extra_info() == self.extra_info(),
            exists|report: Report|
                #[trigger] goes_on(
                    self.extra_info(),
                    self.stage(),
                    event,
                    report,
                    stepped.0.stage(),
                    stepped.1@,
                ),
    {
        let ghost none = Report { affected_rows: 0, progress_info: Seq::empty() };
        let ghost extra = self.extra_info();
        let ghost before = self.stage();
        let ghost mut report = none;
        let extra_info = self.extra_info;
        let (stage, action) = match (self.stage, event) {
            (_, Event::Sent(Err(error))) => (Stage::Closed, Action::Return(Err(error))),
            (Stage::Draining, Event::Chunk(Some(Ok(_)))) => (Stage::Draining, Action::PullChunk),
            (Stage::Draining, Event::Chunk(Some(Err(error)))) => (
                Stage::Closing,
                Action::Error(
                    ErrorReply {
                        kind: ErrorKind::ER_UNKNOWN_ERROR,
                        context: ErrorContext::DatasetWrite,
                        error,
                    },
                ),
            ),
            (Stage::Draining, Event::Chunk(None)) => {
                let rows = match &extra_info {
                    Some(reporter) => Some(reporter.affected_rows()),
                    None => None,
                };
                proof {
                    report = Report {
                        affected_rows: match rows {
                            Some(rows) => rows,
                            None => 0,
                        },
                        ..none
                    };
                }
                (Stage::Closing, completed(rows))
            },
            (Stage::Streaming, Event::Chunk(Some(Ok(chunk)))) => if chunk.num_rows == 0 {
                (Stage::Streaming, Action::PullChunk)
            } else {
                let cells = write_row(&chunk, 0);
                (Stage::Writing { chunk, row: 0 }, Action::WriteRow(cells))
            },
            (Stage::Streaming, Event::Chunk(Some(Err(error)))) => (
                Stage::Closing,
                Action::FinishError(
                    ErrorReply {
                        kind: ErrorKind::ER_UNKNOWN_ERROR,
                        context: ErrorContext::ResultRowWrite,
                        error,
                    },
                ),
            ),
            (Stage::Streaming, Event::Chunk(None)) => {
                let info = match &extra_info {
                    Some(reporter) => Some(reporter.progress_info()),
                    None => None,
                };
                proof {
                    report = Report {
                        progress_info: match &info {
                            Some(info) => info@,
                            None => Seq::empty(),
                        },
                        ..none
                    };
                }
                (Stage::Closing, finished(info))
            },
            (Stage::Opening, Event::Sent(Ok(()))) => (Stage::Streaming, Action::PullChunk),
            (Stage::Writing { chunk, row }, Event::Sent(Ok(()))) => if row + 1 < chunk.num_rows {
                let cells = write_row(&chunk, row + 1);
                (Stage::Writing { chunk, row: row + 1 }, Action::WriteRow(cells))
            } else {
                (Stage::Streaming, Action::PullChunk)
            },
            _ => (Stage::Closed, Action::Return(Ok(()))),
        };
        let after = Response { stage, extra_info };
        let stepped = (after, action);
        assert(goes_on(extra, before, event, report, stepped.0.stage(), stepped.1@));
        stepped
    }
}

/// An error that comes up while something is sent ends the answer: nothing more is sent.
pub proof fn law_failed_send_ends_the_answer(stage: Stage, error: ErrorCode, report: Report)
    requires
        stage.awaits(Event::Sent(Err(error))),
    ensures
        next(stage, Event::Sent(Err(error)), report) == (
            Stage::Closed,
            ActionView::Return(Err(error)),
        ),
{
}

/// How many steps an answer takes at most before it pulls a chunk or is over.
pub open spec fn steps_left(stage: Stage) -> nat {
    match stage {
        Stage::Closed => 0,
        Stage::Closing => 1,
        Stage::Draining | Stage::Streaming => 2,
        Stage::Opening => 3,
        Stage::Writing { chunk, row } => if row < chunk.num_rows {
            (chunk.num_rows - row + 2) as nat
        } else {
            3
        },
    }
}

/// What an action sends to the client.
pub open spec fn sends(action: ActionView) -> Seq<ActionView> {
    match action {
        ActionView::PullChunk | ActionView::Return(_) => Seq::empty(),
        _ => seq![action],
    }
}

/// All that is sent from a stage on, where the result goes on with the chunks `pulled` and then
/// ends, and everything can be sent.
pub open spec fn transcript(
    stage: Stage,
    pulled: Seq<Result<Chunk, ErrorCode>>,
    report: Report,
) -> Seq<ActionView>
    decreases pulled.len(), steps_left(stage),
{
    match stage {
        Stage::Closed => Seq::empty(),
        Stage::Draining | Stage::Streaming => if pulled.len() == 0 {
            let (after, action) = next(stage, Event::Chunk(None), report);
            sends(action) + transcript(after, pulled, report)
        } else {
            let (after, action) = next(stage, Event::Chunk(Some(pulled[0])), report);
            sends(action) + transcript(after, pulled.drop_first(), report)
        },
        _ => {
            let (after, action) = next(stage, Event::Sent(Ok(())), report);
            sends(action) + transcript(after, pulled, report)
        },
    }
}

/// The rows of a chunk from a row on, in order.
pub open spec fn rows_from(chunk: Chunk, row: usize) -> Seq<ActionView> {
    Seq::new((chunk.num_rows - row) as nat, |i: int| row_action(chunk, (row + i) as usize))
}

/// What is sent of a result set behind its columns: the rows of each chunk, and then its end. An
/// error takes the place of all that would follow it.
pub open spec fn result_set(
    pulled: Seq<Result<Chunk, ErrorCode>>,
    report: Report,
) -> Seq<ActionView>
    decreases pulled.len(),
{
    if pulled.len() == 0 {
        seq![ActionView::FinishWithInfo { info: report.progress_info }]
    } else {
        match pulled[0] {
            Err(error) => seq![
                ActionView::FinishError(late_error(ErrorContext::ResultRowWrite, error)),
            ],
            Ok(chunk) => rows_from(chunk, 0) + result_set(pulled.drop_first(), report),
        }
    }
}

/// What is sent for a query without a result set: the first error among its chunks, or that the
/// query is done.
pub open spec fn completion(
    pulled: Seq<Result<Chunk, ErrorCode>>,
    report: Report,
) -> ActionView
    decreases pulled.len(),
{
    if pulled.len() == 0 {
        ActionView::Completed { affected_rows: report.affected_rows }
    } else {
        match pulled[0] {
            Err(error) => ActionView::Error(late_error(ErrorContext::DatasetWrite, error)),
            Ok(_) => completion(pulled.drop_first(), report),
        }
    }
}

/// A query without a result set is answered with one reply, whatever its chunks are.
pub proof fn law_completion_is_all_that_is_sent(
    pulled: Seq<Result<Chunk, ErrorCode>>,
    report: Report,
)
    ensures
        transcript(Stage::Draining, pulled, report) == seq![completion(pulled, report)],
    decreases pulled.len(),
{
    if pulled.len() > 0 && pulled[0] is Ok {
        law_completion_is_all_that_is_sent(pulled.drop_first(), report);
        assert(transcript(Stage::Draining, pulled, report) =~= seq![completion(pulled, report)]);
    } else {
        let rest = if pulled.len() == 0 {
            pulled
        } else {
            pulled.drop_first()
        };
        lemma_closing_sends_nothing(rest, report);
        assert(transcript(Stage::Draining, pulled, report) =~= seq![completion(pulled, report)]);
    }
}

/// Once its end is being sent, an answer sends nothing more.
pub(crate) proof fn lemma_closing_sends_nothing(pulled: Seq<Result<Chunk, ErrorCode>>, report: Report)
    ensures
        transcript(Stage::Closing, pulled, report) == Seq::<ActionView>::empty(),
{
    assert(transcript(Stage::Closed, pulled, report) =~= Seq::empty());
    assert(transcript(Stage::Closing, pulled, report) =~= Seq::empty());
}

proof fn lemma_chunk_is_sent(
    chunk: Chunk,
    row: usize,
    pulled: Seq<Result<Chunk, ErrorCode>>,
    report: Report,
)
    requires
        row < chunk.num_rows,
    ensures
        seq![row_action(chunk, row)] + transcript(Stage::Writing { chunk, row }, pulled, report)
            == rows_from(chunk, row) + transcript(Stage::Streaming, pulled, report),
    decreases chunk.num_rows - row,
{
    let stage = Stage::Writing { chunk, row };
    if row + 1 < chunk.num_rows {
        let behind = (row + 1) as usize;
        lemma_chunk_is_sent(chunk, behind, pulled, report);
        assert(transcript(stage, pulled, report) =~= seq![row_action(chunk, behind)] + transcript(
            Stage::Writing { chunk, row: behind },
            pulled,
            report,
        ));
        assert(rows_from(chunk, row) =~= seq![row_action(chunk, row)] + rows_from(chunk, behind));
        assert(seq![row_action(chunk, row)] + (rows_from(chunk, behind) + transcript(
            Stage::Streaming,
            pulled,
            report,
        )) =~= rows_from(chunk, row) + transcript(Stage::Streaming, pulled, report));
    } else {
        assert(transcript(stage, pulled, report) =~= transcript(Stage::Streaming, pulled, report));
        assert(rows_from(chunk, row) =~= seq![row_action(chunk, row)]);
    }
}

/// Behind the columns of a result set exactly its rows are sent, in order, and then its end.
pub proof fn law_result_set_is_sent_in_order(
    pulled: Seq<Result<Chunk, ErrorCode>>,
    report: Report,
)
    ensures
        transcript(Stage::Streaming, pulled, report) == result_set(pulled, report),
        transcript(Stage::Opening, pulled, report) == result_set(pulled, report),
    decreases pulled.len(),
{
    if pulled.len() == 0 {
        lemma_closing_sends_nothing(pulled, report);
        assert(transcript(Stage::Streaming, pulled, report) =~= result_set(pulled, report));
    } else {
        let rest = pulled.drop_first();
        law_result_set_is_sent_in_order(rest, report);
        match pulled[0] {
            Err(_) => {
                lemma_closing_sends_nothing(rest, report);
                assert(transcript(Stage::Streaming, pulled, report) =~= result_set(pulled, report));
            },
            Ok(chunk) => {
                if chunk.num_rows > 0 {
                    lemma_chunk_is_sent(chunk, 0, rest, report);
                }
                assert(transcript(Stage::Streaming, pulled, report) =~= result_set(pulled, report));
            },
        }
    }
    assert(transcript(Stage::Opening, pulled, report) =~= transcript(
        Stage::Streaming,
        pulled,
        report,
    ));
}

/// Whether an action ends an answer.
pub open spec fn ends(action: ActionView) -> bool {
    match action {
        ActionView::Completed { .. }
        | ActionView::Error(_)
        | ActionView::FinishError(_)
        | ActionView::FinishWithInfo { .. } => true,
        _ => false,
    }
}

/// A result set is ended exactly once, at its end; all that is sent before are rows.
pub proof fn law_result_set_ends_once(pulled: Seq<Result<Chunk, ErrorCode>>, report: Report, i: int)
    requires
        0 <= i < result_set(pulled, report).len(),
    ensures
        result_set(pulled, report)[i] is WriteRow == (i < result_set(pulled, report).len() - 1),
        ends(result_set(pulled, report)[i]) == (i == result_set(pulled, report).len() - 1),
    decreases pulled.len(),
{
    if pulled.len() > 0 {
        if let Ok(chunk) = pulled[0] {
            let rest = result_set(pulled.drop_first(), report);
            lemma_result_set_is_not_empty(pulled.drop_first(), report);
            if i >= rows_from(chunk, 0).len() {
                law_result_set_ends_once(
                    pulled.drop_first(),
                    report,
                    i - rows_from(chunk, 0).len(),
                );
            }
        }
    }
}

proof fn lemma_result_set_is_not_empty(pulled: Seq<Result<Chunk, ErrorCode>>, report: Report)
    ensures
        result_set(pulled, report).len() > 0,
    decreases pulled.len(),
{
    if pulled.len() > 0 && pulled[0] is Ok {
        lemma_result_set_is_not_empty(pulled.drop_first(), report);
    }
}

/// A chunk, together with the values of its columns as the field encoder reads them.
pub struct Block<V> {
    pub chunk: Chunk,
    pub values: Seq<Seq<V>>,
}

impl<V> Block<V> {
    /// Whether each column has a value for each row.
    pub open spec fn wf(self) -> bool {
        &&& self.chunk.wf()
        &&& self.values.len() == self.chunk.columns@.len()
        &&& forall|c: int|
            0 <= c < self.values.len() ==> (#[trigger] self.values[c]).len() == self.chunk.num_rows
    }

    /// The values of a row, one for each column, each with what the chunk says of it.
    pub open spec fn row(self, row: int) -> Seq<(Scalar, V)> {
        Seq::new(
            self.chunk.columns@.len(),
            |c: int| (self.chunk.columns@[c]@[row], self.values[c][row]),
        )
    }

    /// The rows, in order.
    pub open spec fn rows(self) -> Seq<Seq<(Scalar, V)>> {
        Seq::new(self.chunk.num_rows as nat, |i: int| self.row(i))
    }
}

/// The rows of a result: those of each block, one block behind the other.
pub open spec fn result_rows<V>(blocks: Seq<Block<V>>) -> Seq<Seq<(Scalar, V)>>
    decreases blocks.len(),
{
    if blocks.len() == 0 {
        Seq::empty()
    } else {
        blocks[0].rows() + result_rows(blocks.drop_first())
    }
}

/// What goes out for a value.
pub enum Written<V> {
    /// A cell that needs no field encoder.
    Plain(Cell),
    /// What the field encoder writes for this value.
    Encoded(V),
}

/// What goes out for a cell, where `values` are the values of the chunk that was pulled last.
pub open spec fn written<V>(cell: Cell, values: Seq<Seq<V>>) -> Written<V> {
    match cell {
        Cell::Field { column, row } => Written::Encoded(values[column as int][row as int]),
        _ => Written::Plain(cell),
    }
}

/// What goes out for a value of a result.
pub open spec fn written_value<V>(value: (Scalar, V)) -> Written<V> {
    match cell_of(value.0, 0, 0) {
        Cell::Field { .. } => Written::Encoded(value.1),
        cell => Written::Plain(cell),
    }
}

/// What comes out of an answer.
#[verifier::ext_equal]
pub enum Output<V> {
    /// A row.
    Row(Seq<Written<V>>),
    /// Anything else that is sent, or the outcome that is returned.
    Other(ActionView),
}

/// What comes out of an action, where `values` are the values of the chunk that was pulled last.
pub open spec fn output_of<V>(action: ActionView, values: Seq<Seq<V>>) -> Seq<Output<V>> {
    match action {
        ActionView::PullChunk => Seq::empty(),
        ActionView::WriteRow(cells) => seq![
            Output::Row(cells.map_values(|cell: Cell| written(cell, values))),
        ],
        _ => seq![Output::Other(action)],
    }
}

/// What an answer meets on its way, besides the chunks of the result.
pub struct Course {
    /// What the reporter says.
    pub report: Report,
    /// The error with which the result ends, where it ends with one.
    pub failure: Option<ErrorCode>,
    /// What comes of each thing that is sent, by how many were sent before it.
    pub outcome: spec_fn(nat) -> Result<(), ErrorCode>,
}

impl Course {
    /// The event that comes behind the chunks of the result.
    pub open spec fn ending(self) -> Event {
        match self.failure {
            Some(error) => Event::Chunk(Some(Err(error))),
            None => Event::Chunk(None),
        }
    }
}

/// All that comes out of an answer from a stage on, where the chunk that was pulled last has the
/// values `values`, the result goes on with the blocks `blocks`, and `sent` things were sent.
pub open spec fn outputs<V>(
    stage: Stage,
    values: Seq<Seq<V>>,
    blocks: Seq<Block<V>>,
    course: Course,
    sent: nat,
) -> Seq<Output<V>>
    decreases blocks.len(), steps_left(stage),
{
    match stage {
        Stage::Closed => Seq::empty(),
        Stage::Draining | Stage::Streaming => if blocks.len() == 0 {
            let (after, action) = next(stage, course.ending(), course.report);
            output_of(action, values) + outputs(after, values, blocks, course, sent)
        } else {
            let pulled = Event::Chunk(Some(Ok(blocks[0].chunk)));
            let (after, action) = next(stage, pulled, course.report);
            output_of(action, blocks[0].values) + outputs(
                after,
                blocks[0].values,
                blocks.drop_first(),
                course,
                sent,
            )
        },
        _ => {
            let (after, action) = next(stage, Event::Sent((course.outcome)(sent)), course.report);
            output_of(action, values) + outputs(after, values, blocks, course, sent + 1)
        },
    }
}

/// What comes out for the rows of a result set: the rows, in order, then the end of the result
/// set, and then the outcome. What cannot be sent is the last thing that goes out.
pub open spec fn rows_output<V>(
    rows: Seq<Seq<(Scalar, V)>>,
    course: Course,
    sent: nat,
) -> Seq<Output<V>>
    decreases rows.len(),
{
    if rows.len() == 0 {
        seq![
            Output::Other(
                match course.failure {
                    Some(error) => ActionView::FinishError(
                        late_error(ErrorContext::ResultRowWrite, error),
                    ),
                    None => ActionView::FinishWithInfo { info: course.report.progress_info },
                },
            ),
            Output::Other(ActionView::Return((course.outcome)(sent))),
        ]
    } else {
        seq![Output::Row(rows[0].map_values(|value: (Scalar, V)| written_value(value)))] + match (
        course.outcome)(sent) {
            Ok(_) => rows_output(rows.drop_first(), course, sent + 1),
            Err(error) => seq![Output::Other(ActionView::Return(Err(error)))],
        }
    }
}

/// The cells of a row are made of the values of the row.
proof fn lemma_row_is_written<V>(block: Block<V>, row: usize)
    requires
        block.wf(),
        row < block.chunk.num_rows,
    ensures
        output_of(row_action(block.chunk, row), block.values) == seq![
            Output::Row(
                block.row(row as int).map_values(|value: (Scalar, V)| written_value(value)),
            ),
        ],
{
    let columns = block.chunk.columns.len();
    assert(row_of(block.chunk, row).map_values(|cell: Cell| written(cell, block.values))
        =~= block.row(row as int).map_values(|value: (Scalar, V)| written_value(value)));
}

/// The rows of a block from a row on are what comes out of the answer until the next chunk is
/// pulled.
proof fn lemma_block_is_written<V>(
    block: Block<V>,
    row: usize,
    rest: Seq<Block<V>>,
    course: Course,
    sent: nat,
)
    requires
        block.wf(),
        row < block.chunk.num_rows,
        forall|count: nat|
            #[trigger] outputs(Stage::Streaming, block.values, rest, course, count) == rows_output(
                result_rows(rest),
                course,
                count,
            ),
    ensures
        output_of(row_action(block.chunk, row), block.values) + outputs(
            Stage::Writing { chunk: block.chunk, row },
            block.values,
            rest,
            course,
            sent,
        ) == rows_output(block.rows().skip(row as int) + result_rows(rest), course, sent),
    decreases block.chunk.num_rows - row,
{
    let stage = Stage::Writing { chunk: block.chunk, row };
    let rows = block.rows().skip(row as int) + result_rows(rest);
    let own = output_of(row_action(block.chunk, row), block.values);
    let left = outputs(stage, block.values, rest, course, sent);
    lemma_row_is_written(block, row);
    assert(rows[0] == block.row(row as int));
    assert(rows.drop_first() =~= block.rows().skip(row + 1) + result_rows(rest));
    match (course.outcome)(sent) {
        Err(error) => {
            assert(outputs(Stage::Closed, block.values, rest, course, sent + 1) =~= Seq::empty());
            assert(left =~= seq![Output::Other(ActionView::Return(Err(error)))]);
        },
        Ok(_) => {
            if row + 1 < block.chunk.num_rows {
                lemma_block_is_written(block, (row + 1) as usize, rest, course, sent + 1);
            } else {
                assert(block.rows().skip(row + 1) + result_rows(rest) =~= result_rows(rest));
                assert(left =~= outputs(
                    Stage::Streaming,
                    block.values,
                    rest,
                    course,
                    sent + 1,
                ));
            }
        },
    }
    assert(own + left =~= rows_output(rows, course, sent));
}

/// Only the rows of a result set show in what comes out of its answer, and how the answer ends.
pub proof fn law_only_rows_show<V>(
    values: Seq<Seq<V>>,
    blocks: Seq<Block<V>>,
    course: Course,
    sent: nat,
)
    requires
        forall|i: int| 0 <= i < blocks.len() ==> (#[trigger] blocks[i]).wf(),
    ensures
        outputs(Stage::Streaming, values, blocks, course, sent) == rows_output(
            result_rows(blocks),
            course,
            sent,
        ),
    decreases blocks.len(),
{
    let all = outputs(Stage::Streaming, values, blocks, course, sent);
    if blocks.len() == 0 {
        let closing = outputs(Stage::Closing, values, blocks, course, sent);
        assert(outputs(Stage::Closed, values, blocks, course, sent + 1) =~= Seq::empty());
        if let Ok(done) = (course.outcome)(sent) {
            assert(done == ());
        }
        assert(closing =~= seq![Output::Other(ActionView::Return((course.outcome)(sent)))]);
        assert(all =~= rows_output(result_rows(blocks), course, sent));
    } else {
        let block = blocks[0];
        let rest = blocks.drop_first();
        assert forall|i: int| 0 <= i < rest.len() implies (#[trigger] rest[i]).wf() by {
            assert(blocks[i + 1].wf());
        }
        assert forall|count: nat|
            #[trigger] outputs(Stage::Streaming, block.values, rest, course, count) == rows_output(
                result_rows(rest),
                course,
                count,
            ) by {
            law_only_rows_show(block.values, rest, course, count);
        }
        if block.chunk.num_rows > 0 {
            lemma_block_is_written(block, 0, rest, course, sent);
            assert(block.rows().skip(0) =~= block.rows());
        } else {
            assert(result_rows(blocks) =~= result_rows(rest));
            assert(all =~= outputs(Stage::Streaming, block.values, rest, course, sent));
        }
    }
}

/// The bounds of the chunks do not show: two results with the same rows, however these are cut
/// into chunks, are answered in the same way. The same things go out in the same order, each
/// value in the same column of the same row, and the outcome is the same.
pub proof fn law_chunk_bounds_do_not_show<V>(
    first: Seq<Block<V>>,
    second: Seq<Block<V>>,
    course: Course,
    sent: nat,
)
    requires
        forall|i: int| 0 <= i < first.len() ==> (#[trigger] first[i]).wf(),
        forall|i: int| 0 <= i < second.len() ==> (#[trigger] second[i]).wf(),
        result_rows(first) == result_rows(second),
    ensures
        outputs(Stage::Opening, Seq::empty(), first, course, sent) == outputs(
            Stage::Opening,
            Seq::empty(),
            second,
            course,
            sent,
        ),
{
    law_only_rows_show(Seq::empty(), first, course, sent + 1);
    law_only_rows_show(Seq::empty(), second, course, sent + 1);
    if (course.outcome)(sent) is Err {
        assert(outputs(Stage::Closed, Seq::empty(), first, course, sent + 1) =~= outputs(
            Stage::Closed,
            Seq::empty(),
            second,
            course,
            sent + 1,
        ));
    }
}

/// Whether a reply tells a client of this error, as an unknown error to the protocol that came up
/// there.
pub open spec fn is_late_reply(reply: ErrorReply, context: ErrorContext, error: ErrorCode) -> bool {
    &&& reply.kind is ER_UNKNOWN_ERROR
    &&& reply.context == context
    &&& reply.error == error
}

/// Whether a reply tells a client that a query failed with this error: as an aborted connection
/// just where the query or the session was aborted.
pub open spec fn is_query_reply(reply: ErrorReply, error: ErrorCode) -> bool {
    &&& reply.kind is ER_ABORTING_CONNECTION == (error.class is AbortedQuery
        || error.class is AbortedSession)
    &&& reply.context is Query
    &&& reply.error == error
}

/// A client is told of the very error that a query failed with.
pub proof fn law_failed_query_is_told(error: ErrorCode, reply: ErrorReply)
    requires
        call_ensures(err, (error,), reply),
    ensures
        is_query_reply(reply, error),
{
}

/// An error is an abort just where the query or the session was aborted.
pub proof fn law_aborts(error: ErrorCode, abort: bool)
    requires
        call_ensures(ErrorCode::is_abort, (&error,), abort),
    ensures
        abort == (error.class is AbortedQuery || error.class is AbortedSession),
{
}

/// The text of a reply ends with the error as it reads, and what stands before it says where the
/// error came up.
pub proof fn law_reply_reads_as_its_error(reply: ErrorReply, rendered: &str, text: String)
    requires
        call_ensures(ErrorReply::text, (&reply, rendered), text),
    ensures
        text@.len() >= rendered@.len(),
        text@.skip(text@.len() - rendered@.len()) == rendered@,
        text@.take(text@.len() - rendered@.len()) == match reply.context {
            ErrorContext::Query => ""@,
            ErrorContext::DatasetWrite => "dataset write failed: "@,
            ErrorContext::ResultRowWrite => "result row write failed: "@,
        },
{
    reveal_strlit("");
    let before = context_text(reply.context);
    assert(text@.skip(before.len() as int) =~= rendered@);
    assert(text@.take(before.len() as int) =~= before);
    assert(before =~= match reply.context {
        ErrorContext::Query => ""@,
        ErrorContext::DatasetWrite => "dataset write failed: "@,
        ErrorContext::ResultRowWrite => "result row write failed: "@,
    });
}

/// The number of rows that a query changed is the one that was reported, and 0 where none was.
pub proof fn law_completion_says_the_rows(affected_rows: Option<u64>, action: Action)
    requires
        call_ensures(completed, (affected_rows,), action),
    ensures
        action is Completed,
        affected_rows matches Some(rows) ==> action->affected_rows == rows,
        affected_rows is None ==> action->affected_rows == 0,
{
}

/// The progress of a query is the one that was reported, and empty where none was.
pub proof fn law_end_says_the_progress(progress_info: Option<String>, action: Action)
    requires
        call_ensures(finished, (progress_info,), action),
    ensures
        action is FinishWithInfo,
        progress_info matches Some(info) ==> action->info@ == info@,
        progress_info is None ==> action->info@.len() == 0,
{
    assert(action@ is FinishWithInfo);
}

/// A step that begins a chunk, or goes on with it, sends the next row of the chunk as it is, until
/// its rows are sent; then the next chunk is pulled. A chunk without rows sends nothing.
pub proof fn law_step_sends_the_next_row<R: ProgressReporter>(
    response: Response<R>,
    event: Event,
    stepped: (Response<R>, Action),
)
    requires
        call_ensures(Response::<R>::step, (response, event), stepped),
    ensures
        response.stage() is Streaming && event is Chunk && event->Chunk_0 is Some
            && event->Chunk_0->0 is Ok ==> goes_to_row(
            stepped,
            event->Chunk_0->0->Ok_0,
            0,
        ),
        response.stage() is Writing && event is Sent && event->Sent_0 is Ok ==> goes_to_row(
            stepped,
            response.stage()->chunk,
            response.stage()->row + 1,
        ),
        response.stage() is Opening && event is Sent && event->Sent_0 is Ok ==> {
            &&& stepped.1 is PullChunk
            &&& stepped.0.stage() is Streaming
        },
        response.stage() is Draining && event is Chunk && event->Chunk_0 is Some
            && event->Chunk_0->0 is Ok ==> {
            &&& stepped.1 is PullChunk
            &&& stepped.0.stage() is Draining
        },
        stepped.0.extra_info() == response.extra_info(),
{
    let report = lemma_step(response, event, stepped);
    if let Event::Chunk(Some(Ok(chunk))) = event {
        lemma_row_is_carried(chunk, 0);
    }
    if let Stage::Writing { chunk, row } = response.stage() {
        lemma_row_is_carried(chunk, (row + 1) as usize);
    }
}

/// Whether an answer goes on with a row of a chunk, where the chunk has so many, and pulls the next
/// chunk, where it has not.
pub open spec fn goes_to_row<R: ProgressReporter>(
    stepped: (Response<R>, Action),
    chunk: Chunk,
    row: int,
) -> bool {
    if row < chunk.num_rows {
        &&& stepped.1 is WriteRow
        &&& carries_row(stepped.1->WriteRow_0@, chunk, row)
        &&& stepped.0.stage() is Writing
        &&& stepped.0.stage()->chunk == chunk
        &&& stepped.0.stage()->row == row
    } else {
        &&& stepped.1 is PullChunk
        &&& stepped.0.stage() is Streaming
    }
}

/// How an answer went on.
proof fn lemma_step<R: ProgressReporter>(
    response: Response<R>,
    event: Event,
    stepped: (Response<R>, Action),
) -> (report: Report)
    requires
        call_ensures(Response::<R>::step, (response, event), stepped),
    ensures
        goes_on(
            response.extra_info(),
            response.stage(),
            event,
            report,
            stepped.0.stage(),
            stepped.1@,
        ),
{
    choose|report: Report|
        #[trigger] goes_on(
            response.extra_info(),
            response.stage(),
            event,
            report,
            stepped.0.stage(),
            stepped.1@,
        )
}

/// A step tells a client of the very error that the result brought, as one of the rows or of a
/// query without any, and then waits for nothing but the outcome. An error in sending is
/// returned as it is.
pub proof fn law_step_tells_the_error<R: ProgressReporter>(
    response: Response<R>,
    event: Event,
    stepped: (Response<R>, Action),
)
    requires
        call_ensures(Response::<R>::step, (response, event), stepped),
    ensures
        event matches Event::Sent(Err(error)) ==> {
            &&& stepped.1 is Return
            &&& stepped.1->Return_0 == Err::<(), ErrorCode>(error)
            &&& stepped.0.stage() is Closed
        },
        response.stage() is Draining ==> (event matches Event::Chunk(Some(Err(error))) ==> {
            &&& stepped.1 is Error
            &&& is_late_reply(stepped.1->Error_0, ErrorContext::DatasetWrite, error)
            &&& stepped.0.stage() is Closing
        }),
        response.stage() is Streaming ==> (event matches Event::Chunk(Some(Err(error))) ==> {
            &&& stepped.1 is FinishError
            &&& is_late_reply(stepped.1->FinishError_0, ErrorContext::ResultRowWrite, error)
            &&& stepped.0.stage() is Closing
        }),
        response.stage() is Closing && event == Event::Sent(Ok(())) ==> {
            &&& stepped.1 is Return
            &&& stepped.1->Return_0 is Ok
            &&& stepped.0.stage() is Closed
        },
{
    let report = lemma_step(response, event, stepped);
}

/// The end of an answer says what the reporter of the query says, and nothing where there is none.
pub proof fn law_step_ends_with_the_report<R: ProgressReporter>(
    response: Response<R>,
    stepped: (Response<R>, Action),
)
    requires
        call_ensures(Response::<R>::step, (response, Event::Chunk(None)), stepped),
        response.stage() is Draining || response.stage() is Streaming,
    ensures
        stepped.0.stage() is Closing,
        response.stage() is Draining ==> {
            &&& stepped.1 is Completed
            &&& response.extra_info() is None ==> stepped.1->affected_rows == 0
            &&& response.extra_info() matches Some(reporter) ==> call_ensures(
                R::affected_rows,
                (&reporter,),
                stepped.1->affected_rows,
            )
        },
        response.stage() is Streaming ==> {
            &&& stepped.1 is FinishWithInfo
            &&& response.extra_info() is None ==> stepped.1->info@.len() == 0
            &&& response.extra_info() matches Some(reporter) ==> exists|text: String|
                #[trigger] call_ensures(R::progress_info, (&reporter,), text) && text@
                    == stepped.1->info@
        },
{
    let report = lemma_step(response, Event::Chunk(None), stepped);
    if response.stage() is Streaming {
        assert(stepped.1@ is FinishWithInfo);
    }
}

/// The rows of chunks, counted.
pub open spec fn total_rows(chunks: Seq<Chunk>) -> int
    decreases chunks.len(),
{
    if chunks.len() == 0 {
        0
    } else {
        chunks[0].num_rows + total_rows(chunks.drop_first())
    }
}

/// A result that goes on with chunks, and then ends, or fails with an error.
pub open spec fn stream_of(
    chunks: Seq<Chunk>,
    failure: Option<ErrorCode>,
    behind: Seq<Result<Chunk, ErrorCode>>,
) -> Seq<Result<Chunk, ErrorCode>> {
    chunks.map_values(|chunk: Chunk| Ok::<Chunk, ErrorCode>(chunk)) + match failure {
        Some(error) => seq![Err::<Chunk, ErrorCode>(error)] + behind,
        None => Seq::empty(),
    }
}

/// Every row of a result set is sent, once and at its place, with the values it has; then the end
/// is sent, or the error with which the result failed, and nothing more.
pub proof fn law_every_row_is_sent(
    chunks: Seq<Chunk>,
    failure: Option<ErrorCode>,
    behind: Seq<Result<Chunk, ErrorCode>>,
    report: Report,
)
    ensures
        ({
            let sent = transcript(Stage::Opening, stream_of(chunks, failure, behind), report);
            &&& sent.len() == total_rows(chunks) + 1
            &&& forall|k: int, r: int|
                0 <= k < chunks.len() && 0 <= r < chunks[k].num_rows ==> #[trigger] sends_row(
                    sent[total_rows(chunks.take(k)) + r],
                    chunks[k],
                    r,
                )
            &&& failure is None ==> sent.last() == (ActionView::FinishWithInfo {
                info: report.progress_info,
            })
            &&& failure matches Some(error) ==> sent.last() is FinishError && is_late_reply(
                sent.last()->FinishError_0,
                ErrorContext::ResultRowWrite,
                error,
            )
        }),
{
    law_result_set_is_sent_in_order(stream_of(chunks, failure, behind), report);
    lemma_rows_are_sent(chunks, failure, behind, report);
}

/// Whether an action sends a row of a chunk.
pub open spec fn sends_row(action: ActionView, chunk: Chunk, row: int) -> bool {
    action is WriteRow && carries_row(action->WriteRow_0, chunk, row)
}

proof fn lemma_rows_are_sent(
    chunks: Seq<Chunk>,
    failure: Option<ErrorCode>,
    behind: Seq<Result<Chunk, ErrorCode>>,
    report: Report,
)
    ensures
        ({
            let sent = result_set(stream_of(chunks, failure, behind), report);
            &&& sent.len() == total_rows(chunks) + 1
            &&& forall|k: int, r: int|
                0 <= k < chunks.len() && 0 <= r < chunks[k].num_rows ==> #[trigger] sends_row(
                    sent[total_rows(chunks.take(k)) + r],
                    chunks[k],
                    r,
                )
            &&& failure is None ==> sent.last() == (ActionView::FinishWithInfo {
                info: report.progress_info,
            })
            &&& failure matches Some(error) ==> sent.last() is FinishError && is_late_reply(
                sent.last()->FinishError_0,
                ErrorContext::ResultRowWrite,
                error,
            )
        }),
    decreases chunks.len(),
{
    let pulled = stream_of(chunks, failure, behind);
    let sent = result_set(pulled, report);
    if chunks.len() > 0 {
        let chunk = chunks[0];
        let tail = chunks.drop_first();
        lemma_rows_are_sent(tail, failure, behind, report);
        assert(pulled.drop_first() =~= stream_of(tail, failure, behind));
        let rest = result_set(pulled.drop_first(), report);
        assert(sent == rows_from(chunk, 0) + rest);
        assert forall|k: int, r: int|
            0 <= k < chunks.len() && 0 <= r < chunks[k].num_rows implies #[trigger] sends_row(
            sent[total_rows(chunks.take(k)) + r],
            chunks[k],
            r,
        ) by {
            if k == 0 {
                assert(chunks.take(0) =~= Seq::empty());
                assert(sent[r] == row_action(chunk, r as usize));
                lemma_row_is_carried(chunk, r as usize);
            } else {
                assert(chunks.take(k).drop_first() =~= tail.take(k - 1));
                assert(chunks[k] == tail[k - 1]);
                assert(sends_row(rest[total_rows(tail.take(k - 1)) + r], tail[k - 1], r));
                lemma_total_rows(tail, k - 1);
                assert(sent[total_rows(chunks.take(k)) + r] == rest[total_rows(tail.take(k - 1))
                    + r]);
            }
        }
        lemma_total_rows_is_not_negative(tail);
        assert(sent.last() == rest.last());
    } else if let Some(error) = failure {
        assert(pulled[0] == Err::<Chunk, ErrorCode>(error));
        assert(sent.len() == 1);
    } else {
        assert(pulled =~= Seq::empty());
        assert(sent.len() == 1);
    }
}

proof fn lemma_total_rows(chunks: Seq<Chunk>, k: int)
    requires
        0 <= k < chunks.len(),
    ensures
        0 <= total_rows(chunks.take(k)) <= total_rows(chunks.take(k)) + chunks[k].num_rows
            <= total_rows(chunks),
    decreases chunks.len(),
{
    let tail = chunks.drop_first();
    if k > 0 {
        lemma_total_rows(tail, k - 1);
        assert(chunks.take(k).drop_first() =~= tail.take(k - 1));
    } else {
        assert(chunks.take(0) =~= Seq::empty());
        lemma_total_rows_is_not_negative(tail);
    }
}

proof fn lemma_total_rows_is_not_negative(chunks: Seq<Chunk>)
    ensures
        0 <= total_rows(chunks),
    decreases chunks.len(),
{
    if chunks.len() > 0 {
        lemma_total_rows_is_not_negative(chunks.drop_first());
    }
}

/// A query without a result set is answered, whatever its chunks hold, with the number of rows that
/// it changed, or with the error with which it failed, and with nothing else.
pub proof fn law_drained_query_is_answered_once(
    chunks: Seq<Chunk>,
    failure: Option<ErrorCode>,
    behind: Seq<Result<Chunk, ErrorCode>>,
    report: Report,
)
    ensures
        ({
            let sent = transcript(Stage::Draining, stream_of(chunks, failure, behind), report);
            &&& sent.len() == 1
            &&& failure is None ==> sent[0] == (ActionView::Completed {
                affected_rows: report.affected_rows,
            })
            &&& failure matches Some(error) ==> sent[0] is Error && is_late_reply(
                sent[0]->Error_0,
                ErrorContext::DatasetWrite,
                error,
            )
        }),
    decreases chunks.len(),
{
    let pulled = stream_of(chunks, failure, behind);
    law_completion_is_all_that_is_sent(pulled, report);
    if chunks.len() > 0 {
        let tail = chunks.drop_first();
        law_drained_query_is_answered_once(tail, failure, behind, report);
        assert(pulled.drop_first() =~= stream_of(tail, failure, behind));
        law_completion_is_all_that_is_sent(pulled.drop_first(), report);
        assert(pulled[0] is Ok);
    }
}

} // verus!
