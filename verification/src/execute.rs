//! Executing submitted SQL text.
//!
//! The statements of a text are executed one after the other over one session.
//! `ExecuteStep` says what to do next and holds what is known so far; each
//! function that takes an answer gives the step after it.

use vstd::prelude::*;

use crate::limit;
use crate::statement;

verus! {

/// The number of statements of a text that are executed; those after them are
/// passed over.
pub const MAX_STATEMENTS: usize = 5;

/// The row limit where a request gives none.
pub const DEFAULT_LIMIT: i32 = 1000;

/// A request to execute SQL text.
#[derive(Debug, PartialEq, Eq)]
pub struct QueryExecuteRequest {
    pub sql: String,
    pub limit: Option<i32>,
    pub catalog: Option<String>,
    pub database: Option<String>,
}

/// What the database answers to a statement that succeeds.
#[derive(Debug, PartialEq, Eq)]
pub struct ResultSet {
    pub columns: Vec<String>,
    pub rows: Vec<Vec<String>>,
    pub execution_time_ms: u128,
}

/// What became of one statement.
#[derive(Debug, PartialEq, Eq)]
pub struct SingleQueryResult {
    pub sql: String,
    pub columns: Vec<String>,
    pub rows: Vec<Vec<String>>,
    pub row_count: usize,
    pub execution_time_ms: u128,
    pub success: bool,
    pub error: Option<String>,
}

/// What became of the statements of a text.
#[derive(Debug, PartialEq, Eq)]
pub struct QueryExecuteResponse {
    pub results: Vec<SingleQueryResult>,
    pub total_execution_time_ms: u128,
}

/// Statements to execute, and where.
#[derive(Debug, PartialEq, Eq)]
pub struct Batch {
    pub statements: Vec<String>,
    pub limit: i32,
    pub catalog: Option<String>,
    pub database: Option<String>,
}

/// Statements under execution: the one that the database works on, those still
/// to be sent, and what became of the others.
#[derive(Debug, PartialEq, Eq)]
pub struct Execution {
    pub statement: String,
    pub waiting: Vec<String>,
    pub limit: i32,
    pub done: Vec<SingleQueryResult>,
}

/// What to do next to execute SQL text.
#[derive(Debug, PartialEq, Eq)]
pub enum ExecuteStep {
    /// Open a session and hand the outcome to `execute_session_opened`.
    OpenSession(Batch),
    /// Switch the session to `catalog` and hand the outcome to `catalog_used`.
    UseCatalog { catalog: String, batch: Batch },
    /// Switch the session to `database` and hand the outcome to `database_used`.
    UseDatabase { database: String, batch: Batch },
    /// Start the clock and go on with `clock_started`.
    StartClock(Batch),
    /// Send `sql` over the session and hand the answer to `statement_answered`.
    Execute { sql: String, execution: Execution },
    /// Read the clock and hand the milliseconds since it was started to
    /// `clock_read`.
    ReadClock(Vec<SingleQueryResult>),
    /// Nothing: this is the result.
    Finished(QueryExecuteResponse),
}

/// What the database answers, as texts: the rows, or the message of a failure.
#[verifier::ext_equal]
pub enum AnswerView {
    Rows { columns: Seq<Seq<char>>, rows: Seq<Seq<Seq<char>>>, execution_time_ms: u128 },
    Failure(Seq<char>),
}

/// What became of one statement, as texts.
#[verifier::ext_equal]
pub struct ResultView {
    pub sql: Seq<char>,
    pub columns: Seq<Seq<char>>,
    pub rows: Seq<Seq<Seq<char>>>,
    pub row_count: int,
    pub execution_time_ms: u128,
    pub success: bool,
    pub error: Option<Seq<char>>,
}

/// Statements to execute, as texts.
#[verifier::ext_equal]
pub struct BatchView {
    pub statements: Seq<Seq<char>>,
    pub limit: i32,
    pub catalog: Option<Seq<char>>,
    pub database: Option<Seq<char>>,
}

/// Statements under execution, as texts.
#[verifier::ext_equal]
pub struct ExecutionView {
    pub statement: Seq<char>,
    pub waiting: Seq<Seq<char>>,
    pub limit: i32,
    pub done: Seq<ResultView>,
}

/// A step, as texts.
#[verifier::ext_equal]
pub enum ExecuteView {
    OpenSession(BatchView),
    UseCatalog { catalog: Seq<char>, batch: BatchView },
    UseDatabase { database: Seq<char>, batch: BatchView },
    StartClock(BatchView),
    Execute { sql: Seq<char>, execution: ExecutionView },
    ReadClock(Seq<ResultView>),
    Finished { results: Seq<ResultView>, total_execution_time_ms: u128 },
}

impl DeepView for SingleQueryResult {
    type V = ResultView;

    open spec fn deep_view(&self) -> ResultView {
        ResultView {
            sql: self.sql@,
            columns: self.columns.deep_view(),
            rows: self.rows.deep_view(),
            row_count: self.row_count as int,
            execution_time_ms: self.execution_time_ms,
            success: self.success,
            error: self.error.deep_view(),
        }
    }
}

impl DeepView for Batch {
    type V = BatchView;

    open spec fn deep_view(&self) -> BatchView {
        BatchView {
            statements: self.statements.deep_view(),
            limit: self.limit,
            catalog: self.catalog.deep_view(),
            database: self.database.deep_view(),
        }
    }
}

impl DeepView for Execution {
    type V = ExecutionView;

    open spec fn deep_view(&self) -> ExecutionView {
        ExecutionView {
            statement: self.statement@,
            waiting: self.waiting.deep_view(),
            limit: self.limit,
            done: self.done.deep_view(),
        }
    }
}

impl DeepView for ExecuteStep {
    type V = ExecuteView;

    open spec fn deep_view(&self) -> ExecuteView {
        match self {
            ExecuteStep::OpenSession(batch) => ExecuteView::OpenSession(batch.deep_view()),
            ExecuteStep::UseCatalog { catalog, batch } => ExecuteView::UseCatalog {
                catalog: catalog@,
                batch: batch.deep_view(),
            },
            ExecuteStep::UseDatabase { database, batch } => ExecuteView::UseDatabase {
                database: database@,
                batch: batch.deep_view(),
            },
            ExecuteStep::StartClock(batch) => ExecuteView::StartClock(batch.deep_view()),
            ExecuteStep::Execute { sql, execution } => ExecuteView::Execute {
                sql: sql@,
                execution: execution.deep_view(),
            },
            ExecuteStep::ReadClock(results) => ExecuteView::ReadClock(results.deep_view()),
            ExecuteStep::Finished(response) => ExecuteView::Finished {
                results: response.results.deep_view(),
                total_execution_time_ms: response.total_execution_time_ms,
            },
        }
    }
}

/// An answer, as texts.
pub open spec fn answer_view(answer: Result<ResultSet, String>) -> AnswerView {
    match answer {
        Ok(set) => AnswerView::Rows {
            columns: set.columns.deep_view(),
            rows: set.rows.deep_view(),
            execution_time_ms: set.execution_time_ms,
        },
        Err(message) => AnswerView::Failure(message@),
    }
}

/// The statements of a text that are executed.
pub open spec fn executed_statements(sql: Seq<char>) -> Seq<Seq<char>> {
    let all = statement::statements(sql);
    if all.len() > MAX_STATEMENTS {
        all.take(MAX_STATEMENTS as int)
    } else {
        all
    }
}

/// The first step: without a statement there is nothing to do.
pub open spec fn first_step(
    sql: Seq<char>,
    limit: Option<i32>,
    catalog: Option<Seq<char>>,
    database: Option<Seq<char>>,
) -> ExecuteView {
    let statements = executed_statements(sql);
    if statements.len() == 0 {
        ExecuteView::Finished { results: Seq::empty(), total_execution_time_ms: 0 }
    } else {
        ExecuteView::OpenSession(
            BatchView {
                statements,
                limit: match limit {
                    Some(rows) => rows,
                    None => DEFAULT_LIMIT,
                },
                catalog,
                database,
            },
        )
    }
}

/// The step once the session is open and, where one was named, in its catalog:
/// the session is switched to the database of the request, if it names one.
pub open spec fn after_catalog(batch: BatchView) -> ExecuteView {
    match batch.database {
        Some(database) => if database.len() > 0 {
            ExecuteView::UseDatabase { database, batch }
        } else {
            ExecuteView::StartClock(batch)
        },
        None => ExecuteView::StartClock(batch),
    }
}

/// The step once the session is open: it is switched to the catalog of the
/// request, if it names one.
pub open spec fn after_session(batch: BatchView) -> ExecuteView {
    match batch.catalog {
        Some(catalog) => if catalog.len() > 0 {
            ExecuteView::UseCatalog { catalog, batch }
        } else {
            after_catalog(batch)
        },
        None => after_catalog(batch),
    }
}

/// The step that sends the first of `waiting`, with its row limit, or reads the
/// clock if there is none left.
pub open spec fn sending(
    waiting: Seq<Seq<char>>,
    limit: i32,
    done: Seq<ResultView>,
) -> ExecuteView {
    if waiting.len() == 0 {
        ExecuteView::ReadClock(done)
    } else {
        ExecuteView::Execute {
            sql: limit::limited(waiting[0], limit as int),
            execution: ExecutionView {
                statement: waiting[0],
                waiting: waiting.drop_first(),
                limit,
                done,
            },
        }
    }
}

/// The step once the clock is started.
pub open spec fn after_clock(batch: BatchView) -> ExecuteView {
    sending(batch.statements, batch.limit, Seq::empty())
}

/// What became of a statement that was answered: its rows and their number and
/// time, or the message of its failure.
pub open spec fn recorded(sql: Seq<char>, answer: AnswerView) -> ResultView {
    match answer {
        AnswerView::Rows { columns, rows, execution_time_ms } => ResultView {
            sql,
            columns,
            rows,
            row_count: rows.len() as int,
            execution_time_ms,
            success: true,
            error: None,
        },
        AnswerView::Failure(message) => ResultView {
            sql,
            columns: Seq::empty(),
            rows: Seq::empty(),
            row_count: 0,
            execution_time_ms: 0,
            success: false,
            error: Some(message),
        },
    }
}

/// The step after the answer to a statement.
pub open spec fn after_statement(execution: ExecutionView, answer: AnswerView) -> ExecuteView {
    sending(
        execution.waiting,
        execution.limit,
        execution.done.push(recorded(execution.statement, answer)),
    )
}

/// The first step to execute the statements of a request. Without a statement
/// the result is empty and no session is opened.
pub fn execute_sql(request: QueryExecuteRequest) -> (step: ExecuteStep)
    ensures
        step.deep_view() == first_step(
            request.sql@,
            request.limit,
            request.catalog.deep_view(),
            request.database.deep_view(),
        ),
        step matches ExecuteStep::OpenSession(batch) ==> {
            &&& batch.catalog == request.catalog
            &&& batch.database == request.database
            &&& request.limit matches Some(rows) ==> batch.limit == rows
            &&& request.limit is None ==> batch.limit == 1000
        },
{
    let mut statements = statement::parse_sql_statements(request.sql.as_str());
    if statements.len() > MAX_STATEMENTS {
        statements.truncate(MAX_STATEMENTS);
    }
    assert(statements.deep_view() =~= executed_statements(request.sql@));
    if statements.len() == 0 {
        let results: Vec<SingleQueryResult> = Vec::new();
        assert(results.deep_view() =~= Seq::empty());
        return ExecuteStep::Finished(QueryExecuteResponse { results, total_execution_time_ms: 0 });
    }
    ExecuteStep::OpenSession(
        Batch {
            statements,
            limit: request.limit.unwrap_or(DEFAULT_LIMIT),
            catalog: request.catalog,
            database: request.database,
        },
    )
}

fn use_database(batch: Batch) -> (step: ExecuteStep)
    ensures
        step.deep_view() == after_catalog(batch.deep_view()),
{
    if let Some(name) = &batch.database {
        if !name.as_str().is_empty() {
            let database = name.clone();
            return ExecuteStep::UseDatabase { database, batch };
        }
    }
    ExecuteStep::StartClock(batch)
}

/// The step after the session was opened. A failure ends the execution.
pub fn execute_session_opened<E>(batch: Batch, opened: Result<(), E>) -> (step: Result<
    ExecuteStep,
    E,
>)
    ensures
        match opened {
            Ok(_) => step matches Ok(next) && next.deep_view() == after_session(batch.deep_view()),
            Err(e) => step == Err::<ExecuteStep, E>(e),
        },
{
    match opened {
        Ok(_) => {
            if let Some(name) = &batch.catalog {
                if !name.as_str().is_empty() {
                    let catalog = name.clone();
                    return Ok(ExecuteStep::UseCatalog { catalog, batch });
                }
            }
            Ok(use_database(batch))
        },
        Err(e) => Err(e),
    }
}

/// The step after the session was switched to the catalog. A failure ends the
/// execution.
pub fn catalog_used<E>(batch: Batch, used: Result<(), E>) -> (step: Result<ExecuteStep, E>)
    ensures
        match used {
            Ok(_) => step matches Ok(next) && next.deep_view() == after_catalog(batch.deep_view()),
            Err(e) => step == Err::<ExecuteStep, E>(e),
        },
{
    match used {
        Ok(_) => Ok(use_database(batch)),
        Err(e) => Err(e),
    }
}

/// The step after the session was switched to the database. A failure ends the
/// execution.
pub fn database_used<E>(batch: Batch, used: Result<(), E>) -> (step: Result<ExecuteStep, E>)
    ensures
        match used {
            Ok(_) => step matches Ok(next) && next.deep_view() == ExecuteView::StartClock(
                batch.deep_view(),
            ),
            Err(e) => step == Err::<ExecuteStep, E>(e),
        },
{
    match used {
        Ok(_) => Ok(ExecuteStep::StartClock(batch)),
        Err(e) => Err(e),
    }
}

fn send_next(statements: Vec<String>, limit: i32, done: Vec<SingleQueryResult>) -> (step:
    ExecuteStep)
    ensures
        step.deep_view() == sending(statements.deep_view(), limit, done.deep_view()),
{
    let mut waiting = statements;
    if waiting.len() == 0 {
        ExecuteStep::ReadClock(done)
    } else {
        let statement = waiting.remove(0);
        assert(waiting.deep_view() =~= statements.deep_view().drop_first());
        ExecuteStep::Execute {
            sql: limit::apply_query_limit(statement.as_str(), limit),
            execution: Execution { statement, waiting, limit, done },
        }
    }
}

/// The step after the clock was started: the first statement is sent.
pub fn clock_started(batch: Batch) -> (step: ExecuteStep)
    ensures
        step.deep_view() == after_clock(batch.deep_view()),
{
    let done: Vec<SingleQueryResult> = Vec::new();
    assert(done.deep_view() =~= Seq::empty());
    send_next(batch.statements, batch.limit, done)
}

/// What became of the statement `sql`, given the answer to it.
pub fn record(sql: String, answer: Result<ResultSet, String>) -> (result: SingleQueryResult)
    ensures
        result.deep_view() == recorded(sql@, answer_view(answer)),
        result.sql == sql,
        answer matches Ok(set) ==> {
            &&& result.columns == set.columns
            &&& result.rows == set.rows
            &&& result.row_count == set.rows@.len()
            &&& result.execution_time_ms == set.execution_time_ms
            &&& result.success
            &&& result.error is None
        },
        answer matches Err(message) ==> {
            &&& result.columns@.len() == 0
            &&& result.rows@.len() == 0
            &&& result.row_count == 0
            &&& result.execution_time_ms == 0
            &&& !result.success
            &&& result.error == Some(message)
        },
{
    match answer {
        Ok(set) => {
            let row_count = set.rows.len();
            SingleQueryResult {
                sql,
                columns: set.columns,
                rows: set.rows,
                row_count,
                execution_time_ms: set.execution_time_ms,
                success: true,
                error: None,
            }
        },
        Err(message) => {
            let columns: Vec<String> = Vec::new();
            let rows: Vec<Vec<String>> = Vec::new();
            assert(columns.deep_view() =~= Seq::empty());
            assert(rows.deep_view() =~= Seq::empty());
            SingleQueryResult {
                sql,
                columns,
                rows,
                row_count: 0,
                execution_time_ms: 0,
                success: false,
                error: Some(message),
            }
        },
    }
}

/// The step after the answer to a statement: the next one is sent, whether or
/// not this one failed.
pub fn statement_answered(execution: Execution, answer: Result<ResultSet, String>) -> (step:
    ExecuteStep)
    ensures
        step.deep_view() == after_statement(execution.deep_view(), answer_view(answer)),
{
    let result = record(execution.statement, answer);
    let mut done = execution.done;
    done.push(result);
    assert(done.deep_view() =~= execution.done.deep_view().push(result.deep_view()));
    send_next(execution.waiting, execution.limit, done)
}

/// The last step, once the clock has been read.
pub fn clock_read(results: Vec<SingleQueryResult>, elapsed_ms: u128) -> (step: ExecuteStep)
    ensures
        step.deep_view() == (ExecuteView::Finished {
            results: results.deep_view(),
            total_execution_time_ms: elapsed_ms,
        }),
{
    ExecuteStep::Finished(QueryExecuteResponse { results, total_execution_time_ms: elapsed_ms })
}

// ---------------------------------------------------------------------------
// Laws
// ---------------------------------------------------------------------------

/// No more than `MAX_STATEMENTS` statements of a text are executed; they are its
/// first ones, and none of them is empty.
pub proof fn law_first_statements_are_executed(sql: Seq<char>)
    ensures
        executed_statements(sql).len() <= MAX_STATEMENTS,
        executed_statements(sql).is_prefix_of(statement::statements(sql)),
        executed_statements(sql).len() < MAX_STATEMENTS ==> executed_statements(sql)
            == statement::statements(sql),
        forall|k: int|
            0 <= k < executed_statements(sql).len() ==> (#[trigger] executed_statements(
                sql,
            )[k]).len() > 0,
{
    let all = statement::statements(sql);
    assert(all.take(all.len() as int) =~= all);
    assert forall|k: int| 0 <= k < executed_statements(sql).len() implies (
    #[trigger] executed_statements(sql)[k]).len() > 0 by {
        statement::law_statements_are_trimmed(sql, k);
    }
}

/// A text without a statement is answered at once, without a session, and no
/// other text is.
pub proof fn law_no_statement_needs_no_session(
    sql: Seq<char>,
    limit: Option<i32>,
    catalog: Option<Seq<char>>,
    database: Option<Seq<char>>,
)
    ensures
        statement::statements(sql).len() == 0 <==> first_step(sql, limit, catalog, database) == (
        ExecuteView::Finished { results: Seq::empty(), total_execution_time_ms: 0 }),
{
}

/// The step reached from `step` when what prepares the session succeeds.
pub open spec fn prepared(step: ExecuteView) -> ExecuteView {
    let opened = match step {
        ExecuteView::OpenSession(batch) => after_session(batch),
        _ => step,
    };
    let in_catalog = match opened {
        ExecuteView::UseCatalog { batch, .. } => after_catalog(batch),
        _ => opened,
    };
    match in_catalog {
        ExecuteView::UseDatabase { batch, .. } => ExecuteView::StartClock(batch),
        _ => in_catalog,
    }
}

/// The session is prepared in order: the catalog first, if one is named, then the
/// database, if one is named. The clock is started after that, and the batch
/// comes through unchanged.
pub proof fn law_session_is_prepared_in_order(batch: BatchView)
    ensures
        prepared(ExecuteView::OpenSession(batch)) == ExecuteView::StartClock(batch),
        after_session(batch) is UseCatalog <==> (batch.catalog matches Some(name) && name.len() > 0),
        after_session(batch) matches ExecuteView::UseCatalog { catalog, batch: kept } ==> Some(
            catalog,
        ) == batch.catalog && kept == batch,
        after_catalog(batch) is UseDatabase <==> (batch.database matches Some(name) && name.len()
            > 0),
        after_catalog(batch) matches ExecuteView::UseDatabase { database, batch: kept } ==> Some(
            database,
        ) == batch.database && kept == batch,
{
}

/// The step reached from `step` when the statements are answered one by one.
pub open spec fn answered_in_turn(step: ExecuteView, answers: Seq<AnswerView>) -> ExecuteView
    decreases answers.len(),
{
    if answers.len() == 0 {
        step
    } else {
        match step {
            ExecuteView::Execute { execution, .. } => answered_in_turn(
                after_statement(execution, answers.first()),
                answers.drop_first(),
            ),
            _ => step,
        }
    }
}

proof fn lemma_answered_in_turn(
    waiting: Seq<Seq<char>>,
    limit: i32,
    done: Seq<ResultView>,
    answers: Seq<AnswerView>,
)
    requires
        answers.len() <= waiting.len(),
    ensures
        answered_in_turn(sending(waiting, limit, done), answers) == sending(
            waiting.skip(answers.len() as int),
            limit,
            done + Seq::new(answers.len(), |i: int| recorded(waiting[i], answers[i])),
        ),
    decreases answers.len(),
{
    let new = Seq::new(answers.len(), |i: int| recorded(waiting[i], answers[i]));
    if answers.len() == 0 {
        assert(waiting.skip(0) =~= waiting);
        assert(done + new =~= done);
    } else {
        let rest = waiting.drop_first();
        let one = recorded(waiting[0], answers[0]);
        lemma_answered_in_turn(rest, limit, done.push(one), answers.drop_first());
        let later = Seq::new(
            answers.drop_first().len(),
            |i: int| recorded(rest[i], answers.drop_first()[i]),
        );
        assert(done.push(one) + later =~= done + new);
        assert(rest.skip(answers.drop_first().len() as int) =~= waiting.skip(
            answers.len() as int,
        ));
    }
}

/// Statements are sent in order, each once, with its row limit, and a failure of
/// one does not keep the others from being sent: while answers are outstanding
/// the next statement in line is sent, and once every statement has been
/// answered there is one result per statement, in order, under the text of the
/// statement without the added limit.
pub proof fn law_every_statement_is_executed(batch: BatchView, answers: Seq<AnswerView>)
    requires
        answers.len() <= batch.statements.len(),
    ensures
        answers.len() < batch.statements.len() ==> {
            &&& answered_in_turn(after_clock(batch), answers) is Execute
            &&& answered_in_turn(after_clock(batch), answers)->Execute_sql == limit::limited(
                batch.statements[answers.len() as int],
                batch.limit as int,
            )
        },
        answers.len() == batch.statements.len() ==> answered_in_turn(after_clock(batch), answers)
            == ExecuteView::ReadClock(
            Seq::new(
                batch.statements.len(),
                |i: int| recorded(batch.statements[i], answers[i]),
            ),
        ),
{
    lemma_answered_in_turn(batch.statements, batch.limit, Seq::empty(), answers);
    let results = Seq::new(
        answers.len(),
        |i: int| recorded(batch.statements[i], answers[i]),
    );
    assert(Seq::empty() + results =~= results);
}

/// A request that has statements, carried through to its last answer, gives one
/// result per executed statement, in order.
pub proof fn law_execution_outcome(
    sql: Seq<char>,
    limit: Option<i32>,
    catalog: Option<Seq<char>>,
    database: Option<Seq<char>>,
    answers: Seq<AnswerView>,
)
    requires
        executed_statements(sql).len() > 0,
        answers.len() == executed_statements(sql).len(),
    ensures
        prepared(first_step(sql, limit, catalog, database)) matches ExecuteView::StartClock(batch)
            && answered_in_turn(after_clock(batch), answers) == ExecuteView::ReadClock(
            Seq::new(answers.len(), |i: int| recorded(executed_statements(sql)[i], answers[i])),
        ),
{
    if let ExecuteView::OpenSession(batch) = first_step(sql, limit, catalog, database) {
        law_session_is_prepared_in_order(batch);
        law_every_statement_is_executed(batch, answers);
    }
}

/// What is recorded of a statement holds together: it succeeded if and only if it
/// has no error, the rows are counted, and a failed statement has none.
pub proof fn law_results_hold_together(sql: Seq<char>, answer: AnswerView)
    ensures
        recorded(sql, answer).sql == sql,
        recorded(sql, answer).success <==> answer is Rows,
        recorded(sql, answer).success <==> recorded(sql, answer).error is None,
        recorded(sql, answer).row_count == recorded(sql, answer).rows.len(),
        !recorded(sql, answer).success ==> recorded(sql, answer).rows.len() == 0,
{
}

/// Each text sent for a statement of a request is one statement.
pub proof fn law_each_sent_text_is_single(sql: Seq<char>, k: int, limit: i32)
    requires
        0 <= k < executed_statements(sql).len(),
    ensures
        statement::statements(limit::limited(executed_statements(sql)[k], limit as int)) == seq![
            limit::limited(executed_statements(sql)[k], limit as int),
        ],
{
    assert(executed_statements(sql)[k] == statement::statements(sql)[k]);
    limit::law_bounded_statement_is_single(sql, k, limit as int);
}

/// A statement that succeeds is recorded with exactly the columns, the rows and the
/// time of its answer, and the number of those rows.
pub proof fn law_answers_are_recorded_whole(
    sql: Seq<char>,
    columns: Seq<Seq<char>>,
    rows: Seq<Seq<Seq<char>>>,
    execution_time_ms: u128,
)
    ensures
        ({
            let result = recorded(sql, AnswerView::Rows { columns, rows, execution_time_ms });
            &&& result.sql == sql
            &&& result.columns == columns
            &&& result.rows == rows
            &&& result.row_count == rows.len()
            &&& result.execution_time_ms == execution_time_ms
            &&& result.success
            &&& result.error is None
        }),
{
}

/// A statement that fails is recorded with exactly the message of its failure, and
/// with no columns, no rows and no time.
pub proof fn law_failures_are_recorded_whole(sql: Seq<char>, message: Seq<char>)
    ensures
        ({
            let result = recorded(sql, AnswerView::Failure(message));
            &&& result.sql == sql
            &&& result.error == Some(message)
            &&& !result.success
            &&& result.columns.len() == 0
            &&& result.rows.len() == 0
            &&& result.row_count == 0
            &&& result.execution_time_ms == 0
        }),
{
}

/// What a request becomes: the first five of its statements, its own limit or one of
/// a thousand rows, and its own catalog and database.
pub proof fn law_request_becomes_a_batch(
    sql: Seq<char>,
    limit: Option<i32>,
    catalog: Option<Seq<char>>,
    database: Option<Seq<char>>,
)
    ensures
        ({
            let all = statement::statements(sql);
            let step = first_step(sql, limit, catalog, database);
            if all.len() == 0 {
                step == (ExecuteView::Finished {
                    results: Seq::empty(),
                    total_execution_time_ms: 0,
                })
            } else {
                step matches ExecuteView::OpenSession(batch) && batch.catalog == catalog
                    && batch.database == database && (limit matches Some(rows) ==> batch.limit
                    == rows) && (limit is None ==> batch.limit == 1000) && (all.len() <= 5
                    ==> batch.statements == all) && (all.len() > 5 ==> batch.statements
                    == all.take(5))
            }
        }),
{
}

/// The step that a request comes to when what prepares the session succeeds and its
/// statements are answered one by one.
pub open spec fn carried_on(
    sql: Seq<char>,
    limit: Option<i32>,
    catalog: Option<Seq<char>>,
    database: Option<Seq<char>>,
    answers: Seq<AnswerView>,
) -> ExecuteView {
    match prepared(first_step(sql, limit, catalog, database)) {
        ExecuteView::StartClock(batch) => answered_in_turn(after_clock(batch), answers),
        step => step,
    }
}

/// From the request to the texts that are sent: while fewer answers are in than there
/// are statements, five at most, the next statement is sent, bounded to the limit of
/// the request, or to a thousand rows if it has none.
pub proof fn law_request_reaches_the_database(
    sql: Seq<char>,
    limit: Option<i32>,
    catalog: Option<Seq<char>>,
    database: Option<Seq<char>>,
    answers: Seq<AnswerView>,
)
    requires
        answers.len() < statement::statements(sql).len(),
        answers.len() < 5,
    ensures
        ({
            let next = statement::statements(sql)[answers.len() as int];
            let step = carried_on(sql, limit, catalog, database, answers);
            &&& step matches ExecuteView::Execute { sql: sent, execution } && execution.statement
                == next && (limit matches Some(rows) ==> sent == limit::limited(next, rows as int))
                && (limit is None ==> sent == limit::limited(next, 1000))
        }),
{
    law_request_becomes_a_batch(sql, limit, catalog, database);
    if let ExecuteView::OpenSession(batch) = first_step(sql, limit, catalog, database) {
        law_session_is_prepared_in_order(batch);
        lemma_answered_in_turn(batch.statements, batch.limit, Seq::empty(), answers);
        let rest = batch.statements.skip(answers.len() as int);
        assert(rest[0] == batch.statements[answers.len() as int]);
    }
}

/// Once all statements, five at most, are answered, there is one result for each, in
/// order, with what its own answer gave.
pub proof fn law_every_answer_is_returned(
    sql: Seq<char>,
    limit: Option<i32>,
    catalog: Option<Seq<char>>,
    database: Option<Seq<char>>,
    answers: Seq<AnswerView>,
)
    requires
        answers.len() > 0,
        answers.len() == statement::statements(sql).len() || answers.len() == 5
            && statement::statements(sql).len() > 5,
        answers.len() <= 5,
    ensures
        carried_on(sql, limit, catalog, database, answers) matches ExecuteView::ReadClock(results)
            && results.len() == answers.len() && (forall|i: int|
            0 <= i < results.len() ==> (#[trigger] results[i]).sql == statement::statements(sql)[i]
                && (answers[i] matches AnswerView::Rows { columns, rows, execution_time_ms }
                ==> results[i].success && results[i].columns == columns && results[i].rows == rows
                && results[i].row_count == rows.len() && results[i].execution_time_ms
                == execution_time_ms && results[i].error is None) && (
            answers[i] matches AnswerView::Failure(message) ==> !results[i].success
                && results[i].error == Some(message) && results[i].rows.len() == 0
                && results[i].columns.len() == 0 && results[i].row_count == 0
                && results[i].execution_time_ms == 0)),
{
    law_request_becomes_a_batch(sql, limit, catalog, database);
    if let ExecuteView::OpenSession(batch) = first_step(sql, limit, catalog, database) {
        law_session_is_prepared_in_order(batch);
        lemma_answered_in_turn(batch.statements, batch.limit, Seq::empty(), answers);
    }
}

/// Exactly what follows when the session is open, when its catalog is set and when
/// its database is set: a catalog and a database that are named and not empty are
/// switched to, the catalog first, and then the clock is started.
pub proof fn law_names_are_switched_to(batch: BatchView)
    ensures
        batch.catalog matches Some(catalog) && catalog.len() > 0 ==> after_session(batch) == (
        ExecuteView::UseCatalog { catalog: batch.catalog->0, batch }),
        !(batch.catalog matches Some(catalog) && catalog.len() > 0) ==> after_session(batch)
            == after_catalog(batch),
        batch.database matches Some(database) && database.len() > 0 ==> after_catalog(batch) == (
        ExecuteView::UseDatabase { database: batch.database->0, batch }),
        !(batch.database matches Some(database) && database.len() > 0) ==> after_catalog(batch)
            == ExecuteView::StartClock(batch),
{
}

/// After the answer to a statement, what was recorded stays, one result is added
/// under the text of that statement, and the next one is sent, bounded to the same
/// limit, or the clock is read.
pub proof fn law_one_answer_adds_one_result(execution: ExecutionView, answer: AnswerView)
    ensures
        ({
            let results = execution.done + seq![recorded(execution.statement, answer)];
            if execution.waiting.len() == 0 {
                after_statement(execution, answer) == ExecuteView::ReadClock(results)
            } else {
                after_statement(execution, answer) == (ExecuteView::Execute {
                    sql: limit::limited(execution.waiting[0], execution.limit as int),
                    execution: ExecutionView {
                        statement: execution.waiting[0],
                        waiting: execution.waiting.skip(1),
                        limit: execution.limit,
                        done: results,
                    },
                })
            }
        }),
{
    let results = execution.done + seq![recorded(execution.statement, answer)];
    assert(execution.done.push(recorded(execution.statement, answer)) =~= results);
    if execution.waiting.len() > 0 {
        assert(execution.waiting.drop_first() =~= execution.waiting.skip(1));
    }
}

/// The texts of an answer, a result, a batch, an execution and a step are those of
/// its fields.
pub proof fn law_execute_views(
    set: ResultSet,
    message: String,
    result: SingleQueryResult,
    batch: Batch,
    execution: Execution,
    step: ExecuteStep,
)
    ensures
        answer_view(Ok(set)) == (AnswerView::Rows {
            columns: set.columns.deep_view(),
            rows: set.rows.deep_view(),
            execution_time_ms: set.execution_time_ms,
        }),
        answer_view(Err(message)) == AnswerView::Failure(message@),
        result.deep_view() == (ResultView {
            sql: result.sql@,
            columns: result.columns.deep_view(),
            rows: result.rows.deep_view(),
            row_count: result.row_count as int,
            execution_time_ms: result.execution_time_ms,
            success: result.success,
            error: result.error.deep_view(),
        }),
        batch.deep_view() == (BatchView {
            statements: batch.statements.deep_view(),
            limit: batch.limit,
            catalog: batch.catalog.deep_view(),
            database: batch.database.deep_view(),
        }),
        execution.deep_view() == (ExecutionView {
            statement: execution.statement@,
            waiting: execution.waiting.deep_view(),
            limit: execution.limit,
            done: execution.done.deep_view(),
        }),
        step matches ExecuteStep::OpenSession(kept) ==> step.deep_view()
            == ExecuteView::OpenSession(kept.deep_view()),
        step matches ExecuteStep::UseCatalog { catalog, batch: kept } ==> step.deep_view() == (
        ExecuteView::UseCatalog { catalog: catalog@, batch: kept.deep_view() }),
        step matches ExecuteStep::UseDatabase { database, batch: kept } ==> step.deep_view() == (
        ExecuteView::UseDatabase { database: database@, batch: kept.deep_view() }),
        step matches ExecuteStep::StartClock(kept) ==> step.deep_view() == ExecuteView::StartClock(
            kept.deep_view(),
        ),
        step matches ExecuteStep::Execute { sql, execution: kept } ==> step.deep_view() == (
        ExecuteView::Execute { sql: sql@, execution: kept.deep_view() }),
        step matches ExecuteStep::ReadClock(results) ==> step.deep_view() == ExecuteView::ReadClock(
            results.deep_view(),
        ),
        step matches ExecuteStep::Finished(response) ==> step.deep_view() == (
        ExecuteView::Finished {
            results: response.results.deep_view(),
            total_execution_time_ms: response.total_execution_time_ms,
        }),
{
}

} // verus!
