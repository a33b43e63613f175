use query_handlers::execute::{
    catalog_used, clock_read, clock_started, database_used, execute_session_opened, execute_sql,
    record, statement_answered, Batch, ExecuteStep, QueryExecuteRequest, QueryExecuteResponse,
    ResultSet, SingleQueryResult, DEFAULT_LIMIT, MAX_STATEMENTS,
};

fn request(sql: &str, catalog: Option<&str>, database: Option<&str>) -> QueryExecuteRequest {
    QueryExecuteRequest {
        sql: sql.to_string(),
        limit: None,
        catalog: catalog.map(|c| c.to_string()),
        database: database.map(|d| d.to_string()),
    }
}

fn batch(step: ExecuteStep) -> Batch {
    match step {
        ExecuteStep::OpenSession(batch) => batch,
        other => panic!("not the first step: {:?}", other),
    }
}

fn one_row(cell: &str) -> ResultSet {
    ResultSet {
        columns: vec!["c".to_string()],
        rows: vec![vec![cell.to_string()]],
        execution_time_ms: 12,
    }
}

#[test]
fn no_statement_needs_no_session() {
    assert_eq!(
        execute_sql(request(" ; ;", Some("hive"), Some("db"))),
        ExecuteStep::Finished(QueryExecuteResponse {
            results: Vec::new(),
            total_execution_time_ms: 0
        })
    );
}

#[test]
fn first_five_statements_are_executed() {
    let b = batch(execute_sql(request("a;b;c;d;e;f;g", None, None)));
    assert_eq!(b.statements, vec!["a", "b", "c", "d", "e"]);
    assert_eq!(b.statements.len(), MAX_STATEMENTS);
    assert_eq!(b.limit, DEFAULT_LIMIT);
    assert_eq!(b.limit, 1000);
}

#[test]
fn session_is_prepared_in_order() {
    let b = batch(execute_sql(request("a", Some("hive"), Some("db"))));
    let b = match execute_session_opened::<String>(b, Ok(())).unwrap() {
        ExecuteStep::UseCatalog { catalog, batch } => {
            assert_eq!(catalog, "hive");
            batch
        }
        other => panic!("no catalog: {:?}", other),
    };
    let b = match catalog_used::<String>(b, Ok(())).unwrap() {
        ExecuteStep::UseDatabase { database, batch } => {
            assert_eq!(database, "db");
            batch
        }
        other => panic!("no database: {:?}", other),
    };
    match database_used::<String>(b, Ok(())).unwrap() {
        ExecuteStep::StartClock(b) => assert_eq!(b.statements, vec!["a"]),
        other => panic!("no clock: {:?}", other),
    }
}

#[test]
fn empty_names_are_not_used() {
    let b = batch(execute_sql(request("a", Some(""), Some(""))));
    assert!(matches!(execute_session_opened::<String>(b, Ok(())), Ok(ExecuteStep::StartClock(_))));
    let b = batch(execute_sql(request("a", None, Some("db"))));
    assert!(matches!(
        execute_session_opened::<String>(b, Ok(())),
        Ok(ExecuteStep::UseDatabase { .. })
    ));
}

#[test]
fn failures_while_preparing_end_the_execution() {
    let b = || batch(execute_sql(request("a", Some("hive"), Some("db"))));
    assert_eq!(execute_session_opened(b(), Err("no session")), Err("no session"));
    assert_eq!(catalog_used(b(), Err("no catalog")), Err("no catalog"));
    assert_eq!(database_used(b(), Err("no database")), Err("no database"));
}

#[test]
fn every_statement_is_executed() {
    let mut r = request("select 1; drop x; select 2 limit 9", None, None);
    r.limit = Some(50);
    let b = batch(execute_sql(r));
    let mut step = clock_started(b);
    let mut answers =
        vec![Ok(one_row("x")), Err("refused".to_string()), Ok(one_row("y"))];
    let mut sent = Vec::new();
    let results = loop {
        match step {
            ExecuteStep::Execute { sql, execution } => {
                sent.push(sql);
                step = statement_answered(execution, answers.remove(0));
            }
            ExecuteStep::ReadClock(results) => break results,
            other => panic!("unexpected step: {:?}", other),
        }
    };
    assert_eq!(sent, vec!["select 1 LIMIT 50", "drop x", "select 2 limit 9"]);
    let sqls: Vec<&str> = results.iter().map(|r| r.sql.as_str()).collect();
    assert_eq!(sqls, vec!["select 1", "drop x", "select 2 limit 9"]);
    let outcomes: Vec<bool> = results.iter().map(|r| r.success).collect();
    assert_eq!(outcomes, vec![true, false, true]);
    match clock_read(results, 77) {
        ExecuteStep::Finished(response) => {
            assert_eq!(response.results.len(), 3);
            assert_eq!(response.total_execution_time_ms, 77);
        }
        other => panic!("not finished: {:?}", other),
    }
}

#[test]
fn answers_are_recorded() {
    assert_eq!(
        record("q".to_string(), Ok(one_row("x"))),
        SingleQueryResult {
            sql: "q".to_string(),
            columns: vec!["c".to_string()],
            rows: vec![vec!["x".to_string()]],
            row_count: 1,
            execution_time_ms: 12,
            success: true,
            error: None,
        }
    );
    assert_eq!(
        record("q".to_string(), Err("refused".to_string())),
        SingleQueryResult {
            sql: "q".to_string(),
            columns: Vec::new(),
            rows: Vec::new(),
            row_count: 0,
            execution_time_ms: 0,
            success: false,
            error: Some("refused".to_string()),
        }
    );
}
