# query_handlers

The decisions behind the HTTP handlers of a SQL console, as a verified library.

- `src/text.rs` trims, compares, searches and upper-cases text and writes numbers.
- `src/quote.rs` tells which characters of SQL text stand inside a literal.
- `src/statement.rs` cuts submitted text into statements.
- `src/limit.rs` bounds the rows that a query may return.
- `src/rows.rs` reads names out of the rows of an answer.
- `src/catalogs.rs`, `src/tables.rs` and `src/execute.rs` say, step by step, what to
  send over a database session and what to make of each answer.
- `src/access.rs` and `src/kill.rs` choose the cluster of a request and the statement
  that stops a query.

A step function takes what is known and an answer and gives the next step, so that
`app/` only carries steps out: it holds the handlers, the types that go over the
wire and the interfaces of the services. The proof functions named `law_...` state
what holds of the library as a whole.
