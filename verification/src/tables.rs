//! Listing the tables, views and materialized views of a database.
//!
//! The listing takes several exchanges with the database. `TablesStep` says what
//! to do next and holds what is known so far; each function that takes an answer
//! gives the step after it.

use vstd::hash_map::StringHashMap;
use vstd::prelude::*;
use vstd::string::*;

use crate::rows;
use crate::text;

verus! {

/// The catalog whose tables are named without it.
pub const DEFAULT_CATALOG: &'static str = "default_catalog";

/// Lists the names and types of the objects of a schema, which is its one
/// parameter, in the order of their names.
pub const SCHEMA_OBJECTS_SQL: &'static str = r#"
                SELECT 
                    t.TABLE_NAME,
                    CASE
                        WHEN t.TABLE_TYPE = 'TABLE' OR t.TABLE_TYPE = 'BASE TABLE' THEN 'TABLE'
                        WHEN mv.TABLE_NAME IS NOT NULL THEN 'MATERIALIZED_VIEW'
                        ELSE 'VIEW'
                    END AS OBJECT_TYPE
                FROM information_schema.tables t
                LEFT JOIN information_schema.materialized_views mv
                    ON t.TABLE_SCHEMA = mv.TABLE_SCHEMA
                   AND t.TABLE_NAME = mv.TABLE_NAME
                WHERE t.TABLE_SCHEMA = ?
                ORDER BY t.TABLE_NAME
            "#;

/// Lists the names and types of the objects of a schema, which is its one
/// parameter, in any order.
pub const OBJECT_TYPES_SQL: &'static str = r#"
                SELECT 
                    t.TABLE_NAME,
                    CASE
                        WHEN t.TABLE_TYPE = 'TABLE' OR t.TABLE_TYPE = 'BASE TABLE' THEN 'TABLE'
                        WHEN mv.TABLE_NAME IS NOT NULL THEN 'MATERIALIZED_VIEW'
                        ELSE 'VIEW'
                    END AS OBJECT_TYPE
                FROM information_schema.tables t
                LEFT JOIN information_schema.materialized_views mv
                    ON t.TABLE_SCHEMA = mv.TABLE_SCHEMA
                   AND t.TABLE_NAME = mv.TABLE_NAME
                WHERE t.TABLE_SCHEMA = ?
            "#;

/// What an object of a database is.
#[derive(Clone, Copy, Debug, PartialEq, Eq, Structural)]
pub enum TableObjectType {
    Table,
    View,
    MaterializedView,
}

/// The name and the type of an object of a database.
#[derive(Debug, PartialEq, Eq)]
pub struct TableMetadata {
    pub name: String,
    pub object_type: TableObjectType,
}

/// What to do next to list the tables of a database.
#[derive(Debug, PartialEq, Eq)]
pub enum TablesStep {
    /// Open a session and hand the outcome to `tables_session_opened`.
    OpenSession { database: String, catalog: Option<String> },
    /// Send `sql` over the session and hand the answer to `tables_shown`.
    ShowTables { sql: String, database: String },
    /// Send `sql` over the session with the database as its parameter and hand the
    /// answer to `schema_listed`.
    ListSchema { sql: String, database: String },
    /// Send `sql` over the session with the database as its parameter and hand the
    /// answer to `types_found`.
    FindTypes { sql: String, database: String, tables: Vec<TableMetadata> },
    /// Nothing: this is the result.
    Finished(Vec<TableMetadata>),
}

/// The name and the type of an object, as text.
#[verifier::ext_equal]
pub struct TableView {
    pub name: Seq<char>,
    pub object_type: TableObjectType,
}

/// A step, as texts.
#[verifier::ext_equal]
pub enum TablesView {
    OpenSession { database: Seq<char>, catalog: Option<Seq<char>> },
    ShowTables { sql: Seq<char>, database: Seq<char> },
    ListSchema { sql: Seq<char>, database: Seq<char> },
    FindTypes { sql: Seq<char>, database: Seq<char>, tables: Seq<TableView> },
    Finished(Seq<TableView>),
}

impl DeepView for TableMetadata {
    type V = TableView;

    open spec fn deep_view(&self) -> TableView {
        TableView { name: self.name@, object_type: self.object_type }
    }
}

impl DeepView for TablesStep {
    type V = TablesView;

    open spec fn deep_view(&self) -> TablesView {
        match self {
            TablesStep::OpenSession { database, catalog } => TablesView::OpenSession {
                database: database@,
                catalog: catalog.deep_view(),
            },
            TablesStep::ShowTables { sql, database } => TablesView::ShowTables {
                sql: sql@,
                database: database@,
            },
            TablesStep::ListSchema { sql, database } => TablesView::ListSchema {
                sql: sql@,
                database: database@,
            },
            TablesStep::FindTypes { sql, database, tables } => TablesView::FindTypes {
                sql: sql@,
                database: database@,
                tables: tables.deep_view(),
            },
            TablesStep::Finished(tables) => TablesView::Finished(tables.deep_view()),
        }
    }
}

// ---------------------------------------------------------------------------
// Reading rows
// ---------------------------------------------------------------------------

/// The type with the upper-case name `name`; what names no other type stands for
/// a table.
pub open spec fn type_of_upper(name: Seq<char>) -> TableObjectType {
    if name == "MATERIALIZED_VIEW"@ {
        TableObjectType::MaterializedView
    } else if name == "VIEW"@ {
        TableObjectType::View
    } else {
        TableObjectType::Table
    }
}

/// The type that a cell names, in whatever case and with white space around it.
pub open spec fn type_named(cell: Seq<char>) -> TableObjectType {
    type_of_upper(text::upper(text::trimmed(cell)))
}

/// The object in a row of `SHOW TABLES`, which gives no types.
pub open spec fn shown_in(row: Seq<Seq<char>>) -> Option<TableView> {
    match rows::name_in(row) {
        Some(name) => Some(TableView { name, object_type: TableObjectType::Table }),
        None => None,
    }
}

/// The object in a row with a name and a type; a row without a type stands for
/// a table.
pub open spec fn object_in(row: Seq<Seq<char>>) -> Option<TableView> {
    match rows::name_in(row) {
        Some(name) => Some(
            TableView {
                name,
                object_type: if row.len() > 1 {
                    type_named(row[1])
                } else {
                    TableObjectType::Table
                },
            },
        ),
        None => None,
    }
}

/// The objects in the rows of `SHOW TABLES`, in order.
pub open spec fn shown_tables(table_rows: Seq<Seq<Seq<char>>>) -> Seq<TableView> {
    table_rows.filter_map(|row: Seq<Seq<char>>| shown_in(row))
}

/// The objects in rows with a name and a type, in order.
pub open spec fn schema_tables(table_rows: Seq<Seq<Seq<char>>>) -> Seq<TableView> {
    table_rows.filter_map(|row: Seq<Seq<char>>| object_in(row))
}

/// The type that `type_rows` give for `name`: that of the last row that has both
/// this name and a type.
pub open spec fn type_in(type_rows: Seq<Seq<Seq<char>>>, name: Seq<char>) -> Option<TableObjectType>
    decreases type_rows.len(),
{
    if type_rows.len() == 0 {
        None
    } else if type_rows.last().len() > 1 && text::trimmed(type_rows.last()[0]) == name {
        Some(type_named(type_rows.last()[1]))
    } else {
        type_in(type_rows.drop_last(), name)
    }
}

/// `table` with the type that `type_rows` give for its name; as it is if they
/// give none.
pub open spec fn retyped(table: TableView, type_rows: Seq<Seq<Seq<char>>>) -> TableView {
    match type_in(type_rows, table.name) {
        Some(object_type) => TableView { name: table.name, object_type },
        None => table,
    }
}

/// Each of `tables` with the type that `type_rows` give for its name.
pub open spec fn all_retyped(
    tables: Seq<TableView>,
    type_rows: Seq<Seq<Seq<char>>>,
) -> Seq<TableView> {
    tables.map_values(|table: TableView| retyped(table, type_rows))
}

/// The type with the upper-case name `name`.
pub fn type_with_upper_name(name: &str) -> (object_type: TableObjectType)
    ensures
        object_type == type_of_upper(name@),
{
    if text::same_text(name, "MATERIALIZED_VIEW") {
        TableObjectType::MaterializedView
    } else if text::same_text(name, "VIEW") {
        TableObjectType::View
    } else {
        TableObjectType::Table
    }
}

/// The type that a cell names.
pub fn object_type_of(cell: &str) -> (object_type: TableObjectType)
    ensures
        object_type == type_named(cell@),
{
    let name = text::to_uppercase(text::trim(cell).as_str());
    type_with_upper_name(name.as_str())
}

fn read_shown_tables(table_rows: &Vec<Vec<String>>) -> (tables: Vec<TableMetadata>)
    ensures
        tables.deep_view() == shown_tables(table_rows.deep_view()),
{
    let mut tables: Vec<TableMetadata> = Vec::new();
    let ghost all = table_rows.deep_view();
    let ghost f = |row: Seq<Seq<char>>| shown_in(row);
    assert(tables.deep_view() =~= all.take(0).filter_map(f));
    let mut i: usize = 0;
    while i < table_rows.len()
        invariant
            i <= table_rows@.len(),
            all == table_rows.deep_view(),
            f == (|row: Seq<Seq<char>>| shown_in(row)),
            tables.deep_view() == all.take(i as int).filter_map(f),
        decreases table_rows@.len() - i,
    {
        let ghost before = tables.deep_view();
        proof {
            all.lemma_filter_map_take_succ(f, i as int);
            assert(all[i as int] == table_rows@[i as int].deep_view());
        }
        if let Some(name) = rows::row_name(&table_rows[i]) {
            let table = TableMetadata { name, object_type: TableObjectType::Table };
            tables.push(table);
            assert(tables.deep_view() =~= before + seq![table.deep_view()]);
        }
        i += 1;
        assert(tables.deep_view() =~= all.take(i as int).filter_map(f));
    }
    assert(all.take(i as int) =~= all);
    tables
}

fn read_schema_tables(table_rows: &Vec<Vec<String>>) -> (tables: Vec<TableMetadata>)
    ensures
        tables.deep_view() == schema_tables(table_rows.deep_view()),
{
    let mut tables: Vec<TableMetadata> = Vec::new();
    let ghost all = table_rows.deep_view();
    let ghost f = |row: Seq<Seq<char>>| object_in(row);
    assert(tables.deep_view() =~= all.take(0).filter_map(f));
    let mut i: usize = 0;
    while i < table_rows.len()
        invariant
            i <= table_rows@.len(),
            all == table_rows.deep_view(),
            f == (|row: Seq<Seq<char>>| object_in(row)),
            tables.deep_view() == all.take(i as int).filter_map(f),
        decreases table_rows@.len() - i,
    {
        let ghost before = tables.deep_view();
        let row = &table_rows[i];
        proof {
            all.lemma_filter_map_take_succ(f, i as int);
            assert(all[i as int] == row.deep_view());
        }
        if let Some(name) = rows::row_name(row) {
            let object_type = if row.len() > 1 {
                object_type_of(row[1].as_str())
            } else {
                TableObjectType::Table
            };
            let table = TableMetadata { name, object_type };
            tables.push(table);
            assert(tables.deep_view() =~= before + seq![table.deep_view()]);
        }
        i += 1;
        assert(tables.deep_view() =~= all.take(i as int).filter_map(f));
    }
    assert(all.take(i as int) =~= all);
    tables
}

/// The types that `type_rows` give, by name.
fn types_by_name(type_rows: &Vec<Vec<String>>) -> (types: StringHashMap<TableObjectType>)
    ensures
        forall|name: Seq<char>| #[trigger]
            types@.contains_key(name) <==> type_in(type_rows.deep_view(), name) is Some,
        forall|name: Seq<char>| #[trigger]
            types@.contains_key(name) ==> type_in(type_rows.deep_view(), name) == Some(
                types@[name],
            ),
{
    let mut types: StringHashMap<TableObjectType> = StringHashMap::new();
    let ghost all = type_rows.deep_view();
    let mut i: usize = 0;
    while i < type_rows.len()
        invariant
            i <= type_rows@.len(),
            all == type_rows.deep_view(),
            forall|name: Seq<char>| #[trigger]
                types@.contains_key(name) <==> type_in(all.take(i as int), name) is Some,
            forall|name: Seq<char>| #[trigger]
                types@.contains_key(name) ==> type_in(all.take(i as int), name) == Some(
                    types@[name],
                ),
        decreases type_rows@.len() - i,
    {
        let row = &type_rows[i];
        proof {
            assert(all.take(i + 1).drop_last() =~= all.take(i as int));
            assert(all.take(i + 1).last() == row.deep_view());
        }
        if row.len() > 1 {
            types.insert(text::trim(row[0].as_str()), object_type_of(row[1].as_str()));
        }
        i += 1;
    }
    assert(all.take(i as int) =~= all);
    types
}

/// Gives each of `tables` the type that `type_rows` give for its name.
fn retype(tables: Vec<TableMetadata>, type_rows: &Vec<Vec<String>>) -> (typed: Vec<TableMetadata>)
    ensures
        typed.deep_view() == all_retyped(tables.deep_view(), type_rows.deep_view()),
{
    let types = types_by_name(type_rows);
    let mut typed: Vec<TableMetadata> = Vec::new();
    let ghost wanted = all_retyped(tables.deep_view(), type_rows.deep_view());
    let mut i: usize = 0;
    while i < tables.len()
        invariant
            i <= tables@.len(),
            wanted == all_retyped(tables.deep_view(), type_rows.deep_view()),
            typed.deep_view() == wanted.take(i as int),
            forall|name: Seq<char>| #[trigger]
                types@.contains_key(name) <==> type_in(type_rows.deep_view(), name) is Some,
            forall|name: Seq<char>| #[trigger]
                types@.contains_key(name) ==> type_in(type_rows.deep_view(), name) == Some(
                    types@[name],
                ),
        decreases tables@.len() - i,
    {
        let ghost before = typed.deep_view();
        let table = &tables[i];
        let object_type = match types.get(table.name.as_str()) {
            Some(found) => *found,
            None => table.object_type,
        };
        let next = TableMetadata { name: table.name.clone(), object_type };
        typed.push(next);
        proof {
            assert(tables.deep_view()[i as int] == table.deep_view());
            assert(next.deep_view() == wanted[i as int]);
            assert(typed.deep_view() =~= before.push(next.deep_view()));
            assert(wanted.take(i + 1) =~= wanted.take(i as int).push(wanted[i as int]));
        }
        i += 1;
    }
    assert(wanted.take(i as int) =~= wanted);
    typed
}

// ---------------------------------------------------------------------------
// The steps
// ---------------------------------------------------------------------------

/// The statement that lists the tables of a database: the catalog is named
/// unless it is the default catalog.
pub open spec fn show_tables_of(database: Seq<char>, catalog: Option<Seq<char>>) -> Seq<char> {
    match catalog {
        Some(name) => if name == DEFAULT_CATALOG@ {
            "SHOW TABLES FROM "@ + database
        } else {
            "SHOW TABLES FROM "@ + name + "."@ + database
        },
        None => "SHOW TABLES FROM "@ + database,
    }
}

/// The first step: nothing is listed unless a database is named.
pub open spec fn first_step(
    database: Option<Seq<char>>,
    catalog: Option<Seq<char>>,
) -> TablesView {
    match database {
        Some(name) => if text::trimmed(name).len() > 0 {
            TablesView::OpenSession { database: text::trimmed(name), catalog }
        } else {
            TablesView::Finished(Seq::empty())
        },
        None => TablesView::Finished(Seq::empty()),
    }
}

/// The step once the session is open.
pub open spec fn after_session(database: Seq<char>, catalog: Option<Seq<char>>) -> TablesView {
    TablesView::ShowTables { sql: show_tables_of(database, catalog), database }
}

/// The step once tables are known: their types are looked up, if there are any.
pub open spec fn typing(database: Seq<char>, tables: Seq<TableView>) -> TablesView {
    if tables.len() == 0 {
        TablesView::Finished(tables)
    } else {
        TablesView::FindTypes { sql: OBJECT_TYPES_SQL@, database, tables }
    }
}

/// The step after the answer to `SHOW TABLES`; the schema is asked if the
/// statement failed.
pub open spec fn after_show(
    database: Seq<char>,
    answer: Option<Seq<Seq<Seq<char>>>>,
) -> TablesView {
    match answer {
        Some(table_rows) => typing(database, shown_tables(table_rows)),
        None => TablesView::ListSchema { sql: SCHEMA_OBJECTS_SQL@, database },
    }
}

/// The step after the answer about the schema; nothing is listed if that failed
/// too.
pub open spec fn after_schema(
    database: Seq<char>,
    answer: Option<Seq<Seq<Seq<char>>>>,
) -> TablesView {
    match answer {
        Some(table_rows) => typing(database, schema_tables(table_rows)),
        None => TablesView::Finished(Seq::empty()),
    }
}

/// The step after the answer about the types; the tables stay as they are if
/// that failed.
pub open spec fn after_types(
    tables: Seq<TableView>,
    answer: Option<Seq<Seq<Seq<char>>>>,
) -> TablesView {
    match answer {
        Some(type_rows) => TablesView::Finished(all_retyped(tables, type_rows)),
        None => TablesView::Finished(tables),
    }
}

/// The statement that lists the tables of a database.
pub fn show_tables_sql(database: &str, catalog: Option<&str>) -> (sql: String)
    ensures
        sql@ == show_tables_of(
            database@,
            match catalog {
                Some(name) => Some(name@),
                None => None,
            },
        ),
        catalog is None ==> sql@ == "SHOW TABLES FROM "@ + database@,
        catalog matches Some(name) ==> (name@ == "default_catalog"@ ==> sql@
            == "SHOW TABLES FROM "@ + database@),
        catalog matches Some(name) ==> (name@ != "default_catalog"@ ==> sql@
            == "SHOW TABLES FROM "@ + name@ + "."@ + database@),
{
    let mut sql = "SHOW TABLES FROM ".to_owned();
    if let Some(name) = catalog {
        if !text::same_text(name, DEFAULT_CATALOG) {
            sql.append(name);
            sql.append(".");
        }
    }
    sql.append(database);
    sql
}

/// The first step to list the tables of `database` in `catalog`. Without a
/// database, or with a blank one, the result is empty and no session is opened.
pub fn list_tables(database: Option<String>, catalog: Option<String>) -> (step: TablesStep)
    ensures
        step.deep_view() == first_step(database.deep_view(), catalog.deep_view()),
{
    if let Some(name) = database {
        let database = text::trim(name.as_str());
        if !database.as_str().is_empty() {
            return TablesStep::OpenSession { database, catalog };
        }
    }
    let tables: Vec<TableMetadata> = Vec::new();
    assert(tables.deep_view() =~= Seq::empty());
    TablesStep::Finished(tables)
}

/// The step after the session was opened. A failure ends the listing.
pub fn tables_session_opened<E>(
    database: String,
    catalog: Option<String>,
    opened: Result<(), E>,
) -> (step: Result<TablesStep, E>)
    ensures
        match opened {
            Ok(_) => step matches Ok(next) && next.deep_view() == after_session(
                database@,
                catalog.deep_view(),
            ),
            Err(e) => step == Err::<TablesStep, E>(e),
        },
{
    match opened {
        Ok(_) => {
            let sql = match &catalog {
                Some(name) => show_tables_sql(database.as_str(), Some(name.as_str())),
                None => show_tables_sql(database.as_str(), None),
            };
            Ok(TablesStep::ShowTables { sql, database })
        },
        Err(e) => Err(e),
    }
}

fn find_types(database: String, tables: Vec<TableMetadata>) -> (step: TablesStep)
    ensures
        step.deep_view() == typing(database@, tables.deep_view()),
{
    if tables.len() == 0 {
        TablesStep::Finished(tables)
    } else {
        TablesStep::FindTypes { sql: OBJECT_TYPES_SQL.to_owned(), database, tables }
    }
}

/// The step after the answer to `SHOW TABLES`. If the statement failed, the
/// schema is asked instead.
pub fn tables_shown<E>(database: String, answer: Result<Vec<Vec<String>>, E>) -> (step: TablesStep)
    ensures
        step.deep_view() == after_show(database@, rows::rows_of(answer)),
{
    match answer {
        Ok(table_rows) => find_types(database, read_shown_tables(&table_rows)),
        Err(_) => TablesStep::ListSchema { sql: SCHEMA_OBJECTS_SQL.to_owned(), database },
    }
}

/// The step after the answer about the schema. If that failed too, the result is
/// empty.
pub fn schema_listed<E>(database: String, answer: Result<Vec<Vec<String>>, E>) -> (step: TablesStep)
    ensures
        step.deep_view() == after_schema(database@, rows::rows_of(answer)),
{
    match answer {
        Ok(table_rows) => find_types(database, read_schema_tables(&table_rows)),
        Err(_) => {
            let tables: Vec<TableMetadata> = Vec::new();
            assert(tables.deep_view() =~= Seq::empty());
            TablesStep::Finished(tables)
        },
    }
}

/// The step after the answer about the types. If that failed, the tables keep
/// the types that they have.
pub fn types_found<E>(
    tables: Vec<TableMetadata>,
    answer: Result<Vec<Vec<String>>, E>,
) -> (step: TablesStep)
    ensures
        step.deep_view() == after_types(tables.deep_view(), rows::rows_of(answer)),
{
    match answer {
        Ok(type_rows) => TablesStep::Finished(retype(tables, &type_rows)),
        Err(_) => TablesStep::Finished(tables),
    }
}

// ---------------------------------------------------------------------------
// Laws
// ---------------------------------------------------------------------------

/// The answers that a database would give to the three statements, `None` where
/// the statement would fail.
pub struct Answers {
    pub shown: Option<Seq<Seq<Seq<char>>>>,
    pub schema: Option<Seq<Seq<Seq<char>>>>,
    pub types: Option<Seq<Seq<Seq<char>>>>,
}

/// The number of exchanges that may still follow a step.
pub open spec fn exchanges_left(step: TablesView) -> nat {
    match step {
        TablesView::OpenSession { .. } => 4,
        TablesView::ShowTables { .. } => 3,
        TablesView::ListSchema { .. } => 2,
        TablesView::FindTypes { .. } => 1,
        TablesView::Finished(_) => 0,
    }
}

/// The result of a listing that is carried on from `step` to its end, once a
/// session can be opened.
pub open spec fn outcome(step: TablesView, answers: Answers) -> Seq<TableView>
    decreases exchanges_left(step),
{
    match step {
        TablesView::OpenSession { database, catalog } => outcome(
            after_session(database, catalog),
            answers,
        ),
        TablesView::ShowTables { database, .. } => outcome(
            after_show(database, answers.shown),
            answers,
        ),
        TablesView::ListSchema { database, .. } => outcome(
            after_schema(database, answers.schema),
            answers,
        ),
        TablesView::FindTypes { tables, .. } => outcome(
            after_types(tables, answers.types),
            answers,
        ),
        TablesView::Finished(tables) => tables,
    }
}

/// The tables that a database is found to hold, before their types are looked
/// up: those that `SHOW TABLES` gives, those of the schema if that fails, and
/// none if both fail.
pub open spec fn found_tables(answers: Answers) -> Seq<TableView> {
    match answers.shown {
        Some(table_rows) => shown_tables(table_rows),
        None => match answers.schema {
            Some(table_rows) => schema_tables(table_rows),
            None => Seq::empty(),
        },
    }
}

/// A listing for a named database, carried to its end, gives the tables that
/// were found, each with the type that was looked up for it; if the look-up
/// failed, with the type that it was found with.
pub proof fn law_listing_outcome(database: Seq<char>, catalog: Option<Seq<char>>, answers: Answers)
    requires
        text::trimmed(database).len() > 0,
    ensures
        outcome(first_step(Some(database), catalog), answers) == (match answers.types {
            Some(type_rows) => all_retyped(found_tables(answers), type_rows),
            None => found_tables(answers),
        }),
{
    reveal_with_fuel(outcome, 5);
    if found_tables(answers).len() == 0 {
        if let Some(type_rows) = answers.types {
            assert(all_retyped(found_tables(answers), type_rows) =~= found_tables(answers));
        }
    }
}

/// Without a database, or with a blank one, nothing is listed, whatever the
/// database would answer.
pub proof fn law_no_database_lists_nothing(
    database: Option<Seq<char>>,
    catalog: Option<Seq<char>>,
    answers: Answers,
)
    requires
        database matches Some(name) ==> text::is_blank(name),
    ensures
        first_step(database, catalog) == TablesView::Finished(Seq::empty()),
        outcome(first_step(database, catalog), answers) == Seq::<TableView>::empty(),
{
    if let Some(name) = database {
        text::lemma_trimmed_of_padded(name, Seq::empty(), Seq::empty());
        assert(name + Seq::empty() + Seq::empty() =~= name);
    }
}

/// Looking up types changes types only: the tables and their order stay.
pub proof fn law_types_leave_names(tables: Seq<TableView>, type_rows: Seq<Seq<Seq<char>>>)
    ensures
        all_retyped(tables, type_rows).len() == tables.len(),
        forall|i: int|
            0 <= i < tables.len() ==> (#[trigger] all_retyped(tables, type_rows)[i]).name
                == tables[i].name,
{
}

/// A table keeps the type that it was found with exactly where no row gives both
/// its name and a type.
pub proof fn law_types_come_from_rows(type_rows: Seq<Seq<Seq<char>>>, name: Seq<char>)
    ensures
        type_in(type_rows, name) is None <==> (forall|k: int|
            0 <= k < type_rows.len() ==> (#[trigger] type_rows[k]).len() <= 1 || text::trimmed(
                type_rows[k][0],
            ) != name),
    decreases type_rows.len(),
{
    if type_rows.len() > 0 {
        let init = type_rows.drop_last();
        law_types_come_from_rows(init, name);
        assert(type_rows[type_rows.len() - 1] == type_rows.last());
        assert forall|k: int| 0 <= k < init.len() implies init[k] == #[trigger] type_rows[k] by {}
    }
}

/// Where several rows give a name and a type, the last of them counts.
pub proof fn law_last_row_gives_the_type(
    type_rows: Seq<Seq<Seq<char>>>,
    name: Seq<char>,
    k: int,
)
    requires
        0 <= k < type_rows.len(),
        type_rows[k].len() > 1,
        text::trimmed(type_rows[k][0]) == name,
        forall|j: int|
            k < j < type_rows.len() ==> (#[trigger] type_rows[j]).len() <= 1 || text::trimmed(
                type_rows[j][0],
            ) != name,
    ensures
        type_in(type_rows, name) == Some(type_named(type_rows[k][1])),
    decreases type_rows.len(),
{
    if k < type_rows.len() - 1 {
        let init = type_rows.drop_last();
        assert(type_rows[type_rows.len() - 1] == type_rows.last());
        assert forall|j: int| k < j < init.len() implies (#[trigger] init[j]).len() <= 1
            || text::trimmed(init[j][0]) != name by {
            assert(init[j] == type_rows[j]);
        }
        law_last_row_gives_the_type(init, name, k);
    }
}

/// The names of the tables found are the names in the rows, in order, whichever
/// statement gave the rows.
pub proof fn law_tables_are_the_names(table_rows: Seq<Seq<Seq<char>>>)
    ensures
        shown_tables(table_rows).map_values(|table: TableView| table.name) == rows::names_in(
            table_rows,
        ),
        schema_tables(table_rows).map_values(|table: TableView| table.name) == rows::names_in(
            table_rows,
        ),
    decreases table_rows.len(),
{
    let name = |table: TableView| table.name;
    if table_rows.len() > 0 {
        law_tables_are_the_names(table_rows.drop_last());
    }
    assert(shown_tables(table_rows).map_values(name) =~= rows::names_in(table_rows));
    assert(schema_tables(table_rows).map_values(name) =~= rows::names_in(table_rows));
}

/// The tables of a database are asked for by its name; the catalog is named before
/// it exactly if there is one and it is not `default_catalog`.
pub proof fn law_tables_are_asked_by_name(database: Seq<char>, catalog: Seq<char>)
    ensures
        show_tables_of(database, None) == "SHOW TABLES FROM "@ + database,
        catalog == "default_catalog"@ ==> show_tables_of(database, Some(catalog))
            == "SHOW TABLES FROM "@ + database,
        catalog != "default_catalog"@ ==> show_tables_of(database, Some(catalog))
            == "SHOW TABLES FROM "@ + catalog + "."@ + database,
        after_session(database, Some(catalog)) == (TablesView::ShowTables {
            sql: show_tables_of(database, Some(catalog)),
            database,
        }),
        after_session(database, None) == (TablesView::ShowTables {
            sql: "SHOW TABLES FROM "@ + database,
            database,
        }),
{
}

/// Another named catalog is asked another statement, and so is another database of
/// the same catalog.
pub proof fn law_other_tables_are_asked_otherwise(
    database: Seq<char>,
    other: Seq<char>,
    catalog: Option<Seq<char>>,
    left: Seq<char>,
    right: Seq<char>,
)
    requires
        left != "default_catalog"@,
        right != "default_catalog"@,
    ensures
        show_tables_of(database, catalog) == show_tables_of(other, catalog) ==> database == other,
        show_tables_of(database, Some(left)) == show_tables_of(database, Some(right)) ==> left
            == right,
{
    let start = "SHOW TABLES FROM "@;
    if show_tables_of(database, catalog) == show_tables_of(other, catalog) {
        let head = match catalog {
            Some(name) => if name == "default_catalog"@ {
                start
            } else {
                start + name + "."@
            },
            None => start,
        };
        assert((head + database).skip(head.len() as int) =~= database);
        assert((head + other).skip(head.len() as int) =~= other);
    }
    if show_tables_of(database, Some(left)) == show_tables_of(database, Some(right)) {
        let tail = "."@ + database;
        assert(start + left + "."@ + database =~= start + left + tail);
        assert(start + right + "."@ + database =~= start + right + tail);
        assert(left.len() == right.len());
        assert((start + left + tail).subrange(start.len() as int, (start.len() + left.len()) as int)
            =~= left);
        assert((start + right + tail).subrange(
            start.len() as int,
            (start.len() + right.len()) as int,
        ) =~= right);
    }
}

/// A session is opened exactly for a database that is named and not blank: for the
/// trimmed name, in the catalog of the request.
pub proof fn law_database_is_required(database: Seq<char>, catalog: Option<Seq<char>>)
    ensures
        first_step(None, catalog) == TablesView::Finished(Seq::empty()),
        text::trimmed(database).len() == 0 ==> first_step(Some(database), catalog)
            == TablesView::Finished(Seq::empty()),
        text::trimmed(database).len() > 0 ==> first_step(Some(database), catalog) == (
        TablesView::OpenSession { database: text::trimmed(database), catalog }),
{
}

/// A cell names a view or a materialized view if it says so in whatever case, with
/// or without white space around it; anything else is a table.
pub proof fn law_types_by_name(cell: Seq<char>)
    ensures
        text::upper(text::trimmed(cell)) == "VIEW"@ ==> type_named(cell) == TableObjectType::View,
        text::upper(text::trimmed(cell)) == "MATERIALIZED_VIEW"@ ==> type_named(cell)
            == TableObjectType::MaterializedView,
        text::upper(text::trimmed(cell)) != "VIEW"@ && text::upper(text::trimmed(cell))
            != "MATERIALIZED_VIEW"@ ==> type_named(cell) == TableObjectType::Table,
        type_named(cell) == type_of_upper(text::upper(text::trimmed(cell))),
{
    reveal_strlit("VIEW");
    reveal_strlit("MATERIALIZED_VIEW");
    assert("VIEW"@.len() != "MATERIALIZED_VIEW"@.len());
}

/// Rows are read one by one: none is lost, and the order stays.
pub proof fn law_table_rows_are_read_one_by_one(a: Seq<Seq<Seq<char>>>, b: Seq<Seq<Seq<char>>>)
    ensures
        shown_tables(Seq::empty()) == Seq::<TableView>::empty(),
        schema_tables(Seq::empty()) == Seq::<TableView>::empty(),
        shown_tables(a + b) == shown_tables(a) + shown_tables(b),
        schema_tables(a + b) == schema_tables(a) + schema_tables(b),
{
    rows::lemma_filter_map_of_concat(a, b, |row: Seq<Seq<char>>| shown_in(row));
    rows::lemma_filter_map_of_concat(a, b, |row: Seq<Seq<char>>| object_in(row));
}

/// A row with a name gives an object of that name: a table if the row is one of
/// `SHOW TABLES` or has no type, and otherwise what its second cell names. A row
/// without a name gives nothing.
pub proof fn law_table_of_a_row(row: Seq<Seq<char>>)
    ensures
        row.len() == 0 || text::trimmed(row[0]).len() == 0 ==> shown_tables(seq![row]).len() == 0
            && schema_tables(seq![row]).len() == 0,
        row.len() > 0 && text::trimmed(row[0]).len() > 0 ==> shown_tables(seq![row]) == seq![
            TableView { name: text::trimmed(row[0]), object_type: TableObjectType::Table },
        ],
        row.len() == 1 && text::trimmed(row[0]).len() > 0 ==> schema_tables(seq![row]) == seq![
            TableView { name: text::trimmed(row[0]), object_type: TableObjectType::Table },
        ],
        row.len() > 1 && text::trimmed(row[0]).len() > 0 ==> schema_tables(seq![row]) == seq![
            TableView { name: text::trimmed(row[0]), object_type: type_named(row[1]) },
        ],
{
    Seq::lemma_filter_map_singleton(row, |row: Seq<Seq<char>>| shown_in(row));
    Seq::lemma_filter_map_singleton(row, |row: Seq<Seq<char>>| object_in(row));
}

/// Each table gets the type that the last row with its name and a type gives, and
/// keeps its own if there is no such row; its name and its place stay.
pub proof fn law_looked_up_types(
    tables: Seq<TableView>,
    type_rows: Seq<Seq<Seq<char>>>,
    i: int,
    k: int,
)
    requires
        0 <= i < tables.len(),
    ensures
        all_retyped(tables, type_rows).len() == tables.len(),
        all_retyped(tables, type_rows)[i].name == tables[i].name,
        (forall|j: int|
            0 <= j < type_rows.len() ==> (#[trigger] type_rows[j]).len() <= 1 || text::trimmed(
                type_rows[j][0],
            ) != tables[i].name) ==> all_retyped(tables, type_rows)[i].object_type
            == tables[i].object_type,
        0 <= k < type_rows.len() && type_rows[k].len() > 1 && text::trimmed(type_rows[k][0])
            == tables[i].name && (forall|j: int|
            k < j < type_rows.len() ==> (#[trigger] type_rows[j]).len() <= 1 || text::trimmed(
                type_rows[j][0],
            ) != tables[i].name) ==> all_retyped(tables, type_rows)[i].object_type == type_named(
            type_rows[k][1],
        ),
{
    let name = tables[i].name;
    law_types_come_from_rows(type_rows, name);
    if 0 <= k < type_rows.len() && type_rows[k].len() > 1 && text::trimmed(type_rows[k][0]) == name
        && (forall|j: int|
        k < j < type_rows.len() ==> (#[trigger] type_rows[j]).len() <= 1 || text::trimmed(
            type_rows[j][0],
        ) != name) {
        law_last_row_gives_the_type(type_rows, name, k);
    }
}

/// What follows each answer. The tables that `SHOW TABLES` gave are typed, if there
/// are any; if it failed, the schema is asked. The tables of the schema are typed, if
/// there are any; if that failed, there are none. The types are taken over; if they
/// could not be had, the tables stay as they are.
pub proof fn law_what_follows_each_answer(
    database: Seq<char>,
    found: Seq<Seq<Seq<char>>>,
    tables: Seq<TableView>,
)
    ensures
        after_show(database, None) == (TablesView::ListSchema {
            sql: SCHEMA_OBJECTS_SQL@,
            database,
        }),
        after_schema(database, None) == TablesView::Finished(Seq::empty()),
        after_types(tables, None) == TablesView::Finished(tables),
        after_types(tables, Some(found)) == TablesView::Finished(all_retyped(tables, found)),
        shown_tables(found).len() == 0 ==> after_show(database, Some(found))
            == TablesView::Finished(Seq::empty()),
        shown_tables(found).len() > 0 ==> after_show(database, Some(found)) == (
        TablesView::FindTypes { sql: OBJECT_TYPES_SQL@, database, tables: shown_tables(found) }),
        schema_tables(found).len() == 0 ==> after_schema(database, Some(found))
            == TablesView::Finished(Seq::empty()),
        schema_tables(found).len() > 0 ==> after_schema(database, Some(found)) == (
        TablesView::FindTypes { sql: OBJECT_TYPES_SQL@, database, tables: schema_tables(found) }),
{
    assert(shown_tables(found).len() == 0 ==> shown_tables(found) =~= Seq::empty());
    assert(schema_tables(found).len() == 0 ==> schema_tables(found) =~= Seq::empty());
}

/// The two statements about a schema ask for the same names and types of the schema
/// that is their parameter; the one that lists the schema asks for the order of the
/// names as well.
pub proof fn law_schema_statements()
    ensures
        OBJECT_TYPES_SQL@ == r#"
                SELECT 
                    t.TABLE_NAME,
                    CASE
                        WHEN t.TABLE_TYPE = 'TABLE' OR t.TABLE_TYPE = 'BASE TABLE' THEN 'TABLE'
                        WHEN mv.TABLE_NAME IS NOT NULL THEN 'MATERIALIZED_VIEW'
                        ELSE 'VIEW'
                    END AS OBJECT_TYPE
                FROM information_schema.tables t
                LEFT JOIN information_schema.materialized_views mv
                    ON t.TABLE_SCHEMA = mv.TABLE_SCHEMA
                   AND t.TABLE_NAME = mv.TABLE_NAME
                WHERE t.TABLE_SCHEMA = ?
            "#@,
        SCHEMA_OBJECTS_SQL@ == r#"
                SELECT 
                    t.TABLE_NAME,
                    CASE
                        WHEN t.TABLE_TYPE = 'TABLE' OR t.TABLE_TYPE = 'BASE TABLE' THEN 'TABLE'
                        WHEN mv.TABLE_NAME IS NOT NULL THEN 'MATERIALIZED_VIEW'
                        ELSE 'VIEW'
                    END AS OBJECT_TYPE
                FROM information_schema.tables t
                LEFT JOIN information_schema.materialized_views mv
                    ON t.TABLE_SCHEMA = mv.TABLE_SCHEMA
                   AND t.TABLE_NAME = mv.TABLE_NAME
                WHERE t.TABLE_SCHEMA = ?
                ORDER BY t.TABLE_NAME
            "#@,
        DEFAULT_CATALOG@ == "default_catalog"@,
{
}

/// The texts of a step and of a table are those of its fields.
pub proof fn law_table_views(table: TableMetadata, step: TablesStep)
    ensures
        table.deep_view().name == table.name@,
        table.deep_view().object_type == table.object_type,
        step matches TablesStep::OpenSession { database, catalog } ==> step.deep_view() == (
        TablesView::OpenSession { database: database@, catalog: catalog.deep_view() }),
        step matches TablesStep::ShowTables { sql, database } ==> step.deep_view() == (
        TablesView::ShowTables { sql: sql@, database: database@ }),
        step matches TablesStep::ListSchema { sql, database } ==> step.deep_view() == (
        TablesView::ListSchema { sql: sql@, database: database@ }),
        step matches TablesStep::FindTypes { sql, database, tables } ==> step.deep_view() == (
        TablesView::FindTypes { sql: sql@, database: database@, tables: tables.deep_view() }),
        step matches TablesStep::Finished(tables) ==> step.deep_view() == TablesView::Finished(
            tables.deep_view(),
        ),
{
}

} // verus!
