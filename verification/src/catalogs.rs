//! Listing catalogs and the databases in them.
//!
//! Listing all catalogs with their databases takes several exchanges with the
//! database. `CatalogsStep` says what to do next and holds what is known so far;
//! each function that takes an answer gives the step after it.

use vstd::prelude::*;
use vstd::string::*;

use crate::rows;
use crate::text;

verus! {

/// A catalog and its databases.
#[derive(Debug, PartialEq, Eq)]
pub struct CatalogWithDatabases {
    pub catalog: String,
    pub databases: Vec<String>,
}

/// All catalogs with their databases.
#[derive(Debug, PartialEq, Eq)]
pub struct CatalogsWithDatabasesResponse {
    pub catalogs: Vec<CatalogWithDatabases>,
}

/// A survey of the databases of each catalog: the catalog that is asked about,
/// those still to be asked about, and what is known of the others.
#[derive(Debug, PartialEq, Eq)]
pub struct CatalogSurvey {
    pub catalog: String,
    pub waiting: Vec<String>,
    pub done: Vec<CatalogWithDatabases>,
}

/// What to do next to list all catalogs with their databases.
#[derive(Debug, PartialEq, Eq)]
pub enum CatalogsStep {
    /// Send `sql` and hand the answer to `catalogs_answered`.
    ShowCatalogs { sql: String },
    /// Open a session and hand the outcome to `catalogs_session_opened`.
    OpenSession { names: Vec<String> },
    /// Send `sql` over the session and hand the answer to `databases_answered`.
    ShowDatabases { sql: String, survey: CatalogSurvey },
    /// Nothing: this is the result.
    Finished(CatalogsWithDatabasesResponse),
}

/// A catalog and its databases, as texts.
#[verifier::ext_equal]
pub struct CatalogView {
    pub catalog: Seq<char>,
    pub databases: Seq<Seq<char>>,
}

/// A survey, as texts.
#[verifier::ext_equal]
pub struct SurveyView {
    pub catalog: Seq<char>,
    pub waiting: Seq<Seq<char>>,
    pub done: Seq<CatalogView>,
}

/// A step, as texts.
#[verifier::ext_equal]
pub enum CatalogsView {
    ShowCatalogs { sql: Seq<char> },
    OpenSession { names: Seq<Seq<char>> },
    ShowDatabases { sql: Seq<char>, survey: SurveyView },
    Finished(Seq<CatalogView>),
}

impl DeepView for CatalogWithDatabases {
    type V = CatalogView;

    open spec fn deep_view(&self) -> CatalogView {
        CatalogView { catalog: self.catalog@, databases: self.databases.deep_view() }
    }
}

impl DeepView for CatalogSurvey {
    type V = SurveyView;

    open spec fn deep_view(&self) -> SurveyView {
        SurveyView {
            catalog: self.catalog@,
            waiting: self.waiting.deep_view(),
            done: self.done.deep_view(),
        }
    }
}

impl DeepView for CatalogsStep {
    type V = CatalogsView;

    open spec fn deep_view(&self) -> CatalogsView {
        match self {
            CatalogsStep::ShowCatalogs { sql } => CatalogsView::ShowCatalogs { sql: sql@ },
            CatalogsStep::OpenSession { names } => CatalogsView::OpenSession {
                names: names.deep_view(),
            },
            CatalogsStep::ShowDatabases { sql, survey } => CatalogsView::ShowDatabases {
                sql: sql@,
                survey: survey.deep_view(),
            },
            CatalogsStep::Finished(response) => CatalogsView::Finished(
                response.catalogs.deep_view(),
            ),
        }
    }
}

/// The statement that lists the catalogs.
pub fn show_catalogs_sql() -> (sql: String)
    ensures
        sql@ == "SHOW CATALOGS"@,
{
    "SHOW CATALOGS".to_owned()
}

/// The text of the statement that lists the databases of a catalog.
pub open spec fn show_databases_of(catalog: Seq<char>) -> Seq<char> {
    "SHOW DATABASES FROM "@ + catalog
}

/// The statement that lists the databases of `catalog`, or those of the current
/// catalog if none is given.
pub fn show_databases_sql(catalog: Option<&str>) -> (sql: String)
    ensures
        match catalog {
            Some(name) => sql@ == show_databases_of(name@) && sql@ == "SHOW DATABASES FROM "@
                + name@,
            None => sql@ == "SHOW DATABASES"@,
        },
{
    match catalog {
        Some(name) => "SHOW DATABASES FROM ".to_owned().concat(name),
        None => "SHOW DATABASES".to_owned(),
    }
}

/// Whether a name is that of a database that belongs to the system.
fn names_system_database(name: &str) -> (res: bool)
    ensures
        res == rows::is_system_database(name@),
{
    text::same_text(name, "information_schema") || text::same_text(name, "_statistics_")
}

/// The catalogs, from the rows that `SHOW CATALOGS` answers with: the names in
/// them, in order.
pub fn list_catalogs(catalog_rows: &Vec<Vec<String>>) -> (names: Vec<String>)
    ensures
        names.deep_view() == rows::names_in(catalog_rows.deep_view()),
{
    let mut names: Vec<String> = Vec::new();
    let ghost all = catalog_rows.deep_view();
    let ghost f = |row: Seq<Seq<char>>| rows::name_in(row);
    assert(names.deep_view() =~= all.take(0).filter_map(f));
    let mut i: usize = 0;
    while i < catalog_rows.len()
        invariant
            i <= catalog_rows@.len(),
            all == catalog_rows.deep_view(),
            f == (|row: Seq<Seq<char>>| rows::name_in(row)),
            names.deep_view() == all.take(i as int).filter_map(f),
        decreases catalog_rows@.len() - i,
    {
        let ghost before = names.deep_view();
        proof {
            all.lemma_filter_map_take_succ(f, i as int);
            assert(all[i as int] == catalog_rows@[i as int].deep_view());
        }
        if let Some(name) = rows::row_name(&catalog_rows[i]) {
            names.push(name);
            assert(names.deep_view() =~= before + seq![name@]);
        }
        i += 1;
        assert(names.deep_view() =~= all.take(i as int).filter_map(f));
    }
    assert(all.take(i as int) =~= all);
    names
}

/// The databases, from the rows that `SHOW DATABASES` answers with: the names in
/// them, in order, without those of system databases.
pub fn list_databases(database_rows: &Vec<Vec<String>>) -> (names: Vec<String>)
    ensures
        names.deep_view() == rows::databases_in(database_rows.deep_view()),
{
    let mut names: Vec<String> = Vec::new();
    let ghost all = database_rows.deep_view();
    let ghost f = |row: Seq<Seq<char>>| rows::database_in(row);
    assert(names.deep_view() =~= all.take(0).filter_map(f));
    let mut i: usize = 0;
    while i < database_rows.len()
        invariant
            i <= database_rows@.len(),
            all == database_rows.deep_view(),
            f == (|row: Seq<Seq<char>>| rows::database_in(row)),
            names.deep_view() == all.take(i as int).filter_map(f),
        decreases database_rows@.len() - i,
    {
        let ghost before = names.deep_view();
        proof {
            all.lemma_filter_map_take_succ(f, i as int);
            assert(all[i as int] == database_rows@[i as int].deep_view());
        }
        if let Some(name) = rows::row_name(&database_rows[i]) {
            if !names_system_database(name.as_str()) {
                names.push(name);
                assert(names.deep_view() =~= before + seq![name@]);
            }
        }
        i += 1;
        assert(names.deep_view() =~= all.take(i as int).filter_map(f));
    }
    assert(all.take(i as int) =~= all);
    names
}

/// The step that asks about the first of `names`, or the result if there is
/// none left.
pub open spec fn asking(names: Seq<Seq<char>>, done: Seq<CatalogView>) -> CatalogsView {
    if names.len() == 0 {
        CatalogsView::Finished(done)
    } else {
        CatalogsView::ShowDatabases {
            sql: show_databases_of(names[0]),
            survey: SurveyView { catalog: names[0], waiting: names.drop_first(), done },
        }
    }
}

/// What an answer says of a catalog: the databases in its rows, and none if the
/// catalog could not be asked.
pub open spec fn surveyed(
    catalog: Seq<char>,
    answer: Option<Seq<Seq<Seq<char>>>>,
) -> CatalogView {
    CatalogView {
        catalog,
        databases: match answer {
            Some(database_rows) => rows::databases_in(database_rows),
            None => Seq::empty(),
        },
    }
}

/// The step after an answer about the databases of a catalog.
pub open spec fn after_databases(
    survey: SurveyView,
    answer: Option<Seq<Seq<Seq<char>>>>,
) -> CatalogsView {
    asking(survey.waiting, survey.done.push(surveyed(survey.catalog, answer)))
}

/// The first step to list all catalogs with their databases.
pub fn list_catalogs_with_databases() -> (step: CatalogsStep)
    ensures
        step.deep_view() == (CatalogsView::ShowCatalogs { sql: "SHOW CATALOGS"@ }),
{
    CatalogsStep::ShowCatalogs { sql: show_catalogs_sql() }
}

/// The step after the answer to `SHOW CATALOGS`: a session is opened, whether or
/// not there are catalogs. A failure ends the listing.
pub fn catalogs_answered<E>(answer: Result<Vec<Vec<String>>, E>) -> (step: Result<CatalogsStep, E>)
    ensures
        match answer {
            Ok(catalog_rows) => step matches Ok(next) && next.deep_view() == (
            CatalogsView::OpenSession { names: rows::names_in(catalog_rows.deep_view()) }),
            Err(e) => step == Err::<CatalogsStep, E>(e),
        },
{
    match answer {
        Ok(catalog_rows) => Ok(CatalogsStep::OpenSession { names: list_catalogs(&catalog_rows) }),
        Err(e) => Err(e),
    }
}

/// The step that asks about the first of `names`, or the result if there is none
/// left.
fn ask_next(names: Vec<String>, done: Vec<CatalogWithDatabases>) -> (step: CatalogsStep)
    ensures
        step.deep_view() == asking(names.deep_view(), done.deep_view()),
{
    let mut waiting = names;
    if waiting.len() == 0 {
        CatalogsStep::Finished(CatalogsWithDatabasesResponse { catalogs: done })
    } else {
        let catalog = waiting.remove(0);
        assert(waiting.deep_view() =~= names.deep_view().drop_first());
        CatalogsStep::ShowDatabases {
            sql: show_databases_sql(Some(catalog.as_str())),
            survey: CatalogSurvey { catalog, waiting, done },
        }
    }
}

/// The step after the session was opened. A failure ends the listing.
pub fn catalogs_session_opened<E>(names: Vec<String>, opened: Result<(), E>) -> (step: Result<
    CatalogsStep,
    E,
>)
    ensures
        match opened {
            Ok(_) => step matches Ok(next) && next.deep_view() == asking(
                names.deep_view(),
                Seq::empty(),
            ),
            Err(e) => step == Err::<CatalogsStep, E>(e),
        },
{
    match opened {
        Ok(_) => {
            let done: Vec<CatalogWithDatabases> = Vec::new();
            assert(done.deep_view() =~= Seq::empty());
            Ok(ask_next(names, done))
        },
        Err(e) => Err(e),
    }
}

/// The step after an answer about the databases of a catalog. A catalog that
/// could not be asked is listed without databases, and the survey goes on.
pub fn databases_answered<E>(
    survey: CatalogSurvey,
    answer: Result<Vec<Vec<String>>, E>,
) -> (step: CatalogsStep)
    ensures
        step.deep_view() == after_databases(survey.deep_view(), rows::rows_of(answer)),
{
    let databases = match &answer {
        Ok(database_rows) => list_databases(database_rows),
        Err(_) => Vec::new(),
    };
    let mut done = survey.done;
    done.push(CatalogWithDatabases { catalog: survey.catalog, databases });
    proof {
        let answered = rows::rows_of(answer);
        assert(databases.deep_view() =~= surveyed(survey.catalog@, answered).databases);
        assert(done.deep_view() =~= survey.done.deep_view().push(
            surveyed(survey.catalog@, answered),
        ));
    }
    ask_next(survey.waiting, done)
}

// ---------------------------------------------------------------------------
// Laws
// ---------------------------------------------------------------------------

/// The step reached from `step` when the catalogs are answered one by one.
pub open spec fn answered_in_turn(
    step: CatalogsView,
    answers: Seq<Option<Seq<Seq<Seq<char>>>>>,
) -> CatalogsView
    decreases answers.len(),
{
    if answers.len() == 0 {
        step
    } else {
        match step {
            CatalogsView::ShowDatabases { survey, .. } => answered_in_turn(
                after_databases(survey, answers.first()),
                answers.drop_first(),
            ),
            _ => step,
        }
    }
}

proof fn lemma_answered_in_turn(
    names: Seq<Seq<char>>,
    done: Seq<CatalogView>,
    answers: Seq<Option<Seq<Seq<Seq<char>>>>>,
)
    requires
        answers.len() <= names.len(),
    ensures
        answered_in_turn(asking(names, done), answers) == asking(
            names.skip(answers.len() as int),
            done + Seq::new(answers.len(), |i: int| surveyed(names[i], answers[i])),
        ),
    decreases answers.len(),
{
    let new = Seq::new(answers.len(), |i: int| surveyed(names[i], answers[i]));
    if answers.len() == 0 {
        assert(names.skip(0) =~= names);
        assert(done + new =~= done);
    } else {
        let rest = names.drop_first();
        let one = surveyed(names[0], answers[0]);
        lemma_answered_in_turn(rest, done.push(one), answers.drop_first());
        let later = Seq::new(
            answers.drop_first().len(),
            |i: int| surveyed(rest[i], answers.drop_first()[i]),
        );
        assert(done.push(one) + later =~= done + new);
        assert(rest.skip(answers.drop_first().len() as int) =~= names.skip(answers.len() as int));
    }
}

/// Catalogs are asked about in order, each once, and a failure about one does
/// not keep the others from being asked: while answers are outstanding the next
/// catalog in line is asked about, and once every catalog has been answered the
/// result holds one entry per catalog, in order, with the databases of its own
/// answer.
pub proof fn law_every_catalog_is_listed(
    names: Seq<Seq<char>>,
    answers: Seq<Option<Seq<Seq<Seq<char>>>>>,
)
    requires
        answers.len() <= names.len(),
    ensures
        answers.len() < names.len() ==> {
            &&& answered_in_turn(asking(names, Seq::empty()), answers) is ShowDatabases
            &&& answered_in_turn(asking(names, Seq::empty()), answers)->ShowDatabases_sql
                == show_databases_of(names[answers.len() as int])
        },
        answers.len() == names.len() ==> answered_in_turn(asking(names, Seq::empty()), answers)
            == CatalogsView::Finished(
            Seq::new(names.len(), |i: int| surveyed(names[i], answers[i])),
        ),
{
    lemma_answered_in_turn(names, Seq::empty(), answers);
    let listed = Seq::new(answers.len(), |i: int| surveyed(names[i], answers[i]));
    assert(Seq::empty() + listed =~= listed);
}

/// After an answer about a catalog, what was known stays, and one entry is added for
/// that catalog: with the databases of the answer, the same that are listed for its
/// rows on their own, or with none if the answer was a failure. Then the next catalog
/// in line is asked for its databases, or, if there is none, this is the result.
pub proof fn law_one_answer_adds_one_entry(
    survey: SurveyView,
    answer: Option<Seq<Seq<Seq<char>>>>,
)
    ensures
        ({
            let databases = match answer {
                Some(database_rows) => rows::databases_in(database_rows),
                None => Seq::empty(),
            };
            let listed = survey.done + seq![CatalogView { catalog: survey.catalog, databases }];
            if survey.waiting.len() == 0 {
                after_databases(survey, answer) == CatalogsView::Finished(listed)
            } else {
                after_databases(survey, answer) == (CatalogsView::ShowDatabases {
                    sql: "SHOW DATABASES FROM "@ + survey.waiting[0],
                    survey: SurveyView {
                        catalog: survey.waiting[0],
                        waiting: survey.waiting.skip(1),
                        done: listed,
                    },
                })
            }
        }),
{
    let databases = match answer {
        Some(database_rows) => rows::databases_in(database_rows),
        None => Seq::empty(),
    };
    let listed = survey.done + seq![CatalogView { catalog: survey.catalog, databases }];
    assert(survey.done.push(surveyed(survey.catalog, answer)) =~= listed);
    if survey.waiting.len() > 0 {
        assert(survey.waiting.drop_first() =~= survey.waiting.skip(1));
    }
}

/// A survey of the catalogs in the rows of `SHOW CATALOGS`, carried to its end, lists
/// each of them once, in order. The entry of a catalog that answered holds every
/// database of its answer, in order, and that of a catalog that failed holds none.
/// Before that, each catalog in turn is asked for its databases.
pub proof fn law_survey_outcome(
    catalog_rows: Seq<Seq<Seq<char>>>,
    answers: Seq<Option<Seq<Seq<Seq<char>>>>>,
)
    requires
        answers.len() <= rows::names_in(catalog_rows).len(),
    ensures
        ({
            let names = rows::names_in(catalog_rows);
            let step = answered_in_turn(asking(names, Seq::empty()), answers);
            if answers.len() < names.len() {
                step matches CatalogsView::ShowDatabases { sql, survey } && sql
                    == "SHOW DATABASES FROM "@ + names[answers.len() as int] && survey.catalog
                    == names[answers.len() as int] && survey.done.len() == answers.len()
            } else {
                step matches CatalogsView::Finished(list) && list.len() == names.len() && (forall|
                    i: int,
                |
                    0 <= i < list.len() ==> (#[trigger] list[i]).catalog == names[i] && (
                    answers[i] matches Some(database_rows) ==> list[i].databases
                        == rows::databases_in(database_rows)) && (answers[i] is None
                        ==> list[i].databases.len() == 0))
            }
        }),
{
    let names = rows::names_in(catalog_rows);
    lemma_answered_in_turn(names, Seq::empty(), answers);
}

/// What is listed for a catalog: it, under its own name, with the databases that its
/// rows give row by row.
pub proof fn law_listed_databases(
    catalog: Seq<char>,
    a: Seq<Seq<Seq<char>>>,
    b: Seq<Seq<Seq<char>>>,
)
    ensures
        surveyed(catalog, Some(a)).catalog == catalog,
        surveyed(catalog, None).catalog == catalog,
        surveyed(catalog, None).databases.len() == 0,
        surveyed(catalog, Some(a + b)).databases == surveyed(catalog, Some(a)).databases
            + surveyed(catalog, Some(b)).databases,
        surveyed(catalog, Some(a)).databases == rows::databases_in(a),
{
    rows::law_rows_are_read_one_by_one(a, b);
}

/// The statement for the databases of a catalog names it, whatever its name.
pub proof fn law_databases_are_asked_by_name(catalog: Seq<char>, other: Seq<char>)
    ensures
        show_databases_of(catalog) == "SHOW DATABASES FROM "@ + catalog,
        show_databases_of(catalog) == show_databases_of(other) ==> catalog == other,
{
    let start = "SHOW DATABASES FROM "@;
    if show_databases_of(catalog) == show_databases_of(other) {
        assert((start + catalog).skip(start.len() as int) =~= catalog);
        assert((start + other).skip(start.len() as int) =~= other);
    }
}

/// The texts of a step and of a listed catalog are those of its fields.
pub proof fn law_catalog_views(entry: CatalogWithDatabases, survey: CatalogSurvey, step: CatalogsStep)
    ensures
        entry.deep_view().catalog == entry.catalog@,
        entry.deep_view().databases == entry.databases.deep_view(),
        survey.deep_view().catalog == survey.catalog@,
        survey.deep_view().waiting == survey.waiting.deep_view(),
        survey.deep_view().done == survey.done.deep_view(),
        step matches CatalogsStep::ShowCatalogs { sql } ==> step.deep_view() == (
        CatalogsView::ShowCatalogs { sql: sql@ }),
        step matches CatalogsStep::OpenSession { names } ==> step.deep_view() == (
        CatalogsView::OpenSession { names: names.deep_view() }),
        step matches CatalogsStep::ShowDatabases { sql, survey: kept } ==> step.deep_view() == (
        CatalogsView::ShowDatabases { sql: sql@, survey: kept.deep_view() }),
        step matches CatalogsStep::Finished(response) ==> step.deep_view()
            == CatalogsView::Finished(response.catalogs.deep_view()),
{
}

} // verus!
