use query_handlers::access::{cluster_lookup, ClusterLookup, OrgContext};
use query_handlers::catalogs::{
    catalogs_answered, catalogs_session_opened, databases_answered, list_catalogs,
    list_catalogs_with_databases, list_databases, show_catalogs_sql, show_databases_sql,
    CatalogWithDatabases, CatalogsStep, CatalogsWithDatabasesResponse,
};
use query_handlers::kill::kill_query;
use query_handlers::rows::row_name;
use query_handlers::tables::{
    list_tables, object_type_of, schema_listed, show_tables_sql, tables_session_opened,
    tables_shown, type_with_upper_name, types_found, TableMetadata, TableObjectType, TablesStep, OBJECT_TYPES_SQL,
    SCHEMA_OBJECTS_SQL,
};

fn row(cells: &[&str]) -> Vec<String> {
    cells.iter().map(|c| c.to_string()).collect()
}

fn table(name: &str, object_type: TableObjectType) -> TableMetadata {
    TableMetadata { name: name.to_string(), object_type }
}

#[test]
fn super_admins_see_any_cluster_and_others_their_own() {
    let admin = OrgContext { organization_id: Some(3), is_super_admin: true };
    let user = OrgContext { organization_id: Some(3), is_super_admin: false };
    let lost = OrgContext { organization_id: None, is_super_admin: false };
    assert_eq!(cluster_lookup(&admin), ClusterLookup::Any);
    assert_eq!(cluster_lookup(&user), ClusterLookup::OfOrganization(Some(3)));
    assert_eq!(cluster_lookup(&lost), ClusterLookup::OfOrganization(None));
}

#[test]
fn kill_names_the_query() {
    assert_eq!(kill_query("abc-1"), "KILL QUERY 'abc-1'");
}

#[test]
fn names_are_the_first_cells() {
    assert_eq!(row_name(&row(&[" a ", "b"])), Some("a".to_string()));
    assert_eq!(row_name(&row(&["  ", "b"])), None);
    assert_eq!(row_name(&row(&[])), None);
}

#[test]
fn catalogs_are_listed_in_order() {
    assert_eq!(show_catalogs_sql(), "SHOW CATALOGS");
    let rows = vec![row(&[" default_catalog", "Internal"]), row(&[]), row(&["\t"]), row(&["hive"])];
    assert_eq!(list_catalogs(&rows), vec!["default_catalog", "hive"]);
}

#[test]
fn system_databases_are_left_out() {
    let rows = vec![
        row(&["information_schema"]),
        row(&[" sales "]),
        row(&["_statistics_ "]),
        row(&["INFORMATION_SCHEMA"]),
        row(&[""]),
    ];
    assert_eq!(list_databases(&rows), vec!["sales", "INFORMATION_SCHEMA"]);
}

#[test]
fn databases_are_asked_of_the_named_catalog() {
    assert_eq!(show_databases_sql(None), "SHOW DATABASES");
    assert_eq!(show_databases_sql(Some("hive")), "SHOW DATABASES FROM hive");
    assert_eq!(show_databases_sql(Some("")), "SHOW DATABASES FROM ");
}

#[test]
fn every_catalog_is_listed() {
    let step = list_catalogs_with_databases();
    assert_eq!(step, CatalogsStep::ShowCatalogs { sql: "SHOW CATALOGS".to_string() });
    let rows = vec![row(&["a"]), row(&["b"]), row(&["c"])];
    let step = catalogs_answered::<String>(Ok(rows)).unwrap();
    let names = match step {
        CatalogsStep::OpenSession { names } => names,
        _ => panic!("no session"),
    };
    let mut step = catalogs_session_opened::<String>(names, Ok(())).unwrap();
    let mut sent = Vec::new();
    let mut answers = vec![
        Ok(vec![row(&["x"]), row(&["information_schema"])]),
        Err("down".to_string()),
        Ok(vec![row(&["y"])]),
    ];
    let response = loop {
        match step {
            CatalogsStep::ShowDatabases { sql, survey } => {
                sent.push(sql);
                step = databases_answered(survey, answers.remove(0));
            }
            CatalogsStep::Finished(response) => break response,
            _ => panic!("unexpected step"),
        }
    };
    assert_eq!(
        sent,
        vec!["SHOW DATABASES FROM a", "SHOW DATABASES FROM b", "SHOW DATABASES FROM c"]
    );
    let entry = |catalog: &str, databases: &[&str]| CatalogWithDatabases {
        catalog: catalog.to_string(),
        databases: row(databases),
    };
    assert_eq!(
        response,
        CatalogsWithDatabasesResponse {
            catalogs: vec![entry("a", &["x"]), entry("b", &[]), entry("c", &["y"])]
        }
    );
}

#[test]
fn failures_end_the_catalog_listing() {
    assert_eq!(catalogs_answered(Err("no catalogs")), Err("no catalogs"));
    assert_eq!(catalogs_session_opened(vec!["a".to_string()], Err("no session")), Err("no session"));
    let empty = catalogs_session_opened::<String>(Vec::new(), Ok(())).unwrap();
    assert_eq!(
        empty,
        CatalogsStep::Finished(CatalogsWithDatabasesResponse { catalogs: Vec::new() })
    );
}

#[test]
fn types_are_read_in_any_case() {
    assert_eq!(object_type_of(" materialized_view "), TableObjectType::MaterializedView);
    assert_eq!(object_type_of("View"), TableObjectType::View);
    assert_eq!(object_type_of("TABLE"), TableObjectType::Table);
    assert_eq!(type_with_upper_name("VIEW"), TableObjectType::View);
    assert_eq!(type_with_upper_name("view"), TableObjectType::Table);
    assert_eq!(object_type_of("views"), TableObjectType::Table);
    assert_eq!(object_type_of(""), TableObjectType::Table);
}

#[test]
fn tables_are_asked_of_the_named_catalog() {
    assert_eq!(show_tables_sql("db", None), "SHOW TABLES FROM db");
    assert_eq!(show_tables_sql("db", Some("default_catalog")), "SHOW TABLES FROM db");
    assert_eq!(show_tables_sql("db", Some("hive")), "SHOW TABLES FROM hive.db");
}

#[test]
fn no_database_lists_nothing() {
    assert_eq!(list_tables(None, None), TablesStep::Finished(Vec::new()));
    assert_eq!(
        list_tables(Some(" \n".to_string()), Some("hive".to_string())),
        TablesStep::Finished(Vec::new())
    );
}

#[test]
fn shown_tables_get_their_types() {
    let step = list_tables(Some(" db ".to_string()), Some("hive".to_string()));
    assert_eq!(
        step,
        TablesStep::OpenSession { database: "db".to_string(), catalog: Some("hive".to_string()) }
    );
    let step = tables_session_opened::<String>("db".to_string(), Some("hive".to_string()), Ok(()));
    assert_eq!(
        step,
        Ok(TablesStep::ShowTables {
            sql: "SHOW TABLES FROM hive.db".to_string(),
            database: "db".to_string()
        })
    );
    let shown = vec![row(&["v "]), row(&["t"]), row(&[" "]), row(&["m"]), row(&["u"])];
    let step = tables_shown::<String>("db".to_string(), Ok(shown));
    let tables = match step {
        TablesStep::FindTypes { sql, database, tables } => {
            assert_eq!(sql, OBJECT_TYPES_SQL);
            assert_eq!(database, "db");
            tables
        }
        _ => panic!("no look-up"),
    };
    assert_eq!(tables.len(), 4);
    assert!(tables.iter().all(|t| t.object_type == TableObjectType::Table));
    let types = vec![
        row(&["t", "VIEW"]),
        row(&[" v", " view "]),
        row(&["m", "Materialized_View"]),
        row(&["u"]),
        row(&["t", "TABLE"]),
        row(&["other", "VIEW"]),
    ];
    assert_eq!(
        types_found::<String>(tables, Ok(types)),
        TablesStep::Finished(vec![
            table("v", TableObjectType::View),
            table("t", TableObjectType::Table),
            table("m", TableObjectType::MaterializedView),
            table("u", TableObjectType::Table),
        ])
    );
}

#[test]
fn schema_is_asked_when_tables_cannot_be_shown() {
    let step = tables_shown("db".to_string(), Err("no such catalog"));
    assert_eq!(
        step,
        TablesStep::ListSchema {
            sql: SCHEMA_OBJECTS_SQL.to_string(),
            database: "db".to_string()
        }
    );
    let rows = vec![row(&["a", "view"]), row(&["b"]), row(&["", "VIEW"])];
    assert_eq!(
        schema_listed::<String>("db".to_string(), Ok(rows)),
        TablesStep::FindTypes {
            sql: OBJECT_TYPES_SQL.to_string(),
            database: "db".to_string(),
            tables: vec![table("a", TableObjectType::View), table("b", TableObjectType::Table)]
        }
    );
    assert_eq!(schema_listed("db".to_string(), Err("gone")), TablesStep::Finished(Vec::new()));
}

#[test]
fn failed_look_up_leaves_the_tables() {
    let tables = || vec![table("a", TableObjectType::View)];
    assert_eq!(types_found(tables(), Err("gone")), TablesStep::Finished(tables()));
    assert_eq!(
        tables_shown::<String>("db".to_string(), Ok(Vec::new())),
        TablesStep::Finished(Vec::new())
    );
    assert_eq!(
        tables_session_opened("db".to_string(), None, Err("no session")),
        Err("no session")
    );
}

#[test]
fn schema_statements_differ_in_their_order_only() {
    assert!(SCHEMA_OBJECTS_SQL.contains("ORDER BY t.TABLE_NAME"));
    assert!(!OBJECT_TYPES_SQL.contains("ORDER BY"));
    assert_eq!(
        SCHEMA_OBJECTS_SQL.replace("ORDER BY t.TABLE_NAME", "").trim(),
        OBJECT_TYPES_SQL.trim()
    );
    assert!(OBJECT_TYPES_SQL.trim().ends_with("WHERE t.TABLE_SCHEMA = ?"));
}
