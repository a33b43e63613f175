use query_handlers::limit::apply_query_limit;
use query_handlers::quote::Quote;
use query_handlers::statement::parse_sql_statements;

#[test]
fn statements_are_cut_at_semicolons() {
    assert_eq!(
        parse_sql_statements(" select 1 ; select 2;\n;; select 3"),
        vec!["select 1", "select 2", "select 3"]
    );
}

#[test]
fn quoted_semicolons_do_not_cut() {
    assert_eq!(parse_sql_statements("select 'a;b'"), vec!["select 'a;b'"]);
    assert_eq!(
        parse_sql_statements("select \"a;'b\"; select 'c\";d'"),
        vec!["select \"a;'b\"", "select 'c\";d'"]
    );
    assert_eq!(parse_sql_statements("select 'a; b; c"), vec!["select 'a; b; c"]);
}

#[test]
fn literals_are_never_cut() {
    assert_eq!(
        parse_sql_statements("a; b ';\";' c; d"),
        vec!["a", "b ';\";' c", "d"]
    );
    assert_eq!(parse_sql_statements("a; b 'x' c; d").len(), 3);
}

#[test]
fn blank_text_has_no_statement() {
    assert!(parse_sql_statements("").is_empty());
    assert_eq!(parse_sql_statements(";; . ;"), vec!["."]);
    assert_eq!(parse_sql_statements("a;'b \n\u{a0}"), parse_sql_statements("a;'b"));
    assert!(parse_sql_statements(" ;\t;\u{3000}; ").is_empty());
}

#[test]
fn separator_separates() {
    let left = "a; 'b;'";
    let right = "c;d";
    let mut both = parse_sql_statements(left);
    both.extend(parse_sql_statements(right));
    assert_eq!(parse_sql_statements(&format!("{};{}", left, right)), both);
}

#[test]
fn joined_statements_come_back() {
    let found = parse_sql_statements(" a ;; 'x;y' ; \"z\";  'open;");
    assert_eq!(found, vec!["a", "'x;y'", "\"z\"", "'open;"]);
    assert_eq!(parse_sql_statements(&found.join(";")), found);
    assert_eq!(parse_sql_statements(&found.join("; \n")), found);
    assert_eq!(parse_sql_statements(&format!("\t{}", found.join(";"))), found);
    assert_eq!(parse_sql_statements("a;'b';"), parse_sql_statements("a;'b'"));
    for one in &found {
        assert_eq!(parse_sql_statements(one), vec![one.clone()]);
        let sent = apply_query_limit(one, 5);
        assert_eq!(parse_sql_statements(&sent), vec![sent.clone()]);
    }
}

#[test]
fn quotes_end_with_the_quote_they_began_with() {
    assert_eq!(Quote::Outside.advance('\''), Quote::Single);
    assert_eq!(Quote::Outside.advance('"'), Quote::Double);
    assert_eq!(Quote::Single.advance('"'), Quote::Single);
    assert_eq!(Quote::Double.advance('\''), Quote::Double);
    assert_eq!(Quote::Single.advance('\''), Quote::Outside);
    assert_eq!(Quote::Double.advance('"'), Quote::Outside);
    assert_eq!(Quote::Outside.advance(';'), Quote::Outside);
}
