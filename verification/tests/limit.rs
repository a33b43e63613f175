use query_handlers::limit::{
    apply_query_limit, bound_statement, contains_union_keyword, takes_query_limit,
};

#[test]
fn test_apply_query_limit_simple_select() {
    let sql = "SELECT * FROM table";
    let result = apply_query_limit(sql, 100);
    assert_eq!(result, "SELECT * FROM table LIMIT 100");
}

#[test]
fn test_apply_query_limit_already_has_limit() {
    let sql = "SELECT * FROM table LIMIT 50";
    let result = apply_query_limit(sql, 100);
    assert_eq!(result, "SELECT * FROM table LIMIT 50");
}

#[test]
fn test_apply_query_limit_union_all() {
    let sql = "SELECT * FROM table1 UNION ALL SELECT * FROM table2";
    let result = apply_query_limit(sql, 100);
    assert_eq!(result, "SELECT * FROM table1 UNION ALL SELECT * FROM table2");
}

#[test]
fn test_apply_query_limit_union() {
    let sql = "SELECT * FROM table1 UNION SELECT * FROM table2";
    let result = apply_query_limit(sql, 100);
    assert_eq!(result, "SELECT * FROM table1 UNION SELECT * FROM table2");
}

#[test]
fn test_apply_query_limit_union_lowercase() {
    let sql = "select * from table1 union all select * from table2";
    let result = apply_query_limit(sql, 100);
    assert_eq!(result, "select * from table1 union all select * from table2");
}

#[test]
fn test_apply_query_limit_explain_command() {
    let sql = "EXPLAIN SELECT * FROM table";
    let result = apply_query_limit(sql, 100);
    assert_eq!(result, "EXPLAIN SELECT * FROM table");
}

#[test]
fn test_apply_query_limit_with_explain_in_string() {
    let sql = "SELECT * FROM table WHERE col CONTAINS 'EXPLAIN'";
    let result = apply_query_limit(sql, 100);
    assert_eq!(result, "SELECT * FROM table WHERE col CONTAINS 'EXPLAIN' LIMIT 100");
}

#[test]
fn test_apply_query_limit_with_semicolon() {
    let sql = "SELECT * FROM table;";
    let result = apply_query_limit(sql, 100);
    assert_eq!(result, "SELECT * FROM table LIMIT 100");
}

#[test]
fn test_apply_query_limit_non_select() {
    let sql = "INSERT INTO table VALUES (1, 2, 3)";
    let result = apply_query_limit(sql, 100);
    assert_eq!(result, "INSERT INTO table VALUES (1, 2, 3)");
}

#[test]
fn test_apply_query_limit_union_in_string_literal() {
    let sql = "SELECT 'UNION' FROM table";
    let result = apply_query_limit(sql, 100);
    assert_eq!(result, "SELECT 'UNION' FROM table LIMIT 100");
}

#[test]
fn test_apply_query_limit_union_column_name() {
    let sql = "SELECT union_column FROM table";
    let result = apply_query_limit(sql, 100);
    assert_eq!(result, "SELECT union_column FROM table LIMIT 100");
}

#[test]
fn test_apply_query_limit_complex_union() {
    let sql = r#"
            SELECT * FROM table1 WHERE col = 'test'
            UNION ALL
            SELECT * FROM table2 WHERE col = 'test'
        "#;
    let result = apply_query_limit(sql, 100);
    assert!(result.contains("UNION ALL"));
    assert!(!result.contains("LIMIT"));
}

#[test]
fn limit_replaces_every_trailing_semicolon_only() {
    assert_eq!(apply_query_limit("select 1;;;", 7), "select 1 LIMIT 7");
    assert_eq!(apply_query_limit("select 1 ; ", 7), "select 1  LIMIT 7");
    assert_eq!(apply_query_limit("  show tables; ", 7), "show tables;");
}

#[test]
fn limit_of_profile_requests_is_left_out() {
    assert_eq!(
        apply_query_limit("select get_query_profile('a')", 1),
        "select get_query_profile('a')"
    );
    assert_eq!(apply_query_limit("SELECT show_profile()", 1), "SELECT show_profile()");
}

#[test]
fn limit_in_any_case_or_name_counts() {
    assert_eq!(apply_query_limit("select 1 limit 3", 9), "select 1 limit 3");
    assert_eq!(apply_query_limit("select speed_limit from t", 9), "select speed_limit from t");
}

#[test]
fn limit_is_applied_once() {
    for sql in ["select 1;", " insert ", "", "SELECT a UNION SELECT b", "select \u{df}"] {
        let once = apply_query_limit(sql, 10);
        assert_eq!(apply_query_limit(&once, 20), once);
    }
}

#[test]
fn limit_numbers_are_decimal() {
    assert_eq!(apply_query_limit("select 1", 0), "select 1 LIMIT 0");
    assert_eq!(apply_query_limit("select 1", -25), "select 1 LIMIT -25");
    assert_eq!(apply_query_limit("select 1", i32::MAX), "select 1 LIMIT 2147483647");
    assert_eq!(apply_query_limit("select 1", i32::MIN), "select 1 LIMIT -2147483648");
}

#[test]
fn limit_decision_follows_the_upper_case_form() {
    // U+017F is the long s, whose capital is an ordinary S.
    assert_eq!(apply_query_limit("\u{17f}elect 1", 4), "\u{17f}elect 1 LIMIT 4");
    assert_eq!(bound_statement("x;;", "SELECT", 8), "x LIMIT 8");
    assert_eq!(bound_statement("select 1;", "SHOW", 8), "select 1;");
    assert!(takes_query_limit("SELECT 1"));
    assert!(!takes_query_limit("select 1"));
    assert!(!takes_query_limit("SELECT 1 LIMIT 2"));
}

#[test]
fn limit_keeps_white_space_inside() {
    assert_eq!(
        apply_query_limit("\u{3000}select\n1\u{a0}", 2),
        "select\n1 LIMIT 2"
    );
}

#[test]
fn union_is_a_word_outside_literals() {
    assert!(contains_union_keyword("UNION"));
    assert!(contains_union_keyword("A\tUNION\nB"));
    assert!(contains_union_keyword("'x'UNION\"y\""));
    assert!(!contains_union_keyword("A (UNION) B"));
    assert!(!contains_union_keyword("UNIONS"));
    assert!(!contains_union_keyword("UNI'x'ON"));
    assert!(!contains_union_keyword("' UNION "));
    assert!(!contains_union_keyword("\"it's\" 'a \" UNION \" b'"));
    assert!(contains_union_keyword("\"it's\" UNION 'b'"));
    assert!(!contains_union_keyword("union"));
    assert!(!contains_union_keyword(""));
}

#[test]
fn union_matches_the_words_of_the_unquoted_text() {
    for sql in ["A UNION", "UNION\u{2003}A", "A UNION_B UNION", "AUNION UNIONA"] {
        assert_eq!(
            contains_union_keyword(sql),
            sql.split_whitespace().any(|word| word == "UNION")
        );
    }
}

#[test]
fn case_does_not_matter() {
    for sql in ["select 1", "Select A Union Select B", "explain select 1"] {
        let lower = apply_query_limit(&sql.to_lowercase(), 3);
        let upper = apply_query_limit(&sql.to_uppercase(), 3);
        assert_eq!(lower.ends_with(" LIMIT 3"), upper.ends_with(" LIMIT 3"));
    }
}

#[test]
fn literal_content_does_not_matter() {
    assert_eq!(
        contains_union_keyword("A 'X UNION Y' B"),
        contains_union_keyword("A 'X ABCDE Y' B")
    );
    assert_eq!(
        contains_union_keyword("A 'UNION' UNION B"),
        contains_union_keyword("A 'OTHER' UNION B")
    );
    assert!(contains_union_keyword("UNION'x'"));
    assert!(contains_union_keyword("UNION'a longer \" text UNION'"));
    assert!(!contains_union_keyword("A 'UNION \" B"));
    assert!(!contains_union_keyword("A '"));
}

#[test]
fn padding_does_not_matter() {
    for sql in ["select 1", "show tables", ""] {
        assert_eq!(
            apply_query_limit(&format!(" \n{}\t\u{3000}", sql), 6),
            apply_query_limit(sql, 6)
        );
    }
}

#[test]
fn final_semicolon_makes_no_difference() {
    assert_eq!(apply_query_limit("select 1;", 6), apply_query_limit("select 1", 6));
}
