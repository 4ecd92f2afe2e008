use potatodb::sql_helpers::{
    choose_timestamp, is_read_only_sql, normalize_explain_sql, parse_as_of_timestamp,
    strip_as_of_timestamp, try_normalize_explain_sql, try_parse_as_of_timestamp,
    try_strip_as_of_timestamp,
};

#[test]
fn normalize_explain_rewrites_option_list() {
    let sql = "EXPLAIN (FORMAT JSON, ANALYZE) SELECT * FROM t";
    assert_eq!(
        normalize_explain_sql(sql),
        "EXPLAIN ANALYZE SELECT * FROM t"
    );
}

#[test]
fn normalize_explain_without_analyze_drops_options() {
    let sql = "EXPLAIN (FORMAT JSON) SELECT * FROM t";
    assert_eq!(normalize_explain_sql(sql), "EXPLAIN SELECT * FROM t");
}

#[test]
fn readonly_sql_detection_is_strict() {
    assert!(is_read_only_sql("select 1"));
    assert!(is_read_only_sql("WITH x AS (SELECT 1) SELECT * FROM x"));
    assert!(!is_read_only_sql("INSERT INTO t VALUES (1)"));
}

#[test]
fn strip_as_of_timestamp_removes_clause() {
    let sql = "SELECT * FROM events AS OF TIMESTAMP '2026-03-19T10:11:12Z';";
    assert_eq!(strip_as_of_timestamp(sql), "SELECT * FROM events;");
}

#[test]
fn parse_as_of_timestamp_supports_numeric() {
    let sql = "SELECT * FROM events AS OF TIMESTAMP 1710840300000;";
    assert_eq!(parse_as_of_timestamp(sql), Some(1_710_840_300_000));
}

#[test]
fn parse_as_of_timestamp_supports_rfc3339() {
    let sql = "SELECT * FROM events AS OF TIMESTAMP '2026-03-19T10:11:12Z';";
    assert!(parse_as_of_timestamp(sql).is_some());
}

#[test]
fn rfc3339_and_plain_times_have_exact_values() {
    assert_eq!(
        parse_as_of_timestamp("SELECT 1 AS OF TIMESTAMP '2026-03-19T10:11:12Z'"),
        Some(1_773_915_072_000)
    );
    assert_eq!(
        parse_as_of_timestamp("SELECT 1 AS OF TIMESTAMP '2026-03-19T11:11:12+01:00'"),
        Some(1_773_915_072_000)
    );
    assert_eq!(parse_as_of_timestamp("SELECT 1 AS OF TIMESTAMP nonsense"), None);
    assert_eq!(parse_as_of_timestamp("SELECT 1"), None);
}

#[test]
fn chosen_time_prefers_rfc3339() {
    assert_eq!(choose_timestamp("17", Some(1), Some(2)), Some(1));
    assert_eq!(choose_timestamp("17", None, Some(2)), Some(2));
    assert_eq!(choose_timestamp("17", None, None), Some(17));
    assert_eq!(choose_timestamp("x", None, None), None);
}

#[test]
fn statements_without_clause_stay() {
    assert_eq!(strip_as_of_timestamp("SELECT * FROM t"), "SELECT * FROM t");
    assert_eq!(normalize_explain_sql("EXPLAIN SELECT 1"), "EXPLAIN SELECT 1");
    assert_eq!(normalize_explain_sql("SELECT 1"), "SELECT 1");
    assert!(!is_read_only_sql(""));
}

#[test]
fn statements_that_grow_in_upper_case_are_tried_with_care() {
    assert_eq!(
        try_strip_as_of_timestamp("SELECT 1 AS OF TIMESTAMP 5").as_deref(),
        Some("SELECT 1")
    );
    assert_eq!(
        try_normalize_explain_sql("EXPLAIN (ANALYZE) SELECT 1").as_deref(),
        Some("EXPLAIN ANALYZE SELECT 1")
    );
    assert_eq!(
        try_parse_as_of_timestamp("SELECT 1 AS OF TIMESTAMP 5"),
        Some(Some(5))
    );
}

#[test]
fn normalized_explain_is_left_as_it_is() {
    for sql in [
        " EXPLAIN (FORMAT JSON) SELECT 1 ",
        "explain (analyze, verbose) SELECT 1",
        "EXPLAIN (ANALYZE) (SELECT 1)",
        "EXPLAIN (ANALYZE)",
        "SELECT 1",
    ] {
        let once = normalize_explain_sql(sql);
        assert_eq!(once, once.trim());
        assert_eq!(normalize_explain_sql(&once), once);
    }
    // What follows the list looks like another list here.
    assert_eq!(
        normalize_explain_sql("EXPLAIN (VERBOSE) (ANALYZE) SELECT 1"),
        "EXPLAIN (ANALYZE) SELECT 1"
    );
}

#[test]
fn reading_is_told_by_the_first_word_alone() {
    for word in ["SELECT", "with", "Show", "dEsCrIbE", "explain"] {
        assert!(is_read_only_sql(word));
        assert!(is_read_only_sql(&format!(" \t\n{word} INTO x; DROP TABLE y")));
    }
    // The long s is an S in upper case.
    assert!(is_read_only_sql("\u{17f}elect 1") && is_read_only_sql("\u{17f}ELECT 1"));
    for word in ["INSERT", "values", "SELECTED"] {
        assert!(!is_read_only_sql(&format!("\n {word} SELECT")));
    }
}
