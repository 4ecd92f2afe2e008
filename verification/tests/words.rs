//! Statements that are read by their words: scripts, clauses, functions, blocks and commands.
use potatodb::buffers::{columns_to_check, same_columns, BufferedInsert, WriteBuffers};
use potatodb::catalog::Catalog;
use potatodb::catalog_types::UdfDef;
use potatodb::cells::{Cell, Row};
use potatodb::clauses::{
    expr_to_i64, extract_returning_clause, first_quoted_text, is_plpgsql_identifier_char,
    parse_alter_table_rename, parse_retention_setting, replace_words, seconds_in, seconds_of,
    substitute_plpgsql_var, unit_of,
};
use potatodb::commands::{
    bare_statement, parse_call, parse_cdc_filter, parse_create_procedure, parse_create_trigger,
    parse_drop_trigger, parse_listen, parse_notify, parse_replica, split_once_char,
    split_once_space,
};
use potatodb::dispatch::{
    catalog_after, checkpoint_after, classify, flush_first, guarded, parse_flush, parse_refresh,
    parse_savepoint, parse_truncate, parse_unparsed, CommandKind, Unparsed,
};
use potatodb::do_block::{parse_do_block, read_variables, split_block};
use potatodb::fulltext::{
    build_index, fulltext_message, fulltext_select, parse_create_fulltext_index,
    rewrite_fulltext_match_sql, tokenize, InvertedIndex,
};
use potatodb::functions::{
    expand_single_udf_call, expand_user_defined_functions, find_ci, parse_create_function,
    parse_drop_function, trim_statement,
};
use potatodb::scan::{
    extract_dollar_quoted_body, find_matching_paren, split_sql_statements, split_top_level_csv,
    substitute_parameters,
};
use std::time::Duration;

fn names(list: &[&str]) -> Vec<String> {
    list.iter().map(|s| s.to_string()).collect()
}

fn udf(name: &str, args: &[&str], body: &str) -> UdfDef {
    UdfDef {
        name: name.to_string(),
        args: names(args),
        return_type: "INT".to_string(),
        body: body.to_string(),
    }
}

#[test]
fn scripts_are_split() {
    assert_eq!(split_sql_statements("SELECT 1; SELECT 2;"), names(&["SELECT 1;", "SELECT 2;"]));
    assert_eq!(split_sql_statements("SELECT ';' ; SELECT 2"), names(&["SELECT ';';", "SELECT 2"]));
    assert_eq!(split_sql_statements("SELECT 'it''s;'"), names(&["SELECT 'it''s;'"]));
    assert_eq!(split_sql_statements("-- a; b\nSELECT 1"), names(&["SELECT 1"]));
    assert_eq!(split_sql_statements("/* a; /* b */ ; */ SELECT 1;"), names(&["SELECT 1;"]));
    assert!(split_sql_statements(" ;; \n ;").is_empty());
    assert_eq!(split_sql_statements("  SELECT 1  "), names(&["SELECT 1"]));
    assert_eq!(split_sql_statements("';'"), names(&["';'"]));
}

#[test]
fn lists_are_split_at_the_top() {
    assert_eq!(split_top_level_csv("a, f(b, c), 'd,e'"), names(&["a", "f(b, c)", "'d,e'"]));
    assert!(split_top_level_csv("").is_empty());
    assert_eq!(find_matching_paren("(a(b)c)d", 0), Some(6));
    assert_eq!(find_matching_paren("(a", 0), None);
    assert_eq!(find_matching_paren("(')')", 0), Some(4));
}

#[test]
fn parameters_are_put_in() {
    let ps: Vec<String> = (1..=10).map(|i| format!("<{i}>")).collect();
    assert_eq!(substitute_parameters("$1 $10 $11 $x", &ps), "<1> <10> $11 $x");
    assert_eq!(substitute_parameters("$1", &vec![]), "$1");
    assert_eq!(substitute_parameters("'Zürich', '日本' – $1$", &ps), "'Zürich', '日本' – <1>$");
    assert_eq!(substitute_parameters("é", &ps), "é");
    assert_eq!(extract_dollar_quoted_body("DO $$ x $$"), Some(" x ".to_string()));
    assert_eq!(extract_dollar_quoted_body("DO $$ x"), None);
}

#[test]
fn returning_clauses() {
    assert_eq!(
        extract_returning_clause("DELETE FROM t RETURNING id, v;"),
        Some(Some("id, v".to_string()))
    );
    assert_eq!(extract_returning_clause("DELETE FROM t"), Some(None));
}

#[test]
fn renames_and_retention() {
    assert_eq!(
        parse_alter_table_rename("ALTER TABLE a RENAME TO b"),
        Some(("a".to_string(), "b".to_string()))
    );
    assert_eq!(parse_alter_table_rename("ALTER TABLE a ADD COLUMN b INT"), None);
    assert_eq!(seconds_in("hour"), 3600);
    assert_eq!(seconds_in("day"), 86400);
    assert_eq!(seconds_of("2", "day"), Some(172800));
    assert_eq!(first_quoted_text("x 'a b' y"), Some("a b".to_string()));
    assert_eq!(unit_of("7 days"), "days");
    assert_eq!(parse_retention_setting("ALTER TABLE t ADD COLUMN x INT"), None);
}

#[test]
fn integers_are_read() {
    assert_eq!(expr_to_i64("42").unwrap(), 42);
    assert_eq!(expr_to_i64("-7").unwrap(), -7);
    assert_eq!(expr_to_i64("x").unwrap_err(), "Expected integer expression, got 'x'");
}

#[test]
fn variables_are_put_in_as_words() {
    assert!(is_plpgsql_identifier_char('_') && !is_plpgsql_identifier_char(' '));
    assert_eq!(
        substitute_plpgsql_var("SELECT x, xx, x1 FROM t WHERE y = x", "x", "5"),
        "SELECT 5, xx, x1 FROM t WHERE y = 5"
    );
    assert_eq!(substitute_plpgsql_var("x", "", "5"), "x");
    assert_eq!(substitute_plpgsql_var("SELECT N, n", "n", "$1"), "SELECT $1, $1");
}

#[test]
fn other_characters_stay_beside_variables() {
    assert_eq!(
        substitute_plpgsql_var("INSERT INTO t VALUES ('Zürich – ñ', n)", "n", "7"),
        "INSERT INTO t VALUES ('Zürich – ñ', 7)"
    );
    assert_eq!(substitute_plpgsql_var("'é' = É", "é", "1"), "'1' = 1");
    assert_eq!(substitute_plpgsql_var("'日本'", "n", "7"), "'日本'");
    assert_eq!(replace_words("a–a", &vec![true, false, true], 1, "b"), "b–b");
    assert_eq!(replace_words("aa", &vec![true, true], 1, "b"), "aa");
    let out = parse_do_block("DO $$ DECLARE n INT := 5; BEGIN INSERT INTO t VALUES ('ß', n); END $$");
    assert_eq!(out.unwrap().unwrap(), names(&["INSERT INTO t VALUES ('ß', 5);"]));
}

#[test]
fn functions_are_read_and_expanded() {
    let f = parse_create_function("CREATE FUNCTION inc(x INT) RETURNS INT AS 'x + 1'")
        .unwrap()
        .ok()
        .unwrap();
    assert_eq!((f.name.as_str(), f.return_type.as_str()), ("inc", "INT"));
    assert_eq!(f.args, names(&["x"]));
    assert_eq!(f.body, "x + 1");
    let once = expand_single_udf_call("SELECT inc(3)", &udf("inc", &["x"], "$1 + 1")).unwrap().unwrap();
    assert_eq!(once, "SELECT (3 + 1)");
    assert_eq!(find_ci("SELECT Foo(", "foo("), Some(7));
    assert_eq!(trim_statement(" SELECT 1 ; "), "SELECT 1");
    let complaint = |sql: &str| parse_create_function(sql).unwrap().err().unwrap();
    assert_eq!(complaint("CREATE FUNCTION f"), "CREATE FUNCTION requires an argument list");
    assert_eq!(complaint("CREATE FUNCTION f(x INT"), "Unclosed function argument list");
    assert_eq!(complaint("CREATE FUNCTION f(x INT) AS 'x'"), "CREATE FUNCTION requires RETURNS");
}

#[test]
fn longer_function_names_go_first() {
    let defs = vec![udf("f", &["a"], "$1 * 2"), udf("ff", &["a"], "$1 * 3")];
    let out = expand_user_defined_functions("SELECT ff(1), f(2)", &defs).unwrap().unwrap();
    assert_eq!(out, "SELECT (1 * 3), (2 * 2)");
}

#[test]
fn functions_are_dropped() {
    assert_eq!(parse_drop_function("DROP FUNCTION f").unwrap(), (false, "f".to_string()));
    assert_eq!(parse_drop_function("DROP FUNCTION IF EXISTS f").unwrap(), (true, "f".to_string()));
    assert!(parse_drop_function("DROP FUNCTION").is_err());
    let mut c = Catalog::new();
    c.handle_create_function("CREATE FUNCTION inc(x INT) RETURNS INT AS 'x + 1'").unwrap().unwrap();
    assert_eq!(c.function_names(), names(&["inc"]));
    assert_eq!(c.handle_drop_function("DROP FUNCTION inc").unwrap(), "Function 'inc' dropped.");
    assert_eq!(
        c.handle_drop_function("DROP FUNCTION inc").unwrap_err(),
        "Function 'inc' does not exist"
    );
    assert_eq!(
        c.handle_drop_function("DROP FUNCTION IF EXISTS inc").unwrap(),
        "Function 'inc' does not exist, skipping."
    );
}

#[test]
fn blocks_are_resolved() {
    let out = parse_do_block("DO $$ DECLARE n INT := 5; BEGIN INSERT INTO t VALUES (n); END $$")
        .unwrap()
        .unwrap();
    assert_eq!(out, names(&["INSERT INTO t VALUES (5);"]));
    assert_eq!(parse_do_block("DO nothing").unwrap().unwrap_err(), "DO requires $$...$$ body");
    let (_, exec) = split_block("BEGIN SELECT 1; END").unwrap();
    assert!(exec.contains("SELECT 1"));
    let vars = read_variables("DECLARE a INT := 1; b INT := 2;").unwrap();
    assert_eq!(vars.len(), 2);
}

#[test]
fn channels_and_procedures_are_read() {
    assert_eq!(parse_listen("LISTEN news;").unwrap(), "news");
    assert_eq!(parse_listen("LISTEN").unwrap_err(), "LISTEN requires channel name");
    assert_eq!(
        parse_notify("NOTIFY news, 'hello'").unwrap(),
        ("news".to_string(), "hello".to_string())
    );
    let (name, body) =
        parse_create_procedure("CREATE PROCEDURE p AS $$ SELECT 1; $$").unwrap().unwrap();
    assert_eq!(name, "p");
    assert!(body.contains("SELECT 1"));
    assert_eq!(
        parse_create_procedure("CREATE PROCEDURE p").unwrap().unwrap_err(),
        "CREATE PROCEDURE requires a name"
    );
    assert_eq!(
        parse_create_procedure("CREATE PROCEDURE p AS x").unwrap().unwrap_err(),
        "CREATE PROCEDURE requires $$...$$"
    );
    assert_eq!(parse_call("CALL p()").unwrap(), "p");
    assert_eq!(split_once_space("a b c"), Some(("a".to_string(), "b c".to_string())));
    assert_eq!(split_once_char("a,b", ','), Some(("a".to_string(), "b".to_string())));
    assert_eq!(bare_statement(" X; "), "X");
}

#[test]
fn triggers_are_read() {
    let t = parse_create_trigger("CREATE TRIGGER g AFTER INSERT ON t EXECUTE $$ SELECT 1 $$")
        .unwrap()
        .ok()
        .unwrap();
    assert_eq!((t.name.as_str(), t.table.as_str()), ("g", "t"));
    assert_eq!((t.timing.as_str(), t.event.as_str()), ("AFTER", "INSERT"));
    let complaint = |sql: &str| parse_create_trigger(sql).unwrap().err().unwrap();
    assert_eq!(
        complaint("CREATE TRIGGER g DURING INSERT ON t EXECUTE $$ x $$"),
        "CREATE TRIGGER requires BEFORE or AFTER"
    );
    assert_eq!(
        complaint("CREATE TRIGGER g AFTER SELECT ON t EXECUTE $$ x $$"),
        "CREATE TRIGGER requires INSERT, UPDATE, or DELETE"
    );
    assert_eq!(parse_drop_trigger("DROP TRIGGER g").unwrap().unwrap(), "g");
    let mut c = Catalog::new();
    c.handle_create_trigger("CREATE TRIGGER g AFTER INSERT ON t EXECUTE $$ SELECT 1 $$")
        .unwrap()
        .unwrap();
    assert_eq!(c.trigger_bodies("t", "INSERT", "AFTER").len(), 1);
    assert!(c.trigger_bodies("t", "DELETE", "AFTER").is_empty());
    c.handle_drop_trigger("DROP TRIGGER g").unwrap().unwrap();
    assert!(c.trigger_bodies("t", "INSERT", "AFTER").is_empty());
}

#[test]
fn replicas_and_changes_are_read() {
    assert_eq!(parse_replica("ADD REPLICA 's3://x'", "ADD REPLICA "), Some("s3://x".to_string()));
    assert_eq!(
        parse_cdc_filter("SELECT * FROM potatodb_cdc WHERE table = 'orders'").flatten(),
        Some("orders".to_string())
    );
    assert_eq!(parse_cdc_filter("SELECT * FROM potatodb_cdc"), Some(None));
}

#[test]
fn commands_are_told_apart() {
    assert!(classify("FLUSH") == CommandKind::Flush);
    assert!(classify("SELECT * FROM POTATODB_CDC") == CommandKind::SelectCdc);
    assert!(classify("SELECT * FROM PG_TYPE") == CommandKind::PgCatalog);
    assert!(classify("CREATE USER A") == CommandKind::CreateUser);
    assert!(classify("ROLLBACK TO S") == CommandKind::RollbackTo);
    assert!(classify("TRUNCATE T") == CommandKind::Truncate);
    assert!(classify("CHECKPOINT") == CommandKind::Checkpoint);
    assert!(classify("SELECT 1") == CommandKind::Statement);
    assert!(guarded(CommandKind::Truncate) && !guarded(CommandKind::Flush));
    assert!(guarded(CommandKind::Statement));
    assert!(!flush_first("INSERT INTO T VALUES (1)"));
    assert!(flush_first("SELECT * FROM T"));
    assert!(!checkpoint_after(CommandKind::Flush) || catalog_after(CommandKind::Flush));
}

#[test]
fn small_commands_are_read() {
    assert_eq!(parse_flush("FLUSH").unwrap(), None);
    assert_eq!(parse_flush("FLUSH t").unwrap(), Some("t".to_string()));
    assert_eq!(parse_flush("FLUSH TABLE t").unwrap(), Some("t".to_string()));
    assert_eq!(parse_flush("FLUSH TABLE").unwrap_err(), "FLUSH TABLE requires a table name");
    assert_eq!(parse_truncate("TRUNCATE TABLE t").unwrap(), "t");
    assert_eq!(parse_refresh("REFRESH MATERIALIZED VIEW v").unwrap(), "v");
    assert_eq!(
        parse_savepoint(CommandKind::Savepoint, "SAVEPOINT s", "SAVEPOINT S"),
        Some("s".to_string())
    );
    assert!(matches!(
        parse_unparsed("VACUUM ANALYZE t", "VACUUM ANALYZE T"),
        Ok(Unparsed::Vacuum { analyze: true, .. })
    ));
    assert!(matches!(parse_unparsed("SHOW x", "SHOW X"), Ok(Unparsed::Query)));
}

#[test]
fn words_are_indexed() {
    assert_eq!(tokenize("Hello, World! x1"), names(&["hello", "world", "x1"]));
    let mut index = InvertedIndex::new();
    index.add_document("t", 3, "the quick fox");
    index.add_document("t", 5, "the slow fox");
    let rows: Vec<usize> = index.search("fox").iter().map(|p| p.row_idx).collect();
    assert_eq!(rows, vec![3, 5]);
    assert_eq!(index.search("QUICK fox").len(), 1);
    assert!(index.search("cat").is_empty());
    let built = build_index("t", &vec![Row { cells: vec![Cell::Text("red cat".to_string())] }]);
    assert_eq!(built.search("cat")[0].row_idx, 0);
}

#[test]
fn fulltext_indexes_are_read() {
    let (name, def) = parse_create_fulltext_index("CREATE FULLTEXT INDEX fi ON docs (title, body)")
        .unwrap()
        .ok()
        .unwrap();
    assert_eq!((name.as_str(), def.table_name.as_str()), ("fi", "docs"));
    assert_eq!(def.columns, names(&["title", "body"]));
    assert_eq!(fulltext_select(&def), "SELECT \"title\", \"body\" FROM \"docs\"");
    assert!(fulltext_message("fi", "docs").starts_with("Fulltext index 'fi' created on 'docs'"));
    let out =
        rewrite_fulltext_match_sql("SELECT * FROM docs WHERE fts_match('cat')", &vec![def]).unwrap();
    assert!(out.contains("ILIKE '%cat%'"));
    assert_eq!(
        rewrite_fulltext_match_sql("SELECT 1", &vec![]),
        Some("SELECT 1".to_string())
    );
}

#[test]
fn inserts_are_buffered() {
    let hour = Duration::from_secs(3600);
    let mut b = WriteBuffers::new(3, 1_000_000, hour);
    assert!(b.is_empty());
    assert!(!b.buffer_insert_batches("t", None, 2, 10, Duration::from_secs(0)));
    assert!(!b.is_empty());
    assert!(b.must_flush_first("t", &Some(names(&["a"]))));
    assert!(!b.must_flush_first("t", &None));
    assert_eq!(b.flush_buffered_for_sql("SELECT * FROM T"), names(&["t"]));
    assert!(b.buffer_insert_batches("t", None, 1, 10, Duration::from_secs(0)));
    let out = b.flush_table("t").unwrap();
    assert_eq!((out.row_count, out.approx_bytes), (3, 20));
    assert!(b.is_empty());
    assert!(b.flush_table("t").is_none());
    assert!(same_columns(&None, &None));
    assert!(!same_columns(&Some(names(&["a"])), &Some(names(&["b"]))));
    let kept = BufferedInsert { columns: Some(names(&["a"])), row_count: 1, approx_bytes: 1 };
    assert_eq!(columns_to_check(&kept, None), names(&["a"]));
}

#[test]
fn mentioned_buffers_are_flushed_or_else_all() {
    let mut b = WriteBuffers::new(1000, 1_000_000, Duration::from_secs(3600));
    b.buffer_insert_batches("orders", None, 1, 1, Duration::from_secs(0));
    b.buffer_insert_batches("users", None, 1, 1, Duration::from_secs(0));
    assert_eq!(b.flush_buffered_for_sql("SELECT * FROM USERS"), names(&["users"]));
    assert_eq!(b.flush_buffered_for_sql("SELECT 1").len(), 2);
}

#[test]
fn old_buffers_are_flushed() {
    let mut b = WriteBuffers::new(1000, 1_000_000, Duration::from_millis(5));
    assert!(!b.buffer_insert_batches("t", None, 1, 1, Duration::from_millis(0)));
    assert!(b.buffer_insert_batches("t", None, 1, 1, Duration::from_millis(6)));
}

#[test]
fn semicolons_part_scripts() {
    let (a, b) = ("SELECT 1; ; SELECT 2", " SELECT ';' -- c;\n; /* ; */ SELECT 3 ");
    let mut parts = split_sql_statements(&format!("{a};"));
    parts.extend(split_sql_statements(b));
    assert_eq!(split_sql_statements(&format!("{a};{b}")), parts);
    assert_eq!(parts, names(&["SELECT 1;", "SELECT 2;", "SELECT ';';", "SELECT 3"]));
    for p in &parts[..3] {
        assert!(p.ends_with(';') && p.trim() == p && p != ";");
    }
}
