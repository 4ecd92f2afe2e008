//! Statements that read and write rows: plans, constraints and answers.
use potatodb::catalog::Catalog;
use potatodb::catalog_types::DeletionEntry;
use potatodb::cells::{searched_text, sql_literal, Cell, Row};
use potatodb::constraints::{
    check_rows_sql, holds_null, judge, judge_check, scalar_count, write_condition, BatchNulls,
    Incoming, NamedNulls, Step,
};
use potatodb::dml::{
    count_references, delete_message, list_keys, parse_delete, parse_update, select_key_values, update_message,
    KeyAction,
};
use potatodb::insert::{
    choose_columns, copy_from_message, copy_rows, copy_to_message, document_text, file_extension, file_format,
    first_new_row, insert_message, parse_insert, plan_copy_from, write_rows, write_rows_at_once,
    FileFormat,
};
use potatodb::merge::{answer_without_rows, merge_message, parse_merge, MergeStep, MergeTotals};
use potatodb::outcome::Check;
use potatodb::tables::parse_create_table;
use potatodb::upsert::{
    find_conflicts, parse_conflict, plan_writes, read_upsert_rows, resolve_conflict_columns,
    select_conflicts,
};

fn catalog(statements: &[&str]) -> Catalog {
    let mut c = Catalog::new();
    for sql in statements {
        let t = parse_create_table(sql).unwrap();
        let path = format!("/data/{}", t.name);
        assert!(matches!(c.check_create_table(&t), Ok(Check::Go(_))));
        c.handle_create_table(t, &path).unwrap();
    }
    c
}

fn text(s: &str) -> Cell {
    Cell::Text(s.to_string())
}

fn names(list: &[&str]) -> Vec<String> {
    list.iter().map(|s| s.to_string()).collect()
}

#[test]
fn cells_as_literals() {
    assert_eq!(sql_literal(&Cell::Null), "NULL");
    assert_eq!(sql_literal(&Cell::Int(-5)), "-5");
    assert_eq!(sql_literal(&Cell::UInt(7)), "7");
    assert_eq!(sql_literal(&text("it's")), "'it''s'");
    assert_eq!(searched_text(&text("it's")), "it's");
}

#[test]
fn deletion_is_planned() {
    let c = catalog(&["CREATE TABLE t (id INT, v VARCHAR)"]);
    let h = parse_delete("DELETE FROM t WHERE id = 1").unwrap();
    let p = c.plan_delete(&h, &Some("id".to_string())).ok().unwrap();
    assert_eq!(p.table, "t");
    assert_eq!(p.count_sql, "SELECT COUNT(*) AS c FROM \"t\"");
    assert_eq!(p.select_sql, "SELECT * FROM \"t\" WHERE (id = 1) IS NOT TRUE");
    assert_eq!(p.returning_sql, Some("SELECT id FROM \"t\" WHERE id = 1".to_string()));
    assert!(p.actions.is_empty());
    let all = parse_delete("DELETE FROM t").unwrap();
    let p = c.plan_delete(&all, &None).ok().unwrap();
    assert_eq!(p.select_sql, "SELECT * FROM \"t\" WHERE FALSE");
    assert_eq!(p.returning_sql, None);
    let gone = parse_delete("DELETE FROM gone").unwrap();
    assert_eq!(c.plan_delete(&gone, &None).err().unwrap(), "Table 'gone' does not exist");
}

#[test]
fn referring_rows_are_looked_after() {
    let c = catalog(&[
        "CREATE TABLE p (id INT)",
        "CREATE TABLE k (pid INT, FOREIGN KEY (pid) REFERENCES p (id) ON DELETE CASCADE)",
        "CREATE TABLE n (pid INT, FOREIGN KEY (pid) REFERENCES p (id) ON DELETE SET NULL)",
        "CREATE TABLE r (pid INT, FOREIGN KEY (pid) REFERENCES p (id))",
    ]);
    let actions = c.key_actions("p");
    assert_eq!(actions.len(), 3);
    let action = |child: &str| {
        let a = actions.iter().find(|a| a.child == child).unwrap();
        KeyAction {
            child: a.child.clone(),
            fk_col: a.fk_col.clone(),
            ref_col: a.ref_col.clone(),
            on_delete: a.on_delete.clone(),
        }
    };
    assert_eq!(
        select_key_values("p", &action("k"), "id = 1"),
        "SELECT DISTINCT \"id\" FROM \"p\" WHERE (id = 1) AND \"id\" IS NOT NULL"
    );
    assert_eq!(
        count_references(&action("k"), "1, 2"),
        "SELECT COUNT(*) AS c FROM \"k\" WHERE \"pid\" IN (1, 2)"
    );
    assert_eq!(
        c.decide_references("p", &action("k"), "1", 2).unwrap(),
        Some("SELECT * FROM \"k\" WHERE NOT (\"pid\" IN (1))".to_string())
    );
    assert!(c.decide_references("p", &action("n"), "1", 2).unwrap().is_some());
    assert!(c
        .decide_references("p", &action("r"), "1", 2)
        .unwrap_err()
        .starts_with("FOREIGN KEY RESTRICT violation on '"));
    assert_eq!(c.decide_references("p", &action("r"), "1", 0).unwrap(), None);
}

#[test]
fn update_is_planned() {
    let c = catalog(&["CREATE TABLE t (id INT, v VARCHAR)"]);
    let u = parse_update("UPDATE t SET v = 'x' WHERE id = 1").unwrap();
    let p = c.plan_update(&u, &None).ok().unwrap();
    assert_eq!(p.table, "t");
    assert_eq!(
        p.rewrite_sql,
        "SELECT \"id\", CASE WHEN (id = 1) THEN CAST(('x') AS VARCHAR) ELSE \"v\" END AS \"v\" FROM \"t\""
    );
    assert_eq!(update_message(3), "3 row(s) updated.");
    assert_eq!(delete_message(5, 3), (2, "2 row(s) deleted.".to_string()));
}

#[test]
fn insertion_is_planned() {
    let c = catalog(&["CREATE TABLE t (id INT, v VARCHAR)"]);
    let (h, _) = parse_insert("INSERT INTO t (v) VALUES ('x')").unwrap();
    let p = c.plan_insert(&h, &None, false).ok().unwrap();
    assert_eq!(p.targets, names(&["v"]));
    assert!(p.listed);
    assert_eq!(p.source, "VALUES ('x')");
    let (h, _) = parse_insert("INSERT INTO t VALUES (1, 'x')").unwrap();
    let p = c.plan_insert(&h, &None, false).ok().unwrap();
    assert_eq!(p.targets, names(&["id", "v"]));
    assert!(!p.listed);
    let (h, _) = parse_insert("INSERT INTO gone VALUES (1)").unwrap();
    assert_eq!(c.plan_insert(&h, &None, false).err().unwrap(), "Table 'gone' does not exist");
    let cs = &c.tables.get("t").unwrap().columns;
    assert_eq!(choose_columns(&names(&[]), cs), names(&["id", "v"]));
}

#[test]
fn rows_are_written() {
    assert_eq!(
        write_rows("t", &None, "__tmp"),
        "INSERT INTO \"t\" SELECT * FROM \"__tmp\""
    );
    assert!(write_rows("t", &Some(names(&["a"])), "__tmp").contains("(\"a\")"));
    assert!(write_rows_at_once("t", &names(&["a", "b"]), "__tmp").contains("(\"a\", \"b\")"));
    assert_eq!(first_new_row(10, 3), 7);
    assert!(insert_message(2, "t", false).starts_with("2 row(s) buffered for 't'"));
    assert!(insert_message(2, "t", true).ends_with("(buffer flushed)."));
}

#[test]
fn files_are_copied() {
    assert_eq!(file_extension("/a/b.CSV"), Some("CSV".to_string()));
    assert_eq!(file_extension("/a/b"), None);
    assert!(file_format("x.parquet") == FileFormat::Parquet);
    assert!(file_format("x.ndjson") == FileFormat::Json);
    assert!(file_format("x.csv") == FileFormat::Csv);
    let c = catalog(&["CREATE TABLE t (id INT, v VARCHAR)"]);
    assert_eq!(c.copy_from_table("COPY t FROM '/tmp/x.csv'").unwrap(), "t");
    assert!(c.copy_from_table("COPY gone FROM '/tmp/x.csv'").is_err());
    let p = plan_copy_from("t".to_string(), "COPY t FROM '/tmp/x.csv'").ok().unwrap();
    assert_eq!(p.path, "/tmp/x.csv");
    let out = c.plan_copy_to("COPY t TO '/tmp/y.parquet'").ok().unwrap();
    assert!(out.format == FileFormat::Parquet);
    let r = copy_rows("t", &c.tables.get("t").unwrap().columns, &names(&["id", "extra"]));
    assert_eq!((r.missing, r.extra), (1, 1));
    assert!(copy_from_message(4, &p, 1, 1).contains("missing target columns filled with NULL: 1"));
    assert!(copy_to_message(4, &out).starts_with("4 row(s) copied from 't' to '"));
    let full = copy_rows("t", &c.tables.get("t").unwrap().columns, &names(&["id", "v"]));
    assert_eq!((full.missing, full.extra), (0, 0));
}

#[test]
fn copy_complaints() {
    let c = catalog(&["CREATE TABLE t (id INT)"]);
    assert_eq!(plan_copy_from("t".to_string(), "COPY t").err().unwrap(), "COPY FROM: missing FROM keyword");
    assert_eq!(c.plan_copy_to("COPY t").err().unwrap(), "COPY TO: missing TO keyword");
}

#[test]
fn steps_are_judged() {
    let none = Step::NoneAllowed { sql: String::new(), error: "bad".to_string() };
    assert!(judge(&none, 0).is_ok());
    assert_eq!(judge(&none, 1).unwrap_err(), "bad");
    let most = Step::AtMost { sql: String::new(), limit: 2, error: "twice".to_string() };
    assert!(judge(&most, 2).is_ok());
    assert_eq!(judge(&most, 3).unwrap_err(), "twice");
    let counted =
        Step::NoneCounted { sql: String::new(), head: "(".to_string(), tail: " rows)".to_string() };
    assert_eq!(judge(&counted, 4).unwrap_err(), "(4 rows)");
    assert_eq!(judge(&Step::Fail { error: "no".to_string() }, 0).unwrap_err(), "no");
    assert_eq!(scalar_count(&vec![1, 2, 3]), 6);
    assert!(judge_check("t", "c", 0).is_ok());
    assert!(judge_check("t", "c", 2).unwrap_err().starts_with("CHECK constraint violation 'c'"));
}

#[test]
fn primary_key_refuses_nulls_and_repetitions() {
    let c = catalog(&["CREATE TABLE t (id INT, v VARCHAR, PRIMARY KEY (id))"]);
    let incoming = |ids: Vec<Cell>| Incoming {
        rows: ids.into_iter().map(|id| Row { cells: vec![id, text("x")] }).collect(),
        any_batch: true,
        width: 2,
    };
    let targets = names(&["id", "v"]);
    let bad = c.validate_constraints_batch("t", &targets, &incoming(vec![Cell::Null]));
    assert!(matches!(&bad[0], Step::Fail { error } if error.starts_with("PRIMARY KEY violation on 't'")));
    let twice =
        c.validate_constraints_batch("t", &targets, &incoming(vec![Cell::Int(1), Cell::Int(1)]));
    assert!(matches!(&twice[0], Step::Fail { .. }));
    let good =
        c.validate_constraints_batch("t", &targets, &incoming(vec![Cell::Int(1), Cell::Int(2)]));
    assert!(matches!(&good[0], Step::AtMost { sql, limit: 2, .. }
        if sql == "SELECT COUNT(*) AS c FROM \"t\" WHERE \"id\" IN (1, 2)"));
}

#[test]
fn unique_key_lets_nulls_pass() {
    let c = catalog(&["CREATE TABLE t (id INT, UNIQUE (id))"]);
    let incoming = Incoming {
        rows: vec![Row { cells: vec![Cell::Null] }, Row { cells: vec![Cell::Null] }],
        any_batch: true,
        width: 1,
    };
    let steps = c.validate_constraints_batch("t", &names(&["id"]), &incoming);
    assert!(steps.iter().all(|s| !matches!(s, Step::Fail { .. })));
}

#[test]
fn not_null_columns_are_checked() {
    let c = catalog(&["CREATE TABLE t (id INT NOT NULL, v VARCHAR)"]);
    let targets = names(&["id", "v"]);
    let batch = |nulls: Vec<bool>| vec![BatchNulls { nulls }];
    assert!(c.validate_not_null_positional("t", &targets, &batch(vec![false, true])).is_ok());
    assert!(c
        .validate_not_null_positional("t", &targets, &batch(vec![true, false]))
        .unwrap_err()
        .starts_with("NOT NULL constraint failed"));
    let named = |columns: &[&str], nulls: Vec<bool>| {
        vec![NamedNulls { names: names(columns), nulls }]
    };
    assert!(c.validate_not_null_batches("t", &named(&["v", "id"], vec![true, false])).is_ok());
    assert!(c.validate_not_null_batches("t", &named(&["v"], vec![true])).is_ok());
    assert!(c.validate_not_null_batches("gone", &named(&["id"], vec![true])).is_ok());
    assert_eq!(
        c.validate_not_null_batches("t", &named(&["v", "id"], vec![false, true])),
        Err("NOT NULL constraint failed: 't.id'".to_string())
    );
    assert!(holds_null("Null", 0));
    assert!(holds_null("Int32", 1));
    assert!(!holds_null("Int32", 0));
    let steps = c.validate_not_null_table("t");
    assert!(matches!(&steps[0], Step::NoneCounted { sql, .. }
        if sql == "SELECT COUNT(*) AS c FROM \"t\" WHERE \"id\" IS NULL"));
    assert!(c.validate_not_null_table("gone").is_empty());
}

#[test]
fn whole_tables_are_checked() {
    let c = catalog(&[
        "CREATE TABLE p (id INT)",
        "CREATE TABLE t (id INT, CHECK (id > 0), PRIMARY KEY (id), FOREIGN KEY (id) REFERENCES p (id))",
    ]);
    let checks = c.validate_check_constraints("t");
    assert!(matches!(&checks[0], Step::NoneCounted { sql, .. }
        if sql == "SELECT COUNT(*) AS c FROM \"t\" WHERE NOT (id > 0)"));
    let steps = c.validate_table_constraints("t");
    assert!(steps.iter().any(|s| matches!(s, Step::NoneAllowed { error, .. }
        if error.starts_with("FOREIGN KEY violation 'fk_2' on 't' referencing 'p'"))));
    assert_eq!(
        write_condition(&names(&["a", "b"]), &names(&["1", "'x'"])),
        "\"a\" = 1 AND \"b\" = 'x'"
    );
    assert!(check_rows_sql(&names(&["c0"]), &names(&["id"]), "tmp", "id > 0")
        .ends_with(") AS __potato_chk WHERE NOT (id > 0)"));
}

#[test]
fn conflict_columns_are_found() {
    let c = catalog(&["CREATE TABLE t (id INT, v INT, PRIMARY KEY (id), CONSTRAINT uv UNIQUE (v))"]);
    let cs = &c.tables.get("t").unwrap().constraints;
    assert_eq!(resolve_conflict_columns(cs, &None).unwrap(), names(&["id"]));
    let by = |sql: &str| resolve_conflict_columns(cs, &parse_conflict(sql).unwrap().target);
    assert_eq!(
        by("INSERT INTO t VALUES (1, 2) ON CONFLICT ON CONSTRAINT uv DO NOTHING").unwrap(),
        names(&["v"])
    );
    assert_eq!(
        by("INSERT INTO t VALUES (1, 2) ON CONFLICT ON CONSTRAINT zz DO NOTHING").unwrap_err(),
        "Unknown ON CONFLICT constraint target: zz"
    );
}

#[test]
fn upsert_splits_new_rows_from_conflicts() {
    let c = catalog(&["CREATE TABLE t (id INT, v INT, PRIMARY KEY (id))"]);
    let sql = "INSERT INTO t VALUES (1, 10), (2, 20) ON CONFLICT (id) DO UPDATE SET v = EXCLUDED.v";
    let (h, conflict) = parse_insert(sql).unwrap();
    assert!(conflict);
    let clause = parse_conflict(sql).unwrap();
    let plan = c.plan_upsert(&h, &clause.target).ok().unwrap();
    assert_eq!(plan.conflict_columns, names(&["id"]));
    let rows = vec![
        Row { cells: vec![Cell::Int(1), Cell::Int(10)] },
        Row { cells: vec![Cell::Int(2), Cell::Int(20)] },
    ];
    let read = read_upsert_rows(&rows, &plan);
    assert_eq!(read[0].values, names(&["1", "10"]));
    assert!(select_conflicts(&plan, &read).contains("(\"id\" = 1)"));
    let stored = vec![Row { cells: vec![Cell::Int(1)] }];
    let flags = find_conflicts(&plan, &read, &names(&["id"]), &stored);
    assert_eq!(flags, vec![true, false]);
    let w = plan_writes(&plan, &c.tables.get("t").unwrap().columns, &clause, &read, &flags);
    assert_eq!((w.inserted, w.updated, w.skipped), (1, 1, 0));
    assert!(w.insert_sql.unwrap().ends_with("VALUES (2, 20)"));
    assert!(w.rewrite_sql.unwrap().contains("WHEN (\"id\" = 1) THEN"));
    assert_eq!(w.message, "UPSERT complete: 1 inserted, 1 updated, 0 skipped.");
}

#[test]
fn upsert_that_does_nothing_skips() {
    let c = catalog(&["CREATE TABLE t (id INT, PRIMARY KEY (id))"]);
    let sql = "INSERT INTO t VALUES (1) ON CONFLICT DO NOTHING";
    let (h, _) = parse_insert(sql).unwrap();
    let clause = parse_conflict(sql).unwrap();
    let plan = c.plan_upsert(&h, &clause.target).ok().unwrap();
    let read = read_upsert_rows(&vec![Row { cells: vec![Cell::Int(1)] }], &plan);
    let w = plan_writes(&plan, &c.tables.get("t").unwrap().columns, &clause, &read, &vec![true]);
    assert_eq!((w.inserted, w.updated, w.skipped), (0, 0, 1));
    assert_eq!(w.insert_sql, None);
    assert_eq!(w.rewrite_sql, None);
}

#[test]
fn upsert_complaints() {
    let c = catalog(&["CREATE TABLE t (id INT)"]);
    let (h, _) = parse_insert("INSERT INTO t VALUES (1) ON CONFLICT DO NOTHING").unwrap();
    assert_eq!(c.plan_upsert(&h, &None).err().unwrap(), "ON CONFLICT requires a conflict target");
    let (h, _) = parse_insert("INSERT INTO gone VALUES (1) ON CONFLICT DO NOTHING").unwrap();
    assert_eq!(c.plan_upsert(&h, &None).err().unwrap(), "Table 'gone' does not exist");
}

#[test]
fn merge_is_planned() {
    let c = catalog(&["CREATE TABLE t (id INT, v INT)"]);
    let m = parse_merge(
        "MERGE INTO t AS a USING s AS b ON a.id = b.id \
         WHEN MATCHED THEN UPDATE SET v = b.v \
         WHEN MATCHED AND b.v = 0 THEN DELETE \
         WHEN NOT MATCHED THEN INSERT (id, v) VALUES (b.id, b.v)",
    )
    .unwrap();
    let p = c.plan_merge(&m).ok().unwrap();
    assert_eq!(p.table, "t");
    assert_eq!(p.source_sql, "SELECT * FROM s");
    assert_eq!(p.steps.len(), 3);
    match &p.steps[0] {
        MergeStep::Update { count_sql, rewrite_sql } => {
            assert_eq!(
                count_sql,
                "SELECT COUNT(*) AS c FROM \"t\" INNER JOIN \"__merge_src\" ON (\"t\".id = \"__merge_src\".id)"
            );
            assert!(rewrite_sql.contains("CAST(\"__merge_src\".v AS INT)"));
        }
        _ => panic!("expected an update"),
    }
    assert!(matches!(&p.steps[1], MergeStep::Delete { keep_sql } if keep_sql.contains("AND (\"__merge_src\".v = 0)")));
    assert!(matches!(&p.steps[2], MergeStep::Insert { insert_sql }
        if insert_sql.starts_with("INSERT INTO \"t\" (id, v) SELECT \"__merge_src\".id, \"__merge_src\".v FROM")));
    assert_eq!(merge_message(1, 2), "1 row(s) updated, 2 row(s) inserted.");
}

#[test]
fn merge_clause_about_the_source_is_left_out() {
    let c = catalog(&["CREATE TABLE t (id INT)"]);
    let m = parse_merge(
        "MERGE INTO t USING s ON t.id = s.id WHEN NOT MATCHED BY SOURCE THEN DELETE",
    )
    .unwrap();
    assert!(c.plan_merge(&m).ok().unwrap().steps.is_empty());
    let m = parse_merge("MERGE INTO gone USING s ON gone.id = s.id WHEN MATCHED THEN DELETE").unwrap();
    assert_eq!(c.plan_merge(&m).err().unwrap(), "Table 'gone' does not exist");
}

#[test]
fn keys_and_documents_are_listed() {
    assert_eq!(list_keys(&vec![Cell::Int(1), text("x")]), Some("1, 'x'".to_string()));
    assert_eq!(list_keys(&vec![]), None);
    let row = Row { cells: vec![text("red cat"), Cell::Int(4), text("blue")] };
    assert_eq!(
        document_text(&row, &names(&["title", "n", "body"]), &names(&["body", "title"])),
        "blue red cat"
    );
}

#[test]
fn deletions_are_cleared() {
    let mut c = catalog(&["CREATE TABLE t (id INT)"]);
    let mut meta = c.remove_table("t").unwrap();
    meta.deletion_vectors = vec![DeletionEntry {
        file_path: "a.parquet".to_string(),
        deleted_row_indices: vec![1],
        timestamp_ms: 0,
    }];
    c.add_table(meta);
    assert_eq!(c.deletion_vector_count("t"), 1);
    c.clear_deletions("t");
    assert_eq!(c.deletion_vector_count("t"), 0);
}

#[test]
fn merge_steps_are_counted() {
    assert_eq!(
        answer_without_rows(0),
        Some("0 row(s) updated, 0 row(s) inserted.".to_string())
    );
    assert_eq!(answer_without_rows(3), None);
    let mut totals = MergeTotals::new();
    assert!(!totals.update_counted(None));
    assert!(totals.update_counted(Some(2)));
    assert!(!totals.update_counted(Some(0)));
    assert!(totals.update_counted(Some(4)));
    totals.insert_counted(Some(3));
    assert_eq!((totals.updated, totals.inserted), (4, 3));
    assert_eq!(totals.changed(), Some(7));
    totals.insert_counted(Some(-5));
    assert_eq!(totals.changed(), None);
}
