//! What is read of statements through the SQL parser.
use potatodb::alter::parse_alter_table;
use potatodb::catalog_types::TableConstraint;
use potatodb::dml::{column_of_assignment, extract_delete_table_name, parse_delete, parse_update};
use potatodb::indexes::parse_create_index;
use potatodb::insert::parse_insert;
use potatodb::json::parse_json;
use potatodb::merge::parse_merge;
use potatodb::sequences::SequenceOption;
use potatodb::statement::{
    checkpoints, extract_mutated_table, kind_of_tree, mutates, parse_create_sequence, parse_drop,
    parse_execute, parse_maintained, parse_prepare, parse_statement, read_drop_tree, read_row,
    AlterOp, MergeDo, MergeMatch, ParsedConflict, ParsedRelation, ParsedTarget, StatementKind,
};
use potatodb::tables::parse_create_table;
use potatodb::types::{
    arrow_type_to_sql_string, sql_string_to_arrow, sql_type_to_pg_oid, ArrowType,
};
use potatodb::upsert::parse_conflict;
use potatodb::views::{parse_create_view, refresh_query, Refresh};

fn kind(sql: &str) -> StatementKind {
    parse_statement(sql).unwrap().unwrap()
}

#[test]
fn statements_are_told_apart() {
    assert!(kind("BEGIN") == StatementKind::Begin);
    assert!(kind("COMMIT") == StatementKind::Commit);
    assert!(kind("ROLLBACK") == StatementKind::Rollback);
    assert!(kind("CREATE TABLE t (id INT)") == StatementKind::CreateTable);
    assert!(kind("CREATE INDEX i ON t (id)") == StatementKind::CreateIndex);
    assert!(kind("CREATE SEQUENCE s") == StatementKind::CreateSequence);
    assert!(kind("CREATE VIEW v AS SELECT 1") == StatementKind::CreateView);
    assert!(kind("ALTER TABLE t ADD COLUMN x INT") == StatementKind::AlterTable);
    assert!(kind("DROP TABLE t") == StatementKind::DropTable);
    assert!(kind("DROP INDEX i") == StatementKind::DropIndex);
    assert!(kind("DROP VIEW v") == StatementKind::DropView);
    assert!(kind("DROP SEQUENCE s") == StatementKind::DropSequence);
    assert!(kind("DROP SCHEMA s") == StatementKind::Query);
    assert!(kind("DELETE FROM t") == StatementKind::Delete);
    assert!(kind("UPDATE t SET x = 1") == StatementKind::Update);
    assert!(kind("INSERT INTO t VALUES (1)") == StatementKind::Insert);
    assert!(kind("PREPARE p AS SELECT 1") == StatementKind::Prepare);
    assert!(kind("EXECUTE p(1)") == StatementKind::Execute);
    assert!(kind("COPY t FROM '/tmp/x.csv'") == StatementKind::CopyFrom);
    assert!(kind("COPY t TO '/tmp/x.csv'") == StatementKind::CopyTo);
    assert!(kind("EXPLAIN SELECT 1") == StatementKind::Explain);
    assert!(kind("ANALYZE t") == StatementKind::Analyze);
    assert!(kind("VACUUM t") == StatementKind::Vacuum);
    assert!(kind("SELECT 1") == StatementKind::Query);
    assert!(
        kind("MERGE INTO t USING s ON t.id = s.id WHEN MATCHED THEN DELETE")
            == StatementKind::Merge
    );
}

#[test]
fn one_statement_is_wanted() {
    assert_eq!(parse_statement("SELECT 1; SELECT 2").err().unwrap(), "Expected exactly one SQL statement");
    assert_eq!(parse_statement("").err().unwrap(), "Expected exactly one SQL statement");
    assert!(parse_statement("SELEKT 1").unwrap().is_none());
}

#[test]
fn kinds_that_change_something() {
    assert!(mutates(StatementKind::Insert) && !checkpoints(StatementKind::Insert));
    assert!(mutates(StatementKind::CreateTable) && checkpoints(StatementKind::CreateTable));
    assert!(mutates(StatementKind::Merge) && checkpoints(StatementKind::Merge));
    assert!(!mutates(StatementKind::Query) && !checkpoints(StatementKind::Query));
    assert!(!mutates(StatementKind::Begin));
}

#[test]
fn kind_of_a_given_tree() {
    let tree = parse_json("{\"Drop\":{\"object_type\":\"View\"}}").unwrap();
    assert!(kind_of_tree(&tree, "DROP VIEW V") == StatementKind::DropView);
    let tree = parse_json("{\"Copy\":{}}").unwrap();
    assert!(kind_of_tree(&tree, "COPY T FROM 'X'") == StatementKind::CopyFrom);
    assert!(kind_of_tree(&tree, "COPY T TO 'X'") == StatementKind::CopyTo);
    assert!(read_drop_tree(&tree).is_none());
    let row = parse_json("[]").unwrap();
    assert!(read_row(&row).unwrap().values.is_empty());
    assert!(read_row(&tree).is_none());
}

#[test]
fn mutated_tables() {
    let table = |sql: &str| extract_mutated_table(kind(sql), sql);
    assert_eq!(table("INSERT INTO a VALUES (1)"), Some("a".to_string()));
    assert_eq!(table("UPDATE b SET x = 1"), Some("b".to_string()));
    assert_eq!(table("DELETE FROM c WHERE x = 1"), Some("c".to_string()));
    assert_eq!(table("DROP TABLE d"), Some("d".to_string()));
    assert_eq!(table("ALTER TABLE e ADD COLUMN x INT"), Some("e".to_string()));
    assert_eq!(
        table("MERGE INTO \"f\" USING s ON f.id = s.id WHEN MATCHED THEN DELETE"),
        Some("f".to_string())
    );
    assert_eq!(table("SELECT * FROM g"), None);
}

#[test]
fn create_table_is_read() {
    let t = parse_create_table(
        "CREATE TABLE IF NOT EXISTS orders (id INT NOT NULL, note VARCHAR, qty DECIMAL(10,2), \
         PRIMARY KEY (id), UNIQUE (note), CONSTRAINT positive CHECK (qty > 0), \
         FOREIGN KEY (id) REFERENCES users (uid) ON DELETE CASCADE ON UPDATE SET NULL)",
    )
    .unwrap();
    assert_eq!(t.name, "orders");
    assert!(t.if_not_exists);
    assert!(t.query.is_none());
    assert!(t.partition_columns.is_empty());
    let columns: Vec<(&str, &str, bool)> = t
        .columns
        .iter()
        .map(|c| (c.name.as_str(), c.data_type.as_str(), c.nullable))
        .collect();
    assert_eq!(
        columns,
        vec![("id", "INT", false), ("note", "VARCHAR", true), ("qty", "DECIMAL(10,2)", true)]
    );
    assert_eq!(t.constraints.len(), 4);
    assert!(matches!(&t.constraints[0], TableConstraint::PrimaryKey { columns } if columns == &vec!["id".to_string()]));
    assert!(matches!(&t.constraints[1], TableConstraint::Unique { name, columns } if name == "unique_1" && columns == &vec!["note".to_string()]));
    assert!(matches!(&t.constraints[2], TableConstraint::Check { name, expr } if name == "positive" && expr == "qty > 0"));
    match &t.constraints[3] {
        TableConstraint::ForeignKey { name, columns, ref_table, ref_columns, on_delete, on_update } => {
            assert_eq!(name, "fk_3");
            assert_eq!(columns, &vec!["id".to_string()]);
            assert_eq!(ref_table, "users");
            assert_eq!(ref_columns, &vec!["uid".to_string()]);
            assert_eq!(on_delete, &Some("CASCADE".to_string()));
            assert_eq!(on_update, &Some("SET NULL".to_string()));
        }
        _ => panic!("expected a foreign key"),
    }
    assert!(parse_create_table("SELECT 1").is_none());
    assert!(parse_create_table("not sql").is_none());
}

#[test]
fn create_table_with_query_and_partitions() {
    let t = parse_create_table("CREATE TABLE a AS SELECT 1 AS x").unwrap();
    assert_eq!(t.query, Some("SELECT 1 AS x".to_string()));
    assert!(t.columns.is_empty());
    let t = parse_create_table("CREATE TABLE \"A b\" (x INT)").unwrap();
    assert_eq!(t.name, "\"A b\"");
    assert_eq!(t.text, "CREATE TABLE \"A b\" (x INT)");
}

#[test]
fn quoted_names_lose_their_escapes() {
    let t = parse_create_table("CREATE TABLE t (\"a\\b\" INT, \"say \"\"hi\"\"\" INT)").unwrap();
    assert_eq!(t.columns[0].name, "a\\b");
    assert_eq!(t.columns[1].name, "say \"hi\"");
}

#[test]
fn create_index_is_read() {
    let h = parse_create_index("CREATE INDEX IF NOT EXISTS idx ON t (a DESC, b ASC, c)").unwrap();
    assert_eq!(h.name, Some("idx".to_string()));
    assert_eq!(h.table, "t");
    assert!(h.if_not_exists);
    let columns: Vec<(&str, Option<bool>)> =
        h.columns.iter().map(|c| (c.expr.as_str(), c.asc)).collect();
    assert_eq!(columns, vec![("a", Some(false)), ("b", Some(true)), ("c", None)]);
    let h = parse_create_index("CREATE INDEX ON t (a)").unwrap();
    assert_eq!(h.name, None);
    assert!(parse_create_index("SELECT 1").is_none());
}

#[test]
fn create_sequence_is_read() {
    let h = parse_create_sequence(
        "CREATE SEQUENCE s INCREMENT BY 5 MINVALUE 1 MAXVALUE 100 START WITH 10 CACHE 3",
    )
    .unwrap();
    assert_eq!(h.name, "s");
    assert!(!h.if_not_exists);
    let mut seen = Vec::new();
    for o in &h.options {
        seen.push(match o {
            SequenceOption::StartWith(e) => format!("start {e}"),
            SequenceOption::IncrementBy(e) => format!("by {e}"),
            SequenceOption::MinValue(e) => format!("min {e}"),
            SequenceOption::MaxValue(e) => format!("max {e}"),
            SequenceOption::Other => "other".to_string(),
        });
    }
    assert_eq!(seen, vec!["by 5", "min 1", "max 100", "start 10", "other"]);
    assert!(parse_create_sequence("DROP SEQUENCE s").is_none());
}

#[test]
fn drops_are_read() {
    assert_eq!(parse_drop("DROP TABLE IF EXISTS t"), Some(("t".to_string(), true)));
    assert_eq!(parse_drop("DROP VIEW v"), Some(("v".to_string(), false)));
    assert_eq!(parse_drop("SELECT 1"), None);
}

#[test]
fn deletes_are_read() {
    let h = parse_delete("DELETE FROM t WHERE id = 1").unwrap();
    assert_eq!(h.tables, vec!["t".to_string()]);
    assert_eq!(h.selection, Some("id = 1".to_string()));
    assert_eq!(h.text, "DELETE FROM t WHERE id = 1");
    assert_eq!(extract_delete_table_name(&h).unwrap(), "t");
    let all = parse_delete("DELETE FROM t").unwrap();
    assert_eq!(all.selection, None);
    assert!(parse_delete("SELECT 1").is_none());
}

#[test]
fn updates_are_read() {
    let u = parse_update("UPDATE t SET a = a + 1, \"B\" = 'x' WHERE id > 2").unwrap();
    assert_eq!(u.head.table, "t");
    assert_eq!(u.head.selection, Some("id > 2".to_string()));
    assert_eq!(u.assignments.len(), 2);
    assert_eq!(u.assignments[0].value, "a + 1");
    assert_eq!(column_of_assignment(&u.assignments[0]), "a");
    assert_eq!(column_of_assignment(&u.assignments[1]), "B");
    let tuple = parse_update("UPDATE t SET (a, b) = (1, 2)").unwrap();
    assert_eq!(tuple.assignments[0].targets, vec!["a".to_string(), "b".to_string()]);
    assert_eq!(tuple.assignments[0].text, "(a, b)");
    assert!(parse_update("SELECT 1").is_none());
}

#[test]
fn inserts_are_read() {
    let (h, conflict) = parse_insert("INSERT INTO t (a, b) VALUES (1, 'x')").unwrap();
    assert_eq!(h.table, "t");
    assert_eq!(h.columns, vec!["a".to_string(), "b".to_string()]);
    assert_eq!(h.source, Some("VALUES (1, 'x')".to_string()));
    assert!(!conflict);
    let (_, conflict) = parse_insert("INSERT INTO t VALUES (1) ON CONFLICT DO NOTHING").unwrap();
    assert!(conflict);
    assert!(parse_insert("SELECT 1").is_none());
}

#[test]
fn conflict_clauses_are_read() {
    let c = parse_conflict(
        "INSERT INTO t VALUES (1, 2) ON CONFLICT (id) DO UPDATE SET v = excluded.v WHERE t.v > 0",
    )
    .unwrap();
    assert!(matches!(&c.target, Some(ParsedTarget::Columns(cols)) if cols == &vec!["id".to_string()]));
    assert!(matches!(&c.action, ParsedConflict::DoUpdate { selection: Some(s) } if s == "t.v > 0"));
    assert_eq!(c.assignments[0].value, "excluded.v");
    let c = parse_conflict("INSERT INTO t VALUES (1) ON CONFLICT ON CONSTRAINT pk DO NOTHING").unwrap();
    assert!(matches!(&c.target, Some(ParsedTarget::Constraint(n)) if n == "pk"));
    assert!(matches!(&c.action, ParsedConflict::DoNothing));
    assert!(c.assignments.is_empty());
    assert!(parse_conflict("INSERT INTO t VALUES (1)").is_none());
}

#[test]
fn merges_are_read() {
    let m = parse_merge(
        "MERGE INTO target AS t USING (SELECT 1 AS id) AS s ON t.id = s.id \
         WHEN MATCHED AND s.id > 0 THEN UPDATE SET v = s.v \
         WHEN MATCHED THEN DELETE \
         WHEN NOT MATCHED THEN INSERT (id, v) VALUES (s.id, s.v)",
    )
    .unwrap();
    assert!(matches!(&m.target, ParsedRelation::Table { name, alias } if name == "target" && alias.as_deref() == Some("t")));
    assert!(matches!(&m.source, ParsedRelation::Query { text, alias } if text == "SELECT 1 AS id" && alias.as_deref() == Some("s")));
    assert_eq!(m.on, "t.id = s.id");
    assert_eq!(m.whens.len(), 3);
    assert!(m.whens[0].matched == MergeMatch::Matched);
    assert_eq!(m.whens[0].predicate, Some("s.id > 0".to_string()));
    assert!(matches!(&m.whens[0].action, MergeDo::Update { assignments } if assignments[0].text == "v"));
    assert!(matches!(&m.whens[1].action, MergeDo::Delete));
    assert!(m.whens[2].matched == MergeMatch::NotMatched);
    match &m.whens[2].action {
        MergeDo::Insert { columns, rows } => {
            assert_eq!(columns, &vec!["id".to_string(), "v".to_string()]);
            assert_eq!(rows[0].values, vec!["s.id".to_string(), "s.v".to_string()]);
        }
        _ => panic!("expected an insertion"),
    }
    assert!(parse_merge("SELECT 1").is_none());
}

#[test]
fn alterations_are_read() {
    let a = parse_alter_table("ALTER TABLE t ADD COLUMN IF NOT EXISTS x INT NOT NULL").unwrap();
    assert_eq!(a.head.name, "t");
    assert!(!a.head.if_exists);
    match &a.operations[0] {
        AlterOp::AddColumn { column, if_not_exists } => {
            assert_eq!(column.name, "x");
            assert_eq!(column.data_type, "INT");
            assert_eq!(column.not_null, vec![true]);
            assert!(*if_not_exists);
        }
        _ => panic!("expected an added column"),
    }
    let a = parse_alter_table("ALTER TABLE IF EXISTS t DROP COLUMN IF EXISTS x").unwrap();
    assert!(a.head.if_exists);
    assert!(matches!(&a.operations[0], AlterOp::DropColumn { names, if_exists } if names == &vec!["x".to_string()] && *if_exists));
    let a = parse_alter_table("ALTER TABLE t RENAME COLUMN a TO b").unwrap();
    assert!(matches!(&a.operations[0], AlterOp::RenameColumn { old_name, new_name } if old_name == "a" && new_name == "b"));
    let a = parse_alter_table("ALTER TABLE t RENAME TO u").unwrap();
    assert!(matches!(&a.operations[0], AlterOp::Other { text } if text == "RENAME TO u"));
    assert!(parse_alter_table("SELECT 1").is_none());
}

#[test]
fn views_are_read() {
    let v = parse_create_view("CREATE OR REPLACE VIEW v AS SELECT a FROM t").unwrap();
    assert_eq!(v.name, "v");
    assert_eq!(v.query, "SELECT a FROM t");
    assert!(v.or_replace && !v.materialized);
    let m = parse_create_view("CREATE MATERIALIZED VIEW m AS SELECT 1").unwrap();
    assert!(m.materialized && !m.or_replace);
    assert!(parse_create_view("SELECT 1").is_none());
}

#[test]
fn refreshed_queries_are_read() {
    let plan = |source: &str| Refresh {
        log: String::new(),
        backing: String::new(),
        source: source.to_string(),
        register: String::new(),
        message: String::new(),
    };
    assert_eq!(refresh_query(&plan("select  1")).unwrap(), "SELECT 1");
    assert_eq!(
        refresh_query(&plan("DROP TABLE t")).unwrap_err(),
        "Stored materialized view SQL is invalid"
    );
    assert!(refresh_query(&plan("nonsense")).is_err());
}

#[test]
fn prepared_statements_are_read() {
    let p = parse_prepare("PREPARE q AS SELECT * FROM t WHERE id = $1").unwrap();
    assert_eq!(p.name, "q");
    assert_eq!(p.statement, "SELECT * FROM t WHERE id = $1");
    let (name, params) = parse_execute("EXECUTE q(1, 'x')").unwrap();
    assert_eq!(name, "q");
    assert_eq!(params, vec!["1".to_string(), "'x'".to_string()]);
    assert!(parse_prepare("SELECT 1").is_none());
    let g = parse_prepare("PREPARE g AS GRANT DELETE, TRUNCATE, SELECT ON t TO u").unwrap();
    assert_eq!(g.statement, "GRANT DELETE, TRUNCATE, SELECT ON t TO u");
    let n = parse_prepare("PREPARE p AS PREPARE q (TEXT, DATE, INT) AS SELECT 1").unwrap();
    assert_eq!(n.statement, "PREPARE q (TEXT, DATE, INT) AS SELECT 1");
    assert!(parse_execute("SELECT 1").is_none());
}

#[test]
fn maintenance_is_read() {
    assert_eq!(parse_maintained("ANALYZE t").unwrap().unwrap(), "t");
    assert_eq!(parse_maintained("VACUUM t").unwrap().unwrap(), "t");
    assert_eq!(parse_maintained("VACUUM").unwrap().unwrap_err(), "VACUUM requires a table name");
    assert!(parse_maintained("SELECT 1").is_none());
}

fn named_back(sql: &str) -> String {
    match sql_string_to_arrow(sql) {
        Ok(t) => arrow_type_to_sql_string(&t),
        Err(e) => e,
    }
}

#[test]
fn sql_types_become_column_types() {
    assert!(matches!(sql_string_to_arrow("BOOLEAN"), Ok(ArrowType::Boolean)));
    assert!(matches!(sql_string_to_arrow("TINYINT"), Ok(ArrowType::Int8)));
    assert!(matches!(sql_string_to_arrow("SMALLINT"), Ok(ArrowType::Int16)));
    assert!(matches!(sql_string_to_arrow("INT"), Ok(ArrowType::Int32)));
    assert!(matches!(sql_string_to_arrow("INTEGER"), Ok(ArrowType::Int32)));
    assert!(matches!(sql_string_to_arrow("BIGINT"), Ok(ArrowType::Int64)));
    assert!(matches!(sql_string_to_arrow("REAL"), Ok(ArrowType::Float32)));
    assert!(matches!(sql_string_to_arrow("DOUBLE PRECISION"), Ok(ArrowType::Float64)));
    assert!(matches!(sql_string_to_arrow("VARCHAR(20)"), Ok(ArrowType::Utf8)));
    assert!(matches!(sql_string_to_arrow("TEXT"), Ok(ArrowType::Utf8)));
    assert!(matches!(sql_string_to_arrow("DATE"), Ok(ArrowType::Date32)));
    assert!(matches!(sql_string_to_arrow("TIMESTAMP"), Ok(ArrowType::Timestamp { zoned: false })));
    assert!(matches!(
        sql_string_to_arrow("TIMESTAMP WITH TIME ZONE"),
        Ok(ArrowType::Timestamp { zoned: true })
    ));
    assert!(matches!(sql_string_to_arrow("NUMERIC"), Ok(ArrowType::Decimal128(38, 10))));
    assert!(matches!(sql_string_to_arrow("DECIMAL(10)"), Ok(ArrowType::Decimal128(10, 0))));
    assert!(matches!(sql_string_to_arrow("DECIMAL(10, 2)"), Ok(ArrowType::Decimal128(10, 2))));
    assert!(matches!(sql_string_to_arrow("BYTEA"), Ok(ArrowType::Binary)));
    assert!(matches!(sql_string_to_arrow("UUID"), Ok(ArrowType::FixedSizeBinary(16))));
    assert!(matches!(sql_string_to_arrow("INTERVAL"), Ok(ArrowType::Interval)));
    assert!(matches!(sql_string_to_arrow("JSONB"), Ok(ArrowType::Utf8)));
    match sql_string_to_arrow("INT[]") {
        Ok(ArrowType::List(inner)) => assert!(matches!(*inner, ArrowType::Int32)),
        _ => panic!("expected a list"),
    }
    assert!(named_back("POINT").starts_with("Unsupported SQL type: "));
    assert!(sql_string_to_arrow(")").is_err());
}

#[test]
fn column_types_name_sql_types() {
    assert_eq!(arrow_type_to_sql_string(&ArrowType::Int32), "INT");
    assert_eq!(arrow_type_to_sql_string(&ArrowType::Utf8), "VARCHAR");
    assert_eq!(sql_type_to_pg_oid("INT"), 23);
    assert_eq!(sql_type_to_pg_oid("BIGINT"), 20);
    assert_eq!(sql_type_to_pg_oid("VARCHAR"), 1043);
}
