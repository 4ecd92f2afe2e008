//! Statements that define tables, indexes, views, sequences, functions, users and migrations.
use potatodb::alter::{parse_alter_table, AlterPath};
use potatodb::catalog::Catalog;
use potatodb::catalog_types::{ColumnDef, TableMeta};
use potatodb::indexes::{index_refill, index_select, parse_create_index};
use potatodb::listing::{comes_before, find_partition_columns, view_statement};
use potatodb::migrations::{migrate_message, parse_create_migration, parse_migrate};
use potatodb::outcome::Check;
use potatodb::sequences::SequenceOption;
use potatodb::statement::parse_create_sequence;
use potatodb::tables::{
    columns_of_query, fill_statement, parse_create_table, partition_columns, FieldInfo,
};
use potatodb::types::{columns_to_schema, ArrowType};
use potatodb::views::{parse_create_view, register_view};

fn create(catalog: &mut Catalog, sql: &str) -> Result<String, String> {
    let t = parse_create_table(sql).unwrap();
    let path = format!("/data/{}", t.name);
    match catalog.check_create_table(&t)? {
        Check::Done(m) => Ok(m),
        Check::Go(_) => catalog.handle_create_table(t, &path),
    }
}

fn index(catalog: &mut Catalog, sql: &str) -> Result<String, String> {
    let h = parse_create_index(sql).unwrap();
    match catalog.check_create_index(&h)? {
        Check::Done(m) => Ok(m),
        Check::Go(_) => {
            let name = h.name.clone().unwrap();
            Ok(catalog.handle_create_index(&name, &h))
        }
    }
}

fn alter(catalog: &mut Catalog, sql: &str) -> Result<String, String> {
    let a = parse_alter_table(sql).unwrap();
    match catalog.plan_alter(&a.head.name, a.head.if_exists, sql)? {
        AlterPath::Skip { message } => Ok(message),
        AlterPath::Rename { old_name, new_name } => match catalog.check_rename(&old_name, &new_name)? {
            Check::Done(m) => Ok(m),
            Check::Go(_) => catalog.handle_rename_table(&old_name, &new_name),
        },
        AlterPath::Retention { seconds } => catalog.handle_retention(&a.head.name, seconds),
        AlterPath::Columns => catalog.handle_alter_columns(&a.head.name, &a.operations),
    }
}

fn columns(catalog: &Catalog, table: &str) -> Vec<String> {
    catalog.table_columns(table)
}

#[test]
fn table_is_created_once() {
    let mut c = Catalog::new();
    assert_eq!(create(&mut c, "CREATE TABLE t (id INT, v VARCHAR)").unwrap(), "Table 't' created.");
    assert_eq!(columns(&c, "t"), vec!["id".to_string(), "v".to_string()]);
    assert_eq!(create(&mut c, "CREATE TABLE t (id INT)").unwrap_err(), "Table 't' already exists");
    assert_eq!(
        create(&mut c, "CREATE TABLE IF NOT EXISTS t (id INT)").unwrap(),
        "Table 't' already exists, skipping."
    );
    assert_eq!(c.tables.get("t").unwrap().path, "/data/t");
}

#[test]
fn table_needs_a_column() {
    let mut c = Catalog::new();
    assert_eq!(
        create(&mut c, "CREATE TABLE t ()").unwrap_err(),
        "CREATE TABLE requires at least one column"
    );
    assert!(c.tables.is_empty());
}

#[test]
fn partitions_are_listed() {
    assert_eq!(partition_columns("(a, \"b\")"), vec!["a".to_string(), "b".to_string()]);
    assert_eq!(partition_columns("year"), vec!["year".to_string()]);
    assert!(partition_columns("()").is_empty());
}

#[test]
fn columns_are_altered_in_order() {
    let mut c = Catalog::new();
    create(&mut c, "CREATE TABLE t (id INT, v VARCHAR)").unwrap();
    assert_eq!(alter(&mut c, "ALTER TABLE t ADD COLUMN x INT").unwrap(), "Column 'x' added.");
    assert_eq!(
        alter(&mut c, "ALTER TABLE t ADD COLUMN x INT").unwrap_err(),
        "Column 'x' already exists in 't'"
    );
    assert_eq!(
        alter(&mut c, "ALTER TABLE t ADD COLUMN IF NOT EXISTS x INT").unwrap(),
        "Column 'x' already exists, skipping."
    );
    assert_eq!(
        alter(&mut c, "ALTER TABLE t RENAME COLUMN v TO w").unwrap(),
        "Column 'v' renamed to 'w'."
    );
    assert_eq!(alter(&mut c, "ALTER TABLE t DROP COLUMN id").unwrap(), "Column 'id' dropped.");
    assert_eq!(columns(&c, "t"), vec!["w".to_string(), "x".to_string()]);
    assert_eq!(
        alter(&mut c, "ALTER TABLE t DROP COLUMN gone").unwrap_err(),
        "Column 'gone' does not exist in 't'"
    );
    assert_eq!(
        alter(&mut c, "ALTER TABLE t DROP COLUMN IF EXISTS gone").unwrap(),
        "Column 'gone' does not exist, skipping."
    );
    assert_eq!(
        alter(&mut c, "ALTER TABLE t RENAME COLUMN gone TO x").unwrap_err(),
        "Column 'gone' does not exist in 't'"
    );
    assert!(alter(&mut c, "ALTER TABLE t ALTER COLUMN w SET NOT NULL")
        .unwrap_err()
        .starts_with("Unsupported ALTER TABLE operation: "));
}

#[test]
fn added_column_that_is_dropped_again() {
    let mut c = Catalog::new();
    create(&mut c, "CREATE TABLE t (id INT)").unwrap();
    alter(&mut c, "ALTER TABLE t ADD COLUMN x INT").unwrap();
    alter(&mut c, "ALTER TABLE t DROP COLUMN x").unwrap();
    assert_eq!(columns(&c, "t"), vec!["id".to_string()]);
}

#[test]
fn missing_table_is_not_altered() {
    let mut c = Catalog::new();
    assert_eq!(
        alter(&mut c, "ALTER TABLE gone ADD COLUMN x INT").unwrap_err(),
        "Table 'gone' does not exist"
    );
    assert!(alter(&mut c, "ALTER TABLE IF EXISTS gone ADD COLUMN x INT").is_ok());
}

#[test]
fn table_is_renamed_and_renamed_back() {
    let mut c = Catalog::new();
    create(&mut c, "CREATE TABLE a (id INT)").unwrap();
    index(&mut c, "CREATE INDEX i ON a (id)").unwrap();
    alter(&mut c, "ALTER TABLE a RENAME TO b").unwrap();
    assert!(c.tables.get("a").is_none());
    assert_eq!(c.tables.get("b").unwrap().name, "b");
    assert_eq!(c.indexes.get("i").unwrap().table_name, "b");
    alter(&mut c, "ALTER TABLE b RENAME TO a").unwrap();
    assert_eq!(c.tables.get("a").unwrap().name, "a");
    assert_eq!(c.indexes.get("i").unwrap().table_name, "a");
}

#[test]
fn retention_is_set_and_cleared() {
    let mut c = Catalog::new();
    create(&mut c, "CREATE TABLE t (id INT)").unwrap();
    c.handle_retention("t", Some(3600)).unwrap();
    assert_eq!(c.tables.get("t").unwrap().retention_seconds, Some(3600));
    c.handle_retention("t", None).unwrap();
    assert_eq!(c.tables.get("t").unwrap().retention_seconds, None);
    assert_eq!(c.handle_retention("gone", None).unwrap_err(), "Table 'gone' does not exist");
}

#[test]
fn table_is_dropped() {
    let mut c = Catalog::new();
    create(&mut c, "CREATE TABLE t (id INT)").unwrap();
    assert!(matches!(c.check_drop_table("t", false), Ok(Check::Go(_))));
    let (message, meta) = c.handle_drop_table("t").unwrap();
    assert_eq!(message, "Table 't' dropped.");
    assert_eq!(meta.name, "t");
    assert!(c.tables.is_empty());
    assert_eq!(c.check_drop_table("t", false).err().unwrap(), "Table 't' does not exist");
    assert!(matches!(c.check_drop_table("t", true), Ok(Check::Done(_))));
}

#[test]
fn newest_index_is_the_primary_one() {
    let mut c = Catalog::new();
    create(&mut c, "CREATE TABLE t (a INT, b INT)").unwrap();
    assert_eq!(
        index(&mut c, "CREATE INDEX i1 ON t (a)").unwrap(),
        "Index 'i1' created on 't' (a)."
    );
    index(&mut c, "CREATE INDEX i2 ON t (b DESC)").unwrap();
    assert!(!c.indexes.get("i1").unwrap().primary);
    assert!(c.indexes.get("i2").unwrap().primary);
    assert!(!c.indexes.get("i2").unwrap().columns[0].ascending);
    assert_eq!(c.compaction_select("t"), "SELECT * FROM \"t\" ORDER BY \"a\" ASC");
    c.handle_drop_index("i2").unwrap();
    assert!(c.indexes.get("i1").unwrap().primary);
}

#[test]
fn index_complaints() {
    let mut c = Catalog::new();
    assert_eq!(
        index(&mut c, "CREATE INDEX i ON gone (a)").unwrap_err(),
        "Table 'gone' does not exist"
    );
    create(&mut c, "CREATE TABLE t (a INT)").unwrap();
    assert_eq!(
        index(&mut c, "CREATE INDEX i ON t (x)").unwrap_err(),
        "Column 'x' does not exist in 't'"
    );
    assert_eq!(index(&mut c, "CREATE INDEX ON t (a)").unwrap_err(), "Index name is required");
    index(&mut c, "CREATE INDEX i ON t (a)").unwrap();
    assert_eq!(index(&mut c, "CREATE INDEX i ON t (a)").unwrap_err(), "Index 'i' already exists");
    assert_eq!(
        index(&mut c, "CREATE INDEX IF NOT EXISTS i ON t (a)").unwrap(),
        "Index 'i' already exists, skipping."
    );
    assert!(c.check_drop_index("gone", false).is_err());
    assert!(matches!(c.check_drop_index("gone", true), Ok(Check::Done(_))));
}

#[test]
fn sort_orders_begin_with_the_primary_index() {
    let mut c = Catalog::new();
    create(&mut c, "CREATE TABLE t (a INT, b INT)").unwrap();
    index(&mut c, "CREATE INDEX a1 ON t (a)").unwrap();
    index(&mut c, "CREATE INDEX z9 ON t (b)").unwrap();
    let orders = c.sort_orders("t");
    assert_eq!(orders[0].keys[0].column, "b");
    assert!(comes_before("a", "b") && !comes_before("b", "a"));
}

#[test]
fn sequence_is_created_and_drawn_from() {
    let mut c = Catalog::new();
    let h = parse_create_sequence("CREATE SEQUENCE s INCREMENT BY 5 START WITH 10").unwrap();
    assert!(matches!(c.check_create_sequence(&h.name, h.if_not_exists), Ok(Check::Go(_))));
    assert_eq!(c.handle_create_sequence(&h.name, &h.options).unwrap(), "Sequence 's' created.");
    assert_eq!(
        c.expand_nextval_calls("SELECT nextval('s'), nextval('s')").unwrap().unwrap(),
        "SELECT 10, 15"
    );
    assert_eq!(c.sequences.get("s").unwrap().current_value, 20);
    assert_eq!(
        c.check_create_sequence("s", false).err().unwrap(),
        "Sequence 's' already exists"
    );
    assert_eq!(c.handle_drop_sequence("s"), "Sequence 's' dropped.");
    assert!(c.expand_nextval_calls("SELECT nextval('s')").unwrap().is_err());
}

#[test]
fn sequence_options_are_numbers() {
    let mut c = Catalog::new();
    let options = vec![SequenceOption::StartWith("x".to_string())];
    assert_eq!(
        c.handle_create_sequence("s", &options).unwrap_err(),
        "Expected integer expression, got 'x'"
    );
    assert!(c.sequences.is_empty());
}

#[test]
fn draws_leave_other_sequences_alone() {
    let mut c = Catalog::new();
    for name in ["a", "b"] {
        c.handle_create_sequence(name, &vec![]).unwrap();
    }
    c.next_sequence_value("a").unwrap();
    assert_eq!(c.sequences.get("a").unwrap().current_value, 2);
    assert_eq!(c.sequences.get("b").unwrap().current_value, 1);
}

#[test]
fn views_are_created_replaced_and_dropped() {
    let mut c = Catalog::new();
    let v = parse_create_view("CREATE VIEW v AS SELECT 1").unwrap();
    assert_eq!(register_view(&v), "CREATE OR REPLACE VIEW \"v\" AS SELECT 1");
    assert!(matches!(c.check_create_view(&v), Ok(Check::Go(_))));
    c.handle_create_view(&v);
    assert_eq!(c.check_create_view(&v).err().unwrap(), "View 'v' already exists");
    let again = parse_create_view("CREATE OR REPLACE VIEW v AS SELECT 2").unwrap();
    assert!(matches!(c.check_create_view(&again), Ok(Check::Go(_))));
    c.handle_create_view(&again);
    assert_eq!(c.views.get("v").unwrap().sql, "SELECT 2");
    let (_, backing) = c.handle_drop_view("v");
    assert_eq!(backing, None);
    assert!(c.check_drop_view("v", false).is_err());
}

#[test]
fn materialized_view_stands_on_its_table() {
    let mut c = Catalog::new();
    let v = parse_create_view("CREATE MATERIALIZED VIEW m AS SELECT 1").unwrap();
    assert_eq!(
        register_view(&v),
        "CREATE OR REPLACE VIEW \"m\" AS SELECT * FROM \"__mv_m\""
    );
    c.handle_create_view(&v);
    let plan = c.plan_refresh("m").unwrap();
    assert_eq!(plan.backing, "__mv_m");
    assert_eq!(plan.source, "SELECT * FROM (SELECT 1) t");
    assert!(c.plan_refresh("gone").is_err());
    let (_, backing) = c.handle_drop_view("m");
    assert_eq!(backing, Some("__mv_m".to_string()));
}

#[test]
fn migrations_run_once_in_order() {
    let mut c = Catalog::new();
    c.handle_create_migration("CREATE MIGRATION 2 second AS $$ SELECT 2 $$").unwrap().unwrap();
    c.handle_create_migration("CREATE MIGRATION 1 first AS $$ SELECT 1 $$").unwrap().unwrap();
    let pending: Vec<u64> = c.pending_migrations(None).iter().map(|m| m.version).collect();
    assert_eq!(pending, vec![1, 2]);
    let upto: Vec<u64> = c.pending_migrations(Some(1)).iter().map(|m| m.version).collect();
    assert_eq!(upto, vec![1]);
    c.record_migration(1, 5);
    c.record_migration(2, 6);
    assert_eq!(c.schema_version, 2);
    assert!(c.pending_migrations(None).is_empty());
    assert!(c.has_migration(2) && !c.has_migration(3));
    assert!(c
        .handle_create_migration("CREATE MIGRATION 2 again AS $$ SELECT 2 $$")
        .unwrap()
        .is_err());
}

#[test]
fn migrations_are_read() {
    let m = parse_create_migration("CREATE MIGRATION 7 add users AS $$ CREATE TABLE u (id INT); $$;")
        .unwrap()
        .ok()
        .unwrap();
    assert_eq!((m.version, m.description.as_str()), (7, "add users"));
    assert_eq!(m.sql, "CREATE TABLE u (id INT);");
    let complaint = |sql: &str| parse_create_migration(sql).unwrap().err().unwrap();
    assert_eq!(
        complaint("CREATE MIGRATION x y"),
        "CREATE MIGRATION version must be a non-negative integer"
    );
    assert_eq!(
        complaint("CREATE MIGRATION 1"),
        "CREATE MIGRATION requires description and AS $$ sql $$"
    );
    assert_eq!(complaint("CREATE MIGRATION 1 d"), "CREATE MIGRATION requires AS $$ ... $$");
    assert_eq!(
        complaint("CREATE MIGRATION 1 d AS $$ x"),
        "CREATE MIGRATION requires closing $$"
    );
    assert_eq!(parse_migrate("MIGRATE").unwrap().unwrap(), None);
    assert_eq!(parse_migrate("MIGRATE TO 4").unwrap().unwrap(), Some(4));
    assert_eq!(migrate_message(2, 4), "Applied 2 migration(s). Schema version: 4.");
}

#[test]
fn catalog_lists_are_sorted() {
    let mut c = Catalog::new();
    for name in ["b", "a"] {
        c.add_table(TableMeta {
            name: name.to_string(),
            columns: vec![ColumnDef {
                name: "x".to_string(),
                data_type: "INT".to_string(),
                nullable: true,
            }],
            path: String::new(),
            partition_columns: vec![],
            statistics: None,
            retention_seconds: None,
            constraints: vec![],
            file_stats: vec![],
            deletion_vectors: vec![],
        });
    }
    let mut names = c.table_names();
    names.sort();
    assert_eq!(names, vec!["a".to_string(), "b".to_string()]);
    assert!(c.table_columns("gone").is_empty());
    assert_eq!(c.deletion_vector_count("a"), 0);
}

#[test]
fn small_statements_of_definitions() {
    let mut c = Catalog::new();
    create(&mut c, "CREATE TABLE t (a INT, b INT)").unwrap();
    let (sql, message) = c.plan_truncate("t").unwrap();
    assert_eq!(sql, "TRUNCATE TABLE \"t\"");
    assert_eq!(message, "Table 't' truncated.");
    assert_eq!(c.plan_truncate("gone").unwrap_err(), "Table 'gone' does not exist");
    assert_eq!(fill_statement("t"), "INSERT INTO \"t\" SELECT * FROM __potato_ctas_tmp");
    let h = parse_create_index("CREATE INDEX i ON t (a DESC, b)").unwrap();
    assert_eq!(index_select(&h), "SELECT * FROM \"t\" ORDER BY \"a\" DESC, \"b\" ASC");
    assert_eq!(index_refill("t"), "INSERT INTO \"t\" SELECT * FROM __potato_idx_tmp");
    assert_eq!(c.check_drop_sequence("s", false).err().unwrap(), "Sequence 's' does not exist");
    assert!(matches!(c.check_drop_sequence("s", true), Ok(Check::Done(_))));
    let places = find_partition_columns(&c.tables.get("t").unwrap().columns, &vec!["b".to_string()]);
    assert_eq!(places, vec![1]);
    let v = parse_create_view("CREATE MATERIALIZED VIEW m AS SELECT 1").unwrap();
    assert!(!c.stale_backing_table(&v));
    create(&mut c, "CREATE TABLE __mv_m (a INT)").unwrap();
    assert!(c.stale_backing_table(&v));
    let plain = parse_create_view("CREATE VIEW w AS SELECT 2").unwrap();
    c.handle_create_view(&plain);
    assert_eq!(
        view_statement(c.views.get("w").unwrap()),
        "CREATE OR REPLACE VIEW \"w\" AS SELECT 2"
    );
}

#[test]
fn columns_of_a_query_become_columns_of_a_table() {
    let columns = columns_of_query(&vec![
        FieldInfo { name: "a".to_string(), data_type: ArrowType::Int64, nullable: false },
        FieldInfo { name: "b".to_string(), data_type: ArrowType::Utf8, nullable: true },
    ]);
    assert_eq!(columns[0].data_type, "BIGINT");
    assert!(!columns[0].nullable);
    assert_eq!(columns[1].data_type, "VARCHAR");
    assert!(matches!(columns_to_schema(&columns).unwrap()[0], ArrowType::Int64));
    let bad = vec![ColumnDef {
        name: "x".to_string(),
        data_type: "POINT".to_string(),
        nullable: true,
    }];
    assert!(columns_to_schema(&bad).err().unwrap().starts_with("Unsupported SQL type"));
}
