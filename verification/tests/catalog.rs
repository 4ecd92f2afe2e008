//! The catalog: entries, snapshots, saving and loading.
use potatodb::catalog::{Catalog, CatalogFile};
use potatodb::catalog_types::{
    ColumnDef, FileStats, IndexColumn, IndexDef, SequenceDef, TableMeta, TableStatistics, UdfDef,
    ViewDef,
};
use potatodb::namemap::NameMap;

fn test_catalog() -> Catalog {
    Catalog::load(CatalogFile::Missing)
}

fn sample_table(name: &str) -> TableMeta {
    TableMeta {
        name: name.to_string(),
        columns: vec![
            ColumnDef { name: "id".to_string(), data_type: "INT".to_string(), nullable: false },
            ColumnDef { name: "val".to_string(), data_type: "VARCHAR".to_string(), nullable: true },
        ],
        path: format!("/tmp/{name}"),
        partition_columns: vec![],
        statistics: None,
        retention_seconds: None,
        constraints: vec![],
        file_stats: vec![],
        deletion_vectors: vec![],
    }
}

fn index(name: &str, table: &str, column: &str, ascending: bool, primary: bool) -> IndexDef {
    IndexDef {
        name: name.to_string(),
        table_name: table.to_string(),
        columns: vec![IndexColumn { name: column.to_string(), ascending }],
        logical_only: !primary,
        primary,
    }
}

fn sequence(name: &str, max_value: Option<i64>) -> SequenceDef {
    SequenceDef { name: name.to_string(), current_value: 1, increment: 1, min_value: None, max_value }
}

#[test]
fn test_empty_catalog_load() {
    let catalog = test_catalog();
    assert!(catalog.tables.is_empty());
    assert!(catalog.indexes.is_empty());
    assert!(catalog.views.is_empty());
    assert!(catalog.sequences.is_empty());
    assert!(catalog.udfs.is_empty());
    assert!(!catalog.in_transaction());
}

#[test]
fn test_add_and_remove_table() {
    let mut catalog = test_catalog();
    catalog.add_table(sample_table("users"));
    assert_eq!(catalog.tables.len(), 1);
    assert!(catalog.tables.contains_key("users"));

    let removed = catalog.remove_table("users");
    assert!(removed.is_some());
    assert!(catalog.tables.is_empty());

    let removed_again = catalog.remove_table("users");
    assert!(removed_again.is_none());
}

#[test]
fn test_add_and_remove_index() {
    let mut catalog = test_catalog();
    catalog.add_table(sample_table("events"));
    catalog.add_index(index("idx_events_id", "events", "id", true, true));

    assert_eq!(catalog.indexes.len(), 1);
    assert_eq!(catalog.indexes_for_table("events").len(), 1);
    assert!(catalog.indexes_for_table("other").is_empty());

    let removed = catalog.remove_index("idx_events_id");
    assert!(removed.is_some());
    assert!(catalog.indexes.is_empty());
}

#[test]
fn test_remove_table_cascades_indexes() {
    let mut catalog = test_catalog();
    catalog.add_table(sample_table("t"));
    catalog.add_index(index("idx1", "t", "id", true, true));
    catalog.add_index(index("idx2", "t", "val", false, false));
    assert_eq!(catalog.indexes.len(), 2);

    catalog.remove_table("t");
    assert!(catalog.indexes.is_empty(), "indexes should be removed with table");
}

#[test]
fn test_add_and_remove_view() {
    let mut catalog = test_catalog();
    catalog.add_view(ViewDef {
        name: "v1".to_string(),
        sql: "SELECT 1".to_string(),
        materialized: false,
        backing_table: None,
    });
    assert_eq!(catalog.views.len(), 1);

    let removed = catalog.remove_view("v1");
    assert!(removed.is_some());
    assert!(catalog.views.is_empty());
}

#[test]
fn test_add_and_remove_sequence() {
    let mut catalog = test_catalog();
    catalog.add_sequence(sequence("seq1", None));
    assert_eq!(catalog.sequences.len(), 1);

    let removed = catalog.remove_sequence("seq1");
    assert!(removed.is_some());
    assert!(catalog.sequences.is_empty());
}

#[test]
fn test_next_sequence_value() {
    let mut catalog = test_catalog();
    catalog.add_sequence(sequence("counter", None));
    assert_eq!(catalog.next_sequence_value("counter").unwrap(), 1);
    assert_eq!(catalog.next_sequence_value("counter").unwrap(), 2);
    assert_eq!(catalog.next_sequence_value("counter").unwrap(), 3);
}

#[test]
fn test_sequence_max_bound() {
    let mut catalog = test_catalog();
    catalog.add_sequence(sequence("bounded", Some(2)));
    assert_eq!(catalog.next_sequence_value("bounded").unwrap(), 1);
    assert!(catalog.next_sequence_value("bounded").is_err(), "should fail at max boundary");
}

#[test]
fn test_sequence_not_found() {
    let mut catalog = test_catalog();
    assert!(catalog.next_sequence_value("nope").is_err());
}

#[test]
fn test_snapshot_and_restore() {
    let mut catalog = test_catalog();
    catalog.add_table(sample_table("t"));
    let snap = catalog.snapshot();

    catalog.add_table(sample_table("t2"));
    assert_eq!(catalog.tables.len(), 2);

    catalog.restore(snap);
    assert_eq!(catalog.tables.len(), 1);
    assert!(catalog.tables.contains_key("t"));
    assert!(!catalog.tables.contains_key("t2"));
}

#[test]
fn test_transaction_mode_defers_save() {
    let mut catalog = test_catalog();
    catalog.set_in_transaction(true);
    assert!(catalog.in_transaction());

    catalog.add_table(sample_table("t"));
    assert!(catalog.flush_if_dirty().is_none(), "save should be deferred in transaction mode");

    let written = catalog.force_save();
    let catalog3 = Catalog::load(CatalogFile::Full(written));
    assert_eq!(catalog3.tables.len(), 1, "force_save should persist");
}

#[test]
fn test_persistence_round_trip() {
    let mut catalog = test_catalog();
    catalog.add_table(sample_table("users"));
    catalog.add_index(index("idx", "users", "id", true, true));
    catalog.add_view(ViewDef {
        name: "v".to_string(),
        sql: "SELECT * FROM users".to_string(),
        materialized: false,
        backing_table: None,
    });
    catalog.add_sequence(SequenceDef {
        name: "s".to_string(),
        current_value: 5,
        increment: 1,
        min_value: None,
        max_value: None,
    });
    let written = catalog.flush_if_dirty().unwrap();

    let catalog = Catalog::load(CatalogFile::Full(written));
    assert_eq!(catalog.tables.len(), 1);
    assert_eq!(catalog.indexes.len(), 1);
    assert_eq!(catalog.views.len(), 1);
    assert_eq!(catalog.sequences.len(), 1);
    assert_eq!(catalog.sequences.get("s").unwrap().current_value, 5);
}

#[test]
fn test_set_statistics() {
    let mut catalog = test_catalog();
    catalog.add_table(sample_table("t"));
    catalog.set_statistics("t", TableStatistics { row_count: 100, columns: NameMap::new() });
    let stats = catalog.tables.get("t").unwrap().statistics.as_ref().unwrap();
    assert_eq!(stats.row_count, 100);
}

#[test]
fn test_set_file_stats() {
    let mut catalog = test_catalog();
    catalog.add_table(sample_table("t"));
    catalog.set_file_stats(
        "t",
        vec![FileStats {
            path: "data.parquet".to_string(),
            row_count: Some(50),
            min_values: NameMap::new(),
            max_values: NameMap::new(),
            size_bytes: 1024,
            created_at: None,
        }],
    );
    assert_eq!(catalog.tables.get("t").unwrap().file_stats.len(), 1);
    assert_eq!(catalog.tables.get("t").unwrap().file_stats[0].size_bytes, 1024);
}

#[test]
fn statistics_of_a_missing_table_change_nothing() {
    let mut catalog = test_catalog();
    catalog.set_statistics("t", TableStatistics { row_count: 1, columns: NameMap::new() });
    catalog.set_file_stats("t", vec![]);
    assert!(catalog.tables.is_empty());
    assert!(catalog.flush_if_dirty().is_none());
}

#[test]
fn catalog_is_handed_out_once() {
    let mut catalog = test_catalog();
    assert!(catalog.flush_if_dirty().is_none());
    catalog.add_table(sample_table("t"));
    assert!(catalog.flush_if_dirty().is_some());
    assert!(catalog.flush_if_dirty().is_none());
    catalog.save();
    assert!(catalog.flush_if_dirty().is_some());
}

#[test]
fn first_layout_holds_tables_alone() {
    let mut tables = NameMap::new();
    tables.insert("old".to_string(), sample_table("old"));
    let catalog = Catalog::load(CatalogFile::TablesOnly(tables));
    assert_eq!(catalog.tables.len(), 1);
    assert!(catalog.indexes.is_empty());
    assert_eq!(catalog.schema_version, 0);
}

#[test]
fn added_table_is_found_beside_the_others() {
    let mut catalog = test_catalog();
    catalog.add_table(sample_table("a"));
    catalog.add_table(sample_table("b"));
    assert_eq!(catalog.tables.get("a").unwrap().path, "/tmp/a");
    assert_eq!(catalog.tables.get("b").unwrap().path, "/tmp/b");
    catalog.remove_table("b");
    assert_eq!(catalog.tables.key_list(), vec!["a".to_string()]);
}

#[test]
fn removing_a_table_keeps_other_indexes() {
    let mut catalog = test_catalog();
    catalog.add_table(sample_table("a"));
    catalog.add_table(sample_table("b"));
    catalog.add_index(index("ia", "a", "id", true, true));
    catalog.add_index(index("ib", "b", "id", true, true));
    let removed = catalog.remove_table("a").unwrap();
    assert_eq!(removed.name, "a");
    assert!(!catalog.indexes.contains_key("ia"));
    assert!(catalog.indexes.contains_key("ib"));
    assert_eq!(catalog.indexes_for_table("b")[0].name, "ib");
}

#[test]
fn functions_come_and_go() {
    let mut catalog = test_catalog();
    catalog.add_udf(UdfDef {
        name: "f".to_string(),
        args: vec!["x".to_string()],
        return_type: "INT".to_string(),
        body: "x + 1".to_string(),
    });
    assert_eq!(catalog.udfs.len(), 1);
    assert_eq!(catalog.remove_udf("f").unwrap().body, "x + 1");
    assert!(catalog.remove_udf("f").is_none());
}

#[test]
fn sequence_complaints() {
    let mut catalog = test_catalog();
    catalog.add_sequence(SequenceDef {
        name: "down".to_string(),
        current_value: 0,
        increment: -1,
        min_value: Some(0),
        max_value: None,
    });
    catalog.add_sequence(sequence("up", Some(1)));
    assert_eq!(
        catalog.next_sequence_value("down").unwrap_err(),
        "Sequence 'down' reached minimum value"
    );
    assert_eq!(
        catalog.next_sequence_value("up").unwrap_err(),
        "Sequence 'up' reached maximum value"
    );
    assert_eq!(
        catalog.next_sequence_value("gone").unwrap_err(),
        "Sequence 'gone' does not exist"
    );
}

#[test]
fn sequence_saturates_at_the_end_of_its_range() {
    let mut catalog = test_catalog();
    catalog.add_sequence(SequenceDef {
        name: "s".to_string(),
        current_value: i64::MAX - 1,
        increment: 10,
        min_value: None,
        max_value: None,
    });
    assert_eq!(catalog.next_sequence_value("s").unwrap(), i64::MAX - 1);
    assert_eq!(catalog.next_sequence_value("s").unwrap(), i64::MAX);
    assert_eq!(catalog.next_sequence_value("s").unwrap(), i64::MAX);
}
