//! Transactions and savepoints.
use potatodb::buffers::flush_message;
use potatodb::catalog::Catalog;
use potatodb::catalog_types::{ColumnDef, TableMeta};
use potatodb::namemap::NameMap;
use potatodb::transaction::{
    commit_message, rollback_message, rollback_to_message, FileList, RollbackPlan,
    TransactionState,
};

fn table(name: &str) -> TableMeta {
    TableMeta {
        name: name.to_string(),
        columns: vec![ColumnDef {
            name: "id".to_string(),
            data_type: "INT".to_string(),
            nullable: true,
        }],
        path: format!("/data/{name}"),
        partition_columns: vec![],
        statistics: None,
        retention_seconds: None,
        constraints: vec![],
        file_stats: vec![],
        deletion_vectors: vec![],
    }
}

fn files(entries: &[(&str, &[&str])]) -> NameMap<FileList> {
    let mut m = NameMap::new();
    for (table, names) in entries {
        m.insert(
            table.to_string(),
            FileList { files: names.iter().map(|n| n.to_string()).collect() },
        );
    }
    m
}

#[test]
fn commit_hands_the_catalog_out() {
    let mut c = Catalog::new();
    let mut t = TransactionState::new();
    assert_eq!(t.begin(&mut c, files(&[])).unwrap(), "BEGIN");
    assert!(t.in_transaction() && c.in_transaction());
    c.add_table(table("a"));
    assert!(c.flush_if_dirty().is_none());
    let plan = t.commit(&mut c).ok().unwrap();
    assert_eq!(plan.data.tables.len(), 1);
    assert!(!t.in_transaction() && !c.in_transaction());
}

#[test]
fn rollback_restores_the_catalog_and_deletes_new_files() {
    let mut c = Catalog::new();
    c.add_table(table("a"));
    let mut t = TransactionState::new();
    t.begin(&mut c, files(&[("a", &["1.parquet"])])).unwrap();
    c.add_table(table("b"));
    let now = files(&[("a", &["1.parquet", "2.parquet"]), ("b", &["3.parquet"])]);
    let (plan, data) = t.rollback(&mut c, &now).ok().unwrap();
    assert_eq!(c.tables.key_list(), vec!["a".to_string()]);
    assert_eq!(data.tables.key_list(), vec!["a".to_string()]);
    assert_eq!(plan.delete_files, vec!["2.parquet".to_string()]);
    let dropped: Vec<&str> = plan.drop_tables.iter().map(|m| m.name.as_str()).collect();
    assert_eq!(dropped, vec!["b"]);
    assert!(!c.in_transaction());
}

#[test]
fn transactions_do_not_nest() {
    let mut c = Catalog::new();
    let mut t = TransactionState::new();
    assert_eq!(t.commit(&mut c).err().unwrap(), "No active transaction to COMMIT");
    assert_eq!(
        t.rollback(&mut c, &files(&[])).err().unwrap(),
        "No active transaction to ROLLBACK"
    );
    t.begin(&mut c, files(&[])).unwrap();
    assert_eq!(
        t.begin(&mut c, files(&[])).unwrap_err(),
        "Already inside a transaction (nested BEGIN not supported)"
    );
}

#[test]
fn savepoints_need_a_transaction() {
    let mut c = Catalog::new();
    let mut t = TransactionState::new();
    assert_eq!(
        t.savepoint(&c, "s", files(&[])).unwrap_err(),
        "SAVEPOINT requires an active transaction"
    );
    assert_eq!(
        t.rollback_to(&mut c, "s", &files(&[])).err().unwrap(),
        "ROLLBACK TO SAVEPOINT requires an active transaction"
    );
    assert_eq!(
        t.release_savepoint(&c, "s").unwrap_err(),
        "RELEASE SAVEPOINT requires an active transaction"
    );
    t.begin(&mut c, files(&[])).unwrap();
    assert_eq!(
        t.rollback_to(&mut c, "s", &files(&[])).err().unwrap(),
        "Savepoint 's' does not exist"
    );
    assert_eq!(t.release_savepoint(&c, "s").unwrap_err(), "Savepoint 's' does not exist");
}

#[test]
fn savepoint_is_a_place_to_go_back_to() {
    let mut c = Catalog::new();
    let mut t = TransactionState::new();
    t.begin(&mut c, files(&[])).unwrap();
    c.add_table(table("a"));
    assert_eq!(t.savepoint(&c, "s", files(&[("a", &[])])).unwrap(), "SAVEPOINT s");
    c.add_table(table("b"));
    assert!(t.rollback_to(&mut c, "s", &files(&[("a", &[]), ("b", &[])])).is_ok());
    assert_eq!(c.tables.key_list(), vec!["a".to_string()]);
    c.add_table(table("d"));
    assert!(t.rollback_to(&mut c, "s", &files(&[("a", &[]), ("d", &[])])).is_ok());
    assert_eq!(c.tables.key_list(), vec!["a".to_string()]);
    assert!(t.rollback(&mut c, &files(&[("a", &[])])).is_ok());
    assert!(c.tables.is_empty());
}

#[test]
fn released_savepoint_takes_later_ones_with_it() {
    let mut c = Catalog::new();
    let mut t = TransactionState::new();
    t.begin(&mut c, files(&[])).unwrap();
    t.savepoint(&c, "one", files(&[])).unwrap();
    t.savepoint(&c, "two", files(&[])).unwrap();
    assert_eq!(t.release_savepoint(&c, "one").unwrap(), "RELEASE SAVEPOINT one");
    assert!(t.release_savepoint(&c, "two").is_err());
    assert!(t.in_transaction());
}

#[test]
fn transaction_ids_differ() {
    let mut c = Catalog::new();
    let mut t = TransactionState::new();
    t.begin(&mut c, files(&[])).unwrap();
    let first = t.commit(&mut c).ok().unwrap().wal_txn_id;
    t.begin(&mut c, files(&[])).unwrap();
    let second = t.commit(&mut c).ok().unwrap().wal_txn_id;
    assert_ne!(first, second);
}

#[test]
fn dropped_files_wait_for_the_commit() {
    let mut c = Catalog::new();
    let mut t = TransactionState::new();
    assert!(t.defer_delete(&c, table("x")).is_some());
    t.begin(&mut c, files(&[])).unwrap();
    assert!(t.defer_delete(&c, table("x")).is_none());
    let plan = t.commit(&mut c).ok().unwrap();
    assert_eq!(plan.drop_tables[0].name, "x");
}

#[test]
fn tables_are_backed_up_once() {
    let mut c = Catalog::new();
    let mut t = TransactionState::new();
    c.add_table(table("a"));
    assert!(!t.wants_backup(&c, "a"));
    assert_eq!(t.note_backup(&c, "a"), None);
    t.begin(&mut c, files(&[("a", &[])])).unwrap();
    let id = t.current_wal_txn_id();
    assert!(t.wants_backup(&c, "a"));
    assert_eq!(t.note_backup(&c, "a"), Some(0));
    assert!(!t.wants_backup(&c, "a"));
    assert_eq!(t.note_backup(&c, "a"), None);
    let (plan, _) = t.rollback(&mut c, &files(&[("a", &[])])).ok().unwrap();
    assert_eq!(restores(&plan), vec![("a".to_string(), 0)]);
    assert_eq!(plan.wal_txn_id, id);
}

fn restores(plan: &RollbackPlan) -> Vec<(String, usize)> {
    plan.restore_backups.iter().map(|b| (b.table.clone(), b.index)).collect()
}

#[test]
fn savepoints_have_backups_of_their_own() {
    let mut c = Catalog::new();
    let mut t = TransactionState::new();
    for name in ["a", "b", "d"] {
        c.add_table(table(name));
    }
    let now = files(&[("a", &[]), ("b", &[]), ("d", &[])]);
    t.begin(&mut c, files(&[("a", &[]), ("b", &[]), ("d", &[])])).unwrap();
    assert_eq!(t.note_backup(&c, "a"), Some(0));
    t.savepoint(&c, "one", files(&[("a", &[]), ("b", &[]), ("d", &[])])).unwrap();
    // Rewritten behind the savepoint too, so the rows it had there are kept as well.
    assert_eq!(t.note_backup(&c, "a"), Some(1));
    assert_eq!(t.note_backup(&c, "b"), Some(2));
    assert_eq!(t.note_backup(&c, "a"), None);
    t.savepoint(&c, "two", files(&[("a", &[]), ("b", &[]), ("d", &[])])).unwrap();
    assert_eq!(t.note_backup(&c, "b"), Some(3));
    let two = t.rollback_to(&mut c, "two", &now).ok().unwrap();
    assert_eq!(restores(&two), vec![("b".to_string(), 3)]);
    let one = t.rollback_to(&mut c, "one", &now).ok().unwrap();
    assert_eq!(restores(&one), vec![("a".to_string(), 1), ("b".to_string(), 2)]);
    // The backups of the savepoint stay good after a return to it.
    assert_eq!(t.note_backup(&c, "b"), None);
    assert_eq!(t.note_backup(&c, "d"), Some(4));
    t.release_savepoint(&c, "one").unwrap();
    assert_eq!(t.note_backup(&c, "d"), None);
    let (all, _) = t.rollback(&mut c, &now).ok().unwrap();
    assert_eq!(
        restores(&all),
        vec![("a".to_string(), 0), ("b".to_string(), 2), ("d".to_string(), 4)]
    );
}

#[test]
fn tables_that_are_gone_are_not_restored() {
    let mut c = Catalog::new();
    let mut t = TransactionState::new();
    t.begin(&mut c, files(&[])).unwrap();
    c.add_table(table("a"));
    assert_eq!(t.note_backup(&c, "a"), Some(0));
    let (plan, _) = t.rollback(&mut c, &files(&[("a", &[])])).ok().unwrap();
    assert!(plan.restore_backups.is_empty());
}

#[test]
fn ends_of_transactions_are_answered() {
    assert_eq!(commit_message(), "COMMIT");
    assert_eq!(rollback_message(), "ROLLBACK");
    assert_eq!(rollback_to_message("s1"), "ROLLBACK TO SAVEPOINT s1");
    assert_eq!(flush_message(12), "12 row(s) flushed.");
}
