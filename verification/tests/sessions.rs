//! What a database remembers between statements, and how statements run through it.
use potatodb::catalog::{Catalog, CatalogFile};
use potatodb::catalog_types::{ColumnDef, ColumnStatistics, TableMeta};
use potatodb::cells::{Cell, Row};
use potatodb::dispatch::CommandKind;
use potatodb::engine::{ExecutePlan, PotatoDB};
use potatodb::fulltext::FulltextIndexDef;
use potatodb::history::{
    change_event, change_line, read_changes, CdcEvent, CdcLog, LogAction, LogClock, QueryLog,
};
use potatodb::introspection::PgAnswer;
use potatodb::location::locate;
use potatodb::maintenance::{
    after_write, column_stats_sql, count_rows_sql, is_expired, should_compact,
    vacuum_analyze_message, vacuum_message, AfterWrite, AutoAnalyze,
};
use potatodb::session::{
    call_message, do_message, execute_readonly, goes_on, plan_stream, Notifications, PlanCache,
    PreparedStatements, Procedures, Replicas,
};
use potatodb::settings::{engine_settings, EngineVars};
use potatodb::snapshots::{as_of_table, rewrite_as_of, KeptTable, Snapshots};
use potatodb::statement::StatementKind;
use std::time::Duration;

fn names(list: &[&str]) -> Vec<String> {
    list.iter().map(|s| s.to_string()).collect()
}

fn table(name: &str) -> TableMeta {
    TableMeta {
        name: name.to_string(),
        columns: vec![ColumnDef {
            name: "id".to_string(),
            data_type: "INT".to_string(),
            nullable: true,
        }],
        path: String::new(),
        partition_columns: vec![],
        statistics: None,
        retention_seconds: None,
        constraints: vec![],
        file_stats: vec![],
        deletion_vectors: vec![],
    }
}

fn database() -> PotatoDB {
    let vars = EngineVars {
        slow_query_ms: None,
        query_log_max: Some("2".to_string()),
        wal_checkpoint_bytes: None,
        wal_checkpoint_commits: None,
        wal_checkpoint_ms: None,
        write_buffer_rows: None,
        write_buffer_bytes: None,
        write_buffer_ms: None,
        auto_analyze_rows: None,
        cdc_capacity: None,
        user: None,
        snapshot_retention_ms: None,
    };
    let catalog = Catalog::load(CatalogFile::Missing);
    PotatoDB::new(
        locate(":memory:").unwrap(),
        catalog,
        &engine_settings(&vars),
        "root".to_string(),
        &vec![],
        false,
    )
}

#[test]
fn engines_start_empty() {
    let db = database();
    assert!(db.prepared.templates.is_empty() && db.procedures.bodies.is_empty());
    assert!(db.fulltext.defs.is_empty() && db.fulltext.indexes.is_empty());
    assert!(db.notifications.queues.is_empty() && db.auto_analyze.rows.is_empty());
    assert_eq!(db.cdc.capacity, 2000);
    assert_eq!(db.last_query_metrics.parquet_files_read, 0);
    assert_eq!(db.last_query_metrics.bytes_scanned, 0);
}

#[test]
fn messages_stay_in_order() {
    let mut n = Notifications::new();
    n.handle_listen("LISTEN news").unwrap();
    assert_eq!(
        n.handle_notify("NOTIFY news, 'one'").unwrap(),
        "NOTIFY sent on 'news' (payload 3 byte(s))."
    );
    n.handle_notify("NOTIFY news, 'two'").unwrap();
    assert_eq!(n.queues.get("news").unwrap().messages, names(&["one", "two"]));
}

#[test]
fn procedures_are_called() {
    let mut p = Procedures::new();
    p.handle_create_procedure("CREATE PROCEDURE up AS $$ SELECT 1; SELECT 2; $$").unwrap().unwrap();
    let call = p.handle_call_procedure("CALL up()").ok().unwrap();
    assert_eq!(call.statements, names(&["SELECT 1;", "SELECT 2;"]));
    assert_eq!(
        p.handle_call_procedure("CALL down()").err().unwrap(),
        "Procedure 'down' does not exist"
    );
    assert_eq!(call_message("up"), "CALL 'up' completed.");
    assert_eq!(do_message(), "DO block completed.");
}

#[test]
fn replicas_come_and_go() {
    let mut r = Replicas::new();
    assert_eq!(
        r.handle_add_replica("ADD REPLICA 's3://a'").unwrap().unwrap(),
        "Replica 's3://a' added."
    );
    r.handle_add_replica("ADD REPLICA 's3://b'").unwrap().unwrap();
    assert_eq!(r.replica_urls(), names(&["s3://a", "s3://b"]));
    r.handle_remove_replica("REMOVE REPLICA 's3://a'").unwrap().unwrap();
    assert_eq!(r.replica_urls(), names(&["s3://b"]));
}

#[test]
fn plans_are_kept_and_dropped() {
    let mut p = PlanCache::new();
    assert!(!p.has_plan("SELECT * FROM users"));
    p.keep_plan("SELECT * FROM users");
    p.keep_plan("SELECT * FROM orders");
    p.plan_used();
    assert!(p.has_plan("SELECT * FROM users"));
    assert_eq!(p.plan_cache_stats(), (2, 1));
    p.evict_plan_cache(&Some("users".to_string()));
    assert!(!p.has_plan("SELECT * FROM users"));
    assert!(p.has_plan("SELECT * FROM orders"));
    p.drop_plan("SELECT * FROM orders");
    p.keep_plan("SELECT 1");
    p.evict_plan_cache(&None);
    assert_eq!(p.plan_cache_stats().0, 0);
}

#[test]
fn prepared_statement_runs_with_its_parameters() {
    let mut plans = PlanCache::new();
    let mut p = PreparedStatements::new();
    assert_eq!(
        p.handle_prepare(&mut plans, "q", "SELECT * FROM t WHERE id = $1", true),
        "Statement 'q' prepared."
    );
    let run = p.handle_execute_prepared("q", &names(&["7"]), false).ok().unwrap();
    assert_eq!(run.sql, "SELECT * FROM t WHERE id = 7");
    assert_eq!(
        p.handle_execute_prepared("gone", &vec![], false).err().unwrap(),
        "Prepared statement 'gone' does not exist"
    );
}

#[test]
fn readonly_statements() {
    assert!(execute_readonly("SELECT 1").is_ok());
    assert_eq!(
        execute_readonly("DELETE FROM t").unwrap_err(),
        "execute_readonly rejects mutating SQL"
    );
    assert!(plan_stream("SELECT 1").direct);
    assert!(!plan_stream("INSERT INTO t VALUES (1)").direct);
}

#[test]
fn query_log_forgets_the_oldest() {
    let mut log = QueryLog::new(2, 100);
    assert!(!log.finalize_query("a", Duration::from_millis(1), 0));
    assert!(log.finalize_query("b", Duration::from_millis(100), 1));
    log.finalize_query("c", Duration::from_millis(1), 2);
    let kept: Vec<String> = log.recent_queries().iter().map(|e| e.sql.clone()).collect();
    assert_eq!(kept, names(&["b", "c"]));
}

#[test]
fn changes_are_kept_up_to_a_number() {
    let mut log = CdcLog::new(2);
    for (i, t) in ["a", "b", "a"].iter().enumerate() {
        log.record_cdc_event(t, "INSERT", i as i64, 1);
    }
    assert_eq!(log.handle_select_cdc(&None).len(), 2);
    let of_a = log.handle_select_cdc(&Some("a".to_string()));
    assert_eq!(of_a.len(), 1);
    assert_eq!(of_a[0].timestamp_ms, 2);
    let again = CdcLog::load(
        1,
        &vec![
            CdcEvent { table: "x".to_string(), op: "INSERT".to_string(), timestamp_ms: 1, rows: 1 },
            CdcEvent { table: "y".to_string(), op: "DELETE".to_string(), timestamp_ms: 2, rows: 1 },
        ],
    );
    assert_eq!(again.handle_select_cdc(&None)[0].table, "y");
}

fn fields(e: &CdcEvent) -> (&str, &str, i64, usize) {
    (&e.table, &e.op, e.timestamp_ms, e.rows)
}

#[test]
fn written_changes_are_read_back() {
    let first = change_line("t", "INSERT", 17, 3);
    let second = change_line("a \"b\"\nc", "DELETE", -5, 0);
    assert!(first.contains("\"table\":\"t\"") && first.contains("\"rows\":3"));
    assert!(!second.contains('\n'));
    let events = read_changes(&format!("{first}\n{second}\n"));
    assert_eq!(events.len(), 2);
    assert_eq!(fields(&events[0]), ("t", "INSERT", 17, 3));
    assert_eq!(fields(&events[1]), ("a \"b\"\nc", "DELETE", -5, 0));
}

#[test]
fn lines_that_are_no_changes_are_left_out() {
    let log = "{\"table\":\"t\",\"op\":\"INSERT\",\"timestamp_ms\":1,\"rows\":2}\r\nno JSON\n\n{}\n7\n{\"rows\":9}";
    let events = read_changes(log);
    assert_eq!(events.len(), 4);
    assert_eq!(fields(&events[0]), ("t", "INSERT", 1, 2));
    assert_eq!(fields(&events[1]), ("", "", 0, 0));
    assert_eq!(fields(&events[2]), ("", "", 0, 0));
    assert_eq!(fields(&events[3]), ("", "", 0, 9));
    assert!(read_changes("").is_empty());
}

#[test]
fn missing_members_of_a_change_have_defaults() {
    let e = change_event(Some("t".to_string()), None, Some(4), None);
    assert_eq!(fields(&e), ("t", "", 4, 0));
    let e = change_event(None, Some("UPDATE".to_string()), None, Some(6));
    assert_eq!(fields(&e), ("", "UPDATE", 0, 6));
}

#[test]
fn scripts_go_on_after_a_failure_where_asked() {
    assert!(goes_on(false, false) && goes_on(false, true) && goes_on(true, true));
    assert!(!goes_on(true, false));
}

#[test]
fn old_rows_are_written_back_where_there_are_some() {
    assert!(matches!(after_write(false, 3), AfterWrite::NoteFiles));
    assert!(matches!(after_write(true, 3), AfterWrite::WriteBack));
    assert!(matches!(after_write(true, 0), AfterWrite::GiveUp));
}

#[test]
fn log_is_brought_to_a_checkpoint() {
    let mut clock = LogClock {
        commits: 0,
        every_commits: 2,
        interval: Duration::from_secs(3600),
        threshold_bytes: 10,
        replaying: false,
        has_log: true,
    };
    assert!(matches!(
        clock.wal_finish_autocommit(false, false, Duration::from_secs(0)),
        LogAction::CommitUpTo(10)
    ));
    assert!(matches!(
        clock.wal_finish_autocommit(false, false, Duration::from_secs(0)),
        LogAction::Checkpoint
    ));
    assert!(matches!(
        clock.wal_finish_autocommit(true, true, Duration::from_secs(0)),
        LogAction::Leave
    ));
    assert!(matches!(
        clock.wal_finish_autocommit(false, true, Duration::from_secs(0)),
        LogAction::Checkpoint
    ));
    assert!(clock.appends());
    assert!(clock.handle_checkpoint(true).is_err());
    assert!(clock.handle_checkpoint(false).is_ok());
}

#[test]
fn snapshots_answer_for_the_past() {
    let mut s = Snapshots::new(100);
    assert!(s.choose_snapshot(5).is_err());
    s.enable();
    for t in [10, 20, 30] {
        s.capture_snapshot(t);
    }
    assert_eq!(s.choose_snapshot(25).unwrap(), 1);
    assert_eq!(s.choose_snapshot(30).unwrap(), 2);
    assert_eq!(
        s.choose_snapshot(9).unwrap_err(),
        "No snapshot available for requested AS OF timestamp"
    );
    let dropped = s.capture_snapshot(125);
    assert_eq!(dropped, 2);
    assert_eq!(s.times, vec![30, 125]);
}

#[test]
fn past_tables_have_names_of_their_own() {
    assert_eq!(as_of_table("t"), "__potato_asof_t");
    let sql = rewrite_as_of("SELECT * FROM t", &names(&["t"]));
    assert!(sql.contains("__potato_asof_t"));
    let mut c = Catalog::new();
    c.add_table(table("t"));
    let kept = vec![
        KeptTable { name: "t".to_string(), has_rows: true },
        KeptTable { name: "gone".to_string(), has_rows: true },
        KeptTable { name: "empty".to_string(), has_rows: false },
    ];
    assert_eq!(c.readable_snapshot_tables(&kept), names(&["t", "gone"]));
}

#[test]
fn statistics_are_gathered() {
    assert_eq!(count_rows_sql("t"), "SELECT COUNT(*) AS c FROM \"t\"");
    assert!(column_stats_sql("t", "id").contains("\"id\""));
    let mut c = Catalog::new();
    c.add_table(table("t"));
    let stats = vec![Some(ColumnStatistics {
        null_count: 1,
        distinct_count: Some(2),
        min_value: Some("1".to_string()),
        max_value: Some("9".to_string()),
    })];
    assert_eq!(
        c.handle_analyze("t", 3, &stats).unwrap(),
        "ANALYZE: collected statistics for 't' (3 rows, 1 columns)."
    );
    let kept = c.tables.get("t").unwrap().statistics.as_ref().unwrap();
    assert_eq!(kept.row_count, 3);
    assert_eq!(kept.columns.get("id").unwrap().max_value, Some("9".to_string()));
    assert_eq!(c.handle_analyze("gone", 0, &vec![]).unwrap_err(), "Table 'gone' does not exist");
}

#[test]
fn tables_are_analyzed_by_themselves() {
    let mut a = AutoAnalyze::new(10);
    a.maybe_auto_analyze("t", 6);
    assert!(a.drain_pending_analyze().is_empty());
    a.maybe_auto_analyze("t", 6);
    assert_eq!(a.drain_pending_analyze(), names(&["t"]));
    assert!(a.drain_pending_analyze().is_empty());
}

#[test]
fn files_are_compacted_and_pruned() {
    assert!(should_compact(4, false, 4));
    assert!(!should_compact(4, true, 9) && !should_compact(0, false, 9) && !should_compact(4, false, 3));
    assert_eq!(
        vacuum_message("t", 3, 10, 0),
        "VACUUM: compacted 3 file(s) into 1 (10 rows) for 't' (retention pruned 0 file(s))."
    );
    assert!(vacuum_message("t", 3, 10, 2).contains("(retention pruned 2 file(s))."));
    assert!(vacuum_analyze_message("a", "b").starts_with('a'));
    assert!(is_expired("x.parquet", Some(Duration::from_secs(11)), 10));
    assert!(!is_expired("x.parquet", Some(Duration::from_secs(9)), 10));
    assert!(!is_expired("x.txt", Some(Duration::from_secs(99)), 10));
    assert!(!is_expired("x.parquet", None, 10));
}

#[test]
fn statements_run_through_the_database() {
    let mut db = database();
    match db.execute(" select 1 ; ").unwrap().unwrap() {
        ExecutePlan::Run { trimmed, upper, kind, .. } => {
            assert_eq!(trimmed, "select 1");
            assert_eq!(upper, "SELECT 1");
            assert!(kind == CommandKind::Statement);
        }
        _ => panic!("expected a statement"),
    }
    match db.execute("SELECT * FROM t AS OF TIMESTAMP 5").unwrap().unwrap() {
        ExecutePlan::AsOf { sql, timestamp_ms } => {
            assert_eq!(timestamp_ms, 5);
            assert_eq!(sql, "SELECT * FROM t AS OF TIMESTAMP 5");
        }
        _ => panic!("expected the past"),
    }
}

#[test]
fn sequences_are_drawn_on_the_way() {
    let mut db = database();
    db.catalog.handle_create_sequence("s", &vec![]).unwrap();
    assert!(db.catalog.flush_if_dirty().is_some());
    db.execute("SELECT 1").unwrap().unwrap();
    assert!(!db.catalog.dirty);
    match db.execute("SELECT nextval('s')").unwrap().unwrap() {
        ExecutePlan::Run { trimmed, .. } => assert_eq!(trimmed, "SELECT 1"),
        _ => panic!("expected a statement"),
    }
    // The number that was drawn is to be written out.
    assert!(db.catalog.dirty);
    assert!(db.execute("SELECT nextval('gone')").unwrap().is_err());
}

#[test]
fn users_without_privileges_are_refused() {
    let mut db = database();
    assert!(db.enforce_access("DELETE FROM t").is_ok());
    db.current_user = "eve".to_string();
    assert!(db.enforce_access("DELETE FROM t").is_err());
}

#[test]
fn finished_statements_reach_the_log() {
    let mut db = database();
    let done = db.finish_statement(StatementKind::Query, "SELECT 1", Duration::from_secs(0));
    assert!(matches!(done.log, LogAction::Leave));
    let action = db.finish_command(CommandKind::Flush, Duration::from_secs(0));
    assert!(matches!(action, LogAction::Leave));
}

#[test]
fn database_tells_of_itself() {
    let mut db = database();
    assert_eq!(db.data_url(), "memory://potatodb");
    assert!(!db.in_transaction());
    let a = db.next_temp_name("x");
    let b = db.next_temp_name("x");
    assert_ne!(a, b);
    db.catalog.add_table(table("t"));
    assert_eq!(db.table_names(), names(&["t"]));
    assert_eq!(db.table_columns("t"), names(&["id"]));
    assert!(db.indexes().is_empty() && db.view_names().is_empty());
    assert!(db.function_names().is_empty() && db.sequence_names().is_empty());
    assert_eq!(db.user_info()[0].name, "root");
    assert_eq!(db.plan_cache_stats(), (0, 0));
    assert_eq!(db.handle_select_system_status().query_log_entries, 0);
    assert!(db.replica_urls().is_empty() && db.recent_queries().is_empty());
    assert_eq!(db.last_query_metrics().parquet_files_read, 0);
}

#[test]
fn system_tables_are_answered() {
    let mut c = Catalog::new();
    c.add_table(table("t"));
    match c.handle_pg_catalog_query("SELECT * FROM pg_class") {
        PgAnswer::Classes(rows) => assert_eq!(rows[0].name, "t"),
        _ => panic!("expected classes"),
    }
    match c.handle_pg_catalog_query("SELECT * FROM pg_attribute") {
        PgAnswer::Attributes(rows) => {
            assert_eq!(rows[0].attname, "id");
            assert_eq!(rows[0].attnum, 1);
            assert_eq!(rows[0].atttypid, 23);
        }
        _ => panic!("expected attributes"),
    }
    assert!(matches!(c.handle_pg_catalog_query("SELECT * FROM pg_type"), PgAnswer::Types(_)));
    assert!(matches!(c.handle_pg_catalog_query("SELECT * FROM pg_namespace"), PgAnswer::Namespaces(_)));
    assert!(matches!(c.handle_pg_catalog_query("SELECT * FROM pg_catalog.pg_proc"), PgAnswer::Nothing));
}

#[test]
fn fulltext_index_is_built() {
    let mut db = database();
    let def = FulltextIndexDef { table_name: "docs".to_string(), columns: names(&["body"]) };
    let rows = vec![Row { cells: vec![Cell::Text("a red cat".to_string())] }];
    assert_eq!(
        db.handle_create_fulltext_index("fi", def, &rows),
        "Fulltext index 'fi' created on 'docs'."
    );
    assert_eq!(db.fulltext.indexes.get("fi").unwrap().search("cat").len(), 1);
}

#[test]
fn tables_are_looked_after() {
    let mut c = Catalog::new();
    let mut meta = table("t");
    meta.retention_seconds = Some(60);
    c.add_table(meta);
    assert!(c.check_table("t").is_ok());
    assert_eq!(c.check_table("gone").unwrap_err(), "Table 'gone' does not exist");
    assert_eq!(c.retention_of("t", true), Some(60));
    assert_eq!(c.retention_of("t", false), None);
    let clock = LogClock {
        commits: 0,
        every_commits: 0,
        interval: Duration::from_secs(1),
        threshold_bytes: 0,
        replaying: false,
        has_log: true,
    };
    assert!(clock.checkpoint_on_close(true));
    assert!(!clock.checkpoint_on_close(false));
}
