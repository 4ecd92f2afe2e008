//! Where a database is stored, and how it is set up.
use potatodb::location::{locate, locate_with, Location, S3Config};
use potatodb::settings::{
    data_log_scratch, data_log_sync, engine_settings, execution_settings, lower_ascii, parse_parquet_compression,
    parse_switch, session_user, Codec, EngineVars, ExecutionVars, SyncPolicy,
};

fn no_vars() -> EngineVars {
    EngineVars {
        slow_query_ms: None,
        query_log_max: None,
        wal_checkpoint_bytes: None,
        wal_checkpoint_commits: None,
        wal_checkpoint_ms: None,
        write_buffer_rows: None,
        write_buffer_bytes: None,
        write_buffer_ms: None,
        auto_analyze_rows: None,
        cdc_capacity: None,
        user: None,
        snapshot_retention_ms: None,
    }
}

#[test]
fn in_memory_colon_memory_normalizes_data_url() {
    let l = locate(":memory:").unwrap();
    assert!(l.is_in_memory());
    assert_eq!(l.data_url(), "memory://potatodb");
}

#[test]
fn in_memory_bare_memory_alias() {
    let l = locate("memory").unwrap();
    assert!(l.is_in_memory());
    assert_eq!(l.data_url(), "memory://potatodb");
}

#[test]
fn in_memory_host_and_key_prefix() {
    let l = locate("memory://myhost/ns/prefix").unwrap();
    assert!(l.is_in_memory());
    assert_eq!(l.data_url(), "memory://myhost/ns/prefix");
}

#[test]
fn in_memory_backup_is_rejected() {
    let msg = locate(":memory:").unwrap().check_backup().unwrap_err();
    assert!(
        msg.contains("local data directories") && msg.contains("in-memory"),
        "unexpected backup error: {msg}"
    );
}

#[test]
fn in_memory_restore_is_rejected() {
    let msg = locate(":memory:").unwrap().check_restore().unwrap_err();
    assert!(msg.contains("local data directories"), "unexpected restore error: {msg}");
}

#[test]
fn bucket_and_prefix() {
    let l = locate("s3://bucket/some/prefix/").unwrap();
    assert!(l.is_s3() && !l.is_in_memory());
    assert_eq!(l.data_url(), "s3://bucket/some/prefix");
    assert_eq!(l.object_key("catalog.json"), "some/prefix/catalog.json");
    assert_eq!(l.table_url("t"), "s3://bucket/some/prefix/t");
    assert_eq!(l.wal_dir(&None), Some("./potatodb_s3_wal".to_string()));
    let config = S3Config {
        endpoint: None,
        region: None,
        allow_http: false,
        wal_dir: Some("/var/wal".to_string()),
    };
    assert_eq!(l.wal_dir(&Some(config)), Some("/var/wal".to_string()));
    assert!(l.check_backup().is_err());
    assert_eq!(l.cdc_log_path(), None);
}

#[test]
fn bucket_without_prefix() {
    let l = locate("s3://bucket").unwrap();
    assert_eq!(l.data_url(), "s3://bucket");
    assert_eq!(l.object_key("t"), "t");
}

#[test]
fn address_without_bucket() {
    assert_eq!(
        locate_with("s3://", Ok((None, String::new()))).err().unwrap(),
        "Missing bucket name in S3 URL"
    );
    assert_eq!(locate_with("s3://x", Err("bad".to_string())).err().unwrap(), "bad");
}

#[test]
fn local_directory() {
    let l = locate("/data/db").unwrap();
    assert!(matches!(&l, Location::Local { path } if path == "/data/db"));
    assert_eq!(l.table_url("t"), "/data/db/t");
    assert_eq!(l.wal_dir(&None), Some("/data/db".to_string()));
    assert_eq!(l.cdc_log_path(), Some("/data/db/_cdc_log.jsonl".to_string()));
    assert!(l.check_backup().is_ok());
    assert!(l.check_restore().is_ok());
}

#[test]
fn memory_has_no_log() {
    assert_eq!(locate(":memory:").unwrap().wal_dir(&None), None);
}

#[test]
fn settings_without_variables() {
    let s = engine_settings(&no_vars());
    assert_eq!(s.slow_query_threshold_ms, 500);
    assert_eq!(session_user(&no_vars()), "potatodb");
}

#[test]
fn settings_with_variables() {
    let mut vars = no_vars();
    vars.slow_query_ms = Some("25".to_string());
    vars.query_log_max = Some("many".to_string());
    vars.user = Some("ada".to_string());
    let s = engine_settings(&vars);
    assert_eq!(s.slow_query_threshold_ms, 25);
    assert_eq!(s.max_query_log_entries, engine_settings(&no_vars()).max_query_log_entries);
    assert_eq!(session_user(&vars), "ada");
}

#[test]
fn execution_settings_by_default_and_by_variable() {
    let mut vars = ExecutionVars {
        target_partitions: None,
        batch_size: None,
        write_batch_size: None,
        enforce_batch_size_in_joins: None,
        coalesce_batches: None,
        compression: None,
    };
    let s = execution_settings(&vars, 8);
    assert_eq!((s.target_partitions, s.batch_size, s.write_batch_size), (8, 32768, 16384));
    assert!(s.enforce_batch_size_in_joins && s.coalesce_batches);
    assert_eq!(s.compression, "zstd(3)");
    vars.batch_size = Some("1024".to_string());
    vars.coalesce_batches = Some("false".to_string());
    vars.compression = Some("snappy".to_string());
    let s = execution_settings(&vars, 8);
    assert_eq!(s.batch_size, 1024);
    assert!(!s.coalesce_batches);
    assert_eq!(s.compression, "snappy");
}

#[test]
fn switches() {
    assert_eq!(parse_switch("true", "true"), Some(true));
    assert_eq!(parse_switch("false", "false"), Some(false));
    assert_eq!(parse_switch("maybe", "maybe"), None);
}

#[test]
fn log_is_forced_to_disk() {
    let text = |s: &str| Some(s.to_string());
    assert_eq!(data_log_scratch(&None), 4 * 1024 * 1024);
    assert_eq!(data_log_scratch(&text("17")), 17);
    assert_eq!(data_log_scratch(&text("many")), 4 * 1024 * 1024);
    assert!(matches!(data_log_sync(&None, &None, &None), SyncPolicy::Always));
    assert!(matches!(data_log_sync(&text("OFF"), &None, &None), SyncPolicy::Never));
    assert!(matches!(data_log_sync(&text("every_n"), &text("4"), &None), SyncPolicy::EveryNAppends(4)));
    assert!(matches!(data_log_sync(&text("every_n"), &None, &None), SyncPolicy::EveryNAppends(10)));
    assert!(matches!(data_log_sync(&text("interval"), &None, &text("7")), SyncPolicy::EveryMillis(7)));
    assert!(matches!(data_log_sync(&text("?"), &None, &text("7")), SyncPolicy::EveryMillis(7)));
    assert_eq!(lower_ascii("ÄbC"), "Äbc");
}

#[test]
fn codecs() {
    assert!(parse_parquet_compression("snappy") == Codec::Snappy);
    assert!(parse_parquet_compression("uncompressed") == Codec::Uncompressed);
    assert!(parse_parquet_compression("zstd(3)") == Codec::Zstd(3));
    assert!(parse_parquet_compression("zstd(22)") == Codec::Zstd(22));
    assert!(parse_parquet_compression("zstd") == Codec::Zstd(1));
    assert!(parse_parquet_compression("gzip(9)") == Codec::Gzip(9));
    assert!(parse_parquet_compression("gzip") == Codec::Gzip(6));
    assert!(parse_parquet_compression("brotli(11)") == Codec::Brotli(11));
    assert!(parse_parquet_compression("brotli") == Codec::Brotli(1));
    assert!(parse_parquet_compression("LZ4_RAW") == Codec::Lz4Raw);
}

#[test]
fn codec_levels_out_of_range() {
    assert!(parse_parquet_compression("zstd(23)") == Codec::Zstd(1));
    assert!(parse_parquet_compression("gzip(10)") == Codec::Gzip(6));
    assert!(parse_parquet_compression("brotli(12)") == Codec::Brotli(1));
}
