//! Settings of an engine: what the environment says, with the defaults.
use vstd::prelude::*;
use vstd::string::*;

use crate::numbers::{
    decimal, decimal_signed, law_printed_number_reads_back, law_printed_signed_number_reads_back,
    parse_i64, parse_u64, parse_usize, parsed_signed, parsed_unsigned,
};
use crate::text::{
    ascii_lower, from_chars, has_prefix, lower_char, lower_text, opt_text, same, starts_with,
    to_chars, trim, trim_text,
};

verus! {

/// What an unsigned setting says, or else its default.
pub open spec fn unsigned_or(v: Option<Seq<char>>, max: nat, default: nat) -> nat {
    match v {
        None => default,
        Some(s) => match parsed_unsigned(s, max) {
            Some(n) => n,
            None => default,
        },
    }
}

fn u64_or(v: &Option<String>, default: u64) -> (r: u64)
    ensures
        r == unsigned_or(opt_text(*v), u64::MAX as nat, default as nat),
{
    match v {
        None => default,
        Some(s) => match parse_u64(s) {
            Some(n) => n,
            None => default,
        },
    }
}

fn usize_or(v: &Option<String>, default: usize) -> (r: usize)
    ensures
        r == unsigned_or(opt_text(*v), usize::MAX as nat, default as nat),
{
    match v {
        None => default,
        Some(s) => match parse_usize(s) {
            Some(n) => n,
            None => default,
        },
    }
}

/// What a signed setting says, or else its default.
pub open spec fn signed_or(v: Option<Seq<char>>, default: int) -> int {
    match v {
        None => default,
        Some(s) => match parsed_signed(s) {
            Some(n) => n,
            None => default,
        },
    }
}

fn i64_or(v: &Option<String>, default: i64) -> (r: i64)
    ensures
        r == signed_or(opt_text(*v), default as int),
{
    match v {
        None => default,
        Some(s) => match parse_i64(s) {
            Some(n) => n,
            None => default,
        },
    }
}

/// What a switch says, given its text in lower case.
pub open spec fn switch_value(v: Seq<char>, lower: Seq<char>) -> Option<bool> {
    if lower == "1"@ || lower == "true"@ || lower == "yes"@ || lower == "on"@ {
        Some(true)
    } else if lower == "0"@ || lower == "false"@ || lower == "no"@ || lower == "off"@ {
        Some(false)
    } else if v == "true"@ {
        Some(true)
    } else if v == "false"@ {
        Some(false)
    } else {
        None
    }
}

/// What a switch says, given its text in lower case.
pub fn parse_switch(v: &str, lower: &str) -> (r: Option<bool>)
    ensures
        r == switch_value(v@, lower@),
{
    if same(lower, "1") || same(lower, "true") || same(lower, "yes") || same(lower, "on") {
        Some(true)
    } else if same(lower, "0") || same(lower, "false") || same(lower, "no") || same(lower, "off") {
        Some(false)
    } else if same(v, "true") {
        Some(true)
    } else if same(v, "false") {
        Some(false)
    } else {
        None
    }
}

/// What a switch says, or else that it is on.
pub open spec fn switch_or_on(v: Option<Seq<char>>) -> bool {
    match v {
        None => true,
        Some(s) => match switch_value(s, lower_text(s)) {
            Some(b) => b,
            None => true,
        },
    }
}

fn on_by_default(v: &Option<String>) -> (r: bool)
    ensures
        r == switch_or_on(opt_text(*v)),
{
    match v {
        None => true,
        Some(s) => {
            let lower = s.to_lowercase();
            match parse_switch(s, &lower) {
                Some(b) => b,
                None => true,
            }
        },
    }
}

// ---------------------------------------------------------------------------
// Query execution
// ---------------------------------------------------------------------------

/// The variables of the environment that tune query execution.
pub struct ExecutionVars {
    /// `POTATODB_TARGET_PARTITIONS`
    pub target_partitions: Option<String>,
    /// `POTATODB_BATCH_SIZE`
    pub batch_size: Option<String>,
    /// `POTATODB_PARQUET_WRITE_BATCH_SIZE`
    pub write_batch_size: Option<String>,
    /// `POTATODB_ENFORCE_BATCH_SIZE_IN_JOINS`
    pub enforce_batch_size_in_joins: Option<String>,
    /// `POTATODB_COALESCE_BATCHES`
    pub coalesce_batches: Option<String>,
    /// `POTATODB_PARQUET_COMPRESSION`
    pub compression: Option<String>,
}

/// How queries are executed and Parquet files written.
pub struct ExecutionSettings {
    pub target_partitions: usize,
    pub batch_size: usize,
    pub write_batch_size: usize,
    pub enforce_batch_size_in_joins: bool,
    pub coalesce_batches: bool,
    pub compression: String,
}

/// The settings of query execution: 32768 rows in a batch, 16384 rows in a write, as many
/// partitions as the machine has processors (`cores`) and compression `zstd(3)` where the
/// environment says nothing else.
pub fn execution_settings(vars: &ExecutionVars, cores: usize) -> (r: ExecutionSettings)
    ensures
        r.target_partitions == unsigned_or(
            opt_text(vars.target_partitions),
            usize::MAX as nat,
            cores as nat,
        ),
        r.batch_size == unsigned_or(opt_text(vars.batch_size), usize::MAX as nat, 32768),
        r.write_batch_size == unsigned_or(
            opt_text(vars.write_batch_size),
            usize::MAX as nat,
            16384,
        ),
        r.enforce_batch_size_in_joins == switch_or_on(opt_text(vars.enforce_batch_size_in_joins)),
        r.coalesce_batches == switch_or_on(opt_text(vars.coalesce_batches)),
        r.compression@ == match opt_text(vars.compression) {
            Some(s) => s,
            None => "zstd(3)"@,
        },
{
    ExecutionSettings {
        target_partitions: usize_or(&vars.target_partitions, cores),
        batch_size: usize_or(&vars.batch_size, 32768),
        write_batch_size: usize_or(&vars.write_batch_size, 16384),
        enforce_batch_size_in_joins: on_by_default(&vars.enforce_batch_size_in_joins),
        coalesce_batches: on_by_default(&vars.coalesce_batches),
        compression: match &vars.compression {
            Some(s) => s.clone(),
            None => "zstd(3)".to_owned(),
        },
    }
}

// ---------------------------------------------------------------------------
// The engine
// ---------------------------------------------------------------------------

/// The variables of the environment that tune the engine.
pub struct EngineVars {
    /// `POTATODB_SLOW_QUERY_MS`
    pub slow_query_ms: Option<String>,
    /// `POTATODB_QUERY_LOG_MAX`
    pub query_log_max: Option<String>,
    /// `POTATODB_WAL_CHECKPOINT_BYTES`
    pub wal_checkpoint_bytes: Option<String>,
    /// `POTATODB_WAL_CHECKPOINT_COMMITS`
    pub wal_checkpoint_commits: Option<String>,
    /// `POTATODB_WAL_CHECKPOINT_MS`
    pub wal_checkpoint_ms: Option<String>,
    /// `POTATODB_WRITE_BUFFER_ROWS`
    pub write_buffer_rows: Option<String>,
    /// `POTATODB_WRITE_BUFFER_BYTES`
    pub write_buffer_bytes: Option<String>,
    /// `POTATODB_WRITE_BUFFER_MS`
    pub write_buffer_ms: Option<String>,
    /// `POTATODB_AUTO_ANALYZE_ROWS`
    pub auto_analyze_rows: Option<String>,
    /// `POTATODB_CDC_CAPACITY`
    pub cdc_capacity: Option<String>,
    /// `POTATODB_USER`
    pub user: Option<String>,
    /// `POTATODB_SNAPSHOT_RETENTION_MS`
    pub snapshot_retention_ms: Option<String>,
}

/// The settings of an engine.
pub struct Settings {
    /// Slow query threshold in milliseconds.
    pub slow_query_threshold_ms: u64,
    /// Max number of query log entries kept in memory.
    pub max_query_log_entries: usize,
    /// WAL size threshold for periodic autocommit checkpoints.
    pub wal_checkpoint_threshold_bytes: u64,
    /// Additional checkpoint trigger by committed autocommit operations.
    pub wal_checkpoint_every_commits: u64,
    /// Additional checkpoint trigger by milliseconds since the last checkpoint.
    pub wal_checkpoint_interval_ms: u64,
    /// Flush threshold by buffered row count.
    pub write_buffer_row_threshold: usize,
    /// Flush threshold by buffered bytes.
    pub write_buffer_byte_threshold: usize,
    /// Flush threshold by buffered age in milliseconds.
    pub write_buffer_time_threshold_ms: u64,
    /// Threshold that triggers automatic ANALYZE.
    pub auto_analyze_threshold_rows: usize,
    /// Max number of change events kept in memory.
    pub cdc_capacity: usize,
    /// How long snapshots are kept, in milliseconds.
    pub snapshot_retention_ms: i64,
    /// A table of at least this many files is compacted after a flush; 0 disables compaction.
    pub auto_compact_file_threshold: usize,
}

/// The settings of an engine: what the environment says, with the defaults for what it leaves open.
pub fn engine_settings(vars: &EngineVars) -> (r: Settings)
    ensures
        r.slow_query_threshold_ms == unsigned_or(opt_text(vars.slow_query_ms), u64::MAX as nat, 500),
        r.max_query_log_entries == unsigned_or(
            opt_text(vars.query_log_max),
            usize::MAX as nat,
            200,
        ),
        r.wal_checkpoint_threshold_bytes == unsigned_or(
            opt_text(vars.wal_checkpoint_bytes),
            u64::MAX as nat,
            4294967296,
        ),
        r.wal_checkpoint_every_commits == unsigned_or(
            opt_text(vars.wal_checkpoint_commits),
            u64::MAX as nat,
            0,
        ),
        r.wal_checkpoint_interval_ms == unsigned_or(
            opt_text(vars.wal_checkpoint_ms),
            u64::MAX as nat,
            0,
        ),
        r.write_buffer_row_threshold == unsigned_or(
            opt_text(vars.write_buffer_rows),
            usize::MAX as nat,
            10000,
        ),
        r.write_buffer_byte_threshold == unsigned_or(
            opt_text(vars.write_buffer_bytes),
            usize::MAX as nat,
            67108864,
        ),
        r.write_buffer_time_threshold_ms == unsigned_or(
            opt_text(vars.write_buffer_ms),
            u64::MAX as nat,
            360000,
        ),
        r.auto_analyze_threshold_rows == unsigned_or(
            opt_text(vars.auto_analyze_rows),
            usize::MAX as nat,
            10000,
        ),
        r.cdc_capacity == unsigned_or(opt_text(vars.cdc_capacity), usize::MAX as nat, 2000),
        r.snapshot_retention_ms == signed_or(opt_text(vars.snapshot_retention_ms), 86400000),
        r.auto_compact_file_threshold == 20,
{
    Settings {
        slow_query_threshold_ms: u64_or(&vars.slow_query_ms, 500),
        max_query_log_entries: usize_or(&vars.query_log_max, 200),
        wal_checkpoint_threshold_bytes: u64_or(&vars.wal_checkpoint_bytes, 4294967296),
        wal_checkpoint_every_commits: u64_or(&vars.wal_checkpoint_commits, 0),
        wal_checkpoint_interval_ms: u64_or(&vars.wal_checkpoint_ms, 0),
        write_buffer_row_threshold: usize_or(&vars.write_buffer_rows, 10000),
        write_buffer_byte_threshold: usize_or(&vars.write_buffer_bytes, 67108864),
        write_buffer_time_threshold_ms: u64_or(&vars.write_buffer_ms, 360000),
        auto_analyze_threshold_rows: usize_or(&vars.auto_analyze_rows, 10000),
        cdc_capacity: usize_or(&vars.cdc_capacity, 2000),
        snapshot_retention_ms: i64_or(&vars.snapshot_retention_ms, 86400000),
        auto_compact_file_threshold: 20,
    }
}

/// The user on whose behalf statements run: `potatodb` where the environment names none.
pub fn session_user(vars: &EngineVars) -> (r: String)
    ensures
        r@ == match opt_text(vars.user) {
            Some(s) => s,
            None => "potatodb"@,
        },
{
    match &vars.user {
        Some(s) => s.clone(),
        None => "potatodb".to_owned(),
    }
}

/// How many bytes the log of inserted data sets aside for encoding, given the text of
/// `POTATODB_ARROW_WAL_SCRATCH_BYTES`.
pub fn data_log_scratch(bytes: &Option<String>) -> (r: usize)
    ensures
        r == unsigned_or(opt_text(*bytes), usize::MAX as nat, 4194304),
{
    usize_or(bytes, 4194304)
}

// ---------------------------------------------------------------------------
// Synchronisation of the data log
// ---------------------------------------------------------------------------

/// When the log of inserted data is forced to disk.
#[derive(Clone, Copy, Debug, PartialEq, Eq, Structural)]
pub enum SyncPolicy {
    Never,
    Always,
    EveryNAppends(u64),
    EveryMillis(u64),
}

/// The policy that the given texts choose, the mode in ASCII lower case.
pub open spec fn sync_policy(mode: Seq<char>, every_n: Option<nat>, ms: Option<nat>) -> SyncPolicy {
    let n = match every_n {
        Some(n) => n,
        None => 10,
    };
    let m = match ms {
        Some(m) => m,
        None => 10,
    };
    if mode == "never"@ || mode == "none"@ || mode == "off"@ {
        SyncPolicy::Never
    } else if mode == "always"@ {
        SyncPolicy::Always
    } else if mode == "every_n"@ || mode == "everyn"@ {
        SyncPolicy::EveryNAppends(n as u64)
    } else if mode == "every_ms"@ || mode == "everyms"@ || mode == "interval"@ {
        SyncPolicy::EveryMillis(m as u64)
    } else if every_n is Some {
        SyncPolicy::EveryNAppends(n as u64)
    } else if ms is Some {
        SyncPolicy::EveryMillis(m as u64)
    } else {
        SyncPolicy::Always
    }
}

/// What an optional text says as an unsigned number.
pub open spec fn optional_unsigned(v: Option<Seq<char>>) -> Option<nat> {
    match v {
        None => None,
        Some(s) => parsed_unsigned(s, u64::MAX as nat),
    }
}

fn optional_u64(v: &Option<String>) -> (r: Option<u64>)
    ensures
        match r {
            Some(n) => optional_unsigned(opt_text(*v)) == Some(n as nat),
            None => optional_unsigned(opt_text(*v)) is None,
        },
{
    match v {
        None => None,
        Some(s) => parse_u64(s),
    }
}

/// A text with its ASCII letters in lower case (as `str::to_ascii_lowercase`).
pub fn lower_ascii(s: &str) -> (r: String)
    ensures
        r@ == s@.map_values(|c: char| ascii_lower(c)),
{
    let v = to_chars(s);
    let mut out = String::new();
    let ghost goal = s@.map_values(|c: char| ascii_lower(c));
    let mut i: usize = 0;
    while i < v.len()
        invariant
            i <= v@.len(),
            v@ == s@,
            goal == s@.map_values(|c: char| ascii_lower(c)),
            out@ == goal.subrange(0, i as int),
        decreases v@.len() - i,
    {
        out.push(lower_char(v[i]));
        assert(goal.subrange(0, i + 1) == goal.subrange(0, i as int).push(goal[i as int]));
        i += 1;
    }
    assert(out@ == goal);
    out
}

/// When the log of inserted data is forced to disk: always, where the environment says nothing.
pub fn data_log_sync(
    mode: &Option<String>,
    every_n: &Option<String>,
    ms: &Option<String>,
) -> (r: SyncPolicy)
    ensures
        r == sync_policy(
            match opt_text(*mode) {
                Some(s) => s,
                None => "always"@,
            }.map_values(|c: char| ascii_lower(c)),
            optional_unsigned(opt_text(*every_n)),
            optional_unsigned(opt_text(*ms)),
        ),
{
    let text = match mode {
        Some(s) => s.clone(),
        None => "always".to_owned(),
    };
    let m = lower_ascii(&text);
    let n = optional_u64(every_n);
    let t = optional_u64(ms);
    if same(&m, "never") || same(&m, "none") || same(&m, "off") {
        SyncPolicy::Never
    } else if same(&m, "always") {
        SyncPolicy::Always
    } else if same(&m, "every_n") || same(&m, "everyn") {
        SyncPolicy::EveryNAppends(n.unwrap_or(10))
    } else if same(&m, "every_ms") || same(&m, "everyms") || same(&m, "interval") {
        SyncPolicy::EveryMillis(t.unwrap_or(10))
    } else if let Some(k) = n {
        SyncPolicy::EveryNAppends(k)
    } else if let Some(k) = t {
        SyncPolicy::EveryMillis(k)
    } else {
        SyncPolicy::Always
    }
}

// ---------------------------------------------------------------------------
// Compression
// ---------------------------------------------------------------------------

/// A Parquet codec with its level.
#[derive(Clone, Copy, Debug, PartialEq, Eq, Structural)]
pub enum Codec {
    Uncompressed,
    Snappy,
    Lzo,
    Lz4,
    Lz4Raw,
    Gzip(u32),
    Brotli(u32),
    Zstd(i32),
}

/// `parquet::basic::ZstdLevel::try_new`: the level where it is one from 1 to 22, else an error.
#[verifier::external_body]
fn zstd_level(level: i32) -> (r: Option<i32>)
    ensures
        r == if 1 <= level <= 22 {
            Some(level)
        } else {
            None
        },
{
    parquet::basic::ZstdLevel::try_new(level).ok().map(|l| l.compression_level())
}

/// `parquet::basic::ZstdLevel::default`: level 1.
#[verifier::external_body]
fn zstd_default() -> (r: i32)
    ensures
        r == 1,
{
    parquet::basic::ZstdLevel::default().compression_level()
}

/// `parquet::basic::GzipLevel::try_new`: the level where it is one from 0 to 9, else an error.
#[verifier::external_body]
fn gzip_level(level: u32) -> (r: Option<u32>)
    ensures
        r == if level <= 9 {
            Some(level)
        } else {
            None
        },
{
    parquet::basic::GzipLevel::try_new(level).ok().map(|l| l.compression_level())
}

/// `parquet::basic::GzipLevel::default`: level 6.
#[verifier::external_body]
fn gzip_default() -> (r: u32)
    ensures
        r == 6,
{
    parquet::basic::GzipLevel::default().compression_level()
}

/// `parquet::basic::BrotliLevel::try_new`: the level where it is one from 0 to 11, else an error.
#[verifier::external_body]
fn brotli_level(level: u32) -> (r: Option<u32>)
    ensures
        r == if level <= 11 {
            Some(level)
        } else {
            None
        },
{
    parquet::basic::BrotliLevel::try_new(level).ok().map(|l| l.compression_level())
}

/// `parquet::basic::BrotliLevel::default`: level 1.
#[verifier::external_body]
fn brotli_default() -> (r: u32)
    ensures
        r == 1,
{
    parquet::basic::BrotliLevel::default().compression_level()
}

/// The level in a text such as `zstd(3)`: what stands between the parentheses behind the codec's
/// name, as a 32-bit number.
pub open spec fn codec_level(s: Seq<char>, prefix: Seq<char>) -> Option<int> {
    if !has_prefix(s, prefix) {
        None
    } else {
        let rest = trim_text(s.subrange(prefix.len() as int, s.len() as int));
        if rest.len() < 2 || rest[0] != '(' || rest.last() != ')' {
            None
        } else {
            match parsed_signed(trim_text(rest.subrange(1, rest.len() - 1))) {
                Some(n) => if i32::MIN <= n <= i32::MAX {
                    Some(n)
                } else {
                    None
                },
                None => None,
            }
        }
    }
}

fn extract_level(s: &str, prefix: &str) -> (r: Option<i32>)
    ensures
        match r {
            Some(n) => codec_level(s@, prefix@) == Some(n as int),
            None => codec_level(s@, prefix@) is None,
        },
{
    if !starts_with(s, prefix) {
        return None;
    }
    let v = to_chars(s);
    let p = to_chars(prefix);
    let rest = trim(&from_chars(&v, p.len(), v.len()));
    let w = to_chars(&rest);
    if w.len() < 2 || w[0] != '(' || w[w.len() - 1] != ')' {
        return None;
    }
    match parse_i64(&trim(&from_chars(&w, 1, w.len() - 1))) {
        None => None,
        Some(n) => {
            if (i32::MIN as i64) <= n && n <= (i32::MAX as i64) {
                Some(n as i32)
            } else {
                None
            }
        },
    }
}

/// The codec that a text names, in ASCII lower case and without white space around it. A level out
/// of the codec's range gives the codec's default level, and a text that names no codec gives zstd
/// at level 3.
pub open spec fn codec_of(lower: Seq<char>) -> Codec {
    if lower == "uncompressed"@ || lower == "none"@ {
        Codec::Uncompressed
    } else if lower == "snappy"@ {
        Codec::Snappy
    } else if lower == "lzo"@ {
        Codec::Lzo
    } else if lower == "lz4"@ {
        Codec::Lz4
    } else if lower == "lz4_raw"@ {
        Codec::Lz4Raw
    } else if lower == "gzip"@ {
        Codec::Gzip(6)
    } else if lower == "brotli"@ {
        Codec::Brotli(1)
    } else if lower == "zstd"@ {
        Codec::Zstd(1)
    } else {
        match codec_level(lower, "zstd"@) {
            Some(n) => Codec::Zstd(
                if 1 <= n <= 22 {
                    n as i32
                } else {
                    1
                },
            ),
            None => match codec_level(lower, "gzip"@) {
                Some(n) => Codec::Gzip(
                    if 0 <= n <= 9 {
                        n as u32
                    } else {
                        6
                    },
                ),
                None => match codec_level(lower, "brotli"@) {
                    Some(n) => Codec::Brotli(
                        if 0 <= n <= 11 {
                            n as u32
                        } else {
                            1
                        },
                    ),
                    None => Codec::Zstd(3),
                },
            },
        }
    }
}

/// The codec that a text such as `zstd(3)`, `snappy` or `gzip(6)` names.
pub fn parse_parquet_compression(s: &str) -> (r: Codec)
    ensures
        r == codec_of(trim_text(s@).map_values(|c: char| ascii_lower(c))),
{
    let lower = lower_ascii(&trim(s));
    if same(&lower, "uncompressed") || same(&lower, "none") {
        Codec::Uncompressed
    } else if same(&lower, "snappy") {
        Codec::Snappy
    } else if same(&lower, "lzo") {
        Codec::Lzo
    } else if same(&lower, "lz4") {
        Codec::Lz4
    } else if same(&lower, "lz4_raw") {
        Codec::Lz4Raw
    } else if same(&lower, "gzip") {
        Codec::Gzip(gzip_default())
    } else if same(&lower, "brotli") {
        Codec::Brotli(brotli_default())
    } else if same(&lower, "zstd") {
        Codec::Zstd(zstd_default())
    } else if let Some(n) = extract_level(&lower, "zstd") {
        match zstd_level(n) {
            Some(l) => Codec::Zstd(l),
            None => Codec::Zstd(zstd_default()),
        }
    } else if let Some(n) = extract_level(&lower, "gzip") {
        if n < 0 {
            return Codec::Gzip(gzip_default());
        }
        match gzip_level(n as u32) {
            Some(l) => Codec::Gzip(l),
            None => Codec::Gzip(gzip_default()),
        }
    } else if let Some(n) = extract_level(&lower, "brotli") {
        if n < 0 {
            return Codec::Brotli(brotli_default());
        }
        match brotli_level(n as u32) {
            Some(l) => Codec::Brotli(l),
            None => Codec::Brotli(brotli_default()),
        }
    } else {
        match zstd_level(3) {
            Some(l) => Codec::Zstd(l),
            None => Codec::Zstd(zstd_default()),
        }
    }
}

// ---------------------------------------------------------------------------
// Laws
// ---------------------------------------------------------------------------

/// A switch is on by four words and off by four, in any case, and on where it is not set or not
/// understood.
pub proof fn law_switches(v: Seq<char>)
    ensures
        ({
            let lower = lower_text(v);
            let on = lower == "1"@ || lower == "true"@ || lower == "yes"@ || lower == "on"@;
            let off = lower == "0"@ || lower == "false"@ || lower == "no"@ || lower == "off"@;
            &&& on ==> switch_or_on(Some(v))
            &&& off ==> !switch_or_on(Some(v))
            &&& !on && !off && v != "false"@ ==> switch_or_on(Some(v))
            &&& switch_or_on(None)
        }),
{
    reveal_strlit("1");
    reveal_strlit("true");
    reveal_strlit("yes");
    reveal_strlit("on");
    reveal_strlit("0");
    reveal_strlit("false");
    reveal_strlit("no");
    reveal_strlit("off");
    assert("1"@[0] == '1' && "0"@[0] == '0' && "true"@[0] == 't' && "false"@[0] == 'f');
    assert("yes"@[0] == 'y' && "no"@[0] == 'n' && "on"@[0] == 'o' && "on"@[1] == 'n');
    assert("off"@[0] == 'o' && "off"@[1] == 'f');
    assert("on"@.len() == 2 && "off"@.len() == 3);
}

/// Whether a word names when the log is written through.
pub open spec fn is_sync_word(mode: Seq<char>) -> bool {
    ||| mode == "never"@ || mode == "none"@ || mode == "off"@ || mode == "always"@
    ||| mode == "every_n"@ || mode == "everyn"@
    ||| mode == "every_ms"@ || mode == "everyms"@ || mode == "interval"@
}

/// The log is written through always, unless a mode or a number says otherwise. A mode that is named goes
/// before the numbers, and of the numbers the count of appends goes first.
pub proof fn law_sync_policies(mode: Seq<char>, every_n: Option<nat>, ms: Option<nat>)
    requires
        every_n matches Some(n) ==> n <= u64::MAX,
        ms matches Some(m) ==> m <= u64::MAX,
    ensures
        sync_policy("never"@, every_n, ms) is Never,
        sync_policy("none"@, every_n, ms) is Never,
        sync_policy("off"@, every_n, ms) is Never,
        sync_policy("always"@, every_n, ms) is Always,
        sync_policy("every_n"@, every_n, ms) matches SyncPolicy::EveryNAppends(n) && (every_n matches Some(
            k,
        ) ==> n == k),
        sync_policy("everyn"@, every_n, ms) == sync_policy("every_n"@, every_n, ms),
        sync_policy("every_ms"@, every_n, ms) matches SyncPolicy::EveryMillis(m) && (ms matches Some(
            k,
        ) ==> m == k),
        sync_policy("everyms"@, every_n, ms) == sync_policy("every_ms"@, every_n, ms),
        sync_policy("interval"@, every_n, ms) == sync_policy("every_ms"@, every_n, ms),
        !is_sync_word(mode) && every_n is Some ==> sync_policy(mode, every_n, ms)
            == SyncPolicy::EveryNAppends(every_n->0 as u64),
        !is_sync_word(mode) && every_n is None && ms is Some ==> sync_policy(mode, every_n, ms)
            == SyncPolicy::EveryMillis(ms->0 as u64),
        !is_sync_word(mode) && every_n is None && ms is None ==> sync_policy(
            mode,
            every_n,
            ms,
        ) is Always,
{
    reveal_strlit("never");
    reveal_strlit("none");
    reveal_strlit("off");
    reveal_strlit("always");
    reveal_strlit("every_n");
    reveal_strlit("everyn");
    reveal_strlit("every_ms");
    reveal_strlit("everyms");
    reveal_strlit("interval");
    assert("never"@[0] == 'n' && "none"@[0] == 'n' && "off"@[0] == 'o' && "always"@[0] == 'a');
    assert("every_n"@.len() == 7 && "everyn"@.len() == 6 && "every_ms"@.len() == 8);
    assert("everyms"@.len() == 7 && "interval"@.len() == 8);
    assert("every_n"@[0] == 'e' && "everyn"@[0] == 'e' && "every_ms"@[0] == 'e' && "everyms"@[0]
        == 'e' && "interval"@[0] == 'i');
    assert("every_n"@[5] == '_' && "everyms"@[5] == 'm');
}

/// A level of compression counts where it is within the bounds of the method, and else the usual one.
pub proof fn law_levels_within_bounds(lower: Seq<char>, n: int)
    requires
        lower.len() > 12 || lower.contains('('),
    ensures
        codec_level(lower, "zstd"@) == Some(n) ==> codec_of(lower) == Codec::Zstd(
            if 1 <= n <= 22 {
                n as i32
            } else {
                1
            },
        ),
        codec_level(lower, "zstd"@) is None && codec_level(lower, "gzip"@) == Some(n) ==> codec_of(
            lower,
        ) == Codec::Gzip(
            if 0 <= n <= 9 {
                n as u32
            } else {
                6
            },
        ),
        codec_level(lower, "zstd"@) is None && codec_level(lower, "gzip"@) is None && codec_level(
            lower,
            "brotli"@,
        ) == Some(n) ==> codec_of(lower) == Codec::Brotli(
            if 0 <= n <= 11 {
                n as u32
            } else {
                1
            },
        ),
        codec_level(lower, "zstd"@) is None && codec_level(lower, "gzip"@) is None && codec_level(
            lower,
            "brotli"@,
        ) is None ==> codec_of(lower) == Codec::Zstd(3),
{
    lemma_codec_names();
}

proof fn lemma_codec_names()
    ensures
        !"uncompressed"@.contains('(') && "uncompressed"@.len() <= 12,
        !"none"@.contains('(') && "none"@.len() <= 12,
        !"snappy"@.contains('(') && "snappy"@.len() <= 12,
        !"lzo"@.contains('(') && "lzo"@.len() <= 12,
        !"lz4"@.contains('(') && "lz4"@.len() <= 12,
        !"lz4_raw"@.contains('(') && "lz4_raw"@.len() <= 12,
        !"gzip"@.contains('(') && "gzip"@.len() <= 12,
        !"brotli"@.contains('(') && "brotli"@.len() <= 12,
        !"zstd"@.contains('(') && "zstd"@.len() <= 12,
{
    reveal_strlit("uncompressed");
    reveal_strlit("none");
    reveal_strlit("snappy");
    reveal_strlit("lzo");
    reveal_strlit("lz4");
    reveal_strlit("lz4_raw");
    reveal_strlit("gzip");
    reveal_strlit("brotli");
    reveal_strlit("zstd");
}

/// Each method of compression has its name, and the bare name of one with levels stands for its usual
/// level.
pub proof fn law_named_codecs()
    ensures
        codec_of("uncompressed"@) is Uncompressed,
        codec_of("none"@) is Uncompressed,
        codec_of("snappy"@) is Snappy,
        codec_of("lzo"@) is Lzo,
        codec_of("lz4"@) is Lz4,
        codec_of("lz4_raw"@) is Lz4Raw,
        codec_of("gzip"@) == Codec::Gzip(6),
        codec_of("brotli"@) == Codec::Brotli(1),
        codec_of("zstd"@) == Codec::Zstd(1),
{
    reveal_strlit("uncompressed");
    reveal_strlit("none");
    reveal_strlit("snappy");
    reveal_strlit("lzo");
    reveal_strlit("lz4");
    reveal_strlit("lz4_raw");
    reveal_strlit("gzip");
    reveal_strlit("brotli");
    reveal_strlit("zstd");
    assert("uncompressed"@[0] == 'u' && "none"@[0] == 'n' && "snappy"@[0] == 's');
    assert("gzip"@[0] == 'g' && "brotli"@[0] == 'b' && "zstd"@[0] == 'z');
    assert("lzo"@[0] == 'l' && "lz4"@[0] == 'l' && "lz4_raw"@[0] == 'l');
    assert("lzo"@[2] == 'o' && "lz4"@[2] == '4' && "lz4_raw"@.len() == 7 && "lz4"@.len() == 3);
}

/// A number that is set is taken, and one that is not set or not understood is the usual one.
pub proof fn law_numbers_are_read(n: nat, max: nat, signed: i64, default: nat)
    requires
        n <= max,
    ensures
        unsigned_or(Some(decimal(n)), max, default) == n,
        unsigned_or(None, max, default) == default,
        signed_or(Some(decimal_signed(signed as int)), default as int) == signed,
        signed_or(None, default as int) == default,
        n <= u64::MAX ==> optional_unsigned(Some(decimal(n))) == Some(n),
        optional_unsigned(None) is None,
{
    law_printed_number_reads_back(n, max);
    law_printed_signed_number_reads_back(signed);
    if n <= u64::MAX {
        law_printed_number_reads_back(n, u64::MAX as nat);
    }
}

} // verus!
