//! The database engine: its state, and the way of a statement through it.
use std::time::Duration;
use vstd::prelude::*;
use vstd::string::*;

use crate::access::refusal;
use crate::buffers::{written_first, BufferedInsertView, WriteBuffers};
use crate::catalog::{lookup, Catalog, CatalogState, RoleNames};
use crate::catalog_types::{
    Privilege, PrivilegeView, RoleDef, RoleView, UdfView, UserDef, UserView,
};
use crate::checkpoint_policy::{checkpoint_due, nanos};
use crate::commands::{cdc_filter, parse_cdc_filter};
use crate::dispatch::{
    checkpoint_after, classify, command_kind, ends_in_checkpoint, flush_first,
    writes_buffers_first, CommandKind,
};
use crate::dup::{views, Dup};
use crate::fulltext::{
    build_index, fulltext_message, indexed_rows, matched_query, rewrite_fulltext_match_sql,
    FulltextIndexDef, FulltextView, InvertedIndex,
};
use crate::functions::{
    expand_user_defined_functions, expanded_in_order, longest_first, text_outcome, udf_views,
};
use crate::history::{
    counted, matching_events, newest, CdcEvent, CdcLog, LogAction, LogClock, QueryLog,
    QueryLogEntry,
};
use crate::insert::column_names;
use crate::introspection::{
    handle_select_system_status, IndexEntry, QueryMetrics, SystemStatus, UserEntry,
};
use crate::location::{normal_url, Location};
use crate::maintenance::AutoAnalyze;
use crate::namemap::NameMap;
use crate::numbers::{decimal, digit_char, digits_value, print_u64};
use crate::sequences::nextval_outcome;
use crate::session::{
    unrelated, Notifications, PlanCache, PreparedStatements, Procedures, Replicas,
};
use crate::settings::Settings;
use crate::snapshots::Snapshots;
use crate::sql_helpers::{as_of_time, as_of_token, first_word, try_parse_as_of_timestamp};
use crate::statement::{
    checkpoints, extract_mutated_table, forces_checkpoint, is_mutating, mutated_table, mutates,
    StatementKind,
};
use crate::text::{
    concat2, concat3, has_prefix, starts_with, texts, trim, trim_end_matches, trim_end_matches_text,
    trim_start, trim_start_text, trim_text, upper_text,
};
use crate::transaction::TransactionState;

verus! {

/// `Duration::from_millis`: a span of so many milliseconds.
pub assume_specification[ Duration::from_millis ](millis: u64) -> (r: Duration)
    ensures
        nanos(r) == millis * 1_000_000,
;

/// The full-text indexes, by name: what each is on, and the rows that it finds.
pub struct FulltextIndexes {
    pub defs: NameMap<FulltextIndexDef>,
    pub indexes: NameMap<InvertedIndex>,
}

/// The state of a database engine. The rows of tables, files and plans are elsewhere: this is what
/// decides on them.
pub struct PotatoDB {
    pub catalog: Catalog,
    pub location: Location,
    /// The explicit transaction, if one is active.
    pub transactions: TransactionState,
    pub prepared: PreparedStatements,
    pub query_log: QueryLog,
    pub log_clock: LogClock,
    pub buffers: WriteBuffers,
    /// The number of the next table that is made for a while.
    pub temp_table_counter: u64,
    pub auto_analyze: AutoAnalyze,
    pub plans: PlanCache,
    pub procedures: Procedures,
    pub fulltext: FulltextIndexes,
    pub notifications: Notifications,
    pub cdc: CdcLog,
    pub current_user: String,
    pub snapshots: Snapshots,
    /// A table of at least this many files is compacted after a flush; 0 disables compaction.
    pub auto_compact_file_threshold: usize,
    pub last_query_metrics: QueryMetrics,
    pub replicas: Replicas,
}

/// The catalog with a first user, who may do everything, where it has no users.
pub open spec fn with_first_user(state: CatalogState, user: Seq<char>) -> CatalogState {
    if state.users.dom().is_empty() {
        CatalogState {
            users: state.users.insert(user, UserView { name: user, password: Seq::empty() }),
            roles: state.roles.insert(
                "admin"@,
                RoleView {
                    name: "admin"@,
                    privileges: seq![PrivilegeView { kind: "ALL"@, table: None }],
                },
            ),
            user_roles: state.user_roles.insert(user, seq!["admin"@]),
            ..state
        }
    } else {
        state
    }
}

impl Catalog {
    /// Gives a catalog without users a first one, who may do everything.
    pub fn ensure_first_user(&mut self, user: &str)
        requires
            old(self).wf(),
        ensures
            final(self).wf(),
            final(self)@ == with_first_user(old(self)@, user@),
            final(self).in_transaction == old(self).in_transaction,
            final(self).dirty == old(self).dirty,
    {
        let ghost before = self@;
        proof {
            if self.users.keys@.len() > 0 {
                self.users.lemma_deep_entry(0);
                assert(before.users.dom().contains(self.users.keys@[0]@));
                assert(!before.users.dom().is_empty());
            } else {
                self.users.lemma_empty();
                assert(before.users.dom() =~= Set::empty());
            }
        }
        if !self.users.is_empty() {
            return;
        }
        self.users.put(
            user.to_owned(),
            UserDef { name: user.to_owned(), password: String::new() },
        );
        let all = Privilege { kind: "ALL".to_owned(), table: None };
        let admin = RoleDef { name: "admin".to_owned(), privileges: vec![all] };
        proof {
            assert(views(admin.privileges@) =~= seq![PrivilegeView { kind: "ALL"@, table: None }]);
        }
        self.roles.put("admin".to_owned(), admin);
        let list = RoleNames { names: vec!["admin".to_owned()] };
        assert(list@ =~= seq!["admin"@]);
        self.user_roles.put(user.to_owned(), list);
        assert(self@ =~= with_first_user(before, user@));
    }
}

// ---------------------------------------------------------------------------
// The way of a statement
// ---------------------------------------------------------------------------

/// What a statement comes to before it runs.
pub enum ExecutePlan {
    /// A query on the past.
    AsOf { sql: String, timestamp_ms: i64 },
    /// A statement on the present.
    Run {
        /// The statement, with sequences, functions and full-text conditions worked in.
        sql: String,
        /// The statement without white space and semicolons around it.
        trimmed: String,
        /// The same in upper case.
        upper: String,
        kind: CommandKind,
        /// The tables whose buffered rows are written first.
        flush: Vec<String>,
    },
}

/// What an [`ExecutePlan`] says.
pub enum ExecutePlanView {
    AsOf { sql: Seq<char>, timestamp_ms: i64 },
    Run {
        sql: Seq<char>,
        trimmed: Seq<char>,
        upper: Seq<char>,
        kind: CommandKind,
        flush: Seq<Seq<char>>,
    },
}

impl View for ExecutePlan {
    type V = ExecutePlanView;

    open spec fn view(&self) -> ExecutePlanView {
        match self {
            ExecutePlan::AsOf { sql, timestamp_ms } => ExecutePlanView::AsOf {
                sql: sql@,
                timestamp_ms: *timestamp_ms,
            },
            ExecutePlan::Run { sql, trimmed, upper, kind, flush } => ExecutePlanView::Run {
                sql: sql@,
                trimmed: trimmed@,
                upper: upper@,
                kind: *kind,
                flush: texts(flush@),
            },
        }
    }
}

/// Whether a statement defines or drops a function, so that calls in it are left alone.
pub open spec fn concerns_function(sql: Seq<char>) -> bool {
    let u = upper_text(trim_start_text(sql));
    has_prefix(u, "CREATE FUNCTION "@) || has_prefix(u, "DROP FUNCTION "@)
}

/// A statement with the calls of SQL functions worked in.
pub open spec fn with_functions(sql: Seq<char>, udfs: Seq<UdfView>) -> Option<
    Result<Seq<char>, Seq<char>>,
> {
    if concerns_function(sql) {
        Some(Ok(sql))
    } else {
        expanded_in_order(sql, longest_first(udfs))
    }
}

/// A statement without white space and semicolons around it.
pub open spec fn core_text(sql: Seq<char>) -> Seq<char> {
    trim_text(trim_end_matches_text(trim_text(sql), ';'))
}

/// What a statement on the present comes to, once sequences and functions are worked in.
pub open spec fn run_plan(
    sql: Seq<char>,
    fulltext: Seq<FulltextView>,
    buffered: Seq<Seq<char>>,
) -> Option<ExecutePlanView> {
    match matched_query(sql, upper_text(sql), fulltext) {
        None => None,
        Some(s) => {
            let upper = upper_text(core_text(s));
            Some(
                ExecutePlanView::Run {
                    sql: s,
                    trimmed: core_text(s),
                    upper,
                    kind: command_kind(upper),
                    flush: if writes_buffers_first(upper) {
                        written_first(buffered, upper)
                    } else {
                        Seq::empty()
                    },
                },
            )
        },
    }
}

/// What a statement comes to, once sequences are worked in; `None` where it cannot be cut at a place
/// that was found in it.
pub open spec fn execute_plan(
    sql: Seq<char>,
    udfs: Seq<UdfView>,
    fulltext: Seq<FulltextView>,
    buffered: Seq<Seq<char>>,
) -> Option<Result<ExecutePlanView, Seq<char>>> {
    if as_of_token(sql, upper_text(sql)) is None {
        None
    } else {
        match as_of_time(sql) {
            Some(t) => Some(Ok(ExecutePlanView::AsOf { sql, timestamp_ms: t as i64 })),
            None => match with_functions(sql, udfs) {
                None => None,
                Some(Err(e)) => Some(Err(e)),
                Some(Ok(s)) => match run_plan(s, fulltext, buffered) {
                    None => None,
                    Some(p) => Some(Ok(p)),
                },
            },
        }
    }
}

/// Whether a plan is the one that the specification names.
pub open spec fn plan_outcome(
    r: Option<Result<ExecutePlan, String>>,
    spec: Option<Result<ExecutePlanView, Seq<char>>>,
) -> bool {
    match r {
        None => spec is None,
        Some(Err(e)) => spec == Some(Err::<ExecutePlanView, Seq<char>>(e@)),
        Some(Ok(p)) => spec == Some(Ok::<ExecutePlanView, Seq<char>>(p@)),
    }
}

fn expand_functions(sql: &str, catalog: &Catalog) -> (r: Option<Result<String, String>>)
    requires
        catalog.wf(),
    ensures
        text_outcome(r, with_functions(sql@, udf_views(catalog.udfs.vals@))),
{
    let u = trim_start(sql).to_uppercase();
    if starts_with(&u, "CREATE FUNCTION ") || starts_with(&u, "DROP FUNCTION ") {
        Some(Ok(sql.to_owned()))
    } else {
        expand_user_defined_functions(sql, &catalog.udfs.vals)
    }
}

/// What is done with the log once a statement has succeeded, and how many commits are counted then.
pub open spec fn log_step(
    clock: LogClock,
    in_transaction: bool,
    force: bool,
    elapsed: Duration,
) -> (LogAction, u64) {
    if clock.replaying || in_transaction || !clock.has_log {
        (LogAction::Leave, clock.commits)
    } else if checkpoint_due(
        force,
        counted(clock.commits) as nat,
        clock.every_commits as nat,
        nanos(elapsed),
        nanos(clock.interval),
    ) {
        (LogAction::Checkpoint, 0)
    } else {
        (LogAction::CommitUpTo(clock.threshold_bytes), counted(clock.commits))
    }
}

/// What is to be done once a statement has succeeded.
pub struct Finished {
    pub log: LogAction,
    /// Whether the tables are kept as they are now.
    pub capture: bool,
}

impl PotatoDB {
    /// Every part is well-formed, and the catalog knows whether a transaction is active.
    pub open spec fn wf(&self) -> bool {
        &&& self.catalog.wf()
        &&& self.transactions.wf(&self.catalog)
        &&& self.prepared.templates.deep_wf()
        &&& self.query_log.wf()
        &&& self.buffers.wf()
        &&& self.auto_analyze.rows.wf()
        &&& self.plans.wf()
        &&& self.procedures.bodies.deep_wf()
        &&& self.fulltext.defs.deep_wf()
        &&& self.fulltext.indexes.deep_wf()
        &&& self.notifications.queues.deep_wf()
        &&& self.cdc.wf()
        &&& self.replicas.wf()
    }

    /// An engine on a catalog that was loaded, outside a transaction. A catalog without users gets a
    /// first one.
    pub fn new(
        location: Location,
        catalog: Catalog,
        settings: &Settings,
        user: String,
        changes: &Vec<CdcEvent>,
        has_log: bool,
    ) -> (r: PotatoDB)
        requires
            catalog.wf(),
            !catalog.in_transaction,
        ensures
            r.wf(),
            r.location == location,
            r.catalog@ == with_first_user(catalog@, user@),
            r.catalog.dirty == catalog.dirty,
            r.transactions.active is None,
            r.transactions.counter == 1,
            r.current_user@ == user@,
            r.cdc@ == newest(views(changes@), settings.cdc_capacity as nat),
            r.cdc.capacity == settings.cdc_capacity,
            r.prepared.templates.deep() == Map::<Seq<char>, Seq<char>>::empty(),
            r.procedures.bodies.deep() == Map::<Seq<char>, Seq<char>>::empty(),
            r.fulltext.defs.names().len() == 0,
            r.fulltext.indexes.names().len() == 0,
            r.notifications.queues.deep() == Map::<Seq<char>, Seq<Seq<char>>>::empty(),
            r.last_query_metrics.parquet_files_read == 0,
            r.last_query_metrics.bytes_scanned == 0,
            r.query_log@.len() == 0,
            r.query_log.max_entries == settings.max_query_log_entries,
            r.query_log.slow_threshold_ms == settings.slow_query_threshold_ms,
            r.log_clock.commits == 0,
            r.log_clock.every_commits == settings.wal_checkpoint_every_commits,
            nanos(r.log_clock.interval) == settings.wal_checkpoint_interval_ms * 1_000_000,
            r.log_clock.threshold_bytes == settings.wal_checkpoint_threshold_bytes,
            r.log_clock.has_log == has_log,
            !r.log_clock.replaying,
            r.buffers.tables.deep() == Map::<Seq<char>, BufferedInsertView>::empty(),
            r.buffers.row_threshold == settings.write_buffer_row_threshold,
            r.buffers.byte_threshold == settings.write_buffer_byte_threshold,
            nanos(r.buffers.time_threshold) == settings.write_buffer_time_threshold_ms * 1_000_000,
            r.auto_analyze.threshold == settings.auto_analyze_threshold_rows,
            r.auto_analyze.pending@.len() == 0,
            r.auto_analyze.rows@ == Map::<Seq<char>, usize>::empty(),
            r.snapshots.times@.len() == 0,
            !r.snapshots.enabled,
            r.snapshots.retention_ms == settings.snapshot_retention_ms,
            r.auto_compact_file_threshold == settings.auto_compact_file_threshold,
            r.plans.list().len() == 0,
            r.plans.hits == 0,
            r.replicas.list().len() == 0,
            r.temp_table_counter == 0,
    {
        let mut catalog = catalog;
        catalog.ensure_first_user(&user);
        let defs: NameMap<FulltextIndexDef> = NameMap::new();
        let indexes: NameMap<InvertedIndex> = NameMap::new();
        proof {
            defs.lemma_empty();
            indexes.lemma_empty();
        }
        PotatoDB {
            catalog,
            location,
            transactions: TransactionState::new(),
            prepared: PreparedStatements::new(),
            query_log: QueryLog::new(
                settings.max_query_log_entries,
                settings.slow_query_threshold_ms,
            ),
            log_clock: LogClock {
                commits: 0,
                every_commits: settings.wal_checkpoint_every_commits,
                interval: Duration::from_millis(settings.wal_checkpoint_interval_ms),
                threshold_bytes: settings.wal_checkpoint_threshold_bytes,
                replaying: false,
                has_log,
            },
            buffers: WriteBuffers::new(
                settings.write_buffer_row_threshold,
                settings.write_buffer_byte_threshold,
                Duration::from_millis(settings.write_buffer_time_threshold_ms),
            ),
            temp_table_counter: 0,
            auto_analyze: AutoAnalyze::new(settings.auto_analyze_threshold_rows),
            plans: PlanCache::new(),
            procedures: Procedures::new(),
            fulltext: FulltextIndexes { defs, indexes },
            notifications: Notifications::new(),
            cdc: CdcLog::load(settings.cdc_capacity, changes),
            current_user: user,
            snapshots: Snapshots::new(settings.snapshot_retention_ms),
            auto_compact_file_threshold: settings.auto_compact_file_threshold,
            last_query_metrics: QueryMetrics::default(),
            replicas: Replicas::new(),
        }
    }

    /// What a statement comes to before it runs. Sequences that it draws from move on, whatever
    /// becomes of it afterwards; `None` where it cannot be cut at a place that was found in it.
    pub fn execute(&mut self, sql: &str) -> (r: Option<Result<ExecutePlan, String>>)
        requires
            old(self).wf(),
        ensures
            final(self).wf(),
            *final(self) == (PotatoDB {
                catalog: final(self).catalog,
                last_query_metrics: final(self).last_query_metrics,
                ..*old(self)
            }),
            final(self).last_query_metrics.parquet_files_read == 0,
            final(self).last_query_metrics.bytes_scanned == 0,
            ({
                let drawn = nextval_outcome(old(self).catalog@, sql@);
                &&& final(self).catalog@ == drawn.state
                &&& final(self).catalog.in_transaction == old(self).catalog.in_transaction
                &&& final(self).catalog.dirty == (old(self).catalog.dirty || (
                !old(self).catalog.in_transaction && drawn.drawn > 0))
                &&& match drawn.text {
                    None => r is None,
                    Some(Err(e)) => r matches Some(Err(x)) && x@ == e,
                    Some(Ok(s)) => plan_outcome(
                        r,
                        execute_plan(
                            s,
                            udf_views(final(self).catalog.udfs.vals@),
                            views(final(self).fulltext.defs.vals@),
                            final(self).buffers.tables.names(),
                        ),
                    ),
                }
            }),
    {
        self.last_query_metrics = QueryMetrics::default();
        let drawn = match self.catalog.expand_nextval_calls(sql) {
            None => {
                return None;
            },
            Some(Err(e)) => {
                return Some(Err(e));
            },
            Some(Ok(s)) => s,
        };
        match try_parse_as_of_timestamp(&drawn) {
            None => {
                return None;
            },
            Some(Some(t)) => {
                return Some(Ok(ExecutePlan::AsOf { sql: drawn, timestamp_ms: t }));
            },
            Some(None) => {},
        }
        let called = match expand_functions(&drawn, &self.catalog) {
            None => {
                return None;
            },
            Some(Err(e)) => {
                return Some(Err(e));
            },
            Some(Ok(s)) => s,
        };
        let effective = match rewrite_fulltext_match_sql(&called, &self.fulltext.defs.vals) {
            None => {
                return None;
            },
            Some(s) => s,
        };
        let trimmed = trim(&trim_end_matches(&trim(&effective), ';'));
        let upper = trimmed.to_uppercase();
        let kind = classify(&upper);
        let flush = if flush_first(&upper) {
            self.buffers.flush_buffered_for_sql(&upper)
        } else {
            Vec::new()
        };
        assert(!writes_buffers_first(upper@) ==> texts(flush@) =~= Seq::<Seq<char>>::empty());
        Some(Ok(ExecutePlan::Run { sql: effective, trimmed, upper, kind, flush }))
    }

    /// What is to be done once a command that is told by its first words has succeeded.
    pub fn finish_command(&mut self, kind: CommandKind, elapsed: Duration) -> (r: LogAction)
        requires
            old(self).wf(),
        ensures
            final(self).wf(),
            *final(self) == (PotatoDB {
                log_clock: LogClock { commits: final(self).log_clock.commits, ..old(self).log_clock },
                ..*old(self)
            }),
            if ends_in_checkpoint(kind) {
                log_step(
                    old(self).log_clock,
                    old(self).transactions.active is Some,
                    true,
                    elapsed,
                ) == (r, final(self).log_clock.commits)
            } else {
                r == LogAction::Leave && *final(self) == *old(self)
            },
    {
        if checkpoint_after(kind) {
            let in_transaction: bool = self.transactions.in_transaction();
            self.log_clock.wal_finish_autocommit(in_transaction, true, elapsed)
        } else {
            LogAction::Leave
        }
    }

    /// What is to be done once a statement that the SQL parser read has succeeded. A statement that
    /// changes data makes plans stale, ends in the log, and is kept in view of later questions about
    /// the past.
    pub fn finish_statement(&mut self, kind: StatementKind, sql: &str, elapsed: Duration) -> (r:
        Finished)
        requires
            old(self).wf(),
        ensures
            final(self).wf(),
            *final(self) == (PotatoDB {
                log_clock: LogClock { commits: final(self).log_clock.commits, ..old(self).log_clock },
                plans: final(self).plans,
                ..*old(self)
            }),
            if is_mutating(kind) {
                &&& final(self).plans.hits == old(self).plans.hits
                &&& final(self).plans.list() == match mutated_table(kind, sql@) {
                    Some(t) => unrelated(old(self).plans.list(), t, old(self).plans.list().len()),
                    None => Seq::empty(),
                }
                &&& log_step(
                    old(self).log_clock,
                    old(self).transactions.active is Some,
                    forces_checkpoint(kind),
                    elapsed,
                ) == (r.log, final(self).log_clock.commits)
                &&& r.capture == old(self).snapshots.enabled
            } else {
                r.log == LogAction::Leave && !r.capture && *final(self) == *old(self)
            },
    {
        if !mutates(kind) {
            return Finished { log: LogAction::Leave, capture: false };
        }
        let table = extract_mutated_table(kind, sql);
        self.plans.evict_plan_cache(&table);
        let in_transaction: bool = self.transactions.in_transaction();
        let log = self.log_clock.wal_finish_autocommit(
            in_transaction,
            checkpoints(kind),
            elapsed,
        );
        Finished { log, capture: self.snapshots.enabled }
    }

    /// Refuses a statement that the session's user has no privilege for.
    pub fn enforce_access(&self, trimmed: &str) -> (r: Result<(), String>)
        requires
            self.wf(),
        ensures
            match r {
                Ok(()) => refusal(
                    self.catalog@,
                    self.current_user@,
                    upper_text(first_word(trimmed@)),
                ) is None,
                Err(e) => refusal(
                    self.catalog@,
                    self.current_user@,
                    upper_text(first_word(trimmed@)),
                ) == Some(e@),
            },
    {
        self.catalog.enforce_access(&self.current_user, trimmed)
    }

    /// A name for a table that is made for a while. No two are the same until the numbers run out.
    pub fn next_temp_name(&mut self, tag: &str) -> (r: String)
        requires
            old(self).wf(),
        ensures
            final(self).wf(),
            r@ == "__potato_"@ + tag@ + "_tmp_"@ + decimal(old(self).temp_table_counter as nat),
            *final(self) == (PotatoDB {
                temp_table_counter: if old(self).temp_table_counter == u64::MAX {
                    u64::MAX
                } else {
                    (old(self).temp_table_counter + 1) as u64
                },
                ..*old(self)
            }),
    {
        let id: u64 = self.temp_table_counter;
        if self.temp_table_counter < u64::MAX {
            self.temp_table_counter = self.temp_table_counter + 1;
        }
        concat2(&concat3("__potato_", tag, "_tmp_"), &print_u64(id))
    }

    /// The changes that a query on the change log asks for; `None` where the query cannot be cut at
    /// a place that was found in it.
    pub fn handle_select_cdc(&self, sql: &str) -> (r: Option<Vec<CdcEvent>>)
        requires
            self.wf(),
        ensures
            match cdc_filter(sql@, upper_text(sql@)) {
                None => r is None,
                Some(table) => r matches Some(list) && views(list@) == matching_events(
                    self.cdc@,
                    table,
                    self.cdc@.len(),
                ),
            },
    {
        match parse_cdc_filter(sql) {
            None => None,
            Some(table) => Some(self.cdc.handle_select_cdc(&table)),
        }
    }

    /// The row that tells the state of the engine.
    pub fn handle_select_system_status(&self) -> (r: SystemStatus)
        requires
            self.wf(),
        ensures
            r.plan_cache_entries == self.plans.list().len() as i64,
            r.plan_cache_hits == self.plans.hits as i64,
            r.query_log_entries == self.query_log@.len() as i64,
            r.snapshots == self.snapshots.times@.len() as i64,
            r.wal_commits_since_checkpoint == self.log_clock.commits as i64,
            r.wal_checkpoint_threshold_bytes == self.log_clock.threshold_bytes as i64,
            r.last_query_parquet_files_read == self.last_query_metrics.parquet_files_read as i64,
            r.last_query_bytes_scanned == self.last_query_metrics.bytes_scanned as i64,
    {
        handle_select_system_status(
            &self.plans,
            &self.query_log,
            &self.snapshots,
            &self.log_clock,
            &self.last_query_metrics,
        )
    }

    /// Notes a full-text index with the rows of its table. An index of the same name goes.
    pub fn handle_create_fulltext_index(&mut self, name: &str, def: FulltextIndexDef, rows: &Vec<
        crate::cells::Row,
    >) -> (r: String)
        requires
            old(self).wf(),
            def.wf(),
        ensures
            final(self).wf(),
            r@ == "Fulltext index '"@ + name@ + "' created on '"@ + def@.table_name + "'."@,
            *final(self) == (PotatoDB { fulltext: final(self).fulltext, ..*old(self) }),
            final(self).fulltext.defs.deep() == old(self).fulltext.defs.deep().insert(name@, def@),
            final(self).fulltext.indexes.deep() == old(self).fulltext.indexes.deep().insert(
                name@,
                indexed_rows(def@.table_name, views(rows@), views(rows@).len()),
            ),
    {
        let index = build_index(&def.table_name, rows);
        let message = fulltext_message(name, &def.table_name);
        self.fulltext.defs.put(name.to_owned(), def);
        self.fulltext.indexes.put(name.to_owned(), index);
        message
    }

    // -----------------------------------------------------------------------
    // What the engine tells
    // -----------------------------------------------------------------------

    /// Whether an explicit transaction is active.
    pub fn in_transaction(&self) -> (r: bool)
        ensures
            r == (self.transactions.active is Some),
    {
        self.transactions.in_transaction()
    }

    /// The address of the database.
    pub fn data_url(&self) -> (r: String)
        ensures
            r@ == normal_url(self.location@),
    {
        self.location.data_url()
    }

    /// The names of all tables.
    pub fn table_names(&self) -> (r: Vec<String>)
        requires
            self.wf(),
        ensures
            texts(r@) == self.catalog.tables.names(),
    {
        self.catalog.table_names()
    }

    /// The names of the columns of a table; none where the table is not there.
    pub fn table_columns(&self, table_name: &str) -> (r: Vec<String>)
        requires
            self.wf(),
        ensures
            texts(r@) == match lookup(self.catalog@.tables, table_name@) {
                Some(meta) => column_names(meta.columns),
                None => Seq::empty(),
            },
    {
        self.catalog.table_columns(table_name)
    }

    /// The names of all indexes, each with its table.
    pub fn indexes(&self) -> (r: Vec<IndexEntry>)
        requires
            self.wf(),
        ensures
            r@.len() == self.catalog.indexes.names().len(),
            forall|i: int|
                0 <= i < r@.len() ==> (#[trigger] r@[i]).name@ == self.catalog.indexes.names()[i]
                    && r@[i].table_name@
                    == self.catalog@.indexes[self.catalog.indexes.names()[i]].table_name,
    {
        self.catalog.indexes()
    }

    /// The names of all views.
    pub fn view_names(&self) -> (r: Vec<String>)
        requires
            self.wf(),
        ensures
            texts(r@) == self.catalog.views.names(),
    {
        self.catalog.view_names()
    }

    /// The names of all SQL functions.
    pub fn function_names(&self) -> (r: Vec<String>)
        requires
            self.wf(),
        ensures
            texts(r@) == self.catalog.udfs.names(),
    {
        self.catalog.function_names()
    }

    /// The names of all sequences.
    pub fn sequence_names(&self) -> (r: Vec<String>)
        requires
            self.wf(),
        ensures
            texts(r@) == self.catalog.sequences.names(),
    {
        self.catalog.sequence_names()
    }

    /// All users, each with the names of the user's roles.
    pub fn user_info(&self) -> (r: Vec<UserEntry>)
        requires
            self.wf(),
        ensures
            r@.len() == self.catalog.users.names().len(),
            forall|i: int|
                0 <= i < r@.len() ==> (#[trigger] r@[i]).name@ == self.catalog.users.names()[i]
                    && texts(r@[i].roles@) == match lookup(
                    self.catalog@.user_roles,
                    self.catalog.users.names()[i],
                ) {
                    Some(list) => list,
                    None => Seq::empty(),
                },
    {
        self.catalog.user_info()
    }

    /// What was read for the last query.
    pub fn last_query_metrics(&self) -> (r: QueryMetrics)
        ensures
            r == self.last_query_metrics,
    {
        self.last_query_metrics
    }

    /// How many plans are kept, and how often one was used.
    pub fn plan_cache_stats(&self) -> (r: (usize, u64))
        ensures
            r.0 == self.plans.list().len(),
            r.1 == self.plans.hits,
    {
        self.plans.plan_cache_stats()
    }

    /// How many deletion vectors a table has; none where the table is not there.
    pub fn deletion_vector_count(&self, table: &str) -> (r: usize)
        requires
            self.wf(),
        ensures
            r == match lookup(self.catalog@.tables, table@) {
                Some(meta) => meta.deletion_vectors.len(),
                None => 0,
            },
    {
        self.catalog.deletion_vector_count(table)
    }

    /// The addresses of the replicas.
    pub fn replica_urls(&self) -> (r: Vec<String>)
        ensures
            texts(r@) == self.replicas.list(),
    {
        self.replicas.replica_urls()
    }

    /// The recent queries, oldest first.
    pub fn recent_queries(&self) -> (r: Vec<QueryLogEntry>)
        ensures
            views(r@) == self.query_log@,
    {
        self.query_log.recent_queries()
    }
}

// ---------------------------------------------------------------------------
// Laws
// ---------------------------------------------------------------------------

/// The first user of a new catalog may do everything.
pub proof fn law_first_user_is_admin(state: CatalogState, user: Seq<char>, action: Seq<char>)
    requires
        state.users.dom().is_empty(),
    ensures
        refusal(with_first_user(state, user), user, action) is None,
{
    let s = with_first_user(state, user);
    assert(s.user_roles[user] == seq!["admin"@]);
    assert(s.user_roles[user][0] == "admin"@);
    assert(s.user_roles[user].contains("admin"@));
    let role = s.roles["admin"@];
    assert(role.privileges[0].kind == "ALL"@);
    assert(crate::access::has_role(s, user, "admin"@));
}

/// A catalog that has users keeps them as they are.
pub proof fn law_known_users_stay(state: CatalogState, user: Seq<char>)
    requires
        !state.users.dom().is_empty(),
    ensures
        with_first_user(state, user) == state,
{
}

/// Two tables that are made for a while, one after the other, have different names.
pub proof fn law_temp_names_differ(tag: Seq<char>, a: nat, b: nat)
    requires
        "__potato_"@ + tag + "_tmp_"@ + decimal(a) == "__potato_"@ + tag + "_tmp_"@ + decimal(b),
    ensures
        a == b,
{
    let p = "__potato_"@ + tag + "_tmp_"@;
    let x = p + decimal(a);
    let y = p + decimal(b);
    assert(decimal(a) =~= x.subrange(p.len() as int, x.len() as int));
    assert(decimal(b) =~= y.subrange(p.len() as int, y.len() as int));
    lemma_decimal_value(a);
    lemma_decimal_value(b);
}

proof fn lemma_decimal_value(n: nat)
    ensures
        digits_value(decimal(n)) == n,
    decreases n,
{
    reveal_with_fuel(digits_value, 2);
    if n >= 10 {
        lemma_decimal_value(n / 10);
    }
    let d = decimal(n);
    assert(d.last() == digit_char(n % 10));
    assert(n >= 10 ==> d.drop_last() =~= decimal(n / 10));
    assert(n < 10 ==> d.drop_last() =~= Seq::<char>::empty());
}

/// Within a transaction, while the log is read back and without a log nothing is done to it. A checkpoint
/// starts the count of commits anew, and anything else counts one more.
pub proof fn law_log_steps(clock: LogClock, in_transaction: bool, force: bool, elapsed: Duration)
    ensures
        ({
            let (action, commits) = log_step(clock, in_transaction, force, elapsed);
            let quiet = clock.replaying || in_transaction || !clock.has_log;
            &&& quiet ==> action is Leave && commits == clock.commits
            &&& !quiet && force ==> action is Checkpoint
            &&& !quiet ==> !(action is Leave)
            &&& action is Checkpoint ==> commits == 0
            &&& action is CommitUpTo && clock.commits < u64::MAX ==> commits == clock.commits + 1
            &&& !quiet && clock.every_commits > 0 && clock.commits < u64::MAX && clock.commits + 1
                >= clock.every_commits ==> action is Checkpoint
        }),
{
}

/// A statement on functions is not expanded itself. A text that asks for the past is answered from there.
/// Buffered rows are written first only where the command is to see them.
pub proof fn law_plans(
    sql: Seq<char>,
    udfs: Seq<UdfView>,
    fulltext: Seq<FulltextView>,
    buffered: Seq<Seq<char>>,
)
    ensures
        concerns_function(sql) ==> with_functions(sql, udfs) == Some(
            Ok::<Seq<char>, Seq<char>>(sql),
        ),
        as_of_time(sql) is Some && as_of_token(sql, upper_text(sql)) is Some ==> execute_plan(
            sql,
            udfs,
            fulltext,
            buffered,
        ) matches Some(Ok(ExecutePlanView::AsOf { .. })),
        run_plan(sql, fulltext, buffered) matches Some(
            ExecutePlanView::Run { sql: s, trimmed, upper, kind, flush },
        ) ==> {
            &&& trimmed == core_text(s)
            &&& upper == upper_text(trimmed)
            &&& kind == command_kind(upper)
            &&& !writes_buffers_first(upper) ==> flush.len() == 0
            &&& writes_buffers_first(upper) ==> flush == written_first(buffered, upper)
        },
{
}

} // verus!
