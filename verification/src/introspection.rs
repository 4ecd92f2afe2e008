//! What the engine tells of itself: its state, and the tables of the PostgreSQL catalog.
use vstd::prelude::*;
use vstd::string::*;

use crate::catalog::{lookup, Catalog};
use crate::catalog_types::{ColumnDef, ColumnView, TableView};
use crate::dup::{views, Dup};
use crate::history::{LogClock, QueryLog};
use crate::insert::{column_names, list_column_names};
use crate::session::PlanCache;
use crate::snapshots::Snapshots;
use crate::text::{clone_strings, contains, contains_seq, texts, upper_text};
use crate::types::{pg_oid, sql_type_to_pg_oid};

verus! {

// ---------------------------------------------------------------------------
// The state of the engine
// ---------------------------------------------------------------------------

/// What was read for a query.
#[derive(Clone, Copy, Debug, PartialEq, Eq, Structural)]
pub struct QueryMetrics {
    /// Number of Parquet files opened during the query.
    pub parquet_files_read: usize,
    /// Approximate bytes scanned from Parquet.
    pub bytes_scanned: u64,
}

impl Default for QueryMetrics {
    fn default() -> (r: QueryMetrics)
        ensures
            r.parquet_files_read == 0,
            r.bytes_scanned == 0,
    {
        QueryMetrics { parquet_files_read: 0, bytes_scanned: 0 }
    }
}

/// The row that tells the state of the engine. Numbers that do not fit wrap around.
#[derive(Clone, Copy, Debug, PartialEq, Eq, Structural)]
pub struct SystemStatus {
    pub plan_cache_entries: i64,
    pub plan_cache_hits: i64,
    pub query_log_entries: i64,
    pub snapshots: i64,
    pub wal_commits_since_checkpoint: i64,
    pub wal_checkpoint_threshold_bytes: i64,
    pub last_query_parquet_files_read: i64,
    pub last_query_bytes_scanned: i64,
}

/// The row that tells the state of the engine.
#[verifier::truncate]
pub fn handle_select_system_status(
    plans: &PlanCache,
    log: &QueryLog,
    snapshots: &Snapshots,
    clock: &LogClock,
    metrics: &QueryMetrics,
) -> (r: SystemStatus)
    ensures
        r.plan_cache_entries == plans.list().len() as i64,
        r.plan_cache_hits == plans.hits as i64,
        r.query_log_entries == log@.len() as i64,
        r.snapshots == snapshots.times@.len() as i64,
        r.wal_commits_since_checkpoint == clock.commits as i64,
        r.wal_checkpoint_threshold_bytes == clock.threshold_bytes as i64,
        r.last_query_parquet_files_read == metrics.parquet_files_read as i64,
        r.last_query_bytes_scanned == metrics.bytes_scanned as i64,
{
    SystemStatus {
        plan_cache_entries: plans.queries.len() as i64,
        plan_cache_hits: plans.hits as i64,
        query_log_entries: log.entries.len() as i64,
        snapshots: snapshots.times.len() as i64,
        wal_commits_since_checkpoint: clock.commits as i64,
        wal_checkpoint_threshold_bytes: clock.threshold_bytes as i64,
        last_query_parquet_files_read: metrics.parquet_files_read as i64,
        last_query_bytes_scanned: metrics.bytes_scanned as i64,
    }
}

// ---------------------------------------------------------------------------
// The PostgreSQL catalog
// ---------------------------------------------------------------------------

/// A row of `pg_type`.
pub struct PgType {
    pub oid: i32,
    pub typname: String,
    pub typlen: i16,
}

impl View for PgType {
    type V = (i32, Seq<char>, i16);

    open spec fn view(&self) -> (i32, Seq<char>, i16) {
        (self.oid, self.typname@, self.typlen)
    }
}

/// A row of `pg_class` or `pg_namespace`.
pub struct PgName {
    pub oid: i32,
    pub name: String,
}

impl View for PgName {
    type V = (i32, Seq<char>);

    open spec fn view(&self) -> (i32, Seq<char>) {
        (self.oid, self.name@)
    }
}

/// A row of `pg_attribute`.
pub struct PgAttribute {
    pub attrelid: i32,
    pub attname: String,
    pub attnum: i32,
    pub atttypid: i32,
}

/// What a [`PgAttribute`] says.
pub struct PgAttributeView {
    pub attrelid: i32,
    pub attname: Seq<char>,
    pub attnum: i32,
    pub atttypid: i32,
}

impl View for PgAttribute {
    type V = PgAttributeView;

    open spec fn view(&self) -> PgAttributeView {
        PgAttributeView {
            attrelid: self.attrelid,
            attname: self.attname@,
            attnum: self.attnum,
            atttypid: self.atttypid,
        }
    }
}

/// The answer to a query on the PostgreSQL catalog.
pub enum PgAnswer {
    Types(Vec<PgType>),
    Classes(Vec<PgName>),
    Namespaces(Vec<PgName>),
    Attributes(Vec<PgAttribute>),
    /// No rows at all, not even columns.
    Nothing,
}

/// What a [`PgAnswer`] says.
pub enum PgAnswerView {
    Types(Seq<(i32, Seq<char>, i16)>),
    Classes(Seq<(i32, Seq<char>)>),
    Namespaces(Seq<(i32, Seq<char>)>),
    Attributes(Seq<PgAttributeView>),
    Nothing,
}

impl View for PgAnswer {
    type V = PgAnswerView;

    open spec fn view(&self) -> PgAnswerView {
        match self {
            PgAnswer::Types(v) => PgAnswerView::Types(views(v@)),
            PgAnswer::Classes(v) => PgAnswerView::Classes(views(v@)),
            PgAnswer::Namespaces(v) => PgAnswerView::Namespaces(views(v@)),
            PgAnswer::Attributes(v) => PgAnswerView::Attributes(views(v@)),
            PgAnswer::Nothing => PgAnswerView::Nothing,
        }
    }
}

/// The types that are told.
pub open spec fn known_types() -> Seq<(i32, Seq<char>, i16)> {
    seq![
        (23i32, "int4"@, 4i16),
        (1043i32, "varchar"@, -1i16),
        (16i32, "bool"@, 1i16),
        (701i32, "float8"@, 8i16),
        (25i32, "text"@, -1i16),
        (1114i32, "timestamp"@, 8i16),
        (1082i32, "date"@, 4i16),
    ]
}

/// The tables, numbered from 1 in the catalog's order.
pub open spec fn numbered(names: Seq<Seq<char>>) -> Seq<(i32, Seq<char>)> {
    Seq::new(names.len(), |i: int| ((i + 1) as i32, names[i]))
}

/// The columns of a table, numbered from 1.
pub open spec fn table_attributes(relid: i32, cs: Seq<ColumnView>) -> Seq<PgAttributeView> {
    Seq::new(
        cs.len(),
        |i: int|
            PgAttributeView {
                attrelid: relid,
                attname: cs[i].name,
                attnum: (i + 1) as i32,
                atttypid: pg_oid(upper_text(cs[i].data_type)),
            },
    )
}

/// The columns of the first `n` tables.
pub open spec fn all_attributes(tables: Seq<TableView>, n: nat) -> Seq<PgAttributeView>
    decreases n,
{
    if n == 0 || n > tables.len() {
        Seq::empty()
    } else {
        all_attributes(tables, (n - 1) as nat) + table_attributes(n as i32, tables[n - 1].columns)
    }
}

/// The answer to a query on the PostgreSQL catalog, by the table that it mentions.
pub open spec fn pg_answer(
    upper: Seq<char>,
    names: Seq<Seq<char>>,
    tables: Seq<TableView>,
) -> PgAnswerView {
    if contains_seq(upper, "PG_TYPE"@) {
        PgAnswerView::Types(known_types())
    } else if contains_seq(upper, "PG_CLASS"@) {
        PgAnswerView::Classes(numbered(names))
    } else if contains_seq(upper, "PG_NAMESPACE"@) {
        PgAnswerView::Namespaces(seq![(2200i32, "public"@)])
    } else if contains_seq(upper, "PG_ATTRIBUTE"@) {
        PgAnswerView::Attributes(all_attributes(tables, tables.len()))
    } else {
        PgAnswerView::Nothing
    }
}

fn list_types() -> (r: Vec<PgType>)
    ensures
        views(r@) == known_types(),
{
    let list = vec![
        PgType { oid: 23, typname: "int4".to_owned(), typlen: 4 },
        PgType { oid: 1043, typname: "varchar".to_owned(), typlen: -1 },
        PgType { oid: 16, typname: "bool".to_owned(), typlen: 1 },
        PgType { oid: 701, typname: "float8".to_owned(), typlen: 8 },
        PgType { oid: 25, typname: "text".to_owned(), typlen: -1 },
        PgType { oid: 1114, typname: "timestamp".to_owned(), typlen: 8 },
        PgType { oid: 1082, typname: "date".to_owned(), typlen: 4 },
    ];
    assert(views(list@) =~= known_types());
    list
}

fn list_attributes(relid: i32, cs: &Vec<ColumnDef>, out: &mut Vec<PgAttribute>)
    requires
        cs@.len() < i32::MAX,
    ensures
        views(final(out)@) == views(old(out)@) + table_attributes(relid, views(cs@)),
{
    let ghost start = views(out@);
    let ghost goal = table_attributes(relid, views(cs@));
    let mut i: usize = 0;
    assert(goal.subrange(0, 0) =~= Seq::<PgAttributeView>::empty());
    assert(views(out@) =~= start + goal.subrange(0, 0));
    while i < cs.len()
        invariant
            i <= cs@.len(),
            cs@.len() < i32::MAX,
            goal == table_attributes(relid, views(cs@)),
            goal.len() == cs@.len(),
            start == views(old(out)@),
            views(out@) == start + goal.subrange(0, i as int),
        decreases cs@.len() - i,
    {
        let ghost done = out@;
        assert(views(cs@)[i as int] == cs@[i as int]@);
        let row = PgAttribute {
            attrelid: relid,
            attname: cs[i].name.clone(),
            attnum: (i + 1) as i32,
            atttypid: sql_type_to_pg_oid(&cs[i].data_type),
        };
        let ghost rv = row@;
        out.push(row);
        assert(views(out@) =~= views(done).push(rv));
        i += 1;
        assert(goal.subrange(0, i as int) =~= goal.subrange(0, i - 1).push(rv));
    }
    assert(goal.subrange(0, goal.len() as int) =~= goal);
}

impl Catalog {
    /// The answer to a query on the PostgreSQL catalog, where there are not more tables and columns
    /// than can be numbered.
    pub fn handle_pg_catalog_query(&self, sql: &str) -> (r: PgAnswer)
        requires
            self.wf(),
            self.tables.names().len() < i32::MAX,
            forall|i: int|
                0 <= i < self.tables.vals@.len() ==> (#[trigger] self.tables.vals@[i]).columns@.len()
                    < i32::MAX,
        ensures
            r@ == pg_answer(upper_text(sql@), self.tables.names(), views(self.tables.vals@)),
    {
        let upper = sql.to_uppercase();
        if contains(&upper, "PG_TYPE") {
            return PgAnswer::Types(list_types());
        }
        if contains(&upper, "PG_CLASS") {
            let ghost names = self.tables.names();
            let mut out: Vec<PgName> = Vec::new();
            let mut i: usize = 0;
            while i < self.tables.keys.len()
                invariant
                    i <= self.tables.keys@.len(),
                    names == self.tables.names(),
                    names.len() == self.tables.keys@.len(),
                    names.len() < i32::MAX,
                    out@.len() == i,
                    forall|j: int| 0 <= j < i ==> (#[trigger] out@[j])@ == numbered(names)[j],
                decreases self.tables.keys@.len() - i,
            {
                assert(names[i as int] == self.tables.keys@[i as int]@);
                out.push(PgName { oid: (i + 1) as i32, name: self.tables.keys[i].clone() });
                i += 1;
            }
            assert(views(out@) =~= numbered(names));
            return PgAnswer::Classes(out);
        }
        if contains(&upper, "PG_NAMESPACE") {
            let list = vec![PgName { oid: 2200, name: "public".to_owned() }];
            assert(views(list@) =~= seq![(2200i32, "public"@)]);
            return PgAnswer::Namespaces(list);
        }
        if contains(&upper, "PG_ATTRIBUTE") {
            let ghost tables = views(self.tables.vals@);
            let mut out: Vec<PgAttribute> = Vec::new();
            let mut i: usize = 0;
            assert(views(out@) =~= Seq::<PgAttributeView>::empty());
            while i < self.tables.vals.len()
                invariant
                    i <= self.tables.vals@.len(),
                    tables == views(self.tables.vals@),
                    tables.len() == self.tables.vals@.len(),
                    tables.len() < i32::MAX,
                    forall|k: int|
                        0 <= k < self.tables.vals@.len() ==> (
                        #[trigger] self.tables.vals@[k]).columns@.len() < i32::MAX,
                    views(out@) == all_attributes(tables, i as nat),
                decreases self.tables.vals@.len() - i,
            {
                assert(tables[i as int] == self.tables.vals@[i as int]@);
                list_attributes((i + 1) as i32, &self.tables.vals[i].columns, &mut out);
                i += 1;
            }
            return PgAnswer::Attributes(out);
        }
        PgAnswer::Nothing
    }
}

// ---------------------------------------------------------------------------
// What the catalog holds
// ---------------------------------------------------------------------------

/// An index and the table it belongs to.
pub struct IndexEntry {
    pub name: String,
    pub table_name: String,
}

/// A user and the names of the user's roles.
pub struct UserEntry {
    pub name: String,
    pub roles: Vec<String>,
}

impl Catalog {
    /// The names of all tables.
    pub fn table_names(&self) -> (r: Vec<String>)
        requires
            self.wf(),
        ensures
            texts(r@) == self.tables.names(),
    {
        self.tables.key_list()
    }

    /// The names of the columns of a table; none where the table is not there.
    pub fn table_columns(&self, table_name: &str) -> (r: Vec<String>)
        requires
            self.wf(),
        ensures
            texts(r@) == match lookup(self@.tables, table_name@) {
                Some(meta) => column_names(meta.columns),
                None => Seq::empty(),
            },
    {
        match self.tables.lookup(table_name) {
            Some(meta) => list_column_names(&meta.columns),
            None => {
                let none: Vec<String> = Vec::new();
                assert(texts(none@) =~= Seq::<Seq<char>>::empty());
                none
            },
        }
    }

    /// The names of all indexes, each with its table.
    pub fn indexes(&self) -> (r: Vec<IndexEntry>)
        requires
            self.wf(),
        ensures
            r@.len() == self.indexes.names().len(),
            forall|i: int|
                0 <= i < r@.len() ==> (#[trigger] r@[i]).name@ == self.indexes.names()[i]
                    && r@[i].table_name@ == self@.indexes[self.indexes.names()[i]].table_name,
    {
        let ghost names = self.indexes.names();
        let mut out: Vec<IndexEntry> = Vec::new();
        let mut i: usize = 0;
        while i < self.indexes.keys.len()
            invariant
                self.wf(),
                i <= self.indexes.keys@.len(),
                names == self.indexes.names(),
                names.len() == self.indexes.keys@.len(),
                out@.len() == i,
                forall|j: int|
                    0 <= j < i ==> (#[trigger] out@[j]).name@ == names[j] && out@[j].table_name@
                        == self@.indexes[names[j]].table_name,
            decreases self.indexes.keys@.len() - i,
        {
            proof {
                self.indexes.lemma_deep_entry(i as int);
                assert(names[i as int] == self.indexes.keys@[i as int]@);
            }
            out.push(
                IndexEntry {
                    name: self.indexes.keys[i].clone(),
                    table_name: self.indexes.vals[i].table_name.clone(),
                },
            );
            i += 1;
        }
        out
    }

    /// The names of all views.
    pub fn view_names(&self) -> (r: Vec<String>)
        requires
            self.wf(),
        ensures
            texts(r@) == self.views.names(),
    {
        self.views.key_list()
    }

    /// The names of all SQL functions.
    pub fn function_names(&self) -> (r: Vec<String>)
        requires
            self.wf(),
        ensures
            texts(r@) == self.udfs.names(),
    {
        self.udfs.key_list()
    }

    /// The names of all sequences.
    pub fn sequence_names(&self) -> (r: Vec<String>)
        requires
            self.wf(),
        ensures
            texts(r@) == self.sequences.names(),
    {
        self.sequences.key_list()
    }

    /// All users, each with the names of the user's roles.
    pub fn user_info(&self) -> (r: Vec<UserEntry>)
        requires
            self.wf(),
        ensures
            r@.len() == self.users.names().len(),
            forall|i: int|
                0 <= i < r@.len() ==> (#[trigger] r@[i]).name@ == self.users.names()[i] && texts(
                    r@[i].roles@,
                ) == match lookup(self@.user_roles, self.users.names()[i]) {
                    Some(list) => list,
                    None => Seq::empty(),
                },
    {
        let ghost names = self.users.names();
        let mut out: Vec<UserEntry> = Vec::new();
        let mut i: usize = 0;
        while i < self.users.keys.len()
            invariant
                self.wf(),
                i <= self.users.keys@.len(),
                names == self.users.names(),
                names.len() == self.users.keys@.len(),
                out@.len() == i,
                forall|j: int|
                    0 <= j < i ==> (#[trigger] out@[j]).name@ == names[j] && texts(out@[j].roles@)
                        == match lookup(self@.user_roles, names[j]) {
                        Some(list) => list,
                        None => Seq::empty(),
                    },
            decreases self.users.keys@.len() - i,
        {
            assert(names[i as int] == self.users.keys@[i as int]@);
            let roles = match self.user_roles.lookup(&self.users.keys[i]) {
                Some(list) => clone_strings(&list.names),
                None => Vec::new(),
            };
            assert(texts(roles@) =~= match lookup(self@.user_roles, names[i as int]) {
                Some(list) => list,
                None => Seq::empty(),
            });
            out.push(UserEntry { name: self.users.keys[i].clone(), roles });
            i += 1;
        }
        out
    }

    /// How many deletion vectors a table has; none where the table is not there.
    pub fn deletion_vector_count(&self, table: &str) -> (r: usize)
        requires
            self.wf(),
        ensures
            r == match lookup(self@.tables, table@) {
                Some(meta) => meta.deletion_vectors.len(),
                None => 0,
            },
    {
        match self.tables.lookup(table) {
            Some(meta) => {
                assert(meta@.deletion_vectors.len() == meta.deletion_vectors@.len());
                meta.deletion_vectors.len()
            },
            None => 0,
        }
    }
}

// ---------------------------------------------------------------------------
// Laws
// ---------------------------------------------------------------------------

/// Every column of every table is listed, numbered from 1 on, under the number that the list of tables
/// has for its table.
pub proof fn law_columns_are_listed_under_their_table(
    names: Seq<Seq<char>>,
    tables: Seq<TableView>,
    t: int,
    c: int,
)
    requires
        names.len() == tables.len(),
        tables.len() <= i32::MAX,
        0 <= t < tables.len(),
        0 <= c < tables[t].columns.len(),
        tables[t].columns.len() <= i32::MAX,
    ensures
        numbered(names)[t].1 == names[t],
        all_attributes(tables, tables.len()).contains(
            PgAttributeView {
                attrelid: numbered(names)[t].0,
                attname: tables[t].columns[c].name,
                attnum: (c + 1) as i32,
                atttypid: pg_oid(upper_text(tables[t].columns[c].data_type)),
            },
        ),
{
    lemma_attributes_stay(tables, t, c, tables.len());
}

proof fn lemma_attributes_stay(tables: Seq<TableView>, t: int, c: int, n: nat)
    requires
        0 <= t < n <= tables.len(),
        0 <= c < tables[t].columns.len(),
    ensures
        all_attributes(tables, n).contains(
            table_attributes((t + 1) as i32, tables[t].columns)[c],
        ),
    decreases n,
{
    let rest = all_attributes(tables, (n - 1) as nat);
    let whole = all_attributes(tables, n);
    let x = table_attributes((t + 1) as i32, tables[t].columns)[c];
    if t == n - 1 {
        assert(whole[rest.len() + c] == x);
    } else {
        lemma_attributes_stay(tables, t, c, (n - 1) as nat);
        let k = choose|k: int| 0 <= k < rest.len() && rest[k] == x;
        assert(whole[k] == x);
    }
}

/// The table of the PostgreSQL catalog that a query names is the one that it is answered from.
pub proof fn law_named_table_is_answered(
    upper: Seq<char>,
    names: Seq<Seq<char>>,
    tables: Seq<TableView>,
)
    ensures
        contains_seq(upper, "PG_TYPE"@) ==> pg_answer(upper, names, tables) is Types,
        !contains_seq(upper, "PG_TYPE"@) && contains_seq(upper, "PG_CLASS"@) ==> pg_answer(
            upper,
            names,
            tables,
        ) == PgAnswerView::Classes(numbered(names)),
        !contains_seq(upper, "PG_TYPE"@) && !contains_seq(upper, "PG_CLASS"@) && contains_seq(
            upper,
            "PG_NAMESPACE"@,
        ) ==> pg_answer(upper, names, tables) is Namespaces,
        !contains_seq(upper, "PG_TYPE"@) && !contains_seq(upper, "PG_CLASS"@) && !contains_seq(
            upper,
            "PG_NAMESPACE"@,
        ) && contains_seq(upper, "PG_ATTRIBUTE"@) ==> pg_answer(upper, names, tables) is Attributes,
        numbered(names).len() == names.len(),
        names.len() <= i32::MAX ==> forall|i: int|
            0 <= i < names.len() ==> (#[trigger] numbered(names)[i]).0 == i + 1,
{
}

} // verus!
