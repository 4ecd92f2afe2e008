//! Looking after tables: `VACUUM`, `ANALYZE`, compaction and the time for which files are kept.
use std::time::Duration;
use vstd::prelude::*;
use vstd::string::*;

use crate::catalog::{lookup, Catalog, CatalogState};
use crate::catalog_types::{
    ColumnDef, ColumnStatistics, ColumnStatsView, ColumnView, TableStatistics, TableStatsView,
    TableView,
};
use crate::dup::{views, Dup};
use crate::meaning::{self, Value, World};
use crate::namemap::NameMap;
use crate::numbers::{decimal, print_u64, print_usize};
use crate::outcome::answered;
use crate::checkpoint_policy::nanos;
use crate::text::{concat3, ends_with, has_suffix, joined, texts, to_chars};

verus! {

// ---------------------------------------------------------------------------
// ANALYZE
// ---------------------------------------------------------------------------

/// The query that counts the rows of a table.
pub fn count_rows_sql(table: &str) -> (r: String)
    ensures
        r@ == "SELECT COUNT(*) AS c FROM \""@ + table@ + "\""@,
        r@ == meaning::select(
            meaning::count_list(),
            meaning::table(meaning::quoted_name(table@)),
        ).text,
{
    proof {
        reveal_strlit("SELECT COUNT(*) AS c FROM \"");
        reveal_strlit("SELECT ");
        reveal_strlit("COUNT(*) AS c");
        reveal_strlit(" FROM ");
        reveal_strlit("\"");
        assert("SELECT COUNT(*) AS c FROM \""@ + table@ + "\""@ =~= meaning::select(
            meaning::count_list(),
            meaning::table(meaning::quoted_name(table@)),
        ).text);
    }
    concat3("SELECT COUNT(*) AS c FROM \"", table, "\"")
}

/// The query that gathers what is to be known of a column.
pub open spec fn column_stats_text(table: Seq<char>, col: Seq<char>) -> Seq<char> {
    "SELECT COUNT(*) - COUNT(\""@ + col + "\") AS null_count, APPROX_DISTINCT(\""@ + col
        + "\") AS distinct_count, CAST(MIN(\""@ + col + "\") AS VARCHAR) AS min_val, CAST(MAX(\""@
        + col + "\") AS VARCHAR) AS max_val FROM \""@ + table + "\""@
}

/// The query that gathers what is to be known of a column.
pub fn column_stats_sql(table: &str, col: &str) -> (r: String)
    ensures
        r@ == column_stats_text(table@, col@),
{
    let nulls = concat3("SELECT COUNT(*) - COUNT(\"", col, "\") AS null_count, APPROX_DISTINCT(\"");
    let distinct = concat3(&nulls, col, "\") AS distinct_count, CAST(MIN(\"");
    let min = concat3(&distinct, col, "\") AS VARCHAR) AS min_val, CAST(MAX(\"");
    let max = concat3(&min, col, "\") AS VARCHAR) AS max_val FROM \"");
    concat3(&max, table, "\"")
}

/// What was gathered of the columns, where the answers stand in the order of the columns. A column
/// without an answer is left out.
pub open spec fn gathered(
    cs: Seq<ColumnView>,
    stats: Seq<Option<ColumnStatsView>>,
    n: nat,
) -> Map<Seq<char>, ColumnStatsView>
    decreases n,
{
    if n == 0 || n > cs.len() {
        Map::empty()
    } else {
        let rest = gathered(cs, stats, (n - 1) as nat);
        if n - 1 < stats.len() {
            match stats[n - 1] {
                Some(s) => rest.insert(cs[n - 1].name, s),
                None => rest,
            }
        } else {
            rest
        }
    }
}

/// The views of optional statistics.
pub open spec fn stats_views(s: Seq<Option<ColumnStatistics>>) -> Seq<Option<ColumnStatsView>> {
    Seq::new(s.len(), |i: int| crate::dup::opt_view(s[i]))
}

/// The answer to `ANALYZE`.
pub open spec fn analyze_text(table: Seq<char>, rows: u64, columns: nat) -> Seq<char> {
    "ANALYZE: collected statistics for '"@ + table + "' ("@ + decimal(rows as nat) + " rows, "@
        + decimal(columns) + " columns)."@
}

fn gather(cs: &Vec<ColumnDef>, stats: &Vec<Option<ColumnStatistics>>) -> (r: NameMap<
    ColumnStatistics,
>)
    requires
        forall|i: int|
            0 <= i < stats@.len() ==> (#[trigger] stats@[i] matches Some(s) ==> s.wf()),
    ensures
        r.deep_wf(),
        r.deep() == gathered(views(cs@), stats_views(stats@), views(cs@).len()),
{
    let ghost cv = views(cs@);
    let ghost sv = stats_views(stats@);
    let mut out: NameMap<ColumnStatistics> = NameMap::new();
    proof {
        out.lemma_empty();
    }
    let mut i: usize = 0;
    while i < cs.len()
        invariant
            i <= cs@.len(),
            cv == views(cs@),
            sv == stats_views(stats@),
            cv.len() == cs@.len(),
            sv.len() == stats@.len(),
            forall|k: int|
                0 <= k < stats@.len() ==> (#[trigger] stats@[k] matches Some(s) ==> s.wf()),
            out.deep_wf(),
            out.deep() == gathered(cv, sv, i as nat),
        decreases cs@.len() - i,
    {
        assert(cv[i as int] == cs@[i as int]@);
        if i < stats.len() {
            assert(sv[i as int] == crate::dup::opt_view(stats@[i as int]));
            match &stats[i] {
                Some(s) => {
                    out.put(cs[i].name.clone(), s.dup());
                },
                None => {},
            }
        }
        i += 1;
    }
    out
}

impl Catalog {
    /// Records what `ANALYZE` has gathered of a table: how many rows it has, and for each column in
    /// order what the query of the column gave. A table that is not there is refused.
    pub fn handle_analyze(
        &mut self,
        table: &str,
        row_count: u64,
        stats: &Vec<Option<ColumnStatistics>>,
    ) -> (r: Result<String, String>)
        requires
            old(self).wf(),
            forall|i: int|
                0 <= i < stats@.len() ==> (#[trigger] stats@[i] matches Some(s) ==> s.wf()),
        ensures
            final(self).wf(),
            match lookup(old(self)@.tables, table@) {
                None => {
                    &&& answered(r) == Err::<Seq<char>, Seq<char>>(
                        "Table '"@ + table@ + "' does not exist"@,
                    )
                    &&& *final(self) == *old(self)
                },
                Some(meta) => {
                    &&& answered(r) == Ok::<Seq<char>, Seq<char>>(
                        analyze_text(table@, row_count, meta.columns.len()),
                    )
                    &&& crate::catalog::saved(old(self), final(self))
                    &&& final(self)@ == (CatalogState {
                        tables: old(self)@.tables.insert(
                            table@,
                            TableView {
                                statistics: Some(
                                    TableStatsView {
                                        row_count,
                                        columns: gathered(
                                            meta.columns,
                                            stats_views(stats@),
                                            meta.columns.len(),
                                        ),
                                    },
                                ),
                                ..meta
                            },
                        ),
                        ..old(self)@
                    })
                },
            },
    {
        let (columns, count): (NameMap<ColumnStatistics>, usize) = match self.tables.lookup(table) {
            None => {
                return Err(concat3("Table '", table, "' does not exist"));
            },
            Some(meta) => {
                assert(views(meta.columns@).len() == meta.columns@.len());
                (gather(&meta.columns, stats), meta.columns.len())
            },
        };
        self.set_statistics(table, TableStatistics { row_count, columns });
        let head = concat3("ANALYZE: collected statistics for '", table, "' (");
        let with_rows = concat3(&head, &print_u64(row_count), " rows, ");
        Ok(concat3(&with_rows, &print_usize(count), " columns)."))
    }
}

/// Tables of which enough was written since they were last analyzed.
pub struct AutoAnalyze {
    /// Rows written since, for each table.
    pub rows: NameMap<usize>,
    /// From so many rows on a table is analyzed; 0 for never.
    pub threshold: usize,
    /// The tables that are to be analyzed.
    pub pending: Vec<String>,
}

/// The rows that were written since, for a table.
pub open spec fn rows_since(m: Map<Seq<char>, usize>, table: Seq<char>) -> usize {
    if m.dom().contains(table) {
        m[table]
    } else {
        0
    }
}

impl AutoAnalyze {
    /// Nothing was written yet.
    pub fn new(threshold: usize) -> (r: AutoAnalyze)
        ensures
            r.rows.wf(),
            r.rows@ == Map::<Seq<char>, usize>::empty(),
            r.threshold == threshold,
            r.pending@.len() == 0,
    {
        AutoAnalyze { rows: NameMap::new(), threshold, pending: Vec::new() }
    }

    /// Notes that rows were written. A table that has reached the threshold is to be analyzed, and
    /// its count starts anew.
    pub fn maybe_auto_analyze(&mut self, table: &str, written: usize)
        requires
            old(self).rows.wf(),
        ensures
            final(self).rows.wf(),
            final(self).threshold == old(self).threshold,
            ({
                let sum = crate::buffers::capped_sum(rows_since(old(self).rows@, table@), written);
                if written == 0 || old(self).threshold == 0 {
                    *final(self) == *old(self)
                } else if sum >= old(self).threshold {
                    &&& final(self).rows@ == old(self).rows@.insert(table@, 0)
                    &&& texts(final(self).pending@) == texts(old(self).pending@).push(table@)
                } else {
                    &&& final(self).rows@ == old(self).rows@.insert(table@, sum)
                    &&& final(self).pending@ == old(self).pending@
                }
            }),
    {
        if written == 0 || self.threshold == 0 {
            return;
        }
        let before: usize = match self.rows.get(table) {
            Some(n) => *n,
            None => 0,
        };
        let sum: usize = if before > usize::MAX - written {
            usize::MAX
        } else {
            before + written
        };
        if sum >= self.threshold {
            self.rows.insert(table.to_owned(), 0);
            let ghost done = self.pending@;
            self.pending.push(table.to_owned());
            assert(texts(self.pending@) =~= texts(done).push(table@));
        } else {
            self.rows.insert(table.to_owned(), sum);
        }
    }

    /// The tables that are to be analyzed. None is left.
    pub fn drain_pending_analyze(&mut self) -> (r: Vec<String>)
        requires
            old(self).rows.wf(),
        ensures
            r@ == old(self).pending@,
            final(self).pending@.len() == 0,
            final(self).rows == old(self).rows,
            final(self).threshold == old(self).threshold,
    {
        let mut out: Vec<String> = Vec::new();
        out.append(&mut self.pending);
        out
    }
}

// ---------------------------------------------------------------------------
// VACUUM and compaction
// ---------------------------------------------------------------------------

/// What follows once the new rows of a rewritten table have been written, or not.
#[derive(Clone, Copy, PartialEq, Eq, Structural)]
pub enum AfterWrite {
    /// The rows are there: the files of the table are noted.
    NoteFiles,
    /// They are not: the old rows are written back, and the failure is answered.
    WriteBack,
    /// They are not, and there are no old rows: the failure is answered.
    GiveUp,
}

/// What follows once the new rows of a table that had `old_rows` rows have been written, or not.
pub fn after_write(failed: bool, old_rows: usize) -> (r: AfterWrite)
    ensures
        r == if !failed {
            AfterWrite::NoteFiles
        } else if old_rows > 0 {
            AfterWrite::WriteBack
        } else {
            AfterWrite::GiveUp
        },
{
    if !failed {
        AfterWrite::NoteFiles
    } else if old_rows > 0 {
        AfterWrite::WriteBack
    } else {
        AfterWrite::GiveUp
    }
}

/// Whether the files of a table are put together after a write: there are enough of them, and no
/// transaction is active.
pub fn should_compact(threshold: usize, in_transaction: bool, files: usize) -> (r: bool)
    ensures
        r == (threshold != 0 && !in_transaction && files >= threshold),
{
    threshold != 0 && !in_transaction && files >= threshold
}

/// The answer to `VACUUM`.
pub fn vacuum_message(table: &str, files: usize, rows: usize, pruned: usize) -> (r: String)
    ensures
        r@ == "VACUUM: compacted "@ + decimal(files as nat) + " file(s) into 1 ("@ + decimal(
            rows as nat,
        ) + " rows) for '"@ + table@ + "' (retention pruned "@ + decimal(pruned as nat)
            + " file(s))."@,
{
    let head = concat3("VACUUM: compacted ", &print_usize(files), " file(s) into 1 (");
    let with_rows = concat3(&head, &print_usize(rows), " rows) for '");
    let with_table = concat3(&with_rows, table, "' (retention pruned ");
    concat3(&with_table, &print_usize(pruned), " file(s)).")
}

/// The answer to `VACUUM ANALYZE`.
pub fn vacuum_analyze_message(vacuum: &str, analyze: &str) -> (r: String)
    ensures
        r@ == vacuum@ + " "@ + analyze@,
{
    concat3(vacuum, " ", analyze)
}

impl Catalog {
    /// Refuses a table that is not there.
    pub fn check_table(&self, table: &str) -> (r: Result<(), String>)
        requires
            self.wf(),
        ensures
            match r {
                Ok(_) => self@.tables.dom().contains(table@),
                Err(e) => !self@.tables.dom().contains(table@) && e@ == "Table '"@ + table@
                    + "' does not exist"@,
            },
    {
        if self.tables.contains_key(table) {
            Ok(())
        } else {
            Err(concat3("Table '", table, "' does not exist"))
        }
    }

    /// For how many seconds the local files of a table are kept; nothing where all are kept, and
    /// where the files lie in an object store.
    pub fn retention_of(&self, table: &str, is_local: bool) -> (r: Option<u64>)
        requires
            self.wf(),
        ensures
            r == match lookup(self@.tables, table@) {
                Some(meta) => if is_local {
                    meta.retention_seconds
                } else {
                    None
                },
                None => None,
            },
    {
        match self.tables.lookup(table) {
            None => None,
            Some(meta) => if is_local {
                meta.retention_seconds
            } else {
                None
            },
        }
    }
}

/// Whether a file name has the extension of the data files. A name that is nothing but an extension
/// has none.
pub open spec fn is_data_file(name: Seq<char>) -> bool {
    has_suffix(name, ".parquet"@) && name.len() > ".parquet"@.len()
}

/// Whether a file of a table has to go: it is a data file, and it was last changed longer ago than
/// files are kept. A file that was changed in the future, which has no age, stays.
pub open spec fn expired(name: Seq<char>, age: Option<Duration>, retention_secs: u64) -> bool {
    is_data_file(name) && (age matches Some(a) && nanos(a) > retention_secs * 1_000_000_000)
}

/// Whether a file of a table has to go, where `age` is how long ago it was last changed.
pub fn is_expired(name: &str, age: Option<Duration>, retention_secs: u64) -> (r: bool)
    ensures
        r == expired(name@, age, retention_secs),
{
    if !ends_with(name, ".parquet") {
        return false;
    }
    let n = to_chars(name);
    let e = to_chars(".parquet");
    if n.len() <= e.len() {
        return false;
    }
    match age {
        None => false,
        Some(a) => a.as_nanos() > retention_secs as u128 * 1_000_000_000u128,
    }
}

// ---------------------------------------------------------------------------
// Laws
// ---------------------------------------------------------------------------

/// Of the columns of a table those are known afterwards that gave an answer, under their names.
pub proof fn law_gathered_columns(
    cs: Seq<ColumnView>,
    stats: Seq<Option<ColumnStatsView>>,
    n: nat,
    k: Seq<char>,
)
    requires
        n <= cs.len(),
        gathered(cs, stats, n).dom().contains(k),
    ensures
        exists|i: int|
            0 <= i < n && i < stats.len() && (#[trigger] cs[i]).name == k && stats[i] is Some,
    decreases n,
{
    if n > 0 {
        let rest = gathered(cs, stats, (n - 1) as nat);
        if rest.dom().contains(k) {
            law_gathered_columns(cs, stats, (n - 1) as nat, k);
            let i = choose|i: int|
                0 <= i < n - 1 && i < stats.len() && (#[trigger] cs[i]).name == k && stats[i] is Some;
            assert(cs[i].name == k);
        } else {
            assert(cs[n - 1].name == k);
        }
    }
}

/// What `ANALYZE` asks of a column: how many rows have no value there, about how many different values
/// there are, and the least and the greatest of them as texts. The three functions of the query
/// engine may be any.
pub proof fn law_column_figures(
    table: Seq<char>,
    col: Seq<char>,
    w: World,
    distinct: spec_fn(Seq<Value>) -> Value,
    least: spec_fn(Seq<Value>) -> Value,
    greatest: spec_fn(Seq<Value>) -> Value,
)
    ensures
        ({
            let name = meaning::quoted_name(table);
            let c = meaning::column(col);
            let rows = meaning::rows_of(w, name);
            let seen = meaning::single(name, rows);
            let values = Seq::new(rows.len(), |i: int| meaning::cell_of(rows[i], col));
            let nulls = meaning::named_figure(
                meaning::difference(meaning::count_all(), meaning::count_of(c)),
                "null_count"@,
            );
            let kinds = meaning::named_figure(
                meaning::taken("APPROX_DISTINCT"@, c, distinct),
                "distinct_count"@,
            );
            let low = meaning::named_figure(
                meaning::cast_figure(meaning::taken("MIN"@, c, least), "VARCHAR"@),
                "min_val"@,
            );
            let high = meaning::named_figure(
                meaning::cast_figure(meaning::taken("MAX"@, c, greatest), "VARCHAR"@),
                "max_val"@,
            );
            &&& column_stats_text(table, col) == meaning::select(
                joined(seq![nulls.text, kinds.text, low.text, high.text], ", "@),
                meaning::table(name),
            ).text
            &&& (nulls.value)(w, seen) == Value::Other(
                values.filter(|v| v == Value::Null).len() as int,
            )
            &&& (kinds.value)(w, seen) == distinct(values)
            &&& (low.value)(w, seen) == (w.cast)(least(values), "VARCHAR"@)
            &&& (high.value)(w, seen) == (w.cast)(greatest(values), "VARCHAR"@)
        }),
{
    let name = meaning::quoted_name(table);
    let c = meaning::column(col);
    let rows = meaning::rows_of(w, name);
    let seen = meaning::single(name, rows);
    let values = Seq::new(rows.len(), |i: int| meaning::cell_of(rows[i], col));
    assert(meaning::column_values(c, w, seen) =~= values) by {
        assert forall|i: int| 0 <= i < rows.len() implies #[trigger] meaning::column_values(
            c,
            w,
            seen,
        )[i] == values[i] by {
            meaning::lemma_single_column(name, rows[i], col);
        }
    }
    meaning::lemma_filter_parts(values, |v| v != Value::Null, |v| v == Value::Null);
    lemma_figures_text(table, col, distinct, least, greatest);
}

proof fn lemma_stats_pieces(table: Seq<char>, col: Seq<char>)
    ensures
        column_stats_text(table, col) == "SELECT COUNT(*) - COUNT(\""@ + col
            + "\") AS null_count"@ + (", APPROX_DISTINCT(\""@ + col + "\") AS distinct_count"@) + (
        ", CAST(MIN(\""@ + col + "\") AS VARCHAR) AS min_val"@) + (", CAST(MAX(\""@ + col
            + "\") AS VARCHAR) AS max_val"@) + (" FROM \""@ + table + "\""@),
{
    assert("\") AS null_count, APPROX_DISTINCT(\""@ =~= "\") AS null_count"@
        + ", APPROX_DISTINCT(\""@) by {
        reveal_strlit("\") AS null_count, APPROX_DISTINCT(\"");
        reveal_strlit("\") AS null_count");
        reveal_strlit(", APPROX_DISTINCT(\"");
    }
    assert("\") AS distinct_count, CAST(MIN(\""@ =~= "\") AS distinct_count"@
        + ", CAST(MIN(\""@) by {
        reveal_strlit("\") AS distinct_count, CAST(MIN(\"");
        reveal_strlit("\") AS distinct_count");
        reveal_strlit(", CAST(MIN(\"");
    }
    assert("\") AS VARCHAR) AS min_val, CAST(MAX(\""@ =~= "\") AS VARCHAR) AS min_val"@
        + ", CAST(MAX(\""@) by {
        reveal_strlit("\") AS VARCHAR) AS min_val, CAST(MAX(\"");
        reveal_strlit("\") AS VARCHAR) AS min_val");
        reveal_strlit(", CAST(MAX(\"");
    }
    assert("\") AS VARCHAR) AS max_val FROM \""@ =~= "\") AS VARCHAR) AS max_val"@
        + " FROM \""@) by {
        reveal_strlit("\") AS VARCHAR) AS max_val FROM \"");
        reveal_strlit("\") AS VARCHAR) AS max_val");
        reveal_strlit(" FROM \"");
    }
    assert(column_stats_text(table, col) =~= "SELECT COUNT(*) - COUNT(\""@ + col
        + "\") AS null_count"@ + (", APPROX_DISTINCT(\""@ + col + "\") AS distinct_count"@) + (
    ", CAST(MIN(\""@ + col + "\") AS VARCHAR) AS min_val"@) + (", CAST(MAX(\""@ + col
        + "\") AS VARCHAR) AS max_val"@) + (" FROM \""@ + table + "\""@));
}

proof fn lemma_regrouped(
    head: Seq<char>,
    a: Seq<char>,
    sep: Seq<char>,
    b: Seq<char>,
    c: Seq<char>,
    d: Seq<char>,
    tail: Seq<char>,
)
    ensures
        (head + a) + (sep + b) + (sep + c) + (sep + d) + tail == head + (a + sep + b + sep + c
            + sep + d) + tail,
{
    assert((head + a) + (sep + b) + (sep + c) + (sep + d) + tail =~= head + (a + sep + b + sep + c
        + sep + d) + tail);
}

#[verifier::rlimit(60)]
proof fn lemma_figures_text(
    table: Seq<char>,
    col: Seq<char>,
    distinct: spec_fn(Seq<Value>) -> Value,
    least: spec_fn(Seq<Value>) -> Value,
    greatest: spec_fn(Seq<Value>) -> Value,
)
    ensures
        ({
            let c = meaning::column(col);
            let nulls = meaning::named_figure(
                meaning::difference(meaning::count_all(), meaning::count_of(c)),
                "null_count"@,
            );
            let kinds = meaning::named_figure(
                meaning::taken("APPROX_DISTINCT"@, c, distinct),
                "distinct_count"@,
            );
            let low = meaning::named_figure(
                meaning::cast_figure(meaning::taken("MIN"@, c, least), "VARCHAR"@),
                "min_val"@,
            );
            let high = meaning::named_figure(
                meaning::cast_figure(meaning::taken("MAX"@, c, greatest), "VARCHAR"@),
                "max_val"@,
            );
            column_stats_text(table, col) == meaning::select(
                joined(seq![nulls.text, kinds.text, low.text, high.text], ", "@),
                meaning::table(meaning::quoted_name(table)),
            ).text
        }),
{
    let c = meaning::column(col);
    let nulls = meaning::named_figure(
        meaning::difference(meaning::count_all(), meaning::count_of(c)),
        "null_count"@,
    ).text;
    let kinds = meaning::named_figure(
        meaning::taken("APPROX_DISTINCT"@, c, distinct),
        "distinct_count"@,
    ).text;
    let low = meaning::named_figure(
        meaning::cast_figure(meaning::taken("MIN"@, c, least), "VARCHAR"@),
        "min_val"@,
    ).text;
    let high = meaning::named_figure(
        meaning::cast_figure(meaning::taken("MAX"@, c, greatest), "VARCHAR"@),
        "max_val"@,
    ).text;
    meaning::lemma_joined_four(nulls, kinds, low, high, ", "@);
    let a = "SELECT COUNT(*) - COUNT(\""@ + col + "\") AS null_count"@;
    assert(a =~= "SELECT "@ + nulls) by {
        reveal_strlit("\"");
        reveal_strlit(" AS ");
        reveal_strlit(")");
        reveal_strlit("SELECT COUNT(*) - COUNT(\"");
        reveal_strlit("\") AS null_count");
        reveal_strlit("SELECT ");
        reveal_strlit("COUNT(*)");
        reveal_strlit("COUNT(");
        reveal_strlit(" - ");
        reveal_strlit("null_count");
    }
    let b = ", APPROX_DISTINCT(\""@ + col + "\") AS distinct_count"@;
    assert(b =~= ", "@ + kinds) by {
        reveal_strlit("\"");
        reveal_strlit(" AS ");
        reveal_strlit(", ");
        reveal_strlit("(");
        reveal_strlit(")");
        reveal_strlit(", APPROX_DISTINCT(\"");
        reveal_strlit("\") AS distinct_count");
        reveal_strlit("APPROX_DISTINCT");
        reveal_strlit("distinct_count");
    }
    let d = ", CAST(MIN(\""@ + col + "\") AS VARCHAR) AS min_val"@;
    assert(d =~= ", "@ + low) by {
        reveal_strlit("\"");
        reveal_strlit(" AS ");
        reveal_strlit(", ");
        reveal_strlit("(");
        reveal_strlit(")");
        reveal_strlit("CAST(");
        reveal_strlit("VARCHAR");
        reveal_strlit(", CAST(MIN(\"");
        reveal_strlit("\") AS VARCHAR) AS min_val");
        reveal_strlit("MIN");
        reveal_strlit("min_val");
    }
    let e = ", CAST(MAX(\""@ + col + "\") AS VARCHAR) AS max_val"@;
    assert(e =~= ", "@ + high) by {
        reveal_strlit("\"");
        reveal_strlit(" AS ");
        reveal_strlit(", ");
        reveal_strlit("(");
        reveal_strlit(")");
        reveal_strlit("CAST(");
        reveal_strlit("VARCHAR");
        reveal_strlit(", CAST(MAX(\"");
        reveal_strlit("\") AS VARCHAR) AS max_val");
        reveal_strlit("MAX");
        reveal_strlit("max_val");
    }
    let f = " FROM \""@ + table + "\""@;
    lemma_stats_pieces(table, col);
    assert(f =~= " FROM "@ + meaning::quoted_name(table)) by {
        reveal_strlit("\"");
        reveal_strlit(" FROM \"");
        reveal_strlit(" FROM ");
    }
    lemma_regrouped("SELECT "@, nulls, ", "@, kinds, low, high, f);
}

/// A file is given up exactly when it holds rows and is older than the retention: to the last
/// nanosecond it is kept. What has no age stays.
pub proof fn law_files_are_kept_for_the_retention(
    name: Seq<char>,
    age: Option<Duration>,
    retention_secs: u64,
)
    ensures
        age is None ==> !expired(name, age, retention_secs),
        !has_suffix(name, ".parquet"@) ==> !expired(name, age, retention_secs),
        age is Some && nanos(age->0) <= retention_secs * 1_000_000_000 ==> !expired(
            name,
            age,
            retention_secs,
        ),
        age is Some && nanos(age->0) > retention_secs * 1_000_000_000 && has_suffix(
            name,
            ".parquet"@,
        ) && name != ".parquet"@ ==> expired(name, age, retention_secs),
{
    reveal_strlit(".parquet");
    if has_suffix(name, ".parquet"@) && name.len() <= ".parquet"@.len() {
        assert(name =~= ".parquet"@);
    }
}

} // verus!
