//! What the engine remembers of the past: recent queries, changes to tables, and commits since the
//! write-ahead log was last brought to a checkpoint.
use std::collections::VecDeque;
use std::time::Duration;
use vstd::prelude::*;
use vstd::string::*;

use crate::checkpoint_policy::{checkpoint_due, nanos, should_checkpoint_autocommit};
use crate::dup::views;
use crate::text::{
    eq_ignore_ascii_case, law_lines_are_appended, lines, opt_text, same_ignore_case, split_lines,
    texts,
};

verus! {

// ---------------------------------------------------------------------------
// Logs that keep the newest entries
// ---------------------------------------------------------------------------

/// The last `max` items of a list.
pub open spec fn newest<T>(s: Seq<T>, max: nat) -> Seq<T> {
    if s.len() > max {
        s.subrange(s.len() - max, s.len() as int)
    } else {
        s
    }
}

fn keep_newest<T>(q: &mut VecDeque<T>, max: usize)
    ensures
        final(q)@ == newest(old(q)@, max as nat),
{
    let ghost start = q@;
    while q.len() > max
        invariant
            q@.len() <= start.len(),
            start == old(q)@,
            q@ == start.subrange(start.len() - q@.len(), start.len() as int),
            q@.len() >= max || q@ == start,
            start.len() > max ==> q@.len() >= max,
        decreases q@.len(),
    {
        q.pop_front();
    }
    assert(q@ =~= newest(start, max as nat));
}

// ---------------------------------------------------------------------------
// Queries
// ---------------------------------------------------------------------------

/// An entry of the query log.
pub struct QueryLogEntry {
    pub sql: String,
    pub duration: Duration,
    pub rows: usize,
}

/// What a [`QueryLogEntry`] says.
pub struct QueryLogView {
    pub sql: Seq<char>,
    pub duration: Duration,
    pub rows: usize,
}

impl View for QueryLogEntry {
    type V = QueryLogView;

    open spec fn view(&self) -> QueryLogView {
        QueryLogView { sql: self.sql@, duration: self.duration, rows: self.rows }
    }
}

/// Recent queries, oldest first.
pub struct QueryLog {
    pub entries: VecDeque<QueryLogEntry>,
    /// How many entries are kept.
    pub max_entries: usize,
    /// From how many milliseconds on a query counts as slow.
    pub slow_threshold_ms: u64,
}

impl View for QueryLog {
    type V = Seq<QueryLogView>;

    open spec fn view(&self) -> Seq<QueryLogView> {
        views(self.entries@)
    }
}

impl QueryLog {
    /// No more entries are kept than the log may hold.
    pub open spec fn wf(&self) -> bool {
        self.entries@.len() <= self.max_entries
    }

    /// The empty log.
    pub fn new(max_entries: usize, slow_threshold_ms: u64) -> (r: QueryLog)
        ensures
            r@ == Seq::<QueryLogView>::empty(),
            r.max_entries == max_entries,
            r.slow_threshold_ms == slow_threshold_ms,
            r.wf(),
    {
        let r = QueryLog { entries: VecDeque::new(), max_entries, slow_threshold_ms };
        assert(r@ =~= Seq::<QueryLogView>::empty());
        r
    }

    /// Notes a query, and tells whether it was slow. The oldest entries go where there are too many.
    pub fn finalize_query(&mut self, sql: &str, duration: Duration, rows: usize) -> (r: bool)
        ensures
            final(self)@ == newest(
                old(self)@.push((QueryLogView { sql: sql@, duration, rows })),
                old(self).max_entries as nat,
            ),
            final(self).max_entries == old(self).max_entries,
            final(self).slow_threshold_ms == old(self).slow_threshold_ms,
            final(self).wf(),
            r == (nanos(duration) / 1_000_000 >= old(self).slow_threshold_ms),
    {
        let ghost before = self.entries@;
        let entry = QueryLogEntry { sql: sql.to_owned(), duration, rows };
        let ghost ev = entry@;
        self.entries.push_back(entry);
        let ghost pushed = self.entries@;
        keep_newest(&mut self.entries, self.max_entries);
        proof {
            assert(views(pushed) =~= views(before).push(ev));
            assert(self@ =~= newest(views(pushed), self.max_entries as nat));
        }
        duration.as_nanos() / 1_000_000 >= self.slow_threshold_ms as u128
    }

    /// The recent queries, oldest first.
    pub fn recent_queries(&self) -> (r: Vec<QueryLogEntry>)
        ensures
            views(r@) == self@,
    {
        let mut out: Vec<QueryLogEntry> = Vec::new();
        let mut i: usize = 0;
        while i < self.entries.len()
            invariant
                i <= self.entries@.len(),
                out@.len() == i,
                forall|j: int| 0 <= j < i ==> (#[trigger] out@[j])@ == self.entries@[j]@,
            decreases self.entries@.len() - i,
        {
            let e = &self.entries[i];
            out.push(
                QueryLogEntry { sql: e.sql.clone(), duration: e.duration, rows: e.rows },
            );
            i += 1;
        }
        assert(views(out@) =~= self@);
        out
    }
}

// ---------------------------------------------------------------------------
// Changes
// ---------------------------------------------------------------------------

/// A change to a table.
pub struct CdcEvent {
    pub table: String,
    pub op: String,
    pub timestamp_ms: i64,
    pub rows: usize,
}

/// What a [`CdcEvent`] says.
pub struct CdcEventView {
    pub table: Seq<char>,
    pub op: Seq<char>,
    pub timestamp_ms: i64,
    pub rows: usize,
}

impl View for CdcEvent {
    type V = CdcEventView;

    open spec fn view(&self) -> CdcEventView {
        CdcEventView {
            table: self.table@,
            op: self.op@,
            timestamp_ms: self.timestamp_ms,
            rows: self.rows,
        }
    }
}

/// Recent changes to tables, oldest first.
pub struct CdcLog {
    pub events: VecDeque<CdcEvent>,
    /// How many changes are kept.
    pub capacity: usize,
}

impl View for CdcLog {
    type V = Seq<CdcEventView>;

    open spec fn view(&self) -> Seq<CdcEventView> {
        views(self.events@)
    }
}

/// The changes among the first `n` that a query for one table, or for all, asks for.
pub open spec fn matching_events(s: Seq<CdcEventView>, table: Option<Seq<char>>, n: nat) -> Seq<
    CdcEventView,
>
    decreases n,
{
    if n == 0 || n > s.len() {
        Seq::empty()
    } else {
        let rest = matching_events(s, table, (n - 1) as nat);
        match table {
            Some(t) => if same_ignore_case(s[n - 1].table, t) {
                rest.push(s[n - 1])
            } else {
                rest
            },
            None => rest.push(s[n - 1]),
        }
    }
}

impl CdcLog {
    /// No more changes are kept than the log may hold.
    pub open spec fn wf(&self) -> bool {
        self.events@.len() <= self.capacity
    }

    /// The empty log.
    pub fn new(capacity: usize) -> (r: CdcLog)
        ensures
            r@ == Seq::<CdcEventView>::empty(),
            r.capacity == capacity,
            r.wf(),
    {
        let r = CdcLog { events: VecDeque::new(), capacity };
        assert(r@ =~= Seq::<CdcEventView>::empty());
        r
    }

    /// A log with the changes that were written down before, the newest of them where there are too
    /// many.
    pub fn load(capacity: usize, events: &Vec<CdcEvent>) -> (r: CdcLog)
        ensures
            r@ == newest(views(events@), capacity as nat),
            r.capacity == capacity,
            r.wf(),
    {
        let mut list: VecDeque<CdcEvent> = VecDeque::new();
        let mut i: usize = 0;
        while i < events.len()
            invariant
                i <= events@.len(),
                list@.len() == i,
                forall|j: int| 0 <= j < i ==> (#[trigger] list@[j])@ == events@[j]@,
            decreases events@.len() - i,
        {
            let e = &events[i];
            list.push_back(
                CdcEvent {
                    table: e.table.clone(),
                    op: e.op.clone(),
                    timestamp_ms: e.timestamp_ms,
                    rows: e.rows,
                },
            );
            i += 1;
        }
        assert(views(list@) =~= views(events@));
        let ghost all = list@;
        keep_newest(&mut list, capacity);
        let r = CdcLog { events: list, capacity };
        assert(r@ =~= newest(views(all), capacity as nat));
        r
    }

    /// Notes a change. The oldest changes go where there are too many.
    pub fn record_cdc_event(&mut self, table: &str, op: &str, timestamp_ms: i64, rows: usize)
        ensures
            final(self)@ == newest(
                old(self)@.push(
                    (CdcEventView { table: table@, op: op@, timestamp_ms, rows }),
                ),
                old(self).capacity as nat,
            ),
            final(self).capacity == old(self).capacity,
            final(self).wf(),
    {
        let ghost before = self.events@;
        let event = CdcEvent { table: table.to_owned(), op: op.to_owned(), timestamp_ms, rows };
        let ghost ev = event@;
        self.events.push_back(event);
        let ghost pushed = self.events@;
        keep_newest(&mut self.events, self.capacity);
        proof {
            assert(views(pushed) =~= views(before).push(ev));
            assert(self@ =~= newest(views(pushed), self.capacity as nat));
        }
    }

    /// The changes that a query for one table, or for all, asks for.
    pub fn handle_select_cdc(&self, table: &Option<String>) -> (r: Vec<CdcEvent>)
        ensures
            views(r@) == matching_events(self@, opt_text(*table), self@.len()),
    {
        let ghost all = self@;
        let mut out: Vec<CdcEvent> = Vec::new();
        let mut i: usize = 0;
        assert(views(out@) =~= Seq::<CdcEventView>::empty());
        while i < self.events.len()
            invariant
                i <= self.events@.len(),
                all == self@,
                all.len() == self.events@.len(),
                views(out@) == matching_events(all, opt_text(*table), i as nat),
            decreases self.events@.len() - i,
        {
            let e = &self.events[i];
            assert(all[i as int] == e@);
            let ghost done = out@;
            let wanted: bool = match table {
                Some(t) => eq_ignore_ascii_case(&e.table, t),
                None => true,
            };
            if wanted {
                let copy = CdcEvent {
                    table: e.table.clone(),
                    op: e.op.clone(),
                    timestamp_ms: e.timestamp_ms,
                    rows: e.rows,
                };
                let ghost cv = copy@;
                out.push(copy);
                assert(views(out@) =~= views(done).push(cv));
            }
            i += 1;
        }
        out
    }
}

// ---------------------------------------------------------------------------
// The file of changes
// ---------------------------------------------------------------------------

/// What `serde_json::from_str` reads from a line: the members under two keys as texts, the one under
/// a third as a signed and the one under a fourth as an unsigned number, each where it is there and
/// of its kind. Nothing where the line is no JSON.
pub uninterp spec fn line_members(
    line: Seq<char>,
    first: Seq<char>,
    second: Seq<char>,
    third: Seq<char>,
    fourth: Seq<char>,
) -> Option<(Option<Seq<char>>, Option<Seq<char>>, Option<i64>, Option<u64>)>;

/// What members say, the texts by their characters.
pub open spec fn member_views(
    f: Option<(Option<String>, Option<String>, Option<i64>, Option<u64>)>,
) -> Option<(Option<Seq<char>>, Option<Seq<char>>, Option<i64>, Option<u64>)> {
    match f {
        Some(f) => Some((opt_text(f.0), opt_text(f.1), f.2, f.3)),
        None => None,
    }
}

/// Reads a line with `serde_json::from_str`, and picks the members under four keys with
/// `Value::as_str`, `Value::as_i64` and `Value::as_u64`. What comes back depends on the line and the
/// keys alone. A member that is not there reads as null, also where the line holds no object.
#[verifier::external_body]
fn read_members(line: &str, first: &str, second: &str, third: &str, fourth: &str) -> (r: Option<
    (Option<String>, Option<String>, Option<i64>, Option<u64>),
>)
    ensures
        member_views(r) == line_members(line@, first@, second@, third@, fourth@),
{
    let v = serde_json::from_str::<serde_json::Value>(line).ok()?;
    Some(
        (
            v[first].as_str().map(String::from),
            v[second].as_str().map(String::from),
            v[third].as_i64(),
            v[fourth].as_u64(),
        ),
    )
}

/// The text that `serde_json` writes for an object of four members: two texts, a signed and an
/// unsigned number, each behind its key.
pub uninterp spec fn members_text(
    first: (Seq<char>, Seq<char>),
    second: (Seq<char>, Seq<char>),
    third: (Seq<char>, i64),
    fourth: (Seq<char>, u64),
) -> Seq<char>;

/// Whether four keys differ from each other.
pub open spec fn differ(a: Seq<char>, b: Seq<char>, c: Seq<char>, d: Seq<char>) -> bool {
    a != b && a != c && a != d && b != c && b != d && c != d
}

/// Writes an object of four members with the `Display` of `serde_json::Value`. The text depends on
/// the keys and the members alone, and gives the members back when it is read with the same keys,
/// where the keys differ. It is compact, and line feeds and carriage returns in strings are escaped,
/// so it is one line.
#[verifier::external_body]
fn write_members(
    first: (&str, &str),
    second: (&str, &str),
    third: (&str, i64),
    fourth: (&str, u64),
) -> (r: String)
    ensures
        r@ == members_text(
            (first.0@, first.1@),
            (second.0@, second.1@),
            (third.0@, third.1),
            (fourth.0@, fourth.1),
        ),
        differ(first.0@, second.0@, third.0@, fourth.0@) ==> line_members(
            r@,
            first.0@,
            second.0@,
            third.0@,
            fourth.0@,
        ) == Some((Some(first.1@), Some(second.1@), Some(third.1), Some(fourth.1))),
        !r@.contains('\n'),
        !r@.contains('\r'),
{
    let mut members = serde_json::Map::new();
    members.insert(String::from(first.0), serde_json::Value::from(first.1));
    members.insert(String::from(second.0), serde_json::Value::from(second.1));
    members.insert(String::from(third.0), serde_json::Value::from(third.1));
    members.insert(String::from(fourth.0), serde_json::Value::from(fourth.1));
    serde_json::Value::Object(members).to_string()
}

/// The members `table`, `op`, `timestamp_ms` and `rows` of a line of the file of changes.
pub open spec fn change_fields(line: Seq<char>) -> Option<
    (Option<Seq<char>>, Option<Seq<char>>, Option<i64>, Option<u64>),
> {
    line_members(line, "table"@, "op"@, "timestamp_ms"@, "rows"@)
}

/// The line of the file of changes for a change.
pub open spec fn change_text(
    table: Seq<char>,
    op: Seq<char>,
    timestamp_ms: i64,
    rows: u64,
) -> Seq<char> {
    members_text(
        ("table"@, table),
        ("op"@, op),
        ("timestamp_ms"@, timestamp_ms),
        ("rows"@, rows),
    )
}

/// The line of the file of changes for a change.
pub fn change_line(table: &str, op: &str, timestamp_ms: i64, rows: usize) -> (r: String)
    ensures
        r@ == change_text(table@, op@, timestamp_ms, rows as u64),
        is_line_of(r@, (CdcEventView { table: table@, op: op@, timestamp_ms, rows })),
{
    proof {
        reveal_strlit("table");
        reveal_strlit("op");
        reveal_strlit("timestamp_ms");
        reveal_strlit("rows");
        assert("table"@.len() == 5 && "op"@.len() == 2);
        assert("timestamp_ms"@.len() == 12 && "rows"@.len() == 4);
        assert(differ("table"@, "op"@, "timestamp_ms"@, "rows"@));
    }
    write_members(
        ("table", table),
        ("op", op),
        ("timestamp_ms", timestamp_ms),
        ("rows", rows as u64),
    )
}

/// Whether a text is one line that reads as the given change.
pub open spec fn is_line_of(line: Seq<char>, e: CdcEventView) -> bool {
    &&& change_fields(line) == Some(
        (Some(e.table), Some(e.op), Some(e.timestamp_ms), Some(e.rows as u64)),
    )
    &&& !line.contains('\n')
    &&& !line.contains('\r')
}

/// The change that a line's members make. A text that is missing is empty, a number 0.
pub open spec fn event_of(
    table: Option<Seq<char>>,
    op: Option<Seq<char>>,
    timestamp_ms: Option<i64>,
    rows: Option<u64>,
) -> CdcEventView {
    CdcEventView {
        table: match table {
            Some(t) => t,
            None => Seq::empty(),
        },
        op: match op {
            Some(o) => o,
            None => Seq::empty(),
        },
        timestamp_ms: match timestamp_ms {
            Some(ms) => ms,
            None => 0,
        },
        rows: match rows {
            Some(n) => n as usize,
            None => 0,
        },
    }
}

/// The change that a line's members make.
pub fn change_event(
    table: Option<String>,
    op: Option<String>,
    timestamp_ms: Option<i64>,
    rows: Option<u64>,
) -> (r: CdcEvent)
    ensures
        r@ == event_of(opt_text(table), opt_text(op), timestamp_ms, rows),
{
    let r = CdcEvent {
        table: match table {
            Some(t) => t,
            None => String::new(),
        },
        op: match op {
            Some(o) => o,
            None => String::new(),
        },
        timestamp_ms: match timestamp_ms {
            Some(ms) => ms,
            None => 0,
        },
        rows: match rows {
            Some(n) => #[verifier::truncate]
            (n as usize),
            None => 0,
        },
    };
    assert(r@.table == event_of(opt_text(table), opt_text(op), timestamp_ms, rows).table);
    assert(r@.op == event_of(opt_text(table), opt_text(op), timestamp_ms, rows).op);
    r
}

/// The changes in the first `n` lines. A line that is no JSON holds none.
pub open spec fn events_in(lines: Seq<Seq<char>>, n: nat) -> Seq<CdcEventView>
    decreases n,
{
    if n == 0 || n > lines.len() {
        Seq::empty()
    } else {
        let rest = events_in(lines, (n - 1) as nat);
        match change_fields(lines[n - 1]) {
            Some(f) => rest.push(event_of(f.0, f.1, f.2, f.3)),
            None => rest,
        }
    }
}

/// The changes that the file of changes holds.
pub open spec fn events_of(contents: Seq<char>) -> Seq<CdcEventView> {
    events_in(lines(contents), lines(contents).len())
}

/// Reads the changes that an earlier session wrote down, line by line. Lines that are no JSON are
/// left out.
pub fn read_changes(contents: &str) -> (r: Vec<CdcEvent>)
    ensures
        views(r@) == events_of(contents@),
{
    let parts = split_lines(contents);
    let ghost all = texts(parts@);
    let mut out: Vec<CdcEvent> = Vec::new();
    let mut i: usize = 0;
    assert(views(out@) == Seq::<CdcEventView>::empty());
    while i < parts.len()
        invariant
            i <= parts@.len(),
            all == texts(parts@),
            all.len() == parts@.len(),
            views(out@) == events_in(all, i as nat),
        decreases parts@.len() - i,
    {
        let ghost done = views(out@);
        assert(all[i as int] == parts@[i as int]@);
        let read = read_members(&parts[i], "table", "op", "timestamp_ms", "rows");
        if let Some((table, op, timestamp_ms, rows)) = read {
            let event = change_event(table, op, timestamp_ms, rows);
            let ghost ev = event@;
            out.push(event);
            assert(views(out@) == done.push(ev));
        }
        i += 1;
    }
    out
}

/// The file of changes with the first `n` of the given lines.
pub open spec fn log_text(written: Seq<Seq<char>>, n: nat) -> Seq<char>
    decreases n,
{
    if n == 0 || n > written.len() {
        Seq::empty()
    } else {
        log_text(written, (n - 1) as nat) + written[n - 1] + seq!['\n']
    }
}

/// A log of changes survives a restart: what was written down line by line is read back, every
/// change in its order.
pub proof fn law_written_changes_are_read_back(
    events: Seq<CdcEventView>,
    written: Seq<Seq<char>>,
    n: nat,
)
    requires
        n <= events.len(),
        events.len() == written.len(),
        forall|i: int| 0 <= i < n ==> is_line_of(#[trigger] written[i], events[i]),
    ensures
        lines(log_text(written, n)) == written.take(n as int),
        events_of(log_text(written, n)) == events.take(n as int),
    decreases n,
{
    if n == 0 {
        assert(lines(log_text(written, 0)) == Seq::<Seq<char>>::empty());
    } else {
        let m = (n - 1) as nat;
        law_written_changes_are_read_back(events, written, m);
        let before = log_text(written, m);
        assert(is_line_of(written[m as int], events[m as int]));
        law_lines_are_appended(before, written[m as int]);
        let all = lines(log_text(written, n));
        assert(all == written.take(n as int));
        assert(all == lines(before).push(written[m as int]));
        lemma_events_of_prefix(lines(before), written[m as int], m);
        assert((events[m as int].rows as u64) as usize == events[m as int].rows);
        assert(events.take(n as int) == events.take(m as int).push(events[m as int]));
    }
}

proof fn lemma_events_of_prefix(lines: Seq<Seq<char>>, line: Seq<char>, n: nat)
    requires
        n <= lines.len(),
    ensures
        events_in(lines.push(line), n) == events_in(lines, n),
    decreases n,
{
    if n > 0 {
        lemma_events_of_prefix(lines, line, (n - 1) as nat);
    }
}

// ---------------------------------------------------------------------------
// The write-ahead log
// ---------------------------------------------------------------------------

/// What is to be done with the write-ahead log once a statement has succeeded.
#[derive(Clone, Copy, PartialEq, Eq, Structural)]
pub enum LogAction {
    /// Nothing: the log is replayed, a transaction is active, or there is no log.
    Leave,
    /// The statement is committed and the log brought to a checkpoint.
    Checkpoint,
    /// The statement is committed, and the log brought to a checkpoint if it is larger than this.
    CommitUpTo(u64),
}

/// When the write-ahead log is brought to a checkpoint.
pub struct LogClock {
    /// Commits since the last checkpoint.
    pub commits: u64,
    /// After so many commits a checkpoint is due.
    pub every_commits: u64,
    /// After so much time a checkpoint is due.
    pub interval: Duration,
    /// From this size on a checkpoint is due.
    pub threshold_bytes: u64,
    /// Whether the log is being replayed.
    pub replaying: bool,
    /// Whether there is a log.
    pub has_log: bool,
}

/// The next number, held within 64 bits.
pub open spec fn counted(n: u64) -> u64 {
    if n == u64::MAX {
        n
    } else {
        (n + 1) as u64
    }
}

impl LogClock {
    /// What is to be done with the log once a statement outside a transaction has succeeded.
    pub fn wal_finish_autocommit(&mut self, in_transaction: bool, force: bool, elapsed: Duration) -> (r:
        LogAction)
        ensures
            *final(self) == (LogClock { commits: final(self).commits, ..*old(self) }),
            if old(self).replaying || in_transaction || !old(self).has_log {
                r == LogAction::Leave && final(self).commits == old(self).commits
            } else if checkpoint_due(
                force,
                counted(old(self).commits) as nat,
                old(self).every_commits as nat,
                nanos(elapsed),
                nanos(old(self).interval),
            ) {
                r == LogAction::Checkpoint && final(self).commits == 0
            } else {
                &&& r == LogAction::CommitUpTo(old(self).threshold_bytes)
                &&& final(self).commits == counted(old(self).commits)
            },
    {
        if self.replaying || in_transaction || !self.has_log {
            return LogAction::Leave;
        }
        if self.commits < u64::MAX {
            self.commits = self.commits + 1;
        }
        if should_checkpoint_autocommit(
            force,
            self.commits,
            self.every_commits,
            elapsed,
            self.interval,
        ) {
            self.commits = 0;
            LogAction::Checkpoint
        } else {
            LogAction::CommitUpTo(self.threshold_bytes)
        }
    }

    /// `CHECKPOINT`: refused inside a transaction.
    pub fn handle_checkpoint(&mut self, in_transaction: bool) -> (r: Result<String, String>)
        ensures
            *final(self) == (LogClock { commits: final(self).commits, ..*old(self) }),
            if in_transaction {
                &&& r matches Err(e) && e@
                    == "CHECKPOINT is not allowed in an explicit transaction"@
                &&& final(self).commits == old(self).commits
            } else {
                &&& r matches Ok(m) && m@ == "Checkpoint completed for WAL and Arrow WAL."@
                &&& final(self).commits == if old(self).has_log {
                    0
                } else {
                    old(self).commits
                }
            },
    {
        if in_transaction {
            return Err("CHECKPOINT is not allowed in an explicit transaction".to_owned());
        }
        if self.has_log {
            self.commits = 0;
        }
        Ok("Checkpoint completed for WAL and Arrow WAL.".to_owned())
    }

    /// Whether a statement goes to the log at all: not while the log is replayed.
    pub fn appends(&self) -> (r: bool)
        ensures
            r == (!self.replaying && self.has_log),
    {
        !self.replaying && self.has_log
    }

    /// Whether the log is brought to a checkpoint when the database is closed: not while it is
    /// replayed, and not while rows are buffered that only the log holds.
    pub fn checkpoint_on_close(&self, buffers_empty: bool) -> (r: bool)
        ensures
            r == (!self.replaying && buffers_empty && self.has_log),
    {
        !self.replaying && buffers_empty && self.has_log
    }
}

// ---------------------------------------------------------------------------
// Laws
// ---------------------------------------------------------------------------

/// A log that may hold anything holds what was noted last.
pub proof fn law_newest_entry_is_kept<T>(s: Seq<T>, x: T, max: nat)
    requires
        max > 0,
    ensures
        newest(s.push(x), max).len() > 0,
        newest(s.push(x), max).last() == x,
{
}

/// Noting one entry after the other keeps the same entries as noting all and cutting once.
pub proof fn law_cutting_in_steps<T>(s: Seq<T>, x: T, max: nat)
    ensures
        newest(newest(s, max).push(x), max) == newest(s.push(x), max),
{
    assert(newest(newest(s, max).push(x), max) =~= newest(s.push(x), max));
}

/// A query of the changes without a table gives them all.
pub proof fn law_unfiltered_changes(s: Seq<CdcEventView>, n: nat)
    requires
        n <= s.len(),
    ensures
        matching_events(s, None, n) == s.subrange(0, n as int),
    decreases n,
{
    if n > 0 {
        law_unfiltered_changes(s, (n - 1) as nat);
        assert(s.subrange(0, n - 1).push(s[n - 1]) =~= s.subrange(0, n as int));
    } else {
        assert(s.subrange(0, 0) =~= Seq::<CdcEventView>::empty());
    }
}

/// With a table given exactly the changes of that table are listed, in their order.
pub proof fn law_filtered_changes(s: Seq<CdcEventView>, table: Seq<char>, n: nat)
    requires
        n <= s.len(),
    ensures
        matching_events(s, Some(table), n) == s.take(n as int).filter(
            |e: CdcEventView| same_ignore_case(e.table, table),
        ),
    decreases n,
{
    reveal(Seq::filter);
    if n > 0 {
        law_filtered_changes(s, table, (n - 1) as nat);
        assert(s.take(n as int).drop_last() =~= s.take(n - 1));
        assert(s.take(n as int).last() == s[n - 1]);
    }
}

/// What a line of the log leaves out is empty or 0, and what it says is taken over.
pub proof fn law_missing_members_are_empty(
    table: Option<Seq<char>>,
    op: Option<Seq<char>>,
    timestamp_ms: Option<i64>,
    rows: Option<u64>,
)
    ensures
        ({
            let e = event_of(table, op, timestamp_ms, rows);
            &&& table matches Some(t) ==> e.table == t
            &&& op matches Some(o) ==> e.op == o
            &&& timestamp_ms matches Some(ms) ==> e.timestamp_ms == ms
            &&& rows matches Some(n) ==> n <= usize::MAX ==> e.rows == n
            &&& table is None ==> e.table.len() == 0
            &&& op is None ==> e.op.len() == 0
            &&& timestamp_ms is None ==> e.timestamp_ms == 0
            &&& rows is None ==> e.rows == 0
        }),
{
}

} // verus!
