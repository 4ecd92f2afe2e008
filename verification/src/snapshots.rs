//! Looking back in time: the moments at which the tables were kept, and queries on them.
use vstd::prelude::*;
use vstd::string::*;

use crate::catalog::{Catalog, CatalogState};
use crate::text::{
    concat2, concat3, law_pattern_alone_is_replaced, law_text_without_the_pattern_stays, occurs_at,
    replace, replaced, texts,
};

verus! {

/// The moments at which the tables were kept, in milliseconds, oldest first.
pub struct Snapshots {
    pub times: Vec<i64>,
    /// Whether the tables are kept behind each change.
    pub enabled: bool,
    /// For how long they are kept, in milliseconds.
    pub retention_ms: i64,
}

/// How long ago a moment is, held within 64 bits.
pub open spec fn elapsed_ms(now: i64, t: i64) -> int {
    let d = now - t;
    if d > i64::MAX {
        i64::MAX as int
    } else if d < i64::MIN {
        i64::MIN as int
    } else {
        d
    }
}

/// How many moments at the beginning are too long ago.
pub open spec fn stale_count(times: Seq<i64>, now: i64, retention: i64) -> nat
    decreases times.len(),
{
    if times.len() > 0 && elapsed_ms(now, times[0]) > retention {
        1 + stale_count(times.subrange(1, times.len() as int), now, retention)
    } else {
        0
    }
}

/// The place of the latest of the first `n` moments that are not behind `t`; among equal ones the
/// last.
pub open spec fn latest_until(times: Seq<i64>, t: i64, n: nat) -> Option<int>
    decreases n,
{
    if n == 0 || n > times.len() {
        None
    } else {
        let rest = latest_until(times, t, (n - 1) as nat);
        if times[n - 1] > t {
            rest
        } else {
            match rest {
                Some(k) => if times[k] > times[n - 1] {
                    Some(k)
                } else {
                    Some(n - 1)
                },
                None => Some(n - 1),
            }
        }
    }
}

proof fn lemma_stale_bound(times: Seq<i64>, now: i64, retention: i64)
    ensures
        stale_count(times, now, retention) <= times.len(),
    decreases times.len(),
{
    if times.len() > 0 && elapsed_ms(now, times[0]) > retention {
        lemma_stale_bound(times.subrange(1, times.len() as int), now, retention);
    }
}

impl Snapshots {
    /// No moment was kept yet.
    pub fn new(retention_ms: i64) -> (r: Snapshots)
        ensures
            r.times@.len() == 0,
            !r.enabled,
            r.retention_ms == retention_ms,
    {
        Snapshots { times: Vec::new(), enabled: false, retention_ms }
    }

    /// Keeps the present moment, and drops those at the beginning that are too long ago. Tells how
    /// many were dropped.
    pub fn capture_snapshot(&mut self, now: i64) -> (r: usize)
        ensures
            r == stale_count(old(self).times@.push(now), now, old(self).retention_ms),
            r <= old(self).times@.len() + 1,
            final(self).times@ == old(self).times@.push(now).subrange(
                r as int,
                (old(self).times@.len() + 1) as int,
            ),
            final(self).enabled == old(self).enabled,
            final(self).retention_ms == old(self).retention_ms,
    {
        let ghost retention = self.retention_ms;
        self.times.push(now);
        let ghost all = self.times@;
        proof {
            lemma_stale_bound(all, now, retention);
            assert(all.subrange(0, all.len() as int) =~= all);
        }
        let mut k: usize = 0;
        let mut go: bool = true;
        while go && k < self.times.len()
            invariant
                k <= all.len(),
                all == self.times@,
                retention == self.retention_ms,
                stale_count(all, now, retention) == k + stale_count(
                    all.subrange(k as int, all.len() as int),
                    now,
                    retention,
                ),
                !go ==> stale_count(all.subrange(k as int, all.len() as int), now, retention) == 0,
            decreases all.len() - k, (if go {
                1int
            } else {
                0int
            }),
        {
            let ghost rest = all.subrange(k as int, all.len() as int);
            assert(rest[0] == all[k as int]);
            assert(rest.subrange(1, rest.len() as int) =~= all.subrange(k + 1, all.len() as int));
            let t: i64 = self.times[k];
            let wide: i128 = now as i128 - t as i128;
            let old_enough: bool = if wide > i64::MAX as i128 {
                i64::MAX > self.retention_ms
            } else if wide < i64::MIN as i128 {
                i64::MIN > self.retention_ms
            } else {
                wide > self.retention_ms as i128
            };
            if old_enough {
                k += 1;
            } else {
                go = false;
            }
        }
        assert(go ==> k == all.len());
        let mut kept: Vec<i64> = Vec::new();
        let mut i: usize = k;
        while i < self.times.len()
            invariant
                k <= i <= all.len(),
                all == self.times@,
                kept@ == all.subrange(k as int, i as int),
            decreases all.len() - i,
        {
            kept.push(self.times[i]);
            i += 1;
            assert(kept@ =~= all.subrange(k as int, i as int));
        }
        self.times = kept;
        k
    }

    /// Begins to keep the tables. Tells whether they are to be kept right now, because they were
    /// not kept before.
    pub fn enable(&mut self) -> (r: bool)
        ensures
            r == !old(self).enabled,
            final(self).enabled,
            final(self).times == old(self).times,
            final(self).retention_ms == old(self).retention_ms,
    {
        let first: bool = !self.enabled;
        self.enabled = true;
        first
    }

    /// Which of the kept moments a query on the past is answered from.
    pub fn choose_snapshot(&self, timestamp_ms: i64) -> (r: Result<usize, String>)
        ensures
            match r {
                Ok(k) => latest_until(self.times@, timestamp_ms, self.times@.len()) == Some(k as int),
                Err(e) => {
                    &&& latest_until(self.times@, timestamp_ms, self.times@.len()) is None
                    &&& e@ == "No snapshot available for requested AS OF timestamp"@
                },
            },
    {
        let mut best: Option<usize> = None;
        let mut i: usize = 0;
        while i < self.times.len()
            invariant
                i <= self.times@.len(),
                match best {
                    Some(k) => k < i && latest_until(self.times@, timestamp_ms, i as nat) == Some(
                        k as int,
                    ),
                    None => latest_until(self.times@, timestamp_ms, i as nat) is None,
                },
            decreases self.times@.len() - i,
        {
            let t: i64 = self.times[i];
            if t <= timestamp_ms {
                best = match best {
                    Some(k) => if self.times[k] > t {
                        Some(k)
                    } else {
                        Some(i)
                    },
                    None => Some(i),
                };
            }
            i += 1;
        }
        match best {
            Some(k) => Ok(k),
            None => Err("No snapshot available for requested AS OF timestamp".to_owned()),
        }
    }
}

// ---------------------------------------------------------------------------
// Queries on the past
// ---------------------------------------------------------------------------

/// The name under which the past of a table can be read.
pub open spec fn past_name(table: Seq<char>) -> Seq<char> {
    "__potato_asof_"@ + table
}

/// The name under which the past of a table can be read.
pub fn as_of_table(table: &str) -> (r: String)
    ensures
        r@ == past_name(table@),
{
    concat2("__potato_asof_", table)
}

/// The query with one table replaced by its past, behind `FROM` and `JOIN`, quoted and not.
pub open spec fn reading_past(sql: Seq<char>, table: Seq<char>) -> Seq<char> {
    let past = past_name(table);
    let from = "FROM \""@ + past + "\""@;
    let joined = "JOIN \""@ + past + "\""@;
    let a = replaced(sql, "FROM \""@ + table + "\""@, from);
    let b = replaced(a, "JOIN \""@ + table + "\""@, joined);
    let c = replaced(b, "FROM "@ + table, from);
    replaced(c, "JOIN "@ + table, joined)
}

/// The query with the first `n` tables replaced by their past, in order.
pub open spec fn reading_pasts(sql: Seq<char>, tables: Seq<Seq<char>>, n: nat) -> Seq<char>
    decreases n,
{
    if n == 0 || n > tables.len() {
        sql
    } else {
        reading_past(reading_pasts(sql, tables, (n - 1) as nat), tables[n - 1])
    }
}

fn read_past(sql: &str, table: &str) -> (r: String)
    ensures
        r@ == reading_past(sql@, table@),
{
    let past = as_of_table(table);
    let from = concat3("FROM \"", &past, "\"");
    let joined = concat3("JOIN \"", &past, "\"");
    let a = replace(sql, &concat3("FROM \"", table, "\""), &from);
    let b = replace(&a, &concat3("JOIN \"", table, "\""), &joined);
    let c = replace(&b, &concat2("FROM ", table), &from);
    replace(&c, &concat2("JOIN ", table), &joined)
}

/// A query with each of the tables replaced by its past.
pub fn rewrite_as_of(sql: &str, tables: &Vec<String>) -> (r: String)
    ensures
        r@ == reading_pasts(sql@, texts(tables@), texts(tables@).len()),
{
    let ghost all = texts(tables@);
    let mut out = sql.to_owned();
    let mut i: usize = 0;
    while i < tables.len()
        invariant
            i <= tables@.len(),
            all == texts(tables@),
            all.len() == tables@.len(),
            out@ == reading_pasts(sql@, all, i as nat),
        decreases tables@.len() - i,
    {
        assert(all[i as int] == tables@[i as int]@);
        out = read_past(&out, &tables[i]);
        i += 1;
    }
    out
}

/// A table that was kept: its name, and whether rows of it were kept.
pub struct KeptTable {
    pub name: String,
    pub has_rows: bool,
}

/// The kept tables that can be read: those with rows, which show their columns, and those that the
/// catalog still knows.
pub open spec fn readable_tables(
    state: CatalogState,
    kept: Seq<KeptTable>,
    n: nat,
) -> Seq<Seq<char>>
    decreases n,
{
    if n == 0 || n > kept.len() {
        Seq::empty()
    } else {
        let rest = readable_tables(state, kept, (n - 1) as nat);
        let t = kept[n - 1];
        if t.has_rows || state.tables.dom().contains(t.name@) {
            rest.push(t.name@)
        } else {
            rest
        }
    }
}

impl Catalog {
    /// The kept tables that can be read.
    pub fn readable_snapshot_tables(&self, kept: &Vec<KeptTable>) -> (r: Vec<String>)
        requires
            self.wf(),
        ensures
            texts(r@) == readable_tables(self@, kept@, kept@.len()),
    {
        let mut out: Vec<String> = Vec::new();
        let mut i: usize = 0;
        assert(texts(out@) =~= Seq::<Seq<char>>::empty());
        while i < kept.len()
            invariant
                i <= kept@.len(),
                self.wf(),
                texts(out@) == readable_tables(self@, kept@, i as nat),
            decreases kept@.len() - i,
        {
            if kept[i].has_rows || self.tables.contains_key(&kept[i].name) {
                let ghost done = out@;
                out.push(kept[i].name.clone());
                assert(texts(out@) =~= texts(done).push(kept@[i as int].name@));
            }
            i += 1;
        }
        out
    }
}

// ---------------------------------------------------------------------------
// Laws
// ---------------------------------------------------------------------------

/// A query on the past is answered from a moment that is not behind the one it asks for, and no
/// kept moment lies between the two.
pub proof fn law_nearest_snapshot_answers(times: Seq<i64>, t: i64, k: int)
    requires
        latest_until(times, t, times.len()) == Some(k),
    ensures
        0 <= k < times.len(),
        times[k] <= t,
        forall|i: int| 0 <= i < times.len() && #[trigger] times[i] <= t ==> times[i] <= times[k],
{
    lemma_latest(times, t, times.len());
}

proof fn lemma_latest(times: Seq<i64>, t: i64, n: nat)
    requires
        n <= times.len(),
    ensures
        match latest_until(times, t, n) {
            Some(k) => 0 <= k < n && times[k] <= t && forall|i: int|
                0 <= i < n && #[trigger] times[i] <= t ==> times[i] <= times[k],
            None => forall|i: int| 0 <= i < n ==> #[trigger] times[i] > t,
        },
    decreases n,
{
    if n > 0 {
        lemma_latest(times, t, (n - 1) as nat);
    }
}

/// Only where every kept moment lies behind the one that is asked for, no answer is given.
pub proof fn law_snapshot_is_found(times: Seq<i64>, t: i64)
    ensures
        latest_until(times, t, times.len()) is None <==> forall|i: int|
            0 <= i < times.len() ==> #[trigger] times[i] > t,
{
    lemma_latest(times, t, times.len());
    if latest_until(times, t, times.len()) is Some {
        let k = latest_until(times, t, times.len())->0;
        assert(times[k] <= t);
    }
}

/// The moment that was just kept stays, as long as any time at all is allowed.
pub proof fn law_present_snapshot_is_kept(times: Seq<i64>, now: i64, retention: i64)
    requires
        retention >= 0,
    ensures
        stale_count(times.push(now), now, retention) <= times.len(),
    decreases times.len(),
{
    let all = times.push(now);
    if times.len() == 0 {
        assert(all[0] == now);
    } else if elapsed_ms(now, all[0]) > retention {
        let rest = times.subrange(1, times.len() as int);
        assert(all.subrange(1, all.len() as int) =~= rest.push(now));
        law_present_snapshot_is_kept(rest, now, retention);
    }
}

/// Only snapshots that are older than the retention are dropped, and the first one that is kept is not.
pub proof fn law_only_old_snapshots_are_dropped(times: Seq<i64>, now: i64, retention: i64, i: int)
    ensures
        stale_count(times, now, retention) <= times.len(),
        0 <= i < stale_count(times, now, retention) && i64::MIN <= now - times[i] <= i64::MAX
            ==> now - times[i] > retention,
        i == stale_count(times, now, retention) && i < times.len() && i64::MIN <= now - times[i]
            <= i64::MAX ==> now - times[i] <= retention,
    decreases times.len(),
{
    if times.len() > 0 && elapsed_ms(now, times[0]) > retention {
        let rest = times.subrange(1, times.len() as int);
        law_only_old_snapshots_are_dropped(rest, now, retention, i - 1);
        if i > 0 && i < times.len() {
            assert(rest[i - 1] == times[i]);
        }
    }
}

/// A table can be read in the past exactly where it has kept rows or is there now.
pub proof fn law_readable_tables(state: CatalogState, kept: Seq<KeptTable>, n: nat, name: Seq<char>)
    requires
        n <= kept.len(),
    ensures
        readable_tables(state, kept, n).contains(name) <==> exists|i: int|
            0 <= i < n && (#[trigger] kept[i]).name@ == name && (kept[i].has_rows
                || state.tables.dom().contains(name)),
    decreases n,
{
    if n > 0 {
        let rest = readable_tables(state, kept, (n - 1) as nat);
        let whole = readable_tables(state, kept, n);
        let t = kept[n - 1];
        law_readable_tables(state, kept, (n - 1) as nat, name);
        if whole.contains(name) {
            let k = choose|k: int| 0 <= k < whole.len() && whole[k] == name;
            if k < rest.len() {
                assert(rest[k] == name);
                assert(rest.contains(name));
            } else {
                assert(kept[n - 1].name@ == name);
            }
        }
        if exists|i: int|
            0 <= i < n && (#[trigger] kept[i]).name@ == name && (kept[i].has_rows
                || state.tables.dom().contains(name)) {
            let i = choose|i: int|
                0 <= i < n && (#[trigger] kept[i]).name@ == name && (kept[i].has_rows
                    || state.tables.dom().contains(name));
            if i < n - 1 {
                assert(rest.contains(name));
                let k = choose|k: int| 0 <= k < rest.len() && rest[k] == name;
                assert(whole[k] == name);
            } else {
                assert(whole[rest.len() as int] == name);
            }
        }
    }
}

/// Different tables are kept under different names.
pub proof fn law_past_names_differ(a: Seq<char>, b: Seq<char>)
    requires
        past_name(a) == past_name(b),
    ensures
        a == b,
{
    let k = "__potato_asof_"@.len() as int;
    assert(past_name(a).len() == k + a.len() && past_name(b).len() == k + b.len());
    assert(past_name(a).subrange(k, k + a.len()) =~= a);
    assert(past_name(b).subrange(k, k + b.len()) =~= b);
}

/// A query that does not read a table is not changed for it.
pub proof fn law_other_tables_are_read_as_they_are(sql: Seq<char>, table: Seq<char>)
    requires
        forall|i: int| !#[trigger] occurs_at(sql, "FROM \""@ + table + "\""@, i),
        forall|i: int| !#[trigger] occurs_at(sql, "JOIN \""@ + table + "\""@, i),
        forall|i: int| !#[trigger] occurs_at(sql, "FROM "@ + table, i),
        forall|i: int| !#[trigger] occurs_at(sql, "JOIN "@ + table, i),
    ensures
        reading_past(sql, table) == sql,
{
    reveal_strlit("FROM \"");
    reveal_strlit("JOIN \"");
    reveal_strlit("FROM ");
    reveal_strlit("JOIN ");
    let past = past_name(table);
    let from = "FROM \""@ + past + "\""@;
    let joined = "JOIN \""@ + past + "\""@;
    law_text_without_the_pattern_stays(sql, "FROM \""@ + table + "\""@, from);
    law_text_without_the_pattern_stays(sql, "JOIN \""@ + table + "\""@, joined);
    law_text_without_the_pattern_stays(sql, "FROM "@ + table, from);
    law_text_without_the_pattern_stays(sql, "JOIN "@ + table, joined);
}

/// Where a query reads a table, in a `FROM` or a `JOIN` and with or without quotes, it reads what was kept
/// of the table instead.
pub proof fn law_the_past_is_read_instead(table: Seq<char>)
    requires
        ({
            let from = "FROM \""@ + past_name(table) + "\""@;
            let join = "JOIN \""@ + past_name(table) + "\""@;
            &&& forall|i: int| !#[trigger] occurs_at(from, "JOIN \""@ + table + "\""@, i)
            &&& forall|i: int| !#[trigger] occurs_at(from, "FROM "@ + table, i)
            &&& forall|i: int| !#[trigger] occurs_at(from, "JOIN "@ + table, i)
            &&& forall|i: int| !#[trigger] occurs_at(join, "FROM "@ + table, i)
            &&& forall|i: int| !#[trigger] occurs_at(join, "JOIN "@ + table, i)
            &&& forall|i: int|
                !#[trigger] occurs_at("FROM "@ + table, "FROM \""@ + table + "\""@, i)
            &&& forall|i: int|
                !#[trigger] occurs_at("FROM "@ + table, "JOIN \""@ + table + "\""@, i)
            &&& forall|i: int|
                !#[trigger] occurs_at("JOIN \""@ + table + "\""@, "FROM \""@ + table + "\""@, i)
        }),
    ensures
        reading_past("FROM \""@ + table + "\""@, table) == "FROM \""@ + past_name(table) + "\""@,
        reading_past("JOIN \""@ + table + "\""@, table) == "JOIN \""@ + past_name(table) + "\""@,
        reading_past("FROM "@ + table, table) == "FROM \""@ + past_name(table) + "\""@,
{
    reveal_strlit("FROM \"");
    reveal_strlit("JOIN \"");
    reveal_strlit("FROM ");
    reveal_strlit("JOIN ");
    let from = "FROM \""@ + past_name(table) + "\""@;
    let join = "JOIN \""@ + past_name(table) + "\""@;
    let a = "FROM \""@ + table + "\""@;
    let b = "JOIN \""@ + table + "\""@;
    let c = "FROM "@ + table;
    let d = "JOIN "@ + table;
    law_pattern_alone_is_replaced(a, from);
    law_text_without_the_pattern_stays(from, b, join);
    law_text_without_the_pattern_stays(from, c, from);
    law_text_without_the_pattern_stays(from, d, join);
    law_text_without_the_pattern_stays(b, a, from);
    law_pattern_alone_is_replaced(b, join);
    law_text_without_the_pattern_stays(join, c, from);
    law_text_without_the_pattern_stays(join, d, join);
    law_text_without_the_pattern_stays(c, a, from);
    law_text_without_the_pattern_stays(c, b, join);
    law_pattern_alone_is_replaced(c, from);
}

} // verus!
