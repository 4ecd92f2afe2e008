//! Schema migrations: their registration and the order in which they are applied.
use vstd::prelude::*;
use vstd::string::*;

use crate::catalog::{saved, Catalog, CatalogState};
use crate::catalog_types::{MigrationRecord, MigrationView};
use crate::dup::{views, Dup};
use crate::numbers::{decimal, parse_u64, parsed_unsigned, print_u64, print_usize};
use crate::text::{
    after_word, byte_slice, concat3, cuttable, find_byte_offset, from_chars, has_prefix, has_suffix,
    index_of, slice_bytes, slice_from, sliceable, starts_with, tail_at, to_chars, trim, trim_end,
    trim_end_matches, trim_end_matches_text, trim_end_text, trim_text, upper_text, utf8, ends_with,
};

verus! {

// ---------------------------------------------------------------------------
// CREATE MIGRATION
// ---------------------------------------------------------------------------

/// Whether a character is ASCII white space.
pub open spec fn is_ascii_space(c: char) -> bool {
    c == ' ' || c == '\t' || c == '\n' || c == '\r' || c == '\u{c}'
}

/// The first position at or after `i` that holds ASCII white space, or the end.
pub open spec fn skip_to_ascii_space(s: Seq<char>, i: int) -> int
    decreases s.len() - i,
{
    if 0 <= i < s.len() && !is_ascii_space(s[i]) {
        skip_to_ascii_space(s, i + 1)
    } else {
        i
    }
}

/// The description and the statement of a migration, given what stands behind its version, and
/// that in upper case. `None` where the text cannot be cut at the words.
pub open spec fn migration_body(
    version: u64,
    after: Seq<char>,
    upper: Seq<char>,
) -> Option<Result<MigrationView, Seq<char>>> {
    match index_of(utf8(upper), utf8("AS $$"@)) {
        None => Some(Err("CREATE MIGRATION requires AS $$ ... $$"@)),
        Some(at) => {
            let from = at + utf8("AS $$"@).len();
            if !sliceable(after, 0, at) || !cuttable(after, from) {
                None
            } else {
                let rest = trim_end_text(tail_at(after, from));
                if !has_suffix(rest, "$$"@) {
                    Some(Err("CREATE MIGRATION requires closing $$"@))
                } else {
                    Some(
                        Ok(
                            MigrationView {
                                version,
                                description: trim_text(byte_slice(after, 0, at)),
                                sql: trim_text(rest.subrange(0, rest.len() - "$$"@.len())),
                                applied_at_ms: 0,
                            },
                        ),
                    )
                }
            }
        },
    }
}

/// The migration that a `CREATE MIGRATION` statement describes, not yet applied. `None` where the
/// statement cannot be cut at the words.
pub open spec fn described_migration(sql: Seq<char>) -> Option<Result<MigrationView, Seq<char>>> {
    let n = utf8("CREATE MIGRATION "@).len() as int;
    if !cuttable(sql, n) {
        None
    } else {
        let rest = trim_end_matches_text(trim_text(tail_at(sql, n)), ';');
        let k = skip_to_ascii_space(rest, 0);
        match parsed_unsigned(rest.subrange(0, k), u64::MAX as nat) {
            None => Some(Err("CREATE MIGRATION version must be a non-negative integer"@)),
            Some(version) => if k >= rest.len() {
                Some(Err("CREATE MIGRATION requires description and AS $$ sql $$"@))
            } else {
                let after = rest.subrange(k + 1, rest.len() as int);
                migration_body(version as u64, after, upper_text(after))
            },
        }
    }
}

/// Whether the outcome of a reading is the one that the specification names.
pub open spec fn migration_outcome(
    r: Option<Result<MigrationRecord, String>>,
    spec: Option<Result<MigrationView, Seq<char>>>,
) -> bool {
    match r {
        None => spec is None,
        Some(Err(e)) => spec == Some(Err::<MigrationView, Seq<char>>(e@)),
        Some(Ok(m)) => spec == Some(Ok::<MigrationView, Seq<char>>(m@)),
    }
}

/// The description and the statement of a migration, given what stands behind its version, and
/// that in upper case.
pub fn migration_body_with(version: u64, after: &str, upper: &str) -> (r: Option<
    Result<MigrationRecord, String>,
>)
    ensures
        migration_outcome(r, migration_body(version, after@, upper@)),
{
    let at: usize = match find_byte_offset(upper, "AS $$") {
        None => {
            return Some(Err("CREATE MIGRATION requires AS $$ ... $$".to_owned()));
        },
        Some(k) => k,
    };
    let n: usize = "AS $$".as_bytes().len();
    match (slice_bytes(after, 0, at), slice_from(after, at, n)) {
        (Some(head), Some(tail)) => {
            let rest = trim_end(&tail);
            if !ends_with(&rest, "$$") {
                return Some(Err("CREATE MIGRATION requires closing $$".to_owned()));
            }
            let v = to_chars(&rest);
            let mark = to_chars("$$");
            let body = from_chars(&v, 0, v.len() - mark.len());
            Some(
                Ok(
                    MigrationRecord {
                        version,
                        description: trim(&head),
                        sql: trim(&body),
                        applied_at_ms: 0,
                    },
                ),
            )
        },
        _ => None,
    }
}

/// The migration that a `CREATE MIGRATION` statement describes, not yet applied.
pub fn parse_create_migration(sql: &str) -> (r: Option<Result<MigrationRecord, String>>)
    ensures
        migration_outcome(r, described_migration(sql@)),
{
    let rest = match after_word(sql, "CREATE MIGRATION ") {
        None => {
            return None;
        },
        Some(s) => trim_end_matches(&trim(&s), ';'),
    };
    let v = to_chars(&rest);
    let n: usize = v.len();
    let mut k: usize = 0;
    while k < n && !(v[k] == ' ' || v[k] == '\t' || v[k] == '\n' || v[k] == '\r' || v[k]
        == '\u{c}')
        invariant
            k <= n,
            n == v@.len(),
            skip_to_ascii_space(v@, 0) == skip_to_ascii_space(v@, k as int),
        decreases n - k,
    {
        k += 1;
    }
    match parse_u64(&from_chars(&v, 0, k)) {
        None => Some(Err("CREATE MIGRATION version must be a non-negative integer".to_owned())),
        Some(version) => {
            if k >= n {
                return Some(
                    Err("CREATE MIGRATION requires description and AS $$ sql $$".to_owned()),
                );
            }
            let after = from_chars(&v, k + 1, n);
            let upper = after.to_uppercase();
            migration_body_with(version, &after, &upper)
        },
    }
}

/// `sorted` with `m` put behind the last migration whose version is not greater.
pub open spec fn placed_by_version(sorted: Seq<MigrationView>, m: MigrationView) -> Seq<
    MigrationView,
>
    decreases sorted.len(),
{
    if sorted.len() == 0 || sorted.last().version <= m.version {
        sorted.push(m)
    } else {
        placed_by_version(sorted.drop_last(), m).push(sorted.last())
    }
}

/// The migrations in the order of their versions; equal versions keep their order.
pub open spec fn by_version(ms: Seq<MigrationView>) -> Seq<MigrationView>
    decreases ms.len(),
{
    if ms.len() == 0 {
        Seq::empty()
    } else {
        placed_by_version(by_version(ms.drop_last()), ms.last())
    }
}

/// Whether some migration has the version.
pub open spec fn has_version(ms: Seq<MigrationView>, version: u64) -> bool {
    exists|i: int| 0 <= i < ms.len() && (#[trigger] ms[i]).version == version
}

/// Whether the versions rise from one migration to the next.
pub open spec fn rising(ms: Seq<MigrationView>) -> bool {
    forall|i: int, j: int| 0 <= i < j < ms.len() ==> (#[trigger] ms[i]).version < (
    #[trigger] ms[j]).version
}

fn sort_by_version(ms: &Vec<MigrationRecord>) -> (r: Vec<MigrationRecord>)
    ensures
        views(r@) == by_version(views(ms@)),
{
    let mut sorted: Vec<MigrationRecord> = Vec::new();
    let mut i: usize = 0;
    assert(views(sorted@) == by_version(views(ms@).subrange(0, 0)));
    while i < ms.len()
        invariant
            i <= ms@.len(),
            views(sorted@) == by_version(views(ms@).subrange(0, i as int)),
        decreases ms@.len() - i,
    {
        let ghost all = views(sorted@);
        let ghost next = views(ms@).subrange(0, i + 1);
        assert(next.drop_last() == views(ms@).subrange(0, i as int));
        let m = ms[i].dup();
        let ghost mv = m@;
        let mut k: usize = sorted.len();
        assert(all.subrange(0, k as int) == all);
        assert(all.subrange(k as int, all.len() as int) == Seq::<MigrationView>::empty());
        while k > 0 && sorted[k - 1].version > m.version
            invariant
                k <= sorted@.len(),
                all == views(sorted@),
                placed_by_version(all, m@) == placed_by_version(all.subrange(0, k as int), m@)
                    + all.subrange(k as int, all.len() as int),
            decreases k,
        {
            let ghost part = all.subrange(0, k as int);
            proof {
                assert(part.drop_last() == all.subrange(0, k - 1));
                assert(part.last() == sorted@[k - 1]@);
                assert(placed_by_version(part, m@) == placed_by_version(part.drop_last(), m@).push(
                    part.last(),
                ));
                assert(placed_by_version(part, m@) + all.subrange(k as int, all.len() as int)
                    == placed_by_version(all.subrange(0, k - 1), m@) + all.subrange(
                    k - 1,
                    all.len() as int,
                ));
            }
            k -= 1;
        }
        let ghost part = all.subrange(0, k as int);
        proof {
            if k > 0 {
                assert(part.last() == sorted@[k - 1]@);
            }
            assert(placed_by_version(part, m@) == part.push(m@));
        }
        sorted.insert(k, m);
        proof {
            assert(views(sorted@) == part.push(mv) + all.subrange(k as int, all.len() as int));
            assert(next.last() == mv);
        }
        i += 1;
    }
    assert(views(ms@).subrange(0, ms@.len() as int) == views(ms@));
    sorted
}

/// The catalog with one more migration.
pub open spec fn with_migration(c: CatalogState, m: MigrationView) -> CatalogState {
    CatalogState { migrations: by_version(c.migrations.push(m)), ..c }
}

impl Catalog {
    /// Whether some migration has the version.
    pub fn has_migration(&self, version: u64) -> (r: bool)
        ensures
            r == has_version(self@.migrations, version),
    {
        let mut i: usize = 0;
        while i < self.migrations.len()
            invariant
                i <= self.migrations@.len(),
                forall|j: int|
                    0 <= j < i ==> (#[trigger] views(self.migrations@)[j]).version != version,
            decreases self.migrations@.len() - i,
        {
            assert(views(self.migrations@)[i as int] == self.migrations@[i as int]@);
            if self.migrations[i].version == version {
                return true;
            }
            i += 1;
        }
        false
    }

    /// Carries out a `CREATE MIGRATION` statement, and returns the message; `None` where the
    /// statement cannot be cut at the words.
    pub fn handle_create_migration(&mut self, sql: &str) -> (r: Option<Result<String, String>>)
        requires
            old(self).wf(),
        ensures
            final(self).wf(),
            match described_migration(sql@) {
                None => r is None && *final(self) == *old(self),
                Some(Err(e)) => r matches Some(Err(m)) && m@ == e && *final(self) == *old(self),
                Some(Ok(m)) => if has_version(old(self)@.migrations, m.version) {
                    &&& r matches Some(Err(e)) && e@ == "Migration version "@ + decimal(
                        m.version as nat,
                    ) + " already exists"@
                    &&& *final(self) == *old(self)
                } else {
                    &&& r matches Some(Ok(s)) && s@ == "Migration "@ + decimal(m.version as nat)
                        + " '"@ + m.description + "' registered."@
                    &&& final(self)@ == with_migration(old(self)@, m)
                    &&& saved(old(self), final(self))
                },
            },
    {
        match parse_create_migration(sql) {
            None => None,
            Some(Err(e)) => Some(Err(e)),
            Some(Ok(m)) => {
                let number = print_u64(m.version);
                if self.has_migration(m.version) {
                    return Some(Err(concat3("Migration version ", &number, " already exists")));
                }
                let msg = concat3(
                    &concat3("Migration ", &number, " '"),
                    &m.description,
                    "' registered.",
                );
                let ghost before = self.migrations@;
                let ghost mv = m@;
                self.migrations.push(m);
                assert(views(self.migrations@) == views(before).push(mv));
                self.migrations = sort_by_version(&self.migrations);
                self.save();
                assert(self@ =~= with_migration(old(self)@, mv));
                Some(Ok(msg))
            },
        }
    }
}

// ---------------------------------------------------------------------------
// MIGRATE
// ---------------------------------------------------------------------------

/// The version that a `MIGRATE` statement goes to, if it names one. The outer `None` where the
/// statement cannot be cut at the words.
pub open spec fn migrate_target(sql: Seq<char>) -> Option<Result<Option<u64>, Seq<char>>> {
    let n = utf8("MIGRATE"@).len() as int;
    if !cuttable(sql, n) {
        None
    } else {
        let rest = trim_end_matches_text(trim_text(tail_at(sql, n)), ';');
        if has_prefix(upper_text(rest), "TO "@) {
            if !cuttable(rest, utf8("TO "@).len() as int) {
                None
            } else {
                match parsed_unsigned(
                    trim_text(tail_at(rest, utf8("TO "@).len() as int)),
                    u64::MAX as nat,
                ) {
                    Some(v) => Some(Ok(Some(v as u64))),
                    None => Some(Err("MIGRATE TO requires a valid version number"@)),
                }
            }
        } else if rest.len() == 0 {
            Some(Ok(None))
        } else {
            Some(Err("MIGRATE expects optional TO <version>"@))
        }
    }
}

/// The version that a `MIGRATE` statement goes to, if it names one.
pub fn parse_migrate(sql: &str) -> (r: Option<Result<Option<u64>, String>>)
    ensures
        match r {
            None => migrate_target(sql@) is None,
            Some(Ok(t)) => migrate_target(sql@) == Some(Ok::<Option<u64>, Seq<char>>(t)),
            Some(Err(e)) => migrate_target(sql@) == Some(Err::<Option<u64>, Seq<char>>(e@)),
        },
{
    let rest = match after_word(sql, "MIGRATE") {
        None => {
            return None;
        },
        Some(s) => trim_end_matches(&trim(&s), ';'),
    };
    let upper = rest.to_uppercase();
    if starts_with(&upper, "TO ") {
        match after_word(&rest, "TO ") {
            None => None,
            Some(tail) => match parse_u64(&trim(&tail)) {
                Some(v) => Some(Ok(Some(v))),
                None => Some(Err("MIGRATE TO requires a valid version number".to_owned())),
            },
        }
    } else if rest.as_str().is_empty() {
        Some(Ok(None))
    } else {
        Some(Err("MIGRATE expects optional TO <version>".to_owned()))
    }
}

/// Whether a migration is to be applied: it is newer than the schema and, where there is a target,
/// not newer than that.
pub open spec fn is_pending(m: MigrationView, current: u64, target: Option<u64>) -> bool {
    &&& m.version > current
    &&& target matches Some(t) ==> m.version <= t
}

/// The migrations to be applied, in the order of the list.
pub open spec fn pending(
    ms: Seq<MigrationView>,
    current: u64,
    target: Option<u64>,
) -> Seq<MigrationView>
    decreases ms.len(),
{
    if ms.len() == 0 {
        Seq::empty()
    } else if is_pending(ms.last(), current, target) {
        pending(ms.drop_last(), current, target).push(ms.last())
    } else {
        pending(ms.drop_last(), current, target)
    }
}

/// The migrations after the first one of the version was marked as applied.
pub open spec fn marked(ms: Seq<MigrationView>, version: u64, now_ms: i64, i: int) -> Seq<
    MigrationView,
>
    decreases ms.len() - i,
{
    if i < 0 || i >= ms.len() {
        ms
    } else if ms[i].version == version {
        ms.update(i, MigrationView { applied_at_ms: now_ms, ..ms[i] })
    } else {
        marked(ms, version, now_ms, i + 1)
    }
}

/// The catalog after a migration was applied: its record is marked and the schema has its version.
pub open spec fn with_applied(c: CatalogState, version: u64, now_ms: i64) -> CatalogState {
    CatalogState {
        migrations: marked(c.migrations, version, now_ms, 0),
        schema_version: version,
        ..c
    }
}

impl Catalog {
    /// The migrations that a `MIGRATE` statement applies, in order.
    pub fn pending_migrations(&self, target: Option<u64>) -> (r: Vec<MigrationRecord>)
        ensures
            views(r@) == pending(self@.migrations, self.schema_version, target),
    {
        let mut out: Vec<MigrationRecord> = Vec::new();
        let ghost all = views(self.migrations@);
        let mut i: usize = 0;
        assert(views(out@) == Seq::<MigrationView>::empty());
        while i < self.migrations.len()
            invariant
                i <= self.migrations@.len(),
                all == views(self.migrations@),
                views(out@) == pending(all.subrange(0, i as int), self.schema_version, target),
            decreases self.migrations@.len() - i,
        {
            let ghost next = all.subrange(0, i + 1);
            let ghost done = out@;
            assert(next.drop_last() == all.subrange(0, i as int));
            assert(next.last() == self.migrations@[i as int]@);
            let v: u64 = self.migrations[i].version;
            let wanted = v > self.schema_version && match target {
                Some(t) => v <= t,
                None => true,
            };
            if wanted {
                let copy = self.migrations[i].dup();
                out.push(copy);
                assert(views(out@) == views(done).push(next.last()));
            }
            i += 1;
        }
        assert(all.subrange(0, i as int) == all);
        out
    }

    /// Notes that the migration of the given version was applied.
    pub fn record_migration(&mut self, version: u64, now_ms: i64)
        requires
            old(self).wf(),
        ensures
            final(self).wf(),
            final(self)@ == with_applied(old(self)@, version, now_ms),
            final(self).in_transaction == old(self).in_transaction,
            final(self).dirty == old(self).dirty,
    {
        let ghost all = views(self.migrations@);
        let n: usize = self.migrations.len();
        let mut i: usize = 0;
        let mut found: usize = n;
        while i < n
            invariant
                i <= n,
                n == self.migrations@.len(),
                *self == *old(self),
                all == views(self.migrations@),
                found <= n,
                found < n ==> self.migrations@[found as int].version == version && marked(
                    all,
                    version,
                    now_ms,
                    0,
                ) == marked(all, version, now_ms, found as int),
                found == n ==> marked(all, version, now_ms, 0) == marked(
                    all,
                    version,
                    now_ms,
                    i as int,
                ),
            decreases n - i,
        {
            assert(all[i as int] == self.migrations@[i as int]@);
            if found == n && self.migrations[i].version == version {
                found = i;
            }
            i += 1;
        }
        if found < n {
            let ghost before = self.migrations@;
            self.migrations[found].applied_at_ms = now_ms;
            proof {
                assert(all[found as int] == before[found as int]@);
                assert(views(self.migrations@) =~= all.update(
                    found as int,
                    MigrationView { applied_at_ms: now_ms, ..all[found as int] },
                ));
            }
        }
        self.schema_version = version;
        assert(self@ =~= with_applied(old(self)@, version, now_ms));
    }
}

/// The message after `MIGRATE`.
pub fn migrate_message(applied: usize, schema_version: u64) -> (r: String)
    ensures
        r@ == "Applied "@ + decimal(applied as nat) + " migration(s). Schema version: "@ + decimal(
            schema_version as nat,
        ) + "."@,
{
    concat3(
        &concat3("Applied ", &print_usize(applied), " migration(s). Schema version: "),
        &print_u64(schema_version),
        ".",
    )
}

// ---------------------------------------------------------------------------
// Laws
// ---------------------------------------------------------------------------

proof fn lemma_placed(s: Seq<MigrationView>, m: MigrationView)
    requires
        rising(s),
        !has_version(s, m.version),
    ensures
        rising(placed_by_version(s, m)),
        forall|v: u64| #[trigger]
            has_version(placed_by_version(s, m), v) <==> has_version(s, v) || v == m.version,
    decreases s.len(),
{
    let p = placed_by_version(s, m);
    if s.len() == 0 || s.last().version <= m.version {
        assert forall|i: int, j: int| 0 <= i < j < p.len() implies (#[trigger] p[i]).version < (
        #[trigger] p[j]).version by {
            if j == s.len() {
                assert(s[i].version != m.version);
                if i < s.len() - 1 {
                    assert(s[i].version < s[s.len() - 1].version);
                }
            }
        }
        assert forall|v: u64| #[trigger] has_version(p, v) <==> has_version(s, v) || v
            == m.version by {
            if has_version(s, v) {
                let i = choose|i: int| 0 <= i < s.len() && (#[trigger] s[i]).version == v;
                assert(p[i].version == v);
            }
            if v == m.version {
                assert(p[s.len() as int].version == v);
            }
            if has_version(p, v) {
                let i = choose|i: int| 0 <= i < p.len() && (#[trigger] p[i]).version == v;
                if i < s.len() {
                    assert(s[i].version == v);
                }
            }
        }
    } else {
        let h = s.drop_last();
        assert forall|i: int| 0 <= i < h.len() implies (#[trigger] h[i]).version != m.version by {
            assert(s[i].version != m.version);
        }
        assert(rising(h)) by {
            assert forall|i: int, j: int| 0 <= i < j < h.len() implies (#[trigger] h[i]).version < (
            #[trigger] h[j]).version by {
                assert(s[i].version < s[j].version);
            }
        }
        lemma_placed(h, m);
        let q = placed_by_version(h, m);
        assert(p == q.push(s.last()));
        assert forall|i: int, j: int| 0 <= i < j < p.len() implies (#[trigger] p[i]).version < (
        #[trigger] p[j]).version by {
            if j == q.len() {
                assert(has_version(q, q[i].version));
                if q[i].version != m.version {
                    let k = choose|k: int|
                        0 <= k < h.len() && (#[trigger] h[k]).version == q[i].version;
                    assert(s[k].version < s[s.len() - 1].version);
                }
            } else {
                assert(q[i].version < q[j].version);
            }
        }
        assert forall|v: u64| #[trigger] has_version(p, v) <==> has_version(s, v) || v
            == m.version by {
            assert(has_version(q, v) <==> has_version(h, v) || v == m.version);
            if has_version(h, v) {
                let i = choose|i: int| 0 <= i < h.len() && (#[trigger] h[i]).version == v;
                assert(s[i].version == v);
            }
            if has_version(s, v) {
                let i = choose|i: int| 0 <= i < s.len() && (#[trigger] s[i]).version == v;
                if i < h.len() {
                    assert(h[i].version == v);
                } else {
                    assert(p[q.len() as int].version == v);
                }
            }
            if has_version(q, v) {
                let i = choose|i: int| 0 <= i < q.len() && (#[trigger] q[i]).version == v;
                assert(p[i].version == v);
            }
            if has_version(p, v) {
                let i = choose|i: int| 0 <= i < p.len() && (#[trigger] p[i]).version == v;
                if i < q.len() {
                    assert(q[i].version == v);
                } else {
                    assert(s[s.len() - 1].version == v);
                }
            }
        }
    }
}

proof fn lemma_by_version_rising(s: Seq<MigrationView>)
    requires
        rising(s),
    ensures
        by_version(s) == s,
    decreases s.len(),
{
    if s.len() > 0 {
        let h = s.drop_last();
        assert(rising(h)) by {
            assert forall|i: int, j: int| 0 <= i < j < h.len() implies (#[trigger] h[i]).version < (
            #[trigger] h[j]).version by {
                assert(s[i].version < s[j].version);
            }
        }
        lemma_by_version_rising(h);
        if h.len() > 0 {
            assert(s[h.len() - 1].version < s[s.len() - 1].version);
        }
        assert(h.push(s.last()) == s);
    } else {
        assert(by_version(s) =~= s);
    }
}

/// Registering a migration whose version is new keeps the versions rising, and adds that version
/// and no other.
pub proof fn law_registration_keeps_order(c: CatalogState, m: MigrationView)
    requires
        rising(c.migrations),
        !has_version(c.migrations, m.version),
    ensures
        rising(with_migration(c, m).migrations),
        forall|v: u64| #[trigger]
            has_version(with_migration(c, m).migrations, v) <==> has_version(c.migrations, v) || v
                == m.version,
{
    let s = c.migrations;
    assert(s.push(m).drop_last() == s);
    lemma_by_version_rising(s);
    lemma_placed(s, m);
}

proof fn lemma_pending_empty(ms: Seq<MigrationView>, current: u64, target: Option<u64>)
    requires
        forall|i: int| 0 <= i < ms.len() ==> !is_pending(#[trigger] ms[i], current, target),
    ensures
        pending(ms, current, target) == Seq::<MigrationView>::empty(),
    decreases ms.len(),
{
    if ms.len() > 0 {
        let h = ms.drop_last();
        assert forall|i: int| 0 <= i < h.len() implies !is_pending(
            #[trigger] h[i],
            current,
            target,
        ) by {
            assert(!is_pending(ms[i], current, target));
        }
        lemma_pending_empty(h, current, target);
        assert(!is_pending(ms[ms.len() - 1], current, target));
    }
}

proof fn lemma_pending_last(ms: Seq<MigrationView>, current: u64, target: Option<u64>, i: int)
    requires
        rising(ms),
        0 <= i < ms.len(),
        is_pending(ms[i], current, target),
    ensures
        pending(ms, current, target).len() > 0,
        ms[i].version <= pending(ms, current, target).last().version,
    decreases ms.len(),
{
    let h = ms.drop_last();
    if i == ms.len() - 1 {
    } else {
        assert(rising(h)) by {
            assert forall|a: int, b: int| 0 <= a < b < h.len() implies (#[trigger] h[a]).version < (
            #[trigger] h[b]).version by {
                assert(ms[a].version < ms[b].version);
            }
        }
        assert(h[i] == ms[i]);
        lemma_pending_last(h, current, target, i);
        assert(ms[i].version < ms[ms.len() - 1].version);
    }
}

proof fn lemma_marked(ms: Seq<MigrationView>, version: u64, now_ms: i64, i: int)
    requires
        0 <= i,
    ensures
        marked(ms, version, now_ms, i).len() == ms.len(),
        forall|j: int|
            0 <= j < ms.len() ==> (#[trigger] marked(ms, version, now_ms, i)[j]).version
                == ms[j].version,
    decreases ms.len() - i,
{
    if i < ms.len() && ms[i].version != version {
        lemma_marked(ms, version, now_ms, i + 1);
    }
}

/// Once the schema has the version of the last migration that was to be applied, the same `MIGRATE`
/// statement has nothing more to apply.
pub proof fn law_migrate_again_applies_nothing(
    c: CatalogState,
    target: Option<u64>,
    now_ms: i64,
)
    requires
        rising(c.migrations),
        pending(c.migrations, c.schema_version, target).len() > 0,
    ensures
        ({
            let last = pending(c.migrations, c.schema_version, target).last().version;
            let d = with_applied(c, last, now_ms);
            pending(d.migrations, d.schema_version, target) == Seq::<MigrationView>::empty()
        }),
{
    let ms = c.migrations;
    let last = pending(ms, c.schema_version, target).last().version;
    let d = with_applied(c, last, now_ms);
    lemma_marked(ms, last, now_ms, 0);
    lemma_pending_bound(ms, c.schema_version, target);
    assert forall|i: int| 0 <= i < d.migrations.len() implies !is_pending(
        #[trigger] d.migrations[i],
        d.schema_version,
        target,
    ) by {
        assert(d.migrations[i].version == ms[i].version);
        if is_pending(ms[i], c.schema_version, target) {
            lemma_pending_last(ms, c.schema_version, target, i);
        }
    }
    lemma_pending_empty(d.migrations, d.schema_version, target);
}

proof fn lemma_pending_bound(ms: Seq<MigrationView>, current: u64, target: Option<u64>)
    ensures
        forall|i: int|
            0 <= i < pending(ms, current, target).len() ==> is_pending(
                #[trigger] pending(ms, current, target)[i],
                current,
                target,
            ),
    decreases ms.len(),
{
    if ms.len() > 0 {
        lemma_pending_bound(ms.drop_last(), current, target);
        let p = pending(ms, current, target);
        let q = pending(ms.drop_last(), current, target);
        assert forall|i: int| 0 <= i < p.len() implies is_pending(#[trigger] p[i], current, target) by {
            if i < q.len() {
                assert(p[i] == q[i]);
            }
        }
    }
}

/// Exactly those migrations are due that are newer than the version and not newer than the target, in
/// their order.
pub proof fn law_pending_migrations(ms: Seq<MigrationView>, current: u64, target: Option<u64>)
    ensures
        pending(ms, current, target) == ms.filter(
            |m: MigrationView|
                m.version > current && (target is None || m.version <= target->0),
        ),
    decreases ms.len(),
{
    reveal(Seq::filter);
    if ms.len() > 0 {
        law_pending_migrations(ms.drop_last(), current, target);
    }
}

/// A migration that was applied has its time, the others stay, and the catalog has its version.
pub proof fn law_applied_migration_is_marked(
    c: CatalogState,
    version: u64,
    now_ms: i64,
    k: int,
)
    requires
        0 <= k < c.migrations.len(),
        c.migrations[k].version == version,
        forall|i: int| 0 <= i < k ==> (#[trigger] c.migrations[i]).version != version,
    ensures
        with_applied(c, version, now_ms).schema_version == version,
        with_applied(c, version, now_ms).migrations.len() == c.migrations.len(),
        with_applied(c, version, now_ms).migrations[k] == (MigrationView {
            applied_at_ms: now_ms,
            ..c.migrations[k]
        }),
        forall|j: int|
            0 <= j < c.migrations.len() && j != k ==> #[trigger] with_applied(
                c,
                version,
                now_ms,
            ).migrations[j] == c.migrations[j],
{
    lemma_marked_at(c.migrations, version, now_ms, 0, k);
}

proof fn lemma_marked_at(ms: Seq<MigrationView>, version: u64, now_ms: i64, i: int, k: int)
    requires
        0 <= i <= k < ms.len(),
        ms[k].version == version,
        forall|j: int| i <= j < k ==> (#[trigger] ms[j]).version != version,
    ensures
        marked(ms, version, now_ms, i) == ms.update(
            k,
            MigrationView { applied_at_ms: now_ms, ..ms[k] },
        ),
    decreases k - i,
{
    if i < k {
        assert(ms[i].version != version);
        lemma_marked_at(ms, version, now_ms, i + 1, k);
    }
}

} // verus!
