//! The catalog of tables, indexes, views, sequences, functions, users, roles, triggers and
//! migrations.
//!
//! A mutation marks the catalog as dirty, and the caller writes a dirty catalog out at the end of
//! a statement. While an explicit transaction is active mutations stay in memory alone:
//! [`Catalog::force_save`] (on `COMMIT`) hands them out to be written, and [`Catalog::restore`]
//! (on `ROLLBACK`) drops them.
use vstd::prelude::*;
use vstd::string::*;

use crate::catalog_types::{
    FileStats, IndexDef, IndexView, MigrationRecord, MigrationView, RoleDef, RoleView, SequenceDef,
    SequenceView, TableMeta, TableStatistics, TableView, TriggerDef, TriggerView, UdfDef, UdfView,
    UserDef, UserView, ViewDef, ViewView,
};
use crate::dup::{all_wf, dup_vec, opt_view, views, Dup};
use crate::namemap::{key_pos, without, NameMap};
use crate::text::{clone_strings, concat3, same, texts};

verus! {

/// The names of the roles that a user has.
pub struct RoleNames {
    pub names: Vec<String>,
}

impl View for RoleNames {
    type V = Seq<Seq<char>>;

    open spec fn view(&self) -> Seq<Seq<char>> {
        texts(self.names@)
    }
}

impl Dup for RoleNames {
    open spec fn wf(&self) -> bool {
        true
    }

    fn dup(&self) -> (r: Self) {
        RoleNames { names: clone_strings(&self.names) }
    }
}

/// A point-in-time snapshot of the full catalog state, captured at `BEGIN` and used by `ROLLBACK`
/// to restore state; also what is written to and read from the backing store.
pub struct CatalogSnapshot {
    pub tables: NameMap<TableMeta>,
    pub indexes: NameMap<IndexDef>,
    pub views: NameMap<ViewDef>,
    pub sequences: NameMap<SequenceDef>,
    pub udfs: NameMap<UdfDef>,
    pub users: NameMap<UserDef>,
    pub roles: NameMap<RoleDef>,
    pub user_roles: NameMap<RoleNames>,
    pub triggers: NameMap<TriggerDef>,
    pub schema_version: u64,
    pub migrations: Vec<MigrationRecord>,
}

/// What a catalog holds.
#[verifier::ext_equal]
pub struct CatalogState {
    pub tables: Map<Seq<char>, TableView>,
    pub indexes: Map<Seq<char>, IndexView>,
    pub views: Map<Seq<char>, ViewView>,
    pub sequences: Map<Seq<char>, SequenceView>,
    pub udfs: Map<Seq<char>, UdfView>,
    pub users: Map<Seq<char>, UserView>,
    pub roles: Map<Seq<char>, RoleView>,
    pub user_roles: Map<Seq<char>, Seq<Seq<char>>>,
    pub triggers: Map<Seq<char>, TriggerView>,
    pub schema_version: u64,
    pub migrations: Seq<MigrationView>,
}

impl View for CatalogSnapshot {
    type V = CatalogState;

    open spec fn view(&self) -> CatalogState {
        CatalogState {
            tables: self.tables.deep(),
            indexes: self.indexes.deep(),
            views: self.views.deep(),
            sequences: self.sequences.deep(),
            udfs: self.udfs.deep(),
            users: self.users.deep(),
            roles: self.roles.deep(),
            user_roles: self.user_roles.deep(),
            triggers: self.triggers.deep(),
            schema_version: self.schema_version,
            migrations: views(self.migrations@),
        }
    }
}

impl Dup for CatalogSnapshot {
    open spec fn wf(&self) -> bool {
        &&& self.tables.deep_wf()
        &&& self.indexes.deep_wf()
        &&& self.views.deep_wf()
        &&& self.sequences.deep_wf()
        &&& self.udfs.deep_wf()
        &&& self.users.deep_wf()
        &&& self.roles.deep_wf()
        &&& self.user_roles.deep_wf()
        &&& self.triggers.deep_wf()
    }

    fn dup(&self) -> (r: Self) {
        CatalogSnapshot {
            tables: self.tables.dup_map(),
            indexes: self.indexes.dup_map(),
            views: self.views.dup_map(),
            sequences: self.sequences.dup_map(),
            udfs: self.udfs.dup_map(),
            users: self.users.dup_map(),
            roles: self.roles.dup_map(),
            user_roles: self.user_roles.dup_map(),
            triggers: self.triggers.dup_map(),
            schema_version: self.schema_version,
            migrations: dup_vec(&self.migrations),
        }
    }
}

/// What was found in the backing store when the catalog was opened.
pub enum CatalogFile {
    /// There is no catalog file yet.
    Missing,
    /// A catalog file of the present layout.
    Full(CatalogSnapshot),
    /// A file of the first layout, which holds a map of tables and nothing else.
    TablesOnly(NameMap<TableMeta>),
}

/// The in-memory catalog.
pub struct Catalog {
    /// All registered tables, keyed by table name.
    pub tables: NameMap<TableMeta>,
    /// All registered indexes, keyed by index name.
    pub indexes: NameMap<IndexDef>,
    /// All registered views, keyed by view name.
    pub views: NameMap<ViewDef>,
    /// All registered sequences, keyed by sequence name.
    pub sequences: NameMap<SequenceDef>,
    /// All registered SQL functions, keyed by function name.
    pub udfs: NameMap<UdfDef>,
    /// Persisted user accounts, keyed by username.
    pub users: NameMap<UserDef>,
    /// Persisted role definitions, keyed by role name.
    pub roles: NameMap<RoleDef>,
    /// Maps a username to the names of the user's roles.
    pub user_roles: NameMap<RoleNames>,
    /// Persisted trigger definitions, keyed by trigger name.
    pub triggers: NameMap<TriggerDef>,
    /// Schema version number for migrations.
    pub schema_version: u64,
    /// Migration records.
    pub migrations: Vec<MigrationRecord>,
    /// When `true`, [`Catalog::save`] does nothing.
    pub in_transaction: bool,
    /// Set by mutations; cleared when the catalog is handed out to be written.
    pub dirty: bool,
}

impl View for Catalog {
    type V = CatalogState;

    open spec fn view(&self) -> CatalogState {
        CatalogState {
            tables: self.tables.deep(),
            indexes: self.indexes.deep(),
            views: self.views.deep(),
            sequences: self.sequences.deep(),
            udfs: self.udfs.deep(),
            users: self.users.deep(),
            roles: self.roles.deep(),
            user_roles: self.user_roles.deep(),
            triggers: self.triggers.deep(),
            schema_version: self.schema_version,
            migrations: views(self.migrations@),
        }
    }
}

/// The catalog that holds nothing.
pub open spec fn empty_state() -> CatalogState {
    CatalogState {
        tables: Map::empty(),
        indexes: Map::empty(),
        views: Map::empty(),
        sequences: Map::empty(),
        udfs: Map::empty(),
        users: Map::empty(),
        roles: Map::empty(),
        user_roles: Map::empty(),
        triggers: Map::empty(),
        schema_version: 0,
        migrations: Seq::empty(),
    }
}

/// What a catalog holds that was loaded from a file.
pub open spec fn file_state(file: CatalogFile) -> CatalogState {
    match file {
        CatalogFile::Missing => empty_state(),
        CatalogFile::Full(data) => data@,
        CatalogFile::TablesOnly(tables) => CatalogState { tables: tables.deep(), ..empty_state() },
    }
}

/// A catalog with a table entered under its name.
pub open spec fn with_table(s: CatalogState, table: TableView) -> CatalogState {
    CatalogState { tables: s.tables.insert(table.name, table), ..s }
}

/// A catalog without a table and without its indexes.
pub open spec fn without_table(s: CatalogState, name: Seq<char>) -> CatalogState {
    CatalogState {
        tables: s.tables.remove(name),
        indexes: indexes_without(s.indexes, name),
        ..s
    }
}

/// The indexes that do not belong to `table`.
pub open spec fn indexes_without(
    indexes: Map<Seq<char>, IndexView>,
    table: Seq<char>,
) -> Map<Seq<char>, IndexView> {
    Map::new(
        |k: Seq<char>| indexes.dom().contains(k) && indexes[k].table_name != table,
        |k: Seq<char>| indexes[k],
    )
}

/// `s` after a mutation was saved: dirty unless a transaction is active.
pub open spec fn saved(before: &Catalog, after: &Catalog) -> bool {
    &&& after.in_transaction == before.in_transaction
    &&& after.dirty == (before.dirty || !before.in_transaction)
}

/// Whether `data` is what is to be written of a catalog that becomes `after`: the whole catalog where
/// it was dirty, else nothing. It is not dirty any more.
pub open spec fn flushed(before: &Catalog, after: &Catalog, data: Option<CatalogSnapshot>) -> bool {
    &&& after@ == before@
    &&& after.in_transaction == before.in_transaction
    &&& !after.dirty
    &&& match data {
        Some(d) => before.dirty && d@ == before@ && d.wf(),
        None => !before.dirty,
    }
}

/// The value that a sequence moves to: its value plus its increment, held within 64 bits.
pub open spec fn advanced_value(seq: SequenceView) -> int {
    let sum = seq.current_value + seq.increment;
    if sum > i64::MAX {
        i64::MAX as int
    } else if sum < i64::MIN {
        i64::MIN as int
    } else {
        sum
    }
}

/// Whether the sequence would fall below its minimum.
pub open spec fn below_min(seq: SequenceView) -> bool {
    seq.min_value matches Some(min) && advanced_value(seq) < min
}

/// Whether the sequence would rise above its maximum.
pub open spec fn above_max(seq: SequenceView) -> bool {
    seq.max_value matches Some(max) && advanced_value(seq) > max
}

impl Catalog {
    /// Every map of the catalog is well-formed.
    pub open spec fn wf(&self) -> bool {
        &&& self.tables.deep_wf()
        &&& self.indexes.deep_wf()
        &&& self.views.deep_wf()
        &&& self.sequences.deep_wf()
        &&& self.udfs.deep_wf()
        &&& self.users.deep_wf()
        &&& self.roles.deep_wf()
        &&& self.user_roles.deep_wf()
        &&& self.triggers.deep_wf()
    }

    /// The empty catalog, outside a transaction and with nothing to write.
    pub fn new() -> (r: Catalog)
        ensures
            r.wf(),
            r@ == empty_state(),
            !r.in_transaction,
            !r.dirty,
    {
        let r = Catalog {
            tables: NameMap::new(),
            indexes: NameMap::new(),
            views: NameMap::new(),
            sequences: NameMap::new(),
            udfs: NameMap::new(),
            users: NameMap::new(),
            roles: NameMap::new(),
            user_roles: NameMap::new(),
            triggers: NameMap::new(),
            schema_version: 0,
            migrations: Vec::new(),
            in_transaction: false,
            dirty: false,
        };
        proof {
            r.tables.lemma_empty();
            r.indexes.lemma_empty();
            r.views.lemma_empty();
            r.sequences.lemma_empty();
            r.udfs.lemma_empty();
            r.users.lemma_empty();
            r.roles.lemma_empty();
            r.user_roles.lemma_empty();
            r.triggers.lemma_empty();
            assert(r@ =~= empty_state());
        }
        r
    }

    /// The catalog that the backing store holds: empty where there is no file yet, and with nothing
    /// but tables where the file has the first layout.
    pub fn load(file: CatalogFile) -> (r: Catalog)
        requires
            match file {
                CatalogFile::Missing => true,
                CatalogFile::Full(data) => data.wf(),
                CatalogFile::TablesOnly(tables) => tables.deep_wf(),
            },
        ensures
            r.wf(),
            !r.in_transaction,
            !r.dirty,
            r@ == file_state(file),
    {
        let mut r = Catalog::new();
        match file {
            CatalogFile::Missing => {},
            CatalogFile::Full(data) => {
                r.restore(data);
            },
            CatalogFile::TablesOnly(tables) => {
                r.tables = tables;
            },
        }
        r
    }

    /// Marks the catalog as changed, unless an explicit transaction is active.
    pub fn save(&mut self)
        ensures
            saved(old(self), final(self)),
            final(self)@ == old(self)@,
            old(self).wf() ==> final(self).wf(),
            final(self).names_kept(old(self)),
    {
        if self.in_transaction {
            return;
        }
        self.dirty = true;
    }

    /// The order of the names in each map is the same in both catalogs.
    pub open spec fn names_kept(&self, other: &Catalog) -> bool {
        &&& self.tables.names() == other.tables.names()
        &&& self.indexes.names() == other.indexes.names()
        &&& self.views.names() == other.views.names()
        &&& self.sequences.names() == other.sequences.names()
        &&& self.udfs.names() == other.udfs.names()
    }

    /// What is to be written to the backing store: the whole catalog where it was changed since it
    /// was last handed out, else nothing.
    pub fn flush_if_dirty(&mut self) -> (r: Option<CatalogSnapshot>)
        requires
            old(self).wf(),
        ensures
            final(self).wf(),
            flushed(old(self), final(self), r),
    {
        if !self.dirty {
            return None;
        }
        self.dirty = false;
        Some(self.snapshot())
    }

    /// The whole catalog, to be written whether or not a transaction is active.
    pub fn force_save(&mut self) -> (r: CatalogSnapshot)
        requires
            old(self).wf(),
        ensures
            final(self).wf(),
            final(self)@ == old(self)@,
            final(self).in_transaction == old(self).in_transaction,
            !final(self).dirty,
            r@ == old(self)@,
            r.wf(),
    {
        self.dirty = false;
        self.snapshot()
    }

    /// Captures a point-in-time snapshot of the whole catalog.
    pub fn snapshot(&self) -> (r: CatalogSnapshot)
        requires
            self.wf(),
        ensures
            r.wf(),
            r@ == self@,
    {
        CatalogSnapshot {
            tables: self.tables.dup_map(),
            indexes: self.indexes.dup_map(),
            views: self.views.dup_map(),
            sequences: self.sequences.dup_map(),
            udfs: self.udfs.dup_map(),
            users: self.users.dup_map(),
            roles: self.roles.dup_map(),
            user_roles: self.user_roles.dup_map(),
            triggers: self.triggers.dup_map(),
            schema_version: self.schema_version,
            migrations: dup_vec(&self.migrations),
        }
    }

    /// Restores all catalog state from a previously captured snapshot.
    pub fn restore(&mut self, snap: CatalogSnapshot)
        requires
            snap.wf(),
        ensures
            final(self).wf(),
            final(self)@ == snap@,
            final(self).in_transaction == old(self).in_transaction,
            final(self).dirty == old(self).dirty,
    {
        self.tables = snap.tables;
        self.indexes = snap.indexes;
        self.views = snap.views;
        self.sequences = snap.sequences;
        self.udfs = snap.udfs;
        self.users = snap.users;
        self.roles = snap.roles;
        self.user_roles = snap.user_roles;
        self.triggers = snap.triggers;
        self.schema_version = snap.schema_version;
        self.migrations = snap.migrations;
    }

    /// Enables or disables transaction mode.
    pub fn set_in_transaction(&mut self, active: bool)
        ensures
            final(self).in_transaction == active,
            final(self).dirty == old(self).dirty,
            final(self)@ == old(self)@,
            old(self).wf() ==> final(self).wf(),
            final(self).names_kept(old(self)),
    {
        self.in_transaction = active;
    }

    /// Whether the catalog is inside an explicit transaction.
    pub fn in_transaction(&self) -> (r: bool)
        ensures
            r == self.in_transaction,
    {
        self.in_transaction
    }

    /// Registers a table under its name.
    pub fn add_table(&mut self, meta: TableMeta)
        requires
            old(self).wf(),
            meta.wf(),
        ensures
            final(self).wf(),
            final(self)@ == with_table(old(self)@, meta@),
            saved(old(self), final(self)),
    {
        let name = meta.name.clone();
        self.tables.put(name, meta);
        self.save();
    }

    /// Removes a table and all of its associated indexes, and returns the table if it existed.
    pub fn remove_table(&mut self, name: &str) -> (r: Option<TableMeta>)
        requires
            old(self).wf(),
        ensures
            final(self).wf(),
            final(self)@ == without_table(old(self)@, name@),
            saved(old(self), final(self)),
            opt_view(r) == if old(self)@.tables.dom().contains(name@) {
                Some(old(self)@.tables[name@])
            } else {
                None
            },
    {
        let meta = self.tables.take(name);
        let ghost before = self.indexes;
        let mut i: usize = 0;
        assert(self.indexes.deep() == before.deep());
        while i < self.indexes.keys.len()
            invariant
                i <= self.indexes.keys@.len(),
                before.deep_wf(),
                self.indexes.deep_wf(),
                self.tables.deep_wf(),
                self.views == old(self).views,
                self.sequences == old(self).sequences,
                self.udfs == old(self).udfs,
                self.users == old(self).users,
                self.roles == old(self).roles,
                self.user_roles == old(self).user_roles,
                self.triggers == old(self).triggers,
                self.schema_version == old(self).schema_version,
                self.migrations == old(self).migrations,
                self.in_transaction == old(self).in_transaction,
                self.dirty == old(self).dirty,
                self.tables.deep() == old(self).tables.deep().remove(name@),
                forall|k: Seq<char>| #[trigger]
                    self.indexes.deep().dom().contains(k) ==> before.deep().dom().contains(k)
                        && self.indexes.deep()[k] == before.deep()[k],
                forall|k: Seq<char>| #[trigger]
                    before.deep().dom().contains(k) && !self.indexes.deep().dom().contains(k)
                        ==> before.deep()[k].table_name == name@,
                forall|j: int|
                    0 <= j < i ==> (#[trigger] self.indexes.vals@[j]).table_name@ != name@,
            decreases self.indexes.keys@.len() - i,
        {
            if same(&self.indexes.vals[i].table_name, name) {
                let ghost cur = self.indexes;
                proof {
                    cur.lemma_deep_entry(i as int);
                }
                self.indexes.remove_at(i);
                proof {
                    let k0 = cur.keys@[i as int]@;
                    assert(self.indexes.deep() == cur.deep().remove(k0));
                    assert forall|j: int| 0 <= j < self.indexes.vals@.len() implies (
                    #[trigger] self.indexes.vals@[j]).wf() by {
                        let j2 = if j < i { j } else { j + 1 };
                        assert(self.indexes.vals@[j] == cur.vals@[j2]);
                    }
                    assert forall|k: Seq<char>| #[trigger]
                        before.deep().dom().contains(k) && !self.indexes.deep().dom().contains(
                            k,
                        ) implies before.deep()[k].table_name == name@ by {
                        if k == k0 {
                            assert(cur.deep().dom().contains(k));
                        } else {
                            assert(!cur.deep().dom().contains(k));
                        }
                    }
                }
            } else {
                i += 1;
            }
        }
        proof {
            let target = indexes_without(before.deep(), name@);
            assert forall|k: Seq<char>| #[trigger]
                self.indexes.deep().dom().contains(k) == target.dom().contains(k) by {
                if self.indexes.deep().dom().contains(k) {
                    let j = key_pos(texts(self.indexes.keys@), k);
                    assert(0 <= j < self.indexes.keys@.len() && texts(self.indexes.keys@)[j] == k);
                    self.indexes.lemma_deep_entry(j);
                    assert(self.indexes.vals@[j].table_name@ != name@);
                }
            }
            assert(self.indexes.deep() =~= target);
            assert(self@ =~= CatalogState {
                tables: old(self)@.tables.remove(name@),
                indexes: indexes_without(old(self)@.indexes, name@),
                ..old(self)@
            });
        }
        self.save();
        meta
    }

    /// Registers an index under its name.
    pub fn add_index(&mut self, def: IndexDef)
        requires
            old(self).wf(),
        ensures
            final(self).wf(),
            final(self)@ == (CatalogState {
                indexes: old(self)@.indexes.insert(def.name@, def@),
                ..old(self)@
            }),
            saved(old(self), final(self)),
    {
        let name = def.name.clone();
        self.indexes.put(name, def);
        self.save();
    }

    /// Removes an index by name, and returns it if it existed.
    pub fn remove_index(&mut self, name: &str) -> (r: Option<IndexDef>)
        requires
            old(self).wf(),
        ensures
            final(self).wf(),
            final(self)@ == (CatalogState {
                indexes: old(self)@.indexes.remove(name@),
                ..old(self)@
            }),
            saved(old(self), final(self)),
            final(self).indexes.names() == without(old(self).indexes.names(), name@),
            opt_view(r) == lookup(old(self)@.indexes, name@),
    {
        let r = self.indexes.take(name);
        self.save();
        r
    }

    /// The indexes that belong to the given table.
    pub fn indexes_for_table(&self, table_name: &str) -> (r: Vec<&IndexDef>)
        requires
            self.wf(),
        ensures
            forall|i: int|
                0 <= i < r@.len() ==> (#[trigger] r@[i]).table_name@ == table_name@
                    && self.indexes.vals@.contains(*r@[i]),
            forall|k: Seq<char>| #[trigger]
                self@.indexes.dom().contains(k) && self@.indexes[k].table_name == table_name@
                    ==> exists|i: int|
                    0 <= i < r@.len() && (#[trigger] r@[i])@ == self@.indexes[k],
            r@.len() == count_of_table(self.indexes.vals@, table_name@),
    {
        let mut out: Vec<&IndexDef> = Vec::new();
        let mut i: usize = 0;
        while i < self.indexes.vals.len()
            invariant
                self.wf(),
                i <= self.indexes.vals@.len(),
                out@.len() == count_of_table(
                    self.indexes.vals@.subrange(0, i as int),
                    table_name@,
                ),
                forall|j: int|
                    0 <= j < out@.len() ==> (#[trigger] out@[j]).table_name@ == table_name@
                        && self.indexes.vals@.contains(*out@[j]),
                forall|q: int|
                    0 <= q < i && (#[trigger] self.indexes.vals@[q]).table_name@ == table_name@
                        ==> exists|j: int|
                        0 <= j < out@.len() && *(#[trigger] out@[j]) == self.indexes.vals@[q],
            decreases self.indexes.vals@.len() - i,
        {
            let ghost before = out@;
            let ghost next = self.indexes.vals@.subrange(0, i + 1);
            assert(next.drop_last() == self.indexes.vals@.subrange(0, i as int));
            if same(&self.indexes.vals[i].table_name, table_name) {
                out.push(&self.indexes.vals[i]);
                assert(*out@[out@.len() - 1] == self.indexes.vals@[i as int]);
            }
            proof {
                assert forall|q: int|
                    0 <= q < i + 1 && (#[trigger] self.indexes.vals@[q]).table_name@
                        == table_name@ implies exists|j: int|
                    0 <= j < out@.len() && *(#[trigger] out@[j]) == self.indexes.vals@[q] by {
                    if q < i {
                        let j = choose|j: int|
                            0 <= j < before.len() && *(#[trigger] before[j])
                                == self.indexes.vals@[q];
                        assert(*out@[j] == self.indexes.vals@[q]);
                    }
                }
            }
            i += 1;
        }
        proof {
            assert(self.indexes.vals@.subrange(0, i as int) == self.indexes.vals@);
            assert forall|k: Seq<char>| #[trigger]
                self@.indexes.dom().contains(k) && self@.indexes[k].table_name
                    == table_name@ implies exists|i: int|
                0 <= i < out@.len() && (#[trigger] out@[i])@ == self@.indexes[k] by {
                let q = key_pos(texts(self.indexes.keys@), k);
                assert(0 <= q < self.indexes.keys@.len() && texts(self.indexes.keys@)[q] == k);
                self.indexes.lemma_deep_entry(q);
                assert(self.indexes.vals@[q].table_name@ == table_name@);
                let j = choose|j: int|
                    0 <= j < out@.len() && *(#[trigger] out@[j]) == self.indexes.vals@[q];
                assert(out@[j]@ == self@.indexes[k]);
            }
        }
        out
    }

    /// Registers a view under its name.
    pub fn add_view(&mut self, def: ViewDef)
        requires
            old(self).wf(),
        ensures
            final(self).wf(),
            final(self)@ == (CatalogState {
                views: old(self)@.views.insert(def.name@, def@),
                ..old(self)@
            }),
            saved(old(self), final(self)),
    {
        let name = def.name.clone();
        self.views.put(name, def);
        self.save();
    }

    /// Removes a view by name, and returns it if it existed.
    pub fn remove_view(&mut self, name: &str) -> (r: Option<ViewDef>)
        requires
            old(self).wf(),
        ensures
            final(self).wf(),
            final(self)@ == (CatalogState {
                views: old(self)@.views.remove(name@),
                ..old(self)@
            }),
            saved(old(self), final(self)),
            opt_view(r) == lookup(old(self)@.views, name@),
    {
        let r = self.views.take(name);
        self.save();
        r
    }

    /// Stores table statistics collected by `ANALYZE`. A table that is not there is left out.
    pub fn set_statistics(&mut self, table_name: &str, stats: TableStatistics)
        requires
            old(self).wf(),
            stats.wf(),
        ensures
            final(self).wf(),
            if old(self)@.tables.dom().contains(table_name@) {
                &&& final(self)@ == (CatalogState {
                    tables: old(self)@.tables.insert(
                        table_name@,
                        TableView {
                            statistics: Some(stats@),
                            ..old(self)@.tables[table_name@]
                        },
                    ),
                    ..old(self)@
                })
                &&& saved(old(self), final(self))
            } else {
                *final(self) == *old(self)
            },
    {
        match self.tables.position(table_name) {
            Some(i) => {
                let ghost before = self.tables;
                let ghost sv = stats@;
                let meta = self.tables.at_mut(i);
                meta.statistics = Some(stats);
                proof {
                    NameMap::lemma_deep_update(&before, &self.tables, i as int);
                    before.lemma_deep_entry(i as int);
                    assert(self.tables.vals@[i as int]@ == TableView {
                        statistics: Some(sv),
                        ..old(self)@.tables[table_name@]
                    });
                }
                self.save();
            },
            None => {},
        }
    }

    /// Stores per-file statistics for a table. A table that is not there is left out.
    pub fn set_file_stats(&mut self, table_name: &str, file_stats: Vec<FileStats>)
        requires
            old(self).wf(),
            all_wf(file_stats@),
        ensures
            final(self).wf(),
            if old(self)@.tables.dom().contains(table_name@) {
                &&& final(self)@ == (CatalogState {
                    tables: old(self)@.tables.insert(
                        table_name@,
                        TableView {
                            file_stats: views(file_stats@),
                            ..old(self)@.tables[table_name@]
                        },
                    ),
                    ..old(self)@
                })
                &&& saved(old(self), final(self))
            } else {
                *final(self) == *old(self)
            },
    {
        match self.tables.position(table_name) {
            Some(i) => {
                let ghost before = self.tables;
                let ghost sv = views(file_stats@);
                let meta = self.tables.at_mut(i);
                meta.file_stats = file_stats;
                proof {
                    NameMap::lemma_deep_update(&before, &self.tables, i as int);
                    before.lemma_deep_entry(i as int);
                    assert(self.tables.vals@[i as int]@ == TableView {
                        file_stats: sv,
                        ..old(self)@.tables[table_name@]
                    });
                }
                self.save();
            },
            None => {},
        }
    }

    /// Registers a sequence under its name.
    pub fn add_sequence(&mut self, def: SequenceDef)
        requires
            old(self).wf(),
        ensures
            final(self).wf(),
            final(self)@ == (CatalogState {
                sequences: old(self)@.sequences.insert(def.name@, def@),
                ..old(self)@
            }),
            saved(old(self), final(self)),
    {
        let name = def.name.clone();
        self.sequences.put(name, def);
        self.save();
    }

    /// Registers a SQL function under its name.
    pub fn add_udf(&mut self, def: UdfDef)
        requires
            old(self).wf(),
        ensures
            final(self).wf(),
            final(self)@ == (CatalogState {
                udfs: old(self)@.udfs.insert(def.name@, def@),
                ..old(self)@
            }),
            saved(old(self), final(self)),
    {
        let name = def.name.clone();
        self.udfs.put(name, def);
        self.save();
    }

    /// Removes a SQL function by name, and returns it if it existed.
    pub fn remove_udf(&mut self, name: &str) -> (r: Option<UdfDef>)
        requires
            old(self).wf(),
        ensures
            final(self).wf(),
            final(self)@ == (CatalogState {
                udfs: old(self)@.udfs.remove(name@),
                ..old(self)@
            }),
            saved(old(self), final(self)),
            opt_view(r) == lookup(old(self)@.udfs, name@),
    {
        let r = self.udfs.take(name);
        self.save();
        r
    }

    /// Removes a sequence by name, and returns it if it existed.
    pub fn remove_sequence(&mut self, name: &str) -> (r: Option<SequenceDef>)
        requires
            old(self).wf(),
        ensures
            final(self).wf(),
            final(self)@ == (CatalogState {
                sequences: old(self)@.sequences.remove(name@),
                ..old(self)@
            }),
            saved(old(self), final(self)),
            opt_view(r) == lookup(old(self)@.sequences, name@),
    {
        let r = self.sequences.take(name);
        self.save();
        r
    }

    /// The present value of a sequence, which then moves on by its increment.
    ///
    /// A sequence that is not there, or that would leave its bounds, gives an error and nothing
    /// changes.
    pub fn next_sequence_value(&mut self, name: &str) -> (r: Result<i64, String>)
        requires
            old(self).wf(),
        ensures
            final(self).wf(),
            match lookup(old(self)@.sequences, name@) {
                None => {
                    &&& *final(self) == *old(self)
                    &&& r matches Err(e) && e@ == "Sequence '"@ + name@ + "' does not exist"@
                },
                Some(seq) => if below_min(seq) {
                    &&& *final(self) == *old(self)
                    &&& r matches Err(e) && e@ == "Sequence '"@ + name@
                        + "' reached minimum value"@
                } else if above_max(seq) {
                    &&& *final(self) == *old(self)
                    &&& r matches Err(e) && e@ == "Sequence '"@ + name@
                        + "' reached maximum value"@
                } else {
                    &&& r == Ok::<i64, String>(seq.current_value)
                    &&& saved(old(self), final(self))
                    &&& final(self)@ == (CatalogState {
                        sequences: old(self)@.sequences.insert(
                            name@,
                            SequenceView { current_value: advanced_value(seq) as i64, ..seq },
                        ),
                        ..old(self)@
                    })
                },
            },
    {
        match self.sequences.position(name) {
            None => Err(concat3("Sequence '", name, "' does not exist")),
            Some(i) => {
                let ghost before = self.sequences;
                let ghost seq = self.sequences.deep()[name@];
                let next: i64 = self.sequences.vals[i].current_value;
                let wide: i128 = next as i128 + self.sequences.vals[i].increment as i128;
                let advanced: i64 = if wide > i64::MAX as i128 {
                    i64::MAX
                } else if wide < i64::MIN as i128 {
                    i64::MIN
                } else {
                    wide as i64
                };
                assert(advanced == advanced_value(seq));
                if let Some(min) = self.sequences.vals[i].min_value {
                    if advanced < min {
                        return Err(concat3("Sequence '", name, "' reached minimum value"));
                    }
                }
                if let Some(max) = self.sequences.vals[i].max_value {
                    if advanced > max {
                        return Err(concat3("Sequence '", name, "' reached maximum value"));
                    }
                }
                let def = self.sequences.at_mut(i);
                def.current_value = advanced;
                proof {
                    NameMap::lemma_deep_update(&before, &self.sequences, i as int);
                    assert(self.sequences.vals@[i as int]@ == SequenceView {
                        current_value: advanced,
                        ..seq
                    });
                }
                self.save();
                Ok(next)
            },
        }
    }
}

/// The value of `k` in `m`, if it has one.
pub open spec fn lookup<V>(m: Map<Seq<char>, V>, k: Seq<char>) -> Option<V> {
    if m.dom().contains(k) {
        Some(m[k])
    } else {
        None
    }
}

/// How many of the indexes belong to the table.
pub open spec fn count_of_table(s: Seq<IndexDef>, table: Seq<char>) -> nat
    decreases s.len(),
{
    if s.len() == 0 {
        0
    } else {
        count_of_table(s.drop_last(), table) + if s.last().table_name@ == table {
            1nat
        } else {
            0nat
        }
    }
}

// ---------------------------------------------------------------------------
// Laws
// ---------------------------------------------------------------------------

/// A catalog that was written out and is loaded again holds what it held.
pub proof fn law_written_catalog_is_read_back(c: Catalog, data: CatalogSnapshot)
    requires
        data@ == c@,
    ensures
        file_state(CatalogFile::Full(data)) == c@,
{
}

/// Outside a transaction a catalog that is saved is in the store once it is flushed: what is handed
/// out to be written is loaded again as the catalog that was saved. Inside one, saving leaves what is
/// to be written as it was.
pub proof fn law_saved_catalog_is_read_back(
    before: Catalog,
    marked: Catalog,
    after: Catalog,
    data: Option<CatalogSnapshot>,
)
    requires
        saved(&before, &marked),
        marked@ == before@,
        flushed(&marked, &after, data),
    ensures
        !before.in_transaction ==> data is Some && file_state(CatalogFile::Full(data->0)) == before@,
        before.in_transaction ==> (data is Some <==> before.dirty),
        after@ == before@,
        !after.dirty,
{
}

/// A table that was entered is found under its name, and every other name is as before.
pub proof fn law_added_table_is_found(s: CatalogState, table: TableView, other: Seq<char>)
    requires
        other != table.name,
    ensures
        lookup(with_table(s, table).tables, table.name) == Some(table),
        lookup(with_table(s, table).tables, other) == lookup(s.tables, other),
        with_table(s, table).indexes == s.indexes,
{
}

/// Nothing is left of a table that was removed: neither the table nor an index of it. The indexes
/// of other tables stay.
pub proof fn law_removed_table_is_gone(s: CatalogState, name: Seq<char>, index: Seq<char>)
    ensures
        lookup(without_table(s, name).tables, name) is None,
        lookup(without_table(s, name).indexes, index) == match lookup(s.indexes, index) {
            Some(i) => if i.table_name == name {
                None
            } else {
                Some(i)
            },
            None => None,
        },
{
}

/// Removing a table that was just entered brings the catalog back, where neither the table nor an
/// index of it was there before.
pub proof fn law_remove_undoes_add(s: CatalogState, table: TableView)
    requires
        !s.tables.dom().contains(table.name),
        forall|k: Seq<char>| #[trigger]
            s.indexes.dom().contains(k) ==> s.indexes[k].table_name != table.name,
    ensures
        without_table(with_table(s, table), table.name) == s,
{
    let back = without_table(with_table(s, table), table.name);
    assert(back.tables =~= s.tables);
    assert(back.indexes =~= s.indexes);
    assert(back =~= s);
}

} // verus!
