//! Explicit transactions and their savepoints.
//!
//! `BEGIN` captures the catalog and the data files of every table. `ROLLBACK` brings the catalog
//! back to what `BEGIN` captured, whatever savepoints were set, released or returned to in between.
use vstd::prelude::*;
use vstd::string::*;

use crate::catalog::{Catalog, CatalogSnapshot, CatalogState};
use crate::catalog_types::{TableMeta, TableView};
use crate::dup::{all_wf, views, Dup};
use crate::namemap::NameMap;
use crate::text::{clone_strings, concat2, concat3, contains_text, same, texts};

verus! {

/// The data files of a table.
pub struct FileList {
    pub files: Vec<String>,
}

impl View for FileList {
    type V = Seq<Seq<char>>;

    open spec fn view(&self) -> Seq<Seq<char>> {
        texts(self.files@)
    }
}

impl Dup for FileList {
    open spec fn wf(&self) -> bool {
        true
    }

    fn dup(&self) -> (r: Self) {
        FileList { files: clone_strings(&self.files) }
    }
}

/// State captured at a `SAVEPOINT` for `ROLLBACK TO`.
pub struct Savepoint {
    pub name: String,
    pub catalog_snapshot: CatalogSnapshot,
    pub file_snapshot: NameMap<FileList>,
    /// How many backups the transaction had made when the savepoint was set.
    pub backups_before: usize,
}

/// What a [`Savepoint`] says.
pub struct SavepointView {
    pub name: Seq<char>,
    pub catalog: CatalogState,
    pub files: Map<Seq<char>, Seq<Seq<char>>>,
    pub backups_before: int,
}

impl View for Savepoint {
    type V = SavepointView;

    open spec fn view(&self) -> SavepointView {
        SavepointView {
            name: self.name@,
            catalog: self.catalog_snapshot@,
            files: self.file_snapshot.deep(),
            backups_before: self.backups_before as int,
        }
    }
}

impl Dup for Savepoint {
    open spec fn wf(&self) -> bool {
        &&& self.catalog_snapshot.wf()
        &&& self.file_snapshot.deep_wf()
    }

    fn dup(&self) -> (r: Self) {
        Savepoint {
            name: self.name.clone(),
            catalog_snapshot: self.catalog_snapshot.dup(),
            file_snapshot: self.file_snapshot.dup_map(),
            backups_before: self.backups_before,
        }
    }
}

/// State of an explicit transaction started with `BEGIN`.
pub struct Transaction {
    /// Catalog state captured at `BEGIN` for rollback.
    pub catalog_snapshot: CatalogSnapshot,
    /// The data files of each table at `BEGIN`. Other files were created during the transaction.
    pub file_snapshot: NameMap<FileList>,
    /// Tables whose physical files are deleted on `COMMIT`.
    pub deferred_deletes: Vec<TableMeta>,
    /// WAL transaction id of this transaction.
    pub wal_txn_id: u64,
    /// The tables that were backed up before the first write to them in this transaction, in the order
    /// of the backups. A table occurs at most once for each savepoint that it was written to behind.
    pub rewrite_backups: Vec<String>,
    /// Named savepoints for partial rollback.
    pub savepoints: Vec<Savepoint>,
}

/// What a [`Transaction`] says.
pub struct TransactionView {
    pub catalog: CatalogState,
    pub files: Map<Seq<char>, Seq<Seq<char>>>,
    pub deferred: Seq<TableView>,
    pub wal_txn_id: u64,
    pub backups: Seq<Seq<char>>,
    pub savepoints: Seq<SavepointView>,
}

impl View for Transaction {
    type V = TransactionView;

    open spec fn view(&self) -> TransactionView {
        TransactionView {
            catalog: self.catalog_snapshot@,
            files: self.file_snapshot.deep(),
            deferred: views(self.deferred_deletes@),
            wal_txn_id: self.wal_txn_id,
            backups: texts(self.rewrite_backups@),
            savepoints: views(self.savepoints@),
        }
    }
}

impl Transaction {
    /// Every part of the transaction is well-formed.
    pub open spec fn wf(&self) -> bool {
        &&& self.catalog_snapshot.wf()
        &&& self.file_snapshot.deep_wf()
        &&& all_wf(self.deferred_deletes@)
        &&& all_wf(self.savepoints@)
        &&& marks_in_order(self@)
    }
}

/// No savepoint counts more backups than there are, and none more than a later one.
pub open spec fn marks_in_order(t: TransactionView) -> bool {
    &&& forall|i: int|
        0 <= i < t.savepoints.len() ==> 0 <= (#[trigger] t.savepoints[i]).backups_before
            <= t.backups.len()
    &&& forall|i: int, j: int|
        0 <= i <= j < t.savepoints.len() ==> (#[trigger] t.savepoints[i]).backups_before <= (
        #[trigger] t.savepoints[j]).backups_before
}

/// How many backups were made before the innermost savepoint was set.
pub open spec fn innermost_mark(t: TransactionView) -> int {
    if t.savepoints.len() == 0 {
        0
    } else {
        t.savepoints.last().backups_before
    }
}

/// The tables that were backed up since the innermost savepoint was set.
pub open spec fn innermost_backups(t: TransactionView) -> Seq<Seq<char>> {
    t.backups.subrange(innermost_mark(t), t.backups.len() as int)
}

/// The transaction that `BEGIN` starts.
pub open spec fn started(
    c: CatalogState,
    files: Map<Seq<char>, Seq<Seq<char>>>,
    id: u64,
) -> TransactionView {
    TransactionView {
        catalog: c,
        files,
        deferred: Seq::empty(),
        wal_txn_id: id,
        backups: Seq::empty(),
        savepoints: Seq::empty(),
    }
}

/// The transaction with one more savepoint, of the present state.
pub open spec fn with_savepoint(
    t: TransactionView,
    name: Seq<char>,
    c: CatalogState,
    files: Map<Seq<char>, Seq<Seq<char>>>,
) -> TransactionView {
    TransactionView {
        savepoints: t.savepoints.push(
            SavepointView { name, catalog: c, files, backups_before: t.backups.len() as int },
        ),
        ..t
    }
}

/// The position of the last savepoint of the name among the first `n`.
pub open spec fn last_savepoint(sps: Seq<SavepointView>, name: Seq<char>, n: nat) -> Option<int>
    decreases n,
{
    if n == 0 || n > sps.len() {
        None
    } else if sps[n - 1].name == name {
        Some(n - 1)
    } else {
        last_savepoint(sps, name, (n - 1) as nat)
    }
}

/// The transaction with its first `n` savepoints.
pub open spec fn with_first_savepoints(t: TransactionView, n: int) -> TransactionView {
    TransactionView { savepoints: t.savepoints.subrange(0, n), ..t }
}

/// The transaction with one more table whose storage goes on `COMMIT`.
pub open spec fn with_dropped(t: TransactionView, table: TableView) -> TransactionView {
    TransactionView { deferred: t.deferred.push(table), ..t }
}

/// The transaction with a table among those that were backed up since the innermost savepoint.
pub open spec fn with_backup(t: TransactionView, table: Seq<char>) -> TransactionView {
    TransactionView {
        backups: if innermost_backups(t).contains(table) {
            t.backups
        } else {
            t.backups.push(table)
        },
        ..t
    }
}

/// A backup whose rows are to be written back.
pub struct BackupRef {
    pub table: String,
    /// The number of the backup, counted from 0 in the transaction.
    pub index: usize,
}

impl View for BackupRef {
    type V = (Seq<char>, int);

    open spec fn view(&self) -> (Seq<char>, int) {
        (self.table@, self.index as int)
    }
}

/// What is to be done with the stored data when state is given up.
pub struct RollbackPlan {
    /// Data files that were written since and are to be deleted.
    pub delete_files: Vec<String>,
    /// Tables that were created since and whose storage is to be deleted.
    pub drop_tables: Vec<TableMeta>,
    /// The tables that were known before; they are to be registered anew.
    pub deregister: Vec<String>,
    /// The backups that are to be written back.
    pub restore_backups: Vec<BackupRef>,
    /// WAL transaction id of the transaction.
    pub wal_txn_id: u64,
}

/// The files of `now` that are not among `before`, in order.
pub open spec fn new_files(now: Seq<Seq<char>>, before: Seq<Seq<char>>) -> Seq<Seq<char>>
    decreases now.len(),
{
    if now.len() == 0 {
        Seq::empty()
    } else if before.contains(now.last()) {
        new_files(now.drop_last(), before)
    } else {
        new_files(now.drop_last(), before).push(now.last())
    }
}

/// For the first `n` of the named tables the files that are there now and were not before. A table
/// whose files could not be listed now has none.
pub open spec fn files_since(
    names: Seq<Seq<char>>,
    before: Map<Seq<char>, Seq<Seq<char>>>,
    now: Map<Seq<char>, Seq<Seq<char>>>,
    n: nat,
) -> Seq<Seq<char>>
    decreases n,
{
    if n == 0 || n > names.len() {
        Seq::empty()
    } else {
        let k = names[n - 1];
        files_since(names, before, now, (n - 1) as nat) + if now.dom().contains(k) {
            new_files(now[k], before[k])
        } else {
            Seq::empty()
        }
    }
}

/// Those of the first `n` tables, in order, whose names are not in `known`.
pub open spec fn tables_since(
    names: Seq<Seq<char>>,
    tables: Map<Seq<char>, TableView>,
    known: Set<Seq<char>>,
    n: nat,
) -> Seq<TableView>
    decreases n,
{
    if n == 0 || n > names.len() {
        Seq::empty()
    } else {
        let rest = tables_since(names, tables, known, (n - 1) as nat);
        if known.contains(names[n - 1]) {
            rest
        } else {
            rest.push(tables[names[n - 1]])
        }
    }
}

/// Of the backups numbered `from` to `n`, the first one of each table that is in `known`, in order.
pub open spec fn restored(
    backups: Seq<Seq<char>>,
    known: Set<Seq<char>>,
    from: int,
    n: int,
) -> Seq<(Seq<char>, int)>
    decreases n - from,
{
    if n <= from {
        Seq::empty()
    } else {
        let table = backups[n - 1];
        let rest = restored(backups, known, from, n - 1);
        if known.contains(table) && !backups.subrange(from, n - 1).contains(table) {
            rest.push((table, n - 1))
        } else {
            rest
        }
    }
}

fn list_new_files(now: &Vec<String>, before: &Vec<String>) -> (r: Vec<String>)
    ensures
        texts(r@) == new_files(texts(now@), texts(before@)),
{
    let mut out: Vec<String> = Vec::new();
    let ghost all = texts(now@);
    let mut i: usize = 0;
    assert(texts(out@) == Seq::<Seq<char>>::empty());
    while i < now.len()
        invariant
            i <= now@.len(),
            all == texts(now@),
            texts(out@) == new_files(all.subrange(0, i as int), texts(before@)),
        decreases now@.len() - i,
    {
        let ghost next = all.subrange(0, i + 1);
        let ghost done = out@;
        assert(next.drop_last() == all.subrange(0, i as int));
        assert(next.last() == now@[i as int]@);
        if !contains_text(before, &now[i]) {
            out.push(now[i].clone());
            assert(texts(out@) == texts(done).push(next.last()));
        }
        i += 1;
    }
    assert(all.subrange(0, i as int) == all);
    out
}

fn list_files_since(before: &NameMap<FileList>, now: &NameMap<FileList>) -> (r: Vec<String>)
    requires
        before.deep_wf(),
        now.deep_wf(),
    ensures
        texts(r@) == files_since(
            before.names(),
            before.deep(),
            now.deep(),
            before.names().len(),
        ),
{
    let mut out: Vec<String> = Vec::new();
    let ghost names = before.names();
    let mut i: usize = 0;
    assert(texts(out@) == Seq::<Seq<char>>::empty());
    while i < before.keys.len()
        invariant
            i <= before.keys@.len(),
            before.deep_wf(),
            now.deep_wf(),
            names == before.names(),
            names.len() == before.keys@.len(),
            texts(out@) == files_since(names, before.deep(), now.deep(), i as nat),
        decreases before.keys@.len() - i,
    {
        let ghost done = texts(out@);
        assert(names[i as int] == before.keys@[i as int]@);
        proof {
            before.lemma_deep_entry(i as int);
        }
        match now.lookup(&before.keys[i]) {
            None => {
                assert(texts(out@) == done + Seq::<Seq<char>>::empty());
            },
            Some(list) => {
                let mut fresh = list_new_files(&list.files, &before.vals[i].files);
                let ghost fv = fresh@;
                let ghost ov = out@;
                out.append(&mut fresh);
                assert(texts(out@) == done + texts(fv));
            },
        }
        i += 1;
    }
    out
}

fn list_tables_since(tables: &NameMap<TableMeta>, known: &NameMap<FileList>) -> (r: Vec<TableMeta>)
    requires
        tables.deep_wf(),
        known.deep_wf(),
    ensures
        views(r@) == tables_since(
            tables.names(),
            tables.deep(),
            known.deep().dom(),
            tables.names().len(),
        ),
        all_wf(r@),
{
    let mut out: Vec<TableMeta> = Vec::new();
    let ghost names = tables.names();
    let mut i: usize = 0;
    assert(views(out@) == Seq::<TableView>::empty());
    while i < tables.keys.len()
        invariant
            i <= tables.keys@.len(),
            tables.deep_wf(),
            known.deep_wf(),
            names == tables.names(),
            names.len() == tables.keys@.len(),
            all_wf(out@),
            views(out@) == tables_since(names, tables.deep(), known.deep().dom(), i as nat),
        decreases tables.keys@.len() - i,
    {
        let ghost done = views(out@);
        assert(names[i as int] == tables.keys@[i as int]@);
        proof {
            tables.lemma_deep_entry(i as int);
        }
        if !known.contains_key(&tables.keys[i]) {
            let copy = tables.vals[i].dup();
            let ghost cv = copy@;
            out.push(copy);
            assert(views(out@) == done.push(cv));
        }
        i += 1;
    }
    out
}

/// Whether `v[from..to]` holds the given text.
fn held_between(v: &Vec<String>, from: usize, to: usize, s: &str) -> (r: bool)
    requires
        from <= to <= v@.len(),
    ensures
        r == texts(v@).subrange(from as int, to as int).contains(s@),
{
    let ghost part = texts(v@).subrange(from as int, to as int);
    let mut i: usize = from;
    while i < to
        invariant
            from <= i <= to <= v@.len(),
            part == texts(v@).subrange(from as int, to as int),
            forall|j: int| 0 <= j < i - from ==> part[j] != s@,
        decreases to - i,
    {
        assert(part[i - from] == v@[i as int]@);
        if same(&v[i], s) {
            return true;
        }
        i += 1;
    }
    false
}

fn list_restored(backups: &Vec<String>, from: usize, tables: &NameMap<TableMeta>) -> (r: Vec<
    BackupRef,
>)
    requires
        from <= backups@.len(),
        tables.deep_wf(),
    ensures
        views(r@) == restored(
            texts(backups@),
            tables.deep().dom(),
            from as int,
            backups@.len() as int,
        ),
{
    let mut out: Vec<BackupRef> = Vec::new();
    let ghost all = texts(backups@);
    let mut i: usize = from;
    assert(views(out@) == Seq::<(Seq<char>, int)>::empty());
    while i < backups.len()
        invariant
            from <= i <= backups@.len(),
            all == texts(backups@),
            all.len() == backups@.len(),
            tables.deep_wf(),
            views(out@) == restored(all, tables.deep().dom(), from as int, i as int),
        decreases backups@.len() - i,
    {
        let ghost done = views(out@);
        assert(all[i as int] == backups@[i as int]@);
        if tables.contains_key(&backups[i]) && !held_between(backups, from, i, &backups[i]) {
            out.push(BackupRef { table: backups[i].clone(), index: i });
            assert(views(out@) == done.push((all[i as int], i as int)));
        }
        i += 1;
    }
    out
}

/// Whether a plan gives up everything since the given catalog and files, where `before` is the
/// catalog as it is and the backups numbered from `from` on were made since.
pub open spec fn plan_for(
    plan: RollbackPlan,
    before: &Catalog,
    catalog: CatalogState,
    file_names: Seq<Seq<char>>,
    files: Map<Seq<char>, Seq<Seq<char>>>,
    now: Map<Seq<char>, Seq<Seq<char>>>,
    backups: Seq<Seq<char>>,
    from: int,
    id: u64,
) -> bool {
    &&& texts(plan.delete_files@) == files_since(file_names, files, now, file_names.len())
    &&& views(plan.drop_tables@) == tables_since(
        before.tables.names(),
        before@.tables,
        files.dom(),
        before.tables.names().len(),
    )
    &&& texts(plan.deregister@) == before.tables.names()
    &&& views(plan.restore_backups@) == restored(
        backups,
        catalog.tables.dom(),
        from,
        backups.len() as int,
    )
    &&& plan.wal_txn_id == id
}

/// What `COMMIT` is to write and delete.
pub struct CommitPlan {
    /// The catalog to be written.
    pub data: CatalogSnapshot,
    /// The dropped tables whose storage is to be deleted.
    pub drop_tables: Vec<TableMeta>,
    /// WAL transaction id of the transaction.
    pub wal_txn_id: u64,
}

/// The explicit transaction of an engine, if one is active, and the next WAL transaction id.
pub struct TransactionState {
    pub active: Option<Transaction>,
    pub counter: u64,
}

/// The id behind `id`, or `id` itself where there is none.
pub open spec fn next_id(id: u64) -> u64 {
    if id == u64::MAX {
        id
    } else {
        (id + 1) as u64
    }
}

impl TransactionState {
    /// The active transaction is well-formed, and the catalog knows whether there is one.
    pub open spec fn wf(&self, catalog: &Catalog) -> bool {
        &&& self.active matches Some(t) ==> t.wf()
        &&& catalog.in_transaction == (self.active is Some)
    }

    /// No transaction is active, and the first id is 1.
    pub fn new() -> (r: TransactionState)
        ensures
            r.active is None,
            r.counter == 1,
    {
        TransactionState { active: None, counter: 1 }
    }

    /// Whether an explicit transaction is active.
    pub fn in_transaction(&self) -> (r: bool)
        ensures
            r == (self.active is Some),
    {
        self.active.is_some()
    }

    /// The id under which statements are logged: that of the transaction, or 0.
    pub fn current_wal_txn_id(&self) -> (r: u64)
        ensures
            r == match self.active {
                Some(t) => t.wal_txn_id,
                None => 0,
            },
    {
        match &self.active {
            Some(t) => t.wal_txn_id,
            None => 0,
        }
    }

    /// `BEGIN`: captures the catalog and the data files of the tables. A transaction inside another
    /// is refused.
    pub fn begin(&mut self, catalog: &mut Catalog, files: NameMap<FileList>) -> (r: Result<
        String,
        String,
    >)
        requires
            old(catalog).wf(),
            old(self).wf(old(catalog)),
            files.deep_wf(),
        ensures
            final(catalog).wf(),
            final(self).wf(final(catalog)),
            if old(self).active is Some {
                &&& r matches Err(e) && e@
                    == "Already inside a transaction (nested BEGIN not supported)"@
                &&& *final(self) == *old(self)
                &&& *final(catalog) == *old(catalog)
            } else {
                &&& r matches Ok(m) && m@ == "BEGIN"@
                &&& final(self).active matches Some(t)
                &&& t@ == started(old(catalog)@, files.deep(), old(self).counter)
                &&& final(self).counter == next_id(old(self).counter)
                &&& final(catalog)@ == old(catalog)@
                &&& final(catalog).in_transaction
                &&& final(catalog).dirty == old(catalog).dirty
            },
    {
        if self.active.is_some() {
            return Err("Already inside a transaction (nested BEGIN not supported)".to_owned());
        }
        let catalog_snapshot = catalog.snapshot();
        catalog.set_in_transaction(true);
        let id: u64 = self.counter;
        if self.counter < u64::MAX {
            self.counter = self.counter + 1;
        }
        let t = Transaction {
            catalog_snapshot,
            file_snapshot: files,
            deferred_deletes: Vec::new(),
            wal_txn_id: id,
            rewrite_backups: Vec::new(),
            savepoints: Vec::new(),
        };
        proof {
            assert(views(t.deferred_deletes@) == Seq::<TableView>::empty());
            assert(texts(t.rewrite_backups@) == Seq::<Seq<char>>::empty());
            assert(views(t.savepoints@) == Seq::<SavepointView>::empty());
        }
        self.active = Some(t);
        Ok("BEGIN".to_owned())
    }

    /// `COMMIT`: ends the transaction, and says what is to be written and deleted.
    pub fn commit(&mut self, catalog: &mut Catalog) -> (r: Result<CommitPlan, String>)
        requires
            old(catalog).wf(),
            old(self).wf(old(catalog)),
        ensures
            final(catalog).wf(),
            final(self).wf(final(catalog)),
            final(self).counter == old(self).counter,
            final(self).active is None,
            final(catalog)@ == old(catalog)@,
            match old(self).active {
                None => {
                    &&& r matches Err(e) && e@ == "No active transaction to COMMIT"@
                    &&& *final(catalog) == *old(catalog)
                },
                Some(t) => {
                    &&& r matches Ok(plan)
                    &&& plan.data@ == old(catalog)@
                    &&& views(plan.drop_tables@) == t@.deferred
                    &&& plan.wal_txn_id == t.wal_txn_id
                    &&& !final(catalog).in_transaction
                    &&& !final(catalog).dirty
                },
            },
    {
        match self.active.take() {
            None => Err("No active transaction to COMMIT".to_owned()),
            Some(t) => {
                catalog.set_in_transaction(false);
                let data = catalog.force_save();
                Ok(CommitPlan { data, drop_tables: t.deferred_deletes, wal_txn_id: t.wal_txn_id })
            },
        }
    }

    /// `ROLLBACK`: ends the transaction and brings the catalog back to what `BEGIN` captured, given
    /// the data files as they are. The catalog is handed out to be written.
    pub fn rollback(&mut self, catalog: &mut Catalog, now: &NameMap<FileList>) -> (r: Result<
        (RollbackPlan, CatalogSnapshot),
        String,
    >)
        requires
            old(catalog).wf(),
            old(self).wf(old(catalog)),
            now.deep_wf(),
        ensures
            final(catalog).wf(),
            final(self).wf(final(catalog)),
            final(self).counter == old(self).counter,
            final(self).active is None,
            match old(self).active {
                None => {
                    &&& r matches Err(e) && e@ == "No active transaction to ROLLBACK"@
                    &&& *final(catalog) == *old(catalog)
                },
                Some(t) => {
                    &&& r matches Ok(p)
                    &&& final(catalog)@ == t@.catalog
                    &&& p.1@ == t@.catalog
                    &&& !final(catalog).in_transaction
                    &&& !final(catalog).dirty
                    &&& plan_for(
                        p.0,
                        old(catalog),
                        t@.catalog,
                        t.file_snapshot.names(),
                        t@.files,
                        now.deep(),
                        t@.backups,
                        0,
                        t.wal_txn_id,
                    )
                },
            },
    {
        match self.active.take() {
            None => Err("No active transaction to ROLLBACK".to_owned()),
            Some(t) => {
                catalog.set_in_transaction(false);
                let delete_files = list_files_since(&t.file_snapshot, now);
                let drop_tables = list_tables_since(&catalog.tables, &t.file_snapshot);
                let deregister = catalog.tables.key_list();
                catalog.restore(t.catalog_snapshot);
                let data = catalog.force_save();
                let restore_backups = list_restored(&t.rewrite_backups, 0, &catalog.tables);
                Ok(
                    (
                        RollbackPlan {
                            delete_files,
                            drop_tables,
                            deregister,
                            restore_backups,
                            wal_txn_id: t.wal_txn_id,
                        },
                        data,
                    ),
                )
            },
        }
    }

    /// `SAVEPOINT`: captures the present state under a name.
    pub fn savepoint(&mut self, catalog: &Catalog, name: &str, files: NameMap<FileList>) -> (r:
        Result<String, String>)
        requires
            catalog.wf(),
            old(self).wf(catalog),
            files.deep_wf(),
        ensures
            final(self).wf(catalog),
            final(self).counter == old(self).counter,
            match old(self).active {
                None => {
                    &&& r matches Err(e) && e@ == "SAVEPOINT requires an active transaction"@
                    &&& final(self).active is None
                },
                Some(t) => {
                    &&& r matches Ok(m) && m@ == "SAVEPOINT "@ + name@
                    &&& final(self).active matches Some(u)
                    &&& u@ == with_savepoint(t@, name@, catalog@, files.deep())
                },
            },
    {
        match &mut self.active {
            None => Err("SAVEPOINT requires an active transaction".to_owned()),
            Some(t) => {
                let sp = Savepoint {
                    name: name.to_owned(),
                    catalog_snapshot: catalog.snapshot(),
                    file_snapshot: files,
                    backups_before: t.rewrite_backups.len(),
                };
                let ghost sv = sp@;
                let ghost tv = t@;
                let ghost before = t.savepoints@;
                t.savepoints.push(sp);
                proof {
                    assert(views(t.savepoints@) == views(before).push(sv));
                    lemma_step_keeps_marks(
                        tv,
                        TransactionStep::Savepoint {
                            name: name@,
                            catalog: catalog@,
                            files: sv.files,
                        },
                    );
                    assert forall|i: int| 0 <= i < t.savepoints@.len() implies (
                    #[trigger] t.savepoints@[i]).wf() by {
                        if i < before.len() {
                            assert(before[i].wf());
                        }
                    }
                }
                Ok(concat2("SAVEPOINT ", name))
            },
        }
    }

    fn find_savepoint(sps: &Vec<Savepoint>, name: &str) -> (r: Option<usize>)
        ensures
            match r {
                Some(i) => last_savepoint(views(sps@), name@, sps@.len()) == Some(i as int) && i
                    < sps@.len(),
                None => last_savepoint(views(sps@), name@, sps@.len()) is None,
            },
    {
        let mut n: usize = sps.len();
        while n > 0
            invariant
                n <= sps@.len(),
                last_savepoint(views(sps@), name@, sps@.len()) == last_savepoint(
                    views(sps@),
                    name@,
                    n as nat,
                ),
            decreases n,
        {
            assert(views(sps@)[n - 1] == sps@[n - 1]@);
            if same(&sps[n - 1].name, name) {
                return Some(n - 1);
            }
            n -= 1;
        }
        None
    }

    /// `ROLLBACK TO`: brings the catalog back to the last savepoint of the name, given the data files
    /// as they are. Savepoints that were set later are dropped; the savepoint itself stays.
    pub fn rollback_to(
        &mut self,
        catalog: &mut Catalog,
        name: &str,
        now: &NameMap<FileList>,
    ) -> (r: Result<RollbackPlan, String>)
        requires
            old(catalog).wf(),
            old(self).wf(old(catalog)),
            now.deep_wf(),
        ensures
            final(catalog).wf(),
            final(self).wf(final(catalog)),
            final(self).counter == old(self).counter,
            final(catalog).dirty == old(catalog).dirty,
            match old(self).active {
                None => {
                    &&& r matches Err(e) && e@
                        == "ROLLBACK TO SAVEPOINT requires an active transaction"@
                    &&& final(self).active is None
                    &&& *final(catalog) == *old(catalog)
                },
                Some(t) => match last_savepoint(t@.savepoints, name@, t@.savepoints.len()) {
                    None => {
                        &&& r matches Err(e) && e@ == "Savepoint '"@ + name@ + "' does not exist"@
                        &&& final(self).active matches Some(u) && u@ == t@
                        &&& *final(catalog) == *old(catalog)
                    },
                    Some(i) => {
                        let sp = t@.savepoints[i];
                        &&& r matches Ok(plan)
                        &&& final(catalog)@ == sp.catalog
                        &&& final(self).active matches Some(u)
                        &&& u@ == with_first_savepoints(t@, i + 1)
                        &&& plan_for(
                            plan,
                            old(catalog),
                            sp.catalog,
                            t.savepoints@[i].file_snapshot.names(),
                            sp.files,
                            now.deep(),
                            t@.backups,
                            sp.backups_before,
                            t.wal_txn_id,
                        )
                    },
                },
            },
    {
        match &mut self.active {
            None => Err("ROLLBACK TO SAVEPOINT requires an active transaction".to_owned()),
            Some(t) => {
                let ghost tv = t@;
                let ghost sps = t.savepoints@;
                assert(views(sps).len() == sps.len());
                match TransactionState::find_savepoint(&t.savepoints, name) {
                    None => Err(concat3("Savepoint '", name, "' does not exist")),
                    Some(i) => {
                        assert(tv.savepoints[i as int] == sps[i as int]@);
                        assert(sps[i as int].wf());
                        let sp = t.savepoints[i].dup();
                        let delete_files = list_files_since(&t.savepoints[i].file_snapshot, now);
                        let drop_tables = list_tables_since(
                            &catalog.tables,
                            &t.savepoints[i].file_snapshot,
                        );
                        let deregister = catalog.tables.key_list();
                        assert(t.savepoints@.len() == t.savepoints.len());
                        t.savepoints.truncate(i + 1);
                        proof {
                            assert(views(t.savepoints@) == views(sps).subrange(0, i + 1));
                            assert forall|k: int| 0 <= k < t.savepoints@.len() implies (
                            #[trigger] t.savepoints@[k]).wf() by {
                                assert(sps[k].wf());
                            }
                        }
                        let id: u64 = t.wal_txn_id;
                        catalog.restore(sp.catalog_snapshot);
                        let restore_backups = list_restored(
                            &t.rewrite_backups,
                            sp.backups_before,
                            &catalog.tables,
                        );
                        Ok(
                            RollbackPlan {
                                delete_files,
                                drop_tables,
                                deregister,
                                restore_backups,
                                wal_txn_id: id,
                            },
                        )
                    },
                }
            },
        }
    }

    /// `RELEASE SAVEPOINT`: drops the last savepoint of the name and those that were set later.
    pub fn release_savepoint(&mut self, catalog: &Catalog, name: &str) -> (r: Result<
        String,
        String,
    >)
        requires
            old(self).wf(catalog),
        ensures
            final(self).wf(catalog),
            final(self).counter == old(self).counter,
            match old(self).active {
                None => {
                    &&& r matches Err(e) && e@
                        == "RELEASE SAVEPOINT requires an active transaction"@
                    &&& final(self).active is None
                },
                Some(t) => match last_savepoint(t@.savepoints, name@, t@.savepoints.len()) {
                    None => {
                        &&& r matches Err(e) && e@ == "Savepoint '"@ + name@ + "' does not exist"@
                        &&& final(self).active matches Some(u) && u@ == t@
                    },
                    Some(i) => {
                        &&& r matches Ok(m) && m@ == "RELEASE SAVEPOINT "@ + name@
                        &&& final(self).active matches Some(u)
                        &&& u@ == with_first_savepoints(t@, i)
                    },
                },
            },
    {
        match &mut self.active {
            None => Err("RELEASE SAVEPOINT requires an active transaction".to_owned()),
            Some(t) => {
                let ghost sps = t.savepoints@;
                assert(views(sps).len() == sps.len());
                match TransactionState::find_savepoint(&t.savepoints, name) {
                    None => Err(concat3("Savepoint '", name, "' does not exist")),
                    Some(i) => {
                        t.savepoints.truncate(i);
                        proof {
                            assert(views(t.savepoints@) == views(sps).subrange(0, i as int));
                            assert forall|k: int| 0 <= k < t.savepoints@.len() implies (
                            #[trigger] t.savepoints@[k]).wf() by {
                                assert(sps[k].wf());
                            }
                        }
                        Ok(concat2("RELEASE SAVEPOINT ", name))
                    },
                }
            },
        }
    }

    /// Notes that a table was dropped in the transaction: its storage goes on `COMMIT`. Without a
    /// transaction the table is handed back, and its storage goes now.
    pub fn defer_delete(&mut self, catalog: &Catalog, meta: TableMeta) -> (r: Option<TableMeta>)
        requires
            old(self).wf(catalog),
            meta.wf(),
        ensures
            final(self).wf(catalog),
            final(self).counter == old(self).counter,
            match old(self).active {
                None => final(self).active is None && r == Some(meta),
                Some(t) => {
                    &&& r is None
                    &&& final(self).active matches Some(u)
                    &&& u@ == with_dropped(t@, meta@)
                },
            },
    {
        match &mut self.active {
            None => Some(meta),
            Some(t) => {
                let ghost before = t.deferred_deletes@;
                let ghost mv = meta@;
                let ghost tv = t@;
                t.deferred_deletes.push(meta);
                proof {
                    assert(t@.savepoints == tv.savepoints && t@.backups == tv.backups);
                    assert(marks_in_order(tv));
                    assert(views(t.deferred_deletes@) == views(before).push(mv));
                    assert forall|i: int| 0 <= i < t.deferred_deletes@.len() implies (
                    #[trigger] t.deferred_deletes@[i]).wf() by {
                        if i < before.len() {
                            assert(before[i].wf());
                        }
                    }
                }
                None
            },
        }
    }

    /// How many backups were made before the innermost savepoint was set.
    fn mark(t: &Transaction) -> (r: usize)
        ensures
            r == innermost_mark(t@),
    {
        let n: usize = t.savepoints.len();
        if n == 0 {
            0
        } else {
            assert(views(t.savepoints@).last() == t.savepoints@[n - 1]@);
            t.savepoints[n - 1].backups_before
        }
    }

    /// Whether a table has to be backed up before it is written to, by a new row or a rewrite: a
    /// transaction is active, and has made no backup of the table since its innermost savepoint was
    /// set.
    pub fn wants_backup(&self, catalog: &Catalog, table: &str) -> (r: bool)
        requires
            self.wf(catalog),
        ensures
            r == match self.active {
                None => false,
                Some(t) => !innermost_backups(t@).contains(table@),
            },
    {
        match &self.active {
            None => false,
            Some(t) => {
                let from: usize = TransactionState::mark(t);
                assert(marks_in_order(t@));
                !held_between(&t.rewrite_backups, from, t.rewrite_backups.len(), table)
            },
        }
    }

    /// Notes that a table is backed up before it is written to, where that is wanted. The number of
    /// the backup is handed out.
    pub fn note_backup(&mut self, catalog: &Catalog, table: &str) -> (r: Option<usize>)
        requires
            old(self).wf(catalog),
        ensures
            final(self).wf(catalog),
            final(self).counter == old(self).counter,
            match old(self).active {
                None => r is None && final(self).active is None,
                Some(t) => {
                    &&& r is None <==> innermost_backups(t@).contains(table@)
                    &&& r matches Some(i) ==> i == t@.backups.len()
                    &&& final(self).active matches Some(u)
                    &&& u@ == with_backup(t@, table@)
                },
            },
    {
        let wanted = self.wants_backup(catalog, table);
        match &mut self.active {
            None => None,
            Some(t) => {
                if !wanted {
                    return None;
                }
                let index: usize = t.rewrite_backups.len();
                let ghost before = t.rewrite_backups@;
                let ghost tv = t@;
                t.rewrite_backups.push(table.to_owned());
                proof {
                    assert(texts(t.rewrite_backups@) == texts(before).push(table@));
                    assert(t@.savepoints == tv.savepoints);
                }
                Some(index)
            },
        }
    }
}

/// The answer to `COMMIT`.
pub fn commit_message() -> (r: String)
    ensures
        r@ == "COMMIT"@,
{
    "COMMIT".to_owned()
}

/// The answer to `ROLLBACK`.
pub fn rollback_message() -> (r: String)
    ensures
        r@ == "ROLLBACK"@,
{
    "ROLLBACK".to_owned()
}

/// The answer to `ROLLBACK TO`.
pub fn rollback_to_message(name: &str) -> (r: String)
    ensures
        r@ == "ROLLBACK TO SAVEPOINT "@ + name@,
{
    concat2("ROLLBACK TO SAVEPOINT ", name)
}

// ---------------------------------------------------------------------------
// Laws
// ---------------------------------------------------------------------------

/// What can happen to a transaction between `BEGIN` and its end.
pub enum TransactionStep {
    /// A savepoint is set, of this state.
    Savepoint {
        name: Seq<char>,
        catalog: CatalogState,
        files: Map<Seq<char>, Seq<Seq<char>>>,
    },
    /// Only so many of the first savepoints are left: a savepoint is returned to or released.
    Keep { savepoints: int },
    /// A table is dropped.
    Drop { table: TableView },
    /// A table is backed up before it is written to.
    Backup { name: Seq<char> },
}

/// The transaction after a step.
pub open spec fn after_step(t: TransactionView, s: TransactionStep) -> TransactionView {
    match s {
        TransactionStep::Savepoint { name, catalog, files } => with_savepoint(
            t,
            name,
            catalog,
            files,
        ),
        TransactionStep::Keep { savepoints } => with_first_savepoints(t, savepoints),
        TransactionStep::Drop { table } => with_dropped(t, table),
        TransactionStep::Backup { name } => with_backup(t, name),
    }
}

/// The transaction after the first `n` steps.
pub open spec fn after_steps(t: TransactionView, steps: Seq<TransactionStep>, n: nat) -> TransactionView
    decreases n,
{
    if n == 0 {
        t
    } else {
        after_step(after_steps(t, steps, (n - 1) as nat), steps[n - 1])
    }
}

/// Whatever happens in a transaction, `ROLLBACK` goes back to the catalog and the data files that
/// were there at `BEGIN`, under the same number in the log.
pub proof fn law_rollback_goes_back_to_begin(
    c: CatalogState,
    files: Map<Seq<char>, Seq<Seq<char>>>,
    id: u64,
    steps: Seq<TransactionStep>,
    n: nat,
)
    requires
        n <= steps.len(),
    ensures
        after_steps(started(c, files, id), steps, n).catalog == c,
        after_steps(started(c, files, id), steps, n).files == files,
        after_steps(started(c, files, id), steps, n).wal_txn_id == id,
    decreases n,
{
    if n > 0 {
        law_rollback_goes_back_to_begin(c, files, id, steps, (n - 1) as nat);
    }
}

proof fn lemma_restored(
    backups: Seq<Seq<char>>,
    known: Set<Seq<char>>,
    from: int,
    n: int,
    k: int,
)
    requires
        0 <= from <= k < n <= backups.len(),
        known.contains(backups[k]),
    ensures
        exists|i: int|
            from <= i <= k && backups[i] == backups[k] && !backups.subrange(from, i).contains(
                backups[k],
            ) && #[trigger] restored(backups, known, from, n).contains((backups[k], i)),
    decreases n,
{
    let table = backups[k];
    let all = restored(backups, known, from, n);
    let rest = restored(backups, known, from, n - 1);
    if k < n - 1 {
        lemma_restored(backups, known, from, n - 1, k);
        let i = choose|i: int|
            from <= i <= k && backups[i] == table && !backups.subrange(from, i).contains(table)
                && #[trigger] rest.contains((table, i));
        let at = choose|at: int| 0 <= at < rest.len() && rest[at] == (table, i);
        assert(all[at] == (table, i));
        assert(all.contains((table, i)));
    } else if backups.subrange(from, k).contains(table) {
        let part = backups.subrange(from, k);
        let j = choose|j: int| 0 <= j < part.len() && part[j] == table;
        assert(backups[from + j] == table);
        lemma_restored(backups, known, from, n - 1, from + j);
        let i = choose|i: int|
            from <= i <= from + j && backups[i] == table && !backups.subrange(from, i).contains(
                table,
            ) && #[trigger] rest.contains((table, i));
        let at = choose|at: int| 0 <= at < rest.len() && rest[at] == (table, i);
        assert(all[at] == (table, i));
        assert(all.contains((table, i)));
    } else {
        assert(all[all.len() - 1] == (table, k));
        assert(all.contains((table, k)));
    }
}

proof fn lemma_backups_grow(t: TransactionView, steps: Seq<TransactionStep>, m: nat, n: nat)
    requires
        m <= n <= steps.len(),
    ensures
        after_steps(t, steps, m).backups.len() <= after_steps(t, steps, n).backups.len(),
        forall|k: int|
            0 <= k < after_steps(t, steps, m).backups.len() ==> after_steps(
                t,
                steps,
                m,
            ).backups[k] == #[trigger] after_steps(t, steps, n).backups[k],
    decreases n,
{
    if m < n {
        lemma_backups_grow(t, steps, m, (n - 1) as nat);
    }
}

/// Whether a step can happen: no more savepoints are kept than there are.
pub open spec fn step_applies(t: TransactionView, s: TransactionStep) -> bool {
    s matches TransactionStep::Keep { savepoints } ==> 0 <= savepoints <= t.savepoints.len()
}

/// Whether the first `n` steps can happen one after the other.
pub open spec fn steps_apply(t: TransactionView, steps: Seq<TransactionStep>, n: nat) -> bool {
    forall|i: int| 0 <= i < n ==> step_applies(after_steps(t, steps, i as nat), #[trigger] steps[i])
}

proof fn lemma_step_keeps_marks(t: TransactionView, s: TransactionStep)
    requires
        marks_in_order(t),
        step_applies(t, s),
    ensures
        marks_in_order(after_step(t, s)),
{
    let u = after_step(t, s);
    assert forall|i: int| 0 <= i < u.savepoints.len() implies 0 <= (
    #[trigger] u.savepoints[i]).backups_before <= u.backups.len() by {
        if i < t.savepoints.len() {
            assert(u.savepoints[i] == t.savepoints[i]);
        }
    }
    assert forall|i: int, j: int| 0 <= i <= j < u.savepoints.len() implies (
    #[trigger] u.savepoints[i]).backups_before <= (#[trigger] u.savepoints[j]).backups_before by {
        if i < t.savepoints.len() {
            assert(u.savepoints[i] == t.savepoints[i]);
        }
        if j < t.savepoints.len() {
            assert(u.savepoints[j] == t.savepoints[j]);
        }
    }
}

proof fn lemma_steps_keep_marks(t: TransactionView, steps: Seq<TransactionStep>, n: nat)
    requires
        marks_in_order(t),
        n <= steps.len(),
        steps_apply(t, steps, n),
    ensures
        marks_in_order(after_steps(t, steps, n)),
    decreases n,
{
    if n > 0 {
        lemma_steps_keep_marks(t, steps, (n - 1) as nat);
        assert(step_applies(after_steps(t, steps, (n - 1) as nat), steps[n - 1]));
        lemma_step_keeps_marks(after_steps(t, steps, (n - 1) as nat), steps[n - 1]);
    }
}

/// Where a backup that is noted stands: behind the innermost savepoint.
proof fn lemma_backup_is_noted(t: TransactionView, table: Seq<char>) -> (at: int)
    requires
        0 <= innermost_mark(t) <= t.backups.len(),
    ensures
        innermost_mark(t) <= at < with_backup(t, table).backups.len(),
        with_backup(t, table).backups[at] == table,
{
    let part = innermost_backups(t);
    if part.contains(table) {
        let j = choose|j: int| 0 <= j < part.len() && part[j] == table;
        innermost_mark(t) + j
    } else {
        t.backups.len() as int
    }
}

/// Whether the rows of a table that come back are those of the first backup numbered `from` or
/// higher.
pub open spec fn comes_back(
    backups: Seq<Seq<char>>,
    known: Set<Seq<char>>,
    from: int,
    table: Seq<char>,
) -> bool {
    exists|k: int|
        from <= k < backups.len() && backups[k] == table && !backups.subrange(from, k).contains(
            table,
        ) && #[trigger] restored(backups, known, from, backups.len() as int).contains((table, k))
}

/// A table of the restored catalog that was written to in a transaction is written back by
/// `ROLLBACK`, whatever else happens: with the rows that it had before it was first written to.
pub proof fn law_rollback_restores_written_tables(
    t: TransactionView,
    steps: Seq<TransactionStep>,
    i: int,
    n: nat,
    known: Set<Seq<char>>,
)
    requires
        marks_in_order(t),
        0 <= i < n <= steps.len(),
        steps_apply(t, steps, n),
        steps[i] is Backup,
        known.contains(steps[i]->Backup_name),
    ensures
        comes_back(after_steps(t, steps, n).backups, known, 0, steps[i]->Backup_name),
{
    let before = after_steps(t, steps, i as nat);
    let after = after_steps(t, steps, (i + 1) as nat);
    let backups = after_steps(t, steps, n).backups;
    lemma_steps_keep_marks(t, steps, i as nat);
    if before.savepoints.len() > 0 {
        assert(0 <= before.savepoints[before.savepoints.len() - 1].backups_before);
    }
    let at = lemma_backup_is_noted(before, steps[i]->Backup_name);
    lemma_backups_grow(t, steps, (i + 1) as nat, n);
    assert(after.backups[at] == backups[at]);
    lemma_restored(backups, known, 0, backups.len() as int, at);
}

proof fn lemma_savepoint_stays(t: TransactionView, steps: Seq<TransactionStep>, n: nat, q: int)
    requires
        n <= steps.len(),
        steps_apply(t, steps, n),
        0 <= q < t.savepoints.len(),
        forall|j: int|
            0 <= j < n ==> ((#[trigger] steps[j]) matches TransactionStep::Keep { savepoints }
                ==> q < savepoints),
    ensures
        q < after_steps(t, steps, n).savepoints.len(),
        after_steps(t, steps, n).savepoints[q] == t.savepoints[q],
    decreases n,
{
    if n > 0 {
        lemma_savepoint_stays(t, steps, (n - 1) as nat, q);
        assert(step_applies(after_steps(t, steps, (n - 1) as nat), steps[n - 1]));
    }
}

/// A table of the restored catalog that was written to behind a savepoint is written back by
/// `ROLLBACK TO` that savepoint, whatever else happens as long as the savepoint is there: with the
/// rows that it had before it was first written to behind the savepoint.
pub proof fn law_rollback_to_restores_written_tables(
    t: TransactionView,
    q: int,
    steps: Seq<TransactionStep>,
    i: int,
    n: nat,
    known: Set<Seq<char>>,
)
    requires
        marks_in_order(t),
        0 <= q < t.savepoints.len(),
        0 <= i < n <= steps.len(),
        steps_apply(t, steps, n),
        forall|j: int|
            0 <= j < n ==> ((#[trigger] steps[j]) matches TransactionStep::Keep { savepoints }
                ==> q < savepoints),
        steps[i] is Backup,
        known.contains(steps[i]->Backup_name),
    ensures
        after_steps(t, steps, n).savepoints[q] == t.savepoints[q],
        comes_back(
            after_steps(t, steps, n).backups,
            known,
            t.savepoints[q].backups_before,
            steps[i]->Backup_name,
        ),
{
    let from = t.savepoints[q].backups_before;
    let before = after_steps(t, steps, i as nat);
    let after = after_steps(t, steps, (i + 1) as nat);
    let backups = after_steps(t, steps, n).backups;
    lemma_savepoint_stays(t, steps, n, q);
    lemma_savepoint_stays(t, steps, i as nat, q);
    lemma_steps_keep_marks(t, steps, i as nat);
    let last = before.savepoints.len() - 1;
    assert(before.savepoints[q].backups_before <= before.savepoints[last].backups_before);
    let at = lemma_backup_is_noted(before, steps[i]->Backup_name);
    lemma_backups_grow(t, steps, (i + 1) as nat, n);
    assert(after.backups[at] == backups[at]);
    lemma_restored(backups, known, from, backups.len() as int, at);
}

/// A table that was not written to behind a savepoint is left alone by `ROLLBACK TO` it.
pub proof fn law_rollback_to_leaves_other_tables(
    backups: Seq<Seq<char>>,
    known: Set<Seq<char>>,
    from: int,
    n: int,
    table: Seq<char>,
    k: int,
)
    requires
        0 <= from <= n <= backups.len(),
        !backups.subrange(from, n).contains(table),
    ensures
        !restored(backups, known, from, n).contains((table, k)),
    decreases n - from,
{
    if from < n {
        let part = backups.subrange(from, n);
        let less = backups.subrange(from, n - 1);
        assert(part[n - 1 - from] == backups[n - 1]);
        assert(!less.contains(table)) by {
            if less.contains(table) {
                let j = choose|j: int| 0 <= j < less.len() && less[j] == table;
                assert(part[j] == table);
            }
        }
        law_rollback_to_leaves_other_tables(backups, known, from, n - 1, table, k);
        let rest = restored(backups, known, from, n - 1);
        let all = restored(backups, known, from, n);
        if all.contains((table, k)) {
            let j = choose|j: int| 0 <= j < all.len() && all[j] == (table, k);
            if j < rest.len() {
                assert(rest[j] == (table, k));
            }
        }
    }
}

pub proof fn lemma_last_savepoint(sps: Seq<SavepointView>, name: Seq<char>, n: nat)
    requires
        n <= sps.len(),
    ensures
        match last_savepoint(sps, name, n) {
            Some(i) => 0 <= i < n && sps[i].name == name && forall|j: int|
                i < j < n ==> (#[trigger] sps[j]).name != name,
            None => forall|j: int| 0 <= j < n ==> (#[trigger] sps[j]).name != name,
        },
    decreases n,
{
    if n > 0 {
        lemma_last_savepoint(sps, name, (n - 1) as nat);
    }
}

/// A savepoint that was just set is the one that its name finds, and it holds the state of that
/// moment.
pub proof fn law_savepoint_is_found(
    t: TransactionView,
    name: Seq<char>,
    c: CatalogState,
    files: Map<Seq<char>, Seq<Seq<char>>>,
)
    ensures
        ({
            let u = with_savepoint(t, name, c, files);
            let i = last_savepoint(u.savepoints, name, u.savepoints.len());
            &&& i == Some(t.savepoints.len() as int)
            &&& u.savepoints[t.savepoints.len() as int].catalog == c
            &&& u.savepoints[t.savepoints.len() as int].files == files
        }),
{
}

/// After a return to a savepoint the same name still finds it.
pub proof fn law_rollback_to_keeps_savepoint(t: TransactionView, name: Seq<char>)
    requires
        last_savepoint(t.savepoints, name, t.savepoints.len()) is Some,
    ensures
        ({
            let i = last_savepoint(t.savepoints, name, t.savepoints.len())->0;
            let u = with_first_savepoints(t, i + 1);
            &&& last_savepoint(u.savepoints, name, u.savepoints.len()) == Some(i)
            &&& u.savepoints[i] == t.savepoints[i]
        }),
{
    lemma_last_savepoint(t.savepoints, name, t.savepoints.len());
}

/// After a release neither the savepoint nor one that was set later is there.
pub proof fn law_release_drops_later_savepoints(t: TransactionView, name: Seq<char>)
    requires
        last_savepoint(t.savepoints, name, t.savepoints.len()) is Some,
    ensures
        ({
            let i = last_savepoint(t.savepoints, name, t.savepoints.len())->0;
            with_first_savepoints(t, i).savepoints.len() == i
        }),
{
    lemma_last_savepoint(t.savepoints, name, t.savepoints.len());
}

proof fn lemma_new_files(now: Seq<Seq<char>>, before: Seq<Seq<char>>)
    ensures
        forall|f: Seq<char>| #[trigger]
            new_files(now, before).contains(f) <==> now.contains(f) && !before.contains(f),
    decreases now.len(),
{
    if now.len() > 0 {
        let h = now.drop_last();
        lemma_new_files(h, before);
        let p = new_files(now, before);
        let q = new_files(h, before);
        assert forall|f: Seq<char>| #[trigger] p.contains(f) <==> now.contains(f)
            && !before.contains(f) by {
            assert(q.contains(f) <==> h.contains(f) && !before.contains(f));
            if p.contains(f) {
                let i = choose|i: int| 0 <= i < p.len() && p[i] == f;
                if i < q.len() {
                    assert(q[i] == f);
                    let j = choose|j: int| 0 <= j < h.len() && h[j] == f;
                    assert(now[j] == f);
                } else {
                    assert(now[now.len() - 1] == f);
                }
            }
            if now.contains(f) && !before.contains(f) {
                let j = choose|j: int| 0 <= j < now.len() && now[j] == f;
                if j < h.len() {
                    assert(h[j] == f);
                    let i = choose|i: int| 0 <= i < q.len() && q[i] == f;
                    assert(p[i] == f);
                } else {
                    assert(p[q.len() as int] == f);
                }
            }
        }
    }
}

/// Of a table's files a rollback deletes exactly those that are there now and were not before.
pub proof fn law_rollback_deletes_new_files(
    now: Seq<Seq<char>>,
    before: Seq<Seq<char>>,
    f: Seq<char>,
)
    ensures
        new_files(now, before).contains(f) <==> now.contains(f) && !before.contains(f),
{
    lemma_new_files(now, before);
}

/// Exactly the tables that were not there before are dropped, in the order of their names.
pub proof fn law_new_tables_are_dropped(
    names: Seq<Seq<char>>,
    tables: Map<Seq<char>, TableView>,
    known: Set<Seq<char>>,
    n: nat,
)
    requires
        n <= names.len(),
    ensures
        ({
            let fresh = names.take(n as int).filter(|k: Seq<char>| !known.contains(k));
            tables_since(names, tables, known, n) == Seq::new(
                fresh.len(),
                |i: int| tables[fresh[i]],
            )
        }),
    decreases n,
{
    reveal(Seq::filter);
    let f = |k: Seq<char>| !known.contains(k);
    let fresh = names.take(n as int).filter(f);
    if n > 0 {
        law_new_tables_are_dropped(names, tables, known, (n - 1) as nat);
        assert(names.take(n as int).drop_last() =~= names.take(n - 1));
        assert(names.take(n as int).last() == names[n - 1]);
        let rest = names.take(n - 1).filter(f);
        if f(names[n - 1]) {
            assert(fresh == rest.push(names[n - 1]));
        } else {
            assert(fresh == rest);
        }
    }
    assert(tables_since(names, tables, known, n) =~= Seq::new(
        fresh.len(),
        |i: int| tables[fresh[i]],
    ));
}

/// A file is new exactly where it is there now and was not before.
pub proof fn law_new_files(now: Seq<Seq<char>>, before: Seq<Seq<char>>)
    ensures
        new_files(now, before) == now.filter(|f: Seq<char>| !before.contains(f)),
    decreases now.len(),
{
    reveal(Seq::filter);
    if now.len() > 0 {
        law_new_files(now.drop_last(), before);
    }
}

/// What is written within a transaction is kept once for each savepoint: a table that was kept since the
/// innermost one is not kept again, and any other is.
pub proof fn law_written_tables_are_kept_once(t: TransactionView, table: Seq<char>)
    requires
        0 <= innermost_mark(t) <= t.backups.len(),
    ensures
        ({
            let after = with_backup(t, table);
            let since = t.backups.subrange(innermost_mark(t), t.backups.len() as int);
            &&& after.backups.contains(table)
            &&& since.contains(table) ==> after == t
            &&& !since.contains(table) ==> after.backups == t.backups.push(table)
            &&& after.savepoints == t.savepoints && after.catalog == t.catalog
        }),
{
    let after = with_backup(t, table);
    let since = t.backups.subrange(innermost_mark(t), t.backups.len() as int);
    if since.contains(table) {
        let k = choose|k: int| 0 <= k < since.len() && since[k] == table;
        assert(t.backups[innermost_mark(t) + k] == table);
    } else {
        assert(after.backups[t.backups.len() as int] == table);
    }
}

} // verus!
