//! `ALTER TABLE`, `DROP TABLE` and `TRUNCATE`.
use vstd::prelude::*;
use vstd::string::*;

use crate::catalog::{indexes_without, lookup, saved, Catalog, CatalogState};
use crate::catalog_types::{ColumnDef, ColumnView, IndexDef, IndexView, TableMeta, TableView};
use crate::clauses::{
    parse_alter_table_rename, parse_retention_setting, rename_names, retention_setting,
};
use crate::dup::{all_wf, views, Dup};
use crate::indexes::{column_exists, has_column};
use crate::namemap::{key_pos, NameMap};
use crate::numbers::{decimal, print_u64};
use crate::outcome::{answered, checked, Check, CheckView};
use crate::statement::{
    parsed_alter, parsed_operations, read_alter, read_operations, AlterHead, AlterOp, AlterOpView,
};
use crate::tables::{create_table_check, defined_column, sql_column_to_catalog, NewTableView};
use crate::text::{concat2, concat3, join, joined, lower_text, same, texts};

verus! {

// ---------------------------------------------------------------------------
// Operations
// ---------------------------------------------------------------------------

/// The position of the first column of the name among the first `n`.
pub open spec fn first_column(cs: Seq<ColumnView>, name: Seq<char>, n: nat) -> Option<int>
    decreases n,
{
    if n == 0 || n > cs.len() {
        None
    } else {
        match first_column(cs, name, (n - 1) as nat) {
            Some(i) => Some(i),
            None => if cs[n - 1].name == name {
                Some(n - 1)
            } else {
                None
            },
        }
    }
}

/// The columns of another name, in order.
pub open spec fn without_column(cs: Seq<ColumnView>, name: Seq<char>) -> Seq<ColumnView>
    decreases cs.len(),
{
    if cs.len() == 0 {
        Seq::empty()
    } else if cs.last().name == name {
        without_column(cs.drop_last(), name)
    } else {
        without_column(cs.drop_last(), name).push(cs.last())
    }
}

/// The first text of a list, or the empty one.
pub open spec fn first_or_empty(v: Seq<Seq<char>>) -> Seq<char> {
    if v.len() > 0 {
        v[0]
    } else {
        Seq::empty()
    }
}

/// The columns after one operation and what is said of it, or the complaint.
pub open spec fn altered_once(table: Seq<char>, cs: Seq<ColumnView>, op: AlterOpView) -> Result<
    (Seq<ColumnView>, Seq<char>),
    Seq<char>,
> {
    match op {
        AlterOpView::AddColumn { column, if_not_exists } => {
            let col = defined_column(column);
            if !has_column(cs, col.name) {
                Ok((cs.push(col), "Column '"@ + col.name + "' added."@))
            } else if if_not_exists {
                Ok((cs, "Column '"@ + col.name + "' already exists, skipping."@))
            } else {
                Err("Column '"@ + col.name + "' already exists in '"@ + table + "'"@)
            }
        },
        AlterOpView::DropColumn { names, if_exists } => {
            let name = first_or_empty(names);
            if has_column(cs, name) {
                Ok((without_column(cs, name), "Column '"@ + name + "' dropped."@))
            } else if if_exists {
                Ok((cs, "Column '"@ + name + "' does not exist, skipping."@))
            } else {
                Err("Column '"@ + name + "' does not exist in '"@ + table + "'"@)
            }
        },
        AlterOpView::RenameColumn { old_name, new_name } => match first_column(
            cs,
            old_name,
            cs.len(),
        ) {
            Some(i) => Ok(
                (
                    cs.update(i, ColumnView { name: new_name, ..cs[i] }),
                    "Column '"@ + old_name + "' renamed to '"@ + new_name + "'."@,
                ),
            ),
            None => Err("Column '"@ + old_name + "' does not exist in '"@ + table + "'"@),
        },
        AlterOpView::Other { text } => Err("Unsupported ALTER TABLE operation: "@ + text),
    }
}

/// What becomes of a table whose columns are altered.
pub struct AlterView {
    pub columns: Seq<ColumnView>,
    pub messages: Seq<Seq<char>>,
    /// The complaint about the first operation that cannot be done. Those before it stay done, and
    /// those behind it are left out.
    pub error: Option<Seq<char>>,
}

/// The columns after the first `n` operations.
pub open spec fn altered(
    table: Seq<char>,
    cs: Seq<ColumnView>,
    ops: Seq<AlterOpView>,
    n: nat,
) -> AlterView
    decreases n,
{
    if n == 0 {
        AlterView { columns: cs, messages: Seq::empty(), error: None }
    } else {
        let before = altered(table, cs, ops, (n - 1) as nat);
        if before.error is Some {
            before
        } else {
            match altered_once(table, before.columns, ops[n - 1]) {
                Ok(p) => AlterView {
                    columns: p.0,
                    messages: before.messages.push(p.1),
                    error: None,
                },
                Err(e) => AlterView { error: Some(e), ..before },
            }
        }
    }
}

proof fn lemma_altered_stops(
    table: Seq<char>,
    cs: Seq<ColumnView>,
    ops: Seq<AlterOpView>,
    i: nat,
    n: nat,
)
    requires
        i <= n,
        altered(table, cs, ops, i).error is Some,
    ensures
        altered(table, cs, ops, n) == altered(table, cs, ops, i),
    decreases n - i,
{
    if i < n {
        lemma_altered_stops(table, cs, ops, i, (n - 1) as nat);
    }
}

fn column_position(cs: &Vec<ColumnDef>, name: &str) -> (r: Option<usize>)
    ensures
        match r {
            Some(i) => i < cs@.len() && first_column(views(cs@), name@, views(cs@).len()) == Some(
                i as int,
            ),
            None => first_column(views(cs@), name@, views(cs@).len()) is None,
        },
{
    let ghost cv = views(cs@);
    let mut i: usize = 0;
    while i < cs.len()
        invariant
            i <= cs@.len(),
            cv == views(cs@),
            cv.len() == cs@.len(),
            first_column(cv, name@, i as nat) is None,
        decreases cs@.len() - i,
    {
        assert(cv[i as int] == cs@[i as int]@);
        if same(&cs[i].name, name) {
            proof {
                assert(first_column(cv, name@, (i + 1) as nat) == Some(i as int));
                lemma_first_column(cv, name@, (i + 1) as nat, cv.len());
            }
            return Some(i);
        }
        i += 1;
    }
    None
}

proof fn lemma_first_column(cs: Seq<ColumnView>, name: Seq<char>, i: nat, n: nat)
    requires
        i <= n <= cs.len(),
        first_column(cs, name, i) is Some,
    ensures
        first_column(cs, name, n) == first_column(cs, name, i),
    decreases n - i,
{
    if i < n {
        lemma_first_column(cs, name, i, (n - 1) as nat);
    }
}

fn remove_columns(cs: &mut Vec<ColumnDef>, name: &str)
    requires
        all_wf(old(cs)@),
    ensures
        views(final(cs)@) == without_column(views(old(cs)@), name@),
        all_wf(final(cs)@),
{
    let ghost start = views(cs@);
    let mut out: Vec<ColumnDef> = Vec::new();
    let mut i: usize = 0;
    assert(views(out@) =~= without_column(start.subrange(0, 0), name@));
    while i < cs.len()
        invariant
            i <= cs@.len(),
            start == views(cs@),
            start.len() == cs@.len(),
            all_wf(cs@),
            all_wf(out@),
            views(out@) == without_column(start.subrange(0, i as int), name@),
        decreases cs@.len() - i,
    {
        let ghost next = start.subrange(0, i + 1);
        assert(next.drop_last() =~= start.subrange(0, i as int));
        assert(next.last() == cs@[i as int]@);
        let ghost done = out@;
        if !same(&cs[i].name, name) {
            let c = cs[i].dup();
            let ghost cv = c@;
            out.push(c);
            assert(views(out@) =~= views(done).push(cv));
        }
        i += 1;
    }
    assert(start.subrange(0, start.len() as int) =~= start);
    *cs = out;
}

fn alter_once(table: &str, cs: &mut Vec<ColumnDef>, op: &AlterOp) -> (r: Result<String, String>)
    requires
        all_wf(old(cs)@),
    ensures
        all_wf(final(cs)@),
        match altered_once(table@, views(old(cs)@), op@) {
            Ok(p) => {
                &&& answered(r) == Ok::<Seq<char>, Seq<char>>(p.1)
                &&& views(final(cs)@) == p.0
            },
            Err(e) => {
                &&& answered(r) == Err::<Seq<char>, Seq<char>>(e)
                &&& *final(cs) == *old(cs)
            },
        },
{
    match op {
        AlterOp::AddColumn { column, if_not_exists } => {
            let col = sql_column_to_catalog(column);
            if column_exists(cs, &col.name) {
                return if *if_not_exists {
                    Ok(concat3("Column '", &col.name, "' already exists, skipping."))
                } else {
                    let head = concat3("Column '", &col.name, "' already exists in '");
                    Err(concat3(&head, table, "'"))
                };
            }
            let message = concat3("Column '", &col.name, "' added.");
            let ghost cv = col@;
            cs.push(col);
            assert(views(cs@) =~= views(old(cs)@).push(cv));
            Ok(message)
        },
        AlterOp::DropColumn { names, if_exists } => {
            assert(texts(names@).len() == names@.len());
            let name: String = if names.len() > 0 {
                assert(texts(names@)[0] == names@[0]@);
                names[0].clone()
            } else {
                String::new()
            };
            if !column_exists(cs, &name) {
                return if *if_exists {
                    Ok(concat3("Column '", &name, "' does not exist, skipping."))
                } else {
                    let head = concat3("Column '", &name, "' does not exist in '");
                    Err(concat3(&head, table, "'"))
                };
            }
            remove_columns(cs, &name);
            Ok(concat3("Column '", &name, "' dropped."))
        },
        AlterOp::RenameColumn { old_name, new_name } => match column_position(cs, old_name) {
            Some(i) => {
                let ghost before = cs@;
                let renamed = ColumnDef {
                    name: new_name.clone(),
                    data_type: cs[i].data_type.clone(),
                    nullable: cs[i].nullable,
                };
                let ghost rv = renamed@;
                cs[i] = renamed;
                proof {
                    assert(views(cs@) =~= views(before).update(i as int, rv));
                    assert forall|j: int| 0 <= j < cs@.len() implies (#[trigger] cs@[j]).wf() by {
                        if j != i {
                            assert(before[j].wf());
                        }
                    }
                }
                let head = concat3("Column '", old_name, "' renamed to '");
                Ok(concat3(&head, new_name, "'."))
            },
            None => {
                let head = concat3("Column '", old_name, "' does not exist in '");
                Err(concat3(&head, table, "'"))
            },
        },
        AlterOp::Other { text } => Err(concat2("Unsupported ALTER TABLE operation: ", text)),
    }
}

fn alter_columns(
    table: &str,
    cs: &mut Vec<ColumnDef>,
    ops: &Vec<AlterOp>,
) -> (r: Result<Vec<String>, String>)
    requires
        all_wf(old(cs)@),
    ensures
        all_wf(final(cs)@),
        ({
            let a = altered(table@, views(old(cs)@), views(ops@), views(ops@).len());
            &&& views(final(cs)@) == a.columns
            &&& match r {
                Ok(m) => a.error is None && texts(m@) == a.messages,
                Err(e) => a.error == Some(e@),
            }
        }),
{
    let ghost start = views(cs@);
    let ghost ov = views(ops@);
    let mut messages: Vec<String> = Vec::new();
    let mut i: usize = 0;
    assert(texts(messages@) =~= Seq::<Seq<char>>::empty());
    while i < ops.len()
        invariant
            i <= ops@.len(),
            all_wf(cs@),
            start == views(old(cs)@),
            ov == views(ops@),
            ov.len() == ops@.len(),
            altered(table@, start, ov, i as nat).error is None,
            altered(table@, start, ov, i as nat).columns == views(cs@),
            altered(table@, start, ov, i as nat).messages == texts(messages@),
        decreases ops@.len() - i,
    {
        assert(ov[i as int] == ops@[i as int]@);
        let ghost done = messages@;
        match alter_once(table, cs, &ops[i]) {
            Err(e) => {
                proof {
                    assert(altered(table@, start, ov, (i + 1) as nat).error == Some(e@));
                    lemma_altered_stops(table@, start, ov, (i + 1) as nat, ov.len());
                }
                return Err(e);
            },
            Ok(m) => {
                let ghost mv = m@;
                messages.push(m);
                assert(texts(messages@) =~= texts(done).push(mv));
            },
        }
        i += 1;
    }
    Ok(messages)
}

// ---------------------------------------------------------------------------
// ALTER TABLE
// ---------------------------------------------------------------------------

/// An `ALTER TABLE` as the parser reads it.
pub struct AlterStatement {
    pub head: AlterHead,
    pub operations: Vec<AlterOp>,
}

/// The `ALTER TABLE` of a text.
pub fn parse_alter_table(sql: &str) -> (r: Option<AlterStatement>)
    ensures
        match r {
            None => parsed_alter(sql@) is None || parsed_operations(sql@) is None,
            Some(a) => {
                &&& parsed_alter(sql@) == Some(a.head@)
                &&& parsed_operations(sql@) == Some(views(a.operations@))
            },
        },
{
    match (read_alter(sql), read_operations(sql)) {
        (Some(head), Some(operations)) => Some(AlterStatement { head, operations }),
        _ => None,
    }
}

/// The way of an `ALTER TABLE`.
pub enum AlterPath {
    /// The table is not there, and that is no fault.
    Skip { message: String },
    /// The table gets another name.
    Rename { old_name: String, new_name: String },
    /// The time for which files are kept is set, or cleared.
    Retention { seconds: Option<u64> },
    /// Columns are altered.
    Columns,
}

/// What an [`AlterPath`] says.
pub enum AlterPathView {
    Skip { message: Seq<char> },
    Rename { old_name: Seq<char>, new_name: Seq<char> },
    Retention { seconds: Option<u64> },
    Columns,
}

impl View for AlterPath {
    type V = AlterPathView;

    open spec fn view(&self) -> AlterPathView {
        match self {
            AlterPath::Skip { message } => AlterPathView::Skip { message: message@ },
            AlterPath::Rename { old_name, new_name } => AlterPathView::Rename {
                old_name: old_name@,
                new_name: new_name@,
            },
            AlterPath::Retention { seconds } => AlterPathView::Retention { seconds: *seconds },
            AlterPath::Columns => AlterPathView::Columns,
        }
    }
}

/// A number of seconds that fits a machine word.
pub open spec fn seconds_value(s: Option<nat>) -> Option<u64> {
    match s {
        Some(n) => Some(n as u64),
        None => None,
    }
}

/// The way of an `ALTER TABLE`.
pub open spec fn alter_path(
    c: CatalogState,
    table: Seq<char>,
    if_exists: bool,
    sql: Seq<char>,
) -> Result<AlterPathView, Seq<char>> {
    if !c.tables.dom().contains(table) {
        if if_exists {
            Ok(
                AlterPathView::Skip {
                    message: "Table '"@ + table + "' does not exist, skipping."@,
                },
            )
        } else {
            Err("Table '"@ + table + "' does not exist"@)
        }
    } else {
        match rename_names(sql) {
            Some(p) => Ok(AlterPathView::Rename { old_name: p.0, new_name: p.1 }),
            None => match retention_setting(sql, lower_text(sql)) {
                Some(s) => Ok(AlterPathView::Retention { seconds: seconds_value(s) }),
                None => Ok(AlterPathView::Columns),
            },
        }
    }
}

/// A table with other columns.
pub open spec fn with_columns(c: CatalogState, table: Seq<char>, columns: Seq<ColumnView>) -> CatalogState {
    CatalogState {
        tables: c.tables.insert(table, TableView { columns, ..c.tables[table] }),
        ..c
    }
}

/// The answer to a change of the time for which files are kept.
pub open spec fn retention_message(table: Seq<char>, seconds: Option<u64>) -> Seq<char> {
    match seconds {
        Some(n) => "Retention policy set on '"@ + table + "' to "@ + decimal(n as nat)
            + " second(s)."@,
        None => "Retention policy cleared on '"@ + table + "'."@,
    }
}

impl Catalog {
    /// The way of an `ALTER TABLE`.
    pub fn plan_alter(&self, table: &str, if_exists: bool, sql: &str) -> (r: Result<
        AlterPath,
        String,
    >)
        requires
            self.wf(),
        ensures
            match r {
                Ok(p) => alter_path(self@, table@, if_exists, sql@) == Ok::<
                    AlterPathView,
                    Seq<char>,
                >(p@),
                Err(e) => alter_path(self@, table@, if_exists, sql@) == Err::<
                    AlterPathView,
                    Seq<char>,
                >(e@),
            },
    {
        if !self.tables.contains_key(table) {
            return if if_exists {
                Ok(
                    AlterPath::Skip {
                        message: concat3("Table '", table, "' does not exist, skipping."),
                    },
                )
            } else {
                Err(concat3("Table '", table, "' does not exist"))
            };
        }
        if let Some((old_name, new_name)) = parse_alter_table_rename(sql) {
            return Ok(AlterPath::Rename { old_name, new_name });
        }
        if let Some(seconds) = parse_retention_setting(sql) {
            return Ok(AlterPath::Retention { seconds });
        }
        Ok(AlterPath::Columns)
    }

    /// Alters the columns of a table, one operation after the other. Where one cannot be done the
    /// columns stay as the operations before it have left them, and the catalog is not marked as
    /// changed.
    pub fn handle_alter_columns(&mut self, table: &str, ops: &Vec<AlterOp>) -> (r: Result<
        String,
        String,
    >)
        requires
            old(self).wf(),
        ensures
            final(self).wf(),
            match lookup(old(self)@.tables, table@) {
                None => {
                    &&& answered(r) == Err::<Seq<char>, Seq<char>>(
                        "Table '"@ + table@ + "' does not exist"@,
                    )
                    &&& *final(self) == *old(self)
                },
                Some(meta) => {
                    let a = altered(table@, meta.columns, views(ops@), views(ops@).len());
                    &&& final(self)@ == with_columns(old(self)@, table@, a.columns)
                    &&& match a.error {
                        Some(e) => {
                            &&& answered(r) == Err::<Seq<char>, Seq<char>>(e)
                            &&& final(self).dirty == old(self).dirty
                            &&& final(self).in_transaction == old(self).in_transaction
                        },
                        None => {
                            &&& answered(r) == Ok::<Seq<char>, Seq<char>>(
                                joined(a.messages, " "@),
                            )
                            &&& saved(old(self), final(self))
                        },
                    }
                },
            },
    {
        match self.tables.position(table) {
            None => Err(concat3("Table '", table, "' does not exist")),
            Some(i) => {
                let ghost before = self.tables;
                proof {
                    before.lemma_deep_entry(i as int);
                }
                let meta = self.tables.at_mut(i);
                let outcome = alter_columns(table, &mut meta.columns, ops);
                proof {
                    NameMap::lemma_deep_update(&before, &self.tables, i as int);
                }
                match outcome {
                    Err(e) => Err(e),
                    Ok(messages) => {
                        self.save();
                        Ok(join(&messages, " "))
                    },
                }
            },
        }
    }

    /// Sets the time for which the files of a table are kept, or clears it. Nothing changes where
    /// the table is not there.
    pub fn handle_retention(&mut self, table: &str, seconds: Option<u64>) -> (r: Result<
        String,
        String,
    >)
        requires
            old(self).wf(),
        ensures
            final(self).wf(),
            match lookup(old(self)@.tables, table@) {
                None => {
                    &&& answered(r) == Err::<Seq<char>, Seq<char>>(
                        "Table '"@ + table@ + "' does not exist"@,
                    )
                    &&& *final(self) == *old(self)
                },
                Some(meta) => {
                    &&& answered(r) == Ok::<Seq<char>, Seq<char>>(
                        retention_message(table@, seconds),
                    )
                    &&& saved(old(self), final(self))
                    &&& final(self)@ == (CatalogState {
                        tables: old(self)@.tables.insert(
                            table@,
                            TableView { retention_seconds: seconds, ..meta },
                        ),
                        ..old(self)@
                    })
                },
            },
    {
        match self.tables.position(table) {
            None => Err(concat3("Table '", table, "' does not exist")),
            Some(i) => {
                let ghost before = self.tables;
                proof {
                    before.lemma_deep_entry(i as int);
                }
                let meta = self.tables.at_mut(i);
                meta.retention_seconds = seconds;
                proof {
                    NameMap::lemma_deep_update(&before, &self.tables, i as int);
                }
                self.save();
                Ok(
                    match seconds {
                        Some(n) => {
                            let head = concat3("Retention policy set on '", table, "' to ");
                            concat3(&head, &print_u64(n), " second(s).")
                        },
                        None => concat3("Retention policy cleared on '", table, "'."),
                    },
                )
            },
        }
    }
}

// ---------------------------------------------------------------------------
// Renaming
// ---------------------------------------------------------------------------

/// What a change of a table's name comes to.
pub open spec fn rename_check(c: CatalogState, old_name: Seq<char>, new_name: Seq<char>) -> Result<
    CheckView,
    Seq<char>,
> {
    if old_name == new_name {
        Ok(CheckView::Done("Table '"@ + old_name + "' already has that name."@))
    } else if c.tables.dom().contains(new_name) {
        Err("Table '"@ + new_name + "' already exists"@)
    } else {
        Ok(
            CheckView::Go(
                "ALTER TABLE \""@ + old_name + "\" RENAME TO \""@ + new_name + "\""@,
            ),
        )
    }
}

/// The indexes after a table has got another name.
pub open spec fn retargeted(
    m: Map<Seq<char>, IndexView>,
    old_name: Seq<char>,
    new_name: Seq<char>,
) -> Map<Seq<char>, IndexView> {
    Map::new(
        |k: Seq<char>| m.dom().contains(k),
        |k: Seq<char>|
            if m[k].table_name == old_name {
                IndexView { table_name: new_name, ..m[k] }
            } else {
                m[k]
            },
    )
}

/// The catalog after a table has got another name.
pub open spec fn renamed(c: CatalogState, old_name: Seq<char>, new_name: Seq<char>) -> CatalogState {
    CatalogState {
        tables: c.tables.remove(old_name).insert(
            new_name,
            TableView { name: new_name, ..c.tables[old_name] },
        ),
        indexes: retargeted(c.indexes, old_name, new_name),
        ..c
    }
}

fn retarget_indexes(indexes: &mut NameMap<IndexDef>, old_name: &str, new_name: &str)
    requires
        old(indexes).deep_wf(),
    ensures
        final(indexes).deep_wf(),
        final(indexes).deep() == retargeted(old(indexes).deep(), old_name@, new_name@),
{
    let ghost start = *indexes;
    let ghost goal = retargeted(start.deep(), old_name@, new_name@);
    let mut i: usize = 0;
    while i < indexes.keys.len()
        invariant
            i <= indexes.keys@.len(),
            start.deep_wf(),
            indexes.deep_wf(),
            indexes.keys@ == start.keys@,
            goal == retargeted(start.deep(), old_name@, new_name@),
            forall|j: int|
                0 <= j < i ==> (#[trigger] indexes.vals@[j])@ == goal[start.keys@[j]@],
            forall|j: int| i <= j < indexes.keys@.len() ==> #[trigger] indexes.vals@[j]
                == start.vals@[j],
        decreases indexes.keys@.len() - i,
    {
        let ghost before = *indexes;
        assert(before.vals@[i as int] == start.vals@[i as int]);
        proof {
            start.lemma_deep_entry(i as int);
        }
        if same(&indexes.vals[i].table_name, old_name) {
            let idx = indexes.at_mut(i);
            idx.table_name = new_name.to_owned();
            proof {
                NameMap::lemma_deep_update(&before, indexes, i as int);
            }
        }
        i += 1;
    }
    proof {
        assert forall|k: Seq<char>| #[trigger] goal.dom().contains(k) implies indexes.deep()[k]
            == goal[k] by {
            let j = key_pos(texts(start.keys@), k);
            assert(0 <= j < start.keys@.len() && texts(start.keys@)[j] == k);
            assert(start.keys@[j]@ == k);
            indexes.lemma_deep_entry(j);
        }
        assert(indexes.deep() =~= goal);
    }
}

impl Catalog {
    /// What a change of a table's name comes to.
    pub fn check_rename(&self, old_name: &str, new_name: &str) -> (r: Result<Check, String>)
        requires
            self.wf(),
        ensures
            checked(r) == rename_check(self@, old_name@, new_name@),
    {
        if same(old_name, new_name) {
            return Ok(Check::Done(concat3("Table '", old_name, "' already has that name.")));
        }
        if self.tables.contains_key(new_name) {
            return Err(concat3("Table '", new_name, "' already exists"));
        }
        let head = concat3("ALTER TABLE \"", old_name, "\" RENAME TO \"");
        Ok(Check::Go(concat3(&head, new_name, "\"")))
    }

    /// Gives a table another name, in the table's own entry and in those of its indexes. Nothing
    /// changes where the table is not there.
    pub fn handle_rename_table(&mut self, old_name: &str, new_name: &str) -> (r: Result<
        String,
        String,
    >)
        requires
            old(self).wf(),
        ensures
            final(self).wf(),
            if !old(self)@.tables.dom().contains(old_name@) {
                &&& answered(r) == Err::<Seq<char>, Seq<char>>(
                    "Table '"@ + old_name@ + "' does not exist"@,
                )
                &&& final(self)@ == old(self)@
                &&& final(self).dirty == old(self).dirty
                &&& final(self).in_transaction == old(self).in_transaction
            } else {
                &&& answered(r) == Ok::<Seq<char>, Seq<char>>(
                    "Table '"@ + old_name@ + "' renamed to '"@ + new_name@ + "'."@,
                )
                &&& saved(old(self), final(self))
                &&& final(self)@ == renamed(old(self)@, old_name@, new_name@)
            },
    {
        match self.tables.position(old_name) {
            None => Err(concat3("Table '", old_name, "' does not exist")),
            Some(i) => {
                let ghost before = self.tables;
                proof {
                    before.lemma_deep_entry(i as int);
                }
                let mut meta = self.tables.vals[i].dup();
                meta.name = new_name.to_owned();
                self.tables.take(old_name);
                self.tables.put(new_name.to_owned(), meta);
                retarget_indexes(&mut self.indexes, old_name, new_name);
                self.save();
                assert(self@ =~= renamed(old(self)@, old_name@, new_name@));
                let head = concat3("Table '", old_name, "' renamed to '");
                Ok(concat3(&head, new_name, "'."))
            },
        }
    }
}

// ---------------------------------------------------------------------------
// DROP TABLE and TRUNCATE
// ---------------------------------------------------------------------------

/// What `DROP TABLE` comes to.
pub open spec fn drop_table_check(c: CatalogState, name: Seq<char>, if_exists: bool) -> Result<
    CheckView,
    Seq<char>,
> {
    if c.tables.dom().contains(name) {
        Ok(
            CheckView::Go(
                if if_exists {
                    "DROP TABLE IF EXISTS \""@
                } else {
                    "DROP TABLE \""@
                } + name + "\""@,
            ),
        )
    } else if if_exists {
        Ok(CheckView::Done("Table '"@ + name + "' does not exist, skipping."@))
    } else {
        Err("Table '"@ + name + "' does not exist"@)
    }
}

impl Catalog {
    /// What `DROP TABLE` comes to.
    pub fn check_drop_table(&self, name: &str, if_exists: bool) -> (r: Result<Check, String>)
        requires
            self.wf(),
        ensures
            checked(r) == drop_table_check(self@, name@, if_exists),
    {
        if self.tables.contains_key(name) {
            let head = if if_exists {
                "DROP TABLE IF EXISTS \""
            } else {
                "DROP TABLE \""
            };
            return Ok(Check::Go(concat3(head, name, "\"")));
        }
        if if_exists {
            Ok(Check::Done(concat3("Table '", name, "' does not exist, skipping.")))
        } else {
            Err(concat3("Table '", name, "' does not exist"))
        }
    }

    /// Removes a table and its indexes. The table's entry is handed back with the answer: its storage
    /// is to be deleted.
    pub fn handle_drop_table(&mut self, name: &str) -> (r: Result<(String, TableMeta), String>)
        requires
            old(self).wf(),
        ensures
            final(self).wf(),
            saved(old(self), final(self)),
            final(self)@ == (CatalogState {
                tables: old(self)@.tables.remove(name@),
                indexes: indexes_without(old(self)@.indexes, name@),
                ..old(self)@
            }),
            match lookup(old(self)@.tables, name@) {
                None => r matches Err(e) && e@ == "Table '"@ + name@ + "' does not exist"@,
                Some(meta) => r matches Ok(p) && p.0@ == "Table '"@ + name@ + "' dropped."@
                    && p.1@ == meta,
            },
    {
        match self.remove_table(name) {
            None => Err(concat3("Table '", name, "' does not exist")),
            Some(meta) => Ok((concat3("Table '", name, "' dropped."), meta)),
        }
    }

    /// What `TRUNCATE` comes to: the text for the write-ahead log, and the answer once the files of
    /// the table are gone.
    pub fn plan_truncate(&self, table: &str) -> (r: Result<(String, String), String>)
        requires
            self.wf(),
        ensures
            match r {
                Ok(p) => {
                    &&& self@.tables.dom().contains(table@)
                    &&& p.0@ == "TRUNCATE TABLE \""@ + table@ + "\""@
                    &&& p.1@ == "Table '"@ + table@ + "' truncated."@
                },
                Err(e) => {
                    &&& !self@.tables.dom().contains(table@)
                    &&& e@ == "Table '"@ + table@ + "' does not exist"@
                },
            },
    {
        if !self.tables.contains_key(table) {
            return Err(concat3("Table '", table, "' does not exist"));
        }
        Ok(
            (
                concat3("TRUNCATE TABLE \"", table, "\""),
                concat3("Table '", table, "' truncated."),
            ),
        )
    }
}

// ---------------------------------------------------------------------------
// Laws
// ---------------------------------------------------------------------------

/// Giving a table another name and back leaves its entry as it was.
pub proof fn law_rename_back(c: CatalogState, old_name: Seq<char>, new_name: Seq<char>)
    requires
        c.tables.dom().contains(old_name),
        c.tables[old_name].name == old_name,
        !c.tables.dom().contains(new_name),
        old_name != new_name,
        forall|k: Seq<char>| #[trigger]
            c.indexes.dom().contains(k) ==> c.indexes[k].table_name != new_name,
    ensures
        renamed(renamed(c, old_name, new_name), new_name, old_name) == c,
{
    let once = renamed(c, old_name, new_name);
    let twice = renamed(once, new_name, old_name);
    assert(twice.tables =~= c.tables);
    assert(twice.indexes =~= c.indexes);
    assert(twice =~= c);
}

/// A table that is renamed keeps its columns, files, constraints and everything else but its name.
pub proof fn law_rename_keeps_the_table(c: CatalogState, old_name: Seq<char>, new_name: Seq<char>)
    requires
        c.tables.dom().contains(old_name),
    ensures
        renamed(c, old_name, new_name).tables[new_name] == (TableView {
            name: new_name,
            ..c.tables[old_name]
        }),
{
}

/// A column that was just added and is dropped again is gone, and the others are as before.
pub proof fn law_add_then_drop_column(cs: Seq<ColumnView>, col: ColumnView)
    requires
        !has_column(cs, col.name),
    ensures
        without_column(cs.push(col), col.name) == cs,
{
    assert(cs.push(col).drop_last() =~= cs);
    lemma_without_absent(cs, col.name);
}

proof fn lemma_without_absent(cs: Seq<ColumnView>, name: Seq<char>)
    requires
        !has_column(cs, name),
    ensures
        without_column(cs, name) == cs,
    decreases cs.len(),
{
    if cs.len() > 0 {
        let rest = cs.drop_last();
        assert(cs[cs.len() - 1].name != name);
        assert forall|i: int| 0 <= i < rest.len() implies (#[trigger] rest[i]).name != name by {
            assert(cs[i].name != name);
        }
        lemma_without_absent(rest, name);
        assert(rest.push(cs.last()) =~= cs);
    }
}

/// `CREATE TABLE` goes ahead exactly where there is no table of the name, and `DROP TABLE` exactly where
/// there is one. Else they are refused, or answered at once where the statement allows for it.
pub proof fn law_create_or_drop(c: CatalogState, t: NewTableView, if_exists: bool)
    ensures
        create_table_check(c, t) matches Ok(CheckView::Go(_)) <==> !c.tables.dom().contains(t.name),
        create_table_check(c, t) is Err <==> c.tables.dom().contains(t.name) && !t.if_not_exists,
        drop_table_check(c, t.name, if_exists) matches Ok(CheckView::Go(_))
            <==> c.tables.dom().contains(t.name),
        drop_table_check(c, t.name, if_exists) is Err <==> !c.tables.dom().contains(t.name)
            && !if_exists,
{
}

/// A renaming never takes the name of another table, and one to the same name changes nothing.
pub proof fn law_rename_takes_no_name(c: CatalogState, old_name: Seq<char>, new_name: Seq<char>)
    ensures
        rename_check(c, old_name, new_name) matches Ok(CheckView::Go(_)) <==> old_name != new_name
            && !c.tables.dom().contains(new_name),
        old_name == new_name ==> rename_check(c, old_name, new_name) matches Ok(CheckView::Done(_)),
{
}

/// Dropping a column leaves exactly the other columns, in their order.
pub proof fn law_drop_column_keeps_the_others(cs: Seq<ColumnView>, name: Seq<char>)
    ensures
        without_column(cs, name) == cs.filter(|c: ColumnView| c.name != name),
        !has_column(without_column(cs, name), name),
    decreases cs.len(),
{
    reveal(Seq::filter);
    if cs.len() > 0 {
        law_drop_column_keeps_the_others(cs.drop_last(), name);
    }
    let left = without_column(cs, name);
    assert forall|i: int| 0 <= i < left.len() implies (#[trigger] left[i]).name != name by {
        cs.lemma_filter_pred(|c: ColumnView| c.name != name, i);
    }
}

/// What one operation does to the columns of a table. An added column comes last and has no namesake. A
/// dropped column leaves the others. A renamed column keeps its place and its type, and the other
/// columns stay.
pub proof fn law_alter_touches_one_column(table: Seq<char>, cs: Seq<ColumnView>, op: AlterOpView)
    ensures
        altered_once(table, cs, op) matches Ok(p) ==> {
            ||| p.0 == cs
            ||| op matches AlterOpView::AddColumn { column, .. } && p.0 == cs.push(
                defined_column(column),
            ) && !has_column(cs, column.name)
            ||| op matches AlterOpView::DropColumn { names, .. } && names.len() > 0 && p.0
                == cs.filter(|c: ColumnView| c.name != names[0])
            ||| op matches AlterOpView::DropColumn { names, .. } && names.len() == 0
            ||| op matches AlterOpView::RenameColumn { old_name, new_name } && exists|i: int|
                0 <= i < cs.len() && (#[trigger] cs[i]).name == old_name && p.0.len() == cs.len()
                    && p.0[i] == (ColumnView { name: new_name, ..cs[i] }) && forall|j: int|
                    0 <= j < cs.len() && j != i ==> #[trigger] p.0[j] == cs[j]
        },
        op matches AlterOpView::AddColumn { column, if_not_exists } ==> (altered_once(
            table,
            cs,
            op,
        ) is Err <==> has_column(cs, column.name) && !if_not_exists),
        op matches AlterOpView::RenameColumn { old_name, .. } ==> (altered_once(table, cs, op) is Ok
            <==> has_column(cs, old_name)),
        op is Other ==> altered_once(table, cs, op) is Err,
{
    match op {
        AlterOpView::DropColumn { names, .. } => {
            if names.len() > 0 {
                law_drop_column_keeps_the_others(cs, names[0]);
            }
        },
        AlterOpView::RenameColumn { old_name, new_name } => {
            lemma_first_column_is_it(cs, old_name, cs.len());
            if let Some(i) = first_column(cs, old_name, cs.len()) {
                let after = cs.update(i, ColumnView { name: new_name, ..cs[i] });
                assert(cs[i].name == old_name);
                assert(altered_once(table, cs, op)->Ok_0.0 == after);
            }
        },
        _ => {},
    }
}

proof fn lemma_first_column_is_it(cs: Seq<ColumnView>, name: Seq<char>, n: nat)
    requires
        n <= cs.len(),
    ensures
        match first_column(cs, name, n) {
            Some(i) => 0 <= i < n && cs[i].name == name,
            None => forall|j: int| 0 <= j < n ==> (#[trigger] cs[j]).name != name,
        },
    decreases n,
{
    if n > 0 {
        lemma_first_column_is_it(cs, name, (n - 1) as nat);
    }
}

/// The operations of a statement are done in order, and none is done behind one that fails.
pub proof fn law_alter_stops_at_a_failure(
    table: Seq<char>,
    cs: Seq<ColumnView>,
    ops: Seq<AlterOpView>,
    n: nat,
)
    requires
        n < ops.len(),
    ensures
        ({
            let before = altered(table, cs, ops, n);
            let after = altered(table, cs, ops, n + 1);
            &&& before.error is Some ==> after == before
            &&& after.error is Some ==> after.columns == before.columns && after.messages
                == before.messages
            &&& after.error is None ==> after.messages.len() == n + 1 && altered_once(
                table,
                before.columns,
                ops[n as int],
            ) == Ok::<(Seq<ColumnView>, Seq<char>), Seq<char>>(
                (after.columns, after.messages.last()),
            )
        }),
{
    lemma_altered_messages(table, cs, ops, n);
}

proof fn lemma_altered_messages(
    table: Seq<char>,
    cs: Seq<ColumnView>,
    ops: Seq<AlterOpView>,
    n: nat,
)
    requires
        n <= ops.len(),
    ensures
        altered(table, cs, ops, n).error is None ==> altered(table, cs, ops, n).messages.len() == n,
    decreases n,
{
    if n > 0 {
        lemma_altered_messages(table, cs, ops, (n - 1) as nat);
    }
}

/// What an `ALTER TABLE` is about: a table that is not there is refused or left out, a renaming is one,
/// then a retention, and anything else is about the columns.
pub proof fn law_alter_paths(c: CatalogState, table: Seq<char>, if_exists: bool, sql: Seq<char>)
    ensures
        !c.tables.dom().contains(table) ==> (alter_path(c, table, if_exists, sql) is Err <==> !if_exists),
        !c.tables.dom().contains(table) && if_exists ==> alter_path(c, table, if_exists, sql)
            matches Ok(AlterPathView::Skip { .. }),
        c.tables.dom().contains(table) && rename_names(sql) is Some ==> alter_path(
            c,
            table,
            if_exists,
            sql,
        ) == Ok::<AlterPathView, Seq<char>>(
            AlterPathView::Rename {
                old_name: (rename_names(sql)->0).0,
                new_name: (rename_names(sql)->0).1,
            },
        ),
        c.tables.dom().contains(table) && rename_names(sql) is None && retention_setting(
            sql,
            lower_text(sql),
        ) is None ==> alter_path(c, table, if_exists, sql) == Ok::<AlterPathView, Seq<char>>(
            AlterPathView::Columns,
        ),
        c.tables.dom().contains(table) && rename_names(sql) is None && retention_setting(
            sql,
            lower_text(sql),
        ) == Some(None::<nat>) ==> alter_path(c, table, if_exists, sql) == Ok::<
            AlterPathView,
            Seq<char>,
        >(AlterPathView::Retention { seconds: None }),
{
}

/// Changing the columns of a table changes nothing else of it, and no other table.
pub proof fn law_columns_alone_change(
    c: CatalogState,
    table: Seq<char>,
    columns: Seq<ColumnView>,
    other: Seq<char>,
)
    requires
        other != table,
    ensures
        lookup(with_columns(c, table, columns).tables, other) == lookup(c.tables, other),
        with_columns(c, table, columns).tables[table].columns == columns,
        with_columns(c, table, columns).tables[table].constraints == c.tables[table].constraints,
        with_columns(c, table, columns).indexes == c.indexes,
{
}

/// The indexes of a renamed table are indexes of the table under its new name, and the others stay.
pub proof fn law_rename_takes_the_indexes_along(
    c: CatalogState,
    old_name: Seq<char>,
    new_name: Seq<char>,
    k: Seq<char>,
)
    ensures
        renamed(c, old_name, new_name).indexes.dom().contains(k) <==> c.indexes.dom().contains(k),
        c.indexes.dom().contains(k) && c.indexes[k].table_name == old_name ==> renamed(
            c,
            old_name,
            new_name,
        ).indexes[k] == (crate::catalog_types::IndexView { table_name: new_name, ..c.indexes[k] }),
        c.indexes.dom().contains(k) && c.indexes[k].table_name != old_name ==> renamed(
            c,
            old_name,
            new_name,
        ).indexes[k] == c.indexes[k],
        old_name != new_name ==> !renamed(c, old_name, new_name).tables.dom().contains(old_name),
        renamed(c, old_name, new_name).tables[new_name].name == new_name,
        renamed(c, old_name, new_name).tables[new_name].columns == c.tables[old_name].columns,
{
}

} // verus!
