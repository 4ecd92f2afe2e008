//! `DELETE` and `UPDATE`: the queries by which a table is written anew.
//!
//! Both copy on write: the rows that stay, or the changed rows, are selected and take the place of
//! the table's files.
use vstd::prelude::*;
use vstd::string::*;

use crate::catalog::{lookup, Catalog, CatalogState};
use crate::catalog_types::{
    ColumnDef, ColumnView, ConstraintView, TableConstraint, TableView, TriggerView,
};
use crate::cells::{literal, sql_literal, Cell, CellView};
use crate::dup::{opt_view, views, Dup};
use crate::meaning::{self, Frame, Phrase, Query, Value, World};
use crate::namemap::NameMap;
use crate::numbers::{decimal, decimal_signed, print_i64, print_usize};
use crate::outcome::answered;
use crate::statement::{
    parsed_assignments, parsed_delete, parsed_update, read_assignments, read_delete, read_update,
    DeleteHead, DeleteHeadView, ParsedAssignment, ParsedAssignmentView, UpdateHead, UpdateHeadView,
};
use crate::text::{
    concat2, concat3, join, joined, opt_text, same, texts, trim_matches, trim_matches_text,
    upper_text,
};

verus! {

// ---------------------------------------------------------------------------
// Triggers
// ---------------------------------------------------------------------------

/// The bodies of the triggers among the first `n` that fire for a table, an event and a timing.
pub open spec fn fired(
    names: Seq<Seq<char>>,
    m: Map<Seq<char>, TriggerView>,
    table: Seq<char>,
    event: Seq<char>,
    timing: Seq<char>,
    n: nat,
) -> Seq<Seq<char>>
    decreases n,
{
    if n == 0 || n > names.len() {
        Seq::empty()
    } else {
        let rest = fired(names, m, table, event, timing, (n - 1) as nat);
        let t = m[names[n - 1]];
        if t.table == table && t.event == event && t.timing == timing {
            rest.push(t.body)
        } else {
            rest
        }
    }
}

impl Catalog {
    /// The statements that the triggers of a table run for an event, before it or after it.
    pub fn trigger_bodies(&self, table: &str, event: &str, timing: &str) -> (r: Vec<String>)
        requires
            self.wf(),
        ensures
            texts(r@) == fired(
                self.triggers.names(),
                self@.triggers,
                table@,
                event@,
                timing@,
                self.triggers.names().len(),
            ),
    {
        let mut out: Vec<String> = Vec::new();
        let ghost names = self.triggers.names();
        let ghost m = self.triggers.deep();
        let mut i: usize = 0;
        assert(texts(out@) =~= Seq::<Seq<char>>::empty());
        while i < self.triggers.keys.len()
            invariant
                i <= self.triggers.keys@.len(),
                self.triggers.deep_wf(),
                names == self.triggers.names(),
                m == self.triggers.deep(),
                names.len() == self.triggers.keys@.len(),
                texts(out@) == fired(names, m, table@, event@, timing@, i as nat),
            decreases self.triggers.keys@.len() - i,
        {
            assert(names[i as int] == self.triggers.keys@[i as int]@);
            proof {
                self.triggers.lemma_deep_entry(i as int);
            }
            let ghost done = out@;
            let t = &self.triggers.vals[i];
            if same(&t.table, table) && same(&t.event, event) && same(&t.timing, timing) {
                out.push(t.body.clone());
                assert(texts(out@) =~= texts(done).push(t@.body));
            }
            i += 1;
        }
        out
    }

    /// Forgets the rows of a table that were marked as deleted, once its files were written anew.
    pub fn clear_deletions(&mut self, table: &str)
        requires
            old(self).wf(),
        ensures
            final(self).wf(),
            final(self).dirty == old(self).dirty,
            final(self).in_transaction == old(self).in_transaction,
            final(self)@ == match lookup(old(self)@.tables, table@) {
                None => old(self)@,
                Some(meta) => (CatalogState {
                    tables: old(self)@.tables.insert(
                        table@,
                        TableView { deletion_vectors: Seq::empty(), ..meta },
                    ),
                    ..old(self)@
                }),
            },
    {
        match self.tables.position(table) {
            None => {},
            Some(i) => {
                let ghost before = self.tables;
                proof {
                    before.lemma_deep_entry(i as int);
                }
                let meta = self.tables.at_mut(i);
                meta.deletion_vectors = Vec::new();
                proof {
                    assert(views(self.tables.vals@[i as int].deletion_vectors@)
                        =~= Seq::<crate::catalog_types::DeletionView>::empty());
                    NameMap::lemma_deep_update(&before, &self.tables, i as int);
                }
            },
        }
    }
}

// ---------------------------------------------------------------------------
// DELETE
// ---------------------------------------------------------------------------

/// What happens to the rows of another table when the rows that they refer to are deleted.
pub struct KeyAction {
    pub child: String,
    /// The column of the child that refers to the table.
    pub fk_col: String,
    /// The column of the table that it refers to.
    pub ref_col: String,
    pub on_delete: String,
}

/// What a [`KeyAction`] says.
pub struct KeyActionView {
    pub child: Seq<char>,
    pub fk_col: Seq<char>,
    pub ref_col: Seq<char>,
    pub on_delete: Seq<char>,
}

impl View for KeyAction {
    type V = KeyActionView;

    open spec fn view(&self) -> KeyActionView {
        KeyActionView {
            child: self.child@,
            fk_col: self.fk_col@,
            ref_col: self.ref_col@,
            on_delete: self.on_delete@,
        }
    }
}

/// What a constraint of another table says of rows that refer to a table. Keys of more than one
/// column are left out.
pub open spec fn action_of(child: Seq<char>, c: ConstraintView, table: Seq<char>) -> Option<
    KeyActionView,
> {
    match c {
        ConstraintView::ForeignKey { name, columns, ref_table, ref_columns, on_delete, on_update } => if ref_table
            == table && columns.len() == 1 && ref_columns.len() == 1 {
            Some(
                KeyActionView {
                    child,
                    fk_col: columns[0],
                    ref_col: ref_columns[0],
                    on_delete: match on_delete {
                        Some(a) => a,
                        None => "RESTRICT"@,
                    },
                },
            )
        } else {
            None
        },
        _ => None,
    }
}

/// What the first `n` constraints of another table say of rows that refer to a table.
pub open spec fn actions_of(
    child: Seq<char>,
    cs: Seq<ConstraintView>,
    table: Seq<char>,
    n: nat,
) -> Seq<KeyActionView>
    decreases n,
{
    if n == 0 || n > cs.len() {
        Seq::empty()
    } else {
        let rest = actions_of(child, cs, table, (n - 1) as nat);
        match action_of(child, cs[n - 1], table) {
            Some(a) => rest.push(a),
            None => rest,
        }
    }
}

/// What the first `n` tables say of rows that refer to a table.
pub open spec fn all_actions(
    names: Seq<Seq<char>>,
    m: Map<Seq<char>, TableView>,
    table: Seq<char>,
    n: nat,
) -> Seq<KeyActionView>
    decreases n,
{
    if n == 0 || n > names.len() {
        Seq::empty()
    } else {
        let k = names[n - 1];
        all_actions(names, m, table, (n - 1) as nat) + actions_of(
            k,
            m[k].constraints,
            table,
            m[k].constraints.len(),
        )
    }
}

/// The condition of a `DELETE` or `UPDATE`; without one every row is meant.
pub open spec fn condition(selection: Option<Seq<char>>) -> Seq<char> {
    match selection {
        Some(e) => e,
        None => "TRUE"@,
    }
}

/// What `DELETE` is to do, beyond the tables that refer to its table.
pub struct DeletePlan {
    pub table: String,
    /// The text for the write-ahead log.
    pub log: String,
    /// The condition of the rows that go.
    pub filter: String,
    /// What the tables say that refer to the table.
    pub actions: Vec<KeyAction>,
    /// The query that counts the rows of the table.
    pub count_sql: String,
    /// The query that selects the rows that stay: those for which the condition is false, and those for
/// which it is null.
    pub select_sql: String,
    /// The query that selects what is returned of the rows that go.
    pub returning_sql: Option<String>,
}

/// The query that selects the rows that stay.
pub open spec fn survivors_sql(t: Seq<char>, selection: Option<Seq<char>>) -> Seq<char> {
    "SELECT * FROM \""@ + t + "\" "@ + match selection {
        Some(e) => "WHERE ("@ + e + ") IS NOT TRUE"@,
        None => "WHERE FALSE"@,
    }
}

/// The query that selects what is returned of the rows that go.
pub open spec fn deleted_sql(t: Seq<char>, clause: Seq<char>, selection: Option<Seq<char>>) -> Seq<char> {
    "SELECT "@ + clause + " FROM \""@ + t + "\" "@ + match selection {
        Some(e) => "WHERE "@ + e,
        None => ""@,
    }
}

/// Whether a plan is the one of a `DELETE` from a table.
pub open spec fn deletes(
    p: DeletePlan,
    before: &Catalog,
    t: Seq<char>,
    h: DeleteHeadView,
    clause: Option<Seq<char>>,
) -> bool {
    &&& p.table@ == t
    &&& p.log@ == h.text
    &&& p.filter@ == condition(h.selection)
    &&& views(p.actions@) == all_actions(
        before.tables.names(),
        before@.tables,
        t,
        before.tables.names().len(),
    )
    &&& p.count_sql@ == "SELECT COUNT(*) AS c FROM \""@ + t + "\""@
    &&& p.select_sql@ == survivors_sql(t, h.selection)
    &&& opt_text(p.returning_sql) == match clause {
        Some(c) => Some(deleted_sql(t, c, h.selection)),
        None => None,
    }
}

/// The `DELETE` of a text.
pub fn parse_delete(sql: &str) -> (r: Option<DeleteHead>)
    ensures
        opt_view(r) == parsed_delete(sql@),
{
    read_delete(sql)
}

/// The table of a `DELETE`.
pub fn extract_delete_table_name(h: &DeleteHead) -> (r: Result<String, String>)
    ensures
        answered(r) == if h@.tables.len() == 0 {
            Err::<Seq<char>, Seq<char>>("DELETE requires a FROM clause"@)
        } else {
            Ok(h@.tables[0])
        },
{
    assert(texts(h.tables@).len() == h.tables@.len());
    if h.tables.len() == 0 {
        return Err("DELETE requires a FROM clause".to_owned());
    }
    assert(texts(h.tables@)[0] == h.tables@[0]@);
    Ok(h.tables[0].clone())
}

fn write_condition(selection: &Option<String>) -> (r: String)
    ensures
        r@ == condition(opt_text(*selection)),
{
    match selection {
        Some(e) => e.clone(),
        None => "TRUE".to_owned(),
    }
}

fn read_action(child: &str, c: &TableConstraint, table: &str) -> (r: Option<KeyAction>)
    ensures
        opt_view(r) == action_of(child@, c@, table@),
{
    match c {
        TableConstraint::ForeignKey { columns, ref_table, ref_columns, on_delete, .. } => {
            assert(texts(columns@).len() == columns@.len());
            assert(texts(ref_columns@).len() == ref_columns@.len());
            if !same(ref_table, table) || columns.len() != 1 || ref_columns.len() != 1 {
                return None;
            }
            assert(texts(columns@)[0] == columns@[0]@);
            assert(texts(ref_columns@)[0] == ref_columns@[0]@);
            let action: String = match on_delete {
                Some(a) => a.clone(),
                None => "RESTRICT".to_owned(),
            };
            Some(
                KeyAction {
                    child: child.to_owned(),
                    fk_col: columns[0].clone(),
                    ref_col: ref_columns[0].clone(),
                    on_delete: action,
                },
            )
        },
        _ => None,
    }
}

fn read_actions(child: &str, cs: &Vec<TableConstraint>, table: &str, out: &mut Vec<KeyAction>)
    ensures
        views(final(out)@) == views(old(out)@) + actions_of(
            child@,
            views(cs@),
            table@,
            views(cs@).len(),
        ),
{
    let ghost start = views(out@);
    let ghost cv = views(cs@);
    let mut i: usize = 0;
    assert(views(out@) =~= start + actions_of(child@, cv, table@, 0));
    while i < cs.len()
        invariant
            i <= cs@.len(),
            cv == views(cs@),
            cv.len() == cs@.len(),
            views(out@) == start + actions_of(child@, cv, table@, i as nat),
        decreases cs@.len() - i,
    {
        assert(cv[i as int] == cs@[i as int]@);
        let ghost done = out@;
        match read_action(child, &cs[i], table) {
            Some(a) => {
                let ghost av = a@;
                out.push(a);
                assert(views(out@) =~= views(done).push(av));
            },
            None => {},
        }
        assert(views(out@) =~= start + actions_of(child@, cv, table@, (i + 1) as nat));
        i += 1;
    }
}

impl Catalog {
    /// What the tables say that refer to a table.
    pub fn key_actions(&self, table: &str) -> (r: Vec<KeyAction>)
        requires
            self.wf(),
        ensures
            views(r@) == all_actions(
                self.tables.names(),
                self@.tables,
                table@,
                self.tables.names().len(),
            ),
    {
        let mut out: Vec<KeyAction> = Vec::new();
        let ghost names = self.tables.names();
        let ghost m = self.tables.deep();
        let mut i: usize = 0;
        assert(views(out@) =~= all_actions(names, m, table@, 0));
        while i < self.tables.keys.len()
            invariant
                i <= self.tables.keys@.len(),
                self.tables.deep_wf(),
                names == self.tables.names(),
                m == self.tables.deep(),
                names.len() == self.tables.keys@.len(),
                views(out@) == all_actions(names, m, table@, i as nat),
            decreases self.tables.keys@.len() - i,
        {
            assert(names[i as int] == self.tables.keys@[i as int]@);
            proof {
                self.tables.lemma_deep_entry(i as int);
            }
            read_actions(&self.tables.keys[i], &self.tables.vals[i].constraints, table, &mut out);
            i += 1;
        }
        out
    }

    /// What `DELETE` is to do, given the clause behind `RETURNING`. A table that is not there is
    /// refused.
    pub fn plan_delete(&self, h: &DeleteHead, returning: &Option<String>) -> (r: Result<
        DeletePlan,
        String,
    >)
        requires
            self.wf(),
        ensures
            if h@.tables.len() == 0 {
                r matches Err(e) && e@ == "DELETE requires a FROM clause"@
            } else if !self@.tables.dom().contains(h@.tables[0]) {
                r matches Err(e) && e@ == "Table '"@ + h@.tables[0] + "' does not exist"@
            } else {
                r matches Ok(p) && deletes(p, self, h@.tables[0], h@, opt_text(*returning))
            },
    {
        let table = match extract_delete_table_name(h) {
            Err(e) => {
                return Err(e);
            },
            Ok(t) => t,
        };
        if !self.tables.contains_key(&table) {
            return Err(concat3("Table '", &table, "' does not exist"));
        }
        let from = concat3("SELECT * FROM \"", &table, "\" ");
        let select_sql = match &h.selection {
            Some(e) => concat2(&from, &concat3("WHERE (", e, ") IS NOT TRUE")),
            None => concat2(&from, "WHERE FALSE"),
        };
        let returning_sql: Option<String> = match returning {
            Some(c) => {
                let head = concat3("SELECT ", c, " FROM \"");
                let with_table = concat3(&head, &table, "\" ");
                match &h.selection {
                    Some(e) => Some(concat2(&with_table, &concat2("WHERE ", e))),
                    None => Some(concat2(&with_table, "")),
                }
            },
            None => None,
        };
        let actions = self.key_actions(&table);
        Ok(
            DeletePlan {
                log: h.text.clone(),
                filter: write_condition(&h.selection),
                actions,
                count_sql: concat3("SELECT COUNT(*) AS c FROM \"", &table, "\""),
                select_sql,
                returning_sql,
                table,
            },
        )
    }
}

/// The query that selects the values of a column that are about to go.
pub open spec fn key_values_sql(t: Seq<char>, a: KeyActionView, filter: Seq<char>) -> Seq<char> {
    "SELECT DISTINCT \""@ + a.ref_col + "\" FROM \""@ + t + "\" WHERE ("@ + filter + ") AND \""@
        + a.ref_col + "\" IS NOT NULL"@
}

/// The query that counts the rows of another table that refer to the values.
pub open spec fn references_sql(a: KeyActionView, keys: Seq<char>) -> Seq<char> {
    "SELECT COUNT(*) AS c FROM \""@ + a.child + "\" WHERE \""@ + a.fk_col + "\" IN ("@ + keys
        + ")"@
}

/// The literals of a list of values.
pub open spec fn key_literals(cells: Seq<CellView>) -> Seq<Seq<char>> {
    Seq::new(cells.len(), |i: int| literal(cells[i]))
}

/// The query that selects the values of a column that are about to go.
pub fn select_key_values(table: &str, a: &KeyAction, filter: &str) -> (r: String)
    ensures
        r@ == key_values_sql(table@, a@, filter@),
{
    let head = concat3("SELECT DISTINCT \"", &a.ref_col, "\" FROM \"");
    let from = concat3(&head, table, "\" WHERE (");
    let cond = concat3(&from, filter, ") AND \"");
    concat3(&cond, &a.ref_col, "\" IS NOT NULL")
}

/// The values that are about to go, as they stand in a statement; `None` where there are none.
pub fn list_keys(cells: &Vec<Cell>) -> (r: Option<String>)
    ensures
        opt_text(r) == if cells@.len() == 0 {
            None
        } else {
            Some(joined(key_literals(views(cells@)), ", "@))
        },
{
    if cells.len() == 0 {
        return None;
    }
    let mut out: Vec<String> = Vec::new();
    let mut i: usize = 0;
    while i < cells.len()
        invariant
            i <= cells@.len(),
            out@.len() == i,
            forall|j: int| 0 <= j < i ==> (#[trigger] out@[j])@ == literal(cells@[j]@),
        decreases cells@.len() - i,
    {
        out.push(sql_literal(&cells[i]));
        i += 1;
    }
    assert(texts(out@) =~= key_literals(views(cells@)));
    Some(join(&out, ", "))
}

/// The query that counts the rows of another table that refer to the values.
pub fn count_references(a: &KeyAction, keys: &str) -> (r: String)
    ensures
        r@ == references_sql(a@, keys@),
{
    let head = concat3("SELECT COUNT(*) AS c FROM \"", &a.child, "\" WHERE \"");
    let col = concat3(&head, &a.fk_col, "\" IN (");
    concat3(&col, keys, ")")
}

/// What a column of the child is written anew from when its reference is set to null.
pub open spec fn nulled_column(a: KeyActionView, keys: Seq<char>, col: Seq<char>) -> Seq<char> {
    if col == a.fk_col {
        "CASE WHEN \""@ + a.fk_col + "\" IN ("@ + keys + ") THEN NULL ELSE \""@ + a.fk_col
            + "\" END AS \""@ + a.fk_col + "\""@
    } else {
        "\""@ + col + "\""@
    }
}

/// What each column of the child is written anew from.
pub open spec fn nulled_columns(a: KeyActionView, keys: Seq<char>, cs: Seq<ColumnView>) -> Seq<
    Seq<char>,
> {
    Seq::new(cs.len(), |i: int| nulled_column(a, keys, cs[i].name))
}

/// The query by which the child is written anew before the rows go that it refers to, the complaint
/// where they may not go, or nothing where no row refers to them.
pub open spec fn reference_outcome(
    c: CatalogState,
    t: Seq<char>,
    a: KeyActionView,
    keys: Seq<char>,
    refs: i64,
) -> Result<Option<Seq<char>>, Seq<char>> {
    if refs <= 0 {
        Ok(None)
    } else if upper_text(a.on_delete) == "CASCADE"@ {
        Ok(
            Some(
                "SELECT * FROM \""@ + a.child + "\" WHERE NOT (\""@ + a.fk_col + "\" IN ("@ + keys
                    + "))"@,
            ),
        )
    } else if upper_text(a.on_delete) == "SET NULL"@ {
        match lookup(c.tables, a.child) {
            None => Err("Table '"@ + a.child + "' does not exist"@),
            Some(meta) => Ok(
                Some(
                    "SELECT "@ + joined(nulled_columns(a, keys, meta.columns), ", "@) + " FROM \""@
                        + a.child + "\""@,
                ),
            ),
        }
    } else {
        Err(
            "FOREIGN KEY RESTRICT violation on '"@ + t + "' referenced by '"@ + a.child + "'"@,
        )
    }
}

fn write_nulled_columns(a: &KeyAction, keys: &str, cs: &Vec<ColumnDef>) -> (r: Vec<String>)
    ensures
        texts(r@) == nulled_columns(a@, keys@, views(cs@)),
{
    let mut out: Vec<String> = Vec::new();
    let mut i: usize = 0;
    while i < cs.len()
        invariant
            i <= cs@.len(),
            out@.len() == i,
            forall|j: int|
                0 <= j < i ==> (#[trigger] out@[j])@ == nulled_column(a@, keys@, cs@[j]@.name),
        decreases cs@.len() - i,
    {
        let piece = if same(&cs[i].name, &a.fk_col) {
            let head = concat3("CASE WHEN \"", &a.fk_col, "\" IN (");
            let when = concat3(&head, keys, ") THEN NULL ELSE \"");
            let other = concat3(&when, &a.fk_col, "\" END AS \"");
            concat3(&other, &a.fk_col, "\"")
        } else {
            concat3("\"", &cs[i].name, "\"")
        };
        out.push(piece);
        i += 1;
    }
    assert(texts(out@) =~= nulled_columns(a@, keys@, views(cs@)));
    out
}

impl Catalog {
    /// The query by which the child is written anew before the rows go that it refers to, the
    /// complaint where they may not go, or nothing where no row refers to them.
    pub fn decide_references(&self, table: &str, a: &KeyAction, keys: &str, refs: i64) -> (r:
        Result<Option<String>, String>)
        requires
            self.wf(),
        ensures
            match r {
                Ok(q) => reference_outcome(self@, table@, a@, keys@, refs) == Ok::<
                    Option<Seq<char>>,
                    Seq<char>,
                >(opt_text(q)),
                Err(e) => reference_outcome(self@, table@, a@, keys@, refs) == Err::<
                    Option<Seq<char>>,
                    Seq<char>,
                >(e@),
            },
    {
        if refs <= 0 {
            return Ok(None);
        }
        let action = a.on_delete.to_uppercase();
        if same(&action, "CASCADE") {
            let head = concat3("SELECT * FROM \"", &a.child, "\" WHERE NOT (\"");
            let col = concat3(&head, &a.fk_col, "\" IN (");
            return Ok(Some(concat3(&col, keys, "))")));
        }
        if same(&action, "SET NULL") {
            return match self.tables.lookup(&a.child) {
                None => Err(concat3("Table '", &a.child, "' does not exist")),
                Some(meta) => {
                    let list = join(&write_nulled_columns(a, keys, &meta.columns), ", ");
                    let head = concat3("SELECT ", &list, " FROM \"");
                    Ok(Some(concat3(&head, &a.child, "\"")))
                },
            };
        }
        let head = concat3("FOREIGN KEY RESTRICT violation on '", table, "' referenced by '");
        Err(concat3(&head, &a.child, "'"))
    }
}

/// How many rows were deleted, and the answer.
pub fn delete_message(old_count: i64, new_count: usize) -> (r: (usize, String))
    requires
        new_count <= old_count <= usize::MAX,
    ensures
        r.0 == old_count - new_count,
        r.1@ == decimal((old_count - new_count) as nat) + " row(s) deleted."@,
{
    let deleted: usize = old_count as usize - new_count;
    (deleted, concat2(&print_usize(deleted), " row(s) deleted."))
}

// ---------------------------------------------------------------------------
// UPDATE
// ---------------------------------------------------------------------------

/// The column that an assignment is about: the last of its targets, without quotes.
pub open spec fn assigned_column(a: ParsedAssignmentView) -> Seq<char> {
    trim_matches_text(
        if a.targets.len() == 0 {
            Seq::empty()
        } else {
            a.targets.last()
        },
        '"',
    )
}

/// The value of the first of the first `n` assignments that is about a column.
pub open spec fn assigned_value(assignments: Seq<ParsedAssignmentView>, col: Seq<char>, n: nat) -> Option<
    Seq<char>,
>
    decreases n,
{
    if n == 0 || n > assignments.len() {
        None
    } else {
        match assigned_value(assignments, col, (n - 1) as nat) {
            Some(v) => Some(v),
            None => if assigned_column(assignments[n - 1]) == col {
                Some(assignments[n - 1].value)
            } else {
                None
            },
        }
    }
}

/// What a column is written anew from.
pub open spec fn updated_column(c: ColumnView, value: Option<Seq<char>>, filter: Seq<char>) -> Seq<
    char,
> {
    match value {
        Some(v) => "CASE WHEN ("@ + filter + ") THEN CAST(("@ + v + ") AS "@ + c.data_type
            + ") ELSE \""@ + c.name + "\" END AS \""@ + c.name + "\""@,
        None => "\""@ + c.name + "\""@,
    }
}

/// What each column of a table is written anew from.
pub open spec fn updated_columns(
    cs: Seq<ColumnView>,
    assignments: Seq<ParsedAssignmentView>,
    filter: Seq<char>,
) -> Seq<Seq<char>> {
    Seq::new(
        cs.len(),
        |i: int|
            updated_column(
                cs[i],
                assigned_value(assignments, cs[i].name, assignments.len()),
                filter,
            ),
    )
}

/// An `UPDATE` as the parser reads it.
pub struct UpdateStatement {
    pub head: UpdateHead,
    pub assignments: Vec<ParsedAssignment>,
}

/// The `UPDATE` of a text.
pub fn parse_update(sql: &str) -> (r: Option<UpdateStatement>)
    ensures
        match r {
            None => parsed_update(sql@) is None || parsed_assignments(sql@) is None,
            Some(u) => parsed_update(sql@) == Some(u.head@) && parsed_assignments(sql@) == Some(
                views(u.assignments@),
            ),
        },
{
    match (read_update(sql), read_assignments(sql)) {
        (Some(head), Some(assignments)) => Some(UpdateStatement { head, assignments }),
        _ => None,
    }
}

proof fn lemma_assigned_value(assignments: Seq<ParsedAssignmentView>, col: Seq<char>, i: nat, n: nat)
    requires
        i <= n <= assignments.len(),
        assigned_value(assignments, col, i) is Some,
    ensures
        assigned_value(assignments, col, n) == assigned_value(assignments, col, i),
    decreases n - i,
{
    if i < n {
        lemma_assigned_value(assignments, col, i, (n - 1) as nat);
    }
}

/// The column that an assignment is about: the last of its targets, without quotes.
pub fn column_of_assignment(a: &ParsedAssignment) -> (r: String)
    ensures
        r@ == assigned_column(a@),
{
    assert(texts(a.targets@).len() == a.targets@.len());
    if a.targets.len() == 0 {
        proof {
            reveal_strlit("");
            assert(""@ =~= Seq::<char>::empty());
        }
        return trim_matches("", '"');
    }
    let n: usize = a.targets.len();
    assert(texts(a.targets@)[n - 1] == a.targets@[n - 1]@);
    trim_matches(&a.targets[n - 1], '"')
}

fn find_value(assignments: &Vec<ParsedAssignment>, col: &str) -> (r: Option<String>)
    ensures
        opt_text(r) == assigned_value(views(assignments@), col@, views(assignments@).len()),
{
    let ghost av = views(assignments@);
    let mut i: usize = 0;
    while i < assignments.len()
        invariant
            i <= assignments@.len(),
            av == views(assignments@),
            av.len() == assignments@.len(),
            assigned_value(av, col@, i as nat) is None,
        decreases assignments@.len() - i,
    {
        assert(av[i as int] == assignments@[i as int]@);
        if same(&column_of_assignment(&assignments[i]), col) {
            proof {
                assert(assigned_value(av, col@, (i + 1) as nat) == Some(av[i as int].value));
                lemma_assigned_value(av, col@, (i + 1) as nat, av.len());
            }
            return Some(assignments[i].value.clone());
        }
        i += 1;
    }
    None
}

fn write_updated_columns(
    cs: &Vec<ColumnDef>,
    assignments: &Vec<ParsedAssignment>,
    filter: &str,
) -> (r: Vec<String>)
    ensures
        texts(r@) == updated_columns(views(cs@), views(assignments@), filter@),
{
    let ghost av = views(assignments@);
    let mut out: Vec<String> = Vec::new();
    let mut i: usize = 0;
    while i < cs.len()
        invariant
            i <= cs@.len(),
            out@.len() == i,
            av == views(assignments@),
            forall|j: int|
                0 <= j < i ==> (#[trigger] out@[j])@ == updated_column(
                    cs@[j]@,
                    assigned_value(av, cs@[j]@.name, av.len()),
                    filter@,
                ),
        decreases cs@.len() - i,
    {
        let piece = match find_value(assignments, &cs[i].name) {
            Some(v) => {
                let head = concat3("CASE WHEN (", filter, ") THEN CAST((");
                let cast = concat3(&head, &v, ") AS ");
                let other = concat3(&cast, &cs[i].data_type, ") ELSE \"");
                let end = concat3(&other, &cs[i].name, "\" END AS \"");
                concat3(&end, &cs[i].name, "\"")
            },
            None => concat3("\"", &cs[i].name, "\""),
        };
        out.push(piece);
        i += 1;
    }
    assert(texts(out@) =~= updated_columns(views(cs@), av, filter@));
    out
}

/// What `UPDATE` is to do.
pub struct UpdatePlan {
    pub table: String,
    /// The query that counts the rows that change.
    pub count_sql: String,
    /// The query that selects the rows of the table as they are to be.
    pub rewrite_sql: String,
    /// The query that selects what is returned.
    pub returning_sql: Option<String>,
}

/// Whether a plan is the one of an `UPDATE` of a table.
pub open spec fn updates(
    p: UpdatePlan,
    meta: TableView,
    h: UpdateHeadView,
    assignments: Seq<ParsedAssignmentView>,
    clause: Option<Seq<char>>,
) -> bool {
    let filter = condition(h.selection);
    &&& p.table@ == h.table
    &&& p.count_sql@ == "SELECT COUNT(*) AS c FROM \""@ + h.table + "\" WHERE "@ + filter
    &&& p.rewrite_sql@ == "SELECT "@ + joined(
        updated_columns(meta.columns, assignments, filter),
        ", "@,
    ) + " FROM \""@ + h.table + "\""@
    &&& opt_text(p.returning_sql) == match clause {
        Some(c) => Some("SELECT "@ + c + " FROM \""@ + h.table + "\" WHERE "@ + filter),
        None => None,
    }
}

impl Catalog {
    /// What `UPDATE` is to do, given the clause behind `RETURNING`. A table that is not there is
    /// refused.
    pub fn plan_update(&self, u: &UpdateStatement, returning: &Option<String>) -> (r: Result<
        UpdatePlan,
        String,
    >)
        requires
            self.wf(),
        ensures
            match lookup(self@.tables, u.head@.table) {
                None => r matches Err(e) && e@ == "Table '"@ + u.head@.table + "' does not exist"@,
                Some(meta) => r matches Ok(p) && updates(
                    p,
                    meta,
                    u.head@,
                    views(u.assignments@),
                    opt_text(*returning),
                ),
            },
    {
        let table = &u.head.table;
        match self.tables.lookup(table) {
            None => Err(concat3("Table '", table, "' does not exist")),
            Some(meta) => {
                let filter = write_condition(&u.head.selection);
                let list = join(
                    &write_updated_columns(&meta.columns, &u.assignments, &filter),
                    ", ",
                );
                let head = concat3("SELECT ", &list, " FROM \"");
                let count = concat3("SELECT COUNT(*) AS c FROM \"", table, "\" WHERE ");
                let returning_sql: Option<String> = match returning {
                    Some(c) => {
                        let ret = concat3("SELECT ", c, " FROM \"");
                        let from = concat3(&ret, table, "\" WHERE ");
                        Some(concat2(&from, &filter))
                    },
                    None => None,
                };
                Ok(
                    UpdatePlan {
                        table: table.clone(),
                        count_sql: concat2(&count, &filter),
                        rewrite_sql: concat3(&head, table, "\""),
                        returning_sql,
                    },
                )
            },
        }
    }
}

/// The answer to an `UPDATE`.
pub fn update_message(updated: i64) -> (r: String)
    ensures
        r@ == decimal_signed(updated as int) + " row(s) updated."@,
{
    concat2(&print_i64(updated), " row(s) updated.")
}

// ---------------------------------------------------------------------------
// Laws
// ---------------------------------------------------------------------------

/// A column that no assignment is about is written as it was.
pub proof fn law_unassigned_column_stays(
    cs: Seq<ColumnView>,
    assignments: Seq<ParsedAssignmentView>,
    filter: Seq<char>,
    i: int,
)
    requires
        0 <= i < cs.len(),
        forall|k: int|
            0 <= k < assignments.len() ==> assigned_column(#[trigger] assignments[k]) != cs[i].name,
    ensures
        updated_columns(cs, assignments, filter)[i] == "\""@ + cs[i].name + "\""@,
{
    lemma_no_value(assignments, cs[i].name, assignments.len());
}

proof fn lemma_no_value(assignments: Seq<ParsedAssignmentView>, col: Seq<char>, n: nat)
    requires
        n <= assignments.len(),
        forall|k: int|
            0 <= k < assignments.len() ==> assigned_column(#[trigger] assignments[k]) != col,
    ensures
        assigned_value(assignments, col, n) is None,
    decreases n,
{
    if n > 0 {
        lemma_no_value(assignments, col, (n - 1) as nat);
    }
}

/// A row that is referred to is not deleted unless its key says what becomes of those that refer to
/// it.
pub proof fn law_restrict_is_the_default(
    c: CatalogState,
    t: Seq<char>,
    a: KeyActionView,
    keys: Seq<char>,
    refs: i64,
)
    requires
        refs > 0,
        upper_text(a.on_delete) != "CASCADE"@,
        upper_text(a.on_delete) != "SET NULL"@,
    ensures
        reference_outcome(c, t, a, keys, refs) is Err,
{
}

/// Whether a row is one that a `DELETE` or `UPDATE` is about: its condition holds of the row, or there
/// is no condition.
pub open spec fn is_meant(
    w: World,
    table: Seq<char>,
    selection: Option<Seq<char>>,
    row: Map<Seq<char>, Value>,
) -> bool {
    selection matches Some(e) ==> meaning::holds((w.other)(e, seq![Frame { name: table, row }]))
}

/// The condition of a `DELETE` or `UPDATE` as a phrase.
pub open spec fn meant(selection: Option<Seq<char>>) -> Phrase {
    match selection {
        Some(e) => meaning::other(e),
        None => meaning::yes(),
    }
}

/// Without a condition every row is meant: the condition is then `TRUE`.
pub proof fn law_no_condition_is_about_every_row(
    selection: Option<Seq<char>>,
    w: World,
    table: Seq<char>,
    row: Map<Seq<char>, Value>,
)
    ensures
        selection is None ==> condition(selection) == "TRUE"@,
        selection matches Some(e) ==> condition(selection) == e,
        condition(selection) == meant(selection).text,
        meaning::holds((meant(selection).value)(w, seq![Frame { name: table, row }])) == is_meant(
            w,
            table,
            selection,
            row,
        ),
{
}

/// The rows of a table that a query of `meant` rows is about.
proof fn lemma_meant_rows(
    selection: Option<Seq<char>>,
    w: World,
    table: Seq<char>,
    list: Seq<char>,
)
    ensures
        (meaning::select_where(list, meaning::table(table), meant(selection)).rows)(w)
            == meaning::single(
            table,
            meaning::rows_of(w, table).filter(|r| is_meant(w, table, selection, r)),
        ),
{
    meaning::lemma_kept_single(
        w,
        table,
        meaning::rows_of(w, table),
        meant(selection),
        |r| is_meant(w, table, selection, r),
    );
}

/// A `DELETE` leaves exactly the rows that are not meant: those of which its condition is false or
/// null. What it returns is selected from exactly the rows that are.
pub proof fn law_delete_leaves_the_other_rows(
    p: DeletePlan,
    before: &Catalog,
    t: Seq<char>,
    h: DeleteHeadView,
    clause: Option<Seq<char>>,
    w: World,
)
    requires
        deletes(p, before, t, h, clause),
    ensures
        ({
            let name = meaning::quoted_name(t);
            let rows = meaning::rows_of(w, name);
            let stay = meaning::select_where(
                "*"@,
                meaning::table(name),
                match h.selection {
                    Some(e) => meaning::is_not_true(meaning::paren(meaning::other(e))),
                    None => meaning::no(),
                },
            );
            let all = meaning::select(meaning::count_list(), meaning::table(name));
            &&& p.select_sql@ == stay.text
            &&& (stay.rows)(w) == meaning::single(
                name,
                rows.filter(|r| !is_meant(w, name, h.selection, r)),
            )
            &&& p.count_sql@ == all.text
            &&& (all.rows)(w) == meaning::single(name, rows)
            &&& clause is None ==> p.returning_sql is None
            &&& clause matches Some(c) ==> {
                let go = meaning::select_where(c, meaning::table(name), meant(h.selection));
                let every = meaning::select(c, meaning::table(name));
                &&& opt_text(p.returning_sql) == Some(
                    if h.selection is Some {
                        go.text
                    } else {
                        every.text + " "@
                    },
                )
                &&& (go.rows)(w) == meaning::single(
                    name,
                    rows.filter(|r| is_meant(w, name, h.selection, r)),
                )
                &&& h.selection is None ==> (every.rows)(w) == meaning::single(
                    name,
                    rows.filter(|r| is_meant(w, name, h.selection, r)),
                )
            }
        }),
{
    let name = meaning::quoted_name(t);
    let rows = meaning::rows_of(w, name);
    let stay = match h.selection {
        Some(e) => meaning::is_not_true(meaning::paren(meaning::other(e))),
        None => meaning::no(),
    };
    meaning::lemma_kept_single(w, name, rows, stay, |r| !is_meant(w, name, h.selection, r));
    reveal_strlit("SELECT * FROM \"");
    reveal_strlit("SELECT ");
    reveal_strlit("*");
    reveal_strlit(" FROM ");
    reveal_strlit("\"");
    reveal_strlit("\" ");
    reveal_strlit("WHERE (");
    reveal_strlit(") IS NOT TRUE");
    reveal_strlit(" WHERE ");
    reveal_strlit("(");
    reveal_strlit(")");
    reveal_strlit(" IS NOT TRUE");
    reveal_strlit("WHERE FALSE");
    reveal_strlit("FALSE");
    reveal_strlit("COUNT(*) AS c");
    reveal_strlit("SELECT COUNT(*) AS c FROM \"");
    assert(p.select_sql@ =~= meaning::select_where("*"@, meaning::table(name), stay).text);
    assert(p.count_sql@ =~= meaning::select(meaning::count_list(), meaning::table(name)).text);
    if clause is Some {
        let c = clause->0;
        lemma_meant_rows(h.selection, w, name, c);
        reveal_strlit(" FROM \"");
        reveal_strlit("WHERE ");
        reveal_strlit("");
        reveal_strlit(" ");
        if h.selection is Some {
            assert(deleted_sql(t, c, h.selection) =~= meaning::select_where(
                c,
                meaning::table(name),
                meant(h.selection),
            ).text);
        } else {
            assert(deleted_sql(t, c, h.selection) =~= meaning::select(
                c,
                meaning::table(name),
            ).text + " "@);
            lemma_filter_everything(rows, |r| is_meant(w, name, h.selection, r));
        }
    }
}

proof fn lemma_filter_everything<T>(s: Seq<T>, f: spec_fn(T) -> bool)
    requires
        forall|x: T| #[trigger] f(x),
    ensures
        s.filter(f) == s,
    decreases s.len(),
{
    reveal(Seq::filter);
    if s.len() > 0 {
        lemma_filter_everything(s.drop_last(), f);
        assert(s.drop_last().push(s.last()) =~= s);
    }
}

/// The values of a list as phrases.
pub open spec fn key_phrases(cells: Seq<CellView>) -> Seq<Phrase> {
    Seq::new(cells.len(), |i: int| meaning::other(literal(cells[i])))
}

/// The value of the `i`-th of the keys that go, seen from a row.
pub open spec fn key_value(
    w: World,
    cells: Seq<CellView>,
    i: int,
    name: Seq<char>,
    row: Map<Seq<char>, Value>,
) -> Value {
    (w.other)(literal(cells[i]), seq![Frame { name, row }])
}

/// Whether a row of another table refers to one of the keys that go.
pub open spec fn refers(
    w: World,
    a: KeyActionView,
    cells: Seq<CellView>,
    row: Map<Seq<char>, Value>,
) -> bool {
    let name = meaning::quoted_name(a.child);
    exists|i: int|
        0 <= i < cells.len() && meaning::holds(
            meaning::compared(
                meaning::cell_of(row, a.fk_col),
                #[trigger] key_value(w, cells, i, name, row),
            ),
        )
}

/// Whether a row of another table is sure to refer to none of the keys that go.
pub open spec fn refers_elsewhere(
    w: World,
    a: KeyActionView,
    cells: Seq<CellView>,
    row: Map<Seq<char>, Value>,
) -> bool {
    let name = meaning::quoted_name(a.child);
    forall|i: int|
        0 <= i < cells.len() ==> meaning::compared(
            meaning::cell_of(row, a.fk_col),
            #[trigger] key_value(w, cells, i, name, row),
        ) == Value::Bool(false)
}

proof fn lemma_refers(
    w: World,
    a: KeyActionView,
    cells: Seq<CellView>,
    row: Map<Seq<char>, Value>,
)
    ensures
        ({
            let name = meaning::quoted_name(a.child);
            let p = meaning::within(meaning::column(a.fk_col), key_phrases(cells));
            let v = (p.value)(w, seq![Frame { name, row }]);
            &&& meaning::holds(v) == refers(w, a, cells, row)
            &&& meaning::holds(meaning::negated(v)) == refers_elsewhere(w, a, cells, row)
        }),
{
    let name = meaning::quoted_name(a.child);
    let s = seq![Frame { name, row }];
    meaning::lemma_single_column(name, row, a.fk_col);
    let vs = meaning::comparisons(
        meaning::cell_of(row, a.fk_col),
        meaning::phrase_values(key_phrases(cells), w, s),
    );
    assert(vs.len() == cells.len());
    assert forall|i: int| 0 <= i < cells.len() implies #[trigger] vs[i] == meaning::compared(
        meaning::cell_of(row, a.fk_col),
        key_value(w, cells, i, name, row),
    ) by {}
    if refers(w, a, cells, row) {
        let i = choose|i: int|
            0 <= i < cells.len() && meaning::holds(
                meaning::compared(
                    meaning::cell_of(row, a.fk_col),
                    #[trigger] key_value(w, cells, i, name, row),
                ),
            );
        assert(meaning::holds(vs[i]));
    }
    if refers_elsewhere(w, a, cells, row) {
        assert forall|i: int| 0 <= i < vs.len() implies #[trigger] vs[i] == Value::Bool(false) by {
            assert(meaning::compared(
                meaning::cell_of(row, a.fk_col),
                key_value(w, cells, i, name, row),
            ) == Value::Bool(false));
        }
    } else {
        let i = choose|i: int|
            0 <= i < cells.len() && meaning::compared(
                meaning::cell_of(row, a.fk_col),
                #[trigger] key_value(w, cells, i, name, row),
            ) != Value::Bool(false);
        assert(vs[i] != Value::Bool(false));
    }
    if meaning::holds(meaning::disjunction(vs)) {
        let i = choose|i: int| 0 <= i < vs.len() && meaning::holds(#[trigger] vs[i]);
        assert(meaning::holds(
            meaning::compared(
                meaning::cell_of(row, a.fk_col),
                key_value(w, cells, i, name, row),
            ),
        ));
    }
}

/// The keys that go are those of exactly the rows that are meant and have one. The rows that refer to
/// them are counted, one by one.
pub proof fn law_references_are_counted(
    t: Seq<char>,
    a: KeyActionView,
    selection: Option<Seq<char>>,
    cells: Seq<CellView>,
    w: World,
)
    ensures
        ({
            let name = meaning::quoted_name(t);
            let child = meaning::quoted_name(a.child);
            let keys = meaning::select_where(
                "DISTINCT "@ + meaning::quoted_name(a.ref_col),
                meaning::table(name),
                meaning::both(
                    meaning::paren(meant(selection)),
                    meaning::is_not_null(meaning::column(a.ref_col)),
                ),
            );
            let count = meaning::select_where(
                meaning::count_list(),
                meaning::table(child),
                meaning::within(meaning::column(a.fk_col), key_phrases(cells)),
            );
            &&& key_values_sql(t, a, condition(selection)) == keys.text
            &&& (keys.rows)(w) == meaning::single(
                name,
                meaning::rows_of(w, name).filter(
                    |r|
                        is_meant(w, name, selection, r) && meaning::cell_of(r, a.ref_col)
                            != Value::Null,
                ),
            )
            &&& references_sql(a, joined(key_literals(cells), ", "@)) == count.text
            &&& (count.rows)(w) == meaning::single(
                child,
                meaning::rows_of(w, child).filter(|r| refers(w, a, cells, r)),
            )
        }),
{
    let name = meaning::quoted_name(t);
    let child = meaning::quoted_name(a.child);
    let p = meaning::paren(meant(selection));
    let q = meaning::is_not_null(meaning::column(a.ref_col));
    meaning::lemma_all_two(p, q);
    assert forall|i: int| 0 <= i < meaning::rows_of(w, name).len() implies meaning::holds(
        (meaning::both(p, q).value)(
            w,
            seq![Frame { name, row: #[trigger] meaning::rows_of(w, name)[i] }],
        ),
    ) == (is_meant(w, name, selection, meaning::rows_of(w, name)[i]) && meaning::cell_of(
        meaning::rows_of(w, name)[i],
        a.ref_col,
    ) != Value::Null) by {
        meaning::lemma_single_column(name, meaning::rows_of(w, name)[i], a.ref_col);
    }
    meaning::lemma_kept_single(
        w,
        name,
        meaning::rows_of(w, name),
        meaning::both(p, q),
        |r| is_meant(w, name, selection, r) && meaning::cell_of(r, a.ref_col) != Value::Null,
    );
    let c = meaning::within(meaning::column(a.fk_col), key_phrases(cells));
    assert forall|i: int| 0 <= i < meaning::rows_of(w, child).len() implies meaning::holds(
        (c.value)(w, seq![Frame { name: child, row: #[trigger] meaning::rows_of(w, child)[i] }]),
    ) == refers(w, a, cells, meaning::rows_of(w, child)[i]) by {
        lemma_refers(w, a, cells, meaning::rows_of(w, child)[i]);
    }
    meaning::lemma_kept_single(
        w,
        child,
        meaning::rows_of(w, child),
        c,
        |r| refers(w, a, cells, r),
    );
    assert(meaning::phrase_texts(key_phrases(cells)) =~= key_literals(cells));
    reveal_strlit("SELECT DISTINCT \"");
    reveal_strlit("SELECT ");
    reveal_strlit("DISTINCT ");
    reveal_strlit("\"");
    reveal_strlit("\" FROM \"");
    reveal_strlit(" FROM ");
    reveal_strlit("\" WHERE (");
    reveal_strlit(" WHERE ");
    reveal_strlit("(");
    reveal_strlit(")");
    reveal_strlit(") AND \"");
    reveal_strlit(" AND ");
    reveal_strlit("\" IS NOT NULL");
    reveal_strlit(" IS NOT NULL");
    assert(key_values_sql(t, a, condition(selection)) =~= meaning::select_where(
        "DISTINCT "@ + meaning::quoted_name(a.ref_col),
        meaning::table(name),
        meaning::both(p, q),
    ).text);
    reveal_strlit("SELECT COUNT(*) AS c FROM \"");
    reveal_strlit("COUNT(*) AS c");
    reveal_strlit("\" WHERE \"");
    reveal_strlit("\" IN (");
    reveal_strlit(" IN (");
    assert(references_sql(a, joined(key_literals(cells), ", "@)) =~= meaning::select_where(
        meaning::count_list(),
        meaning::table(child),
        c,
    ).text);
}

/// `ON DELETE CASCADE`: of the rows that refer to the keys that go none is left, and every row that is
/// sure to refer to none of them stays.
pub proof fn law_cascade_removes_what_refers(
    c: CatalogState,
    t: Seq<char>,
    a: KeyActionView,
    cells: Seq<CellView>,
    refs: i64,
    w: World,
)
    requires
        refs > 0,
        upper_text(a.on_delete) == "CASCADE"@,
    ensures
        ({
            let child = meaning::quoted_name(a.child);
            let stay = meaning::select_where(
                "*"@,
                meaning::table(child),
                meaning::not(
                    meaning::paren(
                        meaning::within(meaning::column(a.fk_col), key_phrases(cells)),
                    ),
                ),
            );
            &&& reference_outcome(c, t, a, joined(key_literals(cells), ", "@), refs) == Ok::<
                Option<Seq<char>>,
                Seq<char>,
            >(Some(stay.text))
            &&& (stay.rows)(w) == meaning::single(
                child,
                meaning::rows_of(w, child).filter(|r| refers_elsewhere(w, a, cells, r)),
            )
            &&& cells.len() > 0 ==> forall|r| #[trigger]
                refers_elsewhere(w, a, cells, r) ==> !refers(w, a, cells, r)
        }),
{
    let child = meaning::quoted_name(a.child);
    let p = meaning::within(meaning::column(a.fk_col), key_phrases(cells));
    let n = meaning::not(meaning::paren(p));
    assert forall|i: int| 0 <= i < meaning::rows_of(w, child).len() implies meaning::holds(
        (n.value)(w, seq![Frame { name: child, row: #[trigger] meaning::rows_of(w, child)[i] }]),
    ) == refers_elsewhere(w, a, cells, meaning::rows_of(w, child)[i]) by {
        lemma_refers(w, a, cells, meaning::rows_of(w, child)[i]);
    }
    meaning::lemma_kept_single(
        w,
        child,
        meaning::rows_of(w, child),
        n,
        |r| refers_elsewhere(w, a, cells, r),
    );
    assert(meaning::phrase_texts(key_phrases(cells)) =~= key_literals(cells));
    reveal_strlit("SELECT * FROM \"");
    reveal_strlit("SELECT ");
    reveal_strlit("*");
    reveal_strlit("\"");
    reveal_strlit(" FROM ");
    reveal_strlit("\" WHERE NOT (\"");
    reveal_strlit(" WHERE ");
    reveal_strlit("NOT ");
    reveal_strlit("(");
    reveal_strlit(")");
    reveal_strlit("))");
    reveal_strlit("\" IN (");
    reveal_strlit(" IN (");
    assert("SELECT * FROM \""@ + a.child + "\" WHERE NOT (\""@ + a.fk_col + "\" IN ("@ + joined(
        key_literals(cells),
        ", "@,
    ) + "))"@ =~= meaning::select_where("*"@, meaning::table(child), n).text);
}

/// What each column of the child is written anew from when its reference is set to null, as phrases.
pub open spec fn nulled_phrases(a: KeyActionView, cells: Seq<CellView>, cs: Seq<ColumnView>) -> Seq<
    Phrase,
> {
    Seq::new(
        cs.len(),
        |i: int|
            if cs[i].name == a.fk_col {
                meaning::named(
                    meaning::if_else(
                        meaning::within(meaning::column(a.fk_col), key_phrases(cells)),
                        meaning::null(),
                        meaning::column(a.fk_col),
                    ),
                    a.fk_col,
                )
            } else {
                meaning::column(cs[i].name)
            },
    )
}

proof fn lemma_nulled_text(a: KeyActionView, cells: Seq<CellView>, cs: Seq<ColumnView>)
    ensures
        nulled_columns(a, joined(key_literals(cells), ", "@), cs) == meaning::phrase_texts(
            nulled_phrases(a, cells, cs),
        ),
{
    let keys = joined(key_literals(cells), ", "@);
    let p = meaning::within(meaning::column(a.fk_col), key_phrases(cells));
    meaning::lemma_single_case(p, meaning::null(), meaning::column(a.fk_col));
    assert(meaning::phrase_texts(key_phrases(cells)) =~= key_literals(cells));
    reveal_strlit("CASE WHEN \"");
    reveal_strlit("CASE WHEN ");
    reveal_strlit("\"");
    reveal_strlit("\" IN (");
    reveal_strlit(" IN (");
    reveal_strlit(")");
    reveal_strlit(") THEN NULL ELSE \"");
    reveal_strlit(" THEN ");
    reveal_strlit("NULL");
    reveal_strlit(" ELSE ");
    reveal_strlit("\" END AS \"");
    reveal_strlit(" END");
    reveal_strlit(" AS ");
    let whole = meaning::named(
        meaning::if_else(p, meaning::null(), meaning::column(a.fk_col)),
        a.fk_col,
    );
    assert("CASE WHEN \""@ + a.fk_col + "\" IN ("@ + keys + ") THEN NULL ELSE \""@ + a.fk_col
        + "\" END AS \""@ + a.fk_col + "\""@ =~= whole.text);
    assert(nulled_columns(a, keys, cs) =~= meaning::phrase_texts(nulled_phrases(a, cells, cs)));
}

/// `ON DELETE SET NULL`: every row of the child is written back. Its reference is null exactly where
/// it was one of the keys that go, or was null before; otherwise it stays, and so does every other
/// column.
pub proof fn law_set_null_clears_what_refers(
    c: CatalogState,
    t: Seq<char>,
    a: KeyActionView,
    cells: Seq<CellView>,
    refs: i64,
    meta: TableView,
    w: World,
    i: int,
    j: int,
)
    requires
        refs > 0,
        upper_text(a.on_delete) == "SET NULL"@,
        lookup(c.tables, a.child) == Some(meta),
        0 <= i < meaning::rows_of(w, meaning::quoted_name(a.child)).len(),
        0 <= j < meta.columns.len(),
    ensures
        ({
            let child = meaning::quoted_name(a.child);
            let columns = nulled_phrases(a, cells, meta.columns);
            let q = meaning::select(meaning::list_of(columns), meaning::table(child));
            let row = meaning::rows_of(w, child)[i];
            let col = meta.columns[j].name;
            let written = (columns[j].value)(w, (q.rows)(w)[i]);
            &&& reference_outcome(c, t, a, joined(key_literals(cells), ", "@), refs) == Ok::<
                Option<Seq<char>>,
                Seq<char>,
            >(Some(q.text))
            &&& (q.rows)(w) == meaning::single(child, meaning::rows_of(w, child))
            &&& col == a.fk_col && refers(w, a, cells, row) ==> written == Value::Null
            &&& !(col == a.fk_col && refers(w, a, cells, row)) ==> written == meaning::cell_of(
                row,
                col,
            )
        }),
{
    let child = meaning::quoted_name(a.child);
    let row = meaning::rows_of(w, child)[i];
    let keys = joined(key_literals(cells), ", "@);
    lemma_nulled_text(a, cells, meta.columns);
    lemma_refers(w, a, cells, row);
    reveal_strlit("CASCADE");
    reveal_strlit("SET NULL");
    assert("CASCADE"@.len() != "SET NULL"@.len());
    meaning::lemma_single_column(child, row, meta.columns[j].name);
    meaning::lemma_single_case(
        meaning::within(meaning::column(a.fk_col), key_phrases(cells)),
        meaning::null(),
        meaning::column(a.fk_col),
    );
    assert(meaning::single(child, meaning::rows_of(w, child))[i] == seq![
        Frame { name: child, row },
    ]);
    reveal_strlit("SELECT ");
    reveal_strlit(" FROM \"");
    reveal_strlit(" FROM ");
    reveal_strlit("\"");
    assert("SELECT "@ + joined(nulled_columns(a, keys, meta.columns), ", "@) + " FROM \""@ + a.child
        + "\""@ =~= meaning::select(
        meaning::list_of(nulled_phrases(a, cells, meta.columns)),
        meaning::table(child),
    ).text);
}

/// Where no row refers to the keys that go, nothing is written and nothing is refused.
pub proof fn law_unreferenced_rows_go_freely(
    c: CatalogState,
    t: Seq<char>,
    a: KeyActionView,
    keys: Seq<char>,
    refs: i64,
)
    requires
        refs <= 0,
    ensures
        reference_outcome(c, t, a, keys, refs) == Ok::<Option<Seq<char>>, Seq<char>>(None),
{
}

proof fn lemma_actions(
    child: Seq<char>,
    cs: Seq<ConstraintView>,
    table: Seq<char>,
    n: nat,
    k: int,
    a: KeyActionView,
)
    requires
        0 <= k < n <= cs.len(),
        action_of(child, cs[k], table) == Some(a),
    ensures
        actions_of(child, cs, table, n).contains(a),
    decreases n,
{
    let rest = actions_of(child, cs, table, (n - 1) as nat);
    let all = actions_of(child, cs, table, n);
    if k == n - 1 {
        assert(all[rest.len() as int] == a);
    } else {
        lemma_actions(child, cs, table, (n - 1) as nat, k, a);
        let i = choose|i: int| 0 <= i < rest.len() && rest[i] == a;
        assert(all[i] == a);
    }
}

/// Every foreign key of one column that refers to the table is looked at, in whatever table it
/// stands; one that says nothing of deletion restricts it.
pub proof fn law_every_reference_is_looked_at(
    names: Seq<Seq<char>>,
    m: Map<Seq<char>, TableView>,
    table: Seq<char>,
    n: nat,
    i: int,
    k: int,
)
    requires
        0 <= i < n <= names.len(),
        0 <= k < m[names[i]].constraints.len(),
        m[names[i]].constraints[k] matches ConstraintView::ForeignKey {
            columns,
            ref_table,
            ref_columns,
            ..
        } && ref_table == table && columns.len() == 1 && ref_columns.len() == 1,
    ensures
        m[names[i]].constraints[k] matches ConstraintView::ForeignKey {
            columns,
            ref_columns,
            on_delete,
            ..
        } && all_actions(names, m, table, n).contains(
            KeyActionView {
                child: names[i],
                fk_col: columns[0],
                ref_col: ref_columns[0],
                on_delete: match on_delete {
                    Some(a) => a,
                    None => "RESTRICT"@,
                },
            },
        ),
    decreases n,
{
    let c = m[names[i]].constraints[k];
    let a = action_of(names[i], c, table)->0;
    let rest = all_actions(names, m, table, (n - 1) as nat);
    let all = all_actions(names, m, table, n);
    if i == n - 1 {
        let part = actions_of(names[i], m[names[i]].constraints, table, m[names[i]].constraints.len());
        lemma_actions(names[i], m[names[i]].constraints, table, m[names[i]].constraints.len(), k, a);
        let x = choose|x: int| 0 <= x < part.len() && part[x] == a;
        assert(all[rest.len() + x] == a);
    } else {
        law_every_reference_is_looked_at(names, m, table, (n - 1) as nat, i, k);
        let x = choose|x: int| 0 <= x < rest.len() && rest[x] == a;
        assert(all[x] == a);
    }
}

/// What each column of a table is written anew from by an `UPDATE`, as phrases, given the value that
/// it is set to, if any.
pub open spec fn updated_phrase(c: ColumnView, value: Option<Seq<char>>, selection: Option<Seq<char>>) -> Phrase {
    match value {
        Some(v) => meaning::named(
            meaning::if_else(
                meaning::paren(meant(selection)),
                meaning::cast(meaning::paren(meaning::other(v)), c.data_type),
                meaning::column(c.name),
            ),
            c.name,
        ),
        None => meaning::column(c.name),
    }
}

/// The phrases of all columns.
pub open spec fn updated_phrases(
    cs: Seq<ColumnView>,
    assignments: Seq<ParsedAssignmentView>,
    selection: Option<Seq<char>>,
) -> Seq<Phrase> {
    Seq::new(
        cs.len(),
        |i: int|
            updated_phrase(
                cs[i],
                assigned_value(assignments, cs[i].name, assignments.len()),
                selection,
            ),
    )
}

proof fn lemma_updated_text(c: ColumnView, value: Option<Seq<char>>, selection: Option<Seq<char>>)
    ensures
        updated_column(c, value, condition(selection)) == updated_phrase(c, value, selection).text,
{
    reveal_strlit("\"");
    if value is Some {
        let v = value->0;
        let p = meaning::paren(meant(selection));
        let q = meaning::cast(meaning::paren(meaning::other(v)), c.data_type);
        meaning::lemma_single_case(p, q, meaning::column(c.name));
        reveal_strlit("CASE WHEN (");
        reveal_strlit("CASE WHEN ");
        reveal_strlit("(");
        reveal_strlit(")");
        reveal_strlit(") THEN CAST((");
        reveal_strlit(" THEN ");
        reveal_strlit("CAST(");
        reveal_strlit(") AS ");
        reveal_strlit(" AS ");
        reveal_strlit(") ELSE \"");
        reveal_strlit(" ELSE ");
        reveal_strlit("\" END AS \"");
        reveal_strlit(" END");
        assert(updated_column(c, value, condition(selection)) =~= updated_phrase(
            c,
            value,
            selection,
        ).text);
    }
}

/// An `UPDATE` writes every row of the table back. In a row that is meant, a column that is assigned
/// to gets the value of the first assignment to it, brought to the type of the column. Every other
/// column keeps its value, and so do all columns of a row that is not meant.
pub proof fn law_update_changes_what_is_meant(
    p: UpdatePlan,
    meta: TableView,
    h: UpdateHeadView,
    assignments: Seq<ParsedAssignmentView>,
    clause: Option<Seq<char>>,
    w: World,
    i: int,
    j: int,
)
    requires
        updates(p, meta, h, assignments, clause),
        0 <= i < meaning::rows_of(w, meaning::quoted_name(h.table)).len(),
        0 <= j < meta.columns.len(),
    ensures
        ({
            let name = meaning::quoted_name(h.table);
            let columns = updated_phrases(meta.columns, assignments, h.selection);
            let q = meaning::select(meaning::list_of(columns), meaning::table(name));
            let row = meaning::rows_of(w, name)[i];
            let col = meta.columns[j];
            let s = seq![Frame { name, row }];
            let written = (columns[j].value)(w, (q.rows)(w)[i]);
            &&& p.rewrite_sql@ == q.text
            &&& (q.rows)(w) == meaning::single(name, meaning::rows_of(w, name))
            &&& !is_meant(w, name, h.selection, row) ==> written == meaning::cell_of(row, col.name)
            &&& (forall|k: int|
                0 <= k < assignments.len() ==> assigned_column(#[trigger] assignments[k])
                    != col.name) ==> written == meaning::cell_of(row, col.name)
            &&& forall|k: int|
                0 <= k < assignments.len() && assigned_column(#[trigger] assignments[k]) == col.name
                    && (forall|l: int|
                    0 <= l < k ==> assigned_column(#[trigger] assignments[l]) != col.name)
                    && is_meant(w, name, h.selection, row) ==> written == (w.cast)(
                    (w.other)(assignments[k].value, s),
                    col.data_type,
                )
        }),
{
    let name = meaning::quoted_name(h.table);
    let columns = updated_phrases(meta.columns, assignments, h.selection);
    let row = meaning::rows_of(w, name)[i];
    let col = meta.columns[j];
    let s = seq![Frame { name, row }];
    let filter = condition(h.selection);
    assert forall|k: int| 0 <= k < meta.columns.len() implies #[trigger] updated_columns(
        meta.columns,
        assignments,
        filter,
    )[k] == columns[k].text by {
        lemma_updated_text(
            meta.columns[k],
            assigned_value(assignments, meta.columns[k].name, assignments.len()),
            h.selection,
        );
    }
    assert(updated_columns(meta.columns, assignments, filter) =~= meaning::phrase_texts(columns));
    reveal_strlit("SELECT ");
    reveal_strlit(" FROM \"");
    reveal_strlit(" FROM ");
    reveal_strlit("\"");
    assert(p.rewrite_sql@ =~= meaning::select(meaning::list_of(columns), meaning::table(name)).text);
    meaning::lemma_single_column(name, row, col.name);
    assert(meaning::single(name, meaning::rows_of(w, name))[i] == s);
    let value = assigned_value(assignments, col.name, assignments.len());
    if value is Some {
        meaning::lemma_single_case(
            meaning::paren(meant(h.selection)),
            meaning::cast(meaning::paren(meaning::other(value->0)), col.data_type),
            meaning::column(col.name),
        );
    }
    if forall|k: int|
        0 <= k < assignments.len() ==> assigned_column(#[trigger] assignments[k]) != col.name {
        lemma_no_value(assignments, col.name, assignments.len());
    }
    assert forall|k: int|
        0 <= k < assignments.len() && assigned_column(#[trigger] assignments[k]) == col.name && (
        forall|l: int| 0 <= l < k ==> assigned_column(#[trigger] assignments[l]) != col.name)
            && is_meant(w, name, h.selection, row) implies (columns[j].value)(w, s) == (w.cast)(
        (w.other)(assignments[k].value, s),
        col.data_type,
    ) by {
        lemma_first_value(assignments, col.name, k);
    }
}

proof fn lemma_first_value(assignments: Seq<ParsedAssignmentView>, col: Seq<char>, k: int)
    requires
        0 <= k < assignments.len(),
        assigned_column(assignments[k]) == col,
        forall|l: int| 0 <= l < k ==> assigned_column(#[trigger] assignments[l]) != col,
    ensures
        assigned_value(assignments, col, assignments.len()) == Some(assignments[k].value),
{
    lemma_none_before(assignments, col, k as nat);
    lemma_assigned_value(assignments, col, (k + 1) as nat, assignments.len());
}

proof fn lemma_none_before(assignments: Seq<ParsedAssignmentView>, col: Seq<char>, n: nat)
    requires
        n <= assignments.len(),
        forall|l: int| 0 <= l < n ==> assigned_column(#[trigger] assignments[l]) != col,
    ensures
        assigned_value(assignments, col, n) is None,
    decreases n,
{
    if n > 0 {
        lemma_none_before(assignments, col, (n - 1) as nat);
    }
}

/// What an `UPDATE` counts and what it returns are the rows that are meant.
pub proof fn law_update_counts_what_is_meant(
    p: UpdatePlan,
    meta: TableView,
    h: UpdateHeadView,
    assignments: Seq<ParsedAssignmentView>,
    clause: Option<Seq<char>>,
    w: World,
)
    requires
        updates(p, meta, h, assignments, clause),
    ensures
        ({
            let name = meaning::quoted_name(h.table);
            let rows = meaning::single(
                name,
                meaning::rows_of(w, name).filter(|r| is_meant(w, name, h.selection, r)),
            );
            let count = meaning::select_where(
                meaning::count_list(),
                meaning::table(name),
                meant(h.selection),
            );
            &&& p.table@ == h.table
            &&& p.count_sql@ == count.text
            &&& (count.rows)(w) == rows
            &&& h.selection is None ==> p.count_sql@ == "SELECT COUNT(*) AS c FROM \""@ + h.table
                + "\" WHERE TRUE"@
            &&& clause is None ==> p.returning_sql is None
            &&& clause matches Some(c) ==> {
                let q = meaning::select_where(c, meaning::table(name), meant(h.selection));
                opt_text(p.returning_sql) == Some(q.text) && (q.rows)(w) == rows
            }
        }),
{
    let name = meaning::quoted_name(h.table);
    lemma_meant_rows(h.selection, w, name, meaning::count_list());
    reveal_strlit("SELECT COUNT(*) AS c FROM \"");
    reveal_strlit("SELECT ");
    reveal_strlit("COUNT(*) AS c");
    reveal_strlit(" FROM ");
    reveal_strlit(" FROM \"");
    reveal_strlit("\"");
    reveal_strlit("\" WHERE ");
    reveal_strlit("\" WHERE TRUE");
    reveal_strlit("TRUE");
    reveal_strlit(" WHERE ");
    assert(p.count_sql@ =~= meaning::select_where(
        meaning::count_list(),
        meaning::table(name),
        meant(h.selection),
    ).text);
    if h.selection is None {
        assert(p.count_sql@ =~= "SELECT COUNT(*) AS c FROM \""@ + h.table + "\" WHERE TRUE"@);
    }
    if clause is Some {
        lemma_meant_rows(h.selection, w, name, clause->0);
        assert("SELECT "@ + clause->0 + " FROM \""@ + h.table + "\" WHERE "@ + condition(h.selection)
            =~= meaning::select_where(clause->0, meaning::table(name), meant(h.selection)).text);
    }
}

/// A trigger is run exactly where its table, its event and its timing are those of the statement, and the
/// triggers are run in the order of their names.
pub proof fn law_triggers_fire_on_their_event(
    names: Seq<Seq<char>>,
    m: Map<Seq<char>, TriggerView>,
    table: Seq<char>,
    event: Seq<char>,
    timing: Seq<char>,
    n: nat,
)
    requires
        n <= names.len(),
    ensures
        ({
            let due = names.take(n as int).filter(
                |k: Seq<char>|
                    m[k].table == table && m[k].event == event && m[k].timing == timing,
            );
            fired(names, m, table, event, timing, n) == Seq::new(
                due.len(),
                |i: int| m[due[i]].body,
            )
        }),
    decreases n,
{
    reveal(Seq::filter);
    let f = |k: Seq<char>|
        m[k].table == table && m[k].event == event && m[k].timing == timing;
    let due = names.take(n as int).filter(f);
    if n > 0 {
        law_triggers_fire_on_their_event(names, m, table, event, timing, (n - 1) as nat);
        assert(names.take(n as int).drop_last() =~= names.take(n - 1));
        assert(names.take(n as int).last() == names[n - 1]);
        let rest = names.take(n - 1).filter(f);
        if f(names[n - 1]) {
            assert(due == rest.push(names[n - 1]));
        } else {
            assert(due == rest);
        }
    }
    assert(fired(names, m, table, event, timing, n) =~= Seq::new(
        due.len(),
        |i: int| m[due[i]].body,
    ));
}

} // verus!
