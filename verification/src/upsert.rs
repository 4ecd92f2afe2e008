//! `INSERT ... ON CONFLICT`.
//!
//! The rows of the source are read, and the values of the conflict columns are looked up. A row whose
//! values are there already updates the row that has them or is skipped; every other row is
//! inserted.
use vstd::hash_set::StringHashSet;
use vstd::prelude::*;
use vstd::string::*;

use crate::catalog::{lookup, Catalog, CatalogState};
use crate::catalog_types::{ColumnDef, ColumnView, ConstraintView, TableConstraint};
use crate::cells::{literal, literals, sql_literal, CellView, Row};
use crate::constraints::{
    has_key, key_test, key_text, last_position, law_key_condition, lemma_key_text, tuple_condition,
    write_condition,
};
use crate::dml::{assigned_column, column_of_assignment};
use crate::dup::{opt_view, views, Dup};
use crate::fulltext::{quote_columns, quoted_columns};
use crate::insert::{choose_columns, find_position, first_position, target_columns};
use crate::meaning::{self, Frame, Phrase, Query, Value, World};
use crate::numbers::{decimal, print_usize};
use crate::statement::{
    parsed_conflict_action, parsed_conflict_assignments, parsed_conflict_target,
    read_conflict_action, read_conflict_assignments, read_conflict_target, InsertHead,
    InsertHeadView, ParsedAssignment, ParsedAssignmentView, ParsedConflict, ParsedConflictView,
    ParsedTarget, ParsedTargetView,
};
use crate::text::{
    clone_strings, concat2, concat3, eq_ignore_ascii_case, join, joined,
    law_pattern_alone_is_replaced, law_text_without_the_pattern_stays, occurs_at, opt_text,
    replace, replaced, same, same_ignore_case, texts, trim_matches, trim_matches_text,
};

verus! {

// ---------------------------------------------------------------------------
// The conflict columns
// ---------------------------------------------------------------------------

/// The columns of a constraint that a conflict clause names.
pub open spec fn named_columns(c: ConstraintView, name: Seq<char>) -> Option<Seq<Seq<char>>> {
    match c {
        ConstraintView::Unique { name: n, columns } => if n == name {
            Some(columns)
        } else {
            None
        },
        ConstraintView::PrimaryKey { columns } => if same_ignore_case(name, "primary"@)
            || same_ignore_case(name, "primary_key"@) {
            Some(columns)
        } else {
            None
        },
        _ => None,
    }
}

/// The columns of the first of the first `n` constraints that a conflict clause names.
pub open spec fn named_constraint(cs: Seq<ConstraintView>, name: Seq<char>, n: nat) -> Option<
    Seq<Seq<char>>,
>
    decreases n,
{
    if n == 0 || n > cs.len() {
        None
    } else {
        match named_constraint(cs, name, (n - 1) as nat) {
            Some(c) => Some(c),
            None => named_columns(cs[n - 1], name),
        }
    }
}

/// The columns of a key.
pub open spec fn key_columns(c: ConstraintView) -> Option<Seq<Seq<char>>> {
    match c {
        ConstraintView::PrimaryKey { columns } => Some(columns),
        ConstraintView::Unique { name, columns } => Some(columns),
        _ => None,
    }
}

/// The columns of the first key among the first `n` constraints.
pub open spec fn first_key(cs: Seq<ConstraintView>, n: nat) -> Option<Seq<Seq<char>>>
    decreases n,
{
    if n == 0 || n > cs.len() {
        None
    } else {
        match first_key(cs, (n - 1) as nat) {
            Some(c) => Some(c),
            None => key_columns(cs[n - 1]),
        }
    }
}

/// The columns by which a conflict is told: those of the conflict target, or of the first key.
pub open spec fn conflict_columns(cs: Seq<ConstraintView>, target: Option<ParsedTargetView>) -> Result<
    Seq<Seq<char>>,
    Seq<char>,
> {
    match target {
        Some(ParsedTargetView::Columns(cols)) => Ok(cols),
        Some(ParsedTargetView::Constraint(n)) => {
            let name = trim_matches_text(n, '"');
            match named_constraint(cs, name, cs.len()) {
                Some(cols) => Ok(cols),
                None => Err("Unknown ON CONFLICT constraint target: "@ + name),
            }
        },
        None => match first_key(cs, cs.len()) {
            Some(cols) => Ok(cols),
            None => Ok(Seq::empty()),
        },
    }
}

/// The texts of an optional list.
pub open spec fn opt_names(o: Option<Vec<String>>) -> Option<Seq<Seq<char>>> {
    match o {
        Some(v) => Some(texts(v@)),
        None => None,
    }
}

proof fn lemma_named_constraint(cs: Seq<ConstraintView>, name: Seq<char>, i: nat, n: nat)
    requires
        i <= n <= cs.len(),
        named_constraint(cs, name, i) is Some,
    ensures
        named_constraint(cs, name, n) == named_constraint(cs, name, i),
    decreases n - i,
{
    if i < n {
        lemma_named_constraint(cs, name, i, (n - 1) as nat);
    }
}

proof fn lemma_first_key(cs: Seq<ConstraintView>, i: nat, n: nat)
    requires
        i <= n <= cs.len(),
        first_key(cs, i) is Some,
    ensures
        first_key(cs, n) == first_key(cs, i),
    decreases n - i,
{
    if i < n {
        lemma_first_key(cs, i, (n - 1) as nat);
    }
}

fn find_named(cs: &Vec<TableConstraint>, name: &str) -> (r: Option<Vec<String>>)
    ensures
        opt_names(r) == named_constraint(views(cs@), name@, views(cs@).len()),
{
    let ghost cv = views(cs@);
    let mut i: usize = 0;
    while i < cs.len()
        invariant
            i <= cs@.len(),
            cv == views(cs@),
            cv.len() == cs@.len(),
            named_constraint(cv, name@, i as nat) is None,
        decreases cs@.len() - i,
    {
        assert(cv[i as int] == cs@[i as int]@);
        let found: Option<Vec<String>> = match &cs[i] {
            TableConstraint::Unique { name: n, columns } => if same(n, name) {
                Some(clone_strings(columns))
            } else {
                None
            },
            TableConstraint::PrimaryKey { columns } => if eq_ignore_ascii_case(name, "primary")
                || eq_ignore_ascii_case(name, "primary_key") {
                Some(clone_strings(columns))
            } else {
                None
            },
            _ => None,
        };
        assert(opt_names(found) == named_columns(cv[i as int], name@));
        if let Some(cols) = found {
            proof {
                assert(named_constraint(cv, name@, (i + 1) as nat) == Some(texts(cols@)));
                lemma_named_constraint(cv, name@, (i + 1) as nat, cv.len());
            }
            return Some(cols);
        }
        i += 1;
    }
    None
}

fn find_first_key(cs: &Vec<TableConstraint>) -> (r: Option<Vec<String>>)
    ensures
        opt_names(r) == first_key(views(cs@), views(cs@).len()),
{
    let ghost cv = views(cs@);
    let mut i: usize = 0;
    while i < cs.len()
        invariant
            i <= cs@.len(),
            cv == views(cs@),
            cv.len() == cs@.len(),
            first_key(cv, i as nat) is None,
        decreases cs@.len() - i,
    {
        assert(cv[i as int] == cs@[i as int]@);
        let found: Option<Vec<String>> = match &cs[i] {
            TableConstraint::Unique { columns, .. } => Some(clone_strings(columns)),
            TableConstraint::PrimaryKey { columns } => Some(clone_strings(columns)),
            _ => None,
        };
        assert(opt_names(found) == key_columns(cv[i as int]));
        if let Some(cols) = found {
            proof {
                assert(first_key(cv, (i + 1) as nat) == Some(texts(cols@)));
                lemma_first_key(cv, (i + 1) as nat, cv.len());
            }
            return Some(cols);
        }
        i += 1;
    }
    None
}

/// The columns by which a conflict is told: those of the conflict target, or of the first key.
pub fn resolve_conflict_columns(cs: &Vec<TableConstraint>, target: &Option<ParsedTarget>) -> (r:
    Result<Vec<String>, String>)
    ensures
        match r {
            Ok(cols) => conflict_columns(views(cs@), opt_view(*target)) == Ok::<
                Seq<Seq<char>>,
                Seq<char>,
            >(texts(cols@)),
            Err(e) => conflict_columns(views(cs@), opt_view(*target)) == Err::<
                Seq<Seq<char>>,
                Seq<char>,
            >(e@),
        },
{
    match target {
        Some(ParsedTarget::Columns(cols)) => Ok(clone_strings(cols)),
        Some(ParsedTarget::Constraint(n)) => {
            let name = trim_matches(n, '"');
            match find_named(cs, &name) {
                Some(cols) => Ok(cols),
                None => Err(concat2("Unknown ON CONFLICT constraint target: ", &name)),
            }
        },
        None => match find_first_key(cs) {
            Some(cols) => Ok(cols),
            None => {
                let none: Vec<String> = Vec::new();
                assert(texts(none@) =~= Seq::<Seq<char>>::empty());
                Ok(none)
            },
        },
    }
}

// ---------------------------------------------------------------------------
// The plan
// ---------------------------------------------------------------------------

/// The conflict clause of an `INSERT`.
pub struct ConflictClause {
    pub target: Option<ParsedTarget>,
    pub action: ParsedConflict,
    pub assignments: Vec<ParsedAssignment>,
}

/// The conflict clause of the `INSERT` of a text.
pub fn parse_conflict(sql: &str) -> (r: Option<ConflictClause>)
    ensures
        match r {
            None => parsed_conflict_action(sql@) is None,
            Some(c) => {
                &&& parsed_conflict_action(sql@) == Some(c.action@)
                &&& opt_view(c.target) == parsed_conflict_target(sql@)
                &&& views(c.assignments@) == match parsed_conflict_assignments(sql@) {
                    Some(a) => a,
                    None => Seq::empty(),
                }
            },
        },
{
    match read_conflict_action(sql) {
        None => None,
        Some(action) => {
            let assignments: Vec<ParsedAssignment> = match read_conflict_assignments(sql) {
                Some(a) => a,
                None => {
                    let none: Vec<ParsedAssignment> = Vec::new();
                    assert(views(none@) =~= Seq::<ParsedAssignmentView>::empty());
                    none
                },
            };
            Some(ConflictClause { target: read_conflict_target(sql), action, assignments })
        },
    }
}

/// What `INSERT ... ON CONFLICT` works on.
pub struct UpsertPlan {
    pub table: String,
    /// The columns by which a conflict is told.
    pub conflict_columns: Vec<String>,
    /// The columns that are written.
    pub targets: Vec<String>,
    /// The query whose rows are written.
    pub source: String,
    /// The text for the write-ahead log.
    pub log: String,
}

/// What `INSERT ... ON CONFLICT` works on, or the complaint.
pub open spec fn upsert_plan(
    c: CatalogState,
    h: InsertHeadView,
    target: Option<ParsedTargetView>,
) -> Result<(Seq<Seq<char>>, Seq<Seq<char>>, Seq<char>), Seq<char>> {
    match lookup(c.tables, h.table) {
        None => Err("Table '"@ + h.table + "' does not exist"@),
        Some(meta) => match conflict_columns(meta.constraints, target) {
            Err(e) => Err(e),
            Ok(cols) => if cols.len() == 0 {
                Err("ON CONFLICT requires a conflict target"@)
            } else {
                match h.source {
                    None => Err("UPSERT requires an INSERT source"@),
                    Some(s) => Ok((cols, target_columns(h.columns, meta.columns), s)),
                }
            },
        },
    }
}

impl Catalog {
    /// What `INSERT ... ON CONFLICT` works on.
    pub fn plan_upsert(&self, h: &InsertHead, target: &Option<ParsedTarget>) -> (r: Result<
        UpsertPlan,
        String,
    >)
        requires
            self.wf(),
        ensures
            match upsert_plan(self@, h@, opt_view(*target)) {
                Err(m) => r matches Err(e) && e@ == m,
                Ok(u) => {
                    &&& r matches Ok(p)
                    &&& p.table@ == h@.table
                    &&& texts(p.conflict_columns@) == u.0
                    &&& texts(p.targets@) == u.1
                    &&& p.source@ == u.2
                    &&& p.log@ == h@.text
                },
            },
    {
        let meta = match self.tables.lookup(&h.table) {
            None => {
                return Err(concat3("Table '", &h.table, "' does not exist"));
            },
            Some(m) => m,
        };
        let conflict = match resolve_conflict_columns(&meta.constraints, target) {
            Err(e) => {
                return Err(e);
            },
            Ok(c) => c,
        };
        assert(texts(conflict@).len() == conflict@.len());
        if conflict.len() == 0 {
            return Err("ON CONFLICT requires a conflict target".to_owned());
        }
        match &h.source {
            None => Err("UPSERT requires an INSERT source".to_owned()),
            Some(s) => Ok(
                UpsertPlan {
                    table: h.table.clone(),
                    conflict_columns: conflict,
                    targets: choose_columns(&h.columns, &meta.columns),
                    source: s.clone(),
                    log: h.text.clone(),
                },
            ),
        }
    }
}

// ---------------------------------------------------------------------------
// The rows of the source
// ---------------------------------------------------------------------------

/// A row of the source.
pub struct UpsertRow {
    /// The values of the columns that are written, as they stand in a statement.
    pub values: Vec<String>,
    /// The values of the conflict columns.
    pub conflict_values: Vec<String>,
    /// The text by which conflict values are compared.
    pub key: String,
}

/// What an [`UpsertRow`] says.
pub struct UpsertRowView {
    pub values: Seq<Seq<char>>,
    pub conflict_values: Seq<Seq<char>>,
    pub key: Seq<char>,
}

impl View for UpsertRow {
    type V = UpsertRowView;

    open spec fn view(&self) -> UpsertRowView {
        UpsertRowView {
            values: texts(self.values@),
            conflict_values: texts(self.conflict_values@),
            key: self.key@,
        }
    }
}

/// The value of a column among the values that are written; a column that is not written has none.
pub open spec fn value_of(values: Seq<Seq<char>>, targets: Seq<Seq<char>>, col: Seq<char>) -> Seq<
    char,
> {
    match last_position(targets, col, targets.len()) {
        Some(i) => values[i],
        None => "NULL"@,
    }
}

/// The values of the conflict columns.
pub open spec fn values_of(
    values: Seq<Seq<char>>,
    targets: Seq<Seq<char>>,
    cols: Seq<Seq<char>>,
) -> Seq<Seq<char>> {
    Seq::new(cols.len(), |i: int| value_of(values, targets, cols[i]))
}

/// A row of the source.
pub open spec fn upsert_row(
    row: Seq<CellView>,
    targets: Seq<Seq<char>>,
    cols: Seq<Seq<char>>,
) -> UpsertRowView {
    let values = literals(row.subrange(0, targets.len() as int));
    let conflict_values = values_of(values, targets, cols);
    UpsertRowView { values, conflict_values, key: key_text(conflict_values) }
}

/// The rows of the source.
pub open spec fn upsert_rows(
    rows: Seq<Seq<CellView>>,
    targets: Seq<Seq<char>>,
    cols: Seq<Seq<char>>,
) -> Seq<UpsertRowView> {
    Seq::new(rows.len(), |i: int| upsert_row(rows[i], targets, cols))
}

fn find_last(names: &Vec<String>, name: &str) -> (r: Option<usize>)
    ensures
        match r {
            Some(k) => k < names@.len() && last_position(texts(names@), name@, texts(names@).len())
                == Some(k as int),
            None => last_position(texts(names@), name@, texts(names@).len()) is None,
        },
{
    let ghost nv = texts(names@);
    let mut n: usize = names.len();
    while n > 0
        invariant
            n <= names@.len(),
            nv == texts(names@),
            nv.len() == names@.len(),
            last_position(nv, name@, nv.len()) == last_position(nv, name@, n as nat),
        decreases n,
    {
        assert(nv[n - 1] == names@[n - 1]@);
        if same(&names[n - 1], name) {
            return Some(n - 1);
        }
        n -= 1;
    }
    None
}

fn read_values(values: &Vec<String>, targets: &Vec<String>, cols: &Vec<String>) -> (r: Vec<String>)
    requires
        values@.len() == targets@.len(),
    ensures
        texts(r@) == values_of(texts(values@), texts(targets@), texts(cols@)),
{
    let ghost vv = texts(values@);
    let ghost tv = texts(targets@);
    let mut out: Vec<String> = Vec::new();
    let mut i: usize = 0;
    while i < cols.len()
        invariant
            i <= cols@.len(),
            out@.len() == i,
            vv == texts(values@),
            tv == texts(targets@),
            values@.len() == targets@.len(),
            forall|j: int| 0 <= j < i ==> (#[trigger] out@[j])@ == value_of(vv, tv, cols@[j]@),
        decreases cols@.len() - i,
    {
        let v = match find_last(targets, &cols[i]) {
            Some(k) => {
                assert(vv[k as int] == values@[k as int]@);
                values[k].clone()
            },
            None => "NULL".to_owned(),
        };
        out.push(v);
        i += 1;
    }
    assert(texts(out@) =~= values_of(vv, tv, texts(cols@)));
    out
}

fn read_row(row: &Row, targets: &Vec<String>, cols: &Vec<String>) -> (r: UpsertRow)
    requires
        row@.len() >= targets@.len(),
    ensures
        r@ == upsert_row(row@, texts(targets@), texts(cols@)),
        r.values@.len() == targets@.len(),
{
    let mut values: Vec<String> = Vec::new();
    let n: usize = targets.len();
    let mut i: usize = 0;
    assert(row@.len() == row.cells@.len());
    while i < n
        invariant
            i <= n,
            n == targets@.len(),
            n <= row.cells@.len(),
            values@.len() == i,
            forall|j: int| 0 <= j < i ==> (#[trigger] values@[j])@ == literal(row.cells@[j]@),
        decreases n - i,
    {
        values.push(sql_literal(&row.cells[i]));
        i += 1;
    }
    assert(texts(values@) =~= literals(row@.subrange(0, targets@.len() as int)));
    assert(texts(targets@).len() == targets@.len());
    let conflict_values = read_values(&values, targets, cols);
    let key = join(&conflict_values, "\x1f");
    UpsertRow { values, conflict_values, key }
}

/// The rows of the source, whose values stand in the order of the columns that are written.
pub fn read_upsert_rows(rows: &Vec<Row>, p: &UpsertPlan) -> (r: Vec<UpsertRow>)
    requires
        forall|i: int| 0 <= i < rows@.len() ==> (#[trigger] rows@[i])@.len() >= p.targets@.len(),
    ensures
        views(r@) == upsert_rows(views(rows@), texts(p.targets@), texts(p.conflict_columns@)),
        r@.len() == rows@.len(),
        forall|i: int|
            0 <= i < r@.len() ==> (#[trigger] r@[i]).values@.len() == p.targets@.len(),
{
    let ghost tv = texts(p.targets@);
    let ghost cv = texts(p.conflict_columns@);
    let mut out: Vec<UpsertRow> = Vec::new();
    let mut i: usize = 0;
    while i < rows.len()
        invariant
            i <= rows@.len(),
            out@.len() == i,
            tv == texts(p.targets@),
            cv == texts(p.conflict_columns@),
            forall|k: int|
                0 <= k < rows@.len() ==> (#[trigger] rows@[k])@.len() >= p.targets@.len(),
            forall|j: int| 0 <= j < i ==> (#[trigger] out@[j])@ == upsert_row(rows@[j]@, tv, cv),
            forall|j: int| 0 <= j < i ==> (#[trigger] out@[j]).values@.len() == p.targets@.len(),
        decreases rows@.len() - i,
    {
        let row = read_row(&rows[i], &p.targets, &p.conflict_columns);
        out.push(row);
        i += 1;
    }
    assert(views(out@) =~= upsert_rows(views(rows@), tv, cv));
    out
}

// ---------------------------------------------------------------------------
// Looking the conflict values up
// ---------------------------------------------------------------------------

/// Whether one of the first `n` rows has the key.
pub open spec fn key_seen(rows: Seq<UpsertRowView>, key: Seq<char>, n: nat) -> bool {
    exists|i: int| 0 <= i < n && i < rows.len() && (#[trigger] rows[i]).key == key
}

/// The condition for each different key among the first `n` rows.
pub open spec fn key_conditions(rows: Seq<UpsertRowView>, cols: Seq<Seq<char>>, n: nat) -> Seq<
    Seq<char>,
>
    decreases n,
{
    if n == 0 || n > rows.len() {
        Seq::empty()
    } else {
        let rest = key_conditions(rows, cols, (n - 1) as nat);
        if key_seen(rows, rows[n - 1].key, (n - 1) as nat) {
            rest
        } else {
            rest.push("("@ + tuple_condition(cols, rows[n - 1].conflict_values) + ")"@)
        }
    }
}

/// The query that selects the rows of the table that the rows of the source are in conflict with.
pub fn select_conflicts(p: &UpsertPlan, rows: &Vec<UpsertRow>) -> (r: String)
    ensures
        r@ == "SELECT * FROM \""@ + p.table@ + "\" WHERE "@ + joined(
            key_conditions(views(rows@), texts(p.conflict_columns@), views(rows@).len()),
            " OR "@,
        ),
        r@ == conflict_query(
            p.table@,
            texts(p.conflict_columns@),
            first_of_each(views(rows@), views(rows@).len()),
        ).text,
{
    proof {
        lemma_conflicts_text(p.table@, texts(p.conflict_columns@), views(rows@));
    }
    let ghost rv = views(rows@);
    let ghost cv = texts(p.conflict_columns@);
    let mut seen = StringHashSet::new();
    let mut list: Vec<String> = Vec::new();
    let mut i: usize = 0;
    assert(texts(list@) =~= key_conditions(rv, cv, 0));
    while i < rows.len()
        invariant
            i <= rows@.len(),
            rv == views(rows@),
            rv.len() == rows@.len(),
            cv == texts(p.conflict_columns@),
            forall|k: Seq<char>| #[trigger] seen@.contains(k) <==> key_seen(rv, k, i as nat),
            texts(list@) == key_conditions(rv, cv, i as nat),
        decreases rows@.len() - i,
    {
        assert(rv[i as int] == rows@[i as int]@);
        let ghost before = seen@;
        let ghost kv = rows@[i as int].key@;
        let ghost done = list@;
        if seen.insert(rows[i].key.clone()) {
            let cond = concat3(
                "(",
                &write_condition(&p.conflict_columns, &rows[i].conflict_values),
                ")",
            );
            let ghost cnd = cond@;
            list.push(cond);
            assert(texts(list@) =~= texts(done).push(cnd));
        }
        proof {
            assert forall|k: Seq<char>| #[trigger] seen@.contains(k) <==> key_seen(
                rv,
                k,
                (i + 1) as nat,
            ) by {
                if seen@.contains(k) {
                    if k == kv {
                        assert(rv[i as int].key == k);
                    } else {
                        assert(before.contains(k));
                        let j = choose|j: int|
                            0 <= j < i && j < rv.len() && (#[trigger] rv[j]).key == k;
                        assert(rv[j].key == k);
                    }
                }
                if key_seen(rv, k, (i + 1) as nat) {
                    let j = choose|j: int|
                        0 <= j < i + 1 && j < rv.len() && (#[trigger] rv[j]).key == k;
                    if j < i {
                        assert(key_seen(rv, k, i as nat));
                    }
                }
            }
        }
        i += 1;
    }
    let head = concat3("SELECT * FROM \"", &p.table, "\" WHERE ");
    concat2(&head, &join(&list, " OR "))
}

/// The value of a conflict column in a row of the table.
pub open spec fn stored_value(row: Seq<CellView>, fields: Seq<Seq<char>>, col: Seq<char>) -> Seq<
    char,
> {
    match first_position(fields, col, fields.len()) {
        Some(i) => literal(row[i]),
        None => "NULL"@,
    }
}

/// The values of the conflict columns in a row of the table.
pub open spec fn stored_values(
    row: Seq<CellView>,
    fields: Seq<Seq<char>>,
    cols: Seq<Seq<char>>,
) -> Seq<Seq<char>> {
    Seq::new(cols.len(), |i: int| stored_value(row, fields, cols[i]))
}

/// The keys of the rows of the table.
pub open spec fn stored_keys(
    rows: Seq<Seq<CellView>>,
    fields: Seq<Seq<char>>,
    cols: Seq<Seq<char>>,
) -> Seq<Seq<char>> {
    Seq::new(rows.len(), |i: int| key_text(stored_values(rows[i], fields, cols)))
}

fn read_stored_key(row: &Row, fields: &Vec<String>, cols: &Vec<String>) -> (r: String)
    requires
        row@.len() >= fields@.len(),
    ensures
        r@ == key_text(stored_values(row@, texts(fields@), texts(cols@))),
{
    let ghost fv = texts(fields@);
    let mut parts: Vec<String> = Vec::new();
    let mut i: usize = 0;
    assert(row@.len() == row.cells@.len());
    while i < cols.len()
        invariant
            i <= cols@.len(),
            parts@.len() == i,
            fv == texts(fields@),
            row@.len() == row.cells@.len(),
            row@.len() >= fields@.len(),
            forall|j: int|
                0 <= j < i ==> (#[trigger] parts@[j])@ == stored_value(row@, fv, cols@[j]@),
        decreases cols@.len() - i,
    {
        let v = match find_position(fields, &cols[i]) {
            Some(k) => sql_literal(&row.cells[k]),
            None => "NULL".to_owned(),
        };
        parts.push(v);
        i += 1;
    }
    assert(texts(parts@) =~= stored_values(row@, fv, texts(cols@)));
    join(&parts, "\x1f")
}

/// For each row of the source, whether it is in conflict with a row of the table: `fields` and
/// `stored` are the columns and rows of the answer to [`select_conflicts`].
pub fn find_conflicts(
    p: &UpsertPlan,
    rows: &Vec<UpsertRow>,
    fields: &Vec<String>,
    stored: &Vec<Row>,
) -> (r: Vec<bool>)
    requires
        forall|i: int| 0 <= i < stored@.len() ==> (#[trigger] stored@[i])@.len() >= fields@.len(),
    ensures
        r@ == Seq::new(
            rows@.len(),
            |i: int|
                stored_keys(
                    views(stored@),
                    texts(fields@),
                    texts(p.conflict_columns@),
                ).contains(views(rows@)[i].key),
        ),
{
    let ghost cv = texts(p.conflict_columns@);
    let ghost fv = texts(fields@);
    let ghost keys = stored_keys(views(stored@), fv, cv);
    let mut seen = StringHashSet::new();
    let mut i: usize = 0;
    while i < stored.len()
        invariant
            i <= stored@.len(),
            fv == texts(fields@),
            cv == texts(p.conflict_columns@),
            keys == stored_keys(views(stored@), fv, cv),
            keys.len() == stored@.len(),
            forall|k: int|
                0 <= k < stored@.len() ==> (#[trigger] stored@[k])@.len() >= fields@.len(),
            forall|k: Seq<char>| #[trigger]
                seen@.contains(k) <==> keys.subrange(0, i as int).contains(k),
        decreases stored@.len() - i,
    {
        assert(views(stored@)[i as int] == stored@[i as int]@);
        let key = read_stored_key(&stored[i], fields, &p.conflict_columns);
        let ghost kv = key@;
        let ghost before = seen@;
        seen.insert(key);
        proof {
            assert(keys[i as int] == kv);
            let old_part = keys.subrange(0, i as int);
            let new_part = keys.subrange(0, i + 1);
            assert forall|k: Seq<char>| #[trigger] seen@.contains(k) <==> new_part.contains(k) by {
                if seen@.contains(k) {
                    if k == kv {
                        assert(new_part[i as int] == k);
                    } else {
                        assert(old_part.contains(k));
                        let j = choose|j: int| 0 <= j < old_part.len() && old_part[j] == k;
                        assert(new_part[j] == k);
                    }
                }
                if new_part.contains(k) {
                    let j = choose|j: int| 0 <= j < new_part.len() && new_part[j] == k;
                    if j < i {
                        assert(old_part[j] == k);
                    }
                }
            }
        }
        i += 1;
    }
    assert(keys.subrange(0, keys.len() as int) =~= keys);
    let mut out: Vec<bool> = Vec::new();
    let mut j: usize = 0;
    while j < rows.len()
        invariant
            j <= rows@.len(),
            out@.len() == j,
            forall|k: Seq<char>| #[trigger] seen@.contains(k) <==> keys.contains(k),
            forall|k: int| 0 <= k < j ==> #[trigger] out@[k] == keys.contains(rows@[k].key@),
        decreases rows@.len() - j,
    {
        out.push(seen.contains(&rows[j].key));
        j += 1;
    }
    assert(out@ =~= Seq::new(rows@.len(), |k: int| keys.contains(views(rows@)[k].key)));
    out
}

// ---------------------------------------------------------------------------
// Writing
// ---------------------------------------------------------------------------

/// How many of the first `n` flags are set.
pub open spec fn count_set(flags: Seq<bool>, n: nat) -> nat
    decreases n,
{
    if n == 0 || n > flags.len() {
        0
    } else {
        count_set(flags, (n - 1) as nat) + if flags[n - 1] {
            1nat
        } else {
            0nat
        }
    }
}

/// The values of each of the first `n` rows that is in no conflict, in parentheses.
pub open spec fn new_rows(rows: Seq<UpsertRowView>, flags: Seq<bool>, n: nat) -> Seq<Seq<char>>
    decreases n,
{
    if n == 0 || n > rows.len() {
        Seq::empty()
    } else {
        let rest = new_rows(rows, flags, (n - 1) as nat);
        if flags[n - 1] {
            rest
        } else {
            rest.push("("@ + joined(rows[n - 1].values, ", "@) + ")"@)
        }
    }
}

/// An expression with the values of a row in place of what it says of the excluded row, for the
/// first `n` columns. Of two columns of the same name the last counts.
pub open spec fn with_excluded(
    expr: Seq<char>,
    targets: Seq<Seq<char>>,
    values: Seq<Seq<char>>,
    n: nat,
) -> Seq<char>
    decreases n,
{
    if n == 0 || n > targets.len() {
        expr
    } else {
        let rest = with_excluded(expr, targets, values, (n - 1) as nat);
        let k = targets[n - 1];
        if last_position(targets, k, targets.len()) == Some(n - 1) {
            replaced(
                replaced(rest, "EXCLUDED."@ + k, values[n - 1]),
                "excluded."@ + k,
                values[n - 1],
            )
        } else {
            rest
        }
    }
}

/// What a column is set to for one row that is in conflict.
pub open spec fn when_clause(
    row: UpsertRowView,
    template: Seq<char>,
    cols: Seq<Seq<char>>,
    targets: Seq<Seq<char>>,
    selection: Option<Seq<char>>,
) -> Seq<char> {
    let pred = tuple_condition(cols, row.conflict_values);
    let apply = match selection {
        Some(sel) => "("@ + pred + ") AND ("@ + with_excluded(
            sel,
            targets,
            row.values,
            targets.len(),
        ) + ")"@,
        None => pred,
    };
    "WHEN ("@ + apply + ") THEN ("@ + with_excluded(
        template,
        targets,
        row.values,
        targets.len(),
    ) + ")"@
}

/// What a column is set to for each of the first `n` rows that is in conflict.
pub open spec fn when_clauses(
    rows: Seq<UpsertRowView>,
    flags: Seq<bool>,
    template: Seq<char>,
    cols: Seq<Seq<char>>,
    targets: Seq<Seq<char>>,
    selection: Option<Seq<char>>,
    n: nat,
) -> Seq<Seq<char>>
    decreases n,
{
    if n == 0 || n > rows.len() {
        Seq::empty()
    } else {
        let rest = when_clauses(rows, flags, template, cols, targets, selection, (n - 1) as nat);
        if flags[n - 1] {
            rest.push(when_clause(rows[n - 1], template, cols, targets, selection))
        } else {
            rest
        }
    }
}

/// The value of the last of the first `n` assignments that is about a column.
pub open spec fn last_assigned(assignments: Seq<ParsedAssignmentView>, col: Seq<char>, n: nat) -> Option<
    Seq<char>,
>
    decreases n,
{
    if n == 0 || n > assignments.len() {
        None
    } else if assigned_column(assignments[n - 1]) == col {
        Some(assignments[n - 1].value)
    } else {
        last_assigned(assignments, col, (n - 1) as nat)
    }
}

/// What a column of the table is written anew from.
pub open spec fn merged_column(
    col: Seq<char>,
    template: Option<Seq<char>>,
    rows: Seq<UpsertRowView>,
    flags: Seq<bool>,
    cols: Seq<Seq<char>>,
    targets: Seq<Seq<char>>,
    selection: Option<Seq<char>>,
) -> Seq<char> {
    match template {
        None => "\""@ + col + "\""@,
        Some(t) => {
            let whens = when_clauses(rows, flags, t, cols, targets, selection, rows.len());
            if whens.len() == 0 {
                "\""@ + col + "\""@
            } else {
                "CASE "@ + joined(whens, " "@) + " ELSE \""@ + col + "\" END AS \""@ + col + "\""@
            }
        },
    }
}

/// What each column of the table is written anew from.
pub open spec fn merged_columns(
    cs: Seq<ColumnView>,
    assignments: Seq<ParsedAssignmentView>,
    rows: Seq<UpsertRowView>,
    flags: Seq<bool>,
    cols: Seq<Seq<char>>,
    targets: Seq<Seq<char>>,
    selection: Option<Seq<char>>,
) -> Seq<Seq<char>> {
    Seq::new(
        cs.len(),
        |i: int|
            merged_column(
                cs[i].name,
                last_assigned(assignments, cs[i].name, assignments.len()),
                rows,
                flags,
                cols,
                targets,
                selection,
            ),
    )
}

/// What is written, and how many rows each way.
pub struct UpsertWrites {
    /// The statement that inserts the rows that are in no conflict.
    pub insert_sql: Option<String>,
    /// The query that selects the rows of the table as they are to be.
    pub rewrite_sql: Option<String>,
    pub inserted: usize,
    pub updated: usize,
    pub skipped: usize,
    /// The answer.
    pub message: String,
}

/// The answer to `INSERT ... ON CONFLICT`.
pub open spec fn upsert_message(inserted: nat, updated: nat, skipped: nat) -> Seq<char> {
    "UPSERT complete: "@ + decimal(inserted) + " inserted, "@ + decimal(updated) + " updated, "@
        + decimal(skipped) + " skipped."@
}

fn write_new_rows(rows: &Vec<UpsertRow>, flags: &Vec<bool>) -> (r: Vec<String>)
    requires
        flags@.len() == rows@.len(),
    ensures
        texts(r@) == new_rows(views(rows@), flags@, views(rows@).len()),
        r@.len() == rows@.len() - count_set(flags@, flags@.len()),
{
    let ghost rv = views(rows@);
    let mut out: Vec<String> = Vec::new();
    let mut i: usize = 0;
    assert(texts(out@) =~= new_rows(rv, flags@, 0));
    while i < rows.len()
        invariant
            i <= rows@.len(),
            rv == views(rows@),
            rv.len() == rows@.len(),
            flags@.len() == rows@.len(),
            texts(out@) == new_rows(rv, flags@, i as nat),
            out@.len() == i - count_set(flags@, i as nat),
        decreases rows@.len() - i,
    {
        assert(rv[i as int] == rows@[i as int]@);
        let ghost done = out@;
        if !flags[i] {
            let piece = concat3("(", &join(&rows[i].values, ", "), ")");
            let ghost pv = piece@;
            out.push(piece);
            assert(texts(out@) =~= texts(done).push(pv));
        }
        i += 1;
    }
    out
}

fn write_excluded(expr: &str, targets: &Vec<String>, values: &Vec<String>) -> (r: String)
    requires
        values@.len() == targets@.len(),
    ensures
        r@ == with_excluded(expr@, texts(targets@), texts(values@), texts(targets@).len()),
{
    let ghost tv = texts(targets@);
    let ghost vv = texts(values@);
    let mut out = expr.to_owned();
    let mut i: usize = 0;
    while i < targets.len()
        invariant
            i <= targets@.len(),
            tv == texts(targets@),
            vv == texts(values@),
            tv.len() == targets@.len(),
            values@.len() == targets@.len(),
            out@ == with_excluded(expr@, tv, vv, i as nat),
        decreases targets@.len() - i,
    {
        assert(tv[i as int] == targets@[i as int]@);
        assert(vv[i as int] == values@[i as int]@);
        let last: bool = match find_last(targets, &targets[i]) {
            Some(k) => k == i,
            None => false,
        };
        if last {
            let upper = concat2("EXCLUDED.", &targets[i]);
            let lower = concat2("excluded.", &targets[i]);
            out = replace(&replace(&out, &upper, &values[i]), &lower, &values[i]);
        }
        i += 1;
    }
    out
}

fn write_when_clauses(
    rows: &Vec<UpsertRow>,
    flags: &Vec<bool>,
    template: &str,
    p: &UpsertPlan,
    selection: &Option<String>,
) -> (r: Vec<String>)
    requires
        flags@.len() == rows@.len(),
        forall|i: int|
            0 <= i < rows@.len() ==> (#[trigger] rows@[i]).values@.len() == p.targets@.len(),
    ensures
        texts(r@) == when_clauses(
            views(rows@),
            flags@,
            template@,
            texts(p.conflict_columns@),
            texts(p.targets@),
            opt_text(*selection),
            views(rows@).len(),
        ),
{
    let ghost rv = views(rows@);
    let ghost cv = texts(p.conflict_columns@);
    let ghost tv = texts(p.targets@);
    let ghost sel = opt_text(*selection);
    let mut out: Vec<String> = Vec::new();
    let mut i: usize = 0;
    assert(texts(out@) =~= when_clauses(rv, flags@, template@, cv, tv, sel, 0));
    while i < rows.len()
        invariant
            i <= rows@.len(),
            rv == views(rows@),
            rv.len() == rows@.len(),
            cv == texts(p.conflict_columns@),
            tv == texts(p.targets@),
            sel == opt_text(*selection),
            flags@.len() == rows@.len(),
            forall|k: int|
                0 <= k < rows@.len() ==> (#[trigger] rows@[k]).values@.len() == p.targets@.len(),
            texts(out@) == when_clauses(rv, flags@, template@, cv, tv, sel, i as nat),
        decreases rows@.len() - i,
    {
        assert(rv[i as int] == rows@[i as int]@);
        let ghost done = out@;
        if flags[i] {
            let pred = write_condition(&p.conflict_columns, &rows[i].conflict_values);
            let apply = match selection {
                Some(sel_expr) => {
                    let head = concat3("(", &pred, ") AND (");
                    let e = write_excluded(sel_expr, &p.targets, &rows[i].values);
                    concat3(&head, &e, ")")
                },
                None => pred,
            };
            let expr = write_excluded(template, &p.targets, &rows[i].values);
            let head = concat3("WHEN (", &apply, ") THEN (");
            let clause = concat3(&head, &expr, ")");
            assert(clause@ == when_clause(rv[i as int], template@, cv, tv, sel));
            let ghost clv = clause@;
            out.push(clause);
            assert(texts(out@) =~= texts(done).push(clv));
        }
        i += 1;
    }
    out
}

fn find_last_assigned(assignments: &Vec<ParsedAssignment>, col: &str) -> (r: Option<String>)
    ensures
        opt_text(r) == last_assigned(views(assignments@), col@, views(assignments@).len()),
{
    let ghost av = views(assignments@);
    let mut n: usize = assignments.len();
    while n > 0
        invariant
            n <= assignments@.len(),
            av == views(assignments@),
            av.len() == assignments@.len(),
            last_assigned(av, col@, av.len()) == last_assigned(av, col@, n as nat),
        decreases n,
    {
        assert(av[n - 1] == assignments@[n - 1]@);
        if same(&column_of_assignment(&assignments[n - 1]), col) {
            return Some(assignments[n - 1].value.clone());
        }
        n -= 1;
    }
    None
}

fn write_merged_columns(
    cs: &Vec<ColumnDef>,
    assignments: &Vec<ParsedAssignment>,
    rows: &Vec<UpsertRow>,
    flags: &Vec<bool>,
    p: &UpsertPlan,
    selection: &Option<String>,
) -> (r: Vec<String>)
    requires
        flags@.len() == rows@.len(),
        forall|i: int|
            0 <= i < rows@.len() ==> (#[trigger] rows@[i]).values@.len() == p.targets@.len(),
    ensures
        texts(r@) == merged_columns(
            views(cs@),
            views(assignments@),
            views(rows@),
            flags@,
            texts(p.conflict_columns@),
            texts(p.targets@),
            opt_text(*selection),
        ),
{
    let ghost av = views(assignments@);
    let ghost rv = views(rows@);
    let ghost cv = texts(p.conflict_columns@);
    let ghost tv = texts(p.targets@);
    let ghost sel = opt_text(*selection);
    let mut out: Vec<String> = Vec::new();
    let mut i: usize = 0;
    while i < cs.len()
        invariant
            i <= cs@.len(),
            out@.len() == i,
            av == views(assignments@),
            rv == views(rows@),
            cv == texts(p.conflict_columns@),
            tv == texts(p.targets@),
            sel == opt_text(*selection),
            flags@.len() == rows@.len(),
            forall|k: int|
                0 <= k < rows@.len() ==> (#[trigger] rows@[k]).values@.len() == p.targets@.len(),
            forall|j: int|
                0 <= j < i ==> (#[trigger] out@[j])@ == merged_column(
                    cs@[j]@.name,
                    last_assigned(av, cs@[j]@.name, av.len()),
                    rv,
                    flags@,
                    cv,
                    tv,
                    sel,
                ),
        decreases cs@.len() - i,
    {
        let piece = match find_last_assigned(assignments, &cs[i].name) {
            None => concat3("\"", &cs[i].name, "\""),
            Some(t) => {
                let whens = write_when_clauses(rows, flags, &t, p, selection);
                assert(texts(whens@).len() == whens@.len());
                if whens.len() == 0 {
                    concat3("\"", &cs[i].name, "\"")
                } else {
                    let head = concat3("CASE ", &join(&whens, " "), " ELSE \"");
                    let end = concat3(&head, &cs[i].name, "\" END AS \"");
                    concat3(&end, &cs[i].name, "\"")
                }
            },
        };
        out.push(piece);
        i += 1;
    }
    assert(texts(out@) =~= merged_columns(views(cs@), av, rv, flags@, cv, tv, sel));
    out
}

fn count_conflicts(flags: &Vec<bool>) -> (r: usize)
    ensures
        r == count_set(flags@, flags@.len()),
        r <= flags@.len(),
{
    let mut n: usize = 0;
    let mut i: usize = 0;
    while i < flags.len()
        invariant
            i <= flags@.len(),
            n <= i,
            n == count_set(flags@, i as nat),
        decreases flags@.len() - i,
    {
        if flags[i] {
            n += 1;
        }
        i += 1;
    }
    n
}

fn write_message(inserted: usize, updated: usize, skipped: usize) -> (r: String)
    ensures
        r@ == upsert_message(inserted as nat, updated as nat, skipped as nat),
{
    let head = concat3("UPSERT complete: ", &print_usize(inserted), " inserted, ");
    let with_updated = concat3(&head, &print_usize(updated), " updated, ");
    concat3(&with_updated, &print_usize(skipped), " skipped.")
}

/// What is written for the rows of the source, given which of them are in conflict.
pub fn plan_writes(
    p: &UpsertPlan,
    cs: &Vec<ColumnDef>,
    clause: &ConflictClause,
    rows: &Vec<UpsertRow>,
    conflicts: &Vec<bool>,
) -> (r: UpsertWrites)
    requires
        conflicts@.len() == rows@.len(),
        forall|i: int|
            0 <= i < rows@.len() ==> (#[trigger] rows@[i]).values@.len() == p.targets@.len(),
    ensures
        ({
            let rv = views(rows@);
            let hits = count_set(conflicts@, conflicts@.len());
            &&& r.inserted == rows@.len() - hits
            &&& opt_text(r.insert_sql) == if r.inserted == 0 {
                None
            } else {
                Some(
                    "INSERT INTO \""@ + p.table@ + "\" ("@ + joined(
                        quoted_columns(texts(p.targets@)),
                        ", "@,
                    ) + ") VALUES "@ + joined(new_rows(rv, conflicts@, rv.len()), ", "@),
                )
            }
            &&& match clause.action@ {
                ParsedConflictView::DoNothing => {
                    &&& r.rewrite_sql is None
                    &&& r.updated == 0
                    &&& r.skipped == hits
                },
                ParsedConflictView::DoUpdate { selection } => {
                    &&& r.updated == hits
                    &&& r.skipped == 0
                    &&& opt_text(r.rewrite_sql) == if hits == 0 {
                        None
                    } else {
                        Some(
                            "SELECT "@ + joined(
                                merged_columns(
                                    views(cs@),
                                    views(clause.assignments@),
                                    rv,
                                    conflicts@,
                                    texts(p.conflict_columns@),
                                    texts(p.targets@),
                                    selection,
                                ),
                                ", "@,
                            ) + " FROM \""@ + p.table@ + "\""@,
                        )
                    }
                    &&& r.rewrite_sql matches Some(q) ==> q@ == meaning::select(
                        meaning::list_of(
                            merged_phrases(
                                views(cs@),
                                views(clause.assignments@),
                                rv,
                                conflicts@,
                                texts(p.conflict_columns@),
                                texts(p.targets@),
                                selection,
                            ),
                        ),
                        meaning::table(meaning::quoted_name(p.table@)),
                    ).text
                },
            }
            &&& r.message@ == upsert_message(r.inserted as nat, r.updated as nat, r.skipped as nat)
        }),
{
    let hits: usize = count_conflicts(conflicts);
    let fresh = write_new_rows(rows, conflicts);
    let inserted: usize = fresh.len();
    let insert_sql: Option<String> = if inserted == 0 {
        None
    } else {
        let head = concat3("INSERT INTO \"", &p.table, "\" (");
        let list = concat3(&head, &join(&quote_columns(&p.targets), ", "), ") VALUES ");
        Some(concat2(&list, &join(&fresh, ", ")))
    };
    match &clause.action {
        ParsedConflict::DoNothing => UpsertWrites {
            insert_sql,
            rewrite_sql: None,
            inserted,
            updated: 0,
            skipped: hits,
            message: write_message(inserted, 0, hits),
        },
        ParsedConflict::DoUpdate { selection } => {
            let rewrite_sql: Option<String> = if hits == 0 {
                None
            } else {
                let list = join(
                    &write_merged_columns(cs, &clause.assignments, rows, conflicts, p, selection),
                    ", ",
                );
                let head = concat3("SELECT ", &list, " FROM \"");
                proof {
                    law_upsert_loses_no_row(
                        p.table@,
                        views(cs@),
                        views(clause.assignments@),
                        views(rows@),
                        conflicts@,
                        texts(p.conflict_columns@),
                        texts(p.targets@),
                        opt_text(*selection),
                        World {
                            tables: Map::empty(),
                            other: |t: Seq<char>, s: Seq<Frame>| Value::Null,
                            cast: |v: Value, t: Seq<char>| v,
                        },
                    );
                }
                Some(concat3(&head, &p.table, "\""))
            };
            UpsertWrites {
                insert_sql,
                rewrite_sql,
                inserted,
                updated: hits,
                skipped: 0,
                message: write_message(inserted, hits, 0),
            }
        },
    }
}

// ---------------------------------------------------------------------------
// Laws
// ---------------------------------------------------------------------------

proof fn lemma_new_rows_len(rows: Seq<UpsertRowView>, flags: Seq<bool>, n: nat)
    requires
        n <= rows.len(),
        n <= flags.len(),
    ensures
        new_rows(rows, flags, n).len() + count_set(flags, n) == n,
    decreases n,
{
    if n > 0 {
        lemma_new_rows_len(rows, flags, (n - 1) as nat);
    }
}

/// Every row of the source is either inserted or in conflict.
pub proof fn law_every_row_goes_one_way(rows: Seq<UpsertRowView>, flags: Seq<bool>)
    requires
        flags.len() == rows.len(),
    ensures
        new_rows(rows, flags, rows.len()).len() + count_set(flags, flags.len()) == rows.len(),
{
    lemma_new_rows_len(rows, flags, rows.len());
}

/// Rows of the source with the same values in the conflict columns are all in conflict, or none of
/// them is.
pub proof fn law_same_values_same_way(
    a: Seq<CellView>,
    b: Seq<CellView>,
    targets: Seq<Seq<char>>,
    cols: Seq<Seq<char>>,
    keys: Seq<Seq<char>>,
)
    requires
        upsert_row(a, targets, cols).conflict_values == upsert_row(
            b,
            targets,
            cols,
        ).conflict_values,
    ensures
        keys.contains(upsert_row(a, targets, cols).key) <==> keys.contains(
            upsert_row(b, targets, cols).key,
        ),
{
}

/// Those of the first `n` rows that are in conflict.
pub open spec fn conflicting(rows: Seq<UpsertRowView>, flags: Seq<bool>, n: nat) -> Seq<
    UpsertRowView,
>
    decreases n,
{
    if n == 0 || n > rows.len() {
        Seq::empty()
    } else if flags[n - 1] {
        conflicting(rows, flags, (n - 1) as nat).push(rows[n - 1])
    } else {
        conflicting(rows, flags, (n - 1) as nat)
    }
}

/// The test for the stored row that a row of the source is in conflict with and may change.
pub open spec fn conflict_test(
    row: UpsertRowView,
    cols: Seq<Seq<char>>,
    targets: Seq<Seq<char>>,
    selection: Option<Seq<char>>,
) -> Phrase {
    let pred = key_test(cols, row.conflict_values);
    match selection {
        Some(sel) => meaning::paren(
            meaning::both(
                meaning::paren(pred),
                meaning::paren(
                    meaning::other(with_excluded(sel, targets, row.values, targets.len())),
                ),
            ),
        ),
        None => meaning::paren(pred),
    }
}

/// What a row of the source sets a column to.
pub open spec fn conflict_value(
    row: UpsertRowView,
    template: Seq<char>,
    targets: Seq<Seq<char>>,
) -> Phrase {
    meaning::paren(meaning::other(with_excluded(template, targets, row.values, targets.len())))
}

/// What a column of the table is written anew from, with its meaning.
pub open spec fn merged_phrase(
    col: Seq<char>,
    template: Option<Seq<char>>,
    rows: Seq<UpsertRowView>,
    flags: Seq<bool>,
    cols: Seq<Seq<char>>,
    targets: Seq<Seq<char>>,
    selection: Option<Seq<char>>,
) -> Phrase {
    let found = conflicting(rows, flags, rows.len());
    match template {
        None => meaning::column(col),
        Some(t) => if found.len() == 0 {
            meaning::column(col)
        } else {
            meaning::named(
                meaning::case(
                    Seq::new(
                        found.len(),
                        |i: int| conflict_test(found[i], cols, targets, selection),
                    ),
                    Seq::new(found.len(), |i: int| conflict_value(found[i], t, targets)),
                    meaning::column(col),
                ),
                col,
            )
        },
    }
}

/// Whether a row of the source changes a stored row: the stored row has its conflict values, and the
/// condition of the clause is met.
pub open spec fn changes(
    w: World,
    name: Seq<char>,
    row: UpsertRowView,
    cols: Seq<Seq<char>>,
    targets: Seq<Seq<char>>,
    selection: Option<Seq<char>>,
    stored: Map<Seq<char>, Value>,
) -> bool {
    &&& has_key(w, name, cols, row.conflict_values, stored)
    &&& selection matches Some(sel) ==> meaning::holds(
        (w.other)(
            with_excluded(sel, targets, row.values, targets.len()),
            seq![Frame { name, row: stored }],
        ),
    )
}

proof fn lemma_conflict_test(
    w: World,
    name: Seq<char>,
    row: UpsertRowView,
    cols: Seq<Seq<char>>,
    targets: Seq<Seq<char>>,
    selection: Option<Seq<char>>,
    stored: Map<Seq<char>, Value>,
)
    requires
        row.conflict_values.len() == cols.len(),
    ensures
        meaning::holds(
            (conflict_test(row, cols, targets, selection).value)(
                w,
                seq![Frame { name, row: stored }],
            ),
        ) == changes(w, name, row, cols, targets, selection, stored),
{
    law_key_condition(w, name, cols, row.conflict_values, stored);
    if let Some(sel) = selection {
        meaning::lemma_all_two(
            meaning::paren(key_test(cols, row.conflict_values)),
            meaning::paren(
                meaning::other(with_excluded(sel, targets, row.values, targets.len())),
            ),
        );
    }
}

proof fn lemma_when_text(
    row: UpsertRowView,
    cols: Seq<Seq<char>>,
    targets: Seq<Seq<char>>,
    selection: Option<Seq<char>>,
    template: Seq<char>,
)
    ensures
        when_clause(row, template, cols, targets, selection) == meaning::when_then(
            conflict_test(row, cols, targets, selection),
            conflict_value(row, template, targets),
        ),
{
    lemma_key_text(cols, row.conflict_values);
    let pred = key_test(cols, row.conflict_values);
    reveal_strlit("WHEN (");
    reveal_strlit("WHEN ");
    reveal_strlit(") THEN (");
    reveal_strlit(" THEN ");
    reveal_strlit("(");
    reveal_strlit(")");
    if let Some(sel) = selection {
        let p = meaning::paren(pred);
        let q = meaning::paren(
            meaning::other(with_excluded(sel, targets, row.values, targets.len())),
        );
        meaning::lemma_all_two(p, q);
        reveal_strlit(") AND (");
        reveal_strlit(" AND ");
    }
    assert(when_clause(row, template, cols, targets, selection) =~= meaning::when_then(
        conflict_test(row, cols, targets, selection),
        conflict_value(row, template, targets),
    ));
}

proof fn lemma_when_clauses(
    rows: Seq<UpsertRowView>,
    flags: Seq<bool>,
    template: Seq<char>,
    cols: Seq<Seq<char>>,
    targets: Seq<Seq<char>>,
    selection: Option<Seq<char>>,
    n: nat,
)
    requires
        n <= rows.len(),
    ensures
        when_clauses(rows, flags, template, cols, targets, selection, n) == Seq::new(
            conflicting(rows, flags, n).len(),
            |i: int|
                when_clause(conflicting(rows, flags, n)[i], template, cols, targets, selection),
        ),
    decreases n,
{
    if n > 0 {
        lemma_when_clauses(rows, flags, template, cols, targets, selection, (n - 1) as nat);
    }
    assert(when_clauses(rows, flags, template, cols, targets, selection, n) =~= Seq::new(
        conflicting(rows, flags, n).len(),
        |i: int| when_clause(conflicting(rows, flags, n)[i], template, cols, targets, selection),
    ));
}

/// Where a row that is in conflict stands among those that are.
proof fn lemma_conflicting(rows: Seq<UpsertRowView>, flags: Seq<bool>, n: nat)
    requires
        n <= rows.len(),
        n <= flags.len(),
    ensures
        conflicting(rows, flags, n).len() == count_set(flags, n),
        forall|i: int|
            0 <= i < n && #[trigger] flags[i] ==> count_set(flags, i as nat) < count_set(flags, n)
                && conflicting(rows, flags, n)[count_set(flags, i as nat) as int] == rows[i],
    decreases n,
{
    if n > 0 {
        lemma_conflicting(rows, flags, (n - 1) as nat);
    }
}

proof fn lemma_conflicting_origin(
    rows: Seq<UpsertRowView>,
    flags: Seq<bool>,
    n: nat,
    k: int,
) -> (i: int)
    requires
        n <= rows.len(),
        n <= flags.len(),
        0 <= k < conflicting(rows, flags, n).len(),
    ensures
        0 <= i < n,
        flags[i],
        count_set(flags, i as nat) == k,
        rows[i] == conflicting(rows, flags, n)[k],
    decreases n,
{
    let m = (n - 1) as nat;
    lemma_conflicting(rows, flags, m);
    if k < conflicting(rows, flags, m).len() {
        lemma_conflicting_origin(rows, flags, m, k)
    } else {
        n - 1
    }
}

proof fn lemma_count_set_grows(flags: Seq<bool>, a: nat, b: nat)
    requires
        a <= b <= flags.len(),
    ensures
        count_set(flags, a) <= count_set(flags, b),
    decreases b,
{
    if a < b {
        lemma_count_set_grows(flags, a, (b - 1) as nat);
    }
}

proof fn lemma_merged_text(
    col: Seq<char>,
    template: Option<Seq<char>>,
    rows: Seq<UpsertRowView>,
    flags: Seq<bool>,
    cols: Seq<Seq<char>>,
    targets: Seq<Seq<char>>,
    selection: Option<Seq<char>>,
)
    ensures
        merged_column(col, template, rows, flags, cols, targets, selection) == merged_phrase(
            col,
            template,
            rows,
            flags,
            cols,
            targets,
            selection,
        ).text,
{
    if let Some(t) = template {
        let found = conflicting(rows, flags, rows.len());
        lemma_when_clauses(rows, flags, t, cols, targets, selection, rows.len());
        let conds = Seq::new(found.len(), |i: int| conflict_test(found[i], cols, targets, selection));
        let vals = Seq::new(found.len(), |i: int| conflict_value(found[i], t, targets));
        let whens = when_clauses(rows, flags, t, cols, targets, selection, rows.len());
        assert forall|k: int| 0 <= k < found.len() implies #[trigger] whens[k]
            == meaning::when_then(conds[k], vals[k]) by {
            lemma_when_text(found[k], cols, targets, selection, t);
        }
        assert(whens =~= Seq::new(conds.len(), |i: int| meaning::when_then(conds[i], vals[i])));
        if found.len() > 0 {
            reveal_strlit("CASE ");
            reveal_strlit(" ELSE \"");
            reveal_strlit(" ELSE ");
            reveal_strlit("\" END AS \"");
            reveal_strlit(" END");
            reveal_strlit(" AS ");
            reveal_strlit("\"");
            let list = joined(whens, " "@);
            assert("CASE "@ + list + " ELSE \""@ + col + "\" END AS \""@ + col + "\""@
                =~= merged_phrase(col, template, rows, flags, cols, targets, selection).text);
        }
    }
}

/// What an upsert writes back into a column of a stored row. The column keeps its value where it has no
/// assignment, and where no row of the source that is in conflict changes the stored row. Else it
/// gets the value that the assignment has for the first such row.
pub proof fn law_stored_rows_change_only_in_conflict(
    w: World,
    table: Seq<char>,
    col: Seq<char>,
    template: Option<Seq<char>>,
    rows: Seq<UpsertRowView>,
    flags: Seq<bool>,
    cols: Seq<Seq<char>>,
    targets: Seq<Seq<char>>,
    selection: Option<Seq<char>>,
    stored: Map<Seq<char>, Value>,
)
    requires
        flags.len() == rows.len(),
        forall|i: int|
            0 <= i < rows.len() ==> (#[trigger] rows[i]).conflict_values.len() == cols.len(),
    ensures
        ({
            let name = meaning::quoted_name(table);
            let s = seq![Frame { name, row: stored }];
            let p = merged_phrase(col, template, rows, flags, cols, targets, selection);
            let changed = |i: int|
                flags[i] && changes(w, name, rows[i], cols, targets, selection, stored);
            &&& merged_column(col, template, rows, flags, cols, targets, selection) == p.text
            &&& template is None ==> (p.value)(w, s) == meaning::cell_of(stored, col)
            &&& (forall|i: int| 0 <= i < rows.len() ==> !#[trigger] changed(i)) ==> (p.value)(w, s)
                == meaning::cell_of(stored, col)
            &&& forall|i: int|
                template is Some && 0 <= i < rows.len() && #[trigger] changed(i) && (forall|j: int|
                    0 <= j < i ==> !#[trigger] changed(j)) ==> (p.value)(w, s) == (w.other)(
                    with_excluded(template->0, targets, rows[i].values, targets.len()),
                    s,
                )
        }),
{
    let name = meaning::quoted_name(table);
    let s = seq![Frame { name, row: stored }];
    let p = merged_phrase(col, template, rows, flags, cols, targets, selection);
    let changed = |i: int| flags[i] && changes(w, name, rows[i], cols, targets, selection, stored);
    meaning::lemma_single_column(name, stored, col);
    lemma_merged_text(col, template, rows, flags, cols, targets, selection);
    if let Some(t) = template {
        let found = conflicting(rows, flags, rows.len());
        lemma_when_clauses(rows, flags, t, cols, targets, selection, rows.len());
        lemma_conflicting(rows, flags, rows.len());
        let conds = Seq::new(found.len(), |i: int| conflict_test(found[i], cols, targets, selection));
        let vals = Seq::new(found.len(), |i: int| conflict_value(found[i], t, targets));
        let cv = meaning::phrase_values(conds, w, s);
        let vv = meaning::phrase_values(vals, w, s);
        assert forall|k: int| 0 <= k < found.len() implies meaning::holds(#[trigger] cv[k])
            == changes(w, name, found[k], cols, targets, selection, stored) by {
            let i = lemma_conflicting_origin(rows, flags, rows.len(), k);
            assert(rows[i].conflict_values.len() == cols.len());
            lemma_conflict_test(w, name, found[k], cols, targets, selection, stored);
        }
        if found.len() > 0 {
            meaning::lemma_first_case(cv, vv, meaning::cell_of(stored, col), 0);
            if forall|i: int| 0 <= i < rows.len() ==> !#[trigger] changed(i) {
                assert forall|k: int| 0 <= k < cv.len() implies !meaning::holds(
                    #[trigger] cv[k],
                ) by {
                    let i = lemma_conflicting_origin(rows, flags, rows.len(), k);
                    assert(!changed(i));
                }
            }
            assert forall|i: int|
                0 <= i < rows.len() && #[trigger] changed(i) && (forall|j: int|
                    0 <= j < i ==> !#[trigger] changed(j)) implies (p.value)(w, s) == (w.other)(
                with_excluded(t, targets, rows[i].values, targets.len()),
                s,
            ) by {
                assert(flags[i]);
                let k = count_set(flags, i as nat) as int;
                assert(found[k] == rows[i]);
                assert(meaning::holds(cv[k]));
                assert forall|x: int| 0 <= x < k implies !meaning::holds(#[trigger] cv[x]) by {
                    let j = lemma_conflicting_origin(rows, flags, rows.len(), x);
                    if j >= i {
                        lemma_count_set_grows(flags, i as nat, j as nat);
                    }
                    assert(!changed(j));
                }
                assert(vv[k] == (w.other)(
                    with_excluded(t, targets, rows[i].values, targets.len()),
                    s,
                ));
            }
        } else {
            assert forall|i: int| 0 <= i < rows.len() implies !#[trigger] changed(i) by {
                if flags[i] {
                    assert(count_set(flags, i as nat) < count_set(flags, rows.len()));
                }
            }
        }
    }
}

/// Exactly the rows of the source that are in no conflict are inserted, each once and in their order.
pub proof fn law_rows_without_conflict_are_inserted(
    rows: Seq<UpsertRowView>,
    flags: Seq<bool>,
    i: int,
)
    requires
        flags.len() == rows.len(),
        0 <= i < rows.len(),
        !flags[i],
    ensures
        ({
            let at = i - count_set(flags, i as nat);
            let list = new_rows(rows, flags, rows.len());
            &&& 0 <= at < list.len()
            &&& list[at] == "("@ + joined(rows[i].values, ", "@) + ")"@
        }),
{
    lemma_new_row_at(rows, flags, i, rows.len());
}

proof fn lemma_new_row_at(rows: Seq<UpsertRowView>, flags: Seq<bool>, i: int, n: nat)
    requires
        flags.len() == rows.len(),
        0 <= i < n <= rows.len(),
        !flags[i],
    ensures
        ({
            let at = i - count_set(flags, i as nat);
            let list = new_rows(rows, flags, n);
            &&& 0 <= at < list.len()
            &&& list[at] == "("@ + joined(rows[i].values, ", "@) + ")"@
        }),
    decreases n,
{
    lemma_new_rows_len(rows, flags, i as nat);
    lemma_new_rows_len(rows, flags, (n - 1) as nat);
    if i < n - 1 {
        lemma_new_row_at(rows, flags, i, (n - 1) as nat);
    }
}

/// In an assignment `EXCLUDED.col`, in either case, stands for the value that the row of the source has for
/// the column. An expression that does not speak of the excluded row stays.
pub proof fn law_excluded_is_the_new_row(
    expr: Seq<char>,
    col: Seq<char>,
    value: Seq<char>,
)
    requires
        forall|i: int| !#[trigger] occurs_at(value, "excluded."@ + col, i),
        forall|i: int| !#[trigger] occurs_at("excluded."@ + col, "EXCLUDED."@ + col, i),
    ensures
        with_excluded("EXCLUDED."@ + col, seq![col], seq![value], 1) == value,
        with_excluded("excluded."@ + col, seq![col], seq![value], 1) == value,
        (forall|i: int| !#[trigger] occurs_at(expr, "EXCLUDED."@ + col, i)) && (forall|i: int|
            !#[trigger] occurs_at(expr, "excluded."@ + col, i)) ==> with_excluded(
            expr,
            seq![col],
            seq![value],
            1,
        ) == expr,
{
    reveal_strlit("EXCLUDED.");
    reveal_strlit("excluded.");
    let up = "EXCLUDED."@ + col;
    let low = "excluded."@ + col;
    let targets = seq![col];
    assert(last_position(targets, targets[0], 1) == Some(0int));
    assert forall|e: Seq<char>| #[trigger] with_excluded(e, targets, seq![value], 1) == replaced(
        replaced(e, up, value),
        low,
        value,
    ) by {
        assert(with_excluded(e, targets, seq![value], 0) == e);
    }
    law_pattern_alone_is_replaced(up, value);
    law_text_without_the_pattern_stays(value, low, value);
    law_text_without_the_pattern_stays(low, up, value);
    law_pattern_alone_is_replaced(low, value);
    if (forall|i: int| !#[trigger] occurs_at(expr, up, i)) && (forall|i: int|
        !#[trigger] occurs_at(expr, low, i)) {
        law_text_without_the_pattern_stays(expr, up, value);
        law_text_without_the_pattern_stays(expr, low, value);
    }
}

/// Of several assignments to a column the last counts, and a column without one has none.
pub proof fn law_last_assignment_counts(
    assignments: Seq<ParsedAssignmentView>,
    col: Seq<char>,
    n: nat,
    i: int,
)
    requires
        n <= assignments.len(),
    ensures
        0 <= i < n && assigned_column(assignments[i]) == col && (forall|j: int|
            i < j < n ==> assigned_column(#[trigger] assignments[j]) != col) ==> last_assigned(
            assignments,
            col,
            n,
        ) == Some(assignments[i].value),
        (forall|j: int| 0 <= j < n ==> assigned_column(#[trigger] assignments[j]) != col)
            ==> last_assigned(assignments, col, n) is None,
    decreases n,
{
    if n > 0 {
        law_last_assignment_counts(assignments, col, (n - 1) as nat, i);
        if 0 <= i < n - 1 && assigned_column(assignments[i]) == col && (forall|j: int|
            i < j < n ==> assigned_column(#[trigger] assignments[j]) != col) {
            assert(assigned_column(assignments[n - 1]) != col);
        }
        if forall|j: int| 0 <= j < n ==> assigned_column(#[trigger] assignments[j]) != col {
            assert(assigned_column(assignments[n - 1]) != col);
        }
    }
}

/// The query that selects the rows of the table that rows of the source are in conflict with.
pub open spec fn conflict_query(
    table: Seq<char>,
    cols: Seq<Seq<char>>,
    tests: Seq<UpsertRowView>,
) -> Query {
    meaning::select_where(
        "*"@,
        meaning::table(meaning::quoted_name(table)),
        meaning::any(key_tests(cols, tests)),
    )
}

/// The test for the conflict values of each row, in parentheses.
pub open spec fn key_tests(cols: Seq<Seq<char>>, tests: Seq<UpsertRowView>) -> Seq<Phrase> {
    Seq::new(tests.len(), |i: int| meaning::paren(key_test(cols, tests[i].conflict_values)))
}

/// The first of the first `n` rows with each key.
pub open spec fn first_of_each(rows: Seq<UpsertRowView>, n: nat) -> Seq<UpsertRowView>
    decreases n,
{
    if n == 0 || n > rows.len() {
        Seq::empty()
    } else if key_seen(rows, rows[n - 1].key, (n - 1) as nat) {
        first_of_each(rows, (n - 1) as nat)
    } else {
        first_of_each(rows, (n - 1) as nat).push(rows[n - 1])
    }
}

proof fn lemma_key_conditions(rows: Seq<UpsertRowView>, cols: Seq<Seq<char>>, n: nat)
    requires
        n <= rows.len(),
    ensures
        key_conditions(rows, cols, n) == meaning::phrase_texts(
            key_tests(cols, first_of_each(rows, n)),
        ),
    decreases n,
{
    if n > 0 {
        lemma_key_conditions(rows, cols, (n - 1) as nat);
        lemma_key_text(cols, rows[n - 1].conflict_values);
    }
    assert(key_conditions(rows, cols, n) =~= meaning::phrase_texts(
        key_tests(cols, first_of_each(rows, n)),
    ));
}

proof fn lemma_conflicts_text(table: Seq<char>, cols: Seq<Seq<char>>, rows: Seq<UpsertRowView>)
    ensures
        "SELECT * FROM \""@ + table + "\" WHERE "@ + joined(
            key_conditions(rows, cols, rows.len()),
            " OR "@,
        ) == conflict_query(table, cols, first_of_each(rows, rows.len())).text,
{
    lemma_key_conditions(rows, cols, rows.len());
    let list = joined(key_conditions(rows, cols, rows.len()), " OR "@);
    reveal_strlit("SELECT * FROM \"");
    reveal_strlit("SELECT ");
    reveal_strlit("*");
    reveal_strlit(" FROM ");
    reveal_strlit("\"");
    reveal_strlit("\" WHERE ");
    reveal_strlit(" WHERE ");
    assert("SELECT * FROM \""@ + table + "\" WHERE "@ + list =~= conflict_query(
        table,
        cols,
        first_of_each(rows, rows.len()),
    ).text);
}

proof fn lemma_first_origin(rows: Seq<UpsertRowView>, n: nat, k: int) -> (i: int)
    requires
        n <= rows.len(),
        0 <= k < first_of_each(rows, n).len(),
    ensures
        0 <= i < n,
        rows[i] == first_of_each(rows, n)[k],
    decreases n,
{
    if k < first_of_each(rows, (n - 1) as nat).len() {
        lemma_first_origin(rows, (n - 1) as nat, k)
    } else {
        n - 1
    }
}

proof fn lemma_first_with_key(rows: Seq<UpsertRowView>, n: nat, i: int) -> (k: int)
    requires
        0 <= i < n <= rows.len(),
    ensures
        0 <= k < first_of_each(rows, n).len(),
        first_of_each(rows, n)[k].key == rows[i].key,
    decreases n,
{
    let m = (n - 1) as nat;
    if i < m {
        lemma_first_with_key(rows, m, i)
    } else if key_seen(rows, rows[i].key, m) {
        let j = choose|j: int| 0 <= j < m && j < rows.len() && (#[trigger] rows[j]).key == rows[i].key;
        lemma_first_with_key(rows, m, j)
    } else {
        first_of_each(rows, m).len() as int
    }
}

/// Whether a stored row has the conflict values of one of the rows of the source.
pub open spec fn is_met(
    w: World,
    name: Seq<char>,
    cols: Seq<Seq<char>>,
    rows: Seq<UpsertRowView>,
    stored: Map<Seq<char>, Value>,
) -> bool {
    exists|i: int|
        0 <= i < rows.len() && has_key(w, name, cols, (#[trigger] rows[i]).conflict_values, stored)
}

proof fn lemma_is_met(
    w: World,
    name: Seq<char>,
    cols: Seq<Seq<char>>,
    rows: Seq<UpsertRowView>,
    stored: Map<Seq<char>, Value>,
)
    requires
        forall|i: int|
            0 <= i < rows.len() ==> (#[trigger] rows[i]).conflict_values.len() == cols.len(),
        forall|i: int, j: int|
            0 <= i < rows.len() && 0 <= j < rows.len() && (#[trigger] rows[i]).key == (
            #[trigger] rows[j]).key ==> rows[i].conflict_values == rows[j].conflict_values,
    ensures
        meaning::holds(
            (meaning::any(key_tests(cols, first_of_each(rows, rows.len()))).value)(
                w,
                seq![Frame { name, row: stored }],
            ),
        ) == is_met(w, name, cols, rows, stored),
{
    let tests = first_of_each(rows, rows.len());
    let s = seq![Frame { name, row: stored }];
    let vs = meaning::phrase_values(key_tests(cols, tests), w, s);
    meaning::lemma_disjunction(vs);
    if meaning::holds(meaning::disjunction(vs)) {
        let k = choose|k: int| 0 <= k < vs.len() && meaning::holds(#[trigger] vs[k]);
        let i = lemma_first_origin(rows, rows.len(), k);
        law_key_condition(w, name, cols, tests[k].conflict_values, stored);
        assert(has_key(w, name, cols, rows[i].conflict_values, stored));
    }
    if is_met(w, name, cols, rows, stored) {
        let i = choose|i: int|
            0 <= i < rows.len() && has_key(
                w,
                name,
                cols,
                (#[trigger] rows[i]).conflict_values,
                stored,
            );
        let k = lemma_first_with_key(rows, rows.len(), i);
        let j = lemma_first_origin(rows, rows.len(), k);
        assert(rows[j].key == rows[i].key);
        law_key_condition(w, name, cols, tests[k].conflict_values, stored);
        assert(meaning::holds(vs[k]));
    }
}

/// The query for the conflicts selects exactly the rows of the table that have the conflict values of a
/// row of the source.
pub proof fn law_conflicts_are_selected(
    table: Seq<char>,
    cols: Seq<Seq<char>>,
    rows: Seq<UpsertRowView>,
    w: World,
)
    requires
        forall|i: int|
            0 <= i < rows.len() ==> (#[trigger] rows[i]).conflict_values.len() == cols.len(),
        forall|i: int, j: int|
            0 <= i < rows.len() && 0 <= j < rows.len() && (#[trigger] rows[i]).key == (
            #[trigger] rows[j]).key ==> rows[i].conflict_values == rows[j].conflict_values,
    ensures
        ({
            let name = meaning::quoted_name(table);
            (conflict_query(table, cols, first_of_each(rows, rows.len())).rows)(w)
                == meaning::single(
                name,
                meaning::rows_of(w, name).filter(|r| is_met(w, name, cols, rows, r)),
            )
        }),
{
    let name = meaning::quoted_name(table);
    let stored = meaning::rows_of(w, name);
    let p = meaning::any(key_tests(cols, first_of_each(rows, rows.len())));
    let g = |r: Map<Seq<char>, Value>| is_met(w, name, cols, rows, r);
    assert forall|x: int| 0 <= x < stored.len() implies meaning::holds(
        (p.value)(w, seq![Frame { name, row: #[trigger] stored[x] }]),
    ) == g(stored[x]) by {
        lemma_is_met(w, name, cols, rows, stored[x]);
    }
    meaning::lemma_kept_single(w, name, stored, p, g);
}

/// The columns of the table as they are written anew, with their meaning.
pub open spec fn merged_phrases(
    cs: Seq<ColumnView>,
    assignments: Seq<ParsedAssignmentView>,
    rows: Seq<UpsertRowView>,
    flags: Seq<bool>,
    cols: Seq<Seq<char>>,
    targets: Seq<Seq<char>>,
    selection: Option<Seq<char>>,
) -> Seq<Phrase> {
    Seq::new(
        cs.len(),
        |i: int|
            merged_phrase(
                cs[i].name,
                last_assigned(assignments, cs[i].name, assignments.len()),
                rows,
                flags,
                cols,
                targets,
                selection,
            ),
    )
}

/// An upsert writes every row of the table back, each once: the columns in their order, each from what
/// the law on stored rows says.
pub proof fn law_upsert_loses_no_row(
    table: Seq<char>,
    cs: Seq<ColumnView>,
    assignments: Seq<ParsedAssignmentView>,
    rows: Seq<UpsertRowView>,
    flags: Seq<bool>,
    cols: Seq<Seq<char>>,
    targets: Seq<Seq<char>>,
    selection: Option<Seq<char>>,
    w: World,
)
    ensures
        ({
            let name = meaning::quoted_name(table);
            let ps = merged_phrases(cs, assignments, rows, flags, cols, targets, selection);
            let q = meaning::select(meaning::list_of(ps), meaning::table(name));
            &&& "SELECT "@ + joined(
                merged_columns(cs, assignments, rows, flags, cols, targets, selection),
                ", "@,
            ) + " FROM \""@ + table + "\""@ == q.text
            &&& (q.rows)(w) == meaning::single(name, meaning::rows_of(w, name))
        }),
{
    let name = meaning::quoted_name(table);
    let ps = merged_phrases(cs, assignments, rows, flags, cols, targets, selection);
    let written = merged_columns(cs, assignments, rows, flags, cols, targets, selection);
    assert forall|i: int| 0 <= i < cs.len() implies #[trigger] written[i] == meaning::phrase_texts(
        ps,
    )[i] by {
        lemma_merged_text(
            cs[i].name,
            last_assigned(assignments, cs[i].name, assignments.len()),
            rows,
            flags,
            cols,
            targets,
            selection,
        );
    }
    assert(written =~= meaning::phrase_texts(ps));
    let list = joined(written, ", "@);
    reveal_strlit(" FROM \"");
    reveal_strlit(" FROM ");
    reveal_strlit("\"");
    assert("SELECT "@ + list + " FROM \""@ + table + "\""@ =~= "SELECT "@ + list + " FROM "@ + name);
}

/// A row of the source is found in conflict where a row of the table has the same cells in the conflict
/// columns.
pub proof fn law_equal_keys_are_in_conflict(
    row: Seq<CellView>,
    targets: Seq<Seq<char>>,
    stored: Seq<Seq<CellView>>,
    fields: Seq<Seq<char>>,
    cols: Seq<Seq<char>>,
    k: int,
)
    requires
        0 <= k < stored.len(),
        targets.len() <= row.len(),
        forall|c: int|
            0 <= c < cols.len() ==> stored_value(stored[k], fields, #[trigger] cols[c]) == value_of(
                literals(row.subrange(0, targets.len() as int)),
                targets,
                cols[c],
            ),
    ensures
        stored_keys(stored, fields, cols).contains(upsert_row(row, targets, cols).key),
{
    let a = stored_values(stored[k], fields, cols);
    let b = upsert_row(row, targets, cols).conflict_values;
    assert(a =~= b);
    assert(stored_keys(stored, fields, cols)[k] == upsert_row(row, targets, cols).key);
}

/// The columns by which a conflict is told are those that the clause names, or those of the constraint
/// that it names, or those of the first key of the table. A constraint that is not there is refused.
pub proof fn law_conflict_columns(
    cs: Seq<ConstraintView>,
    cols: Seq<Seq<char>>,
    name: Seq<char>,
    k: int,
)
    requires
        0 <= k < cs.len(),
        trim_matches_text(name, '"') == name,
    ensures
        conflict_columns(cs, Some(ParsedTargetView::Columns(cols))) == Ok::<
            Seq<Seq<char>>,
            Seq<char>,
        >(cols),
        cs[k] matches ConstraintView::Unique { name: n, columns } && n == name && (forall|i: int|
            0 <= i < k ==> named_columns(#[trigger] cs[i], name) is None) ==> conflict_columns(
            cs,
            Some(ParsedTargetView::Constraint(name)),
        ) == Ok::<Seq<Seq<char>>, Seq<char>>(cs[k]->Unique_columns),
        (forall|i: int| 0 <= i < cs.len() ==> named_columns(#[trigger] cs[i], name) is None)
            ==> conflict_columns(cs, Some(ParsedTargetView::Constraint(name))) is Err,
        cs[k] matches ConstraintView::PrimaryKey { columns } && (forall|i: int|
            0 <= i < k ==> !(#[trigger] cs[i] is PrimaryKey) && !(cs[i] is Unique))
            ==> conflict_columns(cs, None) == Ok::<Seq<Seq<char>>, Seq<char>>(
            cs[k]->PrimaryKey_columns,
        ),
        cs[k] matches ConstraintView::Unique { columns, .. } && (forall|i: int|
            0 <= i < k ==> !(#[trigger] cs[i] is PrimaryKey) && !(cs[i] is Unique))
            ==> conflict_columns(cs, None) == Ok::<Seq<Seq<char>>, Seq<char>>(
            cs[k]->Unique_columns,
        ),
        (forall|i: int| 0 <= i < cs.len() ==> !(#[trigger] cs[i] is PrimaryKey) && !(cs[i] is Unique))
            ==> conflict_columns(cs, None) == Ok::<Seq<Seq<char>>, Seq<char>>(Seq::empty()),
        forall|c: ConstraintView|
            (c is Check || c is ForeignKey) ==> #[trigger] named_columns(c, name) is None,
{
    if forall|i: int| 0 <= i < k ==> named_columns(#[trigger] cs[i], name) is None {
        lemma_none_named(cs, name, k as nat);
        if named_columns(cs[k], name) is Some {
            lemma_named_constraint(cs, name, (k + 1) as nat, cs.len());
        }
    }
    if forall|i: int| 0 <= i < cs.len() ==> named_columns(#[trigger] cs[i], name) is None {
        lemma_none_named(cs, name, cs.len());
    }
    if forall|i: int| 0 <= i < k ==> !(#[trigger] cs[i] is PrimaryKey) && !(cs[i] is Unique) {
        lemma_no_key(cs, k as nat);
        if cs[k] is PrimaryKey || cs[k] is Unique {
            lemma_first_key(cs, (k + 1) as nat, cs.len());
        }
    }
    if forall|i: int| 0 <= i < cs.len() ==> !(#[trigger] cs[i] is PrimaryKey) && !(cs[i] is Unique) {
        lemma_no_key(cs, cs.len());
    }
}

proof fn lemma_none_named(cs: Seq<ConstraintView>, name: Seq<char>, n: nat)
    requires
        n <= cs.len(),
        forall|i: int| 0 <= i < n ==> named_columns(#[trigger] cs[i], name) is None,
    ensures
        named_constraint(cs, name, n) is None,
    decreases n,
{
    if n > 0 {
        lemma_none_named(cs, name, (n - 1) as nat);
        assert(named_columns(cs[n - 1], name) is None);
    }
}

proof fn lemma_no_key(cs: Seq<ConstraintView>, n: nat)
    requires
        n <= cs.len(),
        forall|i: int| 0 <= i < n ==> !(#[trigger] cs[i] is PrimaryKey) && !(cs[i] is Unique),
    ensures
        first_key(cs, n) is None,
    decreases n,
{
    if n > 0 {
        lemma_no_key(cs, (n - 1) as nat);
        assert(!(cs[n - 1] is PrimaryKey) && !(cs[n - 1] is Unique));
    }
}

/// The value of a conflict column is the one that is written to it, and a column that is not written is
/// null.
pub proof fn law_conflict_values(
    values: Seq<Seq<char>>,
    targets: Seq<Seq<char>>,
    col: Seq<char>,
    k: int,
)
    requires
        targets.no_duplicates(),
    ensures
        0 <= k < targets.len() && targets[k] == col ==> value_of(values, targets, col) == values[k],
        !targets.contains(col) ==> value_of(values, targets, col) == "NULL"@,
{
    lemma_position_of(targets, col, targets.len());
    if let Some(i) = last_position(targets, col, targets.len()) {
        assert(targets[i] == col);
        if 0 <= k < targets.len() && targets[k] == col {
            assert(i == k);
        }
    }
}

proof fn lemma_position_of(names: Seq<Seq<char>>, name: Seq<char>, n: nat)
    requires
        n <= names.len(),
    ensures
        match last_position(names, name, n) {
            Some(i) => 0 <= i < n && names[i] == name,
            None => forall|j: int| 0 <= j < n ==> #[trigger] names[j] != name,
        },
    decreases n,
{
    if n > 0 {
        lemma_position_of(names, name, (n - 1) as nat);
    }
}

/// An upsert needs a table, columns by which a conflict is told, and rows; with these it goes ahead, on the
/// columns that the statement lists or else on all of the table.
pub proof fn law_upsert_goes_ahead(
    c: CatalogState,
    h: InsertHeadView,
    target: Option<ParsedTargetView>,
)
    ensures
        upsert_plan(c, h, target) is Ok <==> {
            &&& c.tables.dom().contains(h.table)
            &&& conflict_columns(c.tables[h.table].constraints, target) matches Ok(cols)
            &&& cols.len() > 0
            &&& h.source is Some
        },
        upsert_plan(c, h, target) matches Ok(p) ==> {
            &&& conflict_columns(c.tables[h.table].constraints, target) == Ok::<
                Seq<Seq<char>>,
                Seq<char>,
            >(p.0)
            &&& h.source == Some(p.2)
            &&& h.columns.len() > 0 ==> p.1 == h.columns
            &&& h.columns.len() == 0 ==> p.1.len() == c.tables[h.table].columns.len()
        },
{
}

} // verus!
