//! Constraints: the queries by which a table, or the rows that go into it, are held against them.
use vstd::hash_set::StringHashSet;
use vstd::prelude::*;
use vstd::string::*;

use crate::catalog::{lookup, Catalog};
use crate::catalog_types::{ColumnDef, ColumnView, ConstraintView, TableConstraint};
use crate::cells::{literal, sql_literal, CellView, Row};
use crate::dup::{views, Dup};
use crate::fulltext::{quote_columns, quoted_columns};
use crate::insert::{find_position, first_position};
use crate::meaning::{self, Frame, Phrase, Query, Value, World};
use crate::numbers::{decimal_signed, print_i64};
use crate::text::{clone_strings, concat2, concat3, join, joined, same, texts};

verus! {

// ---------------------------------------------------------------------------
// Steps
// ---------------------------------------------------------------------------

/// One step of a check. The steps of a check are run in order until one fails.
pub enum Step {
    /// The query counts rows of which there may be none.
    NoneAllowed { sql: String, error: String },
    /// The query counts rows of which there may be so many.
    AtMost { sql: String, limit: usize, error: String },
    /// The query counts rows of which there may be none; the complaint says how many there are.
    NoneCounted { sql: String, head: String, tail: String },
    /// The new rows themselves are held against an expression.
    CheckRows { name: String, expr: String },
    /// The check fails.
    Fail { error: String },
}

/// What a [`Step`] says.
pub enum StepView {
    NoneAllowed { sql: Seq<char>, error: Seq<char> },
    AtMost { sql: Seq<char>, limit: usize, error: Seq<char> },
    NoneCounted { sql: Seq<char>, head: Seq<char>, tail: Seq<char> },
    CheckRows { name: Seq<char>, expr: Seq<char> },
    Fail { error: Seq<char> },
}

impl View for Step {
    type V = StepView;

    open spec fn view(&self) -> StepView {
        match self {
            Step::NoneAllowed { sql, error } => StepView::NoneAllowed {
                sql: sql@,
                error: error@,
            },
            Step::AtMost { sql, limit, error } => StepView::AtMost {
                sql: sql@,
                limit: *limit,
                error: error@,
            },
            Step::NoneCounted { sql, head, tail } => StepView::NoneCounted {
                sql: sql@,
                head: head@,
                tail: tail@,
            },
            Step::CheckRows { name, expr } => StepView::CheckRows {
                name: name@,
                expr: expr@,
            },
            Step::Fail { error } => StepView::Fail {
                error: error@,
            },
        }
    }
}

/// What a step that counts rows comes to.
pub open spec fn judged(s: StepView, count: i64) -> Option<Seq<char>> {
    match s {
        StepView::NoneAllowed { sql, error } => if count > 0 {
            Some(error)
        } else {
            None
        },
        StepView::AtMost { sql, limit, error } => if count < 0 || count > limit {
            Some(error)
        } else {
            None
        },
        StepView::NoneCounted { sql, head, tail } => if count > 0 {
            Some(head + decimal_signed(count as int) + tail)
        } else {
            None
        },
        StepView::CheckRows { name, expr } => None,
        StepView::Fail { error } => Some(error),
    }
}

/// What a step comes to, given the number that its query has counted.
pub fn judge(s: &Step, count: i64) -> (r: Result<(), String>)
    ensures
        match r {
            Ok(_) => judged(s@, count) is None,
            Err(e) => judged(s@, count) == Some(e@),
        },
{
    match s {
        Step::NoneAllowed { error, .. } => if count > 0 {
            Err(error.clone())
        } else {
            Ok(())
        },
        Step::AtMost { limit, error, .. } => if count < 0 || count as u64 > *limit as u64 {
            Err(error.clone())
        } else {
            Ok(())
        },
        Step::NoneCounted { head, tail, .. } => if count > 0 {
            Err(concat3(head, &print_i64(count), tail))
        } else {
            Ok(())
        },
        Step::CheckRows { .. } => Ok(()),
        Step::Fail { error } => Err(error.clone()),
    }
}

/// The sum of the first `n` numbers.
pub open spec fn sum_of(v: Seq<i64>, n: nat) -> int
    decreases n,
{
    if n == 0 || n > v.len() {
        0
    } else {
        sum_of(v, (n - 1) as nat) + v[n - 1]
    }
}

/// The sum of the numbers in the first column of a result.
pub fn scalar_count(v: &Vec<i64>) -> (r: i64)
    requires
        forall|n: nat| n <= v@.len() ==> i64::MIN <= #[trigger] sum_of(v@, n) <= i64::MAX,
    ensures
        r == sum_of(v@, v@.len()),
{
    let mut total: i64 = 0;
    let mut i: usize = 0;
    while i < v.len()
        invariant
            i <= v@.len(),
            total == sum_of(v@, i as nat),
            forall|n: nat| n <= v@.len() ==> i64::MIN <= #[trigger] sum_of(v@, n) <= i64::MAX,
        decreases v@.len() - i,
    {
        assert(sum_of(v@, (i + 1) as nat) == total + v@[i as int]);
        total = total + v[i];
        i += 1;
    }
    total
}

// ---------------------------------------------------------------------------
// Queries
// ---------------------------------------------------------------------------

/// How many rows of a table have no value in a column.
pub open spec fn null_sql(t: Seq<char>, col: Seq<char>) -> Seq<char> {
    "SELECT COUNT(*) AS c FROM \""@ + t + "\" WHERE \""@ + col + "\" IS NULL"@
}

/// How many combinations of values occur more than once in the columns of a table.
pub open spec fn duplicate_sql(t: Seq<char>, cols: Seq<Seq<char>>) -> Seq<char> {
    let g = joined(quoted_columns(cols), ", "@);
    "SELECT COUNT(*) AS c FROM (SELECT "@ + g + " FROM \""@ + t + "\" GROUP BY "@ + g
        + " HAVING COUNT(*) > 1) AS dup"@
}

/// Each name between two texts.
pub open spec fn wrapped(head: Seq<char>, names: Seq<Seq<char>>, tail: Seq<char>) -> Seq<Seq<char>> {
    Seq::new(names.len(), |i: int| head + names[i] + tail)
}

/// The shorter of two lengths.
pub open spec fn shorter(a: nat, b: nat) -> nat {
    if a <= b {
        a
    } else {
        b
    }
}

/// The columns of the child and the parent table that have to agree.
pub open spec fn key_pairs(cols: Seq<Seq<char>>, refs: Seq<Seq<char>>) -> Seq<Seq<char>> {
    Seq::new(
        shorter(cols.len(), refs.len()),
        |i: int| "child.\""@ + cols[i] + "\" = parent.\""@ + refs[i] + "\""@,
    )
}

/// How many rows of a table refer to a row of another table that is not there.
pub open spec fn orphan_sql(
    t: Seq<char>,
    cols: Seq<Seq<char>>,
    ref_table: Seq<char>,
    refs: Seq<Seq<char>>,
) -> Seq<char> {
    "SELECT COUNT(*) AS c FROM \""@ + t + "\" child LEFT JOIN \""@ + ref_table + "\" parent ON "@
        + joined(key_pairs(cols, refs), " AND "@) + " WHERE ("@ + joined(
        wrapped("child.\""@, cols, "\" IS NOT NULL"@),
        " AND "@,
    ) + ") AND ("@ + joined(wrapped("parent.\""@, refs, "\" IS NULL"@), " OR "@) + ")"@
}

/// How many rows of a table do not meet an expression.
pub open spec fn check_sql(t: Seq<char>, expr: Seq<char>) -> Seq<char> {
    "SELECT COUNT(*) AS c FROM \""@ + t + "\" WHERE NOT ("@ + expr + ")"@
}

fn wrap_all(head: &str, names: &Vec<String>, tail: &str) -> (r: Vec<String>)
    ensures
        texts(r@) == wrapped(head@, texts(names@), tail@),
{
    let mut out: Vec<String> = Vec::new();
    let mut i: usize = 0;
    while i < names.len()
        invariant
            i <= names@.len(),
            out@.len() == i,
            forall|j: int| 0 <= j < i ==> (#[trigger] out@[j])@ == head@ + names@[j]@ + tail@,
        decreases names@.len() - i,
    {
        out.push(concat3(head, &names[i], tail));
        i += 1;
    }
    assert(texts(out@) =~= wrapped(head@, texts(names@), tail@));
    out
}

fn pair_keys(cols: &Vec<String>, refs: &Vec<String>) -> (r: Vec<String>)
    ensures
        texts(r@) == key_pairs(texts(cols@), texts(refs@)),
{
    let mut out: Vec<String> = Vec::new();
    let mut i: usize = 0;
    while i < cols.len() && i < refs.len()
        invariant
            i <= cols@.len(),
            i <= refs@.len(),
            out@.len() == i,
            forall|j: int|
                0 <= j < i ==> (#[trigger] out@[j])@ == "child.\""@ + cols@[j]@ + "\" = parent.\""@
                    + refs@[j]@ + "\""@,
        decreases cols@.len() - i,
    {
        let head = concat3("child.\"", &cols[i], "\" = parent.\"");
        out.push(concat3(&head, &refs[i], "\""));
        i += 1;
    }
    assert(texts(out@) =~= key_pairs(texts(cols@), texts(refs@)));
    out
}

fn write_null_sql(t: &str, col: &str) -> (r: String)
    ensures
        r@ == null_sql(t@, col@),
{
    let head = concat3("SELECT COUNT(*) AS c FROM \"", t, "\" WHERE \"");
    concat3(&head, col, "\" IS NULL")
}

fn write_duplicate_sql(t: &str, cols: &Vec<String>) -> (r: String)
    ensures
        r@ == duplicate_sql(t@, texts(cols@)),
{
    let g = join(&quote_columns(cols), ", ");
    let select = concat3("SELECT COUNT(*) AS c FROM (SELECT ", &g, " FROM \"");
    let group = concat3(&select, t, "\" GROUP BY ");
    concat3(&group, &g, " HAVING COUNT(*) > 1) AS dup")
}

fn write_orphan_sql(t: &str, cols: &Vec<String>, ref_table: &str, refs: &Vec<String>) -> (r: String)
    ensures
        r@ == orphan_sql(t@, texts(cols@), ref_table@, texts(refs@)),
{
    let from = concat3("SELECT COUNT(*) AS c FROM \"", t, "\" child LEFT JOIN \"");
    let on = concat3(&from, ref_table, "\" parent ON ");
    let filter = concat3(&on, &join(&pair_keys(cols, refs), " AND "), " WHERE (");
    let child = join(&wrap_all("child.\"", cols, "\" IS NOT NULL"), " AND ");
    let parent = join(&wrap_all("parent.\"", refs, "\" IS NULL"), " OR ");
    let both = concat3(&filter, &child, ") AND (");
    concat3(&both, &parent, ")")
}

fn write_check_sql(t: &str, expr: &str) -> (r: String)
    ensures
        r@ == check_sql(t@, expr@),
{
    let head = concat3("SELECT COUNT(*) AS c FROM \"", t, "\" WHERE NOT (");
    concat3(&head, expr, ")")
}

// ---------------------------------------------------------------------------
// A whole table
// ---------------------------------------------------------------------------

/// The complaint about a primary key.
pub open spec fn primary_error(t: Seq<char>, cols: Seq<Seq<char>>) -> Seq<char> {
    "PRIMARY KEY violation on '"@ + t + "' for ("@ + joined(cols, ", "@) + ")"@
}

/// The complaint about a unique key.
pub open spec fn unique_error(t: Seq<char>, name: Seq<char>) -> Seq<char> {
    "UNIQUE constraint violation '"@ + name + "' on '"@ + t + "'"@
}

/// The step that looks for values of a key that are missing.
pub open spec fn null_step(t: Seq<char>, col: Seq<char>) -> StepView {
    StepView::NoneAllowed {
        sql: null_sql(t, col),
        error: "PRIMARY KEY violation on '"@ + t + "': column '"@ + col + "' contains NULL"@,
    }
}

/// The steps that look for missing values in the first `n` columns of a key.
pub open spec fn null_steps(t: Seq<char>, cols: Seq<Seq<char>>, n: nat) -> Seq<StepView>
    decreases n,
{
    if n == 0 || n > cols.len() {
        Seq::empty()
    } else {
        null_steps(t, cols, (n - 1) as nat).push(null_step(t, cols[n - 1]))
    }
}

/// The step that looks for rows without the row that they refer to.
pub open spec fn reference_step(
    t: Seq<char>,
    name: Seq<char>,
    cols: Seq<Seq<char>>,
    ref_table: Seq<char>,
    refs: Seq<Seq<char>>,
) -> StepView {
    if cols.len() != refs.len() || cols.len() == 0 {
        StepView::Fail {
            error: "FOREIGN KEY '"@ + name + "' on '"@ + t + "' has invalid column mapping"@,
        }
    } else {
        StepView::NoneAllowed {
            sql: orphan_sql(t, cols, ref_table, refs),
            error: "FOREIGN KEY violation '"@ + name + "' on '"@ + t + "' referencing '"@
                + ref_table + "'"@,
        }
    }
}

/// The steps by which a whole table is held against a key. Checks are left out.
pub open spec fn key_steps(t: Seq<char>, c: ConstraintView) -> Seq<StepView> {
    match c {
        ConstraintView::PrimaryKey { columns } => null_steps(t, columns, columns.len()).push(
            StepView::NoneAllowed {
                sql: duplicate_sql(t, columns),
                error: primary_error(t, columns),
            },
        ),
        ConstraintView::Unique { name, columns } => seq![
            StepView::NoneAllowed {
                sql: duplicate_sql(t, columns),
                error: unique_error(t, name),
            },
        ],
        ConstraintView::Check { name, expr } => Seq::empty(),
        ConstraintView::ForeignKey { name, columns, ref_table, ref_columns, on_delete, on_update } => seq![
            reference_step(t, name, columns, ref_table, ref_columns),
        ],
    }
}

/// The step by which a whole table is held against a check.
pub open spec fn check_step(t: Seq<char>, name: Seq<char>, expr: Seq<char>) -> StepView {
    StepView::NoneCounted {
        sql: check_sql(t, expr),
        head: "CHECK constraint violation '"@ + name + "' on '"@ + t + "' ("@,
        tail: " row(s))"@,
    }
}

/// The steps by which a whole table is held against the keys among its first `n` constraints.
pub open spec fn table_steps(t: Seq<char>, cs: Seq<ConstraintView>, n: nat) -> Seq<StepView>
    decreases n,
{
    if n == 0 || n > cs.len() {
        Seq::empty()
    } else {
        table_steps(t, cs, (n - 1) as nat) + key_steps(t, cs[n - 1])
    }
}

/// The steps by which a whole table is held against the checks among its first `n` constraints.
pub open spec fn check_steps(t: Seq<char>, cs: Seq<ConstraintView>, n: nat) -> Seq<StepView>
    decreases n,
{
    if n == 0 || n > cs.len() {
        Seq::empty()
    } else {
        let rest = check_steps(t, cs, (n - 1) as nat);
        match cs[n - 1] {
            ConstraintView::Check { name, expr } => rest.push(check_step(t, name, expr)),
            _ => rest,
        }
    }
}

fn write_primary_error(t: &str, cols: &Vec<String>) -> (r: String)
    ensures
        r@ == primary_error(t@, texts(cols@)),
{
    let head = concat3("PRIMARY KEY violation on '", t, "' for (");
    concat3(&head, &join(cols, ", "), ")")
}

fn write_unique_error(t: &str, name: &str) -> (r: String)
    ensures
        r@ == unique_error(t@, name@),
{
    let head = concat3("UNIQUE constraint violation '", name, "' on '");
    concat3(&head, t, "'")
}

fn write_reference_step(
    t: &str,
    name: &str,
    cols: &Vec<String>,
    ref_table: &str,
    refs: &Vec<String>,
) -> (r: Step)
    ensures
        r@ == reference_step(t@, name@, texts(cols@), ref_table@, texts(refs@)),
{
    assert(texts(cols@).len() == cols@.len());
    assert(texts(refs@).len() == refs@.len());
    if cols.len() != refs.len() || cols.len() == 0 {
        let head = concat3("FOREIGN KEY '", name, "' on '");
        return Step::Fail { error: concat3(&head, t, "' has invalid column mapping") };
    }
    let head = concat3("FOREIGN KEY violation '", name, "' on '");
    let with_table = concat3(&head, t, "' referencing '");
    Step::NoneAllowed {
        sql: write_orphan_sql(t, cols, ref_table, refs),
        error: concat3(&with_table, ref_table, "'"),
    }
}

fn write_null_steps(t: &str, cols: &Vec<String>, out: &mut Vec<Step>)
    ensures
        views(final(out)@) == views(old(out)@) + null_steps(t@, texts(cols@), texts(cols@).len()),
{
    let ghost start = views(out@);
    let ghost cv = texts(cols@);
    let mut i: usize = 0;
    assert(views(out@) =~= start + null_steps(t@, cv, 0));
    while i < cols.len()
        invariant
            i <= cols@.len(),
            cv == texts(cols@),
            cv.len() == cols@.len(),
            views(out@) == start + null_steps(t@, cv, i as nat),
        decreases cols@.len() - i,
    {
        assert(cv[i as int] == cols@[i as int]@);
        let ghost done = out@;
        let head = concat3("PRIMARY KEY violation on '", t, "': column '");
        let step = Step::NoneAllowed {
            sql: write_null_sql(t, &cols[i]),
            error: concat3(&head, &cols[i], "' contains NULL"),
        };
        assert(step@ == null_step(t@, cv[i as int]));
        let ghost sv = step@;
        out.push(step);
        assert(views(out@) =~= views(done).push(sv));
        assert(views(done).push(sv) =~= start + null_steps(t@, cv, (i + 1) as nat));
        i += 1;
    }
}

fn write_key_steps(t: &str, c: &TableConstraint, out: &mut Vec<Step>)
    ensures
        views(final(out)@) == views(old(out)@) + key_steps(t@, c@),
{
    let ghost start = views(out@);
    match c {
        TableConstraint::PrimaryKey { columns } => {
            write_null_steps(t, columns, out);
            let ghost done = out@;
            let step = Step::NoneAllowed {
                sql: write_duplicate_sql(t, columns),
                error: write_primary_error(t, columns),
            };
            let ghost sv = step@;
            out.push(step);
            assert(views(out@) =~= views(done).push(sv));
            assert(views(out@) =~= start + key_steps(t@, c@));
        },
        TableConstraint::Unique { name, columns } => {
            let ghost done = out@;
            let step = Step::NoneAllowed {
                sql: write_duplicate_sql(t, columns),
                error: write_unique_error(t, name),
            };
            let ghost sv = step@;
            out.push(step);
            assert(views(out@) =~= views(done).push(sv));
            assert(views(out@) =~= start + key_steps(t@, c@));
        },
        TableConstraint::Check { .. } => {
            assert(views(out@) =~= start + key_steps(t@, c@));
        },
        TableConstraint::ForeignKey { name, columns, ref_table, ref_columns, .. } => {
            let ghost done = out@;
            let step = write_reference_step(t, name, columns, ref_table, ref_columns);
            let ghost sv = step@;
            out.push(step);
            assert(views(out@) =~= views(done).push(sv));
            assert(views(out@) =~= start + key_steps(t@, c@));
        },
    }
}

fn write_table_steps(t: &str, cs: &Vec<TableConstraint>, out: &mut Vec<Step>)
    ensures
        views(final(out)@) == views(old(out)@) + table_steps(t@, views(cs@), views(cs@).len()),
{
    let ghost start = views(out@);
    let ghost cv = views(cs@);
    let mut i: usize = 0;
    assert(views(out@) =~= start + table_steps(t@, cv, 0));
    while i < cs.len()
        invariant
            i <= cs@.len(),
            cv == views(cs@),
            cv.len() == cs@.len(),
            views(out@) == start + table_steps(t@, cv, i as nat),
        decreases cs@.len() - i,
    {
        assert(cv[i as int] == cs@[i as int]@);
        write_key_steps(t, &cs[i], out);
        assert(views(out@) =~= start + table_steps(t@, cv, (i + 1) as nat));
        i += 1;
    }
}

fn write_check_steps(t: &str, cs: &Vec<TableConstraint>, out: &mut Vec<Step>)
    ensures
        views(final(out)@) == views(old(out)@) + check_steps(t@, views(cs@), views(cs@).len()),
{
    let ghost start = views(out@);
    let ghost cv = views(cs@);
    let mut i: usize = 0;
    assert(views(out@) =~= start + check_steps(t@, cv, 0));
    while i < cs.len()
        invariant
            i <= cs@.len(),
            cv == views(cs@),
            cv.len() == cs@.len(),
            views(out@) == start + check_steps(t@, cv, i as nat),
        decreases cs@.len() - i,
    {
        assert(cv[i as int] == cs@[i as int]@);
        let ghost done = out@;
        match &cs[i] {
            TableConstraint::Check { name, expr } => {
                let head = concat3("CHECK constraint violation '", name, "' on '");
                let step = Step::NoneCounted {
                    sql: write_check_sql(t, expr),
                    head: concat3(&head, t, "' ("),
                    tail: " row(s))".to_owned(),
                };
                let ghost sv = step@;
                out.push(step);
                assert(views(out@) =~= views(done).push(sv));
            },
            _ => {},
        }
        assert(views(out@) =~= start + check_steps(t@, cv, (i + 1) as nat));
        i += 1;
    }
}

/// The columns that take no nulls, among the first `n`.
pub open spec fn required_columns(cs: Seq<ColumnView>, n: nat) -> Seq<Seq<char>>
    decreases n,
{
    if n == 0 || n > cs.len() {
        Seq::empty()
    } else if cs[n - 1].nullable {
        required_columns(cs, (n - 1) as nat)
    } else {
        required_columns(cs, (n - 1) as nat).push(cs[n - 1].name)
    }
}

/// The step that looks for nulls in a whole table where there may be none.
pub open spec fn not_null_steps(t: Seq<char>, cs: Seq<ColumnView>) -> Seq<StepView> {
    let required = required_columns(cs, cs.len());
    if required.len() == 0 {
        Seq::empty()
    } else {
        seq![
            StepView::NoneCounted {
                sql: "SELECT COUNT(*) AS c FROM \""@ + t + "\" WHERE "@ + joined(
                    wrapped("\""@, required, "\" IS NULL"@),
                    " OR "@,
                ),
                head: "NOT NULL constraint failed for table '"@ + t + "' ("@,
                tail: " violating row(s))"@,
            },
        ]
    }
}

fn list_required(cs: &Vec<ColumnDef>) -> (r: Vec<String>)
    ensures
        texts(r@) == required_columns(views(cs@), views(cs@).len()),
{
    let ghost cv = views(cs@);
    let mut out: Vec<String> = Vec::new();
    let mut i: usize = 0;
    assert(texts(out@) =~= required_columns(cv, 0));
    while i < cs.len()
        invariant
            i <= cs@.len(),
            cv == views(cs@),
            cv.len() == cs@.len(),
            texts(out@) == required_columns(cv, i as nat),
        decreases cs@.len() - i,
    {
        assert(cv[i as int] == cs@[i as int]@);
        let ghost done = out@;
        if !cs[i].nullable {
            out.push(cs[i].name.clone());
            assert(texts(out@) =~= texts(done).push(cv[i as int].name));
        }
        i += 1;
    }
    out
}

fn write_not_null_steps(t: &str, cs: &Vec<ColumnDef>) -> (r: Vec<Step>)
    ensures
        views(r@) == not_null_steps(t@, views(cs@)),
{
    let required = list_required(cs);
    assert(texts(required@).len() == required@.len());
    let mut out: Vec<Step> = Vec::new();
    if required.len() == 0 {
        assert(views(out@) =~= Seq::<StepView>::empty());
        return out;
    }
    let head = concat3("SELECT COUNT(*) AS c FROM \"", t, "\" WHERE ");
    let step = Step::NoneCounted {
        sql: concat2(&head, &join(&wrap_all("\"", &required, "\" IS NULL"), " OR ")),
        head: concat3("NOT NULL constraint failed for table '", t, "' ("),
        tail: " violating row(s))".to_owned(),
    };
    let ghost sv = step@;
    out.push(step);
    assert(views(out@) =~= seq![sv]);
    out
}

// ---------------------------------------------------------------------------
// New rows
// ---------------------------------------------------------------------------

/// The last position of a name in a list.
pub open spec fn last_position(names: Seq<Seq<char>>, name: Seq<char>, n: nat) -> Option<int>
    decreases n,
{
    if n == 0 || n > names.len() {
        None
    } else if names[n - 1] == name {
        Some(n - 1)
    } else {
        last_position(names, name, (n - 1) as nat)
    }
}

/// Whether every column of a key is among the columns that are written.
pub open spec fn all_written(cols: Seq<Seq<char>>, targets: Seq<Seq<char>>) -> bool {
    forall|i: int| 0 <= i < cols.len() ==> targets.contains(#[trigger] cols[i])
}

/// The values of a key in a row, as they stand in a statement.
pub open spec fn key_tuple(
    row: Seq<CellView>,
    cols: Seq<Seq<char>>,
    targets: Seq<Seq<char>>,
) -> Seq<Seq<char>> {
    Seq::new(
        cols.len(),
        |i: int| literal(row[last_position(targets, cols[i], targets.len())->0]),
    )
}

/// The values of a key in each row.
pub open spec fn key_tuples(
    rows: Seq<Seq<CellView>>,
    cols: Seq<Seq<char>>,
    targets: Seq<Seq<char>>,
) -> Seq<Seq<Seq<char>>> {
    Seq::new(rows.len(), |i: int| key_tuple(rows[i], cols, targets))
}

/// The text by which two values of a key are compared.
pub open spec fn key_text(tuple: Seq<Seq<char>>) -> Seq<char> {
    joined(tuple, "\x1f"@)
}

/// Whether a value of a key has a part that is missing.
pub open spec fn has_null(tuple: Seq<Seq<char>>) -> bool {
    tuple.contains("NULL"@)
}

/// Whether two of the values of a key are the same.
pub open spec fn repeats(ts: Seq<Seq<Seq<char>>>) -> bool {
    exists|i: int, j: int|
        0 <= i < j < ts.len() && key_text(#[trigger] ts[i]) == key_text(#[trigger] ts[j])
}

/// Whether the values of a primary key are at fault by themselves.
pub open spec fn primary_at_fault(ts: Seq<Seq<Seq<char>>>) -> bool {
    (exists|i: int| 0 <= i < ts.len() && has_null(#[trigger] ts[i])) || repeats(ts)
}

/// The values of a key without missing parts, among the first `n`.
pub open spec fn complete(ts: Seq<Seq<Seq<char>>>, n: nat) -> Seq<Seq<Seq<char>>>
    decreases n,
{
    if n == 0 || n > ts.len() {
        Seq::empty()
    } else if has_null(ts[n - 1]) {
        complete(ts, (n - 1) as nat)
    } else {
        complete(ts, (n - 1) as nat).push(ts[n - 1])
    }
}

/// How many values one query looks up.
pub const LOOKUP_SIZE: usize = 500;

/// A comparison of each column of a key with its value.
pub open spec fn equalities(cols: Seq<Seq<char>>, tuple: Seq<Seq<char>>) -> Seq<Seq<char>> {
    Seq::new(shorter(cols.len(), tuple.len()), |i: int| "\""@ + cols[i] + "\" = "@ + tuple[i])
}

/// The condition that a row has the value of a key.
pub open spec fn tuple_condition(cols: Seq<Seq<char>>, tuple: Seq<Seq<char>>) -> Seq<char> {
    joined(equalities(cols, tuple), " AND "@)
}

/// The condition for each value of a key, in parentheses.
pub open spec fn conditions(cols: Seq<Seq<char>>, ts: Seq<Seq<Seq<char>>>) -> Seq<Seq<char>> {
    Seq::new(ts.len(), |i: int| "("@ + tuple_condition(cols, ts[i]) + ")"@)
}

/// The first part of each value of a key.
pub open spec fn first_parts(ts: Seq<Seq<Seq<char>>>) -> Seq<Seq<char>> {
    Seq::new(ts.len(), |i: int| ts[i][0])
}

/// How many rows of a table have one of the values of a key.
pub open spec fn lookup_sql(t: Seq<char>, cols: Seq<Seq<char>>, ts: Seq<Seq<Seq<char>>>) -> Seq<char> {
    if cols.len() == 1 {
        "SELECT COUNT(*) AS c FROM \""@ + t + "\" WHERE \""@ + cols[0] + "\" IN ("@ + joined(
            first_parts(ts),
            ", "@,
        ) + ")"@
    } else {
        "SELECT COUNT(*) AS c FROM \""@ + t + "\" WHERE "@ + joined(conditions(cols, ts), " OR "@)
    }
}

/// The steps that look the values of a key up from position `i` on: after the rows were written no
/// value may be there more often than it was written.
pub open spec fn lookup_steps(
    t: Seq<char>,
    cols: Seq<Seq<char>>,
    ts: Seq<Seq<Seq<char>>>,
    error: Seq<char>,
    i: int,
) -> Seq<StepView>
    decreases ts.len() - i,
{
    if i < 0 || i >= ts.len() {
        Seq::empty()
    } else {
        let j = if i + LOOKUP_SIZE < ts.len() {
            i + LOOKUP_SIZE
        } else {
            ts.len() as int
        };
        seq![
            StepView::AtMost {
                sql: lookup_sql(t, cols, ts.subrange(i, j)),
                limit: (j - i) as usize,
                error,
            },
        ] + lookup_steps(t, cols, ts, error, j)
    }
}

/// The rows that go into a table.
pub struct Incoming {
    /// The rows, in order.
    pub rows: Vec<Row>,
    /// Whether the rows came in any batch at all.
    pub any_batch: bool,
    /// How many columns the first batch with rows has.
    pub width: usize,
}

impl Incoming {
    /// Every row has a value for each column that is written.
    pub open spec fn fits(&self, targets: Seq<Seq<char>>) -> bool {
        forall|i: int|
            0 <= i < self.rows@.len() ==> (#[trigger] self.rows@[i])@.len() >= targets.len()
    }
}

/// The steps by which new rows are held against the constraints from position `i` on. Where a key
/// has a column that is not written, the whole table is looked at instead and nothing more.
pub open spec fn batch_steps(
    t: Seq<char>,
    cs: Seq<ConstraintView>,
    targets: Seq<Seq<char>>,
    rows: Seq<Seq<CellView>>,
    width: usize,
    i: int,
) -> Seq<StepView>
    decreases cs.len() - i,
{
    if i < 0 || i >= cs.len() {
        Seq::empty()
    } else {
        let rest = batch_steps(t, cs, targets, rows, width, i + 1);
        match cs[i] {
            ConstraintView::PrimaryKey { columns } => {
                let ts = key_tuples(rows, columns, targets);
                if !all_written(columns, targets) {
                    table_steps(t, cs, cs.len())
                } else if primary_at_fault(ts) {
                    seq![StepView::Fail { error: primary_error(t, columns) }]
                } else {
                    lookup_steps(t, columns, ts, primary_error(t, columns), 0) + rest
                }
            },
            ConstraintView::Unique { name, columns } => {
                let ts = key_tuples(rows, columns, targets);
                let whole = complete(ts, ts.len());
                if !all_written(columns, targets) {
                    table_steps(t, cs, cs.len())
                } else if repeats(whole) {
                    seq![StepView::Fail { error: unique_error(t, name) }]
                } else {
                    lookup_steps(t, columns, whole, unique_error(t, name), 0) + rest
                }
            },
            ConstraintView::Check { name, expr } => if rows.len() == 0 {
                rest
            } else if width != targets.len() {
                check_steps(t, cs, cs.len())
            } else {
                seq![StepView::CheckRows { name, expr }] + rest
            },
            ConstraintView::ForeignKey { name, columns, ref_table, ref_columns, on_delete, on_update } => {
                let step = reference_step(t, name, columns, ref_table, ref_columns);
                if step is Fail {
                    seq![step]
                } else {
                    seq![step] + rest
                }
            },
        }
    }
}

fn position_of(names: &Vec<String>, name: &str) -> (r: Option<usize>)
    ensures
        match r {
            Some(k) => k < names@.len() && last_position(texts(names@), name@, texts(names@).len())
                == Some(k as int) && texts(names@).contains(name@),
            None => !texts(names@).contains(name@),
        },
{
    let ghost nv = texts(names@);
    let mut n: usize = names.len();
    while n > 0
        invariant
            n <= names@.len(),
            nv == texts(names@),
            nv.len() == names@.len(),
            last_position(nv, name@, nv.len()) == last_position(nv, name@, n as nat),
            forall|j: int| n <= j < nv.len() ==> #[trigger] nv[j] != name@,
        decreases n,
    {
        assert(nv[n - 1] == names@[n - 1]@);
        if same(&names[n - 1], name) {
            assert(nv.contains(name@));
            return Some(n - 1);
        }
        n -= 1;
    }
    None
}

fn positions_of(cols: &Vec<String>, targets: &Vec<String>) -> (r: Option<Vec<usize>>)
    ensures
        match r {
            None => !all_written(texts(cols@), texts(targets@)),
            Some(p) => {
                &&& all_written(texts(cols@), texts(targets@))
                &&& p@.len() == cols@.len()
                &&& forall|i: int|
                    0 <= i < p@.len() ==> #[trigger] p@[i] < targets@.len() && last_position(
                        texts(targets@),
                        texts(cols@)[i],
                        texts(targets@).len(),
                    ) == Some(p@[i] as int)
            },
        },
{
    let ghost cv = texts(cols@);
    let ghost tv = texts(targets@);
    let mut out: Vec<usize> = Vec::new();
    let mut i: usize = 0;
    while i < cols.len()
        invariant
            i <= cols@.len(),
            out@.len() == i,
            cv == texts(cols@),
            tv == texts(targets@),
            cv.len() == cols@.len(),
            forall|j: int| 0 <= j < i ==> tv.contains(#[trigger] cv[j]),
            forall|j: int|
                0 <= j < i ==> #[trigger] out@[j] < targets@.len() && last_position(
                    tv,
                    cv[j],
                    tv.len(),
                ) == Some(out@[j] as int),
        decreases cols@.len() - i,
    {
        assert(cv[i as int] == cols@[i as int]@);
        match position_of(targets, &cols[i]) {
            None => {
                assert(!tv.contains(cv[i as int]));
                return None;
            },
            Some(k) => {
                out.push(k);
            },
        }
        i += 1;
    }
    Some(out)
}

/// A value of a key, as it stands in a statement.
pub struct Tuple {
    pub parts: Vec<String>,
}

impl View for Tuple {
    type V = Seq<Seq<char>>;

    open spec fn view(&self) -> Seq<Seq<char>> {
        texts(self.parts@)
    }
}

fn tuple_of(row: &Row, positions: &Vec<usize>) -> (r: Tuple)
    requires
        forall|i: int| 0 <= i < positions@.len() ==> #[trigger] positions@[i] < row.cells@.len(),
    ensures
        r@ == Seq::new(positions@.len(), |i: int| literal(row@[positions@[i] as int])),
{
    let mut parts: Vec<String> = Vec::new();
    let mut i: usize = 0;
    while i < positions.len()
        invariant
            i <= positions@.len(),
            parts@.len() == i,
            forall|j: int|
                0 <= j < positions@.len() ==> #[trigger] positions@[j] < row.cells@.len(),
            forall|j: int|
                0 <= j < i ==> (#[trigger] parts@[j])@ == literal(row@[positions@[j] as int]),
        decreases positions@.len() - i,
    {
        parts.push(sql_literal(&row.cells[positions[i]]));
        i += 1;
    }
    let out = Tuple { parts };
    assert(out@ =~= Seq::new(positions@.len(), |k: int| literal(row@[positions@[k] as int])));
    out
}

fn tuples_of(
    rows: &Vec<Row>,
    cols: &Vec<String>,
    targets: &Vec<String>,
    positions: &Vec<usize>,
) -> (r: Vec<Tuple>)
    requires
        positions@.len() == cols@.len(),
        forall|i: int|
            0 <= i < positions@.len() ==> #[trigger] positions@[i] < targets@.len()
                && last_position(texts(targets@), texts(cols@)[i], texts(targets@).len()) == Some(
                positions@[i] as int,
            ),
        forall|i: int| 0 <= i < rows@.len() ==> (#[trigger] rows@[i])@.len() >= targets@.len(),
    ensures
        views(r@) == key_tuples(views(rows@), texts(cols@), texts(targets@)),
{
    let ghost cv = texts(cols@);
    let ghost tv = texts(targets@);
    let mut out: Vec<Tuple> = Vec::new();
    let mut i: usize = 0;
    while i < rows.len()
        invariant
            i <= rows@.len(),
            out@.len() == i,
            cv == texts(cols@),
            tv == texts(targets@),
            positions@.len() == cols@.len(),
            forall|k: int|
                0 <= k < positions@.len() ==> #[trigger] positions@[k] < targets@.len()
                    && last_position(tv, cv[k], tv.len()) == Some(positions@[k] as int),
            forall|k: int| 0 <= k < rows@.len() ==> (#[trigger] rows@[k])@.len() >= targets@.len(),
            forall|j: int| 0 <= j < i ==> (#[trigger] out@[j])@ == key_tuple(rows@[j]@, cv, tv),
        decreases rows@.len() - i,
    {
        assert(rows@[i as int]@.len() == rows@[i as int].cells@.len());
        let t = tuple_of(&rows[i], positions);
        assert(t@ =~= key_tuple(rows@[i as int]@, cv, tv));
        out.push(t);
        i += 1;
    }
    assert(views(out@) =~= key_tuples(views(rows@), cv, tv));
    out
}

fn lacks_part(t: &Tuple) -> (r: bool)
    ensures
        r == has_null(t@),
{
    crate::text::contains_text(&t.parts, "NULL")
}

fn has_repeats(ts: &Vec<Tuple>) -> (r: bool)
    ensures
        r == repeats(views(ts@)),
{
    let ghost tv = views(ts@);
    let mut seen = StringHashSet::new();
    let mut i: usize = 0;
    while i < ts.len()
        invariant
            i <= ts@.len(),
            tv == views(ts@),
            tv.len() == ts@.len(),
            forall|k: Seq<char>| #[trigger]
                seen@.contains(k) <==> exists|j: int| 0 <= j < i && key_text(#[trigger] tv[j]) == k,
            forall|a: int, b: int|
                0 <= a < b < i ==> key_text(#[trigger] tv[a]) != key_text(#[trigger] tv[b]),
        decreases ts@.len() - i,
    {
        assert(tv[i as int] == ts@[i as int]@);
        let key = join(&ts[i].parts, "\x1f");
        let ghost kv = key@;
        assert(kv == key_text(tv[i as int]));
        let ghost before = seen@;
        if !seen.insert(key) {
            assert(before.contains(kv));
            proof {
                let j = choose|j: int| 0 <= j < i && key_text(#[trigger] tv[j]) == kv;
                assert(key_text(tv[j]) == key_text(tv[i as int]));
            }
            return true;
        }
        proof {
            assert forall|k: Seq<char>| #[trigger] seen@.contains(k) <==> exists|j: int|
                0 <= j < i + 1 && key_text(#[trigger] tv[j]) == k by {
                if seen@.contains(k) {
                    if k == kv {
                        assert(key_text(tv[i as int]) == k);
                    } else {
                        assert(before.contains(k));
                    }
                }
            }
            assert(!before.contains(kv));
        }
        i += 1;
    }
    false
}

fn any_lacks_part(ts: &Vec<Tuple>) -> (r: bool)
    ensures
        r == (exists|i: int| 0 <= i < views(ts@).len() && has_null(#[trigger] views(ts@)[i])),
{
    let mut i: usize = 0;
    while i < ts.len()
        invariant
            i <= ts@.len(),
            forall|j: int| 0 <= j < i ==> !has_null(#[trigger] views(ts@)[j]),
        decreases ts@.len() - i,
    {
        assert(views(ts@)[i as int] == ts@[i as int]@);
        if lacks_part(&ts[i]) {
            return true;
        }
        i += 1;
    }
    false
}

fn keep_complete(ts: Vec<Tuple>) -> (r: Vec<Tuple>)
    ensures
        views(r@) == complete(views(ts@), views(ts@).len()),
{
    let ghost tv = views(ts@);
    let mut out: Vec<Tuple> = Vec::new();
    let mut i: usize = 0;
    assert(views(out@) =~= complete(tv, 0));
    while i < ts.len()
        invariant
            i <= ts@.len(),
            tv == views(ts@),
            tv.len() == ts@.len(),
            views(out@) == complete(tv, i as nat),
        decreases ts@.len() - i,
    {
        assert(tv[i as int] == ts@[i as int]@);
        let ghost done = out@;
        if !lacks_part(&ts[i]) {
            let copy = Tuple { parts: clone_strings(&ts[i].parts) };
            let ghost cv = copy@;
            out.push(copy);
            assert(views(out@) =~= views(done).push(cv));
        }
        i += 1;
    }
    out
}

/// The condition that a row has the value of a key.
pub fn write_condition(cols: &Vec<String>, tuple: &Vec<String>) -> (r: String)
    ensures
        r@ == tuple_condition(texts(cols@), texts(tuple@)),
{
    let mut parts: Vec<String> = Vec::new();
    let mut i: usize = 0;
    while i < cols.len() && i < tuple.len()
        invariant
            i <= cols@.len(),
            i <= tuple@.len(),
            parts@.len() == i,
            forall|j: int|
                0 <= j < i ==> (#[trigger] parts@[j])@ == "\""@ + cols@[j]@ + "\" = "@ + tuple@[j]@,
        decreases cols@.len() - i,
    {
        let head = concat3("\"", &cols[i], "\" = ");
        parts.push(concat2(&head, &tuple[i]));
        i += 1;
    }
    assert(texts(parts@) =~= equalities(texts(cols@), texts(tuple@)));
    join(&parts, " AND ")
}

fn write_lookup_sql(t: &str, cols: &Vec<String>, ts: &Vec<Tuple>, from: usize, to: usize) -> (r: String)
    requires
        from <= to <= ts@.len(),
        cols@.len() == 1 ==> forall|i: int|
            0 <= i < ts@.len() ==> (#[trigger] ts@[i])@.len() == 1,
    ensures
        r@ == lookup_sql(t@, texts(cols@), views(ts@).subrange(from as int, to as int)),
{
    let ghost part = views(ts@).subrange(from as int, to as int);
    let ghost cv = texts(cols@);
    assert(cv.len() == cols@.len());
    let mut list: Vec<String> = Vec::new();
    let mut i: usize = from;
    if cols.len() == 1 {
        while i < to
            invariant
                from <= i <= to <= ts@.len(),
                list@.len() == i - from,
                part == views(ts@).subrange(from as int, to as int),
                forall|k: int| 0 <= k < ts@.len() ==> (#[trigger] ts@[k])@.len() == 1,
                forall|j: int| 0 <= j < list@.len() ==> (#[trigger] list@[j])@ == part[j][0],
            decreases to - i,
        {
            assert(ts@[i as int]@.len() == ts@[i as int].parts@.len());
            assert(part[i - from] == ts@[i as int]@);
            list.push(ts[i].parts[0].clone());
            i += 1;
        }
        assert(texts(list@) =~= first_parts(part));
        assert(cv[0] == cols@[0]@);
        let head = concat3("SELECT COUNT(*) AS c FROM \"", t, "\" WHERE \"");
        let with_column = concat3(&head, &cols[0], "\" IN (");
        return concat3(&with_column, &join(&list, ", "), ")");
    }
    while i < to
        invariant
            from <= i <= to <= ts@.len(),
            list@.len() == i - from,
            cv == texts(cols@),
            part == views(ts@).subrange(from as int, to as int),
            forall|j: int|
                0 <= j < list@.len() ==> (#[trigger] list@[j])@ == "("@ + tuple_condition(
                    cv,
                    part[j],
                ) + ")"@,
        decreases to - i,
    {
        assert(part[i - from] == ts@[i as int]@);
        list.push(concat3("(", &write_condition(cols, &ts[i].parts), ")"));
        i += 1;
    }
    assert(texts(list@) =~= conditions(cv, part));
    let head = concat3("SELECT COUNT(*) AS c FROM \"", t, "\" WHERE ");
    concat2(&head, &join(&list, " OR "))
}

/// The steps that look the values of a key up in a table, five hundred at a time.
fn check_uniqueness_against_table(
    t: &str,
    cols: &Vec<String>,
    ts: &Vec<Tuple>,
    error: &str,
    out: &mut Vec<Step>,
)
    requires
        cols@.len() == 1 ==> forall|i: int|
            0 <= i < ts@.len() ==> (#[trigger] ts@[i])@.len() == 1,
    ensures
        views(final(out)@) == views(old(out)@) + lookup_steps(
            t@,
            texts(cols@),
            views(ts@),
            error@,
            0,
        ),
{
    let ghost start = views(out@);
    let ghost tv = views(ts@);
    let ghost cv = texts(cols@);
    let ghost goal = start + lookup_steps(t@, cv, tv, error@, 0);
    let n: usize = ts.len();
    let mut i: usize = 0;
    while i < n
        invariant
            i <= n,
            n == ts@.len(),
            tv == views(ts@),
            tv.len() == n,
            cv == texts(cols@),
            cols@.len() == 1 ==> forall|k: int|
                0 <= k < ts@.len() ==> (#[trigger] ts@[k])@.len() == 1,
            views(out@) + lookup_steps(t@, cv, tv, error@, i as int) == goal,
        decreases n - i,
    {
        let ghost done = out@;
        let to: usize = if LOOKUP_SIZE < n - i {
            i + LOOKUP_SIZE
        } else {
            n
        };
        let step = Step::AtMost {
            sql: write_lookup_sql(t, cols, ts, i, to),
            limit: to - i,
            error: error.to_owned(),
        };
        let ghost sv = step@;
        out.push(step);
        proof {
            assert(views(out@) =~= views(done).push(sv));
            let rest = lookup_steps(t@, cv, tv, error@, to as int);
            assert(lookup_steps(t@, cv, tv, error@, i as int) =~= seq![sv] + rest);
            assert(views(done) + (seq![sv] + rest) =~= views(out@) + rest);
        }
        i = to;
    }
    assert(views(out@) =~= goal);
}

proof fn lemma_tuples_len(rows: Seq<Seq<CellView>>, cols: Seq<Seq<char>>, targets: Seq<Seq<char>>, n: nat)
    ensures
        ({
            let ts = key_tuples(rows, cols, targets);
            forall|i: int|
                0 <= i < complete(ts, n).len() ==> (#[trigger] complete(ts, n)[i]).len()
                    == cols.len()
        }),
    decreases n,
{
    if n > 0 {
        let ts = key_tuples(rows, cols, targets);
        lemma_tuples_len(rows, cols, targets, (n - 1) as nat);
        let rest = complete(ts, (n - 1) as nat);
        assert forall|i: int| 0 <= i < complete(ts, n).len() implies (
        #[trigger] complete(ts, n)[i]).len() == cols.len() by {
            if n <= ts.len() {
                if i < rest.len() {
                    assert(complete(ts, n)[i] == rest[i]);
                } else {
                    assert(complete(ts, n)[i] == key_tuple(rows[n - 1], cols, targets));
                }
            }
        }
    }
}

fn plan_batch_steps(
    t: &str,
    cs: &Vec<TableConstraint>,
    targets: &Vec<String>,
    incoming: &Incoming,
) -> (r: Vec<Step>)
    requires
        incoming.fits(texts(targets@)),
    ensures
        views(r@) == batch_steps(
            t@,
            views(cs@),
            texts(targets@),
            views(incoming.rows@),
            incoming.width,
            0,
        ),
{
    let ghost cv = views(cs@);
    let ghost tv = texts(targets@);
    let ghost rv = views(incoming.rows@);
    let ghost goal = batch_steps(t@, cv, tv, rv, incoming.width, 0);
    let mut out: Vec<Step> = Vec::new();
    let mut i: usize = 0;
    assert(views(out@) + goal =~= goal);
    assert(tv.len() == targets@.len());
    while i < cs.len()
        invariant
            i <= cs@.len(),
            cv == views(cs@),
            cv.len() == cs@.len(),
            tv == texts(targets@),
            tv.len() == targets@.len(),
            rv == views(incoming.rows@),
            rv.len() == incoming.rows@.len(),
            incoming.fits(tv),
            goal == batch_steps(t@, cv, tv, rv, incoming.width, 0),
            views(out@) + batch_steps(t@, cv, tv, rv, incoming.width, i as int) == goal,
        decreases cs@.len() - i,
    {
        assert(cv[i as int] == cs@[i as int]@);
        let ghost here = batch_steps(t@, cv, tv, rv, incoming.width, i as int);
        let ghost rest = batch_steps(t@, cv, tv, rv, incoming.width, i + 1);
        let ghost done = views(out@);
        match &cs[i] {
            TableConstraint::PrimaryKey { columns } => {
                let ghost kv = texts(columns@);
                assert(kv.len() == columns@.len());
                let positions = match positions_of(columns, targets) {
                    None => {
                        write_table_steps(t, cs, &mut out);
                        return out;
                    },
                    Some(p) => p,
                };
                let ts = tuples_of(&incoming.rows, columns, targets, &positions);
                let error = write_primary_error(t, columns);
                if any_lacks_part(&ts) || has_repeats(&ts) {
                    let step = Step::Fail { error };
                    let ghost sv = step@;
                    let ghost before = out@;
                    out.push(step);
                    assert(views(out@) =~= views(before).push(sv));
                    assert(views(out@) =~= done + here);
                    return out;
                }
                assert forall|k: int| 0 <= k < ts@.len() implies (#[trigger] ts@[k])@.len()
                    == kv.len() by {
                    assert(views(ts@)[k] == ts@[k]@);
                }
                check_uniqueness_against_table(t, columns, &ts, &error, &mut out);
                proof {
                    let found = lookup_steps(t@, kv, views(ts@), error@, 0);
                    assert(here == found + rest);
                    assert(done + (found + rest) =~= views(out@) + rest);
                }
            },
            TableConstraint::Unique { name, columns } => {
                let ghost kv = texts(columns@);
                assert(kv.len() == columns@.len());
                let positions = match positions_of(columns, targets) {
                    None => {
                        write_table_steps(t, cs, &mut out);
                        return out;
                    },
                    Some(p) => p,
                };
                let all = tuples_of(&incoming.rows, columns, targets, &positions);
                let ts = keep_complete(all);
                let error = write_unique_error(t, name);
                if has_repeats(&ts) {
                    let step = Step::Fail { error };
                    let ghost sv = step@;
                    let ghost before = out@;
                    out.push(step);
                    assert(views(out@) =~= views(before).push(sv));
                    assert(views(out@) =~= done + here);
                    return out;
                }
                proof {
                    let every = key_tuples(rv, kv, tv);
                    lemma_tuples_len(rv, kv, tv, every.len());
                    assert forall|k: int| 0 <= k < ts@.len() implies (#[trigger] ts@[k])@.len()
                        == kv.len() by {
                        assert(views(ts@)[k] == ts@[k]@);
                    }
                }
                check_uniqueness_against_table(t, columns, &ts, &error, &mut out);
                proof {
                    let found = lookup_steps(t@, kv, views(ts@), error@, 0);
                    assert(here == found + rest);
                    assert(done + (found + rest) =~= views(out@) + rest);
                }
            },
            TableConstraint::Check { name, expr } => {
                if incoming.rows.len() > 0 {
                    if incoming.width != targets.len() {
                        write_check_steps(t, cs, &mut out);
                        return out;
                    }
                    let step = Step::CheckRows { name: name.clone(), expr: expr.clone() };
                    let ghost sv = step@;
                    let ghost before = out@;
                    out.push(step);
                    assert(views(out@) =~= views(before).push(sv));
                    assert(done + (seq![sv] + rest) =~= views(out@) + rest);
                }
            },
            TableConstraint::ForeignKey { name, columns, ref_table, ref_columns, .. } => {
                let step = write_reference_step(t, name, columns, ref_table, ref_columns);
                let ghost sv = step@;
                let ghost before = out@;
                let fails: bool = match &step {
                    Step::Fail { .. } => true,
                    _ => false,
                };
                out.push(step);
                assert(views(out@) =~= views(before).push(sv));
                if fails {
                    assert(views(out@) =~= done + here);
                    return out;
                }
                assert(done + (seq![sv] + rest) =~= views(out@) + rest);
            },
        }
        i += 1;
    }
    assert(views(out@) =~= goal);
    out
}

// ---------------------------------------------------------------------------
// The query that holds new rows against a check
// ---------------------------------------------------------------------------

/// The columns of the new rows under the names of the columns that they are written to.
pub open spec fn renamed_columns(fields: Seq<Seq<char>>, targets: Seq<Seq<char>>) -> Seq<Seq<char>> {
    Seq::new(
        shorter(fields.len(), targets.len()),
        |i: int| "\""@ + fields[i] + "\" AS \""@ + targets[i] + "\""@,
    )
}

/// The query that counts the new rows, in the table `tmp`, that do not meet an expression.
pub fn check_rows_sql(
    fields: &Vec<String>,
    targets: &Vec<String>,
    tmp: &str,
    expr: &str,
) -> (r: String)
    ensures
        r@ == "SELECT COUNT(*) AS c FROM (SELECT "@ + joined(
            renamed_columns(texts(fields@), texts(targets@)),
            ", "@,
        ) + " FROM \""@ + tmp@ + "\") AS __potato_chk WHERE NOT ("@ + expr@ + ")"@,
        r@ == failing_rows(texts(fields@), texts(targets@), tmp@, expr@).text,
{
    proof {
        lemma_failing_text(texts(fields@), texts(targets@), tmp@, expr@);
    }
    let mut parts: Vec<String> = Vec::new();
    let mut i: usize = 0;
    while i < fields.len() && i < targets.len()
        invariant
            i <= fields@.len(),
            i <= targets@.len(),
            parts@.len() == i,
            forall|j: int|
                0 <= j < i ==> (#[trigger] parts@[j])@ == "\""@ + fields@[j]@ + "\" AS \""@
                    + targets@[j]@ + "\""@,
        decreases fields@.len() - i,
    {
        let head = concat3("\"", &fields[i], "\" AS \"");
        parts.push(concat3(&head, &targets[i], "\""));
        i += 1;
    }
    assert(texts(parts@) =~= renamed_columns(texts(fields@), texts(targets@)));
    let head = concat3("SELECT COUNT(*) AS c FROM (SELECT ", &join(&parts, ", "), " FROM \"");
    let from = concat3(&head, tmp, "\") AS __potato_chk WHERE NOT (");
    concat3(&from, expr, ")")
}

/// What a check of new rows comes to, given how many do not meet it.
pub fn judge_check(table: &str, name: &str, count: i64) -> (r: Result<(), String>)
    ensures
        match r {
            Ok(_) => count <= 0,
            Err(e) => count > 0 && e@ == "CHECK constraint violation '"@ + name@ + "' on '"@ + table@
                + "' ("@ + decimal_signed(count as int) + " row(s))"@,
        },
{
    if count <= 0 {
        return Ok(());
    }
    let head = concat3("CHECK constraint violation '", name, "' on '");
    let with_table = concat3(&head, table, "' (");
    Err(concat3(&with_table, &print_i64(count), " row(s))"))
}

// ---------------------------------------------------------------------------
// Nulls in new rows
// ---------------------------------------------------------------------------

/// Which columns of a batch hold a null.
pub struct BatchNulls {
    /// For each column, whether it holds a null.
    pub nulls: Vec<bool>,
}

/// Whether a column of a batch holds a null, given its type as it prints and the nulls that are
/// counted in it. A column that has no type but null consists of nulls, though none is counted.
pub fn holds_null(data_type: &str, counted: usize) -> (r: bool)
    ensures
        r == (data_type@ == "Null"@ || counted > 0),
{
    same(data_type, "Null") || counted > 0
}

/// Whether the table has a column of the name that takes no nulls.
pub open spec fn takes_no_null(cs: Seq<ColumnView>, name: Seq<char>) -> bool {
    exists|i: int| 0 <= i < cs.len() && (#[trigger] cs[i]).name == name && !cs[i].nullable
}

/// The first of the first `n` written columns in which a batch holds a null that it may not.
pub open spec fn null_column(
    nulls: Seq<bool>,
    targets: Seq<Seq<char>>,
    cs: Seq<ColumnView>,
    n: nat,
) -> Option<Seq<char>>
    decreases n,
{
    if n == 0 || n > targets.len() {
        None
    } else {
        match null_column(nulls, targets, cs, (n - 1) as nat) {
            Some(c) => Some(c),
            None => if n - 1 < nulls.len() && nulls[n - 1] && takes_no_null(cs, targets[n - 1]) {
                Some(targets[n - 1])
            } else {
                None
            },
        }
    }
}

/// The first column in which one of the first `n` batches holds a null that it may not.
pub open spec fn null_found(
    batches: Seq<BatchNulls>,
    targets: Seq<Seq<char>>,
    cs: Seq<ColumnView>,
    n: nat,
) -> Option<Seq<char>>
    decreases n,
{
    if n == 0 || n > batches.len() {
        None
    } else {
        match null_found(batches, targets, cs, (n - 1) as nat) {
            Some(c) => Some(c),
            None => null_column(batches[n - 1].nulls@, targets, cs, targets.len()),
        }
    }
}

fn column_takes_no_null(cs: &Vec<ColumnDef>, name: &str) -> (r: bool)
    ensures
        r == takes_no_null(views(cs@), name@),
{
    let mut i: usize = 0;
    while i < cs.len()
        invariant
            i <= cs@.len(),
            forall|j: int|
                0 <= j < i ==> !((#[trigger] views(cs@)[j]).name == name@ && !views(cs@)[j].nullable),
        decreases cs@.len() - i,
    {
        assert(views(cs@)[i as int] == cs@[i as int]@);
        if same(&cs[i].name, name) && !cs[i].nullable {
            return true;
        }
        i += 1;
    }
    false
}

proof fn lemma_null_column(
    nulls: Seq<bool>,
    targets: Seq<Seq<char>>,
    cs: Seq<ColumnView>,
    i: nat,
    n: nat,
)
    requires
        i <= n <= targets.len(),
        null_column(nulls, targets, cs, i) is Some,
    ensures
        null_column(nulls, targets, cs, n) == null_column(nulls, targets, cs, i),
    decreases n - i,
{
    if i < n {
        lemma_null_column(nulls, targets, cs, i, (n - 1) as nat);
    }
}

proof fn lemma_null_found(
    batches: Seq<BatchNulls>,
    targets: Seq<Seq<char>>,
    cs: Seq<ColumnView>,
    i: nat,
    n: nat,
)
    requires
        i <= n <= batches.len(),
        null_found(batches, targets, cs, i) is Some,
    ensures
        null_found(batches, targets, cs, n) == null_found(batches, targets, cs, i),
    decreases n - i,
{
    if i < n {
        lemma_null_found(batches, targets, cs, i, (n - 1) as nat);
    }
}

fn find_null_column(nulls: &Vec<bool>, targets: &Vec<String>, cs: &Vec<ColumnDef>) -> (r: Option<
    String,
>)
    ensures
        crate::text::opt_text(r) == null_column(
            nulls@,
            texts(targets@),
            views(cs@),
            texts(targets@).len(),
        ),
{
    let ghost tv = texts(targets@);
    let ghost cv = views(cs@);
    let mut i: usize = 0;
    while i < targets.len()
        invariant
            i <= targets@.len(),
            tv == texts(targets@),
            cv == views(cs@),
            tv.len() == targets@.len(),
            null_column(nulls@, tv, cv, i as nat) is None,
        decreases targets@.len() - i,
    {
        assert(tv[i as int] == targets@[i as int]@);
        if i < nulls.len() && nulls[i] && column_takes_no_null(cs, &targets[i]) {
            proof {
                assert(null_column(nulls@, tv, cv, (i + 1) as nat) == Some(tv[i as int]));
                lemma_null_column(nulls@, tv, cv, (i + 1) as nat, tv.len());
            }
            return Some(targets[i].clone());
        }
        i += 1;
    }
    None
}

/// Which columns of a batch hold a null, and the names of the columns.
pub struct NamedNulls {
    pub names: Vec<String>,
    /// For each column, whether it holds a null.
    pub nulls: Vec<bool>,
}

/// What [`NamedNulls`] say.
pub struct NamedNullsView {
    pub names: Seq<Seq<char>>,
    pub nulls: Seq<bool>,
}

impl View for NamedNulls {
    type V = NamedNullsView;

    open spec fn view(&self) -> NamedNullsView {
        NamedNullsView { names: texts(self.names@), nulls: self.nulls@ }
    }
}

impl NamedNulls {
    /// Each column has one name.
    pub open spec fn wf(&self) -> bool {
        self.names@.len() == self.nulls@.len()
    }
}

/// Whether a batch holds a null in a column of the table that takes none. A column that the batch
/// lacks is passed over.
pub open spec fn null_in(b: NamedNullsView, c: ColumnView) -> bool {
    !c.nullable && match first_position(b.names, c.name, b.names.len()) {
        Some(i) => b.nulls[i],
        None => false,
    }
}

/// The first of the first `n` columns of the table in which a batch holds a null that it may not.
pub open spec fn named_null_column(b: NamedNullsView, cs: Seq<ColumnView>, n: nat) -> Option<Seq<char>>
    decreases n,
{
    if n == 0 || n > cs.len() {
        None
    } else {
        match named_null_column(b, cs, (n - 1) as nat) {
            Some(c) => Some(c),
            None => if null_in(b, cs[n - 1]) {
                Some(cs[n - 1].name)
            } else {
                None
            },
        }
    }
}

/// The first column in which one of the first `n` batches holds a null that it may not.
pub open spec fn named_null_found(bs: Seq<NamedNullsView>, cs: Seq<ColumnView>, n: nat) -> Option<
    Seq<char>,
>
    decreases n,
{
    if n == 0 || n > bs.len() {
        None
    } else {
        match named_null_found(bs, cs, (n - 1) as nat) {
            Some(c) => Some(c),
            None => named_null_column(bs[n - 1], cs, cs.len()),
        }
    }
}

proof fn lemma_named_null_column(b: NamedNullsView, cs: Seq<ColumnView>, i: nat, n: nat)
    requires
        i <= n <= cs.len(),
        named_null_column(b, cs, i) is Some,
    ensures
        named_null_column(b, cs, n) == named_null_column(b, cs, i),
    decreases n - i,
{
    if i < n {
        lemma_named_null_column(b, cs, i, (n - 1) as nat);
    }
}

proof fn lemma_named_null_found(bs: Seq<NamedNullsView>, cs: Seq<ColumnView>, i: nat, n: nat)
    requires
        i <= n <= bs.len(),
        named_null_found(bs, cs, i) is Some,
    ensures
        named_null_found(bs, cs, n) == named_null_found(bs, cs, i),
    decreases n - i,
{
    if i < n {
        lemma_named_null_found(bs, cs, i, (n - 1) as nat);
    }
}

fn find_named_null(b: &NamedNulls, cs: &Vec<ColumnDef>) -> (r: Option<String>)
    requires
        b.wf(),
    ensures
        crate::text::opt_text(r) == named_null_column(b@, views(cs@), views(cs@).len()),
{
    let ghost cv = views(cs@);
    let mut i: usize = 0;
    while i < cs.len()
        invariant
            i <= cs@.len(),
            b.wf(),
            cv == views(cs@),
            cv.len() == cs@.len(),
            named_null_column(b@, cv, i as nat) is None,
        decreases cs@.len() - i,
    {
        assert(cv[i as int] == cs@[i as int]@);
        let place = find_position(&b.names, &cs[i].name);
        let found = !cs[i].nullable && match place {
            Some(k) => b.nulls[k],
            None => false,
        };
        if found {
            proof {
                assert(named_null_column(b@, cv, (i + 1) as nat) == Some(cv[i as int].name));
                lemma_named_null_column(b@, cv, (i + 1) as nat, cv.len());
            }
            return Some(cs[i].name.clone());
        }
        i += 1;
    }
    None
}

// ---------------------------------------------------------------------------
// The checks of the engine
// ---------------------------------------------------------------------------

impl Catalog {
    /// Whether new rows may be written, as far as nulls go: the columns of the batches are found by
    /// their names. A table that is not there takes everything.
    pub fn validate_not_null_batches(&self, table: &str, batches: &Vec<NamedNulls>) -> (r: Result<
        (),
        String,
    >)
        requires
            self.wf(),
            forall|i: int| 0 <= i < batches@.len() ==> (#[trigger] batches@[i]).wf(),
        ensures
            match lookup(self@.tables, table@) {
                None => r is Ok,
                Some(meta) => match named_null_found(
                    views(batches@),
                    meta.columns,
                    views(batches@).len(),
                ) {
                    None => r is Ok,
                    Some(col) => r matches Err(e) && e@ == "NOT NULL constraint failed: '"@ + table@
                        + "."@ + col + "'"@,
                },
            },
    {
        match self.tables.lookup(table) {
            None => Ok(()),
            Some(meta) => {
                let ghost bv = views(batches@);
                let ghost cv = views(meta.columns@);
                let mut i: usize = 0;
                while i < batches.len()
                    invariant
                        i <= batches@.len(),
                        bv == views(batches@),
                        bv.len() == batches@.len(),
                        cv == views(meta.columns@),
                        forall|k: int| 0 <= k < batches@.len() ==> (#[trigger] batches@[k]).wf(),
                        named_null_found(bv, cv, i as nat) is None,
                        lookup(self@.tables, table@) == Some(meta@),
                        meta@.columns == cv,
                    decreases batches@.len() - i,
                {
                    assert(bv[i as int] == batches@[i as int]@);
                    match find_named_null(&batches[i], &meta.columns) {
                        Some(col) => {
                            proof {
                                assert(named_null_found(bv, cv, (i + 1) as nat) == Some(col@));
                                lemma_named_null_found(bv, cv, (i + 1) as nat, bv.len());
                            }
                            let head = concat3("NOT NULL constraint failed: '", table, ".");
                            return Err(concat3(&head, &col, "'"));
                        },
                        None => {},
                    }
                    i += 1;
                }
                Ok(())
            },
        }
    }

    /// Whether new rows may be written, as far as nulls go: the columns of the batches stand in the
    /// order in which they are written. A table that is not there takes everything.
    pub fn validate_not_null_positional(
        &self,
        table: &str,
        targets: &Vec<String>,
        batches: &Vec<BatchNulls>,
    ) -> (r: Result<(), String>)
        requires
            self.wf(),
        ensures
            match lookup(self@.tables, table@) {
                None => r is Ok,
                Some(meta) => match null_found(
                    batches@,
                    texts(targets@),
                    meta.columns,
                    batches@.len(),
                ) {
                    None => r is Ok,
                    Some(col) => r matches Err(e) && e@ == "NOT NULL constraint failed: '"@ + table@
                        + "."@ + col + "'"@,
                },
            },
    {
        match self.tables.lookup(table) {
            None => Ok(()),
            Some(meta) => {
                let ghost tv = texts(targets@);
                let ghost cv = views(meta.columns@);
                let mut i: usize = 0;
                while i < batches.len()
                    invariant
                        i <= batches@.len(),
                        tv == texts(targets@),
                        cv == views(meta.columns@),
                        null_found(batches@, tv, cv, i as nat) is None,
                        lookup(self@.tables, table@) == Some(meta@),
                        meta@.columns == cv,
                    decreases batches@.len() - i,
                {
                    match find_null_column(&batches[i].nulls, targets, &meta.columns) {
                        Some(col) => {
                            proof {
                                assert(null_found(batches@, tv, cv, (i + 1) as nat) == Some(col@));
                                lemma_null_found(
                                    batches@,
                                    tv,
                                    cv,
                                    (i + 1) as nat,
                                    batches@.len(),
                                );
                            }
                            let head = concat3("NOT NULL constraint failed: '", table, ".");
                            return Err(concat3(&head, &col, "'"));
                        },
                        None => {},
                    }
                    i += 1;
                }
                Ok(())
            },
        }
    }

    /// The steps by which new rows are held against the constraints of a table. A table that is not
    /// there has none, and so have rows that came in no batch.
    pub fn validate_constraints_batch(
        &self,
        table: &str,
        targets: &Vec<String>,
        incoming: &Incoming,
    ) -> (r: Vec<Step>)
        requires
            self.wf(),
            incoming.fits(texts(targets@)),
        ensures
            views(r@) == match lookup(self@.tables, table@) {
                Some(meta) => if incoming.any_batch {
                    batch_steps(
                        table@,
                        meta.constraints,
                        texts(targets@),
                        views(incoming.rows@),
                        incoming.width,
                        0,
                    )
                } else {
                    Seq::empty()
                },
                None => Seq::empty(),
            },
    {
        let none: Vec<Step> = Vec::new();
        assert(views(none@) =~= Seq::<StepView>::empty());
        if !incoming.any_batch {
            return none;
        }
        match self.tables.lookup(table) {
            None => none,
            Some(meta) => plan_batch_steps(table, &meta.constraints, targets, incoming),
        }
    }

    /// The step that looks for nulls in a whole table where there may be none.
    pub fn validate_not_null_table(&self, table: &str) -> (r: Vec<Step>)
        requires
            self.wf(),
        ensures
            views(r@) == match lookup(self@.tables, table@) {
                Some(meta) => not_null_steps(table@, meta.columns),
                None => Seq::empty(),
            },
    {
        match self.tables.lookup(table) {
            None => {
                let none: Vec<Step> = Vec::new();
                assert(views(none@) =~= Seq::<StepView>::empty());
                none
            },
            Some(meta) => write_not_null_steps(table, &meta.columns),
        }
    }

    /// The steps by which a whole table is held against its keys.
    pub fn validate_table_constraints(&self, table: &str) -> (r: Vec<Step>)
        requires
            self.wf(),
        ensures
            views(r@) == match lookup(self@.tables, table@) {
                Some(meta) => table_steps(table@, meta.constraints, meta.constraints.len()),
                None => Seq::empty(),
            },
    {
        let mut out: Vec<Step> = Vec::new();
        assert(views(out@) =~= Seq::<StepView>::empty());
        match self.tables.lookup(table) {
            None => {},
            Some(meta) => {
                write_table_steps(table, &meta.constraints, &mut out);
                proof {
                    let all = table_steps(table@, meta@.constraints, meta@.constraints.len());
                    assert(Seq::<StepView>::empty() + all =~= all);
                }
            },
        }
        out
    }

    /// The steps by which a whole table is held against its checks.
    pub fn validate_check_constraints(&self, table: &str) -> (r: Vec<Step>)
        requires
            self.wf(),
        ensures
            views(r@) == match lookup(self@.tables, table@) {
                Some(meta) => check_steps(table@, meta.constraints, meta.constraints.len()),
                None => Seq::empty(),
            },
    {
        let mut out: Vec<Step> = Vec::new();
        assert(views(out@) =~= Seq::<StepView>::empty());
        match self.tables.lookup(table) {
            None => {},
            Some(meta) => {
                write_check_steps(table, &meta.constraints, &mut out);
                proof {
                    let all = check_steps(table@, meta@.constraints, meta@.constraints.len());
                    assert(Seq::<StepView>::empty() + all =~= all);
                }
            },
        }
        out
    }
}

// ---------------------------------------------------------------------------
// Laws
// ---------------------------------------------------------------------------

/// New rows that repeat a value of the primary key, or leave a part of it out, are refused before
/// any query is run.
pub proof fn law_faulty_primary_key_is_refused(
    t: Seq<char>,
    columns: Seq<Seq<char>>,
    targets: Seq<Seq<char>>,
    rows: Seq<Seq<CellView>>,
    width: usize,
)
    requires
        all_written(columns, targets),
        primary_at_fault(key_tuples(rows, columns, targets)),
    ensures
        batch_steps(t, seq![ConstraintView::PrimaryKey { columns }], targets, rows, width, 0)
            == seq![StepView::Fail { error: primary_error(t, columns) }],
        judged(StepView::Fail { error: primary_error(t, columns) }, 0) == Some(
            primary_error(t, columns),
        ),
{
}

/// Rows whose values of a unique key all lack a part are not looked up at all.
pub proof fn law_unique_key_lets_nulls_pass(ts: Seq<Seq<Seq<char>>>, n: nat)
    requires
        n <= ts.len(),
        forall|i: int| 0 <= i < n ==> has_null(#[trigger] ts[i]),
    ensures
        complete(ts, n) == Seq::<Seq<Seq<char>>>::empty(),
        !repeats(complete(ts, n)),
    decreases n,
{
    if n > 0 {
        law_unique_key_lets_nulls_pass(ts, (n - 1) as nat);
    }
}

proof fn lemma_lookup_limits(
    t: Seq<char>,
    cols: Seq<Seq<char>>,
    ts: Seq<Seq<Seq<char>>>,
    error: Seq<char>,
    i: int,
    k: int,
)
    requires
        0 <= i,
        0 <= k < lookup_steps(t, cols, ts, error, i).len(),
        ts.len() <= usize::MAX,
    ensures
        lookup_steps(t, cols, ts, error, i)[k] matches StepView::AtMost { limit, .. } && limit
            <= LOOKUP_SIZE,
    decreases ts.len() - i,
{
    if i < ts.len() {
        let j = if i + LOOKUP_SIZE < ts.len() {
            i + LOOKUP_SIZE
        } else {
            ts.len() as int
        };
        if k > 0 {
            lemma_lookup_limits(t, cols, ts, error, j, k - 1);
        }
    }
}

/// No query looks up more than five hundred values.
pub proof fn law_lookups_are_small(
    t: Seq<char>,
    cols: Seq<Seq<char>>,
    ts: Seq<Seq<Seq<char>>>,
    error: Seq<char>,
    k: int,
)
    requires
        0 <= k < lookup_steps(t, cols, ts, error, 0).len(),
        ts.len() <= usize::MAX,
    ensures
        lookup_steps(t, cols, ts, error, 0)[k] matches StepView::AtMost { limit, .. } && limit
            <= LOOKUP_SIZE,
{
    lemma_lookup_limits(t, cols, ts, error, 0, k);
}

/// The query that counts the new rows that do not meet an expression.
pub open spec fn failing_rows(
    fields: Seq<Seq<char>>,
    targets: Seq<Seq<char>>,
    tmp: Seq<char>,
    expr: Seq<char>,
) -> Query {
    meaning::select_where(
        meaning::count_list(),
        meaning::table_renamed(
            meaning::quoted_name(tmp),
            fields,
            targets,
            shorter(fields.len(), targets.len()),
            "__potato_chk"@,
        ),
        meaning::not(meaning::paren(meaning::other(expr))),
    )
}

proof fn lemma_failing_text(
    fields: Seq<Seq<char>>,
    targets: Seq<Seq<char>>,
    tmp: Seq<char>,
    expr: Seq<char>,
)
    ensures
        failing_rows(fields, targets, tmp, expr).text == "SELECT COUNT(*) AS c FROM (SELECT "@
            + joined(renamed_columns(fields, targets), ", "@) + " FROM \""@ + tmp
            + "\") AS __potato_chk WHERE NOT ("@ + expr + ")"@,
{
    let n = shorter(fields.len(), targets.len());
    let ps = meaning::renamings(fields, targets, n);
    reveal_strlit("\"");
    reveal_strlit("\" AS \"");
    reveal_strlit(" AS ");
    assert forall|i: int| 0 <= i < n implies #[trigger] meaning::phrase_texts(ps)[i]
        == renamed_columns(fields, targets)[i] by {
        assert("\""@ + fields[i] + "\" AS \""@ + targets[i] + "\""@ =~= ps[i].text);
    }
    assert(meaning::phrase_texts(ps) =~= renamed_columns(fields, targets));
    let list = joined(renamed_columns(fields, targets), ", "@);
    reveal_strlit("SELECT COUNT(*) AS c FROM (SELECT ");
    reveal_strlit("SELECT ");
    reveal_strlit("COUNT(*) AS c");
    reveal_strlit(" FROM ");
    reveal_strlit("(SELECT ");
    reveal_strlit(" FROM \"");
    reveal_strlit("\") AS __potato_chk WHERE NOT (");
    reveal_strlit(") AS ");
    reveal_strlit("__potato_chk");
    reveal_strlit(" WHERE ");
    reveal_strlit("NOT ");
    reveal_strlit("(");
    reveal_strlit(")");
    assert(failing_rows(fields, targets, tmp, expr).text =~= "SELECT COUNT(*) AS c FROM (SELECT "@
        + list + " FROM \""@ + tmp + "\") AS __potato_chk WHERE NOT ("@ + expr + ")"@);
}

/// A check of new rows counts exactly those of which the expression is false. The expression sees each
/// row under the names of the columns that it is written to.
pub proof fn law_new_rows_are_checked(
    fields: Seq<Seq<char>>,
    targets: Seq<Seq<char>>,
    tmp: Seq<char>,
    expr: Seq<char>,
    w: World,
)
    ensures
        ({
            let n = shorter(fields.len(), targets.len());
            let rows = meaning::rows_of(w, meaning::quoted_name(tmp));
            let seen = Seq::new(
                rows.len(),
                |i: int| meaning::renamed(rows[i], fields, targets, n),
            );
            (failing_rows(fields, targets, tmp, expr).rows)(w) == meaning::single(
                "__potato_chk"@,
                seen.filter(
                    |r|
                        (w.other)(expr, seq![Frame { name: "__potato_chk"@, row: r }])
                            == Value::Bool(false),
                ),
            )
        }),
{
    let n = shorter(fields.len(), targets.len());
    let rows = meaning::rows_of(w, meaning::quoted_name(tmp));
    let seen = Seq::new(rows.len(), |i: int| meaning::renamed(rows[i], fields, targets, n));
    meaning::lemma_kept_single(
        w,
        "__potato_chk"@,
        seen,
        meaning::not(meaning::paren(meaning::other(expr))),
        |r|
            (w.other)(expr, seq![Frame { name: "__potato_chk"@, row: r }]) == Value::Bool(false),
    );
}

/// What each step counts decides: none may be there, or no more than the limit.
pub proof fn law_steps_pass_where_nothing_is_wrong(s: StepView, count: i64)
    ensures
        s is NoneAllowed ==> (judged(s, count) is None <==> count <= 0),
        s is NoneCounted ==> (judged(s, count) is None <==> count <= 0),
        s is AtMost ==> (judged(s, count) is None <==> 0 <= count <= s->AtMost_limit),
        s is Fail ==> judged(s, count) is Some,
{
}

/// A step that looks for missing values of a key counts exactly the rows without a value there.
pub proof fn law_missing_keys_are_counted(t: Seq<char>, col: Seq<char>, w: World)
    ensures
        ({
            let name = meaning::quoted_name(t);
            let q = meaning::select_where(
                meaning::count_list(),
                meaning::table(name),
                meaning::is_null(meaning::column(col)),
            );
            &&& null_step(t, col) matches StepView::NoneAllowed { sql, .. }
            &&& sql == q.text
            &&& (q.rows)(w) == meaning::single(
                name,
                meaning::rows_of(w, name).filter(|r| meaning::cell_of(r, col) == Value::Null),
            )
        }),
{
    let name = meaning::quoted_name(t);
    let p = meaning::is_null(meaning::column(col));
    let rows = meaning::rows_of(w, name);
    assert forall|i: int| 0 <= i < rows.len() implies meaning::holds(
        (p.value)(w, seq![Frame { name, row: #[trigger] rows[i] }]),
    ) == (meaning::cell_of(rows[i], col) == Value::Null) by {
        meaning::lemma_single_column(name, rows[i], col);
    }
    meaning::lemma_kept_single(w, name, rows, p, |r| meaning::cell_of(r, col) == Value::Null);
    reveal_strlit("SELECT COUNT(*) AS c FROM \"");
    reveal_strlit("SELECT ");
    reveal_strlit("COUNT(*) AS c");
    reveal_strlit(" FROM ");
    reveal_strlit("\"");
    reveal_strlit("\" WHERE \"");
    reveal_strlit(" WHERE ");
    reveal_strlit("\" IS NULL");
    reveal_strlit(" IS NULL");
    assert(null_sql(t, col) =~= meaning::select_where(
        meaning::count_list(),
        meaning::table(name),
        p,
    ).text);
}

/// A step that looks for nulls in a table counts exactly the rows that lack the value of a column
/// which takes no nulls. A table whose columns all take nulls has no such step.
pub proof fn law_forbidden_nulls_are_counted(t: Seq<char>, cs: Seq<ColumnView>, w: World)
    ensures
        ({
            let name = meaning::quoted_name(t);
            let lacking = |r: Map<Seq<char>, Value>|
                exists|i: int|
                    0 <= i < cs.len() && !(#[trigger] cs[i]).nullable && meaning::cell_of(
                        r,
                        cs[i].name,
                    ) == Value::Null;
            let steps = not_null_steps(t, cs);
            &&& steps.len() == 0 <==> forall|i: int|
                0 <= i < cs.len() ==> (#[trigger] cs[i]).nullable
            &&& steps.len() > 0 ==> {
                let q = meaning::select_where(
                    meaning::count_list(),
                    meaning::table(name),
                    meaning::any(null_phrases(required_columns(cs, cs.len()))),
                );
                &&& steps.len() == 1
                &&& steps[0] matches StepView::NoneCounted { sql, .. }
                &&& sql == q.text
                &&& (q.rows)(w) == meaning::single(
                    name,
                    meaning::rows_of(w, name).filter(lacking),
                )
            }
        }),
{
    let name = meaning::quoted_name(t);
    let required = required_columns(cs, cs.len());
    lemma_required(cs, cs.len());
    let lacking = |r: Map<Seq<char>, Value>|
        exists|i: int|
            0 <= i < cs.len() && !(#[trigger] cs[i]).nullable && meaning::cell_of(r, cs[i].name)
                == Value::Null;
    if required.len() == 0 {
        assert forall|i: int| 0 <= i < cs.len() implies (#[trigger] cs[i]).nullable by {
            if !cs[i].nullable {
                assert(required.contains(cs[i].name));
            }
        }
    } else {
        assert(required.contains(required[0]));
        let ps = null_phrases(required);
        let p = meaning::any(ps);
        let rows = meaning::rows_of(w, name);
        assert forall|i: int| 0 <= i < rows.len() implies meaning::holds(
            (p.value)(w, seq![Frame { name, row: #[trigger] rows[i] }]),
        ) == lacking(rows[i]) by {
            let s = seq![Frame { name, row: rows[i] }];
            let vs = meaning::phrase_values(ps, w, s);
            meaning::lemma_disjunction(vs);
            assert forall|k: int| 0 <= k < required.len() implies #[trigger] vs[k] == Value::Bool(
                meaning::cell_of(rows[i], required[k]) == Value::Null,
            ) by {
                meaning::lemma_single_column(name, rows[i], required[k]);
            }
            if lacking(rows[i]) {
                let c = choose|c: int|
                    0 <= c < cs.len() && !(#[trigger] cs[c]).nullable && meaning::cell_of(
                        rows[i],
                        cs[c].name,
                    ) == Value::Null;
                assert(required.contains(cs[c].name));
                let k = choose|k: int| 0 <= k < required.len() && required[k] == cs[c].name;
                assert(meaning::holds(vs[k]));
            }
            if exists|k: int| 0 <= k < vs.len() && meaning::holds(#[trigger] vs[k]) {
                let k = choose|k: int| 0 <= k < vs.len() && meaning::holds(#[trigger] vs[k]);
                assert(required.contains(required[k]));
                let c = choose|c: int|
                    0 <= c < cs.len() && !(#[trigger] cs[c]).nullable && cs[c].name == required[k];
                assert(lacking(rows[i]));
            }
        }
        meaning::lemma_kept_single(w, name, rows, p, lacking);
        reveal_strlit("\"");
        reveal_strlit("\" IS NULL");
        reveal_strlit(" IS NULL");
        assert forall|i: int| 0 <= i < required.len() implies #[trigger] meaning::phrase_texts(
            ps,
        )[i] == wrapped("\""@, required, "\" IS NULL"@)[i] by {
            assert("\""@ + required[i] + "\" IS NULL"@ =~= ps[i].text);
        }
        assert(meaning::phrase_texts(ps) =~= wrapped("\""@, required, "\" IS NULL"@));
        reveal_strlit("SELECT COUNT(*) AS c FROM \"");
        reveal_strlit("SELECT ");
        reveal_strlit("COUNT(*) AS c");
        reveal_strlit(" FROM ");
        reveal_strlit("\" WHERE ");
        reveal_strlit(" WHERE ");
        assert("SELECT COUNT(*) AS c FROM \""@ + t + "\" WHERE "@ + p.text
            =~= meaning::select_where(meaning::count_list(), meaning::table(name), p).text);
    }
}

/// `"col" IS NULL`, for each column.
pub open spec fn null_phrases(cols: Seq<Seq<char>>) -> Seq<Phrase> {
    Seq::new(cols.len(), |i: int| meaning::is_null(meaning::column(cols[i])))
}

proof fn lemma_required(cs: Seq<ColumnView>, n: nat)
    requires
        n <= cs.len(),
    ensures
        forall|i: int|
            0 <= i < n && !(#[trigger] cs[i]).nullable ==> required_columns(cs, n).contains(
                cs[i].name,
            ),
        forall|x: Seq<char>| #[trigger]
            required_columns(cs, n).contains(x) ==> exists|i: int|
                0 <= i < n && !(#[trigger] cs[i]).nullable && cs[i].name == x,
    decreases n,
{
    if n > 0 {
        let m = (n - 1) as nat;
        lemma_required(cs, m);
        let rest = required_columns(cs, m);
        let all = required_columns(cs, n);
        assert forall|i: int| 0 <= i < n && !(#[trigger] cs[i]).nullable implies all.contains(
            cs[i].name,
        ) by {
            if i < m {
                let k = choose|k: int| 0 <= k < rest.len() && rest[k] == cs[i].name;
                assert(all[k] == cs[i].name);
            } else {
                assert(all[all.len() - 1] == cs[i].name);
            }
        }
        assert forall|x: Seq<char>| #[trigger] all.contains(x) implies exists|i: int|
            0 <= i < n && !(#[trigger] cs[i]).nullable && cs[i].name == x by {
            let k = choose|k: int| 0 <= k < all.len() && all[k] == x;
            if k < rest.len() {
                assert(rest[k] == x);
                assert(rest.contains(x));
                let i = choose|i: int| 0 <= i < m && !(#[trigger] cs[i]).nullable && cs[i].name == x;
                assert(0 <= i < n && !cs[i].nullable && cs[i].name == x);
            } else {
                assert(!cs[n - 1].nullable && cs[n - 1].name == x);
            }
        }
    }
}

/// A column, for each name.
pub open spec fn column_phrases(cols: Seq<Seq<char>>) -> Seq<Phrase> {
    Seq::new(cols.len(), |i: int| meaning::column(cols[i]))
}

/// Whether two rows have the same values in some columns.
pub open spec fn same_key(
    cols: Seq<Seq<char>>,
    a: Map<Seq<char>, Value>,
    b: Map<Seq<char>, Value>,
) -> bool {
    forall|i: int|
        0 <= i < cols.len() ==> meaning::cell_of(a, #[trigger] cols[i]) == meaning::cell_of(
            b,
            cols[i],
        )
}

/// The query that looks for values of a key that occur more than once counts something exactly where
/// two rows of the table have the same values in all columns of the key.
pub proof fn law_repeated_keys_are_counted(t: Seq<char>, cols: Seq<Seq<char>>, w: World)
    ensures
        ({
            let name = meaning::quoted_name(t);
            let rows = meaning::rows_of(w, name);
            let q = meaning::select_repeated(
                meaning::count_list(),
                column_phrases(cols),
                meaning::table(name),
                "dup"@,
            );
            &&& duplicate_sql(t, cols) == q.text
            &&& (q.rows)(w).len() > 0 <==> exists|i: int, j: int|
                0 <= i < j < rows.len() && same_key(cols, #[trigger] rows[i], #[trigger] rows[j])
        }),
{
    let name = meaning::quoted_name(t);
    let rows = meaning::rows_of(w, name);
    let ps = column_phrases(cols);
    let list = meaning::single(name, rows);
    let keys = meaning::keys_of(ps, w, list);
    meaning::lemma_second_rows(keys, list, list.len());
    assert forall|i: int, j: int| 0 <= i < j < rows.len() implies (#[trigger] keys[i]
        == #[trigger] keys[j]) == same_key(cols, rows[i], rows[j]) by {
        assert forall|c: int| 0 <= c < cols.len() implies keys[i][c] == meaning::cell_of(
            rows[i],
            #[trigger] cols[c],
        ) && keys[j][c] == meaning::cell_of(rows[j], cols[c]) by {
            meaning::lemma_single_column(name, rows[i], cols[c]);
            meaning::lemma_single_column(name, rows[j], cols[c]);
        }
        if same_key(cols, rows[i], rows[j]) {
            assert(keys[i] =~= keys[j]);
        } else {
            let c = choose|c: int|
                0 <= c < cols.len() && meaning::cell_of(rows[i], #[trigger] cols[c])
                    != meaning::cell_of(rows[j], cols[c]);
            assert(keys[i][c] != keys[j][c]);
        }
    }
    if exists|i: int, j: int|
        0 <= i < j < rows.len() && same_key(cols, #[trigger] rows[i], #[trigger] rows[j]) {
        let (i, j) = choose|i: int, j: int|
            0 <= i < j < rows.len() && same_key(cols, #[trigger] rows[i], #[trigger] rows[j]);
        assert(keys[i] == keys[j]);
    } else {
        assert forall|i: int, j: int| 0 <= i < j < keys.len() implies #[trigger] keys[i]
            != #[trigger] keys[j] by {
            assert(!same_key(cols, rows[i], rows[j]));
        }
    }
    reveal_strlit("\"");
    assert(meaning::phrase_texts(ps) =~= quoted_columns(cols));
    let g = joined(quoted_columns(cols), ", "@);
    reveal_strlit("SELECT COUNT(*) AS c FROM (SELECT ");
    reveal_strlit("SELECT ");
    reveal_strlit("COUNT(*) AS c");
    reveal_strlit(" FROM (SELECT ");
    reveal_strlit(" FROM \"");
    reveal_strlit(" FROM ");
    reveal_strlit("\" GROUP BY ");
    reveal_strlit(" GROUP BY ");
    reveal_strlit(" HAVING COUNT(*) > 1) AS dup");
    reveal_strlit(" HAVING COUNT(*) > 1) AS ");
    reveal_strlit("dup");
    assert(duplicate_sql(t, cols) =~= meaning::select_repeated(
        meaning::count_list(),
        ps,
        meaning::table(name),
        "dup"@,
    ).text);
}

/// A check of a whole table counts exactly the rows of which the expression is false.
pub proof fn law_failing_rows_are_counted(t: Seq<char>, name: Seq<char>, expr: Seq<char>, w: World)
    ensures
        ({
            let tn = meaning::quoted_name(t);
            let q = meaning::select_where(
                meaning::count_list(),
                meaning::table(tn),
                meaning::not(meaning::paren(meaning::other(expr))),
            );
            &&& check_step(t, name, expr) matches StepView::NoneCounted { sql, .. }
            &&& sql == q.text
            &&& (q.rows)(w) == meaning::single(
                tn,
                meaning::rows_of(w, tn).filter(
                    |r| (w.other)(expr, seq![Frame { name: tn, row: r }]) == Value::Bool(false),
                ),
            )
        }),
{
    let tn = meaning::quoted_name(t);
    let p = meaning::not(meaning::paren(meaning::other(expr)));
    meaning::lemma_kept_single(
        w,
        tn,
        meaning::rows_of(w, tn),
        p,
        |r| (w.other)(expr, seq![Frame { name: tn, row: r }]) == Value::Bool(false),
    );
    reveal_strlit("SELECT COUNT(*) AS c FROM \"");
    reveal_strlit("SELECT ");
    reveal_strlit("COUNT(*) AS c");
    reveal_strlit(" FROM ");
    reveal_strlit("\"");
    reveal_strlit("\" WHERE NOT (");
    reveal_strlit(" WHERE ");
    reveal_strlit("NOT ");
    reveal_strlit("(");
    reveal_strlit(")");
    assert(check_sql(t, expr) =~= meaning::select_where(
        meaning::count_list(),
        meaning::table(tn),
        p,
    ).text);
}

/// Whether a row of the parent table has the values that a row of the child refers to.
pub open spec fn is_parent(
    cols: Seq<Seq<char>>,
    refs: Seq<Seq<char>>,
    child: Map<Seq<char>, Value>,
    parent: Map<Seq<char>, Value>,
) -> bool {
    forall|i: int|
        0 <= i < cols.len() ==> meaning::holds(
            meaning::compared(
                meaning::cell_of(child, #[trigger] cols[i]),
                meaning::cell_of(parent, refs[i]),
            ),
        )
}

/// Whether a row refers to a row of the parent table that is not there: its key columns all have
/// values, and no row of the parent table has them.
pub open spec fn dangles(
    w: World,
    cols: Seq<Seq<char>>,
    ref_table: Seq<char>,
    refs: Seq<Seq<char>>,
    child: Map<Seq<char>, Value>,
) -> bool {
    let parents = meaning::rows_of(w, meaning::quoted_name(ref_table));
    &&& forall|i: int|
        0 <= i < cols.len() ==> meaning::cell_of(child, #[trigger] cols[i]) != Value::Null
    &&& forall|k: int| 0 <= k < parents.len() ==> !is_parent(cols, refs, child, #[trigger] parents[k])
}

/// The comparisons of a row of the child with a row of the parent.
pub open spec fn pair_phrases(cols: Seq<Seq<char>>, refs: Seq<Seq<char>>) -> Seq<Phrase> {
    Seq::new(
        shorter(cols.len(), refs.len()),
        |i: int|
            meaning::equal(
                meaning::column_of("child"@, cols[i]),
                meaning::column_of("parent"@, refs[i]),
            ),
    )
}

/// `name."col" IS NOT NULL`, for each column.
pub open spec fn present_phrases(name: Seq<char>, cols: Seq<Seq<char>>) -> Seq<Phrase> {
    Seq::new(cols.len(), |i: int| meaning::is_not_null(meaning::column_of(name, cols[i])))
}

/// `name."col" IS NULL`, for each column.
pub open spec fn absent_phrases(name: Seq<char>, cols: Seq<Seq<char>>) -> Seq<Phrase> {
    Seq::new(cols.len(), |i: int| meaning::is_null(meaning::column_of(name, cols[i])))
}

/// The query that counts the rows that refer to a row of another table that is not there.
pub open spec fn orphans(
    t: Seq<char>,
    cols: Seq<Seq<char>>,
    ref_table: Seq<char>,
    refs: Seq<Seq<char>>,
) -> Query {
    meaning::select_where(
        meaning::count_list(),
        meaning::left_join(
            meaning::table_as(meaning::quoted_name(t), "child"@),
            meaning::quoted_name(ref_table),
            "parent"@,
            meaning::all(pair_phrases(cols, refs)),
        ),
        meaning::both(
            meaning::paren(meaning::all(present_phrases("child"@, cols))),
            meaning::paren(meaning::any(absent_phrases("parent"@, refs))),
        ),
    )
}

proof fn lemma_orphan_text(
    t: Seq<char>,
    cols: Seq<Seq<char>>,
    ref_table: Seq<char>,
    refs: Seq<Seq<char>>,
)
    ensures
        orphan_sql(t, cols, ref_table, refs) == orphans(t, cols, ref_table, refs).text,
{
    let on = pair_phrases(cols, refs);
    let present = present_phrases("child"@, cols);
    let absent = absent_phrases("parent"@, refs);
    reveal_strlit("\"");
    reveal_strlit(".");
    reveal_strlit("child");
    reveal_strlit("parent");
    reveal_strlit("child.\"");
    reveal_strlit("parent.\"");
    reveal_strlit("\" = parent.\"");
    reveal_strlit(" = ");
    reveal_strlit("\" IS NOT NULL");
    reveal_strlit(" IS NOT NULL");
    reveal_strlit("\" IS NULL");
    reveal_strlit(" IS NULL");
    assert forall|i: int| 0 <= i < on.len() implies #[trigger] meaning::phrase_texts(on)[i]
        == key_pairs(cols, refs)[i] by {
        assert("child.\""@ + cols[i] + "\" = parent.\""@ + refs[i] + "\""@ =~= on[i].text);
    }
    assert(meaning::phrase_texts(on) =~= key_pairs(cols, refs));
    assert forall|i: int| 0 <= i < cols.len() implies #[trigger] meaning::phrase_texts(present)[i]
        == wrapped("child.\""@, cols, "\" IS NOT NULL"@)[i] by {
        assert("child.\""@ + cols[i] + "\" IS NOT NULL"@ =~= present[i].text);
    }
    assert(meaning::phrase_texts(present) =~= wrapped("child.\""@, cols, "\" IS NOT NULL"@));
    assert forall|i: int| 0 <= i < refs.len() implies #[trigger] meaning::phrase_texts(absent)[i]
        == wrapped("parent.\""@, refs, "\" IS NULL"@)[i] by {
        assert("parent.\""@ + refs[i] + "\" IS NULL"@ =~= absent[i].text);
    }
    assert(meaning::phrase_texts(absent) =~= wrapped("parent.\""@, refs, "\" IS NULL"@));
    meaning::lemma_all_two(
        meaning::paren(meaning::all(present)),
        meaning::paren(meaning::any(absent)),
    );
    let a = joined(key_pairs(cols, refs), " AND "@);
    let b = joined(wrapped("child.\""@, cols, "\" IS NOT NULL"@), " AND "@);
    let c = joined(wrapped("parent.\""@, refs, "\" IS NULL"@), " OR "@);
    assert("SELECT COUNT(*) AS c FROM \""@ + t + "\" child LEFT JOIN \""@ + ref_table
        + "\" parent ON "@ + a + " WHERE ("@ + b + ") AND ("@ + c + ")"@ =~= orphans(
        t,
        cols,
        ref_table,
        refs,
    ).text) by {
        reveal_strlit("SELECT COUNT(*) AS c FROM \"");
        reveal_strlit("SELECT ");
        reveal_strlit("COUNT(*) AS c");
        reveal_strlit(" FROM ");
        reveal_strlit("\" child LEFT JOIN \"");
        reveal_strlit(" ");
        reveal_strlit(" LEFT JOIN ");
        reveal_strlit("\" parent ON ");
        reveal_strlit(" ON ");
        reveal_strlit(" WHERE (");
        reveal_strlit(" WHERE ");
        reveal_strlit("(");
        reveal_strlit(")");
        reveal_strlit(") AND (");
        reveal_strlit(" AND ");
    }
}

/// A foreign key counts exactly the rows of the child whose key columns all have values and for which
/// no row of the parent table has equal values in the columns that are referred to. So a table in
/// which every reference has its parent passes, and one with a dangling reference does not.
pub proof fn law_dangling_references_are_counted(
    t: Seq<char>,
    name: Seq<char>,
    cols: Seq<Seq<char>>,
    ref_table: Seq<char>,
    refs: Seq<Seq<char>>,
    w: World,
)
    requires
        cols.len() == refs.len(),
        cols.len() > 0,
    ensures
        ({
            let rows = meaning::rows_of(w, meaning::quoted_name(t));
            let q = orphans(t, cols, ref_table, refs);
            let step = reference_step(t, name, cols, ref_table, refs);
            &&& step matches StepView::NoneAllowed { sql, .. }
            &&& sql == q.text
            &&& (q.rows)(w) == meaning::alone(
                meaning::single("child"@, rows.filter(|r| dangles(w, cols, ref_table, refs, r))),
                "parent"@,
            )
            &&& (q.rows)(w).len() == rows.filter(|r| dangles(w, cols, ref_table, refs, r)).len()
            &&& (q.rows)(w).len() == 0 <==> forall|i: int|
                0 <= i < rows.len() ==> !dangles(w, cols, ref_table, refs, #[trigger] rows[i])
        }),
{
    lemma_orphan_text(t, cols, ref_table, refs);
    let rows = meaning::rows_of(w, meaning::quoted_name(t));
    let parents = meaning::rows_of(w, meaning::quoted_name(ref_table));
    let left = meaning::single("child"@, rows);
    let right = meaning::frames("parent"@, parents);
    let on = meaning::all(pair_phrases(cols, refs));
    let present = meaning::paren(meaning::all(present_phrases("child"@, cols)));
    let absent = meaning::paren(meaning::any(absent_phrases("parent"@, refs)));
    let p = meaning::both(present, absent);
    meaning::lemma_all_two(present, absent);
    let g = |r| dangles(w, cols, ref_table, refs, r);
    let f = |s: Seq<Frame>| g(s[0].row);
    assert("child"@ != "parent"@) by {
        reveal_strlit("child");
        reveal_strlit("parent");
        assert("child"@.len() != "parent"@.len());
    }
    assert forall|i: int, x: Map<Seq<char>, Value>|
        0 <= i < rows.len() implies #[trigger] pair_facts(
        w,
        cols,
        refs,
        rows[i],
        x,
    ) by {
        lemma_pair(w, cols, refs, rows[i], x);
    }
    assert forall|i: int| 0 <= i < left.len() implies f(#[trigger] left[i]) == (meaning::partners(
        w,
        left[i],
        right,
        on,
    ).len() == 0 && meaning::holds(
        (p.value)(w, left[i].push(Frame { name: "parent"@, row: Map::empty() })),
    )) by {
        meaning::lemma_partners(w, left[i], right, on);
        assert(pair_facts(w, cols, refs, rows[i], Map::empty()));
        assert forall|k: int| 0 <= k < parents.len() implies meaning::holds(
            (on.value)(w, left[i].push(#[trigger] right[k])),
        ) == is_parent(cols, refs, rows[i], parents[k]) by {
            assert(pair_facts(w, cols, refs, rows[i], parents[k]));
            assert(left[i].push(right[k]) =~= pair_of(rows[i], parents[k]));
        }
        assert(left[i].push(Frame { name: "parent"@, row: Map::empty() }) =~= pair_of(
            rows[i],
            Map::empty(),
        ));
        assert(meaning::cell_of(Map::empty(), refs[0]) == Value::Null);
        assert(exists|c: int|
            0 <= c < refs.len() && meaning::cell_of(Map::empty(), #[trigger] refs[c])
                == Value::Null);
        if meaning::partners(w, left[i], right, on).len() == 0 {
            assert forall|k: int| 0 <= k < parents.len() implies !is_parent(
                cols,
                refs,
                rows[i],
                #[trigger] parents[k],
            ) by {
                assert(!meaning::holds((on.value)(w, left[i].push(right[k]))));
            }
        } else {
            let k = choose|k: int|
                0 <= k < right.len() && meaning::holds(
                    (on.value)(w, left[i].push(#[trigger] right[k])),
                );
            assert(is_parent(cols, refs, rows[i], parents[k]));
        }
    }
    assert forall|i: int, j: int|
        0 <= i < left.len() && 0 <= j < right.len() && meaning::holds(
            (on.value)(w, (#[trigger] left[i]).push(#[trigger] right[j])),
        ) implies !meaning::holds((p.value)(w, left[i].push(right[j]))) by {
        assert(pair_facts(w, cols, refs, rows[i], parents[j]));
        assert(left[i].push(right[j]) =~= pair_of(rows[i], parents[j]));
        assert(is_parent(cols, refs, rows[i], parents[j]));
        assert forall|c: int| 0 <= c < refs.len() implies meaning::cell_of(
            parents[j],
            #[trigger] refs[c],
        ) != Value::Null by {
            assert(meaning::holds(
                meaning::compared(
                    meaning::cell_of(rows[i], cols[c]),
                    meaning::cell_of(parents[j], refs[c]),
                ),
            ));
        }
    }
    meaning::lemma_kept_alone(w, left, "parent"@, right, on, p, f, left.len());
    assert(left.take(left.len() as int) =~= left);
    meaning::lemma_single_filter("child"@, rows, f, g);
    let found = rows.filter(g);
    if found.len() == 0 {
        assert forall|i: int| 0 <= i < rows.len() implies !dangles(
            w,
            cols,
            ref_table,
            refs,
            #[trigger] rows[i],
        ) by {
            if g(rows[i]) {
                rows.lemma_filter_contains(g, i);
            }
        }
    } else {
        rows.lemma_filter_pred(g, 0);
        assert(found.contains(found[0]));
        rows.lemma_filter_contains_rev(g, found[0]);
        let i = choose|i: int| 0 <= i < rows.len() && rows[i] == found[0];
        assert(dangles(w, cols, ref_table, refs, rows[i]));
    }
}

/// A row of the child beside a row of the parent.
spec fn pair_of(child: Map<Seq<char>, Value>, parent: Map<Seq<char>, Value>) -> Seq<Frame> {
    seq![Frame { name: "child"@, row: child }, Frame { name: "parent"@, row: parent }]
}

/// What the conditions of a foreign key say of a row of the child beside a row of the parent.
spec fn pair_facts(
    w: World,
    cols: Seq<Seq<char>>,
    refs: Seq<Seq<char>>,
    child: Map<Seq<char>, Value>,
    parent: Map<Seq<char>, Value>,
) -> bool {
    let s = pair_of(child, parent);
    let present = meaning::paren(meaning::all(present_phrases("child"@, cols)));
    let absent = meaning::paren(meaning::any(absent_phrases("parent"@, refs)));
    &&& meaning::holds((meaning::all(pair_phrases(cols, refs)).value)(w, s)) == is_parent(
        cols,
        refs,
        child,
        parent,
    )
    &&& meaning::holds((present.value)(w, s)) == forall|i: int|
        0 <= i < cols.len() ==> meaning::cell_of(child, #[trigger] cols[i]) != Value::Null
    &&& meaning::holds((absent.value)(w, s)) == exists|i: int|
        0 <= i < refs.len() && meaning::cell_of(parent, #[trigger] refs[i]) == Value::Null
}

proof fn lemma_pair(
    w: World,
    cols: Seq<Seq<char>>,
    refs: Seq<Seq<char>>,
    child: Map<Seq<char>, Value>,
    parent: Map<Seq<char>, Value>,
)
    requires
        cols.len() == refs.len(),
        "child"@ != "parent"@,
    ensures
        pair_facts(w, cols, refs, child, parent),
{
    let s = pair_of(child, parent);
    assert(s.drop_last() =~= seq![Frame { name: "child"@, row: child }]);
    assert(s.last() == Frame { name: "parent"@, row: parent });
    assert(s.drop_last().last() == Frame { name: "child"@, row: child });
    reveal_with_fuel(meaning::seen_of, 3);
    assert forall|c: Seq<char>| #[trigger] meaning::seen_of(s, "parent"@, c) == meaning::cell_of(
        parent,
        c,
    ) by {}
    assert forall|c: Seq<char>| #[trigger] meaning::seen_of(s, "child"@, c) == meaning::cell_of(
        child,
        c,
    ) by {}
    let a = meaning::phrase_values(pair_phrases(cols, refs), w, s);
    let b = meaning::phrase_values(present_phrases("child"@, cols), w, s);
    let c = meaning::phrase_values(absent_phrases("parent"@, refs), w, s);
    meaning::lemma_conjunction(a);
    meaning::lemma_conjunction(b);
    meaning::lemma_disjunction(c);
    assert forall|i: int| 0 <= i < cols.len() implies #[trigger] a[i] == meaning::compared(
        meaning::cell_of(child, cols[i]),
        meaning::cell_of(parent, refs[i]),
    ) by {}
    assert forall|i: int| 0 <= i < cols.len() implies #[trigger] b[i] == Value::Bool(
        meaning::cell_of(child, cols[i]) != Value::Null,
    ) by {}
    assert forall|i: int| 0 <= i < refs.len() implies #[trigger] c[i] == Value::Bool(
        meaning::cell_of(parent, refs[i]) == Value::Null,
    ) by {}
    if meaning::holds(meaning::conjunction(a)) {
        assert forall|i: int| 0 <= i < cols.len() implies meaning::holds(
            meaning::compared(
                meaning::cell_of(child, #[trigger] cols[i]),
                meaning::cell_of(parent, refs[i]),
            ),
        ) by {
            assert(meaning::holds(a[i]));
        }
    } else {
        let i = choose|i: int| 0 <= i < a.len() && !meaning::holds(#[trigger] a[i]);
        assert(!meaning::holds(
            meaning::compared(
                meaning::cell_of(child, cols[i]),
                meaning::cell_of(parent, refs[i]),
            ),
        ));
    }
    if meaning::holds(meaning::conjunction(b)) {
        assert forall|i: int| 0 <= i < cols.len() implies meaning::cell_of(
            child,
            #[trigger] cols[i],
        ) != Value::Null by {
            assert(meaning::holds(b[i]));
        }
    } else {
        let i = choose|i: int| 0 <= i < b.len() && !meaning::holds(#[trigger] b[i]);
        assert(meaning::cell_of(child, cols[i]) == Value::Null);
    }
    if meaning::holds(meaning::disjunction(c)) {
        let i = choose|i: int| 0 <= i < c.len() && meaning::holds(#[trigger] c[i]);
        assert(meaning::cell_of(parent, refs[i]) == Value::Null);
    } else {
        assert forall|i: int| 0 <= i < refs.len() implies meaning::cell_of(
            parent,
            #[trigger] refs[i],
        ) != Value::Null by {
            assert(!meaning::holds(c[i]));
        }
    }
}

/// The test for the value of a key.
pub open spec fn key_test(cols: Seq<Seq<char>>, tuple: Seq<Seq<char>>) -> Phrase {
    meaning::all(key_equalities(cols, tuple))
}

/// The comparisons of the columns of a key with the parts of a value.
pub open spec fn key_equalities(cols: Seq<Seq<char>>, tuple: Seq<Seq<char>>) -> Seq<Phrase> {
    Seq::new(
        shorter(cols.len(), tuple.len()),
        |i: int| meaning::equal(meaning::column(cols[i]), meaning::other(tuple[i])),
    )
}

/// Whether a row has the value of a key.
pub open spec fn has_key(
    w: World,
    name: Seq<char>,
    cols: Seq<Seq<char>>,
    tuple: Seq<Seq<char>>,
    row: Map<Seq<char>, Value>,
) -> bool {
    forall|i: int|
        0 <= i < cols.len() ==> meaning::holds(
            meaning::compared(
                meaning::cell_of(row, #[trigger] cols[i]),
                (w.other)(tuple[i], seq![Frame { name, row }]),
            ),
        )
}

pub proof fn lemma_key_text(cols: Seq<Seq<char>>, tuple: Seq<Seq<char>>)
    ensures
        tuple_condition(cols, tuple) == key_test(cols, tuple).text,
{
    let ps = key_equalities(cols, tuple);
    reveal_strlit("\"");
    reveal_strlit("\" = ");
    reveal_strlit(" = ");
    assert forall|i: int| 0 <= i < ps.len() implies #[trigger] meaning::phrase_texts(ps)[i]
        == equalities(cols, tuple)[i] by {
        assert("\""@ + cols[i] + "\" = "@ + tuple[i] =~= ps[i].text);
    }
    assert(meaning::phrase_texts(ps) =~= equalities(cols, tuple));
}

/// The condition that is written for the value of a key is met exactly by the rows that have it.
pub proof fn law_key_condition(
    w: World,
    name: Seq<char>,
    cols: Seq<Seq<char>>,
    tuple: Seq<Seq<char>>,
    row: Map<Seq<char>, Value>,
)
    requires
        tuple.len() == cols.len(),
    ensures
        tuple_condition(cols, tuple) == key_test(cols, tuple).text,
        meaning::holds((key_test(cols, tuple).value)(w, seq![Frame { name, row }])) == has_key(
            w,
            name,
            cols,
            tuple,
            row,
        ),
{
    let s = seq![Frame { name, row }];
    let ps = key_equalities(cols, tuple);
    let vs = meaning::phrase_values(ps, w, s);
    lemma_key_text(cols, tuple);
    meaning::lemma_conjunction(vs);
    assert forall|i: int| 0 <= i < cols.len() implies #[trigger] vs[i] == meaning::compared(
        meaning::cell_of(row, cols[i]),
        (w.other)(tuple[i], s),
    ) by {
        meaning::lemma_single_column(name, row, cols[i]);
    }
    if meaning::holds(meaning::conjunction(vs)) {
        assert forall|i: int| 0 <= i < cols.len() implies meaning::holds(
            meaning::compared(
                meaning::cell_of(row, #[trigger] cols[i]),
                (w.other)(tuple[i], s),
            ),
        ) by {
            assert(meaning::holds(vs[i]));
        }
    } else {
        let i = choose|i: int| 0 <= i < vs.len() && !meaning::holds(#[trigger] vs[i]);
        assert(!meaning::holds(
            meaning::compared(meaning::cell_of(row, cols[i]), (w.other)(tuple[i], s)),
        ));
    }
}

/// The test for one of several values of a key.
pub open spec fn keys_test(cols: Seq<Seq<char>>, ts: Seq<Seq<Seq<char>>>) -> Phrase {
    if cols.len() == 1 {
        meaning::within(
            meaning::column(cols[0]),
            Seq::new(ts.len(), |i: int| meaning::other(ts[i][0])),
        )
    } else {
        meaning::any(Seq::new(ts.len(), |i: int| meaning::paren(key_test(cols, ts[i]))))
    }
}

/// The lookup of the values of a key counts exactly the rows of the table that have one of them.
pub proof fn law_values_are_looked_up(
    t: Seq<char>,
    cols: Seq<Seq<char>>,
    ts: Seq<Seq<Seq<char>>>,
    w: World,
)
    requires
        forall|i: int| 0 <= i < ts.len() ==> (#[trigger] ts[i]).len() == cols.len(),
    ensures
        ({
            let name = meaning::quoted_name(t);
            let q = meaning::select_where(
                meaning::count_list(),
                meaning::table(name),
                keys_test(cols, ts),
            );
            &&& lookup_sql(t, cols, ts) == q.text
            &&& (q.rows)(w) == meaning::single(
                name,
                meaning::rows_of(w, name).filter(
                    |r|
                        exists|i: int|
                            0 <= i < ts.len() && has_key(w, name, cols, #[trigger] ts[i], r),
                ),
            )
        }),
{
    let name = meaning::quoted_name(t);
    let rows = meaning::rows_of(w, name);
    let p = keys_test(cols, ts);
    let g = |r: Map<Seq<char>, Value>|
        exists|i: int| 0 <= i < ts.len() && has_key(w, name, cols, #[trigger] ts[i], r);
    let firsts = Seq::new(ts.len(), |i: int| meaning::other(ts[i][0]));
    let tests = Seq::new(ts.len(), |i: int| meaning::paren(key_test(cols, ts[i])));
    assert forall|k: int| 0 <= k < rows.len() implies meaning::holds(
        (p.value)(w, seq![Frame { name, row: #[trigger] rows[k] }]),
    ) == g(rows[k]) by {
        let s = seq![Frame { name, row: rows[k] }];
        if cols.len() == 1 {
            meaning::lemma_single_column(name, rows[k], cols[0]);
            let vs = meaning::comparisons(
                meaning::cell_of(rows[k], cols[0]),
                meaning::phrase_values(firsts, w, s),
            );
            meaning::lemma_disjunction(vs);
            assert forall|i: int| 0 <= i < ts.len() implies meaning::holds(#[trigger] vs[i])
                == has_key(w, name, cols, ts[i], rows[k]) by {
                assert(vs[i] == meaning::compared(
                    meaning::cell_of(rows[k], cols[0]),
                    (w.other)(ts[i][0], s),
                ));
                if meaning::holds(vs[i]) {
                    assert(has_key(w, name, cols, ts[i], rows[k]));
                } else {
                    assert(cols[0] == cols[0]);
                }
            }
            if g(rows[k]) {
                let i = choose|i: int|
                    0 <= i < ts.len() && has_key(w, name, cols, #[trigger] ts[i], rows[k]);
                assert(meaning::holds(vs[i]));
            }
        } else {
            let vs = meaning::phrase_values(tests, w, s);
            meaning::lemma_disjunction(vs);
            assert forall|i: int| 0 <= i < ts.len() implies meaning::holds(#[trigger] vs[i])
                == has_key(w, name, cols, ts[i], rows[k]) by {
                law_key_condition(w, name, cols, ts[i], rows[k]);
            }
            if g(rows[k]) {
                let i = choose|i: int|
                    0 <= i < ts.len() && has_key(w, name, cols, #[trigger] ts[i], rows[k]);
                assert(meaning::holds(vs[i]));
            }
        }
    }
    meaning::lemma_kept_single(w, name, rows, p, g);
    reveal_strlit("SELECT COUNT(*) AS c FROM \"");
    reveal_strlit("SELECT ");
    reveal_strlit("COUNT(*) AS c");
    reveal_strlit(" FROM ");
    reveal_strlit("\"");
    reveal_strlit(" WHERE ");
    if cols.len() == 1 {
        reveal_strlit("\" WHERE \"");
        reveal_strlit("\" IN (");
        reveal_strlit(" IN (");
        reveal_strlit(")");
        assert(meaning::phrase_texts(firsts) =~= first_parts(ts));
        assert(lookup_sql(t, cols, ts) =~= meaning::select_where(
            meaning::count_list(),
            meaning::table(name),
            p,
        ).text);
    } else {
        reveal_strlit("\" WHERE ");
        assert forall|i: int| 0 <= i < ts.len() implies #[trigger] meaning::phrase_texts(tests)[i]
            == conditions(cols, ts)[i] by {
            law_key_condition(w, name, cols, ts[i], Map::empty());
        }
        assert(meaning::phrase_texts(tests) =~= conditions(cols, ts));
        assert(lookup_sql(t, cols, ts) =~= meaning::select_where(
            meaning::count_list(),
            meaning::table(name),
            p,
        ).text);
    }
}

/// Whether a step counts the values of a key that occur more than once, and lets none pass.
pub open spec fn refuses_repeats(s: StepView, t: Seq<char>, cols: Seq<Seq<char>>) -> bool {
    s matches StepView::NoneAllowed { sql, .. } && sql == duplicate_sql(t, cols)
}

/// A whole table is held against each of its constraints: a primary key has no missing and no repeated
/// values, a unique key no repeated values, a foreign key no reference without its row, and a check
/// holds.
pub proof fn law_every_constraint_is_held(t: Seq<char>, cs: Seq<ConstraintView>, i: int)
    requires
        0 <= i < cs.len(),
    ensures
        ({
            let keys = table_steps(t, cs, cs.len());
            let checks = check_steps(t, cs, cs.len());
            match cs[i] {
                ConstraintView::PrimaryKey { columns } => {
                    &&& forall|k: int|
                        0 <= k < columns.len() ==> keys.contains(
                            null_step(t, #[trigger] columns[k]),
                        )
                    &&& exists|k: int|
                        0 <= k < keys.len() && refuses_repeats(#[trigger] keys[k], t, columns)
                },
                ConstraintView::Unique { name, columns } => exists|k: int|
                    0 <= k < keys.len() && refuses_repeats(#[trigger] keys[k], t, columns),
                ConstraintView::Check { name, expr } => checks.contains(check_step(t, name, expr)),
                ConstraintView::ForeignKey {
                    name,
                    columns,
                    ref_table,
                    ref_columns,
                    on_delete,
                    on_update,
                } => keys.contains(reference_step(t, name, columns, ref_table, ref_columns)),
            }
        }),
{
    lemma_key_steps_stay(t, cs, i, cs.len());
    let own = key_steps(t, cs[i]);
    let keys = table_steps(t, cs, cs.len());
    match cs[i] {
        ConstraintView::PrimaryKey { columns } => {
            assert forall|k: int| 0 <= k < columns.len() implies keys.contains(
                null_step(t, #[trigger] columns[k]),
            ) by {
                lemma_null_steps(t, columns, columns.len(), k);
                assert(own[k] == null_step(t, columns[k]));
            }
            lemma_null_steps_len(t, columns, columns.len());
            assert(refuses_repeats(own[columns.len() as int], t, columns));
            assert(keys.contains(own[columns.len() as int]));
        },
        ConstraintView::Unique { name, columns } => {
            assert(refuses_repeats(own[0], t, columns));
            assert(keys.contains(own[0]));
        },
        ConstraintView::Check { name, expr } => {
            lemma_check_stays(t, cs, i, name, expr, cs.len());
        },
        ConstraintView::ForeignKey { .. } => {
            assert(keys.contains(own[0]));
        },
    }
}

proof fn lemma_null_steps_len(t: Seq<char>, cols: Seq<Seq<char>>, n: nat)
    requires
        n <= cols.len(),
    ensures
        null_steps(t, cols, n).len() == n,
    decreases n,
{
    if n > 0 {
        lemma_null_steps_len(t, cols, (n - 1) as nat);
    }
}

proof fn lemma_null_steps(t: Seq<char>, cols: Seq<Seq<char>>, n: nat, k: int)
    requires
        0 <= k < n <= cols.len(),
    ensures
        null_steps(t, cols, n).len() == n,
        null_steps(t, cols, n)[k] == null_step(t, cols[k]),
    decreases n,
{
    lemma_null_steps_len(t, cols, n);
    lemma_null_steps_len(t, cols, (n - 1) as nat);
    if k < n - 1 {
        lemma_null_steps(t, cols, (n - 1) as nat, k);
    }
}

proof fn lemma_key_steps_stay(t: Seq<char>, cs: Seq<ConstraintView>, i: int, n: nat)
    requires
        0 <= i < n <= cs.len(),
    ensures
        forall|k: int|
            0 <= k < key_steps(t, cs[i]).len() ==> table_steps(t, cs, n).contains(
                #[trigger] key_steps(t, cs[i])[k],
            ),
    decreases n,
{
    let own = key_steps(t, cs[i]);
    let rest = table_steps(t, cs, (n - 1) as nat);
    let whole = table_steps(t, cs, n);
    assert forall|k: int| 0 <= k < own.len() implies whole.contains(#[trigger] own[k]) by {
        if i == n - 1 {
            assert(whole[rest.len() + k] == own[k]);
        } else {
            lemma_key_steps_stay(t, cs, i, (n - 1) as nat);
            assert(rest.contains(own[k]));
            let j = choose|j: int| 0 <= j < rest.len() && rest[j] == own[k];
            assert(whole[j] == own[k]);
        }
    }
}

proof fn lemma_check_stays(
    t: Seq<char>,
    cs: Seq<ConstraintView>,
    i: int,
    name: Seq<char>,
    expr: Seq<char>,
    n: nat,
)
    requires
        0 <= i < n <= cs.len(),
        cs[i] == (ConstraintView::Check { name, expr }),
    ensures
        check_steps(t, cs, n).contains(check_step(t, name, expr)),
    decreases n,
{
    let rest = check_steps(t, cs, (n - 1) as nat);
    let whole = check_steps(t, cs, n);
    if i == n - 1 {
        assert(whole[rest.len() as int] == check_step(t, name, expr));
    } else {
        lemma_check_stays(t, cs, i, name, expr, (n - 1) as nat);
        let j = choose|j: int| 0 <= j < rest.len() && rest[j] == check_step(t, name, expr);
        assert(whole[j] == check_step(t, name, expr));
    }
}

/// Whether a step looks a value of a key up, among others, and lets no more rows pass than it looks up.
pub open spec fn looks_up(
    s: StepView,
    t: Seq<char>,
    cols: Seq<Seq<char>>,
    tuple: Seq<Seq<char>>,
    part: Seq<Seq<Seq<char>>>,
) -> bool {
    &&& s matches StepView::AtMost { sql, limit, .. }
    &&& sql == lookup_sql(t, cols, part)
    &&& limit == part.len()
    &&& part.contains(tuple)
}

/// Whether one of several steps looks a value of a key up.
pub open spec fn is_looked_up(
    steps: Seq<StepView>,
    t: Seq<char>,
    cols: Seq<Seq<char>>,
    tuple: Seq<Seq<char>>,
) -> bool {
    exists|k: int, part: Seq<Seq<Seq<char>>>|
        0 <= k < steps.len() && #[trigger] looks_up(steps[k], t, cols, tuple, part)
}

proof fn lemma_looked_up(
    t: Seq<char>,
    cols: Seq<Seq<char>>,
    ts: Seq<Seq<Seq<char>>>,
    error: Seq<char>,
    i: int,
    x: int,
)
    requires
        0 <= i <= x < ts.len(),
        ts.len() <= usize::MAX,
    ensures
        is_looked_up(lookup_steps(t, cols, ts, error, i), t, cols, ts[x]),
    decreases ts.len() - i,
{
    let j = if i + LOOKUP_SIZE < ts.len() {
        i + LOOKUP_SIZE
    } else {
        ts.len() as int
    };
    let steps = lookup_steps(t, cols, ts, error, i);
    let rest = lookup_steps(t, cols, ts, error, j);
    if x < j {
        let part = ts.subrange(i, j);
        assert(part[x - i] == ts[x]);
        assert(looks_up(steps[0], t, cols, ts[x], part));
    } else {
        lemma_looked_up(t, cols, ts, error, j, x);
        let (k, part) = choose|k: int, part: Seq<Seq<Seq<char>>>|
            0 <= k < rest.len() && #[trigger] looks_up(rest[k], t, cols, ts[x], part);
        assert(steps[k + 1] == rest[k]);
        assert(looks_up(steps[k + 1], t, cols, ts[x], part));
    }
}

proof fn lemma_complete(ts: Seq<Seq<Seq<char>>>, n: nat)
    requires
        n <= ts.len(),
    ensures
        complete(ts, n).len() <= n,
        forall|i: int|
            0 <= i < n && !has_null(#[trigger] ts[i]) ==> complete(ts, n).contains(ts[i]),
        forall|k: int|
            0 <= k < complete(ts, n).len() ==> !has_null(#[trigger] complete(ts, n)[k]),
    decreases n,
{
    if n > 0 {
        let rest = complete(ts, (n - 1) as nat);
        let whole = complete(ts, n);
        lemma_complete(ts, (n - 1) as nat);
        assert forall|i: int| 0 <= i < n && !has_null(#[trigger] ts[i]) implies whole.contains(
            ts[i],
        ) by {
            if i < n - 1 {
                assert(rest.contains(ts[i]));
                let k = choose|k: int| 0 <= k < rest.len() && rest[k] == ts[i];
                assert(whole[k] == ts[i]);
            } else {
                assert(whole[rest.len() as int] == ts[i]);
            }
        }
    }
}

proof fn lemma_last_position(names: Seq<Seq<char>>, name: Seq<char>, n: nat)
    requires
        n <= names.len(),
    ensures
        match last_position(names, name, n) {
            Some(k) => 0 <= k < n && names[k] == name && forall|j: int|
                k < j < n ==> #[trigger] names[j] != name,
            None => forall|j: int| 0 <= j < n ==> #[trigger] names[j] != name,
        },
    decreases n,
{
    if n > 0 {
        lemma_last_position(names, name, (n - 1) as nat);
    }
}

/// The value of a key in a row is made of the cells of the columns of the key: two rows with the same
/// cells there have the same value, and a null there is seen.
pub proof fn law_key_values(
    a: Seq<CellView>,
    b: Seq<CellView>,
    cols: Seq<Seq<char>>,
    targets: Seq<Seq<char>>,
)
    requires
        all_written(cols, targets),
    ensures
        (forall|i: int, k: int|
            0 <= i < cols.len() && 0 <= k < targets.len() && #[trigger] cols[i]
                == #[trigger] targets[k] ==> a[k] == b[k]) ==> key_tuple(a, cols, targets)
            == key_tuple(b, cols, targets),
        forall|i: int, k: int|
            0 <= i < cols.len() && 0 <= k < targets.len() && #[trigger] cols[i]
                == #[trigger] targets[k] && targets.no_duplicates() ==> key_tuple(
                a,
                cols,
                targets,
            )[i] == literal(a[k]) && (a[k] is Null ==> has_null(key_tuple(a, cols, targets))),
{
    assert forall|i: int| 0 <= i < cols.len() implies (last_position(
        targets,
        #[trigger] cols[i],
        targets.len(),
    ) matches Some(k) && 0 <= k < targets.len() && targets[k] == cols[i]) by {
        lemma_last_position(targets, cols[i], targets.len());
        assert(targets.contains(cols[i]));
    }
    if forall|i: int, k: int|
        0 <= i < cols.len() && 0 <= k < targets.len() && #[trigger] cols[i]
            == #[trigger] targets[k] ==> a[k] == b[k] {
        assert(key_tuple(a, cols, targets) =~= key_tuple(b, cols, targets)) by {
            assert forall|i: int| 0 <= i < cols.len() implies #[trigger] key_tuple(
                a,
                cols,
                targets,
            )[i] == key_tuple(b, cols, targets)[i] by {
                let k = last_position(targets, cols[i], targets.len())->0;
                assert(targets[k] == cols[i]);
                assert(a[k] == b[k]);
            }
        }
    }
    assert forall|i: int, k: int|
        0 <= i < cols.len() && 0 <= k < targets.len() && #[trigger] cols[i]
            == #[trigger] targets[k] && targets.no_duplicates() implies key_tuple(
        a,
        cols,
        targets,
    )[i] == literal(a[k]) && (a[k] is Null ==> has_null(key_tuple(a, cols, targets))) by {
        let q = last_position(targets, cols[i], targets.len())->0;
        assert(targets[q] == targets[k]);
        assert(q == k);
        let tuple = key_tuple(a, cols, targets);
        assert(tuple[i] == literal(a[k]));
        if a[k] is Null {
            assert(tuple[i] == "NULL"@);
            assert(tuple.contains("NULL"@));
        }
    }
}

/// New rows are held against each constraint. A primary key refuses a null and two rows with the same
/// value, and has every value looked up. A unique key does so for the values without a null. A check
/// sees the rows, and a foreign key looks for references without their row. Where not all columns of a
/// key are written the whole table is held against its keys. What follows for the later constraints
/// stays.
pub proof fn law_new_rows_are_held(
    t: Seq<char>,
    cs: Seq<ConstraintView>,
    targets: Seq<Seq<char>>,
    rows: Seq<Seq<CellView>>,
    width: usize,
    i: int,
)
    requires
        0 <= i < cs.len(),
        rows.len() <= usize::MAX,
    ensures
        ({
            let steps = batch_steps(t, cs, targets, rows, width, i);
            let rest = batch_steps(t, cs, targets, rows, width, i + 1);
            let refused = steps.len() == 1 && steps[0] is Fail;
            let later = forall|k: int| 0 <= k < rest.len() ==> steps.contains(#[trigger] rest[k]);
            match cs[i] {
                ConstraintView::PrimaryKey { columns } => if all_written(columns, targets) {
                    &&& forall|x: int, y: int|
                        0 <= x < y < rows.len() && key_tuple(#[trigger] rows[x], columns, targets)
                            == key_tuple(#[trigger] rows[y], columns, targets) ==> refused
                    &&& forall|x: int|
                        0 <= x < rows.len() && has_null(
                            key_tuple(#[trigger] rows[x], columns, targets),
                        ) ==> refused
                    &&& rows.len() == 1 && !has_null(key_tuple(rows[0], columns, targets))
                        ==> later && steps[0] is AtMost
                    &&& refused || later
                    &&& forall|x: int|
                        0 <= x < rows.len() ==> refused || is_looked_up(
                            steps,
                            t,
                            columns,
                            key_tuple(#[trigger] rows[x], columns, targets),
                        )
                } else {
                    steps == table_steps(t, cs, cs.len())
                },
                ConstraintView::Unique { name, columns } => if all_written(columns, targets) {
                    &&& refused || later
                    &&& forall|x: int|
                        0 <= x < rows.len() && !has_null(
                            key_tuple(#[trigger] rows[x], columns, targets),
                        ) ==> refused || is_looked_up(
                            steps,
                            t,
                            columns,
                            key_tuple(rows[x], columns, targets),
                        )
                    &&& (forall|x: int|
                        0 <= x < rows.len() ==> has_null(
                            key_tuple(#[trigger] rows[x], columns, targets),
                        )) ==> steps == rest
                } else {
                    steps == table_steps(t, cs, cs.len())
                },
                ConstraintView::Check { name, expr } => {
                    &&& rows.len() == 0 ==> steps == rest
                    &&& rows.len() > 0 && width == targets.len() ==> later && steps.contains(
                        StepView::CheckRows { name, expr },
                    )
                    &&& rows.len() > 0 && width != targets.len() ==> steps == check_steps(
                        t,
                        cs,
                        cs.len(),
                    )
                },
                ConstraintView::ForeignKey {
                    name,
                    columns,
                    ref_table,
                    ref_columns,
                    on_delete,
                    on_update,
                } => {
                    &&& steps.len() > 0
                    &&& steps[0] == reference_step(t, name, columns, ref_table, ref_columns)
                    &&& refused || later
                },
            }
        }),
{
    let steps = batch_steps(t, cs, targets, rows, width, i);
    let rest = batch_steps(t, cs, targets, rows, width, i + 1);
    match cs[i] {
        ConstraintView::PrimaryKey { columns } => {
            let ts = key_tuples(rows, columns, targets);
            if all_written(columns, targets) {
                assert forall|x: int, y: int|
                    0 <= x < y < rows.len() && key_tuple(#[trigger] rows[x], columns, targets)
                        == key_tuple(#[trigger] rows[y], columns, targets) implies steps.len() == 1
                    && steps[0] is Fail by {
                    assert(key_text(ts[x]) == key_text(ts[y]));
                }
                assert forall|x: int|
                    0 <= x < rows.len() && has_null(
                        key_tuple(#[trigger] rows[x], columns, targets),
                    ) implies steps.len() == 1 && steps[0] is Fail by {
                    assert(has_null(ts[x]));
                }
                if !primary_at_fault(ts) {
                    let own = lookup_steps(t, columns, ts, primary_error(t, columns), 0);
                    lemma_steps_joined(own, rest, t, columns);
                    assert forall|x: int| 0 <= x < rows.len() implies is_looked_up(
                        steps,
                        t,
                        columns,
                        key_tuple(#[trigger] rows[x], columns, targets),
                    ) by {
                        lemma_looked_up(t, columns, ts, primary_error(t, columns), 0, x);
                        assert(ts[x] == key_tuple(rows[x], columns, targets));
                    }
                }
            }
        },
        ConstraintView::Unique { name, columns } => {
            let ts = key_tuples(rows, columns, targets);
            let whole = complete(ts, ts.len());
            lemma_complete(ts, ts.len());
            if all_written(columns, targets) {
                if !repeats(whole) {
                    let own = lookup_steps(t, columns, whole, unique_error(t, name), 0);
                    lemma_steps_joined(own, rest, t, columns);
                    assert forall|x: int|
                        0 <= x < rows.len() && !has_null(
                            key_tuple(#[trigger] rows[x], columns, targets),
                        ) implies is_looked_up(
                        steps,
                        t,
                        columns,
                        key_tuple(rows[x], columns, targets),
                    ) by {
                        assert(!has_null(ts[x]));
                        assert(whole.contains(ts[x]));
                        let k = choose|k: int| 0 <= k < whole.len() && whole[k] == ts[x];
                        lemma_looked_up(t, columns, whole, unique_error(t, name), 0, k);
                    }
                }
                if forall|x: int|
                    0 <= x < rows.len() ==> has_null(
                        key_tuple(#[trigger] rows[x], columns, targets),
                    ) {
                    if whole.len() > 0 {
                        lemma_complete_origin(ts, ts.len(), 0);
                    }
                    assert(whole.len() == 0);
                    assert(steps =~= rest);
                }
            }
        },
        ConstraintView::Check { name, expr } => {
            if rows.len() > 0 && width == targets.len() {
                assert forall|k: int| 0 <= k < rest.len() implies steps.contains(
                    #[trigger] rest[k],
                ) by {
                    assert(steps[k + 1] == rest[k]);
                }
                assert(steps[0] == (StepView::CheckRows { name, expr }));
            }
        },
        ConstraintView::ForeignKey {
            name,
            columns,
            ref_table,
            ref_columns,
            on_delete,
            on_update,
        } => {
            let step = reference_step(t, name, columns, ref_table, ref_columns);
            if !(step is Fail) {
                assert forall|k: int| 0 <= k < rest.len() implies steps.contains(
                    #[trigger] rest[k],
                ) by {
                    assert(steps[k + 1] == rest[k]);
                }
            }
        },
    }
}

proof fn lemma_complete_origin(ts: Seq<Seq<Seq<char>>>, n: nat, k: int)
    requires
        n <= ts.len(),
        0 <= k < complete(ts, n).len(),
    ensures
        exists|i: int| 0 <= i < n && !has_null(#[trigger] ts[i]),
    decreases n,
{
    if !has_null(ts[n - 1]) {
        assert(!has_null(ts[n - 1]));
    } else {
        lemma_complete_origin(ts, (n - 1) as nat, k);
    }
}

proof fn lemma_steps_joined(
    own: Seq<StepView>,
    rest: Seq<StepView>,
    t: Seq<char>,
    cols: Seq<Seq<char>>,
)
    ensures
        forall|k: int| 0 <= k < rest.len() ==> (own + rest).contains(#[trigger] rest[k]),
        forall|tuple: Seq<Seq<char>>|
            is_looked_up(own, t, cols, tuple) ==> #[trigger] is_looked_up(
                own + rest,
                t,
                cols,
                tuple,
            ),
{
    let steps = own + rest;
    assert forall|k: int| 0 <= k < rest.len() implies steps.contains(#[trigger] rest[k]) by {
        assert(steps[own.len() + k] == rest[k]);
    }
    assert forall|tuple: Seq<Seq<char>>|
        is_looked_up(own, t, cols, tuple) implies #[trigger] is_looked_up(steps, t, cols, tuple) by {
        let (k, part) = choose|k: int, part: Seq<Seq<Seq<char>>>|
            0 <= k < own.len() && #[trigger] looks_up(own[k], t, cols, tuple, part);
        assert(steps[k] == own[k]);
        assert(looks_up(steps[k], t, cols, tuple, part));
    }
}

/// Whether a row of a batch lacks a value for a column that takes no nulls.
pub open spec fn lacks_value(
    nulls: Seq<bool>,
    targets: Seq<Seq<char>>,
    cs: Seq<ColumnView>,
    k: int,
) -> bool {
    0 <= k < targets.len() && k < nulls.len() && nulls[k] && exists|i: int|
        0 <= i < cs.len() && (#[trigger] cs[i]).name == targets[k] && !cs[i].nullable
}

proof fn lemma_null_is_there(
    nulls: Seq<bool>,
    targets: Seq<Seq<char>>,
    cs: Seq<ColumnView>,
    n: nat,
)
    requires
        n <= targets.len(),
    ensures
        null_column(nulls, targets, cs, n) is None <==> forall|k: int|
            0 <= k < n ==> !#[trigger] lacks_value(nulls, targets, cs, k),
        null_column(nulls, targets, cs, n) matches Some(c) ==> exists|k: int|
            0 <= k < n && #[trigger] lacks_value(nulls, targets, cs, k) && targets[k] == c,
    decreases n,
{
    if n > 0 {
        lemma_null_is_there(nulls, targets, cs, (n - 1) as nat);
        assert(lacks_value(nulls, targets, cs, n - 1) <==> (n - 1 < nulls.len() && nulls[n - 1]
            && takes_no_null(cs, targets[n - 1])));
    }
}

/// New rows pass exactly where no batch has a null in a column that takes none. Else the complaint is about
/// such a column.
pub proof fn law_nulls_are_found(
    batches: Seq<BatchNulls>,
    targets: Seq<Seq<char>>,
    cs: Seq<ColumnView>,
    n: nat,
)
    requires
        n <= batches.len(),
    ensures
        null_found(batches, targets, cs, n) is None <==> forall|b: int, k: int|
            0 <= b < n ==> !#[trigger] lacks_value(batches[b].nulls@, targets, cs, k),
        null_found(batches, targets, cs, n) matches Some(c) ==> exists|b: int, k: int|
            0 <= b < n && #[trigger] lacks_value(batches[b].nulls@, targets, cs, k) && targets[k]
                == c,
    decreases n,
{
    if n > 0 {
        law_nulls_are_found(batches, targets, cs, (n - 1) as nat);
        let last = batches[n - 1].nulls@;
        lemma_null_is_there(last, targets, cs, targets.len());
        if null_found(batches, targets, cs, n) is None {
            assert forall|b: int, k: int| 0 <= b < n implies !#[trigger] lacks_value(
                batches[b].nulls@,
                targets,
                cs,
                k,
            ) by {
                if b == n - 1 && lacks_value(last, targets, cs, k) {
                    assert(0 <= k < targets.len());
                }
            }
        } else if null_found(batches, targets, cs, (n - 1) as nat) is None {
            let c = null_column(last, targets, cs, targets.len())->0;
            let k = choose|k: int|
                0 <= k < targets.len() && #[trigger] lacks_value(last, targets, cs, k) && targets[k]
                    == c;
            assert(lacks_value(batches[n - 1].nulls@, targets, cs, k));
        } else {
            let c = null_found(batches, targets, cs, (n - 1) as nat)->0;
            let (b, k) = choose|b: int, k: int|
                0 <= b < n - 1 && #[trigger] lacks_value(batches[b].nulls@, targets, cs, k)
                    && targets[k] == c;
            assert(lacks_value(batches[b].nulls@, targets, cs, k));
        }
    }
}

proof fn lemma_named_null_is_there(b: NamedNullsView, cs: Seq<ColumnView>, n: nat)
    requires
        n <= cs.len(),
    ensures
        named_null_column(b, cs, n) is None <==> forall|k: int|
            0 <= k < n ==> !null_in(b, #[trigger] cs[k]),
    decreases n,
{
    if n > 0 {
        lemma_named_null_is_there(b, cs, (n - 1) as nat);
        assert(cs[n - 1] == cs[n - 1]);
    }
}

/// Rows with named columns pass exactly where none has a null in a column that takes none.
pub proof fn law_named_nulls_are_found(bs: Seq<NamedNullsView>, cs: Seq<ColumnView>, n: nat)
    requires
        n <= bs.len(),
    ensures
        named_null_found(bs, cs, n) is None <==> forall|b: int, k: int|
            0 <= b < n && 0 <= k < cs.len() ==> !null_in(#[trigger] bs[b], #[trigger] cs[k]),
    decreases n,
{
    if n > 0 {
        law_named_nulls_are_found(bs, cs, (n - 1) as nat);
        lemma_named_null_is_there(bs[n - 1], cs, cs.len());
        if named_null_found(bs, cs, n) is Some {
            if named_null_found(bs, cs, (n - 1) as nat) is Some {
                let (b, k) = choose|b: int, k: int|
                    0 <= b < n - 1 && 0 <= k < cs.len() && null_in(
                        #[trigger] bs[b],
                        #[trigger] cs[k],
                    );
                assert(null_in(bs[b], cs[k]));
            } else {
                let k = choose|k: int| 0 <= k < cs.len() && null_in(bs[n - 1], #[trigger] cs[k]);
                assert(null_in(bs[n - 1], cs[k]));
            }
        }
    }
}

/// A column that takes nulls, or that a batch does not have, is never at fault.
pub proof fn law_nullable_columns_take_nulls(b: NamedNullsView, c: ColumnView)
    ensures
        c.nullable ==> !null_in(b, c),
        !b.names.contains(c.name) ==> !null_in(b, c),
{
    lemma_position_is_one(b.names, c.name, b.names.len());
}

proof fn lemma_position_is_one(names: Seq<Seq<char>>, name: Seq<char>, n: nat)
    requires
        n <= names.len(),
    ensures
        first_position(names, name, n) matches Some(i) ==> 0 <= i < n && names[i] == name
            && names.contains(name),
    decreases n,
{
    if n > 0 {
        lemma_position_is_one(names, name, (n - 1) as nat);
    }
}

/// A foreign key whose two sides do not have as many columns, or none, is refused.
pub proof fn law_uneven_keys_are_refused(
    t: Seq<char>,
    name: Seq<char>,
    cols: Seq<Seq<char>>,
    ref_table: Seq<char>,
    refs: Seq<Seq<char>>,
)
    ensures
        reference_step(t, name, cols, ref_table, refs) is Fail <==> cols.len() != refs.len()
            || cols.len() == 0,
{
}

} // verus!
