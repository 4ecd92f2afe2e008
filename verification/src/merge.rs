//! `MERGE`: the queries by which the rows of a source are merged into a table.
//!
//! The rows of the source stand in a temporary table, and what the statement says of its source is
//! said of that table instead.
use vstd::prelude::*;
use vstd::string::*;

use crate::catalog::{lookup, Catalog, CatalogState};
use crate::catalog_types::{ColumnDef, ColumnView};
use crate::dup::{opt_view, views, Dup};
use crate::meaning::{self, Frame, Phrase, Query, Value, World};
use crate::numbers::{decimal_signed, print_i64};
use crate::statement::{
    parsed_merge, read_merge, MergeDo, MergeDoView, MergeHead, MergeMatch, MergeWhen, MergeWhenView,
    ParsedAssignment, ParsedAssignmentView, ParsedRelation, ParsedRelationView, TextRow,
    TextRowView,
};
use crate::text::{
    concat2, concat3, join, joined, law_pattern_alone_is_replaced,
    law_text_without_the_pattern_stays, occurs_at, opt_text, replace, replaced, same, texts,
    trim_matches, trim_matches_text,
};

verus! {

// ---------------------------------------------------------------------------
// The two relations
// ---------------------------------------------------------------------------

/// The target and the source of a `MERGE`.
pub struct MergeNames {
    pub target: String,
    pub target_alias: Option<String>,
    /// The query whose rows are merged.
    pub source_sql: String,
    /// The name by which the statement speaks of the source: its alias, or the name of its table.
    pub source_name: Option<String>,
}

/// What a [`MergeNames`] says.
pub struct MergeNamesView {
    pub target: Seq<char>,
    pub target_alias: Option<Seq<char>>,
    pub source_sql: Seq<char>,
    pub source_name: Option<Seq<char>>,
}

impl View for MergeNames {
    type V = MergeNamesView;

    open spec fn view(&self) -> MergeNamesView {
        MergeNamesView {
            target: self.target@,
            target_alias: opt_text(self.target_alias),
            source_sql: self.source_sql@,
            source_name: opt_text(self.source_name),
        }
    }
}

/// The target and the source of a `MERGE` into a table of the catalog, or the complaint.
pub open spec fn merge_names(
    c: CatalogState,
    target: ParsedRelationView,
    source: ParsedRelationView,
) -> Result<MergeNamesView, Seq<char>> {
    match target {
        ParsedRelationView::Table { name, alias } => {
            let t = trim_matches_text(name, '"');
            if !c.tables.dom().contains(t) {
                Err("Table '"@ + t + "' does not exist"@)
            } else {
                match source {
                    ParsedRelationView::Query { text, alias: a } => Ok(
                        MergeNamesView {
                            target: t,
                            target_alias: alias,
                            source_sql: text,
                            source_name: a,
                        },
                    ),
                    ParsedRelationView::Table { name: n, alias: a } => Ok(
                        MergeNamesView {
                            target: t,
                            target_alias: alias,
                            source_sql: "SELECT * FROM "@ + n,
                            source_name: match a {
                                Some(x) => Some(x),
                                None => Some(trim_matches_text(n, '"')),
                            },
                        },
                    ),
                    ParsedRelationView::Other { text } => Err("Unsupported MERGE source type"@),
                }
            }
        },
        _ => Err("MERGE target must be a table"@),
    }
}

/// An expression of the statement with the names of the tables that it runs on.
pub open spec fn resolved(s: Seq<char>, n: MergeNamesView) -> Seq<char> {
    let with_target = match n.target_alias {
        Some(a) => replaced(s, a + "."@, "\""@ + n.target + "\"."@),
        None => s,
    };
    match n.source_name {
        Some(a) => replaced(with_target, a + "."@, "\"__merge_src\"."@),
        None => with_target,
    }
}

fn resolve(s: &str, n: &MergeNames) -> (r: String)
    ensures
        r@ == resolved(s@, n@),
{
    let with_target = match &n.target_alias {
        Some(a) => replace(s, &concat2(a, "."), &concat3("\"", &n.target, "\".")),
        None => s.to_owned(),
    };
    match &n.source_name {
        Some(a) => replace(&with_target, &concat2(a, "."), "\"__merge_src\"."),
        None => with_target,
    }
}

impl Catalog {
    /// The target and the source of a `MERGE` into a table of the catalog.
    pub fn merge_tables(&self, target: &ParsedRelation, source: &ParsedRelation) -> (r: Result<
        MergeNames,
        String,
    >)
        requires
            self.wf(),
        ensures
            match r {
                Ok(n) => merge_names(self@, target@, source@) == Ok::<MergeNamesView, Seq<char>>(
                    n@,
                ),
                Err(e) => merge_names(self@, target@, source@) == Err::<MergeNamesView, Seq<char>>(
                    e@,
                ),
            },
    {
        match target {
            ParsedRelation::Table { name, alias } => {
                let t = trim_matches(name, '"');
                if !self.tables.contains_key(&t) {
                    return Err(concat3("Table '", &t, "' does not exist"));
                }
                let target_alias = crate::dup::dup_opt_string(alias);
                match source {
                    ParsedRelation::Query { text, alias: a } => Ok(
                        MergeNames {
                            target: t,
                            target_alias,
                            source_sql: text.clone(),
                            source_name: crate::dup::dup_opt_string(a),
                        },
                    ),
                    ParsedRelation::Table { name: n, alias: a } => {
                        let source_name: Option<String> = match a {
                            Some(x) => Some(x.clone()),
                            None => Some(trim_matches(n, '"')),
                        };
                        Ok(
                            MergeNames {
                                target: t,
                                target_alias,
                                source_sql: concat2("SELECT * FROM ", n),
                                source_name,
                            },
                        )
                    },
                    ParsedRelation::Other { .. } => Err(
                        "Unsupported MERGE source type".to_owned(),
                    ),
                }
            },
            _ => Err("MERGE target must be a table".to_owned()),
        }
    }
}

// ---------------------------------------------------------------------------
// The steps
// ---------------------------------------------------------------------------

/// One step of a `MERGE`.
pub enum MergeStep {
    /// The rows that are matched are counted; where there are any, the table is written anew.
    Update { count_sql: String, rewrite_sql: String },
    /// The table is written anew from the rows that stay.
    Delete { keep_sql: String },
    /// Rows are inserted.
    Insert { insert_sql: String },
}

/// What a [`MergeStep`] says.
pub enum MergeStepView {
    Update { count_sql: Seq<char>, rewrite_sql: Seq<char> },
    Delete { keep_sql: Seq<char> },
    Insert { insert_sql: Seq<char> },
}

impl View for MergeStep {
    type V = MergeStepView;

    open spec fn view(&self) -> MergeStepView {
        match self {
            MergeStep::Update { count_sql, rewrite_sql } => MergeStepView::Update {
                count_sql: count_sql@,
                rewrite_sql: rewrite_sql@,
            },
            MergeStep::Delete { keep_sql } => MergeStepView::Delete {
                keep_sql: keep_sql@,
            },
            MergeStep::Insert { insert_sql } => MergeStepView::Insert {
                insert_sql: insert_sql@,
            },
        }
    }
}

/// The value of the last of the first `n` assignments that is about a column.
pub open spec fn merged_value(
    assignments: Seq<ParsedAssignmentView>,
    col: Seq<char>,
    n: nat,
) -> Option<Seq<char>>
    decreases n,
{
    if n == 0 || n > assignments.len() {
        None
    } else if trim_matches_text(assignments[n - 1].text, '"') == col {
        Some(assignments[n - 1].value)
    } else {
        merged_value(assignments, col, (n - 1) as nat)
    }
}

/// What a column of the target is written anew from.
pub open spec fn matched_column(c: ColumnView, value: Option<Seq<char>>, n: MergeNamesView) -> Seq<
    char,
> {
    match value {
        Some(v) => "CASE WHEN \"__merge_src_match\" IS NOT NULL THEN CAST("@ + resolved(v, n)
            + " AS "@ + c.data_type + ") ELSE \""@ + n.target + "\".\""@ + c.name + "\" END AS \""@
            + c.name + "\""@,
        None => "\""@ + n.target + "\".\""@ + c.name + "\""@,
    }
}

/// What each column of the target is written anew from.
pub open spec fn matched_columns(
    cs: Seq<ColumnView>,
    assignments: Seq<ParsedAssignmentView>,
    n: MergeNamesView,
) -> Seq<Seq<char>> {
    Seq::new(
        cs.len(),
        |i: int|
            matched_column(
                cs[i],
                merged_value(assignments, cs[i].name, assignments.len()),
                n,
            ),
    )
}

/// The condition of a `WHEN` clause, to stand behind that of the statement.
pub open spec fn further_condition(predicate: Option<Seq<char>>, n: MergeNamesView) -> Seq<char> {
    match predicate {
        Some(p) => " AND ("@ + resolved(p, n) + ")"@,
        None => ""@,
    }
}

/// The step that updates the rows that are matched.
pub open spec fn update_step(
    cs: Seq<ColumnView>,
    assignments: Seq<ParsedAssignmentView>,
    on: Seq<char>,
    more: Seq<char>,
    n: MergeNamesView,
) -> MergeStepView {
    MergeStepView::Update {
        count_sql: "SELECT COUNT(*) AS c FROM \""@ + n.target
            + "\" INNER JOIN \"__merge_src\" ON ("@ + on + ")"@ + more,
        rewrite_sql: "SELECT "@ + joined(matched_columns(cs, assignments, n), ", "@) + " FROM \""@
            + n.target
            + "\" LEFT JOIN (SELECT *, TRUE AS \"__merge_src_match\" FROM \"__merge_src\") AS \"__merge_src\" ON ("@
            + on + ")"@ + more,
    }
}

/// The step that deletes the rows that are matched.
pub open spec fn delete_step(on: Seq<char>, more: Seq<char>, n: MergeNamesView) -> MergeStepView {
    MergeStepView::Delete {
        keep_sql: "SELECT \""@ + n.target + "\".* FROM \""@ + n.target
            + "\" WHERE NOT EXISTS (SELECT 1 FROM \"__merge_src\" WHERE ("@ + on + ")"@ + more
            + ")"@,
    }
}

/// Each value with the names of the tables that it runs on.
pub open spec fn resolved_all(values: Seq<Seq<char>>, n: MergeNamesView) -> Seq<Seq<char>> {
    Seq::new(values.len(), |i: int| resolved(values[i], n))
}

/// What is selected of the source for the rows that are inserted: the values of the first row of
/// values, or everything.
pub open spec fn inserted_list(rows: Seq<TextRowView>, n: MergeNamesView) -> Seq<char> {
    if rows.len() == 0 {
        "*"@
    } else {
        joined(resolved_all(rows[0].values, n), ", "@)
    }
}

/// The step that inserts the rows that are not matched.
pub open spec fn insert_step(
    columns: Seq<Seq<char>>,
    rows: Seq<TextRowView>,
    on: Seq<char>,
    more: Seq<char>,
    n: MergeNamesView,
) -> MergeStepView {
    MergeStepView::Insert {
        insert_sql: "INSERT INTO \""@ + n.target + "\""@ + if columns.len() == 0 {
            ""@
        } else {
            " ("@ + joined(columns, ", "@) + ")"@
        } + " SELECT "@ + inserted_list(rows, n)
            + " FROM \"__merge_src\" WHERE NOT EXISTS (SELECT 1 FROM \""@ + n.target
            + "\" WHERE ("@ + on + "))"@ + more,
    }
}

/// The step of a clause, if it has one: rows that are matched are updated or deleted, rows that the
/// target lacks are inserted, and everything else is left out.
pub open spec fn step_of(
    cs: Seq<ColumnView>,
    clause: MergeWhenView,
    on: Seq<char>,
    n: MergeNamesView,
) -> Option<MergeStepView> {
    let more = further_condition(clause.predicate, n);
    match (clause.matched, clause.action) {
        (MergeMatch::Matched, MergeDoView::Update { assignments }) => Some(
            update_step(cs, assignments, on, more, n),
        ),
        (MergeMatch::Matched, MergeDoView::Delete) => Some(delete_step(on, more, n)),
        (MergeMatch::NotMatched, MergeDoView::Insert { columns, rows }) => Some(
            insert_step(columns, rows, on, more, n),
        ),
        (MergeMatch::NotMatchedByTarget, MergeDoView::Insert { columns, rows }) => Some(
            insert_step(columns, rows, on, more, n),
        ),
        _ => None,
    }
}

/// The steps of the first `k` clauses.
pub open spec fn merge_steps(
    cs: Seq<ColumnView>,
    whens: Seq<MergeWhenView>,
    on: Seq<char>,
    n: MergeNamesView,
    k: nat,
) -> Seq<MergeStepView>
    decreases k,
{
    if k == 0 || k > whens.len() {
        Seq::empty()
    } else {
        let rest = merge_steps(cs, whens, on, n, (k - 1) as nat);
        match step_of(cs, whens[k - 1], on, n) {
            Some(s) => rest.push(s),
            None => rest,
        }
    }
}

fn find_merged_value(assignments: &Vec<ParsedAssignment>, col: &str) -> (r: Option<String>)
    ensures
        opt_text(r) == merged_value(views(assignments@), col@, views(assignments@).len()),
{
    let ghost av = views(assignments@);
    let mut n: usize = assignments.len();
    while n > 0
        invariant
            n <= assignments@.len(),
            av == views(assignments@),
            av.len() == assignments@.len(),
            merged_value(av, col@, av.len()) == merged_value(av, col@, n as nat),
        decreases n,
    {
        assert(av[n - 1] == assignments@[n - 1]@);
        if same(&trim_matches(&assignments[n - 1].text, '"'), col) {
            return Some(assignments[n - 1].value.clone());
        }
        n -= 1;
    }
    None
}

fn write_matched_columns(
    cs: &Vec<ColumnDef>,
    assignments: &Vec<ParsedAssignment>,
    n: &MergeNames,
) -> (r: Vec<String>)
    ensures
        texts(r@) == matched_columns(views(cs@), views(assignments@), n@),
{
    let ghost av = views(assignments@);
    let mut out: Vec<String> = Vec::new();
    let mut i: usize = 0;
    while i < cs.len()
        invariant
            i <= cs@.len(),
            out@.len() == i,
            av == views(assignments@),
            forall|j: int|
                0 <= j < i ==> (#[trigger] out@[j])@ == matched_column(
                    cs@[j]@,
                    merged_value(av, cs@[j]@.name, av.len()),
                    n@,
                ),
        decreases cs@.len() - i,
    {
        let piece = match find_merged_value(assignments, &cs[i].name) {
            Some(v) => {
                let value = resolve(&v, n);
                let head = concat3(
                    "CASE WHEN \"__merge_src_match\" IS NOT NULL THEN CAST(",
                    &value,
                    " AS ",
                );
                let cast = concat3(&head, &cs[i].data_type, ") ELSE \"");
                let other = concat3(&cast, &n.target, "\".\"");
                let end = concat3(&other, &cs[i].name, "\" END AS \"");
                concat3(&end, &cs[i].name, "\"")
            },
            None => {
                let head = concat3("\"", &n.target, "\".\"");
                concat3(&head, &cs[i].name, "\"")
            },
        };
        out.push(piece);
        i += 1;
    }
    assert(texts(out@) =~= matched_columns(views(cs@), av, n@));
    out
}

fn write_update_step(
    cs: &Vec<ColumnDef>,
    assignments: &Vec<ParsedAssignment>,
    on: &str,
    more: &str,
    n: &MergeNames,
) -> (r: MergeStep)
    ensures
        r@ == update_step(views(cs@), views(assignments@), on@, more@, n@),
{
    let count = concat3(
        "SELECT COUNT(*) AS c FROM \"",
        &n.target,
        "\" INNER JOIN \"__merge_src\" ON (",
    );
    let count_on = concat3(&count, on, ")");
    let list = join(&write_matched_columns(cs, assignments, n), ", ");
    let select = concat3("SELECT ", &list, " FROM \"");
    let from = concat3(
        &select,
        &n.target,
        "\" LEFT JOIN (SELECT *, TRUE AS \"__merge_src_match\" FROM \"__merge_src\") AS \"__merge_src\" ON (",
    );
    let from_on = concat3(&from, on, ")");
    MergeStep::Update {
        count_sql: concat2(&count_on, more),
        rewrite_sql: concat2(&from_on, more),
    }
}

fn write_delete_step(on: &str, more: &str, n: &MergeNames) -> (r: MergeStep)
    ensures
        r@ == delete_step(on@, more@, n@),
{
    let select = concat3("SELECT \"", &n.target, "\".* FROM \"");
    let from = concat3(
        &select,
        &n.target,
        "\" WHERE NOT EXISTS (SELECT 1 FROM \"__merge_src\" WHERE (",
    );
    let cond = concat3(&from, on, ")");
    MergeStep::Delete { keep_sql: concat3(&cond, more, ")") }
}

fn resolve_all(values: &Vec<String>, n: &MergeNames) -> (r: Vec<String>)
    ensures
        texts(r@) == resolved_all(texts(values@), n@),
{
    let mut out: Vec<String> = Vec::new();
    let mut i: usize = 0;
    while i < values.len()
        invariant
            i <= values@.len(),
            out@.len() == i,
            forall|j: int| 0 <= j < i ==> (#[trigger] out@[j])@ == resolved(values@[j]@, n@),
        decreases values@.len() - i,
    {
        out.push(resolve(&values[i], n));
        i += 1;
    }
    assert(texts(out@) =~= resolved_all(texts(values@), n@));
    out
}

fn write_insert_step(
    columns: &Vec<String>,
    rows: &Vec<TextRow>,
    on: &str,
    more: &str,
    n: &MergeNames,
) -> (r: MergeStep)
    ensures
        r@ == insert_step(texts(columns@), views(rows@), on@, more@, n@),
{
    assert(texts(columns@).len() == columns@.len());
    assert(views(rows@).len() == rows@.len());
    let cols: String = if columns.len() == 0 {
        "".to_owned()
    } else {
        concat3(" (", &join(columns, ", "), ")")
    };
    let list: String = if rows.len() == 0 {
        "*".to_owned()
    } else {
        assert(views(rows@)[0] == rows@[0]@);
        join(&resolve_all(&rows[0].values, n), ", ")
    };
    let head = concat3("INSERT INTO \"", &n.target, "\"");
    let with_columns = concat3(&head, &cols, " SELECT ");
    let select = concat3(
        &with_columns,
        &list,
        " FROM \"__merge_src\" WHERE NOT EXISTS (SELECT 1 FROM \"",
    );
    let exists = concat3(&select, &n.target, "\" WHERE (");
    let cond = concat3(&exists, on, "))");
    MergeStep::Insert { insert_sql: concat2(&cond, more) }
}

fn write_step(cs: &Vec<ColumnDef>, clause: &MergeWhen, on: &str, n: &MergeNames) -> (r: Option<
    MergeStep,
>)
    ensures
        opt_view(r) == step_of(views(cs@), clause@, on@, n@),
{
    let more = match &clause.predicate {
        Some(p) => concat3(" AND (", &resolve(p, n), ")"),
        None => "".to_owned(),
    };
    match clause.matched {
        MergeMatch::Matched => match &clause.action {
            MergeDo::Update { assignments } => Some(
                write_update_step(cs, assignments, on, &more, n),
            ),
            MergeDo::Delete => Some(write_delete_step(on, &more, n)),
            MergeDo::Insert { .. } => None,
        },
        MergeMatch::NotMatched | MergeMatch::NotMatchedByTarget => match &clause.action {
            MergeDo::Insert { columns, rows } => Some(
                write_insert_step(columns, rows, on, &more, n),
            ),
            _ => None,
        },
        MergeMatch::NotMatchedBySource => None,
    }
}

/// The steps of the clauses of a `MERGE`, where `on` is the condition of the statement.
pub fn plan_merge_steps(cs: &Vec<ColumnDef>, whens: &Vec<MergeWhen>, on: &str, n: &MergeNames) -> (r:
    Vec<MergeStep>)
    ensures
        views(r@) == merge_steps(
            views(cs@),
            views(whens@),
            resolved(on@, n@),
            n@,
            views(whens@).len(),
        ),
{
    let cond = resolve(on, n);
    let ghost cv = views(cs@);
    let ghost wv = views(whens@);
    let mut out: Vec<MergeStep> = Vec::new();
    let mut i: usize = 0;
    assert(views(out@) =~= merge_steps(cv, wv, cond@, n@, 0));
    while i < whens.len()
        invariant
            i <= whens@.len(),
            cv == views(cs@),
            wv == views(whens@),
            wv.len() == whens@.len(),
            views(out@) == merge_steps(cv, wv, cond@, n@, i as nat),
        decreases whens@.len() - i,
    {
        assert(wv[i as int] == whens@[i as int]@);
        let ghost done = out@;
        match write_step(cs, &whens[i], &cond, n) {
            Some(s) => {
                let ghost sv = s@;
                out.push(s);
                assert(views(out@) =~= views(done).push(sv));
            },
            None => {},
        }
        i += 1;
    }
    out
}

// ---------------------------------------------------------------------------
// The statement
// ---------------------------------------------------------------------------

/// The `MERGE` of a text.
pub fn parse_merge(sql: &str) -> (r: Option<MergeHead>)
    ensures
        opt_view(r) == parsed_merge(sql@),
{
    read_merge(sql)
}

/// What `MERGE` is to do.
pub struct MergePlan {
    pub table: String,
    /// The query whose rows are merged.
    pub source_sql: String,
    pub steps: Vec<MergeStep>,
}

impl Catalog {
    /// What `MERGE` is to do.
    pub fn plan_merge(&self, m: &MergeHead) -> (r: Result<MergePlan, String>)
        requires
            self.wf(),
        ensures
            match merge_names(self@, m.target@, m.source@) {
                Err(x) => r matches Err(e) && e@ == x,
                Ok(n) => {
                    &&& r matches Ok(p)
                    &&& p.table@ == n.target
                    &&& p.source_sql@ == n.source_sql
                    &&& views(p.steps@) == merge_steps(
                        self@.tables[n.target].columns,
                        m@.whens,
                        resolved(m.on@, n),
                        n,
                        m@.whens.len(),
                    )
                },
            },
    {
        let names = match self.merge_tables(&m.target, &m.source) {
            Err(e) => {
                return Err(e);
            },
            Ok(n) => n,
        };
        match self.tables.lookup(&names.target) {
            None => Err(concat3("Table '", &names.target, "' does not exist")),
            Some(meta) => {
                let steps = plan_merge_steps(&meta.columns, &m.whens, &m.on, &names);
                Ok(MergePlan { table: names.target, source_sql: names.source_sql, steps })
            },
        }
    }
}

/// The answer to a `MERGE`.
pub fn merge_message(updated: i64, inserted: i64) -> (r: String)
    ensures
        r@ == decimal_signed(updated as int) + " row(s) updated, "@ + decimal_signed(
            inserted as int,
        ) + " row(s) inserted."@,
{
    let head = concat2(&print_i64(updated), " row(s) updated, ");
    concat3(&head, &print_i64(inserted), " row(s) inserted.")
}

/// The answer to a `MERGE` whose source has no rows; nothing where it has some and the steps are to
/// be taken.
pub fn answer_without_rows(rows: usize) -> (r: Option<String>)
    ensures
        opt_text(r) == if rows == 0 {
            Some("0 row(s) updated, 0 row(s) inserted."@)
        } else {
            None
        },
{
    if rows == 0 {
        Some("0 row(s) updated, 0 row(s) inserted.".to_owned())
    } else {
        None
    }
}

/// How many rows the steps of a `MERGE` have changed. A later step of the same kind takes the place
/// of an earlier one.
pub struct MergeTotals {
    pub updated: i64,
    pub inserted: i64,
}

impl MergeTotals {
    /// Before the first step nothing is changed.
    pub fn new() -> (r: MergeTotals)
        ensures
            r.updated == 0,
            r.inserted == 0,
    {
        MergeTotals { updated: 0, inserted: 0 }
    }

    /// Takes the number of matching rows that an update counted, if it counted any, and tells
    /// whether the table is to be written anew: only where a row matches.
    pub fn update_counted(&mut self, counted: Option<i64>) -> (r: bool)
        ensures
            final(self).updated == match counted {
                Some(n) => n,
                None => 0,
            },
            final(self).inserted == old(self).inserted,
            r == (final(self).updated > 0),
    {
        self.updated = match counted {
            Some(n) => n,
            None => 0,
        };
        self.updated > 0
    }

    /// Takes the number of rows that an insertion wrote, if it told one.
    pub fn insert_counted(&mut self, counted: Option<i64>)
        ensures
            final(self).inserted == match counted {
                Some(n) => n,
                None => 0,
            },
            final(self).updated == old(self).updated,
    {
        self.inserted = match counted {
            Some(n) => n,
            None => 0,
        };
    }

    /// The number of rows that were changed; nothing where there are too many to count.
    pub fn changed(&self) -> (r: Option<usize>)
        ensures
            match r {
                Some(n) => n == self.updated + self.inserted,
                None => self.updated + self.inserted < 0 || self.updated + self.inserted
                    > usize::MAX,
            },
    {
        let total: i128 = self.updated as i128 + self.inserted as i128;
        if total < 0 || total > usize::MAX as i128 {
            None
        } else {
            Some(total as usize)
        }
    }
}

// ---------------------------------------------------------------------------
// Laws
// ---------------------------------------------------------------------------

/// A clause about rows that the source lacks changes nothing.
pub proof fn law_by_source_is_left_out(
    cs: Seq<ColumnView>,
    clause: MergeWhenView,
    on: Seq<char>,
    n: MergeNamesView,
)
    requires
        clause.matched == MergeMatch::NotMatchedBySource,
    ensures
        step_of(cs, clause, on, n) is None,
{
}

/// Every step belongs to a clause: there are no more steps than clauses.
pub proof fn law_no_step_without_clause(
    cs: Seq<ColumnView>,
    whens: Seq<MergeWhenView>,
    on: Seq<char>,
    n: MergeNamesView,
    k: nat,
)
    ensures
        merge_steps(cs, whens, on, n, k).len() <= k,
    decreases k,
{
    if k > 0 && k <= whens.len() {
        law_no_step_without_clause(cs, whens, on, n, (k - 1) as nat);
    }
}

/// The name of the temporary table that holds the rows of the source, as it stands in a query.
pub open spec fn source_rows() -> Seq<char> {
    meaning::quoted_name("__merge_src"@)
}

/// A condition and the further condition of a clause behind it, if it has one.
pub open spec fn and_further(p: Phrase, predicate: Option<Seq<char>>, n: MergeNamesView) -> Phrase {
    match predicate {
        Some(e) => meaning::both(p, meaning::paren(meaning::other(resolved(e, n)))),
        None => p,
    }
}

/// Whether the further condition of a clause holds, given the rows that it sees.
pub open spec fn further_holds(
    w: World,
    predicate: Option<Seq<char>>,
    n: MergeNamesView,
    s: Seq<Frame>,
) -> bool {
    predicate matches Some(e) ==> meaning::holds((w.other)(resolved(e, n), s))
}

proof fn lemma_and_further(p: Phrase, predicate: Option<Seq<char>>, n: MergeNamesView)
    ensures
        and_further(p, predicate, n).text == p.text + further_condition(predicate, n),
        forall|w: World, s: Seq<Frame>|
            meaning::holds(#[trigger] (and_further(p, predicate, n).value)(w, s)) == (
            meaning::holds((p.value)(w, s)) && further_holds(w, predicate, n, s)),
{
    match predicate {
        Some(e) => {
            let q = meaning::paren(meaning::other(resolved(e, n)));
            meaning::lemma_all_two(p, q);
            reveal_strlit(" AND (");
            reveal_strlit(" AND ");
            reveal_strlit("(");
            reveal_strlit(")");
            assert(and_further(p, predicate, n).text =~= p.text + further_condition(predicate, n));
            assert forall|w: World, s: Seq<Frame>|
                meaning::holds(#[trigger] (and_further(p, predicate, n).value)(w, s)) == (
                meaning::holds((p.value)(w, s)) && further_holds(w, predicate, n, s)) by {
                assert(meaning::holds((meaning::both(p, q).value)(w, s)) <==> meaning::holds(
                    (p.value)(w, s),
                ) && meaning::holds((q.value)(w, s)));
            }
        },
        None => {
            reveal_strlit("");
            assert(p.text + ""@ =~= p.text);
        },
    }
}

/// Whether a row of the source and a row of the target meet the condition of the statement, seen from
/// the row of the source.
pub open spec fn source_meets(
    w: World,
    on: Seq<char>,
    target: Seq<char>,
    source: Map<Seq<char>, Value>,
    row: Map<Seq<char>, Value>,
) -> bool {
    meaning::holds(
        (w.other)(
            on,
            seq![Frame { name: source_rows(), row: source }, Frame { name: target, row }],
        ),
    )
}

/// Whether no row of the target meets the condition of the statement with a row of the source.
pub open spec fn target_lacks(
    w: World,
    on: Seq<char>,
    target: Seq<char>,
    source: Map<Seq<char>, Value>,
) -> bool {
    forall|k: int|
        0 <= k < meaning::rows_of(w, target).len() ==> !source_meets(
            w,
            on,
            target,
            source,
            #[trigger] meaning::rows_of(w, target)[k],
        )
}

/// The values of the first row of values of an insertion, as phrases.
pub open spec fn inserted_phrases(rows: Seq<TextRowView>, n: MergeNamesView) -> Seq<Phrase> {
    Seq::new(rows[0].values.len(), |i: int| meaning::other(resolved(rows[0].values[i], n)))
}

/// `WHEN NOT MATCHED THEN INSERT`: the rows that are inserted come from exactly those rows of the
/// source for which no row of the target meets the condition of the statement, and of which the
/// further condition holds. What is inserted are the values that the clause gives, in order, or whole
/// rows where it gives none.
pub proof fn law_merge_inserts_what_the_target_lacks(
    cs: Seq<ColumnView>,
    clause: MergeWhenView,
    columns: Seq<Seq<char>>,
    rows: Seq<TextRowView>,
    on: Seq<char>,
    n: MergeNamesView,
    w: World,
)
    requires
        clause.matched == MergeMatch::NotMatched || clause.matched
            == MergeMatch::NotMatchedByTarget,
        clause.action == (MergeDoView::Insert { columns, rows }),
    ensures
        ({
            let target = meaning::quoted_name(n.target);
            let source = source_rows();
            let p = meaning::not(meaning::exists_in(target, meaning::paren(meaning::other(on))));
            let q = meaning::select_where(
                if rows.len() == 0 {
                    "*"@
                } else {
                    meaning::list_of(inserted_phrases(rows, n))
                },
                meaning::table(source),
                and_further(p, clause.predicate, n),
            );
            &&& step_of(cs, clause, on, n) == Some(
                MergeStepView::Insert {
                    insert_sql: "INSERT INTO "@ + target + if columns.len() == 0 {
                        Seq::empty()
                    } else {
                        " ("@ + joined(columns, ", "@) + ")"@
                    } + " "@ + q.text,
                },
            )
            &&& (q.rows)(w) == meaning::single(
                source,
                meaning::rows_of(w, source).filter(
                    |r|
                        target_lacks(w, on, target, r) && further_holds(
                            w,
                            clause.predicate,
                            n,
                            seq![Frame { name: source, row: r }],
                        ),
                ),
            )
        }),
{
    let target = meaning::quoted_name(n.target);
    let source = source_rows();
    let inner = meaning::paren(meaning::other(on));
    let p = meaning::not(meaning::exists_in(target, inner));
    let whole = and_further(p, clause.predicate, n);
    lemma_and_further(p, clause.predicate, n);
    let srows = meaning::rows_of(w, source);
    let f = |r|
        target_lacks(w, on, target, r) && further_holds(
            w,
            clause.predicate,
            n,
            seq![Frame { name: source, row: r }],
        );
    assert forall|i: int| 0 <= i < srows.len() implies meaning::holds(
        (whole.value)(w, seq![Frame { name: source, row: #[trigger] srows[i] }]),
    ) == f(srows[i]) by {
        let s = seq![Frame { name: source, row: srows[i] }];
        let trows = meaning::rows_of(w, target);
        assert forall|k: int| 0 <= k < trows.len() implies s.push(
            Frame { name: target, row: #[trigger] trows[k] },
        ) == seq![
            Frame { name: source, row: srows[i] },
            Frame { name: target, row: trows[k] },
        ] by {
            assert(s.push(Frame { name: target, row: trows[k] }) =~= seq![
                Frame { name: source, row: srows[i] },
                Frame { name: target, row: trows[k] },
            ]);
        }
        assert(meaning::holds((p.value)(w, s)) == target_lacks(w, on, target, srows[i]));
        assert(meaning::holds((whole.value)(w, s)) == (meaning::holds((p.value)(w, s))
            && further_holds(w, clause.predicate, n, s)));
    }
    meaning::lemma_kept_single(w, source, srows, whole, f);
    if rows.len() > 0 {
        assert(meaning::phrase_texts(inserted_phrases(rows, n)) =~= resolved_all(
            rows[0].values,
            n,
        ));
    }
    lemma_insert_text(columns, rows, clause.predicate, on, n);
}

proof fn lemma_insert_tail(predicate: Option<Seq<char>>, on: Seq<char>, n: MergeNamesView)
    ensures
        ({
            let target = meaning::quoted_name(n.target);
            let p = meaning::not(meaning::exists_in(target, meaning::paren(meaning::other(on))));
            " FROM \"__merge_src\" WHERE NOT EXISTS (SELECT 1 FROM \""@ + n.target + "\" WHERE ("@
                + on + "))"@ + further_condition(predicate, n) == " FROM "@ + source_rows()
                + " WHERE "@ + and_further(p, predicate, n).text
        }),
{
    let target = meaning::quoted_name(n.target);
    let p = meaning::not(meaning::exists_in(target, meaning::paren(meaning::other(on))));
    let more = further_condition(predicate, n);
    lemma_and_further(p, predicate, n);
    reveal_strlit(" FROM \"__merge_src\" WHERE NOT EXISTS (SELECT 1 FROM \"");
    reveal_strlit(" FROM ");
    reveal_strlit("__merge_src");
    reveal_strlit("\"");
    reveal_strlit(" WHERE ");
    reveal_strlit("NOT ");
    reveal_strlit("EXISTS (SELECT 1 FROM ");
    reveal_strlit("\" WHERE (");
    reveal_strlit("(");
    reveal_strlit(")");
    reveal_strlit("))");
    assert(" FROM \"__merge_src\" WHERE NOT EXISTS (SELECT 1 FROM \""@ + n.target + "\" WHERE ("@
        + on + "))"@ =~= " FROM "@ + source_rows() + " WHERE "@ + p.text);
    assert(" FROM "@ + source_rows() + " WHERE "@ + p.text + more =~= " FROM "@ + source_rows()
        + " WHERE "@ + (p.text + more));
}

proof fn lemma_insert_text(
    columns: Seq<Seq<char>>,
    rows: Seq<TextRowView>,
    predicate: Option<Seq<char>>,
    on: Seq<char>,
    n: MergeNamesView,
)
    ensures
        ({
            let target = meaning::quoted_name(n.target);
            let p = meaning::not(meaning::exists_in(target, meaning::paren(meaning::other(on))));
            let q = meaning::select_where(
                inserted_list(rows, n),
                meaning::table(source_rows()),
                and_further(p, predicate, n),
            );
            insert_step(columns, rows, on, further_condition(predicate, n), n)
                == MergeStepView::Insert {
                insert_sql: "INSERT INTO "@ + target + if columns.len() == 0 {
                    Seq::empty()
                } else {
                    " ("@ + joined(columns, ", "@) + ")"@
                } + " "@ + q.text,
            }
        }),
{
    let target = meaning::quoted_name(n.target);
    let list = inserted_list(rows, n);
    let more = further_condition(predicate, n);
    let p = meaning::not(meaning::exists_in(target, meaning::paren(meaning::other(on))));
    let whole = and_further(p, predicate, n);
    let cols = if columns.len() == 0 {
        Seq::empty()
    } else {
        " ("@ + joined(columns, ", "@) + ")"@
    };
    let tail = " FROM \"__merge_src\" WHERE NOT EXISTS (SELECT 1 FROM \""@ + n.target
        + "\" WHERE ("@ + on + "))"@ + more;
    lemma_insert_tail(predicate, on, n);
    assert(""@ =~= Seq::<char>::empty()) by {
        reveal_strlit("");
    }
    let head = "INSERT INTO \""@ + n.target + "\""@ + cols + " SELECT "@ + list;
    assert(head + " FROM \"__merge_src\" WHERE NOT EXISTS (SELECT 1 FROM \""@ + n.target
        + "\" WHERE ("@ + on + "))"@ + more =~= head + tail);
    let q = meaning::select_where(list, meaning::table(source_rows()), whole);
    assert(q.text =~= "SELECT "@ + list + tail);
    assert(head + tail =~= "INSERT INTO "@ + target + cols + " "@ + q.text) by {
        reveal_strlit("INSERT INTO \"");
        reveal_strlit("INSERT INTO ");
        reveal_strlit("\"");
        reveal_strlit(" ");
        reveal_strlit(" SELECT ");
        reveal_strlit("SELECT ");
        assert(head =~= "INSERT INTO "@ + target + cols + " "@ + ("SELECT "@ + list));
    }
}

/// Whether a row of the target and a row of the source meet the condition of the statement and the
/// further condition of a clause, seen from the row of the target.
pub open spec fn target_meets(
    w: World,
    on: Seq<char>,
    predicate: Option<Seq<char>>,
    n: MergeNamesView,
    row: Map<Seq<char>, Value>,
    source: Map<Seq<char>, Value>,
) -> bool {
    let s = seq![
        Frame { name: meaning::quoted_name(n.target), row },
        Frame { name: source_rows(), row: source },
    ];
    meaning::holds((w.other)(on, s)) && further_holds(w, predicate, n, s)
}

/// `WHEN MATCHED THEN DELETE`: the rows that stay are exactly those rows of the target that meet the
/// conditions with no row of the source.
pub proof fn law_merge_deletes_what_is_matched(
    cs: Seq<ColumnView>,
    clause: MergeWhenView,
    on: Seq<char>,
    n: MergeNamesView,
    w: World,
)
    requires
        clause.matched == MergeMatch::Matched,
        clause.action == MergeDoView::Delete,
    ensures
        ({
            let target = meaning::quoted_name(n.target);
            let source = source_rows();
            let q = meaning::select_where(
                target + ".*"@,
                meaning::table(target),
                meaning::not(
                    meaning::exists_in(
                        source,
                        and_further(
                            meaning::paren(meaning::other(on)),
                            clause.predicate,
                            n,
                        ),
                    ),
                ),
            );
            &&& step_of(cs, clause, on, n) == Some(MergeStepView::Delete { keep_sql: q.text })
            &&& (q.rows)(w) == meaning::single(
                target,
                meaning::rows_of(w, target).filter(
                    |r|
                        forall|k: int|
                            0 <= k < meaning::rows_of(w, source).len() ==> !target_meets(
                                w,
                                on,
                                clause.predicate,
                                n,
                                r,
                                #[trigger] meaning::rows_of(w, source)[k],
                            ),
                ),
            )
        }),
{
    let target = meaning::quoted_name(n.target);
    let source = source_rows();
    let inner = and_further(meaning::paren(meaning::other(on)), clause.predicate, n);
    lemma_and_further(meaning::paren(meaning::other(on)), clause.predicate, n);
    let p = meaning::not(meaning::exists_in(source, inner));
    let srows = meaning::rows_of(w, source);
    let trows = meaning::rows_of(w, target);
    let f = |r|
        forall|k: int|
            0 <= k < srows.len() ==> !target_meets(
                w,
                on,
                clause.predicate,
                n,
                r,
                #[trigger] srows[k],
            );
    assert forall|i: int| 0 <= i < trows.len() implies meaning::holds(
        (p.value)(w, seq![Frame { name: target, row: #[trigger] trows[i] }]),
    ) == f(trows[i]) by {
        let s = seq![Frame { name: target, row: trows[i] }];
        assert forall|k: int| 0 <= k < srows.len() implies meaning::holds(
            (inner.value)(w, s.push(Frame { name: source, row: #[trigger] srows[k] })),
        ) == target_meets(w, on, clause.predicate, n, trows[i], srows[k]) by {
            assert(s.push(Frame { name: source, row: srows[k] }) =~= seq![
                Frame { name: target, row: trows[i] },
                Frame { name: source, row: srows[k] },
            ]);
        }
    }
    meaning::lemma_kept_single(w, target, trows, p, f);
    assert(f =~= |r|
        forall|k: int|
            0 <= k < meaning::rows_of(w, source).len() ==> !target_meets(
                w,
                on,
                clause.predicate,
                n,
                r,
                #[trigger] meaning::rows_of(w, source)[k],
            ));
    reveal_strlit("SELECT \"");
    reveal_strlit("SELECT ");
    reveal_strlit("\"");
    reveal_strlit(".*");
    reveal_strlit("\".* FROM \"");
    reveal_strlit(" FROM ");
    reveal_strlit("\" WHERE NOT EXISTS (SELECT 1 FROM \"__merge_src\" WHERE (");
    reveal_strlit(" WHERE ");
    reveal_strlit("NOT ");
    reveal_strlit("EXISTS (SELECT 1 FROM ");
    reveal_strlit("__merge_src");
    reveal_strlit("(");
    reveal_strlit(")");
    let more = further_condition(clause.predicate, n);
    assert("SELECT \""@ + n.target + "\".* FROM \""@ + n.target
        + "\" WHERE NOT EXISTS (SELECT 1 FROM \"__merge_src\" WHERE ("@ + on + ")"@ + more + ")"@
        =~= meaning::select_where(target + ".*"@, meaning::table(target), p).text);
}

/// The column that marks the rows of the target that are matched.
pub open spec fn match_mark() -> Seq<char> {
    "__merge_src_match"@
}

/// What a column of the target is written anew from, as a phrase, given the value that it is set to,
/// if any.
pub open spec fn matched_phrase(c: ColumnView, value: Option<Seq<char>>, n: MergeNamesView) -> Phrase {
    let old = meaning::column_of(meaning::quoted_name(n.target), c.name);
    match value {
        Some(v) => meaning::named(
            meaning::if_else(
                meaning::is_not_null(meaning::column(match_mark())),
                meaning::cast(meaning::other(resolved(v, n)), c.data_type),
                old,
            ),
            c.name,
        ),
        None => old,
    }
}

/// The phrases of all columns.
pub open spec fn matched_phrases(
    cs: Seq<ColumnView>,
    assignments: Seq<ParsedAssignmentView>,
    n: MergeNamesView,
) -> Seq<Phrase> {
    Seq::new(
        cs.len(),
        |i: int|
            matched_phrase(
                cs[i],
                merged_value(assignments, cs[i].name, assignments.len()),
                n,
            ),
    )
}

proof fn lemma_matched_text(c: ColumnView, value: Option<Seq<char>>, n: MergeNamesView)
    ensures
        matched_column(c, value, n) == matched_phrase(c, value, n).text,
{
    reveal_strlit("\"");
    reveal_strlit(".");
    reveal_strlit("\".\"");
    let old = meaning::column_of(meaning::quoted_name(n.target), c.name);
    assert("\""@ + n.target + "\".\""@ + c.name + "\""@ =~= old.text);
    if value is Some {
        let v = resolved(value->0, n);
        let p = meaning::is_not_null(meaning::column(match_mark()));
        let q = meaning::cast(meaning::other(v), c.data_type);
        meaning::lemma_single_case(p, q, old);
        reveal_strlit("CASE WHEN \"__merge_src_match\" IS NOT NULL THEN CAST(");
        reveal_strlit("CASE WHEN ");
        reveal_strlit("__merge_src_match");
        reveal_strlit(" IS NOT NULL");
        reveal_strlit(" THEN ");
        reveal_strlit("CAST(");
        reveal_strlit(" AS ");
        reveal_strlit(")");
        reveal_strlit(") ELSE \"");
        reveal_strlit(" ELSE ");
        reveal_strlit("\" END AS \"");
        reveal_strlit(" END");
        assert(matched_column(c, value, n) =~= matched_phrase(c, value, n).text);
    }
}

proof fn lemma_merged_value(assignments: Seq<ParsedAssignmentView>, col: Seq<char>, k: int, m: nat)
    requires
        0 <= k < m <= assignments.len(),
        trim_matches_text(assignments[k].text, '"') == col,
        forall|l: int|
            k < l < m ==> trim_matches_text((#[trigger] assignments[l]).text, '"') != col,
    ensures
        merged_value(assignments, col, m) == Some(assignments[k].value),
    decreases m,
{
    if k < m - 1 {
        lemma_merged_value(assignments, col, k, (m - 1) as nat);
    }
}

proof fn lemma_no_merged_value(assignments: Seq<ParsedAssignmentView>, col: Seq<char>, m: nat)
    requires
        m <= assignments.len(),
        forall|l: int|
            0 <= l < assignments.len() ==> trim_matches_text((#[trigger] assignments[l]).text, '"')
                != col,
    ensures
        merged_value(assignments, col, m) is None,
    decreases m,
{
    if m > 0 {
        lemma_no_merged_value(assignments, col, (m - 1) as nat);
    }
}

/// What stands behind `FROM` when the target is written anew.
pub open spec fn matched_source(on: Seq<char>, predicate: Option<Seq<char>>, n: MergeNamesView) -> meaning::Source {
    meaning::left_join_marked(
        meaning::table(meaning::quoted_name(n.target)),
        source_rows(),
        match_mark(),
        and_further(meaning::paren(meaning::other(on)), predicate, n),
    )
}

/// `WHEN MATCHED THEN UPDATE`: the target is written anew from its own rows. A row that meets the
/// conditions with no row of the source is written back once, as it was. A row that meets them with a
/// row of the source is written with the values that the last assignment to each column has there,
/// brought to the type of the column; a column that is not assigned to stays.
pub proof fn law_merge_updates_what_is_matched(
    cs: Seq<ColumnView>,
    clause: MergeWhenView,
    assignments: Seq<ParsedAssignmentView>,
    on: Seq<char>,
    n: MergeNamesView,
    w: World,
    k: int,
    c: int,
)
    requires
        clause.matched == MergeMatch::Matched,
        clause.action == (MergeDoView::Update { assignments }),
        n.target != "__merge_src"@,
        forall|i: int|
            0 <= i < meaning::rows_of(w, meaning::quoted_name(n.target)).len()
                ==> !(#[trigger] meaning::rows_of(
                w,
                meaning::quoted_name(n.target),
            )[i]).dom().contains(match_mark()),
        0 <= k < (matched_source(on, clause.predicate, n).rows)(w).len(),
        0 <= c < cs.len(),
    ensures
        ({
            let target = meaning::quoted_name(n.target);
            let trows = meaning::rows_of(w, target);
            let srows = meaning::rows_of(w, source_rows());
            let columns = matched_phrases(cs, assignments, n);
            let q = meaning::select(
                meaning::list_of(columns),
                matched_source(on, clause.predicate, n),
            );
            let s = (q.rows)(w)[k];
            let written = (columns[c].value)(w, s);
            let col = cs[c];
            &&& step_of(cs, clause, on, n) matches Some(MergeStepView::Update { rewrite_sql, .. })
            &&& rewrite_sql == q.text
            &&& trows.contains(s[0].row)
            &&& !s[1].row.dom().contains(match_mark()) ==> {
                &&& written == meaning::cell_of(s[0].row, col.name)
                &&& forall|j: int|
                    0 <= j < srows.len() ==> !target_meets(
                        w,
                        on,
                        clause.predicate,
                        n,
                        s[0].row,
                        meaning::marked(#[trigger] srows[j], match_mark()),
                    )
            }
            &&& s[1].row.dom().contains(match_mark()) ==> target_meets(
                w,
                on,
                clause.predicate,
                n,
                s[0].row,
                s[1].row,
            ) && exists|j: int|
                0 <= j < srows.len() && s[1].row == meaning::marked(
                    #[trigger] srows[j],
                    match_mark(),
                )
            &&& s[1].row.dom().contains(match_mark()) ==> {
                &&& (forall|l: int|
                    0 <= l < assignments.len() ==> trim_matches_text(
                        (#[trigger] assignments[l]).text,
                        '"',
                    ) != col.name) ==> written == meaning::cell_of(s[0].row, col.name)
                &&& forall|a: int|
                    0 <= a < assignments.len() && trim_matches_text(
                        (#[trigger] assignments[a]).text,
                        '"',
                    ) == col.name && (forall|l: int|
                        a < l < assignments.len() ==> trim_matches_text(
                            (#[trigger] assignments[l]).text,
                            '"',
                        ) != col.name) ==> written == (w.cast)(
                        (w.other)(resolved(assignments[a].value, n), s),
                        col.data_type,
                    )
            }
        }),
{
    let target = meaning::quoted_name(n.target);
    let source = source_rows();
    let trows = meaning::rows_of(w, target);
    let srows = meaning::rows_of(w, source);
    let columns = matched_phrases(cs, assignments, n);
    let p = and_further(meaning::paren(meaning::other(on)), clause.predicate, n);
    lemma_and_further(meaning::paren(meaning::other(on)), clause.predicate, n);
    lemma_update_text(cs, assignments, clause.predicate, on, n);
    let from = matched_source(on, clause.predicate, n);
    let left = meaning::single(target, trows);
    let marks = Seq::new(srows.len(), |i: int| meaning::marked(srows[i], match_mark()));
    let right = meaning::frames(source, marks);
    assert((from.rows)(w) == meaning::left_rows(w, left, source, right, p, left.len()));
    let s = (from.rows)(w)[k];
    let i = meaning::lemma_left_rows_origin(w, left, source, right, p, left.len(), k);
    let empty = Frame { name: source, row: Map::empty() };
    assert(left[i] == seq![Frame { name: target, row: trows[i] }]);
    assert(target != source) by {
        reveal_strlit("\"");
        if target == source {
            assert(n.target =~= target.subrange(1, target.len() - 1));
            assert("__merge_src"@ =~= source.subrange(1, source.len() - 1));
        }
    }
    assert forall|j: int| 0 <= j < srows.len() implies meaning::holds(
        (p.value)(w, left[i].push(#[trigger] right[j])),
    ) == target_meets(
        w,
        on,
        clause.predicate,
        n,
        trows[i],
        meaning::marked(srows[j], match_mark()),
    ) && right[j] == (Frame { name: source, row: meaning::marked(srows[j], match_mark()) }) by {
        assert(left[i].push(right[j]) =~= seq![
            Frame { name: target, row: trows[i] },
            Frame { name: source, row: meaning::marked(srows[j], match_mark()) },
        ]);
    }
    assert(s.len() == 2 && s[0] == (Frame { name: target, row: trows[i] }) && s[1].name == source);
    assert(s.drop_last() =~= seq![Frame { name: target, row: trows[i] }]);
    meaning::lemma_single_column(target, trows[i], match_mark());
    reveal_with_fuel(meaning::seen_column, 2);
    reveal_with_fuel(meaning::seen_of, 3);
    let value = merged_value(assignments, cs[c].name, assignments.len());
    let old = meaning::column_of(target, cs[c].name);
    assert((old.value)(w, s) == meaning::cell_of(trows[i], cs[c].name));
    if value is Some {
        meaning::lemma_single_case(
            meaning::is_not_null(meaning::column(match_mark())),
            meaning::cast(meaning::other(resolved(value->0, n)), cs[c].data_type),
            old,
        );
    }
    if forall|l: int|
        0 <= l < assignments.len() ==> trim_matches_text((#[trigger] assignments[l]).text, '"')
            != cs[c].name {
        lemma_no_merged_value(assignments, cs[c].name, assignments.len());
    }
    assert forall|a: int|
        0 <= a < assignments.len() && trim_matches_text((#[trigger] assignments[a]).text, '"')
            == cs[c].name && (forall|l: int|
            a < l < assignments.len() ==> trim_matches_text((#[trigger] assignments[l]).text, '"')
                != cs[c].name) implies value == Some(assignments[a].value) by {
        lemma_merged_value(assignments, cs[c].name, a, assignments.len());
    }
    assert(s[0].row == trows[i]);
    assert(trows.contains(s[0].row));
    if s == left[i].push(empty) && forall|j: int|
        0 <= j < right.len() ==> !meaning::holds((p.value)(w, left[i].push(#[trigger] right[j]))) {
        assert(s[1] == empty);
        assert forall|j: int| 0 <= j < srows.len() implies !target_meets(
            w,
            on,
            clause.predicate,
            n,
            s[0].row,
            meaning::marked(#[trigger] srows[j], match_mark()),
        ) by {
            assert(!meaning::holds((p.value)(w, left[i].push(right[j]))));
        }
    } else {
        let j = choose|j: int|
            0 <= j < right.len() && s == left[i].push(#[trigger] right[j]) && meaning::holds(
                (p.value)(w, s),
            );
        assert(s[1] == right[j]);
        assert(s[1].row == meaning::marked(srows[j], match_mark()));
    }
}

proof fn lemma_update_text(
    cs: Seq<ColumnView>,
    assignments: Seq<ParsedAssignmentView>,
    predicate: Option<Seq<char>>,
    on: Seq<char>,
    n: MergeNamesView,
)
    ensures
        ({
            let target = meaning::quoted_name(n.target);
            let p = and_further(meaning::paren(meaning::other(on)), predicate, n);
            let more = further_condition(predicate, n);
            update_step(cs, assignments, on, more, n) == MergeStepView::Update {
                count_sql: meaning::select(
                    meaning::count_list(),
                    meaning::inner_join(meaning::table(target), source_rows(), p),
                ).text,
                rewrite_sql: meaning::select(
                    meaning::list_of(matched_phrases(cs, assignments, n)),
                    matched_source(on, predicate, n),
                ).text,
            }
        }),
{
    let target = meaning::quoted_name(n.target);
    let p = and_further(meaning::paren(meaning::other(on)), predicate, n);
    let more = further_condition(predicate, n);
    let columns = matched_phrases(cs, assignments, n);
    lemma_and_further(meaning::paren(meaning::other(on)), predicate, n);
    assert forall|i: int| 0 <= i < cs.len() implies #[trigger] matched_columns(
        cs,
        assignments,
        n,
    )[i] == columns[i].text by {
        lemma_matched_text(
            cs[i],
            merged_value(assignments, cs[i].name, assignments.len()),
            n,
        );
    }
    assert(matched_columns(cs, assignments, n) =~= meaning::phrase_texts(columns));
    let list = meaning::list_of(columns);
    reveal_strlit("SELECT COUNT(*) AS c FROM \"");
    reveal_strlit("SELECT ");
    reveal_strlit("COUNT(*) AS c");
    reveal_strlit(" FROM ");
    reveal_strlit(" FROM \"");
    reveal_strlit("\"");
    reveal_strlit("\" INNER JOIN \"__merge_src\" ON (");
    reveal_strlit(" INNER JOIN ");
    reveal_strlit("__merge_src");
    reveal_strlit("__merge_src_match");
    reveal_strlit(" ON ");
    reveal_strlit("(");
    reveal_strlit(")");
    assert("SELECT COUNT(*) AS c FROM \""@ + n.target + "\" INNER JOIN \"__merge_src\" ON ("@ + on
        + ")"@ + more =~= meaning::select(
        meaning::count_list(),
        meaning::inner_join(meaning::table(target), source_rows(), p),
    ).text);
    reveal_strlit(
        "\" LEFT JOIN (SELECT *, TRUE AS \"__merge_src_match\" FROM \"__merge_src\") AS \"__merge_src\" ON (",
    );
    reveal_strlit(" LEFT JOIN (SELECT *, ");
    reveal_strlit("TRUE");
    reveal_strlit(" AS ");
    reveal_strlit(") AS ");
    assert("SELECT "@ + list + " FROM \""@ + n.target
        + "\" LEFT JOIN (SELECT *, TRUE AS \"__merge_src_match\" FROM \"__merge_src\") AS \"__merge_src\" ON ("@
        + on + ")"@ + more =~= meaning::select(list, matched_source(on, predicate, n)).text);
}

/// An update of matched rows counts what it changes: there is something to count exactly where a row
/// of the target meets the conditions with a row of the source.
pub proof fn law_merge_counts_what_is_matched(
    cs: Seq<ColumnView>,
    clause: MergeWhenView,
    assignments: Seq<ParsedAssignmentView>,
    on: Seq<char>,
    n: MergeNamesView,
    w: World,
)
    requires
        clause.matched == MergeMatch::Matched,
        clause.action == (MergeDoView::Update { assignments }),
    ensures
        ({
            let target = meaning::quoted_name(n.target);
            let trows = meaning::rows_of(w, target);
            let srows = meaning::rows_of(w, source_rows());
            let q = meaning::select(
                meaning::count_list(),
                meaning::inner_join(
                    meaning::table(target),
                    source_rows(),
                    and_further(meaning::paren(meaning::other(on)), clause.predicate, n),
                ),
            );
            &&& step_of(cs, clause, on, n) matches Some(MergeStepView::Update { count_sql, .. })
            &&& count_sql == q.text
            &&& (q.rows)(w).len() > 0 <==> exists|i: int, j: int|
                0 <= i < trows.len() && 0 <= j < srows.len() && target_meets(
                    w,
                    on,
                    clause.predicate,
                    n,
                    #[trigger] trows[i],
                    #[trigger] srows[j],
                )
        }),
{
    let target = meaning::quoted_name(n.target);
    let trows = meaning::rows_of(w, target);
    let srows = meaning::rows_of(w, source_rows());
    let p = and_further(meaning::paren(meaning::other(on)), clause.predicate, n);
    lemma_and_further(meaning::paren(meaning::other(on)), clause.predicate, n);
    lemma_update_text(cs, assignments, clause.predicate, on, n);
    let left = meaning::single(target, trows);
    let right = meaning::frames(source_rows(), srows);
    meaning::lemma_inner_rows(w, left, right, p, left.len());
    assert forall|i: int, j: int|
        0 <= i < trows.len() && 0 <= j < srows.len() implies meaning::holds(
        (p.value)(w, (#[trigger] left[i]).push(#[trigger] right[j])),
    ) == target_meets(w, on, clause.predicate, n, trows[i], srows[j]) by {
        assert(left[i].push(right[j]) =~= seq![
            Frame { name: target, row: trows[i] },
            Frame { name: source_rows(), row: srows[j] },
        ]);
    }
    if exists|i: int, j: int|
        0 <= i < trows.len() && 0 <= j < srows.len() && target_meets(
            w,
            on,
            clause.predicate,
            n,
            #[trigger] trows[i],
            #[trigger] srows[j],
        ) {
        let (i, j) = choose|i: int, j: int|
            0 <= i < trows.len() && 0 <= j < srows.len() && target_meets(
                w,
                on,
                clause.predicate,
                n,
                #[trigger] trows[i],
                #[trigger] srows[j],
            );
        assert(meaning::holds((p.value)(w, left[i].push(right[j]))));
    }
    if exists|i: int, j: int|
        0 <= i < left.len() && 0 <= j < right.len() && meaning::holds(
            (p.value)(w, (#[trigger] left[i]).push(#[trigger] right[j])),
        ) {
        let (i, j) = choose|i: int, j: int|
            0 <= i < left.len() && 0 <= j < right.len() && meaning::holds(
                (p.value)(w, (#[trigger] left[i]).push(#[trigger] right[j])),
            );
        assert(target_meets(w, on, clause.predicate, n, trows[i], srows[j]));
    }
}

/// Every row of the target is there when it is written anew, and every pair of rows that meets the
/// conditions is.
pub proof fn law_merge_update_loses_no_row(
    on: Seq<char>,
    predicate: Option<Seq<char>>,
    n: MergeNamesView,
    w: World,
    i: int,
)
    requires
        0 <= i < meaning::rows_of(w, meaning::quoted_name(n.target)).len(),
    ensures
        exists|k: int|
            0 <= k < (matched_source(on, predicate, n).rows)(w).len() && (
            #[trigger] (matched_source(on, predicate, n).rows)(w)[k])[0].row == meaning::rows_of(
                w,
                meaning::quoted_name(n.target),
            )[i],
{
    let target = meaning::quoted_name(n.target);
    let source = source_rows();
    let trows = meaning::rows_of(w, target);
    let srows = meaning::rows_of(w, source);
    let p = and_further(meaning::paren(meaning::other(on)), predicate, n);
    let left = meaning::single(target, trows);
    let marks = Seq::new(srows.len(), |i: int| meaning::marked(srows[i], match_mark()));
    let right = meaning::frames(source, marks);
    let rows = (matched_source(on, predicate, n).rows)(w);
    assert(rows == meaning::left_rows(w, left, source, right, p, left.len()));
    let k = meaning::lemma_left_rows_cover(w, left, source, right, p, left.len(), i);
    assert(left[i] == seq![Frame { name: target, row: trows[i] }]);
    assert(rows[k][0].row == trows[i]);
}

/// The steps of a `MERGE` are those of its clauses, in order: a clause that has a step has it behind
/// those of the clauses before it.
pub proof fn law_merge_steps_follow_the_clauses(
    cs: Seq<ColumnView>,
    whens: Seq<MergeWhenView>,
    on: Seq<char>,
    n: MergeNamesView,
    k: int,
)
    requires
        0 <= k < whens.len(),
    ensures
        step_of(cs, whens[k], on, n) matches Some(s) ==> merge_steps(
            cs,
            whens,
            on,
            n,
            whens.len(),
        ).len() > merge_steps(cs, whens, on, n, k as nat).len() && merge_steps(
            cs,
            whens,
            on,
            n,
            whens.len(),
        )[merge_steps(cs, whens, on, n, k as nat).len() as int] == s,
        merge_steps(cs, whens, on, n, 0).len() == 0,
{
    lemma_steps_stay(cs, whens, on, n, (k + 1) as nat, whens.len());
}

proof fn lemma_steps_stay(
    cs: Seq<ColumnView>,
    whens: Seq<MergeWhenView>,
    on: Seq<char>,
    n: MergeNamesView,
    a: nat,
    b: nat,
)
    requires
        a <= b <= whens.len(),
    ensures
        merge_steps(cs, whens, on, n, a).len() <= merge_steps(cs, whens, on, n, b).len(),
        forall|i: int|
            0 <= i < merge_steps(cs, whens, on, n, a).len() ==> merge_steps(cs, whens, on, n, a)[i]
                == #[trigger] merge_steps(cs, whens, on, n, b)[i],
    decreases b,
{
    if a < b {
        lemma_steps_stay(cs, whens, on, n, a, (b - 1) as nat);
    }
}

/// In the expressions of a `MERGE` the alias of the target stands for the target and the name of the
/// source for the rows that were read from it. An expression that speaks of neither stays.
pub proof fn law_aliases_are_resolved(
    e: Seq<char>,
    n: MergeNamesView,
    target_alias: Seq<char>,
    source_name: Seq<char>,
)
    requires
        n.target_alias == Some(target_alias),
        n.source_name == Some(source_name),
        forall|i: int|
            !#[trigger] occurs_at("\""@ + n.target + "\"."@, source_name + "."@, i),
        forall|i: int| !#[trigger] occurs_at(source_name + "."@, target_alias + "."@, i),
    ensures
        resolved(target_alias + "."@, n) == meaning::quoted_name(n.target) + "."@,
        resolved(source_name + "."@, n) == source_rows() + "."@,
        (forall|i: int| !#[trigger] occurs_at(e, target_alias + "."@, i)) && (forall|i: int|
            !#[trigger] occurs_at(e, source_name + "."@, i)) ==> resolved(e, n) == e,
{
    reveal_strlit(".");
    reveal_strlit("\"");
    reveal_strlit("\".");
    reveal_strlit("\"__merge_src\".");
    reveal_strlit("__merge_src");
    let a = target_alias + "."@;
    let b = source_name + "."@;
    let target = "\""@ + n.target + "\"."@;
    let source = "\"__merge_src\"."@;
    assert(target =~= meaning::quoted_name(n.target) + "."@);
    assert(source =~= source_rows() + "."@);
    law_pattern_alone_is_replaced(a, target);
    law_text_without_the_pattern_stays(target, b, source);
    law_text_without_the_pattern_stays(b, a, target);
    law_pattern_alone_is_replaced(b, source);
    if (forall|i: int| !#[trigger] occurs_at(e, a, i)) && (forall|i: int|
        !#[trigger] occurs_at(e, b, i)) {
        law_text_without_the_pattern_stays(e, a, target);
        law_text_without_the_pattern_stays(e, b, source);
    }
}

/// A `MERGE` goes into a table that is there, and takes all rows of a table or of a query. A source that
/// is a table goes by its alias, or else by its name.
pub proof fn law_merge_names(c: CatalogState, target: ParsedRelationView, source: ParsedRelationView)
    ensures
        merge_names(c, target, source) matches Ok(n) ==> {
            &&& c.tables.dom().contains(n.target)
            &&& target matches ParsedRelationView::Table { name, alias } && n.target
                == trim_matches_text(name, '"') && n.target_alias == alias
            &&& source matches ParsedRelationView::Query { text, alias } ==> n.source_sql == text
                && n.source_name == alias
            &&& source matches ParsedRelationView::Table { name, alias } ==> n.source_sql
                == meaning::select("*"@, meaning::table(name)).text && n.source_name == Some(
                match alias {
                    Some(a) => a,
                    None => trim_matches_text(name, '"'),
                },
            )
        },
        !(target is Table) ==> merge_names(c, target, source) is Err,
        source is Other ==> merge_names(c, target, source) is Err,
        target matches ParsedRelationView::Table { name, .. } ==> (!(source is Other) && c.tables.dom().contains(
            trim_matches_text(name, '"'),
        ) ==> merge_names(c, target, source) is Ok),
{
    reveal_strlit("SELECT * FROM ");
    reveal_strlit("SELECT ");
    reveal_strlit("*");
    reveal_strlit(" FROM ");
    if let ParsedRelationView::Table { name, .. } = source {
        assert("SELECT * FROM "@ + name =~= meaning::select("*"@, meaning::table(name)).text);
    }
}

} // verus!
