//! Statements as the SQL parser reads them.
//!
//! What the engine reads of a statement is taken out of the parser's tree as plain texts and numbers;
//! everything else in this crate works on those.
use vstd::prelude::*;
use vstd::string::*;

use crate::dup::{opt_view, views};
use crate::json::{find_member, json_view, member_of, Json, JsonView};
use crate::sequences::{SequenceOption, SequenceOptionView};
use crate::text::{
    concat3, contains, contains_seq, join, joined, opt_text, texts, trim_matches, trim_matches_text,
    upper_text,
};
use crate::tree::{
    find_list, first_tree, flag_at, is_named, is_variant_of, list_at, lists, optional_at, print_as,
    print_at, print_list, print_list_at, print_optional, printed, printed_at, printed_list,
    printed_list_at, read_first, read_flag, read_script, script, Printer,
};

verus! {

// ---------------------------------------------------------------------------
// What is read of a statement
// ---------------------------------------------------------------------------

/// The kind of object that `DROP` names.
#[derive(Clone, Copy, PartialEq, Eq, Structural)]
pub enum DropObject {
    Table,
    Index,
    View,
    Sequence,
    Other,
}

/// Which rows a `WHEN` clause of `MERGE` is about.
#[derive(Clone, Copy, PartialEq, Eq, Structural)]
pub enum MergeMatch {
    Matched,
    NotMatched,
    NotMatchedByTarget,
    NotMatchedBySource,
}

/// The views of the items of an optional vector.
pub open spec fn opt_views<T: View>(o: Option<Vec<T>>) -> Option<Seq<T::V>> {
    match o {
        Some(v) => Some(views(v@)),
        None => None,
    }
}

/// The head of `CREATE TABLE`.
pub struct TableHead {
    pub name: String,
    /// The whole statement as the parser prints it.
    pub text: String,
    pub if_not_exists: bool,
    pub partition_by: Option<String>,
    /// The query of `CREATE TABLE ... AS`.
    pub query: Option<String>,
}

/// What a [`TableHead`] says.
pub struct TableHeadView {
    pub name: Seq<char>,
    pub text: Seq<char>,
    pub if_not_exists: bool,
    pub partition_by: Option<Seq<char>>,
    pub query: Option<Seq<char>>,
}

impl View for TableHead {
    type V = TableHeadView;

    open spec fn view(&self) -> TableHeadView {
        TableHeadView {
            name: self.name@,
            text: self.text@,
            if_not_exists: self.if_not_exists,
            partition_by: opt_text(self.partition_by),
            query: opt_text(self.query),
        }
    }
}

/// A column of `CREATE TABLE` or `ADD COLUMN`.
pub struct ParsedColumn {
    pub name: String,
    pub data_type: String,
    /// For each option of the column, whether it is `NOT NULL`.
    pub not_null: Vec<bool>,
}

/// What a [`ParsedColumn`] says.
pub struct ParsedColumnView {
    pub name: Seq<char>,
    pub data_type: Seq<char>,
    pub not_null: Seq<bool>,
}

impl View for ParsedColumn {
    type V = ParsedColumnView;

    open spec fn view(&self) -> ParsedColumnView {
        ParsedColumnView {
            name: self.name@,
            data_type: self.data_type@,
            not_null: self.not_null@,
        }
    }
}

/// A table constraint of `CREATE TABLE`.
pub enum ParsedConstraint {
    PrimaryKey { columns: Vec<String> },
    Unique { name: Option<String>, columns: Vec<String> },
    Check { name: Option<String>, expr: String },
    ForeignKey {
        name: Option<String>,
        columns: Vec<String>,
        ref_table: String,
        ref_columns: Vec<String>,
        on_delete: Option<String>,
        on_update: Option<String>,
    },
    Other,
}

/// What a [`ParsedConstraint`] says.
pub enum ParsedConstraintView {
    PrimaryKey { columns: Seq<Seq<char>> },
    Unique { name: Option<Seq<char>>, columns: Seq<Seq<char>> },
    Check { name: Option<Seq<char>>, expr: Seq<char> },
    ForeignKey {
        name: Option<Seq<char>>,
        columns: Seq<Seq<char>>,
        ref_table: Seq<char>,
        ref_columns: Seq<Seq<char>>,
        on_delete: Option<Seq<char>>,
        on_update: Option<Seq<char>>,
    },
    Other,
}

impl View for ParsedConstraint {
    type V = ParsedConstraintView;

    open spec fn view(&self) -> ParsedConstraintView {
        match self {
            ParsedConstraint::PrimaryKey { columns } => ParsedConstraintView::PrimaryKey {
                columns: texts(columns@),
            },
            ParsedConstraint::Unique { name, columns } => ParsedConstraintView::Unique {
                name: opt_text(*name),
                columns: texts(columns@),
            },
            ParsedConstraint::Check { name, expr } => ParsedConstraintView::Check {
                name: opt_text(*name),
                expr: expr@,
            },
            ParsedConstraint::ForeignKey {
                name,
                columns,
                ref_table,
                ref_columns,
                on_delete,
                on_update,
            } => ParsedConstraintView::ForeignKey {
                name: opt_text(*name),
                columns: texts(columns@),
                ref_table: ref_table@,
                ref_columns: texts(ref_columns@),
                on_delete: opt_text(*on_delete),
                on_update: opt_text(*on_update),
            },
            ParsedConstraint::Other => ParsedConstraintView::Other,
        }
    }
}

/// A column of `CREATE INDEX`.
pub struct ParsedIndexColumn {
    pub expr: String,
    pub asc: Option<bool>,
}

/// What a [`ParsedIndexColumn`] says.
pub struct ParsedIndexColumnView {
    pub expr: Seq<char>,
    pub asc: Option<bool>,
}

impl View for ParsedIndexColumn {
    type V = ParsedIndexColumnView;

    open spec fn view(&self) -> ParsedIndexColumnView {
        ParsedIndexColumnView {
            expr: self.expr@,
            asc: self.asc,
        }
    }
}

/// `CREATE INDEX`.
pub struct IndexHead {
    pub name: Option<String>,
    pub table: String,
    pub text: String,
    pub if_not_exists: bool,
    pub columns: Vec<ParsedIndexColumn>,
}

/// What an [`IndexHead`] says.
pub struct IndexHeadView {
    pub name: Option<Seq<char>>,
    pub table: Seq<char>,
    pub text: Seq<char>,
    pub if_not_exists: bool,
    pub columns: Seq<ParsedIndexColumnView>,
}

impl View for IndexHead {
    type V = IndexHeadView;

    open spec fn view(&self) -> IndexHeadView {
        IndexHeadView {
            name: opt_text(self.name),
            table: self.table@,
            text: self.text@,
            if_not_exists: self.if_not_exists,
            columns: views(self.columns@),
        }
    }
}

/// `CREATE SEQUENCE`.
pub struct SequenceHead {
    pub name: String,
    pub if_not_exists: bool,
    pub options: Vec<SequenceOption>,
}

/// What a [`SequenceHead`] says.
pub struct SequenceHeadView {
    pub name: Seq<char>,
    pub if_not_exists: bool,
    pub options: Seq<SequenceOptionView>,
}

impl View for SequenceHead {
    type V = SequenceHeadView;

    open spec fn view(&self) -> SequenceHeadView {
        SequenceHeadView {
            name: self.name@,
            if_not_exists: self.if_not_exists,
            options: views(self.options@),
        }
    }
}

/// `DROP` of an object.
pub struct DropHead {
    pub object: DropObject,
    pub names: Vec<String>,
    pub if_exists: bool,
}

/// What a [`DropHead`] says.
pub struct DropHeadView {
    pub object: DropObject,
    pub names: Seq<Seq<char>>,
    pub if_exists: bool,
}

impl View for DropHead {
    type V = DropHeadView;

    open spec fn view(&self) -> DropHeadView {
        DropHeadView {
            object: self.object,
            names: texts(self.names@),
            if_exists: self.if_exists,
        }
    }
}

/// `DELETE`.
pub struct DeleteHead {
    /// The tables of the `FROM` clause.
    pub tables: Vec<String>,
    pub selection: Option<String>,
    pub text: String,
}

/// What a [`DeleteHead`] says.
pub struct DeleteHeadView {
    pub tables: Seq<Seq<char>>,
    pub selection: Option<Seq<char>>,
    pub text: Seq<char>,
}

impl View for DeleteHead {
    type V = DeleteHeadView;

    open spec fn view(&self) -> DeleteHeadView {
        DeleteHeadView {
            tables: texts(self.tables@),
            selection: opt_text(self.selection),
            text: self.text@,
        }
    }
}

/// An assignment of a value to one or more columns.
pub struct ParsedAssignment {
    pub targets: Vec<String>,
    /// All targets as the parser prints them.
    pub text: String,
    pub value: String,
}

/// What a [`ParsedAssignment`] says.
pub struct ParsedAssignmentView {
    pub targets: Seq<Seq<char>>,
    pub text: Seq<char>,
    pub value: Seq<char>,
}

impl View for ParsedAssignment {
    type V = ParsedAssignmentView;

    open spec fn view(&self) -> ParsedAssignmentView {
        ParsedAssignmentView {
            targets: texts(self.targets@),
            text: self.text@,
            value: self.value@,
        }
    }
}

/// The head of `UPDATE`.
pub struct UpdateHead {
    pub table: String,
    pub selection: Option<String>,
}

/// What an [`UpdateHead`] says.
pub struct UpdateHeadView {
    pub table: Seq<char>,
    pub selection: Option<Seq<char>>,
}

impl View for UpdateHead {
    type V = UpdateHeadView;

    open spec fn view(&self) -> UpdateHeadView {
        UpdateHeadView {
            table: self.table@,
            selection: opt_text(self.selection),
        }
    }
}

/// `INSERT`.
pub struct InsertHead {
    pub table: String,
    pub columns: Vec<String>,
    pub source: Option<String>,
    pub text: String,
}

/// What an [`InsertHead`] says.
pub struct InsertHeadView {
    pub table: Seq<char>,
    pub columns: Seq<Seq<char>>,
    pub source: Option<Seq<char>>,
    pub text: Seq<char>,
}

impl View for InsertHead {
    type V = InsertHeadView;

    open spec fn view(&self) -> InsertHeadView {
        InsertHeadView {
            table: self.table@,
            columns: texts(self.columns@),
            source: opt_text(self.source),
            text: self.text@,
        }
    }
}

/// The conflict target of `ON CONFLICT`.
pub enum ParsedTarget {
    Columns(Vec<String>),
    Constraint(String),
}

/// What a [`ParsedTarget`] says.
pub enum ParsedTargetView {
    Columns(Seq<Seq<char>>),
    Constraint(Seq<char>),
}

impl View for ParsedTarget {
    type V = ParsedTargetView;

    open spec fn view(&self) -> ParsedTargetView {
        match self {
            ParsedTarget::Columns(columns) => ParsedTargetView::Columns(texts(columns@)),
            ParsedTarget::Constraint(name) => ParsedTargetView::Constraint(name@),
        }
    }
}

/// What `ON CONFLICT` does.
pub enum ParsedConflict {
    DoNothing,
    DoUpdate { selection: Option<String> },
}

/// What a [`ParsedConflict`] says.
pub enum ParsedConflictView {
    DoNothing,
    DoUpdate { selection: Option<Seq<char>> },
}

impl View for ParsedConflict {
    type V = ParsedConflictView;

    open spec fn view(&self) -> ParsedConflictView {
        match self {
            ParsedConflict::DoNothing => ParsedConflictView::DoNothing,
            ParsedConflict::DoUpdate { selection } => ParsedConflictView::DoUpdate {
                selection: opt_text(*selection),
            },
        }
    }
}

/// The target or the source of `MERGE`.
pub enum ParsedRelation {
    Table { name: String, alias: Option<String> },
    Query { text: String, alias: Option<String> },
    Other { text: String },
}

/// What a [`ParsedRelation`] says.
pub enum ParsedRelationView {
    Table { name: Seq<char>, alias: Option<Seq<char>> },
    Query { text: Seq<char>, alias: Option<Seq<char>> },
    Other { text: Seq<char> },
}

impl View for ParsedRelation {
    type V = ParsedRelationView;

    open spec fn view(&self) -> ParsedRelationView {
        match self {
            ParsedRelation::Table { name, alias } => ParsedRelationView::Table {
                name: name@,
                alias: opt_text(*alias),
            },
            ParsedRelation::Query { text, alias } => ParsedRelationView::Query {
                text: text@,
                alias: opt_text(*alias),
            },
            ParsedRelation::Other { text } => ParsedRelationView::Other {
                text: text@,
            },
        }
    }
}

/// A row of expressions.
pub struct TextRow {
    pub values: Vec<String>,
}

/// What a [`TextRow`] says.
pub struct TextRowView {
    pub values: Seq<Seq<char>>,
}

impl View for TextRow {
    type V = TextRowView;

    open spec fn view(&self) -> TextRowView {
        TextRowView { values: texts(self.values@) }
    }
}

/// The action of a `WHEN` clause of `MERGE`.
pub enum MergeDo {
    Update { assignments: Vec<ParsedAssignment> },
    Delete,
    /// The columns that are named, and the rows of values; no rows where all of the source's row
    /// is inserted.
    Insert { columns: Vec<String>, rows: Vec<TextRow> },
}

/// What a [`MergeDo`] says.
pub enum MergeDoView {
    Update { assignments: Seq<ParsedAssignmentView> },
    Delete,
    Insert { columns: Seq<Seq<char>>, rows: Seq<TextRowView> },
}

impl View for MergeDo {
    type V = MergeDoView;

    open spec fn view(&self) -> MergeDoView {
        match self {
            MergeDo::Update { assignments } => MergeDoView::Update {
                assignments: views(assignments@),
            },
            MergeDo::Delete => MergeDoView::Delete,
            MergeDo::Insert { columns, rows } => MergeDoView::Insert {
                columns: texts(columns@),
                rows: views(rows@),
            },
        }
    }
}

/// A `WHEN` clause of `MERGE`.
pub struct MergeWhen {
    pub matched: MergeMatch,
    pub predicate: Option<String>,
    pub action: MergeDo,
}

/// What a [`MergeWhen`] says.
pub struct MergeWhenView {
    pub matched: MergeMatch,
    pub predicate: Option<Seq<char>>,
    pub action: MergeDoView,
}

impl View for MergeWhen {
    type V = MergeWhenView;

    open spec fn view(&self) -> MergeWhenView {
        MergeWhenView {
            matched: self.matched,
            predicate: opt_text(self.predicate),
            action: self.action@,
        }
    }
}

/// `MERGE`.
pub struct MergeHead {
    pub target: ParsedRelation,
    pub source: ParsedRelation,
    pub on: String,
    pub whens: Vec<MergeWhen>,
}

/// What a [`MergeHead`] says.
pub struct MergeHeadView {
    pub target: ParsedRelationView,
    pub source: ParsedRelationView,
    pub on: Seq<char>,
    pub whens: Seq<MergeWhenView>,
}

impl View for MergeHead {
    type V = MergeHeadView;

    open spec fn view(&self) -> MergeHeadView {
        MergeHeadView {
            target: self.target@,
            source: self.source@,
            on: self.on@,
            whens: views(self.whens@),
        }
    }
}

/// An operation of `ALTER TABLE`.
pub enum AlterOp {
    AddColumn { column: ParsedColumn, if_not_exists: bool },
    DropColumn { names: Vec<String>, if_exists: bool },
    RenameColumn { old_name: String, new_name: String },
    Other { text: String },
}

/// What an [`AlterOp`] says.
pub enum AlterOpView {
    AddColumn { column: ParsedColumnView, if_not_exists: bool },
    DropColumn { names: Seq<Seq<char>>, if_exists: bool },
    RenameColumn { old_name: Seq<char>, new_name: Seq<char> },
    Other { text: Seq<char> },
}

impl View for AlterOp {
    type V = AlterOpView;

    open spec fn view(&self) -> AlterOpView {
        match self {
            AlterOp::AddColumn { column, if_not_exists } => AlterOpView::AddColumn {
                column: column@,
                if_not_exists: *if_not_exists,
            },
            AlterOp::DropColumn { names, if_exists } => AlterOpView::DropColumn {
                names: texts(names@),
                if_exists: *if_exists,
            },
            AlterOp::RenameColumn { old_name, new_name } => AlterOpView::RenameColumn {
                old_name: old_name@,
                new_name: new_name@,
            },
            AlterOp::Other { text } => AlterOpView::Other {
                text: text@,
            },
        }
    }
}

/// The head of `ALTER TABLE`.
pub struct AlterHead {
    pub name: String,
    pub if_exists: bool,
}

/// What an [`AlterHead`] says.
pub struct AlterHeadView {
    pub name: Seq<char>,
    pub if_exists: bool,
}

impl View for AlterHead {
    type V = AlterHeadView;

    open spec fn view(&self) -> AlterHeadView {
        AlterHeadView {
            name: self.name@,
            if_exists: self.if_exists,
        }
    }
}

/// `CREATE VIEW`.
pub struct ViewHead {
    pub name: String,
    pub query: String,
    pub or_replace: bool,
    pub materialized: bool,
}

/// What a [`ViewHead`] says.
pub struct ViewHeadView {
    pub name: Seq<char>,
    pub query: Seq<char>,
    pub or_replace: bool,
    pub materialized: bool,
}

impl View for ViewHead {
    type V = ViewHeadView;

    open spec fn view(&self) -> ViewHeadView {
        ViewHeadView {
            name: self.name@,
            query: self.query@,
            or_replace: self.or_replace,
            materialized: self.materialized,
        }
    }
}

/// `PREPARE`.
pub struct PrepareHead {
    pub name: String,
    pub statement: String,
}

/// What a [`PrepareHead`] says.
pub struct PrepareHeadView {
    pub name: Seq<char>,
    pub statement: Seq<char>,
}

impl View for PrepareHead {
    type V = PrepareHeadView;

    open spec fn view(&self) -> PrepareHeadView {
        PrepareHeadView {
            name: self.name@,
            statement: self.statement@,
        }
    }
}

/// A statement that looks after a table.
pub enum Maintained {
    Analyze { table: String },
    Vacuum { named: Option<String> },
}

/// What a [`Maintained`] says.
pub enum MaintainedView {
    Analyze { table: Seq<char> },
    Vacuum { named: Option<Seq<char>> },
}

impl View for Maintained {
    type V = MaintainedView;

    open spec fn view(&self) -> MaintainedView {
        match self {
            Maintained::Analyze { table } => MaintainedView::Analyze {
                table: table@,
            },
            Maintained::Vacuum { named } => MaintainedView::Vacuum {
                named: opt_text(*named),
            },
        }
    }
}

/// `EXECUTE`.
pub struct ExecuteHead {
    pub name: Option<String>,
    pub parameters: Vec<String>,
}

/// What an [`ExecuteHead`] says.
pub struct ExecuteHeadView {
    pub name: Option<Seq<char>>,
    pub parameters: Seq<Seq<char>>,
}

impl View for ExecuteHead {
    type V = ExecuteHeadView;

    open spec fn view(&self) -> ExecuteHeadView {
        ExecuteHeadView {
            name: opt_text(self.name),
            parameters: texts(self.parameters@),
        }
    }
}

// ---------------------------------------------------------------------------
// Tables
// ---------------------------------------------------------------------------

/// The head of a `CREATE TABLE`.
pub open spec fn table_head_of(j: JsonView) -> Option<TableHeadView> {
    match member_of(j, "CreateTable"@) {
        None => None,
        Some(c) => match (
            printed_at(Printer::Name, c, "name"@),
            printed(Printer::Statement, j),
            flag_at(c, "if_not_exists"@),
            optional_at(Printer::Expr, c, "partition_by"@),
            optional_at(Printer::Query, c, "query"@),
        ) {
            (Some(name), Some(text), Some(if_not_exists), Some(partition_by), Some(query)) => Some(
                TableHeadView { name, text, if_not_exists, partition_by, query },
            ),
            _ => None,
        },
    }
}

/// The head of a `CREATE TABLE`; nothing for another statement.
pub fn read_table_tree(j: &Json) -> (r: Option<TableHead>)
    ensures
        opt_view(r) == table_head_of(j@),
{
    match find_member(j, "CreateTable") {
        None => None,
        Some(c) => match (
            print_at(Printer::Name, c, "name"),
            print_as(Printer::Statement, j),
            read_flag(c, "if_not_exists"),
            print_optional(Printer::Expr, c, "partition_by"),
            print_optional(Printer::Query, c, "query"),
        ) {
            (Some(name), Some(text), Some(if_not_exists), Some(partition_by), Some(query)) => Some(
                TableHead { name, text, if_not_exists, partition_by, query },
            ),
            _ => None,
        },
    }
}

/// The head of the `CREATE TABLE` of the first statement of a text, as the parser reads it.
pub open spec fn table_head(sql: Seq<char>) -> Option<TableHeadView> {
    match first_tree(sql) {
        Some(j) => table_head_of(j),
        None => None,
    }
}

/// The head of the `CREATE TABLE` of the first statement of a text; nothing where it has none, or the text cannot be parsed.
pub(crate) fn read_table_head(sql: &str) -> (r: Option<TableHead>)
    ensures
        opt_view(r) == table_head(sql@),
{
    match read_first(sql) {
        Some(j) => read_table_tree(&j),
        None => None,
    }
}

/// Whether an option of a column is `NOT NULL`.
pub open spec fn is_not_null(j: JsonView) -> bool {
    match member_of(j, "option"@) {
        Some(o) => is_variant_of(o, "NotNull"@),
        None => false,
    }
}

/// For each option of a column, whether it is `NOT NULL`.
pub open spec fn not_null_flags(xs: Seq<JsonView>) -> Seq<bool> {
    Seq::new(xs.len(), |i: int| is_not_null(xs[i]))
}

/// The definition of a column.
pub open spec fn column_of(j: JsonView) -> Option<ParsedColumnView> {
    match (
        printed_at(Printer::Bare, j, "name"@),
        printed_at(Printer::DataType, j, "data_type"@),
        list_at(j, "options"@),
    ) {
        (Some(name), Some(data_type), Some(options)) => Some(
            ParsedColumnView { name, data_type, not_null: not_null_flags(options) },
        ),
        _ => None,
    }
}

fn flags_of(v: &Vec<Json>, Ghost(xs): Ghost<Seq<JsonView>>) -> (r: Vec<bool>)
    requires
        lists(v@, xs),
    ensures
        r@ == not_null_flags(xs),
{
    let mut out: Vec<bool> = Vec::new();
    let mut i: usize = 0;
    while i < v.len()
        invariant
            i <= v@.len(),
            lists(v@, xs),
            out@.len() == i,
            forall|k: int| 0 <= k < i ==> #[trigger] out@[k] == is_not_null(xs[k]),
        decreases v@.len() - i,
    {
        assert(xs[i as int] == json_view(v@[i as int]));
        let flag: bool = match find_member(&v[i], "option") {
            Some(o) => is_named(o, "NotNull"),
            None => false,
        };
        out.push(flag);
        i += 1;
    }
    assert(out@ =~= not_null_flags(xs));
    out
}

/// The definition of a column.
pub fn read_column(j: &Json) -> (r: Option<ParsedColumn>)
    ensures
        opt_view(r) == column_of(j@),
{
    match (
        print_at(Printer::Bare, j, "name"),
        print_at(Printer::DataType, j, "data_type"),
        find_list(j, "options"),
    ) {
        (Some(name), Some(data_type), Some(options)) => {
            let not_null = flags_of(options, Ghost(list_at(j@, "options"@)->0));
            Some(ParsedColumn { name, data_type, not_null })
        },
        _ => None,
    }
}

/// The definitions of the columns in a list; nothing where one of them is not read.
pub open spec fn columns_of(xs: Seq<JsonView>, n: nat) -> Option<Seq<ParsedColumnView>>
    decreases n,
{
    if n == 0 || n > xs.len() {
        Some(Seq::empty())
    } else {
        match (columns_of(xs, (n - 1) as nat), column_of(xs[n - 1])) {
            (Some(rest), Some(x)) => Some(rest.push(x)),
            _ => None,
        }
    }
}

proof fn lemma_no_columns_of(xs: Seq<JsonView>, i: nat, n: nat)
    requires
        i <= n <= xs.len(),
        columns_of(xs, i) is None,
    ensures
        columns_of(xs, n) is None,
    decreases n,
{
    if i < n {
        lemma_no_columns_of(xs, i, (n - 1) as nat);
    }
}

fn list_columns_of(v: &Vec<Json>, Ghost(xs): Ghost<Seq<JsonView>>) -> (r: Option<Vec<ParsedColumn>>)
    requires
        lists(v@, xs),
    ensures
        opt_views(r) == columns_of(xs, xs.len()),
{
    let mut out: Vec<ParsedColumn> = Vec::new();
    let mut i: usize = 0;
    assert(views(out@) =~= Seq::<ParsedColumnView>::empty());
    while i < v.len()
        invariant
            i <= v@.len(),
            lists(v@, xs),
            columns_of(xs, i as nat) == Some(views(out@)),
        decreases v@.len() - i,
    {
        assert(xs[i as int] == json_view(v@[i as int]));
        match read_column(&v[i]) {
            Some(x) => {
                let ghost done = out@;
                let ghost xv = x@;
                out.push(x);
                assert(views(out@) =~= views(done).push(xv));
            },
            None => {
                proof {
                    lemma_no_columns_of(xs, (i + 1) as nat, xs.len());
                }
                return None;
            },
        }
        i += 1;
    }
    Some(out)
}

/// The definitions of the columns in a list under a key.
pub open spec fn columns_of_at(j: JsonView, key: Seq<char>) -> Option<Seq<ParsedColumnView>> {
    match list_at(j, key) {
        Some(xs) => columns_of(xs, xs.len()),
        None => None,
    }
}

fn columns_of_under(j: &Json, key: &str) -> (r: Option<Vec<ParsedColumn>>)
    ensures
        opt_views(r) == columns_of_at(j@, key@),
{
    match find_list(j, key) {
        Some(v) => list_columns_of(v, Ghost(list_at(j@, key@)->0)),
        None => None,
    }
}

/// The columns of a `CREATE TABLE`.
pub open spec fn table_columns_of(j: JsonView) -> Option<Seq<ParsedColumnView>> {
    match member_of(j, "CreateTable"@) {
        Some(c) => columns_of_at(c, "columns"@),
        None => None,
    }
}

/// The columns of a `CREATE TABLE`; nothing for another statement.
pub fn read_table_columns(j: &Json) -> (r: Option<Vec<ParsedColumn>>)
    ensures
        opt_views(r) == table_columns_of(j@),
{
    match find_member(j, "CreateTable") {
        Some(c) => columns_of_under(c, "columns"),
        None => None,
    }
}

/// The columns of the `CREATE TABLE` of the first statement of a text, as the parser reads it.
pub open spec fn parsed_columns(sql: Seq<char>) -> Option<Seq<ParsedColumnView>> {
    match first_tree(sql) {
        Some(j) => table_columns_of(j),
        None => None,
    }
}

/// The columns of the `CREATE TABLE` of the first statement of a text; nothing where it has none, or the text cannot be parsed.
pub(crate) fn read_columns(sql: &str) -> (r: Option<Vec<ParsedColumn>>)
    ensures
        opt_views(r) == parsed_columns(sql@),
{
    match read_first(sql) {
        Some(j) => read_table_columns(&j),
        None => None,
    }
}

/// What a foreign key does when the row that it refers to goes or changes.
pub open spec fn action_words(j: JsonView) -> Option<Seq<char>> {
    if is_variant_of(j, "Restrict"@) {
        Some("RESTRICT"@)
    } else if is_variant_of(j, "Cascade"@) {
        Some("CASCADE"@)
    } else if is_variant_of(j, "SetNull"@) {
        Some("SET NULL"@)
    } else if is_variant_of(j, "NoAction"@) {
        Some("NO ACTION"@)
    } else if is_variant_of(j, "SetDefault"@) {
        Some("SET DEFAULT"@)
    } else {
        None
    }
}

/// The action under a key, if there is one.
pub open spec fn action_at(j: JsonView, key: Seq<char>) -> Option<Seq<char>> {
    match member_of(j, key) {
        Some(a) => action_words(a),
        None => None,
    }
}

fn read_key_action(j: &Json, key: &str) -> (r: Option<String>)
    ensures
        opt_text(r) == action_at(j@, key@),
{
    let a = match find_member(j, key) {
        None => {
            return None;
        },
        Some(a) => a,
    };
    if is_named(a, "Restrict") {
        Some("RESTRICT".to_owned())
    } else if is_named(a, "Cascade") {
        Some("CASCADE".to_owned())
    } else if is_named(a, "SetNull") {
        Some("SET NULL".to_owned())
    } else if is_named(a, "NoAction") {
        Some("NO ACTION".to_owned())
    } else if is_named(a, "SetDefault") {
        Some("SET DEFAULT".to_owned())
    } else {
        None
    }
}

/// A foreign key.
pub open spec fn foreign_key_of(c: JsonView) -> Option<ParsedConstraintView> {
    match (
        optional_at(Printer::Bare, c, "name"@),
        printed_list_at(Printer::Bare, c, "columns"@),
        printed_at(Printer::Name, c, "foreign_table"@),
        printed_list_at(Printer::Bare, c, "referred_columns"@),
    ) {
        (Some(name), Some(columns), Some(ref_table), Some(ref_columns)) => Some(
            ParsedConstraintView::ForeignKey {
                name,
                columns,
                ref_table,
                ref_columns,
                on_delete: action_at(c, "on_delete"@),
                on_update: action_at(c, "on_update"@),
            },
        ),
        _ => None,
    }
}

/// A constraint of a table.
pub open spec fn constraint_of(j: JsonView) -> Option<ParsedConstraintView> {
    match member_of(j, "PrimaryKey"@) {
        Some(c) => match printed_list_at(Printer::IndexColumn, c, "columns"@) {
            Some(columns) => Some(ParsedConstraintView::PrimaryKey { columns }),
            None => None,
        },
        None => match member_of(j, "Unique"@) {
            Some(c) => match (
                optional_at(Printer::Bare, c, "name"@),
                printed_list_at(Printer::IndexColumn, c, "columns"@),
            ) {
                (Some(name), Some(columns)) => Some(
                    ParsedConstraintView::Unique { name, columns },
                ),
                _ => None,
            },
            None => match member_of(j, "Check"@) {
                Some(c) => match (
                    optional_at(Printer::Bare, c, "name"@),
                    printed_at(Printer::Expr, c, "expr"@),
                ) {
                    (Some(name), Some(expr)) => Some(ParsedConstraintView::Check { name, expr }),
                    _ => None,
                },
                None => match member_of(j, "ForeignKey"@) {
                    Some(c) => foreign_key_of(c),
                    None => Some(ParsedConstraintView::Other),
                },
            },
        },
    }
}

fn read_foreign_key(c: &Json) -> (r: Option<ParsedConstraint>)
    ensures
        opt_view(r) == foreign_key_of(c@),
{
    match (
        print_optional(Printer::Bare, c, "name"),
        print_list_at(Printer::Bare, c, "columns"),
        print_at(Printer::Name, c, "foreign_table"),
        print_list_at(Printer::Bare, c, "referred_columns"),
    ) {
        (Some(name), Some(columns), Some(ref_table), Some(ref_columns)) => Some(
            ParsedConstraint::ForeignKey {
                name,
                columns,
                ref_table,
                ref_columns,
                on_delete: read_key_action(c, "on_delete"),
                on_update: read_key_action(c, "on_update"),
            },
        ),
        _ => None,
    }
}

/// A constraint of a table.
pub fn read_constraint(j: &Json) -> (r: Option<ParsedConstraint>)
    ensures
        opt_view(r) == constraint_of(j@),
{
    if let Some(c) = find_member(j, "PrimaryKey") {
        return match print_list_at(Printer::IndexColumn, c, "columns") {
            Some(columns) => Some(ParsedConstraint::PrimaryKey { columns }),
            None => None,
        };
    }
    if let Some(c) = find_member(j, "Unique") {
        return match (
            print_optional(Printer::Bare, c, "name"),
            print_list_at(Printer::IndexColumn, c, "columns"),
        ) {
            (Some(name), Some(columns)) => Some(ParsedConstraint::Unique { name, columns }),
            _ => None,
        };
    }
    if let Some(c) = find_member(j, "Check") {
        return match (
            print_optional(Printer::Bare, c, "name"),
            print_at(Printer::Expr, c, "expr"),
        ) {
            (Some(name), Some(expr)) => Some(ParsedConstraint::Check { name, expr }),
            _ => None,
        };
    }
    match find_member(j, "ForeignKey") {
        Some(c) => read_foreign_key(c),
        None => Some(ParsedConstraint::Other),
    }
}

/// The constraints in a list; nothing where one of them is not read.
pub open spec fn constraints_of(xs: Seq<JsonView>, n: nat) -> Option<Seq<ParsedConstraintView>>
    decreases n,
{
    if n == 0 || n > xs.len() {
        Some(Seq::empty())
    } else {
        match (constraints_of(xs, (n - 1) as nat), constraint_of(xs[n - 1])) {
            (Some(rest), Some(x)) => Some(rest.push(x)),
            _ => None,
        }
    }
}

proof fn lemma_no_constraints_of(xs: Seq<JsonView>, i: nat, n: nat)
    requires
        i <= n <= xs.len(),
        constraints_of(xs, i) is None,
    ensures
        constraints_of(xs, n) is None,
    decreases n,
{
    if i < n {
        lemma_no_constraints_of(xs, i, (n - 1) as nat);
    }
}

fn list_constraints_of(v: &Vec<Json>, Ghost(xs): Ghost<Seq<JsonView>>) -> (r: Option<Vec<ParsedConstraint>>)
    requires
        lists(v@, xs),
    ensures
        opt_views(r) == constraints_of(xs, xs.len()),
{
    let mut out: Vec<ParsedConstraint> = Vec::new();
    let mut i: usize = 0;
    assert(views(out@) =~= Seq::<ParsedConstraintView>::empty());
    while i < v.len()
        invariant
            i <= v@.len(),
            lists(v@, xs),
            constraints_of(xs, i as nat) == Some(views(out@)),
        decreases v@.len() - i,
    {
        assert(xs[i as int] == json_view(v@[i as int]));
        match read_constraint(&v[i]) {
            Some(x) => {
                let ghost done = out@;
                let ghost xv = x@;
                out.push(x);
                assert(views(out@) =~= views(done).push(xv));
            },
            None => {
                proof {
                    lemma_no_constraints_of(xs, (i + 1) as nat, xs.len());
                }
                return None;
            },
        }
        i += 1;
    }
    Some(out)
}

/// The constraints in a list under a key.
pub open spec fn constraints_of_at(j: JsonView, key: Seq<char>) -> Option<Seq<ParsedConstraintView>> {
    match list_at(j, key) {
        Some(xs) => constraints_of(xs, xs.len()),
        None => None,
    }
}

fn constraints_of_under(j: &Json, key: &str) -> (r: Option<Vec<ParsedConstraint>>)
    ensures
        opt_views(r) == constraints_of_at(j@, key@),
{
    match find_list(j, key) {
        Some(v) => list_constraints_of(v, Ghost(list_at(j@, key@)->0)),
        None => None,
    }
}

/// The constraints of a `CREATE TABLE`.
pub open spec fn table_constraints_of(j: JsonView) -> Option<Seq<ParsedConstraintView>> {
    match member_of(j, "CreateTable"@) {
        Some(c) => constraints_of_at(c, "constraints"@),
        None => None,
    }
}

/// The constraints of a `CREATE TABLE`; nothing for another statement.
pub fn read_table_constraints(j: &Json) -> (r: Option<Vec<ParsedConstraint>>)
    ensures
        opt_views(r) == table_constraints_of(j@),
{
    match find_member(j, "CreateTable") {
        Some(c) => constraints_of_under(c, "constraints"),
        None => None,
    }
}

/// The constraints of the `CREATE TABLE` of the first statement of a text, as the parser reads it.
pub open spec fn parsed_constraints(sql: Seq<char>) -> Option<Seq<ParsedConstraintView>> {
    match first_tree(sql) {
        Some(j) => table_constraints_of(j),
        None => None,
    }
}

/// The constraints of the `CREATE TABLE` of the first statement of a text; nothing where it has none, or the text cannot be parsed.
pub(crate) fn read_constraints(sql: &str) -> (r: Option<Vec<ParsedConstraint>>)
    ensures
        opt_views(r) == parsed_constraints(sql@),
{
    match read_first(sql) {
        Some(j) => read_table_constraints(&j),
        None => None,
    }
}

// ---------------------------------------------------------------------------
// Indexes and sequences
// ---------------------------------------------------------------------------

/// The order that a column of an index asks for.
pub open spec fn order_of(j: JsonView) -> Option<bool> {
    match member_of(j, "column"@) {
        Some(c) => match member_of(c, "options"@) {
            Some(o) => flag_at(o, "asc"@),
            None => None,
        },
        None => None,
    }
}

/// A column of an index.
pub open spec fn index_column_of(j: JsonView) -> Option<ParsedIndexColumnView> {
    match printed(Printer::IndexColumn, j) {
        Some(expr) => Some(ParsedIndexColumnView { expr, asc: order_of(j) }),
        None => None,
    }
}

/// A column of an index.
pub fn read_index_column(j: &Json) -> (r: Option<ParsedIndexColumn>)
    ensures
        opt_view(r) == index_column_of(j@),
{
    let asc: Option<bool> = match find_member(j, "column") {
        Some(c) => match find_member(c, "options") {
            Some(o) => read_flag(o, "asc"),
            None => None,
        },
        None => None,
    };
    match print_as(Printer::IndexColumn, j) {
        Some(expr) => Some(ParsedIndexColumn { expr, asc }),
        None => None,
    }
}

/// The columns of an index in a list; nothing where one of them is not read.
pub open spec fn index_columns_of(xs: Seq<JsonView>, n: nat) -> Option<Seq<ParsedIndexColumnView>>
    decreases n,
{
    if n == 0 || n > xs.len() {
        Some(Seq::empty())
    } else {
        match (index_columns_of(xs, (n - 1) as nat), index_column_of(xs[n - 1])) {
            (Some(rest), Some(x)) => Some(rest.push(x)),
            _ => None,
        }
    }
}

proof fn lemma_no_index_columns_of(xs: Seq<JsonView>, i: nat, n: nat)
    requires
        i <= n <= xs.len(),
        index_columns_of(xs, i) is None,
    ensures
        index_columns_of(xs, n) is None,
    decreases n,
{
    if i < n {
        lemma_no_index_columns_of(xs, i, (n - 1) as nat);
    }
}

fn list_index_columns_of(v: &Vec<Json>, Ghost(xs): Ghost<Seq<JsonView>>) -> (r: Option<Vec<ParsedIndexColumn>>)
    requires
        lists(v@, xs),
    ensures
        opt_views(r) == index_columns_of(xs, xs.len()),
{
    let mut out: Vec<ParsedIndexColumn> = Vec::new();
    let mut i: usize = 0;
    assert(views(out@) =~= Seq::<ParsedIndexColumnView>::empty());
    while i < v.len()
        invariant
            i <= v@.len(),
            lists(v@, xs),
            index_columns_of(xs, i as nat) == Some(views(out@)),
        decreases v@.len() - i,
    {
        assert(xs[i as int] == json_view(v@[i as int]));
        match read_index_column(&v[i]) {
            Some(x) => {
                let ghost done = out@;
                let ghost xv = x@;
                out.push(x);
                assert(views(out@) =~= views(done).push(xv));
            },
            None => {
                proof {
                    lemma_no_index_columns_of(xs, (i + 1) as nat, xs.len());
                }
                return None;
            },
        }
        i += 1;
    }
    Some(out)
}

/// The columns of an index in a list under a key.
pub open spec fn index_columns_of_at(j: JsonView, key: Seq<char>) -> Option<Seq<ParsedIndexColumnView>> {
    match list_at(j, key) {
        Some(xs) => index_columns_of(xs, xs.len()),
        None => None,
    }
}

fn index_columns_of_under(j: &Json, key: &str) -> (r: Option<Vec<ParsedIndexColumn>>)
    ensures
        opt_views(r) == index_columns_of_at(j@, key@),
{
    match find_list(j, key) {
        Some(v) => list_index_columns_of(v, Ghost(list_at(j@, key@)->0)),
        None => None,
    }
}

/// A `CREATE INDEX`.
pub open spec fn index_head_of(j: JsonView) -> Option<IndexHeadView> {
    match member_of(j, "CreateIndex"@) {
        None => None,
        Some(c) => match (
            optional_at(Printer::Name, c, "name"@),
            printed_at(Printer::Name, c, "table_name"@),
            printed(Printer::Statement, j),
            flag_at(c, "if_not_exists"@),
            index_columns_of_at(c, "columns"@),
        ) {
            (Some(name), Some(table), Some(text), Some(if_not_exists), Some(columns)) => Some(
                IndexHeadView { name, table, text, if_not_exists, columns },
            ),
            _ => None,
        },
    }
}

/// A `CREATE INDEX`; nothing for another statement.
pub fn read_index_tree(j: &Json) -> (r: Option<IndexHead>)
    ensures
        opt_view(r) == index_head_of(j@),
{
    match find_member(j, "CreateIndex") {
        None => None,
        Some(c) => match (
            print_optional(Printer::Name, c, "name"),
            print_at(Printer::Name, c, "table_name"),
            print_as(Printer::Statement, j),
            read_flag(c, "if_not_exists"),
            index_columns_of_under(c, "columns"),
        ) {
            (Some(name), Some(table), Some(text), Some(if_not_exists), Some(columns)) => Some(
                IndexHead { name, table, text, if_not_exists, columns },
            ),
            _ => None,
        },
    }
}

/// The `CREATE INDEX` of the first statement of a text, as the parser reads it.
pub open spec fn parsed_index(sql: Seq<char>) -> Option<IndexHeadView> {
    match first_tree(sql) {
        Some(j) => index_head_of(j),
        None => None,
    }
}

/// The `CREATE INDEX` of the first statement of a text; nothing where it has none, or the text cannot be parsed.
pub(crate) fn read_index(sql: &str) -> (r: Option<IndexHead>)
    ensures
        opt_view(r) == parsed_index(sql@),
{
    match read_first(sql) {
        Some(j) => read_index_tree(&j),
        None => None,
    }
}

/// The first expression of a list, as text.
pub open spec fn first_expr(xs: Seq<JsonView>) -> Option<Seq<char>> {
    if xs.len() > 0 {
        printed(Printer::Expr, xs[0])
    } else {
        None
    }
}

/// An option of a `CREATE SEQUENCE`.
pub open spec fn sequence_option_of(j: JsonView) -> Option<SequenceOptionView> {
    match list_at(j, "StartWith"@) {
        Some(xs) => match first_expr(xs) {
            Some(e) => Some(SequenceOptionView::StartWith(e)),
            None => None,
        },
        None => match list_at(j, "IncrementBy"@) {
            Some(xs) => match first_expr(xs) {
                Some(e) => Some(SequenceOptionView::IncrementBy(e)),
                None => None,
            },
            None => match optional_at(Printer::Expr, j, "MinValue"@) {
                Some(Some(e)) => Some(SequenceOptionView::MinValue(e)),
                _ => match optional_at(Printer::Expr, j, "MaxValue"@) {
                    Some(Some(e)) => Some(SequenceOptionView::MaxValue(e)),
                    _ => Some(SequenceOptionView::Other),
                },
            },
        },
    }
}

fn print_first_expr(v: &Vec<Json>, Ghost(xs): Ghost<Seq<JsonView>>) -> (r: Option<String>)
    requires
        lists(v@, xs),
    ensures
        opt_text(r) == first_expr(xs),
{
    if v.len() > 0 {
        assert(xs[0] == json_view(v@[0]));
        print_as(Printer::Expr, &v[0])
    } else {
        None
    }
}

/// An option of a `CREATE SEQUENCE`.
pub fn read_sequence_option(j: &Json) -> (r: Option<SequenceOption>)
    ensures
        opt_view(r) == sequence_option_of(j@),
{
    if let Some(v) = find_list(j, "StartWith") {
        return match print_first_expr(v, Ghost(list_at(j@, "StartWith"@)->0)) {
            Some(e) => Some(SequenceOption::StartWith(e)),
            None => None,
        };
    }
    if let Some(v) = find_list(j, "IncrementBy") {
        return match print_first_expr(v, Ghost(list_at(j@, "IncrementBy"@)->0)) {
            Some(e) => Some(SequenceOption::IncrementBy(e)),
            None => None,
        };
    }
    if let Some(Some(e)) = print_optional(Printer::Expr, j, "MinValue") {
        return Some(SequenceOption::MinValue(e));
    }
    if let Some(Some(e)) = print_optional(Printer::Expr, j, "MaxValue") {
        return Some(SequenceOption::MaxValue(e));
    }
    Some(SequenceOption::Other)
}

/// The options of a sequence in a list; nothing where one of them is not read.
pub open spec fn sequence_options_of(xs: Seq<JsonView>, n: nat) -> Option<Seq<SequenceOptionView>>
    decreases n,
{
    if n == 0 || n > xs.len() {
        Some(Seq::empty())
    } else {
        match (sequence_options_of(xs, (n - 1) as nat), sequence_option_of(xs[n - 1])) {
            (Some(rest), Some(x)) => Some(rest.push(x)),
            _ => None,
        }
    }
}

proof fn lemma_no_sequence_options_of(xs: Seq<JsonView>, i: nat, n: nat)
    requires
        i <= n <= xs.len(),
        sequence_options_of(xs, i) is None,
    ensures
        sequence_options_of(xs, n) is None,
    decreases n,
{
    if i < n {
        lemma_no_sequence_options_of(xs, i, (n - 1) as nat);
    }
}

fn list_sequence_options_of(v: &Vec<Json>, Ghost(xs): Ghost<Seq<JsonView>>) -> (r: Option<Vec<SequenceOption>>)
    requires
        lists(v@, xs),
    ensures
        opt_views(r) == sequence_options_of(xs, xs.len()),
{
    let mut out: Vec<SequenceOption> = Vec::new();
    let mut i: usize = 0;
    assert(views(out@) =~= Seq::<SequenceOptionView>::empty());
    while i < v.len()
        invariant
            i <= v@.len(),
            lists(v@, xs),
            sequence_options_of(xs, i as nat) == Some(views(out@)),
        decreases v@.len() - i,
    {
        assert(xs[i as int] == json_view(v@[i as int]));
        match read_sequence_option(&v[i]) {
            Some(x) => {
                let ghost done = out@;
                let ghost xv = x@;
                out.push(x);
                assert(views(out@) =~= views(done).push(xv));
            },
            None => {
                proof {
                    lemma_no_sequence_options_of(xs, (i + 1) as nat, xs.len());
                }
                return None;
            },
        }
        i += 1;
    }
    Some(out)
}

/// The options of a sequence in a list under a key.
pub open spec fn sequence_options_of_at(j: JsonView, key: Seq<char>) -> Option<Seq<SequenceOptionView>> {
    match list_at(j, key) {
        Some(xs) => sequence_options_of(xs, xs.len()),
        None => None,
    }
}

fn sequence_options_of_under(j: &Json, key: &str) -> (r: Option<Vec<SequenceOption>>)
    ensures
        opt_views(r) == sequence_options_of_at(j@, key@),
{
    match find_list(j, key) {
        Some(v) => list_sequence_options_of(v, Ghost(list_at(j@, key@)->0)),
        None => None,
    }
}

/// A `CREATE SEQUENCE`.
pub open spec fn sequence_head_of(j: JsonView) -> Option<SequenceHeadView> {
    match member_of(j, "CreateSequence"@) {
        None => None,
        Some(c) => match (
            printed_at(Printer::Name, c, "name"@),
            flag_at(c, "if_not_exists"@),
            sequence_options_of_at(c, "sequence_options"@),
        ) {
            (Some(name), Some(if_not_exists), Some(options)) => Some(
                SequenceHeadView { name, if_not_exists, options },
            ),
            _ => None,
        },
    }
}

/// A `CREATE SEQUENCE`; nothing for another statement.
pub fn read_sequence_tree(j: &Json) -> (r: Option<SequenceHead>)
    ensures
        opt_view(r) == sequence_head_of(j@),
{
    match find_member(j, "CreateSequence") {
        None => None,
        Some(c) => match (
            print_at(Printer::Name, c, "name"),
            read_flag(c, "if_not_exists"),
            sequence_options_of_under(c, "sequence_options"),
        ) {
            (Some(name), Some(if_not_exists), Some(options)) => Some(
                SequenceHead { name, if_not_exists, options },
            ),
            _ => None,
        },
    }
}

/// The `CREATE SEQUENCE` of the first statement of a text, as the parser reads it.
pub open spec fn parsed_sequence(sql: Seq<char>) -> Option<SequenceHeadView> {
    match first_tree(sql) {
        Some(j) => sequence_head_of(j),
        None => None,
    }
}

/// The `CREATE SEQUENCE` of the first statement of a text; nothing where it has none, or the text cannot be parsed.
pub(crate) fn read_sequence(sql: &str) -> (r: Option<SequenceHead>)
    ensures
        opt_view(r) == parsed_sequence(sql@),
{
    match read_first(sql) {
        Some(j) => read_sequence_tree(&j),
        None => None,
    }
}

// ---------------------------------------------------------------------------
// Drops
// ---------------------------------------------------------------------------

/// The kind of object that a `DROP` names.
pub open spec fn drop_object_of(j: JsonView) -> DropObject {
    match member_of(j, "object_type"@) {
        Some(o) => if is_variant_of(o, "Table"@) {
            DropObject::Table
        } else if is_variant_of(o, "Index"@) {
            DropObject::Index
        } else if is_variant_of(o, "View"@) {
            DropObject::View
        } else if is_variant_of(o, "Sequence"@) {
            DropObject::Sequence
        } else {
            DropObject::Other
        },
        None => DropObject::Other,
    }
}

fn read_drop_object(j: &Json) -> (r: DropObject)
    ensures
        r == drop_object_of(j@),
{
    match find_member(j, "object_type") {
        Some(o) => if is_named(o, "Table") {
            DropObject::Table
        } else if is_named(o, "Index") {
            DropObject::Index
        } else if is_named(o, "View") {
            DropObject::View
        } else if is_named(o, "Sequence") {
            DropObject::Sequence
        } else {
            DropObject::Other
        },
        None => DropObject::Other,
    }
}

/// A `DROP`.
pub open spec fn drop_head_of(j: JsonView) -> Option<DropHeadView> {
    match member_of(j, "Drop"@) {
        None => None,
        Some(d) => match (
            printed_list_at(Printer::Name, d, "names"@),
            flag_at(d, "if_exists"@),
        ) {
            (Some(names), Some(if_exists)) => Some(
                DropHeadView { object: drop_object_of(d), names, if_exists },
            ),
            _ => None,
        },
    }
}

/// A `DROP`; nothing for another statement.
pub fn read_drop_tree(j: &Json) -> (r: Option<DropHead>)
    ensures
        opt_view(r) == drop_head_of(j@),
{
    match find_member(j, "Drop") {
        None => None,
        Some(d) => match (
            print_list_at(Printer::Name, d, "names"),
            read_flag(d, "if_exists"),
        ) {
            (Some(names), Some(if_exists)) => Some(
                DropHead { object: read_drop_object(d), names, if_exists },
            ),
            _ => None,
        },
    }
}

/// The `DROP` of the first statement of a text, as the parser reads it.
pub open spec fn parsed_drop(sql: Seq<char>) -> Option<DropHeadView> {
    match first_tree(sql) {
        Some(j) => drop_head_of(j),
        None => None,
    }
}

/// The `DROP` of the first statement of a text; nothing where it has none, or the text cannot be parsed.
pub(crate) fn read_drop(sql: &str) -> (r: Option<DropHead>)
    ensures
        opt_view(r) == parsed_drop(sql@),
{
    match read_first(sql) {
        Some(j) => read_drop_tree(&j),
        None => None,
    }
}

// ---------------------------------------------------------------------------
// Rows
// ---------------------------------------------------------------------------

/// The tables of the `FROM` clause of a `DELETE`.
pub open spec fn deleted_tables(d: JsonView) -> Option<Seq<Seq<char>>> {
    match member_of(d, "from"@) {
        None => None,
        Some(f) => match printed_list_at(Printer::Table, f, "WithFromKeyword"@) {
            Some(ts) => Some(ts),
            None => printed_list_at(Printer::Table, f, "WithoutKeyword"@),
        },
    }
}

fn read_deleted_tables(d: &Json) -> (r: Option<Vec<String>>)
    ensures
        match r {
            Some(v) => deleted_tables(d@) == Some(texts(v@)),
            None => deleted_tables(d@) is None,
        },
{
    match find_member(d, "from") {
        None => None,
        Some(f) => match print_list_at(Printer::Table, f, "WithFromKeyword") {
            Some(ts) => Some(ts),
            None => print_list_at(Printer::Table, f, "WithoutKeyword"),
        },
    }
}

/// A `DELETE`.
pub open spec fn delete_head_of(j: JsonView) -> Option<DeleteHeadView> {
    match member_of(j, "Delete"@) {
        None => None,
        Some(d) => match (
            deleted_tables(d),
            optional_at(Printer::Expr, d, "selection"@),
            printed(Printer::Statement, j),
        ) {
            (Some(tables), Some(selection), Some(text)) => Some(
                DeleteHeadView { tables, selection, text },
            ),
            _ => None,
        },
    }
}

/// A `DELETE`; nothing for another statement.
pub fn read_delete_tree(j: &Json) -> (r: Option<DeleteHead>)
    ensures
        opt_view(r) == delete_head_of(j@),
{
    match find_member(j, "Delete") {
        None => None,
        Some(d) => match (
            read_deleted_tables(d),
            print_optional(Printer::Expr, d, "selection"),
            print_as(Printer::Statement, j),
        ) {
            (Some(tables), Some(selection), Some(text)) => Some(
                DeleteHead { tables, selection, text },
            ),
            _ => None,
        },
    }
}

/// The `DELETE` of the first statement of a text, as the parser reads it.
pub open spec fn parsed_delete(sql: Seq<char>) -> Option<DeleteHeadView> {
    match first_tree(sql) {
        Some(j) => delete_head_of(j),
        None => None,
    }
}

/// The `DELETE` of the first statement of a text; nothing where it has none, or the text cannot be parsed.
pub(crate) fn read_delete(sql: &str) -> (r: Option<DeleteHead>)
    ensures
        opt_view(r) == parsed_delete(sql@),
{
    match read_first(sql) {
        Some(j) => read_delete_tree(&j),
        None => None,
    }
}

/// The head of an `UPDATE`.
pub open spec fn update_head_of(j: JsonView) -> Option<UpdateHeadView> {
    match member_of(j, "Update"@) {
        None => None,
        Some(u) => match (
            printed_at(Printer::Table, u, "table"@),
            optional_at(Printer::Expr, u, "selection"@),
        ) {
            (Some(table), Some(selection)) => Some(UpdateHeadView { table, selection }),
            _ => None,
        },
    }
}

/// The head of an `UPDATE`; nothing for another statement.
pub fn read_update_tree(j: &Json) -> (r: Option<UpdateHead>)
    ensures
        opt_view(r) == update_head_of(j@),
{
    match find_member(j, "Update") {
        None => None,
        Some(u) => match (
            print_at(Printer::Table, u, "table"),
            print_optional(Printer::Expr, u, "selection"),
        ) {
            (Some(table), Some(selection)) => Some(UpdateHead { table, selection }),
            _ => None,
        },
    }
}

/// The head of the `UPDATE` of the first statement of a text, as the parser reads it.
pub open spec fn parsed_update(sql: Seq<char>) -> Option<UpdateHeadView> {
    match first_tree(sql) {
        Some(j) => update_head_of(j),
        None => None,
    }
}

/// The head of the `UPDATE` of the first statement of a text; nothing where it has none, or the text cannot be parsed.
pub(crate) fn read_update(sql: &str) -> (r: Option<UpdateHead>)
    ensures
        opt_view(r) == parsed_update(sql@),
{
    match read_first(sql) {
        Some(j) => read_update_tree(&j),
        None => None,
    }
}

/// The columns that a value is assigned to, and how they are printed together.
pub open spec fn targets_of(j: JsonView) -> Option<(Seq<Seq<char>>, Seq<char>)> {
    match member_of(j, "ColumnName"@) {
        Some(n) => match printed(Printer::Name, n) {
            Some(t) => Some((seq![t], t)),
            None => None,
        },
        None => match printed_list_at(Printer::Name, j, "Tuple"@) {
            Some(ts) => Some((ts, "("@ + joined(ts, ", "@) + ")"@)),
            None => None,
        },
    }
}

fn read_targets(j: &Json) -> (r: Option<(Vec<String>, String)>)
    ensures
        match r {
            Some(p) => targets_of(j@) == Some((texts(p.0@), p.1@)),
            None => targets_of(j@) is None,
        },
{
    match find_member(j, "ColumnName") {
        Some(n) => match print_as(Printer::Name, n) {
            Some(t) => {
                let ghost tv = t@;
                let mut targets: Vec<String> = Vec::new();
                targets.push(t.clone());
                assert(texts(targets@) =~= seq![tv]);
                Some((targets, t))
            },
            None => None,
        },
        None => match print_list_at(Printer::Name, j, "Tuple") {
            Some(ts) => {
                let text = concat3("(", &join(&ts, ", "), ")");
                Some((ts, text))
            },
            None => None,
        },
    }
}

/// An assignment.
pub open spec fn assignment_of(j: JsonView) -> Option<ParsedAssignmentView> {
    match (member_of(j, "target"@), printed_at(Printer::Expr, j, "value"@)) {
        (Some(t), Some(value)) => match targets_of(t) {
            Some((targets, text)) => Some(ParsedAssignmentView { targets, text, value }),
            None => None,
        },
        _ => None,
    }
}

/// An assignment.
pub fn read_assignment(j: &Json) -> (r: Option<ParsedAssignment>)
    ensures
        opt_view(r) == assignment_of(j@),
{
    match (find_member(j, "target"), print_at(Printer::Expr, j, "value")) {
        (Some(t), Some(value)) => match read_targets(t) {
            Some((targets, text)) => Some(ParsedAssignment { targets, text, value }),
            None => None,
        },
        _ => None,
    }
}

/// The assignments in a list; nothing where one of them is not read.
pub open spec fn assignments_of(xs: Seq<JsonView>, n: nat) -> Option<Seq<ParsedAssignmentView>>
    decreases n,
{
    if n == 0 || n > xs.len() {
        Some(Seq::empty())
    } else {
        match (assignments_of(xs, (n - 1) as nat), assignment_of(xs[n - 1])) {
            (Some(rest), Some(x)) => Some(rest.push(x)),
            _ => None,
        }
    }
}

proof fn lemma_no_assignments_of(xs: Seq<JsonView>, i: nat, n: nat)
    requires
        i <= n <= xs.len(),
        assignments_of(xs, i) is None,
    ensures
        assignments_of(xs, n) is None,
    decreases n,
{
    if i < n {
        lemma_no_assignments_of(xs, i, (n - 1) as nat);
    }
}

fn list_assignments_of(v: &Vec<Json>, Ghost(xs): Ghost<Seq<JsonView>>) -> (r: Option<Vec<ParsedAssignment>>)
    requires
        lists(v@, xs),
    ensures
        opt_views(r) == assignments_of(xs, xs.len()),
{
    let mut out: Vec<ParsedAssignment> = Vec::new();
    let mut i: usize = 0;
    assert(views(out@) =~= Seq::<ParsedAssignmentView>::empty());
    while i < v.len()
        invariant
            i <= v@.len(),
            lists(v@, xs),
            assignments_of(xs, i as nat) == Some(views(out@)),
        decreases v@.len() - i,
    {
        assert(xs[i as int] == json_view(v@[i as int]));
        match read_assignment(&v[i]) {
            Some(x) => {
                let ghost done = out@;
                let ghost xv = x@;
                out.push(x);
                assert(views(out@) =~= views(done).push(xv));
            },
            None => {
                proof {
                    lemma_no_assignments_of(xs, (i + 1) as nat, xs.len());
                }
                return None;
            },
        }
        i += 1;
    }
    Some(out)
}

/// The assignments in a list under a key.
pub open spec fn assignments_of_at(j: JsonView, key: Seq<char>) -> Option<Seq<ParsedAssignmentView>> {
    match list_at(j, key) {
        Some(xs) => assignments_of(xs, xs.len()),
        None => None,
    }
}

fn assignments_of_under(j: &Json, key: &str) -> (r: Option<Vec<ParsedAssignment>>)
    ensures
        opt_views(r) == assignments_of_at(j@, key@),
{
    match find_list(j, key) {
        Some(v) => list_assignments_of(v, Ghost(list_at(j@, key@)->0)),
        None => None,
    }
}

/// The assignments of an `UPDATE`.
pub open spec fn update_assignments_of(j: JsonView) -> Option<Seq<ParsedAssignmentView>> {
    match member_of(j, "Update"@) {
        Some(u) => assignments_of_at(u, "assignments"@),
        None => None,
    }
}

/// The assignments of an `UPDATE`; nothing for another statement.
pub fn read_update_assignments(j: &Json) -> (r: Option<Vec<ParsedAssignment>>)
    ensures
        opt_views(r) == update_assignments_of(j@),
{
    match find_member(j, "Update") {
        Some(u) => assignments_of_under(u, "assignments"),
        None => None,
    }
}

/// The assignments of the `UPDATE` of the first statement of a text, as the parser reads it.
pub open spec fn parsed_assignments(sql: Seq<char>) -> Option<Seq<ParsedAssignmentView>> {
    match first_tree(sql) {
        Some(j) => update_assignments_of(j),
        None => None,
    }
}

/// The assignments of the `UPDATE` of the first statement of a text; nothing where it has none, or the text cannot be parsed.
pub(crate) fn read_assignments(sql: &str) -> (r: Option<Vec<ParsedAssignment>>)
    ensures
        opt_views(r) == parsed_assignments(sql@),
{
    match read_first(sql) {
        Some(j) => read_update_assignments(&j),
        None => None,
    }
}

/// An `INSERT`.
pub open spec fn insert_head_of(j: JsonView) -> Option<InsertHeadView> {
    match member_of(j, "Insert"@) {
        None => None,
        Some(i) => match (
            match member_of(i, "table"@) {
                Some(t) => printed_at(Printer::Name, t, "TableName"@),
                None => None,
            },
            printed_list_at(Printer::Bare, i, "columns"@),
            optional_at(Printer::Query, i, "source"@),
            printed(Printer::Statement, j),
        ) {
            (Some(table), Some(columns), Some(source), Some(text)) => Some(
                InsertHeadView { table, columns, source, text },
            ),
            _ => None,
        },
    }
}

/// An `INSERT`; nothing for another statement.
pub fn read_insert_tree(j: &Json) -> (r: Option<InsertHead>)
    ensures
        opt_view(r) == insert_head_of(j@),
{
    match find_member(j, "Insert") {
        None => None,
        Some(i) => {
            let table: Option<String> = match find_member(i, "table") {
                Some(t) => print_at(Printer::Name, t, "TableName"),
                None => None,
            };
            match (
                table,
                print_list_at(Printer::Bare, i, "columns"),
                print_optional(Printer::Query, i, "source"),
                print_as(Printer::Statement, j),
            ) {
                (Some(table), Some(columns), Some(source), Some(text)) => Some(
                    InsertHead { table, columns, source, text },
                ),
                _ => None,
            }
        },
    }
}

/// The `INSERT` of the first statement of a text, as the parser reads it.
pub open spec fn parsed_insert(sql: Seq<char>) -> Option<InsertHeadView> {
    match first_tree(sql) {
        Some(j) => insert_head_of(j),
        None => None,
    }
}

/// The `INSERT` of the first statement of a text; nothing where it has none, or the text cannot be parsed.
pub(crate) fn read_insert(sql: &str) -> (r: Option<InsertHead>)
    ensures
        opt_view(r) == parsed_insert(sql@),
{
    match read_first(sql) {
        Some(j) => read_insert_tree(&j),
        None => None,
    }
}

/// The conflict clause of an `INSERT`.
pub open spec fn conflict_of(j: JsonView) -> Option<JsonView> {
    match member_of(j, "Insert"@) {
        Some(i) => match member_of(i, "on"@) {
            Some(on) => member_of(on, "OnConflict"@),
            None => None,
        },
        None => None,
    }
}

fn find_conflict<'a>(j: &'a Json) -> (r: Option<&'a Json>)
    ensures
        match r {
            Some(c) => conflict_of(j@) == Some(c@),
            None => conflict_of(j@) is None,
        },
{
    match find_member(j, "Insert") {
        Some(i) => match find_member(i, "on") {
            Some(on) => find_member(on, "OnConflict"),
            None => None,
        },
        None => None,
    }
}

/// The conflict target of an `INSERT ... ON CONFLICT` that names one.
pub open spec fn conflict_target_of(j: JsonView) -> Option<ParsedTargetView> {
    match conflict_of(j) {
        None => None,
        Some(c) => match member_of(c, "conflict_target"@) {
            None => None,
            Some(t) => match printed_list_at(Printer::Bare, t, "Columns"@) {
                Some(columns) => Some(ParsedTargetView::Columns(columns)),
                None => match printed_at(Printer::Name, t, "OnConstraint"@) {
                    Some(name) => Some(ParsedTargetView::Constraint(name)),
                    None => None,
                },
            },
        },
    }
}

/// The conflict target of an `INSERT ... ON CONFLICT` that names one; nothing for another statement.
pub fn read_conflict_target_tree(j: &Json) -> (r: Option<ParsedTarget>)
    ensures
        opt_view(r) == conflict_target_of(j@),
{
    match find_conflict(j) {
        None => None,
        Some(c) => match find_member(c, "conflict_target") {
            None => None,
            Some(t) => match print_list_at(Printer::Bare, t, "Columns") {
                Some(columns) => Some(ParsedTarget::Columns(columns)),
                None => match print_at(Printer::Name, t, "OnConstraint") {
                    Some(name) => Some(ParsedTarget::Constraint(name)),
                    None => None,
                },
            },
        },
    }
}

/// The conflict target of the `INSERT` of the first statement of a text, as the parser reads it.
pub open spec fn parsed_conflict_target(sql: Seq<char>) -> Option<ParsedTargetView> {
    match first_tree(sql) {
        Some(j) => conflict_target_of(j),
        None => None,
    }
}

/// The conflict target of the `INSERT` of the first statement of a text; nothing where it has none, or the text cannot be parsed.
pub(crate) fn read_conflict_target(sql: &str) -> (r: Option<ParsedTarget>)
    ensures
        opt_view(r) == parsed_conflict_target(sql@),
{
    match read_first(sql) {
        Some(j) => read_conflict_target_tree(&j),
        None => None,
    }
}

/// What the `ON CONFLICT` of an `INSERT` does.
pub open spec fn conflict_action_of(j: JsonView) -> Option<ParsedConflictView> {
    match conflict_of(j) {
        None => None,
        Some(c) => match member_of(c, "action"@) {
            None => None,
            Some(a) => if is_variant_of(a, "DoNothing"@) {
                Some(ParsedConflictView::DoNothing)
            } else {
                match member_of(a, "DoUpdate"@) {
                    None => None,
                    Some(u) => match optional_at(Printer::Expr, u, "selection"@) {
                        Some(selection) => Some(ParsedConflictView::DoUpdate { selection }),
                        None => None,
                    },
                }
            },
        },
    }
}

/// What the `ON CONFLICT` of an `INSERT` does; nothing where there is none.
pub fn read_conflict_action_tree(j: &Json) -> (r: Option<ParsedConflict>)
    ensures
        opt_view(r) == conflict_action_of(j@),
{
    match find_conflict(j) {
        None => None,
        Some(c) => match find_member(c, "action") {
            None => None,
            Some(a) => if is_named(a, "DoNothing") {
                Some(ParsedConflict::DoNothing)
            } else {
                match find_member(a, "DoUpdate") {
                    None => None,
                    Some(u) => match print_optional(Printer::Expr, u, "selection") {
                        Some(selection) => Some(ParsedConflict::DoUpdate { selection }),
                        None => None,
                    },
                }
            },
        },
    }
}

/// The conflict action of the `INSERT` of the first statement of a text, as the parser reads it.
pub open spec fn parsed_conflict_action(sql: Seq<char>) -> Option<ParsedConflictView> {
    match first_tree(sql) {
        Some(j) => conflict_action_of(j),
        None => None,
    }
}

/// The conflict action of the `INSERT` of the first statement of a text; nothing where it has none, or the text cannot be parsed.
pub(crate) fn read_conflict_action(sql: &str) -> (r: Option<ParsedConflict>)
    ensures
        opt_view(r) == parsed_conflict_action(sql@),
{
    match read_first(sql) {
        Some(j) => read_conflict_action_tree(&j),
        None => None,
    }
}

/// The assignments of an `INSERT ... ON CONFLICT DO UPDATE`.
pub open spec fn conflict_assignments_of(j: JsonView) -> Option<Seq<ParsedAssignmentView>> {
    match conflict_of(j) {
        None => None,
        Some(c) => match member_of(c, "action"@) {
            None => None,
            Some(a) => match member_of(a, "DoUpdate"@) {
                None => None,
                Some(u) => assignments_of_at(u, "assignments"@),
            },
        },
    }
}

/// The assignments of an `INSERT ... ON CONFLICT DO UPDATE`; nothing for another statement.
pub fn read_conflict_assignments_tree(j: &Json) -> (r: Option<Vec<ParsedAssignment>>)
    ensures
        opt_views(r) == conflict_assignments_of(j@),
{
    match find_conflict(j) {
        None => None,
        Some(c) => match find_member(c, "action") {
            None => None,
            Some(a) => match find_member(a, "DoUpdate") {
                None => None,
                Some(u) => assignments_of_under(u, "assignments"),
            },
        },
    }
}

/// The conflict assignments of the `INSERT` of the first statement of a text, as the parser reads it.
pub open spec fn parsed_conflict_assignments(sql: Seq<char>) -> Option<Seq<ParsedAssignmentView>> {
    match first_tree(sql) {
        Some(j) => conflict_assignments_of(j),
        None => None,
    }
}

/// The conflict assignments of the `INSERT` of the first statement of a text; nothing where it has none, or the text cannot be parsed.
pub(crate) fn read_conflict_assignments(sql: &str) -> (r: Option<Vec<ParsedAssignment>>)
    ensures
        opt_views(r) == parsed_conflict_assignments(sql@),
{
    match read_first(sql) {
        Some(j) => read_conflict_assignments_tree(&j),
        None => None,
    }
}

// ---------------------------------------------------------------------------
// MERGE
// ---------------------------------------------------------------------------

/// The target or the source of a `MERGE`.
pub open spec fn relation_of(j: JsonView) -> Option<ParsedRelationView> {
    match member_of(j, "Table"@) {
        Some(t) => match (
            printed_at(Printer::Name, t, "name"@),
            optional_at(Printer::Alias, t, "alias"@),
        ) {
            (Some(name), Some(alias)) => Some(ParsedRelationView::Table { name, alias }),
            _ => None,
        },
        None => match member_of(j, "Derived"@) {
            Some(d) => match (
                printed_at(Printer::Query, d, "subquery"@),
                optional_at(Printer::Alias, d, "alias"@),
            ) {
                (Some(text), Some(alias)) => Some(ParsedRelationView::Query { text, alias }),
                _ => None,
            },
            None => match printed(Printer::Relation, j) {
                Some(text) => Some(ParsedRelationView::Other { text }),
                None => None,
            },
        },
    }
}

/// The target or the source of a `MERGE`.
pub fn read_relation(j: &Json) -> (r: Option<ParsedRelation>)
    ensures
        opt_view(r) == relation_of(j@),
{
    if let Some(t) = find_member(j, "Table") {
        return match (
            print_at(Printer::Name, t, "name"),
            print_optional(Printer::Alias, t, "alias"),
        ) {
            (Some(name), Some(alias)) => Some(ParsedRelation::Table { name, alias }),
            _ => None,
        };
    }
    if let Some(d) = find_member(j, "Derived") {
        return match (
            print_at(Printer::Query, d, "subquery"),
            print_optional(Printer::Alias, d, "alias"),
        ) {
            (Some(text), Some(alias)) => Some(ParsedRelation::Query { text, alias }),
            _ => None,
        };
    }
    match print_as(Printer::Relation, j) {
        Some(text) => Some(ParsedRelation::Other { text }),
        None => None,
    }
}

/// The relation under a key.
pub open spec fn relation_at(j: JsonView, key: Seq<char>) -> Option<ParsedRelationView> {
    match member_of(j, key) {
        Some(t) => relation_of(t),
        None => None,
    }
}

fn relation_under(j: &Json, key: &str) -> (r: Option<ParsedRelation>)
    ensures
        opt_view(r) == relation_at(j@, key@),
{
    match find_member(j, key) {
        Some(t) => read_relation(t),
        None => None,
    }
}

/// The row of expressions in a list.
pub open spec fn row_of(j: JsonView) -> Option<TextRowView> {
    match j {
        JsonView::List(xs) => match printed_list(Printer::Expr, xs, xs.len()) {
            Some(values) => Some(TextRowView { values }),
            None => None,
        },
        _ => None,
    }
}

/// The row of expressions in a list.
pub fn read_row(j: &Json) -> (r: Option<TextRow>)
    ensures
        opt_view(r) == row_of(j@),
{
    match j {
        Json::List(v) => {
            let ghost xs = crate::json::list_view(v@, v@.len());
            proof {
                crate::json::lemma_list_view(v@, v@.len());
            }
            match print_list(Printer::Expr, v, Ghost(xs)) {
                Some(values) => Some(TextRow { values }),
                None => None,
            }
        },
        _ => None,
    }
}

/// The rows in a list; nothing where one of them is not read.
pub open spec fn rows_of(xs: Seq<JsonView>, n: nat) -> Option<Seq<TextRowView>>
    decreases n,
{
    if n == 0 || n > xs.len() {
        Some(Seq::empty())
    } else {
        match (rows_of(xs, (n - 1) as nat), row_of(xs[n - 1])) {
            (Some(rest), Some(x)) => Some(rest.push(x)),
            _ => None,
        }
    }
}

proof fn lemma_no_rows_of(xs: Seq<JsonView>, i: nat, n: nat)
    requires
        i <= n <= xs.len(),
        rows_of(xs, i) is None,
    ensures
        rows_of(xs, n) is None,
    decreases n,
{
    if i < n {
        lemma_no_rows_of(xs, i, (n - 1) as nat);
    }
}

fn list_rows_of(v: &Vec<Json>, Ghost(xs): Ghost<Seq<JsonView>>) -> (r: Option<Vec<TextRow>>)
    requires
        lists(v@, xs),
    ensures
        opt_views(r) == rows_of(xs, xs.len()),
{
    let mut out: Vec<TextRow> = Vec::new();
    let mut i: usize = 0;
    assert(views(out@) =~= Seq::<TextRowView>::empty());
    while i < v.len()
        invariant
            i <= v@.len(),
            lists(v@, xs),
            rows_of(xs, i as nat) == Some(views(out@)),
        decreases v@.len() - i,
    {
        assert(xs[i as int] == json_view(v@[i as int]));
        match read_row(&v[i]) {
            Some(x) => {
                let ghost done = out@;
                let ghost xv = x@;
                out.push(x);
                assert(views(out@) =~= views(done).push(xv));
            },
            None => {
                proof {
                    lemma_no_rows_of(xs, (i + 1) as nat, xs.len());
                }
                return None;
            },
        }
        i += 1;
    }
    Some(out)
}

/// The rows in a list under a key.
pub open spec fn rows_of_at(j: JsonView, key: Seq<char>) -> Option<Seq<TextRowView>> {
    match list_at(j, key) {
        Some(xs) => rows_of(xs, xs.len()),
        None => None,
    }
}

fn rows_of_under(j: &Json, key: &str) -> (r: Option<Vec<TextRow>>)
    ensures
        opt_views(r) == rows_of_at(j@, key@),
{
    match find_list(j, key) {
        Some(v) => list_rows_of(v, Ghost(list_at(j@, key@)->0)),
        None => None,
    }
}

/// The rows of values of an insertion; none where it has no `VALUES`.
pub open spec fn inserted_rows(i: JsonView) -> Option<Seq<TextRowView>> {
    match member_of(i, "kind"@) {
        None => None,
        Some(k) => match member_of(k, "Values"@) {
            None => Some(Seq::empty()),
            Some(v) => rows_of_at(v, "rows"@),
        },
    }
}

fn read_inserted_rows(i: &Json) -> (r: Option<Vec<TextRow>>)
    ensures
        opt_views(r) == inserted_rows(i@),
{
    match find_member(i, "kind") {
        None => None,
        Some(k) => match find_member(k, "Values") {
            None => {
                let none: Vec<TextRow> = Vec::new();
                assert(views(none@) =~= Seq::<TextRowView>::empty());
                Some(none)
            },
            Some(v) => rows_of_under(v, "rows"),
        },
    }
}

/// The action of a `WHEN` clause.
pub open spec fn merge_do_of(j: JsonView) -> Option<MergeDoView> {
    match member_of(j, "Update"@) {
        Some(u) => match assignments_of_at(u, "assignments"@) {
            Some(assignments) => Some(MergeDoView::Update { assignments }),
            None => None,
        },
        None => match member_of(j, "Insert"@) {
            Some(i) => match (printed_list_at(Printer::Ident, i, "columns"@), inserted_rows(i)) {
                (Some(columns), Some(rows)) => Some(MergeDoView::Insert { columns, rows }),
                _ => None,
            },
            None => if is_variant_of(j, "Delete"@) {
                Some(MergeDoView::Delete)
            } else {
                None
            },
        },
    }
}

fn read_merge_do(j: &Json) -> (r: Option<MergeDo>)
    ensures
        opt_view(r) == merge_do_of(j@),
{
    if let Some(u) = find_member(j, "Update") {
        return match assignments_of_under(u, "assignments") {
            Some(assignments) => Some(MergeDo::Update { assignments }),
            None => None,
        };
    }
    if let Some(i) = find_member(j, "Insert") {
        return match (print_list_at(Printer::Ident, i, "columns"), read_inserted_rows(i)) {
            (Some(columns), Some(rows)) => Some(MergeDo::Insert { columns, rows }),
            _ => None,
        };
    }
    if is_named(j, "Delete") {
        Some(MergeDo::Delete)
    } else {
        None
    }
}

/// Which rows a `WHEN` clause is about.
pub open spec fn merge_match_of(j: JsonView) -> Option<MergeMatch> {
    if is_variant_of(j, "Matched"@) {
        Some(MergeMatch::Matched)
    } else if is_variant_of(j, "NotMatched"@) {
        Some(MergeMatch::NotMatched)
    } else if is_variant_of(j, "NotMatchedByTarget"@) {
        Some(MergeMatch::NotMatchedByTarget)
    } else if is_variant_of(j, "NotMatchedBySource"@) {
        Some(MergeMatch::NotMatchedBySource)
    } else {
        None
    }
}

fn read_merge_match(j: &Json) -> (r: Option<MergeMatch>)
    ensures
        r == merge_match_of(j@),
{
    if is_named(j, "Matched") {
        Some(MergeMatch::Matched)
    } else if is_named(j, "NotMatched") {
        Some(MergeMatch::NotMatched)
    } else if is_named(j, "NotMatchedByTarget") {
        Some(MergeMatch::NotMatchedByTarget)
    } else if is_named(j, "NotMatchedBySource") {
        Some(MergeMatch::NotMatchedBySource)
    } else {
        None
    }
}

/// A `WHEN` clause of a `MERGE`.
pub open spec fn when_of(j: JsonView) -> Option<MergeWhenView> {
    match (
        member_of(j, "clause_kind"@),
        optional_at(Printer::Expr, j, "predicate"@),
        member_of(j, "action"@),
    ) {
        (Some(k), Some(predicate), Some(a)) => match (merge_match_of(k), merge_do_of(a)) {
            (Some(matched), Some(action)) => Some(MergeWhenView { matched, predicate, action }),
            _ => None,
        },
        _ => None,
    }
}

/// A `WHEN` clause of a `MERGE`.
pub fn read_when(j: &Json) -> (r: Option<MergeWhen>)
    ensures
        opt_view(r) == when_of(j@),
{
    match (
        find_member(j, "clause_kind"),
        print_optional(Printer::Expr, j, "predicate"),
        find_member(j, "action"),
    ) {
        (Some(k), Some(predicate), Some(a)) => match (read_merge_match(k), read_merge_do(a)) {
            (Some(matched), Some(action)) => Some(MergeWhen { matched, predicate, action }),
            _ => None,
        },
        _ => None,
    }
}

/// The `WHEN` clauses in a list; nothing where one of them is not read.
pub open spec fn whens_of(xs: Seq<JsonView>, n: nat) -> Option<Seq<MergeWhenView>>
    decreases n,
{
    if n == 0 || n > xs.len() {
        Some(Seq::empty())
    } else {
        match (whens_of(xs, (n - 1) as nat), when_of(xs[n - 1])) {
            (Some(rest), Some(x)) => Some(rest.push(x)),
            _ => None,
        }
    }
}

proof fn lemma_no_whens_of(xs: Seq<JsonView>, i: nat, n: nat)
    requires
        i <= n <= xs.len(),
        whens_of(xs, i) is None,
    ensures
        whens_of(xs, n) is None,
    decreases n,
{
    if i < n {
        lemma_no_whens_of(xs, i, (n - 1) as nat);
    }
}

fn list_whens_of(v: &Vec<Json>, Ghost(xs): Ghost<Seq<JsonView>>) -> (r: Option<Vec<MergeWhen>>)
    requires
        lists(v@, xs),
    ensures
        opt_views(r) == whens_of(xs, xs.len()),
{
    let mut out: Vec<MergeWhen> = Vec::new();
    let mut i: usize = 0;
    assert(views(out@) =~= Seq::<MergeWhenView>::empty());
    while i < v.len()
        invariant
            i <= v@.len(),
            lists(v@, xs),
            whens_of(xs, i as nat) == Some(views(out@)),
        decreases v@.len() - i,
    {
        assert(xs[i as int] == json_view(v@[i as int]));
        match read_when(&v[i]) {
            Some(x) => {
                let ghost done = out@;
                let ghost xv = x@;
                out.push(x);
                assert(views(out@) =~= views(done).push(xv));
            },
            None => {
                proof {
                    lemma_no_whens_of(xs, (i + 1) as nat, xs.len());
                }
                return None;
            },
        }
        i += 1;
    }
    Some(out)
}

/// The `WHEN` clauses in a list under a key.
pub open spec fn whens_of_at(j: JsonView, key: Seq<char>) -> Option<Seq<MergeWhenView>> {
    match list_at(j, key) {
        Some(xs) => whens_of(xs, xs.len()),
        None => None,
    }
}

fn whens_of_under(j: &Json, key: &str) -> (r: Option<Vec<MergeWhen>>)
    ensures
        opt_views(r) == whens_of_at(j@, key@),
{
    match find_list(j, key) {
        Some(v) => list_whens_of(v, Ghost(list_at(j@, key@)->0)),
        None => None,
    }
}

/// A `MERGE`.
pub open spec fn merge_head_of(j: JsonView) -> Option<MergeHeadView> {
    match member_of(j, "Merge"@) {
        None => None,
        Some(m) => match (
            relation_at(m, "table"@),
            relation_at(m, "source"@),
            printed_at(Printer::Expr, m, "on"@),
            whens_of_at(m, "clauses"@),
        ) {
            (Some(target), Some(source), Some(on), Some(whens)) => Some(
                MergeHeadView { target, source, on, whens },
            ),
            _ => None,
        },
    }
}

/// A `MERGE`; nothing for another statement.
pub fn read_merge_tree(j: &Json) -> (r: Option<MergeHead>)
    ensures
        opt_view(r) == merge_head_of(j@),
{
    match find_member(j, "Merge") {
        None => None,
        Some(m) => match (
            relation_under(m, "table"),
            relation_under(m, "source"),
            print_at(Printer::Expr, m, "on"),
            whens_of_under(m, "clauses"),
        ) {
            (Some(target), Some(source), Some(on), Some(whens)) => Some(
                MergeHead { target, source, on, whens },
            ),
            _ => None,
        },
    }
}

/// The `MERGE` of the first statement of a text, as the parser reads it.
pub open spec fn parsed_merge(sql: Seq<char>) -> Option<MergeHeadView> {
    match first_tree(sql) {
        Some(j) => merge_head_of(j),
        None => None,
    }
}

/// The `MERGE` of the first statement of a text; nothing where it has none, or the text cannot be parsed.
pub(crate) fn read_merge(sql: &str) -> (r: Option<MergeHead>)
    ensures
        opt_view(r) == parsed_merge(sql@),
{
    match read_first(sql) {
        Some(j) => read_merge_tree(&j),
        None => None,
    }
}

// ---------------------------------------------------------------------------
// ALTER TABLE
// ---------------------------------------------------------------------------

/// The head of an `ALTER TABLE`.
pub open spec fn alter_head_of(j: JsonView) -> Option<AlterHeadView> {
    match member_of(j, "AlterTable"@) {
        None => None,
        Some(a) => match (printed_at(Printer::Name, a, "name"@), flag_at(a, "if_exists"@)) {
            (Some(name), Some(if_exists)) => Some(AlterHeadView { name, if_exists }),
            _ => None,
        },
    }
}

/// The head of an `ALTER TABLE`; nothing for another statement.
pub fn read_alter_tree(j: &Json) -> (r: Option<AlterHead>)
    ensures
        opt_view(r) == alter_head_of(j@),
{
    match find_member(j, "AlterTable") {
        None => None,
        Some(a) => match (print_at(Printer::Name, a, "name"), read_flag(a, "if_exists")) {
            (Some(name), Some(if_exists)) => Some(AlterHead { name, if_exists }),
            _ => None,
        },
    }
}

/// The head of the `ALTER TABLE` of the first statement of a text, as the parser reads it.
pub open spec fn parsed_alter(sql: Seq<char>) -> Option<AlterHeadView> {
    match first_tree(sql) {
        Some(j) => alter_head_of(j),
        None => None,
    }
}

/// The head of the `ALTER TABLE` of the first statement of a text; nothing where it has none, or the text cannot be parsed.
pub(crate) fn read_alter(sql: &str) -> (r: Option<AlterHead>)
    ensures
        opt_view(r) == parsed_alter(sql@),
{
    match read_first(sql) {
        Some(j) => read_alter_tree(&j),
        None => None,
    }
}

/// An operation of an `ALTER TABLE`.
pub open spec fn operation_of(j: JsonView) -> Option<AlterOpView> {
    match member_of(j, "AddColumn"@) {
        Some(a) => match (member_of(a, "column_def"@), flag_at(a, "if_not_exists"@)) {
            (Some(d), Some(if_not_exists)) => match column_of(d) {
                Some(column) => Some(AlterOpView::AddColumn { column, if_not_exists }),
                None => None,
            },
            _ => None,
        },
        None => match member_of(j, "DropColumn"@) {
            Some(d) => match (
                printed_list_at(Printer::Bare, d, "column_names"@),
                flag_at(d, "if_exists"@),
            ) {
                (Some(names), Some(if_exists)) => Some(
                    AlterOpView::DropColumn { names, if_exists },
                ),
                _ => None,
            },
            None => match member_of(j, "RenameColumn"@) {
                Some(n) => match (
                    printed_at(Printer::Bare, n, "old_column_name"@),
                    printed_at(Printer::Bare, n, "new_column_name"@),
                ) {
                    (Some(old_name), Some(new_name)) => Some(
                        AlterOpView::RenameColumn { old_name, new_name },
                    ),
                    _ => None,
                },
                None => match printed(Printer::Operation, j) {
                    Some(text) => Some(AlterOpView::Other { text }),
                    None => None,
                },
            },
        },
    }
}

/// An operation of an `ALTER TABLE`.
pub fn read_operation(j: &Json) -> (r: Option<AlterOp>)
    ensures
        opt_view(r) == operation_of(j@),
{
    if let Some(a) = find_member(j, "AddColumn") {
        return match (find_member(a, "column_def"), read_flag(a, "if_not_exists")) {
            (Some(d), Some(if_not_exists)) => match read_column(d) {
                Some(column) => Some(AlterOp::AddColumn { column, if_not_exists }),
                None => None,
            },
            _ => None,
        };
    }
    if let Some(d) = find_member(j, "DropColumn") {
        return match (print_list_at(Printer::Bare, d, "column_names"), read_flag(d, "if_exists")) {
            (Some(names), Some(if_exists)) => Some(AlterOp::DropColumn { names, if_exists }),
            _ => None,
        };
    }
    if let Some(n) = find_member(j, "RenameColumn") {
        return match (
            print_at(Printer::Bare, n, "old_column_name"),
            print_at(Printer::Bare, n, "new_column_name"),
        ) {
            (Some(old_name), Some(new_name)) => Some(AlterOp::RenameColumn { old_name, new_name }),
            _ => None,
        };
    }
    match print_as(Printer::Operation, j) {
        Some(text) => Some(AlterOp::Other { text }),
        None => None,
    }
}

/// The operations in a list; nothing where one of them is not read.
pub open spec fn operations_of(xs: Seq<JsonView>, n: nat) -> Option<Seq<AlterOpView>>
    decreases n,
{
    if n == 0 || n > xs.len() {
        Some(Seq::empty())
    } else {
        match (operations_of(xs, (n - 1) as nat), operation_of(xs[n - 1])) {
            (Some(rest), Some(x)) => Some(rest.push(x)),
            _ => None,
        }
    }
}

proof fn lemma_no_operations_of(xs: Seq<JsonView>, i: nat, n: nat)
    requires
        i <= n <= xs.len(),
        operations_of(xs, i) is None,
    ensures
        operations_of(xs, n) is None,
    decreases n,
{
    if i < n {
        lemma_no_operations_of(xs, i, (n - 1) as nat);
    }
}

fn list_operations_of(v: &Vec<Json>, Ghost(xs): Ghost<Seq<JsonView>>) -> (r: Option<Vec<AlterOp>>)
    requires
        lists(v@, xs),
    ensures
        opt_views(r) == operations_of(xs, xs.len()),
{
    let mut out: Vec<AlterOp> = Vec::new();
    let mut i: usize = 0;
    assert(views(out@) =~= Seq::<AlterOpView>::empty());
    while i < v.len()
        invariant
            i <= v@.len(),
            lists(v@, xs),
            operations_of(xs, i as nat) == Some(views(out@)),
        decreases v@.len() - i,
    {
        assert(xs[i as int] == json_view(v@[i as int]));
        match read_operation(&v[i]) {
            Some(x) => {
                let ghost done = out@;
                let ghost xv = x@;
                out.push(x);
                assert(views(out@) =~= views(done).push(xv));
            },
            None => {
                proof {
                    lemma_no_operations_of(xs, (i + 1) as nat, xs.len());
                }
                return None;
            },
        }
        i += 1;
    }
    Some(out)
}

/// The operations in a list under a key.
pub open spec fn operations_of_at(j: JsonView, key: Seq<char>) -> Option<Seq<AlterOpView>> {
    match list_at(j, key) {
        Some(xs) => operations_of(xs, xs.len()),
        None => None,
    }
}

fn operations_of_under(j: &Json, key: &str) -> (r: Option<Vec<AlterOp>>)
    ensures
        opt_views(r) == operations_of_at(j@, key@),
{
    match find_list(j, key) {
        Some(v) => list_operations_of(v, Ghost(list_at(j@, key@)->0)),
        None => None,
    }
}

/// The operations of an `ALTER TABLE`.
pub open spec fn alter_operations_of(j: JsonView) -> Option<Seq<AlterOpView>> {
    match member_of(j, "AlterTable"@) {
        Some(a) => operations_of_at(a, "operations"@),
        None => None,
    }
}

/// The operations of an `ALTER TABLE`; nothing for another statement.
pub fn read_alter_operations(j: &Json) -> (r: Option<Vec<AlterOp>>)
    ensures
        opt_views(r) == alter_operations_of(j@),
{
    match find_member(j, "AlterTable") {
        Some(a) => operations_of_under(a, "operations"),
        None => None,
    }
}

/// The operations of the `ALTER TABLE` of the first statement of a text, as the parser reads it.
pub open spec fn parsed_operations(sql: Seq<char>) -> Option<Seq<AlterOpView>> {
    match first_tree(sql) {
        Some(j) => alter_operations_of(j),
        None => None,
    }
}

/// The operations of the `ALTER TABLE` of the first statement of a text; nothing where it has none, or the text cannot be parsed.
pub(crate) fn read_operations(sql: &str) -> (r: Option<Vec<AlterOp>>)
    ensures
        opt_views(r) == parsed_operations(sql@),
{
    match read_first(sql) {
        Some(j) => read_alter_operations(&j),
        None => None,
    }
}

// ---------------------------------------------------------------------------
// Other statements
// ---------------------------------------------------------------------------

/// A `CREATE VIEW`.
pub open spec fn view_head_of(j: JsonView) -> Option<ViewHeadView> {
    match member_of(j, "CreateView"@) {
        None => None,
        Some(v) => match (
            printed_at(Printer::Name, v, "name"@),
            printed_at(Printer::Query, v, "query"@),
            flag_at(v, "or_replace"@),
            flag_at(v, "materialized"@),
        ) {
            (Some(name), Some(query), Some(or_replace), Some(materialized)) => Some(
                ViewHeadView { name, query, or_replace, materialized },
            ),
            _ => None,
        },
    }
}

/// A `CREATE VIEW`; nothing for another statement.
pub fn read_view_tree(j: &Json) -> (r: Option<ViewHead>)
    ensures
        opt_view(r) == view_head_of(j@),
{
    match find_member(j, "CreateView") {
        None => None,
        Some(v) => match (
            print_at(Printer::Name, v, "name"),
            print_at(Printer::Query, v, "query"),
            read_flag(v, "or_replace"),
            read_flag(v, "materialized"),
        ) {
            (Some(name), Some(query), Some(or_replace), Some(materialized)) => Some(
                ViewHead { name, query, or_replace, materialized },
            ),
            _ => None,
        },
    }
}

/// The `CREATE VIEW` of the first statement of a text, as the parser reads it.
pub open spec fn parsed_view(sql: Seq<char>) -> Option<ViewHeadView> {
    match first_tree(sql) {
        Some(j) => view_head_of(j),
        None => None,
    }
}

/// The `CREATE VIEW` of the first statement of a text; nothing where it has none, or the text cannot be parsed.
pub(crate) fn read_view(sql: &str) -> (r: Option<ViewHead>)
    ensures
        opt_view(r) == parsed_view(sql@),
{
    match read_first(sql) {
        Some(j) => read_view_tree(&j),
        None => None,
    }
}

/// A `PREPARE`.
pub open spec fn prepare_head_of(j: JsonView) -> Option<PrepareHeadView> {
    match member_of(j, "Prepare"@) {
        None => None,
        Some(p) => match (
            printed_at(Printer::Ident, p, "name"@),
            printed_at(Printer::Statement, p, "statement"@),
        ) {
            (Some(name), Some(statement)) => Some(PrepareHeadView { name, statement }),
            _ => None,
        },
    }
}

/// A `PREPARE`; nothing for another statement.
pub fn read_prepare_tree(j: &Json) -> (r: Option<PrepareHead>)
    ensures
        opt_view(r) == prepare_head_of(j@),
{
    match find_member(j, "Prepare") {
        None => None,
        Some(p) => match (
            print_at(Printer::Ident, p, "name"),
            print_at(Printer::Statement, p, "statement"),
        ) {
            (Some(name), Some(statement)) => Some(PrepareHead { name, statement }),
            _ => None,
        },
    }
}

/// The `PREPARE` of the first statement of a text, as the parser reads it.
pub open spec fn parsed_prepare(sql: Seq<char>) -> Option<PrepareHeadView> {
    match first_tree(sql) {
        Some(j) => prepare_head_of(j),
        None => None,
    }
}

/// The `PREPARE` of the first statement of a text; nothing where it has none, or the text cannot be parsed.
pub(crate) fn read_prepare(sql: &str) -> (r: Option<PrepareHead>)
    ensures
        opt_view(r) == parsed_prepare(sql@),
{
    match read_first(sql) {
        Some(j) => read_prepare_tree(&j),
        None => None,
    }
}

/// An `EXECUTE`.
pub open spec fn execute_head_of(j: JsonView) -> Option<ExecuteHeadView> {
    match member_of(j, "Execute"@) {
        None => None,
        Some(e) => match (
            optional_at(Printer::Name, e, "name"@),
            printed_list_at(Printer::Expr, e, "parameters"@),
        ) {
            (Some(name), Some(parameters)) => Some(ExecuteHeadView { name, parameters }),
            _ => None,
        },
    }
}

/// An `EXECUTE`; nothing for another statement.
pub fn read_execute_tree(j: &Json) -> (r: Option<ExecuteHead>)
    ensures
        opt_view(r) == execute_head_of(j@),
{
    match find_member(j, "Execute") {
        None => None,
        Some(e) => match (
            print_optional(Printer::Name, e, "name"),
            print_list_at(Printer::Expr, e, "parameters"),
        ) {
            (Some(name), Some(parameters)) => Some(ExecuteHead { name, parameters }),
            _ => None,
        },
    }
}

/// The `EXECUTE` of the first statement of a text, as the parser reads it.
pub open spec fn parsed_execute(sql: Seq<char>) -> Option<ExecuteHeadView> {
    match first_tree(sql) {
        Some(j) => execute_head_of(j),
        None => None,
    }
}

/// The `EXECUTE` of the first statement of a text; nothing where it has none, or the text cannot be parsed.
pub(crate) fn read_execute(sql: &str) -> (r: Option<ExecuteHead>)
    ensures
        opt_view(r) == parsed_execute(sql@),
{
    match read_first(sql) {
        Some(j) => read_execute_tree(&j),
        None => None,
    }
}

/// An `ANALYZE` or a `VACUUM`.
pub open spec fn maintained_of(j: JsonView) -> Option<MaintainedView> {
    match member_of(j, "Analyze"@) {
        Some(a) => match printed_at(Printer::Name, a, "table_name"@) {
            Some(table) => Some(MaintainedView::Analyze { table }),
            None => None,
        },
        None => match member_of(j, "Vacuum"@) {
            Some(v) => match optional_at(Printer::Name, v, "table_name"@) {
                Some(named) => Some(MaintainedView::Vacuum { named }),
                None => None,
            },
            None => None,
        },
    }
}

/// An `ANALYZE` or a `VACUUM`; nothing for another statement.
pub fn read_maintained_tree(j: &Json) -> (r: Option<Maintained>)
    ensures
        opt_view(r) == maintained_of(j@),
{
    if let Some(a) = find_member(j, "Analyze") {
        return match print_at(Printer::Name, a, "table_name") {
            Some(table) => Some(Maintained::Analyze { table }),
            None => None,
        };
    }
    match find_member(j, "Vacuum") {
        Some(v) => match print_optional(Printer::Name, v, "table_name") {
            Some(named) => Some(Maintained::Vacuum { named }),
            None => None,
        },
        None => None,
    }
}

/// The `ANALYZE` or `VACUUM` of the first statement of a text, as the parser reads it.
pub open spec fn parsed_maintained(sql: Seq<char>) -> Option<MaintainedView> {
    match first_tree(sql) {
        Some(j) => maintained_of(j),
        None => None,
    }
}

/// The `ANALYZE` or `VACUUM` of the first statement of a text; nothing where it has none, or the text cannot be parsed.
pub(crate) fn read_maintained(sql: &str) -> (r: Option<Maintained>)
    ensures
        opt_view(r) == parsed_maintained(sql@),
{
    match read_first(sql) {
        Some(j) => read_maintained_tree(&j),
        None => None,
    }
}

/// The query of a statement that is one, printed.
pub open spec fn query_of(j: JsonView) -> Option<Seq<char>> {
    printed_at(Printer::Query, j, "Query"@)
}

/// The first statement of a text, printed, where it is a query; the parser's complaint where it has
/// one.
pub open spec fn parsed_query(sql: Seq<char>) -> Result<Option<Seq<char>>, Seq<char>> {
    match script(sql) {
        Err(e) => Err(e),
        Ok(xs) => if xs.len() > 0 {
            Ok(query_of(xs[0]))
        } else {
            Ok(None)
        },
    }
}

/// The first statement of a text, printed, where it is a query; the parser's complaint where it has
/// one.
pub(crate) fn read_query(sql: &str) -> (r: Result<Option<String>, String>)
    ensures
        match r {
            Ok(q) => parsed_query(sql@) == Ok::<Option<Seq<char>>, Seq<char>>(opt_text(q)),
            Err(e) => parsed_query(sql@) == Err::<Option<Seq<char>>, Seq<char>>(e@),
        },
{
    match read_script(sql) {
        Err(e) => Err(e),
        Ok(v) => if v.len() > 0 {
            assert(script(sql@)->Ok_0[0] == json_view(v@[0]));
            Ok(print_at(Printer::Query, &v[0], "Query"))
        } else {
            Ok(None)
        },
    }
}

// ---------------------------------------------------------------------------
// Kinds of statements
// ---------------------------------------------------------------------------

/// What the engine does with a statement that the parser reads.
#[derive(Clone, Copy, PartialEq, Eq, Structural)]
pub enum StatementKind {
    Begin,
    Commit,
    Rollback,
    CreateTable,
    CreateIndex,
    CreateSequence,
    DropTable,
    DropIndex,
    DropView,
    DropSequence,
    AlterTable,
    CreateView,
    Delete,
    Update,
    Insert,
    Merge,
    Prepare,
    Execute,
    CopyFrom,
    CopyTo,
    Explain,
    Analyze,
    Vacuum,
    /// Anything else goes to the query engine as it stands.
    Query,
}

/// The kind of a `DROP`.
pub open spec fn drop_kind(object: DropObject) -> StatementKind {
    match object {
        DropObject::Table => StatementKind::DropTable,
        DropObject::Index => StatementKind::DropIndex,
        DropObject::View => StatementKind::DropView,
        DropObject::Sequence => StatementKind::DropSequence,
        DropObject::Other => StatementKind::Query,
    }
}

/// The kind of a statement, where `upper` is its text in upper case.
pub open spec fn tree_kind(j: JsonView, upper: Seq<char>) -> StatementKind {
    if is_variant_of(j, "StartTransaction"@) {
        StatementKind::Begin
    } else if is_variant_of(j, "Commit"@) {
        StatementKind::Commit
    } else if is_variant_of(j, "Rollback"@) {
        StatementKind::Rollback
    } else if is_variant_of(j, "CreateTable"@) {
        StatementKind::CreateTable
    } else if is_variant_of(j, "CreateIndex"@) {
        StatementKind::CreateIndex
    } else if is_variant_of(j, "CreateSequence"@) {
        StatementKind::CreateSequence
    } else if is_variant_of(j, "AlterTable"@) {
        StatementKind::AlterTable
    } else if is_variant_of(j, "CreateView"@) {
        StatementKind::CreateView
    } else if is_variant_of(j, "Delete"@) {
        StatementKind::Delete
    } else if is_variant_of(j, "Update"@) {
        StatementKind::Update
    } else if is_variant_of(j, "Insert"@) {
        StatementKind::Insert
    } else if is_variant_of(j, "Merge"@) {
        StatementKind::Merge
    } else if is_variant_of(j, "Prepare"@) {
        StatementKind::Prepare
    } else if is_variant_of(j, "Execute"@) {
        StatementKind::Execute
    } else if is_variant_of(j, "Explain"@) {
        StatementKind::Explain
    } else if is_variant_of(j, "Analyze"@) {
        StatementKind::Analyze
    } else if is_variant_of(j, "Vacuum"@) {
        StatementKind::Vacuum
    } else if is_variant_of(j, "Copy"@) {
        if contains_seq(upper, " FROM "@) {
            StatementKind::CopyFrom
        } else {
            StatementKind::CopyTo
        }
    } else {
        match member_of(j, "Drop"@) {
            Some(d) => drop_kind(drop_object_of(d)),
            None => StatementKind::Query,
        }
    }
}

/// The kind of a statement, where `upper` is its text in upper case.
pub fn kind_of_tree(j: &Json, upper: &str) -> (r: StatementKind)
    ensures
        r == tree_kind(j@, upper@),
{
    if is_named(j, "StartTransaction") {
        StatementKind::Begin
    } else if is_named(j, "Commit") {
        StatementKind::Commit
    } else if is_named(j, "Rollback") {
        StatementKind::Rollback
    } else if is_named(j, "CreateTable") {
        StatementKind::CreateTable
    } else if is_named(j, "CreateIndex") {
        StatementKind::CreateIndex
    } else if is_named(j, "CreateSequence") {
        StatementKind::CreateSequence
    } else if is_named(j, "AlterTable") {
        StatementKind::AlterTable
    } else if is_named(j, "CreateView") {
        StatementKind::CreateView
    } else if is_named(j, "Delete") {
        StatementKind::Delete
    } else if is_named(j, "Update") {
        StatementKind::Update
    } else if is_named(j, "Insert") {
        StatementKind::Insert
    } else if is_named(j, "Merge") {
        StatementKind::Merge
    } else if is_named(j, "Prepare") {
        StatementKind::Prepare
    } else if is_named(j, "Execute") {
        StatementKind::Execute
    } else if is_named(j, "Explain") {
        StatementKind::Explain
    } else if is_named(j, "Analyze") {
        StatementKind::Analyze
    } else if is_named(j, "Vacuum") {
        StatementKind::Vacuum
    } else if is_named(j, "Copy") {
        if contains(upper, " FROM ") {
            StatementKind::CopyFrom
        } else {
            StatementKind::CopyTo
        }
    } else {
        match find_member(j, "Drop") {
            Some(d) => match read_drop_object(d) {
                DropObject::Table => StatementKind::DropTable,
                DropObject::Index => StatementKind::DropIndex,
                DropObject::View => StatementKind::DropView,
                DropObject::Sequence => StatementKind::DropSequence,
                DropObject::Other => StatementKind::Query,
            },
            None => StatementKind::Query,
        }
    }
}

/// The kind of the one statement of a script; `None` where it cannot be parsed.
pub open spec fn script_kind(trees: Result<Seq<JsonView>, Seq<char>>, upper: Seq<char>) -> Result<
    Option<StatementKind>,
    Seq<char>,
> {
    match trees {
        Err(_) => Ok(None),
        Ok(xs) => if xs.len() != 1 {
            Err("Expected exactly one SQL statement"@)
        } else {
            Ok(Some(tree_kind(xs[0], upper)))
        },
    }
}

/// The kind of the one statement of a text, as the parser reads it.
pub open spec fn parsed_kind(sql: Seq<char>) -> Result<Option<StatementKind>, Seq<char>> {
    script_kind(script(sql), upper_text(sql))
}

/// The kind of the one statement of a text; `None` where the text cannot be parsed. A text with
/// more statements or none is refused.
pub fn parse_statement(sql: &str) -> (r: Result<Option<StatementKind>, String>)
    ensures
        match r {
            Ok(k) => parsed_kind(sql@) == Ok::<Option<StatementKind>, Seq<char>>(k),
            Err(e) => parsed_kind(sql@) == Err::<Option<StatementKind>, Seq<char>>(e@),
        },
{
    match read_script(sql) {
        Err(_) => Ok(None),
        Ok(v) => {
            if v.len() != 1 {
                return Err("Expected exactly one SQL statement".to_owned());
            }
            assert(script(sql@)->Ok_0[0] == json_view(v@[0]));
            let upper = sql.to_uppercase();
            Ok(Some(kind_of_tree(&v[0], &upper)))
        },
    }
}

/// Whether a statement changes data or definitions.
pub open spec fn is_mutating(k: StatementKind) -> bool {
    matches!(k, StatementKind::CreateTable | StatementKind::CreateIndex | StatementKind::CreateSequence
        | StatementKind::Insert | StatementKind::Delete | StatementKind::Update | StatementKind::Merge
        | StatementKind::AlterTable | StatementKind::CreateView | StatementKind::DropTable
        | StatementKind::DropIndex | StatementKind::DropView | StatementKind::DropSequence
        | StatementKind::CopyFrom | StatementKind::CopyTo)
}

/// Whether a statement that succeeds brings the write-ahead log to a checkpoint.
pub open spec fn forces_checkpoint(k: StatementKind) -> bool {
    matches!(k, StatementKind::CreateTable | StatementKind::CreateIndex | StatementKind::CreateSequence
        | StatementKind::Merge | StatementKind::AlterTable | StatementKind::CreateView
        | StatementKind::DropTable | StatementKind::DropIndex | StatementKind::DropView
        | StatementKind::DropSequence)
}

/// Whether a statement changes data or definitions.
pub fn mutates(k: StatementKind) -> (r: bool)
    ensures
        r == is_mutating(k),
{
    match k {
        StatementKind::Begin => false,
        StatementKind::Commit => false,
        StatementKind::Rollback => false,
        StatementKind::Prepare => false,
        StatementKind::Execute => false,
        StatementKind::Explain => false,
        StatementKind::Analyze => false,
        StatementKind::Vacuum => false,
        StatementKind::Query => false,
        _ => true,
    }
}

/// Whether a statement that succeeds brings the write-ahead log to a checkpoint.
pub fn checkpoints(k: StatementKind) -> (r: bool)
    ensures
        r == forces_checkpoint(k),
{
    match k {
        StatementKind::Insert => false,
        StatementKind::Delete => false,
        StatementKind::Update => false,
        StatementKind::CopyFrom => false,
        StatementKind::CopyTo => false,
        _ => mutates(k),
    }
}

/// The first text of a list, if there is one.
pub open spec fn first_text(v: Seq<Seq<char>>) -> Option<Seq<char>> {
    if v.len() > 0 {
        Some(v[0])
    } else {
        None
    }
}

/// The table that a relation of `MERGE` stands for, or its text.
pub open spec fn relation_text(r: ParsedRelationView) -> Seq<char> {
    match r {
        ParsedRelationView::Table { name, .. } => trim_matches_text(name, '"'),
        ParsedRelationView::Query { text, alias } => text,
        ParsedRelationView::Other { text } => text,
    }
}

/// The table that a statement changes, as far as the statement names one.
pub open spec fn mutated_table(k: StatementKind, sql: Seq<char>) -> Option<Seq<char>> {
    match k {
        StatementKind::Insert => match parsed_insert(sql) {
            Some(h) => Some(h.table),
            None => None,
        },
        StatementKind::Update => match parsed_update(sql) {
            Some(h) => Some(h.table),
            None => None,
        },
        StatementKind::Merge => match parsed_merge(sql) {
            Some(h) => Some(relation_text(h.target)),
            None => None,
        },
        StatementKind::Delete => match parsed_delete(sql) {
            Some(h) => first_text(h.tables),
            None => None,
        },
        StatementKind::DropTable | StatementKind::DropIndex | StatementKind::DropView
        | StatementKind::DropSequence => match parsed_drop(sql) {
            Some(h) => first_text(h.names),
            None => None,
        },
        StatementKind::AlterTable => match parsed_alter(sql) {
            Some(h) => Some(h.name),
            None => None,
        },
        _ => None,
    }
}

fn take_first(v: &Vec<String>) -> (r: Option<String>)
    ensures
        opt_text(r) == first_text(texts(v@)),
{
    assert(texts(v@).len() == v@.len());
    if v.len() > 0 {
        assert(texts(v@)[0] == v@[0]@);
        Some(v[0].clone())
    } else {
        None
    }
}

/// The table that a statement changes, as far as the statement names one.
pub fn extract_mutated_table(k: StatementKind, sql: &str) -> (r: Option<String>)
    ensures
        opt_text(r) == mutated_table(k, sql@),
{
    match k {
        StatementKind::Insert => match read_insert(sql) {
            Some(h) => Some(h.table),
            None => None,
        },
        StatementKind::Update => match read_update(sql) {
            Some(h) => Some(h.table),
            None => None,
        },
        StatementKind::Merge => match read_merge(sql) {
            None => None,
            Some(h) => match h.target {
                ParsedRelation::Table { name, .. } => Some(trim_matches(&name, '"')),
                ParsedRelation::Query { text, .. } => Some(text),
                ParsedRelation::Other { text } => Some(text),
            },
        },
        StatementKind::Delete => match read_delete(sql) {
            Some(h) => take_first(&h.tables),
            None => None,
        },
        StatementKind::DropTable | StatementKind::DropIndex | StatementKind::DropView
        | StatementKind::DropSequence => match read_drop(sql) {
            Some(h) => take_first(&h.names),
            None => None,
        },
        StatementKind::AlterTable => match read_alter(sql) {
            Some(h) => Some(h.name),
            None => None,
        },
        _ => None,
    }
}

// ---------------------------------------------------------------------------
// The parts of small statements
// ---------------------------------------------------------------------------

/// The name, or the empty text where there is none.
pub open spec fn name_or_empty(name: Option<Seq<char>>) -> Seq<char> {
    match name {
        Some(n) => n,
        None => Seq::empty(),
    }
}

/// The sequence that a `CREATE SEQUENCE` names, with its options; nothing for another statement.
pub fn parse_create_sequence(sql: &str) -> (r: Option<SequenceHead>)
    ensures
        opt_view(r) == parsed_sequence(sql@),
{
    read_sequence(sql)
}

/// The name and the statement of a `PREPARE`; nothing for another statement.
pub fn parse_prepare(sql: &str) -> (r: Option<PrepareHead>)
    ensures
        opt_view(r) == parsed_prepare(sql@),
{
    read_prepare(sql)
}

/// What a `DROP` drops: the first name, and whether it may be missing.
pub open spec fn drop_operand(head: Option<DropHeadView>) -> Option<(Seq<char>, bool)> {
    match head {
        None => None,
        Some(h) => Some((name_or_empty(first_text(h.names)), h.if_exists)),
    }
}

/// What a `DROP` drops: the first name, and whether it may be missing; nothing for another statement.
pub fn parse_drop(sql: &str) -> (r: Option<(String, bool)>)
    ensures
        match r {
            Some(p) => drop_operand(parsed_drop(sql@)) == Some((p.0@, p.1)),
            None => parsed_drop(sql@) is None,
        },
{
    match read_drop(sql) {
        None => None,
        Some(h) => {
            assert(texts(h.names@).len() == h.names@.len());
            let name = if h.names.len() > 0 {
                assert(texts(h.names@)[0] == h.names@[0]@);
                h.names[0].clone()
            } else {
                String::new()
            };
            Some((name, h.if_exists))
        },
    }
}

/// The prepared statement that an `EXECUTE` names, with its parameters.
pub open spec fn execute_operand(head: Option<ExecuteHeadView>) -> Option<
    (Seq<char>, Seq<Seq<char>>),
> {
    match head {
        None => None,
        Some(h) => Some((name_or_empty(h.name), h.parameters)),
    }
}

/// The prepared statement that an `EXECUTE` names, with its parameters; nothing for another
/// statement.
pub fn parse_execute(sql: &str) -> (r: Option<(String, Vec<String>)>)
    ensures
        match r {
            Some(p) => execute_operand(parsed_execute(sql@)) == Some((p.0@, texts(p.1@))),
            None => parsed_execute(sql@) is None,
        },
{
    match read_execute(sql) {
        None => None,
        Some(h) => {
            let name = match h.name {
                Some(n) => n,
                None => String::new(),
            };
            Some((name, h.parameters))
        },
    }
}

/// The table that an `ANALYZE` or a `VACUUM` looks after.
pub open spec fn maintained_operand(m: Option<MaintainedView>) -> Option<
    Result<Seq<char>, Seq<char>>,
> {
    match m {
        None => None,
        Some(MaintainedView::Analyze { table }) => Some(Ok(table)),
        Some(MaintainedView::Vacuum { named }) => match named {
            Some(table) => Some(Ok(table)),
            None => Some(Err("VACUUM requires a table name"@)),
        },
    }
}

/// The table that an `ANALYZE` or a `VACUUM` looks after; nothing for another statement.
pub fn parse_maintained(sql: &str) -> (r: Option<Result<String, String>>)
    ensures
        match r {
            None => parsed_maintained(sql@) is None,
            Some(Ok(t)) => maintained_operand(parsed_maintained(sql@)) == Some(
                Ok::<Seq<char>, Seq<char>>(t@),
            ),
            Some(Err(e)) => maintained_operand(parsed_maintained(sql@)) == Some(
                Err::<Seq<char>, Seq<char>>(e@),
            ),
        },
{
    match read_maintained(sql) {
        None => None,
        Some(Maintained::Analyze { table }) => Some(Ok(table)),
        Some(Maintained::Vacuum { named }) => match named {
            Some(table) => Some(Ok(table)),
            None => Some(Err("VACUUM requires a table name".to_owned())),
        },
    }
}

// ---------------------------------------------------------------------------
// Laws
// ---------------------------------------------------------------------------

/// Only statements that change something bring the log to a checkpoint.
pub proof fn law_checkpoints_are_mutations(k: StatementKind)
    ensures
        forces_checkpoint(k) ==> is_mutating(k),
{
}

/// A text that does not hold exactly one statement is refused or left to the fallback, never run.
pub proof fn law_one_statement(trees: Result<Seq<JsonView>, Seq<char>>, upper: Seq<char>)
    ensures
        script_kind(trees, upper) matches Ok(Some(_)) ==> trees is Ok && trees->Ok_0.len() == 1,
{
}

/// Each action of a foreign key has its own words, and each match of a `MERGE` its own kind.
pub proof fn law_actions_and_matches()
    ensures
        action_words(JsonView::Text("Restrict"@)) == Some("RESTRICT"@),
        action_words(JsonView::Text("Cascade"@)) == Some("CASCADE"@),
        action_words(JsonView::Text("SetNull"@)) == Some("SET NULL"@),
        action_words(JsonView::Text("NoAction"@)) == Some("NO ACTION"@),
        action_words(JsonView::Text("SetDefault"@)) == Some("SET DEFAULT"@),
        merge_match_of(JsonView::Text("Matched"@)) == Some(MergeMatch::Matched),
        merge_match_of(JsonView::Text("NotMatched"@)) == Some(MergeMatch::NotMatched),
        merge_match_of(JsonView::Text("NotMatchedByTarget"@)) == Some(
            MergeMatch::NotMatchedByTarget,
        ),
        merge_match_of(JsonView::Text("NotMatchedBySource"@)) == Some(
            MergeMatch::NotMatchedBySource,
        ),
{
    reveal_strlit("Restrict");
    reveal_strlit("Cascade");
    reveal_strlit("SetNull");
    reveal_strlit("NoAction");
    reveal_strlit("SetDefault");
    reveal_strlit("Matched");
    reveal_strlit("NotMatched");
    reveal_strlit("NotMatchedByTarget");
    reveal_strlit("NotMatchedBySource");
    assert("Restrict"@[0] == 'R' && "Cascade"@[0] == 'C' && "SetNull"@[0] == 'S');
    assert("NoAction"@[0] == 'N' && "SetDefault"@.len() == 10 && "SetNull"@.len() == 7);
    assert("SetDefault"@[0] == 'S');
    assert("Matched"@.len() == 7 && "NotMatched"@.len() == 10);
    assert("NotMatchedByTarget"@.len() == 18 && "NotMatchedBySource"@.len() == 18);
    assert("NotMatchedByTarget"@[12] == 'T' && "NotMatchedBySource"@[12] == 'S');
}

} // verus!
