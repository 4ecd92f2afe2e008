//! The definition of tables: what `CREATE TABLE` reads, and what it leaves in the catalog.
use vstd::prelude::*;
use vstd::string::*;

use crate::catalog::{saved, Catalog, CatalogState};
use crate::catalog_types::{
    ColumnDef, ColumnView, ConstraintView, TableConstraint, TableMeta, TableView,
};
use crate::dup::{all_wf, opt_view, views, Dup};
use crate::numbers::{decimal, print_usize};
use crate::outcome::{answered, checked, Check, CheckView};
use crate::statement::{
    opt_views, parsed_columns, parsed_constraints, read_columns, read_constraints, read_table_head,
    table_head, ParsedColumn, ParsedColumnView, ParsedConstraint, ParsedConstraintView, TableHead,
    TableHeadView,
};
use crate::text::{
    char_index, clone_strings, concat2, concat3, find_char_from, from_chars, is_space,
    is_whitespace, opt_text, pieces, split_char, texts, to_chars, trim, trim_matches,
    trim_matches_text, trim_text,
};
use crate::types::{arrow_type_to_sql_string, sql_name, ArrowType};

verus! {

// ---------------------------------------------------------------------------
// Columns
// ---------------------------------------------------------------------------

/// The column that a definition stands for: nullable unless one of its options says otherwise.
pub open spec fn defined_column(c: ParsedColumnView) -> ColumnView {
    ColumnView { name: c.name, data_type: c.data_type, nullable: !c.not_null.contains(true) }
}

/// The columns that definitions stand for.
pub open spec fn defined_columns(cs: Seq<ParsedColumnView>) -> Seq<ColumnView> {
    Seq::new(cs.len(), |i: int| defined_column(cs[i]))
}

/// The column that a definition stands for.
pub fn sql_column_to_catalog(c: &ParsedColumn) -> (r: ColumnDef)
    ensures
        r@ == defined_column(c@),
        r.wf(),
{
    let mut nullable: bool = true;
    let mut i: usize = 0;
    while i < c.not_null.len()
        invariant
            i <= c.not_null@.len(),
            nullable == (forall|j: int| 0 <= j < i ==> !c.not_null@[j]),
        decreases c.not_null@.len() - i,
    {
        if c.not_null[i] {
            nullable = false;
        }
        i += 1;
    }
    proof {
        if nullable {
            assert(!c.not_null@.contains(true));
        } else {
            let j = choose|j: int| 0 <= j < i && c.not_null@[j];
            assert(c.not_null@[j] == true);
        }
    }
    ColumnDef { name: c.name.clone(), data_type: c.data_type.clone(), nullable }
}

fn define_columns(cs: &Vec<ParsedColumn>) -> (r: Vec<ColumnDef>)
    ensures
        views(r@) == defined_columns(views(cs@)),
        all_wf(r@),
{
    let mut out: Vec<ColumnDef> = Vec::new();
    let mut i: usize = 0;
    while i < cs.len()
        invariant
            i <= cs@.len(),
            out@.len() == i,
            all_wf(out@),
            forall|j: int| 0 <= j < i ==> (#[trigger] out@[j])@ == defined_column(cs@[j]@),
        decreases cs@.len() - i,
    {
        let c = sql_column_to_catalog(&cs[i]);
        out.push(c);
        i += 1;
    }
    assert(views(out@) =~= defined_columns(views(cs@)));
    out
}

// ---------------------------------------------------------------------------
// Constraints
// ---------------------------------------------------------------------------

/// The name of a constraint, or one made of a word and its position.
pub open spec fn constraint_name(name: Option<Seq<char>>, word: Seq<char>, i: nat) -> Seq<char> {
    match name {
        Some(n) => n,
        None => word + decimal(i),
    }
}

/// The constraint that stands at position `i`, as far as the engine keeps it.
pub open spec fn defined_constraint(c: ParsedConstraintView, i: nat) -> Option<ConstraintView> {
    match c {
        ParsedConstraintView::PrimaryKey { columns } => Some(
            ConstraintView::PrimaryKey { columns },
        ),
        ParsedConstraintView::Unique { name, columns } => Some(
            ConstraintView::Unique { name: constraint_name(name, "unique_"@, i), columns },
        ),
        ParsedConstraintView::Check { name, expr } => Some(
            ConstraintView::Check { name: constraint_name(name, "check_"@, i), expr },
        ),
        ParsedConstraintView::ForeignKey {
            name,
            columns,
            ref_table,
            ref_columns,
            on_delete,
            on_update,
        } => Some(
            ConstraintView::ForeignKey {
                name: constraint_name(name, "fk_"@, i),
                columns,
                ref_table,
                ref_columns,
                on_delete,
                on_update,
            },
        ),
        ParsedConstraintView::Other => None,
    }
}

/// Those of the first `n` constraints that the engine keeps.
pub open spec fn defined_constraints(cs: Seq<ParsedConstraintView>, n: nat) -> Seq<ConstraintView>
    decreases n,
{
    if n == 0 || n > cs.len() {
        Seq::empty()
    } else {
        let rest = defined_constraints(cs, (n - 1) as nat);
        match defined_constraint(cs[n - 1], (n - 1) as nat) {
            Some(c) => rest.push(c),
            None => rest,
        }
    }
}

fn name_or(name: &Option<String>, word: &str, i: usize) -> (r: String)
    ensures
        r@ == constraint_name(opt_text(*name), word@, i as nat),
{
    match name {
        Some(n) => n.clone(),
        None => concat2(word, &print_usize(i)),
    }
}

fn define_constraint(c: &ParsedConstraint, i: usize) -> (r: Option<TableConstraint>)
    ensures
        opt_view(r) == defined_constraint(c@, i as nat),
        r matches Some(c) ==> c.wf(),
{
    match c {
        ParsedConstraint::PrimaryKey { columns } => Some(
            TableConstraint::PrimaryKey { columns: clone_strings(columns) },
        ),
        ParsedConstraint::Unique { name, columns } => Some(
            TableConstraint::Unique {
                name: name_or(name, "unique_", i),
                columns: clone_strings(columns),
            },
        ),
        ParsedConstraint::Check { name, expr } => Some(
            TableConstraint::Check { name: name_or(name, "check_", i), expr: expr.clone() },
        ),
        ParsedConstraint::ForeignKey {
            name,
            columns,
            ref_table,
            ref_columns,
            on_delete,
            on_update,
        } => Some(
            TableConstraint::ForeignKey {
                name: name_or(name, "fk_", i),
                columns: clone_strings(columns),
                ref_table: ref_table.clone(),
                ref_columns: clone_strings(ref_columns),
                on_delete: crate::dup::dup_opt_string(on_delete),
                on_update: crate::dup::dup_opt_string(on_update),
            },
        ),
        ParsedConstraint::Other => None,
    }
}

/// The constraints of a table that the engine keeps.
pub fn sql_constraints_to_catalog(cs: &Vec<ParsedConstraint>) -> (r: Vec<TableConstraint>)
    ensures
        views(r@) == defined_constraints(views(cs@), cs@.len()),
        all_wf(r@),
{
    let mut out: Vec<TableConstraint> = Vec::new();
    let ghost all = views(cs@);
    let mut i: usize = 0;
    assert(views(out@) == Seq::<ConstraintView>::empty());
    while i < cs.len()
        invariant
            i <= cs@.len(),
            all == views(cs@),
            all.len() == cs@.len(),
            all_wf(out@),
            views(out@) == defined_constraints(all, i as nat),
        decreases cs@.len() - i,
    {
        assert(all[i as int] == cs@[i as int]@);
        let ghost done = out@;
        match define_constraint(&cs[i], i) {
            Some(c) => {
                let ghost cv = c@;
                out.push(c);
                assert(views(out@) =~= views(done).push(cv));
            },
            None => {},
        }
        i += 1;
    }
    out
}

// ---------------------------------------------------------------------------
// Partitions
// ---------------------------------------------------------------------------

/// The position of the last `c` among the first `n` characters.
pub open spec fn last_char(s: Seq<char>, c: char, n: nat) -> Option<int>
    decreases n,
{
    if n == 0 || n > s.len() {
        None
    } else if s[n - 1] == c {
        Some(n - 1)
    } else {
        last_char(s, c, (n - 1) as nat)
    }
}

/// What stands between the first opening and the last closing parenthesis, or the whole text.
pub open spec fn inside_parens(s: Seq<char>) -> Seq<char> {
    match (char_index(s, '('), last_char(s, ')', s.len())) {
        (Some(open), Some(close)) => if close > open {
            s.subrange(open + 1, close)
        } else {
            s
        },
        _ => s,
    }
}

/// Whether a character is a parenthesis or white space.
pub open spec fn is_margin(c: char) -> bool {
    c == '(' || c == ')' || is_space(c)
}

/// The first position from `i` on that is no margin.
pub open spec fn skip_margin(s: Seq<char>, i: int) -> int
    decreases s.len() - i,
{
    if 0 <= i < s.len() && is_margin(s[i]) {
        skip_margin(s, i + 1)
    } else {
        i
    }
}

/// The last position from `j` down behind which there is no margin, not below `i`.
pub open spec fn back_margin(s: Seq<char>, i: int, j: int) -> int
    decreases j - i,
{
    if i < j <= s.len() && 0 <= i && is_margin(s[j - 1]) {
        back_margin(s, i, j - 1)
    } else {
        j
    }
}

/// The text without parentheses and white space around it.
pub open spec fn trim_margin(s: Seq<char>) -> Seq<char> {
    let i = skip_margin(s, 0);
    s.subrange(i, back_margin(s, i, s.len() as int))
}

/// The names among the first `n` items of a list that are not empty, without quotes.
pub open spec fn listed_names(items: Seq<Seq<char>>, n: nat) -> Seq<Seq<char>>
    decreases n,
{
    if n == 0 || n > items.len() {
        Seq::empty()
    } else {
        let rest = listed_names(items, (n - 1) as nat);
        let name = trim_matches_text(trim_text(items[n - 1]), '"');
        if name.len() == 0 {
            rest
        } else {
            rest.push(name)
        }
    }
}

/// The columns of a `PARTITION BY` clause.
pub open spec fn partition_names(clause: Seq<char>) -> Seq<Seq<char>> {
    let items = pieces(trim_margin(inside_parens(clause)), ',');
    listed_names(items, items.len())
}

fn margin(c: char) -> (r: bool)
    ensures
        r == is_margin(c),
{
    c == '(' || c == ')' || is_whitespace(c)
}

fn last_char_at(v: &Vec<char>, c: char) -> (r: Option<usize>)
    ensures
        match r {
            Some(k) => last_char(v@, c, v@.len()) == Some(k as int) && k < v@.len(),
            None => last_char(v@, c, v@.len()) is None,
        },
{
    let mut n: usize = v.len();
    while n > 0
        invariant
            n <= v@.len(),
            last_char(v@, c, v@.len()) == last_char(v@, c, n as nat),
        decreases n,
    {
        if v[n - 1] == c {
            return Some(n - 1);
        }
        n -= 1;
    }
    None
}

fn cut_parens(s: &str) -> (r: String)
    ensures
        r@ == inside_parens(s@),
{
    let v = to_chars(s);
    match (find_char_from(&v, '(', 0), last_char_at(&v, ')')) {
        (Some(open), Some(close)) => {
            if close > open {
                return from_chars(&v, open + 1, close);
            }
        },
        _ => {},
    }
    s.to_owned()
}

fn cut_margin(s: &str) -> (r: String)
    ensures
        r@ == trim_margin(s@),
{
    let v = to_chars(s);
    let n: usize = v.len();
    let mut i: usize = 0;
    while i < n && margin(v[i])
        invariant
            i <= n,
            n == v@.len(),
            skip_margin(v@, 0) == skip_margin(v@, i as int),
        decreases n - i,
    {
        i += 1;
    }
    let mut j: usize = n;
    while j > i && margin(v[j - 1])
        invariant
            i <= j <= n,
            n == v@.len(),
            back_margin(v@, i as int, n as int) == back_margin(v@, i as int, j as int),
        decreases j,
    {
        j -= 1;
    }
    from_chars(&v, i, j)
}

/// The columns of a `PARTITION BY` clause.
pub fn partition_columns(clause: &str) -> (r: Vec<String>)
    ensures
        texts(r@) == partition_names(clause@),
{
    let inner = cut_margin(&cut_parens(clause));
    let items = split_char(&inner, ',');
    let ghost iv = texts(items@);
    let mut out: Vec<String> = Vec::new();
    let mut i: usize = 0;
    assert(texts(out@) == Seq::<Seq<char>>::empty());
    while i < items.len()
        invariant
            i <= items@.len(),
            iv == texts(items@),
            iv.len() == items@.len(),
            texts(out@) == listed_names(iv, i as nat),
        decreases items@.len() - i,
    {
        assert(iv[i as int] == items@[i as int]@);
        let ghost done = out@;
        let name = trim_matches(&trim(&items[i]), '"');
        if !name.as_str().is_empty() {
            let ghost nv = name@;
            out.push(name);
            assert(texts(out@) =~= texts(done).push(nv));
        }
        i += 1;
    }
    out
}

// ---------------------------------------------------------------------------
// CREATE TABLE
// ---------------------------------------------------------------------------

/// A table that `CREATE TABLE` describes.
pub struct NewTable {
    pub name: String,
    /// The whole statement as the parser prints it.
    pub text: String,
    pub if_not_exists: bool,
    pub columns: Vec<ColumnDef>,
    pub constraints: Vec<TableConstraint>,
    pub partition_columns: Vec<String>,
    /// The query of `CREATE TABLE ... AS`.
    pub query: Option<String>,
}

/// What a [`NewTable`] says.
pub struct NewTableView {
    pub name: Seq<char>,
    pub text: Seq<char>,
    pub if_not_exists: bool,
    pub columns: Seq<ColumnView>,
    pub constraints: Seq<ConstraintView>,
    pub partition_columns: Seq<Seq<char>>,
    pub query: Option<Seq<char>>,
}

impl View for NewTable {
    type V = NewTableView;

    open spec fn view(&self) -> NewTableView {
        NewTableView {
            name: self.name@,
            text: self.text@,
            if_not_exists: self.if_not_exists,
            columns: views(self.columns@),
            constraints: views(self.constraints@),
            partition_columns: texts(self.partition_columns@),
            query: opt_text(self.query),
        }
    }
}

/// The list of an optional list, or the empty one.
pub open spec fn list_or_empty<T>(o: Option<Seq<T>>) -> Seq<T> {
    match o {
        Some(s) => s,
        None => Seq::empty(),
    }
}

/// The table that the parts of a `CREATE TABLE` describe.
pub open spec fn described_table(
    head: TableHeadView,
    columns: Seq<ParsedColumnView>,
    constraints: Seq<ParsedConstraintView>,
) -> NewTableView {
    NewTableView {
        name: head.name,
        text: head.text,
        if_not_exists: head.if_not_exists,
        columns: defined_columns(columns),
        constraints: defined_constraints(constraints, constraints.len()),
        partition_columns: match head.partition_by {
            Some(clause) => partition_names(clause),
            None => Seq::empty(),
        },
        query: head.query,
    }
}

/// The table that a `CREATE TABLE` describes, as the parser reads the statement.
pub open spec fn created_table(sql: Seq<char>) -> Option<NewTableView> {
    match table_head(sql) {
        None => None,
        Some(head) => Some(
            described_table(
                head,
                list_or_empty(parsed_columns(sql)),
                list_or_empty(parsed_constraints(sql)),
            ),
        ),
    }
}

/// The table that the parts of a `CREATE TABLE` describe.
pub fn describe_table(
    head: TableHead,
    columns: &Vec<ParsedColumn>,
    constraints: &Vec<ParsedConstraint>,
) -> (r: NewTable)
    ensures
        r@ == described_table(head@, views(columns@), views(constraints@)),
        all_wf(r.columns@),
        all_wf(r.constraints@),
{
    assert(views(constraints@).len() == constraints@.len());
    let partitions = match &head.partition_by {
        Some(clause) => partition_columns(clause),
        None => Vec::new(),
    };
    proof {
        if head.partition_by is None {
            assert(texts(partitions@) =~= Seq::<Seq<char>>::empty());
        }
    }
    NewTable {
        name: head.name,
        text: head.text,
        if_not_exists: head.if_not_exists,
        columns: define_columns(columns),
        constraints: sql_constraints_to_catalog(constraints),
        partition_columns: partitions,
        query: head.query,
    }
}

fn list_or_new<T: View>(o: Option<Vec<T>>) -> (r: Vec<T>)
    ensures
        views(r@) == list_or_empty(crate::statement::opt_views(o)),
{
    match o {
        Some(v) => v,
        None => {
            let v: Vec<T> = Vec::new();
            assert(views(v@) =~= Seq::<T::V>::empty());
            v
        },
    }
}

/// The table that a `CREATE TABLE` describes.
pub fn parse_create_table(sql: &str) -> (r: Option<NewTable>)
    ensures
        opt_view(r) == created_table(sql@),
        r matches Some(t) ==> all_wf(t.columns@) && all_wf(t.constraints@),
{
    match read_table_head(sql) {
        None => None,
        Some(head) => {
            let columns = list_or_new(read_columns(sql));
            let constraints = list_or_new(read_constraints(sql));
            Some(describe_table(head, &columns, &constraints))
        },
    }
}

/// What `CREATE TABLE` comes to.
pub open spec fn create_table_check(c: CatalogState, t: NewTableView) -> Result<
    CheckView,
    Seq<char>,
> {
    if !c.tables.dom().contains(t.name) {
        Ok(CheckView::Go(t.text))
    } else if t.if_not_exists {
        Ok(CheckView::Done("Table '"@ + t.name + "' already exists, skipping."@))
    } else {
        Err("Table '"@ + t.name + "' already exists"@)
    }
}

/// The entry of a table that was just created.
pub open spec fn fresh_table(
    name: Seq<char>,
    columns: Seq<ColumnView>,
    path: Seq<char>,
    partition_columns: Seq<Seq<char>>,
    constraints: Seq<ConstraintView>,
) -> TableView {
    TableView {
        name,
        columns,
        path,
        partition_columns,
        statistics: None,
        retention_seconds: None,
        constraints,
        file_stats: Seq::empty(),
        deletion_vectors: Seq::empty(),
    }
}

/// A column of the result of a query.
pub struct FieldInfo {
    pub name: String,
    pub data_type: ArrowType,
    pub nullable: bool,
}

/// The columns that `CREATE TABLE ... AS` takes over from a query.
pub open spec fn query_columns(fields: Seq<FieldInfo>) -> Seq<ColumnView> {
    Seq::new(
        fields.len(),
        |i: int|
            ColumnView {
                name: fields[i].name@,
                data_type: sql_name(fields[i].data_type),
                nullable: fields[i].nullable,
            },
    )
}

/// The columns that `CREATE TABLE ... AS` takes over from a query.
pub fn columns_of_query(fields: &Vec<FieldInfo>) -> (r: Vec<ColumnDef>)
    ensures
        views(r@) == query_columns(fields@),
        all_wf(r@),
{
    let mut out: Vec<ColumnDef> = Vec::new();
    let mut i: usize = 0;
    while i < fields.len()
        invariant
            i <= fields@.len(),
            out@.len() == i,
            all_wf(out@),
            forall|j: int| 0 <= j < i ==> (#[trigger] out@[j])@ == query_columns(fields@)[j],
        decreases fields@.len() - i,
    {
        out.push(
            ColumnDef {
                name: fields[i].name.clone(),
                data_type: arrow_type_to_sql_string(&fields[i].data_type),
                nullable: fields[i].nullable,
            },
        );
        i += 1;
    }
    assert(views(out@) =~= query_columns(fields@));
    out
}

impl Catalog {
    /// What `CREATE TABLE` comes to.
    pub fn check_create_table(&self, t: &NewTable) -> (r: Result<Check, String>)
        requires
            self.wf(),
        ensures
            checked(r) == create_table_check(self@, t@),
    {
        if !self.tables.contains_key(&t.name) {
            return Ok(Check::Go(t.text.clone()));
        }
        if t.if_not_exists {
            Ok(Check::Done(concat3("Table '", &t.name, "' already exists, skipping.")))
        } else {
            Err(concat3("Table '", &t.name, "' already exists"))
        }
    }

    /// Enters a table that was just created at `path`.
    pub fn enter_table(
        &mut self,
        name: &str,
        columns: Vec<ColumnDef>,
        path: &str,
        partition_columns: Vec<String>,
        constraints: Vec<TableConstraint>,
    ) -> (r: String)
        requires
            old(self).wf(),
            all_wf(columns@),
            all_wf(constraints@),
        ensures
            final(self).wf(),
            r@ == "Table '"@ + name@ + "' created."@,
            saved(old(self), final(self)),
            final(self)@ == (CatalogState {
                tables: old(self)@.tables.insert(
                    name@,
                    fresh_table(
                        name@,
                        views(columns@),
                        path@,
                        texts(partition_columns@),
                        views(constraints@),
                    ),
                ),
                ..old(self)@
            }),
    {
        let meta = TableMeta {
            name: name.to_owned(),
            columns,
            path: path.to_owned(),
            partition_columns,
            statistics: None,
            retention_seconds: None,
            constraints,
            file_stats: Vec::new(),
            deletion_vectors: Vec::new(),
        };
        proof {
            assert(views(meta.file_stats@)
                =~= Seq::<crate::catalog_types::FileStatsView>::empty());
            assert(views(meta.deletion_vectors@)
                =~= Seq::<crate::catalog_types::DeletionView>::empty());
        }
        self.add_table(meta);
        concat3("Table '", name, "' created.")
    }

    /// Enters the table of a `CREATE TABLE` without a query. A table without columns is refused and
    /// nothing changes.
    pub fn handle_create_table(&mut self, t: NewTable, path: &str) -> (r: Result<String, String>)
        requires
            old(self).wf(),
            all_wf(t.columns@),
            all_wf(t.constraints@),
        ensures
            final(self).wf(),
            if t@.columns.len() == 0 {
                &&& answered(r) == Err::<Seq<char>, Seq<char>>(
                    "CREATE TABLE requires at least one column"@,
                )
                &&& *final(self) == *old(self)
            } else {
                &&& answered(r) == Ok::<Seq<char>, Seq<char>>("Table '"@ + t@.name + "' created."@)
                &&& saved(old(self), final(self))
                &&& final(self)@ == (CatalogState {
                    tables: old(self)@.tables.insert(
                        t@.name,
                        fresh_table(
                            t@.name,
                            t@.columns,
                            path@,
                            t@.partition_columns,
                            t@.constraints,
                        ),
                    ),
                    ..old(self)@
                })
            },
    {
        assert(views(t.columns@).len() == t.columns@.len());
        if t.columns.len() == 0 {
            return Err("CREATE TABLE requires at least one column".to_owned());
        }
        let name = t.name;
        Ok(self.enter_table(&name, t.columns, path, t.partition_columns, t.constraints))
    }
}

/// The statement that fills a table which `CREATE TABLE ... AS` has made.
pub fn fill_statement(table: &str) -> (r: String)
    ensures
        r@ == "INSERT INTO \""@ + table@ + "\" SELECT * FROM __potato_ctas_tmp"@,
{
    concat3("INSERT INTO \"", table, "\" SELECT * FROM __potato_ctas_tmp")
}

// ---------------------------------------------------------------------------
// Laws
// ---------------------------------------------------------------------------

/// Without `NOT NULL` among its options a column takes nulls; with it, it does not.
pub proof fn law_not_null_is_kept(c: ParsedColumnView, i: int)
    requires
        0 <= i < c.not_null.len(),
        c.not_null[i],
    ensures
        !defined_column(c).nullable,
{
    assert(c.not_null[i] == true);
}

/// Every constraint that is kept was written down: there are no more of them, and those without a
/// sort that the engine knows are the only ones that are left out.
pub proof fn law_no_constraint_is_invented(cs: Seq<ParsedConstraintView>, n: nat)
    requires
        n <= cs.len(),
    ensures
        defined_constraints(cs, n).len() <= n,
        (forall|i: int| 0 <= i < n ==> !(#[trigger] cs[i] is Other)) ==> defined_constraints(
            cs,
            n,
        ).len() == n,
    decreases n,
{
    if n > 0 {
        law_no_constraint_is_invented(cs, (n - 1) as nat);
    }
}

/// Every constraint that the engine knows is kept, with what it says. One without a name is named by its
/// sort and its place.
pub proof fn law_known_constraints_are_kept(cs: Seq<ParsedConstraintView>, n: nat, i: int)
    requires
        0 <= i < n <= cs.len(),
    ensures
        ({
            let kept = defined_constraints(cs, n);
            match cs[i] {
                ParsedConstraintView::PrimaryKey { columns } => kept.contains(
                    ConstraintView::PrimaryKey { columns },
                ),
                ParsedConstraintView::Unique { name, columns } => kept.contains(
                    ConstraintView::Unique {
                        name: if name is Some {
                            name->0
                        } else {
                            "unique_"@ + decimal(i as nat)
                        },
                        columns,
                    },
                ),
                ParsedConstraintView::Check { name, expr } => kept.contains(
                    ConstraintView::Check {
                        name: if name is Some {
                            name->0
                        } else {
                            "check_"@ + decimal(i as nat)
                        },
                        expr,
                    },
                ),
                ParsedConstraintView::ForeignKey {
                    name,
                    columns,
                    ref_table,
                    ref_columns,
                    on_delete,
                    on_update,
                } => kept.contains(
                    ConstraintView::ForeignKey {
                        name: if name is Some {
                            name->0
                        } else {
                            "fk_"@ + decimal(i as nat)
                        },
                        columns,
                        ref_table,
                        ref_columns,
                        on_delete,
                        on_update,
                    },
                ),
                ParsedConstraintView::Other => true,
            }
        }),
    decreases n,
{
    let rest = defined_constraints(cs, (n - 1) as nat);
    let kept = defined_constraints(cs, n);
    if let Some(x) = defined_constraint(cs[i], i as nat) {
        if i == n - 1 {
            assert(kept[rest.len() as int] == x);
        } else {
            law_known_constraints_are_kept(cs, (n - 1) as nat, i);
            assert(rest.contains(x));
            let k = choose|k: int| 0 <= k < rest.len() && rest[k] == x;
            assert(kept[k] == x);
        }
    }
}

/// A column takes nulls exactly where none of its options forbids them, and keeps its name and its type.
pub proof fn law_defined_columns(c: ParsedColumnView)
    ensures
        defined_column(c).nullable <==> forall|i: int|
            0 <= i < c.not_null.len() ==> !#[trigger] c.not_null[i],
        defined_column(c).name == c.name,
        defined_column(c).data_type == c.data_type,
{
    if c.not_null.contains(true) {
        let i = choose|i: int| 0 <= i < c.not_null.len() && c.not_null[i] == true;
        assert(c.not_null[i]);
    } else {
        assert forall|i: int| 0 <= i < c.not_null.len() implies !#[trigger] c.not_null[i] by {
            if c.not_null[i] {
                assert(c.not_null[i] == true);
            }
        }
    }
}

/// A table that was just created has nothing known of it but what it was created with.
pub proof fn law_fresh_tables_are_bare(
    name: Seq<char>,
    columns: Seq<ColumnView>,
    path: Seq<char>,
    partition_columns: Seq<Seq<char>>,
    constraints: Seq<ConstraintView>,
)
    ensures
        ({
            let t = fresh_table(name, columns, path, partition_columns, constraints);
            &&& t.name == name && t.columns == columns && t.path == path
            &&& t.partition_columns == partition_columns && t.constraints == constraints
            &&& t.statistics is None && t.retention_seconds is None
            &&& t.file_stats.len() == 0 && t.deletion_vectors.len() == 0
        }),
{
}

/// A table that is made from a query has a column for each field, in the order of the fields and with
/// their names.
pub proof fn law_query_columns(fields: Seq<FieldInfo>, i: int)
    requires
        0 <= i < fields.len(),
    ensures
        query_columns(fields).len() == fields.len(),
        query_columns(fields)[i].name == fields[i].name@,
        query_columns(fields)[i].nullable <==> fields[i].nullable,
        query_columns(fields)[i].data_type == sql_name(fields[i].data_type),
{
}

/// A list of names in parentheses is read as these names.
pub proof fn law_parentheses_are_left_out(inner: Seq<char>)
    requires
        !inner.contains('('),
        !inner.contains(')'),
    ensures
        inside_parens(seq!['('] + inner + seq![')']) == inner,
        inside_parens(inner) == inner,
{
    let s = seq!['('] + inner + seq![')'];
    assert(s[0] == '(' && s[s.len() - 1] == ')');
    assert(char_index(s, '(') == Some(0int));
    assert(last_char(s, ')', s.len()) == Some(s.len() - 1));
    assert(s.subrange(1, s.len() - 1) =~= inner);
    lemma_no_last_char(inner, ')', inner.len());
}

proof fn lemma_no_last_char(s: Seq<char>, c: char, n: nat)
    requires
        n <= s.len(),
        !s.contains(c),
    ensures
        last_char(s, c, n) is None,
    decreases n,
{
    if n > 0 {
        assert(s.contains(s[n - 1]));
        lemma_no_last_char(s, c, (n - 1) as nat);
    }
}

} // verus!
