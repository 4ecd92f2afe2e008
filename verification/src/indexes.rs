//! Indexes: which one a table's files are sorted by, and the statements that sort them.
//!
//! Of the indexes of a table one is primary: the files are written in its order. The others are
//! kept for the catalog's sake alone.
use vstd::prelude::*;
use vstd::string::*;

use crate::catalog::{lookup, saved, Catalog, CatalogState};
use crate::catalog_types::{
    ColumnDef, ColumnView, IndexColumn, IndexColumnView, IndexDef, IndexView,
};
use crate::dup::{all_wf, opt_view, views, Dup};
use crate::namemap::{key_pos, NameMap};
use crate::outcome::{checked, Check, CheckView};
use crate::statement::{
    parsed_index, read_index, IndexHead, IndexHeadView, ParsedIndexColumn, ParsedIndexColumnView,
};
use crate::text::{concat2, concat3, join, joined, opt_text, same, texts};

verus! {

// ---------------------------------------------------------------------------
// Sort order
// ---------------------------------------------------------------------------

/// A sort key of a statement: the column and its direction.
pub open spec fn sort_key(c: IndexColumnView) -> Seq<char> {
    "\""@ + c.name + "\" "@ + if c.ascending {
        "ASC"@
    } else {
        "DESC"@
    }
}

/// The sort keys of an index.
pub open spec fn sort_keys(cs: Seq<IndexColumnView>) -> Seq<Seq<char>> {
    Seq::new(cs.len(), |i: int| sort_key(cs[i]))
}

/// The sort keys of an index with commas between them.
pub open spec fn sort_order(cs: Seq<IndexColumnView>) -> Seq<char> {
    joined(sort_keys(cs), ", "@)
}

/// The statement that reads a table in the order of an index, or in any order without one.
pub open spec fn ordered_select(table: Seq<char>, index: Option<IndexView>) -> Seq<char> {
    "SELECT * FROM \""@ + table + "\""@ + match index {
        Some(idx) => " ORDER BY "@ + sort_order(idx.columns),
        None => ""@,
    }
}

fn write_sort_order(cs: &Vec<IndexColumn>) -> (r: String)
    ensures
        r@ == sort_order(views(cs@)),
{
    let mut keys: Vec<String> = Vec::new();
    let mut i: usize = 0;
    while i < cs.len()
        invariant
            i <= cs@.len(),
            keys@.len() == i,
            forall|j: int| 0 <= j < i ==> (#[trigger] keys@[j])@ == sort_key(cs@[j]@),
        decreases cs@.len() - i,
    {
        let head = concat3("\"", &cs[i].name, "\" ");
        let key = if cs[i].ascending {
            concat2(&head, "ASC")
        } else {
            concat2(&head, "DESC")
        };
        keys.push(key);
        i += 1;
    }
    assert(texts(keys@) =~= sort_keys(views(cs@)));
    join(&keys, ", ")
}

/// The statement that reads a table in the order of an index, or in any order without one.
pub fn select_in_order(table: &str, index: Option<&IndexDef>) -> (r: String)
    ensures
        r@ == ordered_select(
            table@,
            match index {
                Some(idx) => Some(idx@),
                None => None,
            },
        ),
{
    let head = concat3("SELECT * FROM \"", table, "\"");
    match index {
        Some(idx) => {
            let order = write_sort_order(&idx.columns);
            let out = concat3(&head, " ORDER BY ", &order);
            assert(out@ =~= head@ + (" ORDER BY "@ + order@));
            out
        },
        None => concat2(&head, ""),
    }
}

/// The first index of a table in the catalog, by which the table is read in order.
pub open spec fn first_index(names: Seq<Seq<char>>, m: Map<Seq<char>, IndexView>, table: Seq<char>, n: nat) -> Option<
    Seq<char>,
>
    decreases n,
{
    if n == 0 || n > names.len() {
        None
    } else {
        match first_index(names, m, table, (n - 1) as nat) {
            Some(k) => Some(k),
            None => if m[names[n - 1]].table_name == table {
                Some(names[n - 1])
            } else {
                None
            },
        }
    }
}

proof fn lemma_first_index(names: Seq<Seq<char>>, m: Map<Seq<char>, IndexView>, table: Seq<char>, i: nat, n: nat)
    requires
        i <= n <= names.len(),
        first_index(names, m, table, i) is Some,
    ensures
        first_index(names, m, table, n) == first_index(names, m, table, i),
    decreases n - i,
{
    if i < n {
        lemma_first_index(names, m, table, i, (n - 1) as nat);
    }
}

fn find_index(indexes: &NameMap<IndexDef>, table: &str) -> (r: Option<usize>)
    requires
        indexes.deep_wf(),
    ensures
        match r {
            Some(i) => i < indexes.keys@.len() && first_index(
                indexes.names(),
                indexes.deep(),
                table@,
                indexes.names().len(),
            ) == Some(indexes.keys@[i as int]@),
            None => first_index(
                indexes.names(),
                indexes.deep(),
                table@,
                indexes.names().len(),
            ) is None,
        },
{
    let ghost names = indexes.names();
    let mut i: usize = 0;
    while i < indexes.keys.len()
        invariant
            i <= indexes.keys@.len(),
            indexes.deep_wf(),
            names == indexes.names(),
            names.len() == indexes.keys@.len(),
            first_index(names, indexes.deep(), table@, i as nat) is None,
        decreases indexes.keys@.len() - i,
    {
        assert(names[i as int] == indexes.keys@[i as int]@);
        proof {
            indexes.lemma_deep_entry(i as int);
        }
        if same(&indexes.vals[i].table_name, table) {
            proof {
                assert(first_index(names, indexes.deep(), table@, (i + 1) as nat) == Some(
                    names[i as int],
                ));
                lemma_first_index(names, indexes.deep(), table@, (i + 1) as nat, names.len());
            }
            return Some(i);
        }
        i += 1;
    }
    None
}

impl Catalog {
    /// The statement that reads a table in the order of its first index.
    pub fn compaction_select(&self, table: &str) -> (r: String)
        requires
            self.wf(),
        ensures
            r@ == ordered_select(
                table@,
                match first_index(
                    self.indexes.names(),
                    self@.indexes,
                    table@,
                    self.indexes.names().len(),
                ) {
                    Some(k) => Some(self@.indexes[k]),
                    None => None,
                },
            ),
    {
        match find_index(&self.indexes, table) {
            Some(i) => {
                proof {
                    self.indexes.lemma_deep_entry(i as int);
                }
                select_in_order(table, Some(&self.indexes.vals[i]))
            },
            None => select_in_order(table, None),
        }
    }
}

// ---------------------------------------------------------------------------
// CREATE INDEX
// ---------------------------------------------------------------------------

/// Whether the table has a column of the name.
pub open spec fn has_column(columns: Seq<ColumnView>, name: Seq<char>) -> bool {
    exists|i: int| 0 <= i < columns.len() && (#[trigger] columns[i]).name == name
}

/// Whether the table has a column of the name.
pub fn column_exists(columns: &Vec<ColumnDef>, name: &str) -> (r: bool)
    ensures
        r == has_column(views(columns@), name@),
{
    let mut i: usize = 0;
    while i < columns.len()
        invariant
            i <= columns@.len(),
            forall|j: int| 0 <= j < i ==> (#[trigger] views(columns@)[j]).name != name@,
        decreases columns@.len() - i,
    {
        assert(views(columns@)[i as int] == columns@[i as int]@);
        if same(&columns[i].name, name) {
            return true;
        }
        i += 1;
    }
    false
}

/// The columns of an index: ascending unless the statement says otherwise.
pub open spec fn index_columns(cs: Seq<ParsedIndexColumnView>) -> Seq<IndexColumnView> {
    Seq::new(
        cs.len(),
        |i: int|
            IndexColumnView {
                name: cs[i].expr,
                ascending: match cs[i].asc {
                    Some(a) => a,
                    None => true,
                },
            },
    )
}

/// The first of the first `n` columns that the table does not have.
pub open spec fn missing_column(
    cs: Seq<ParsedIndexColumnView>,
    columns: Seq<ColumnView>,
    n: nat,
) -> Option<Seq<char>>
    decreases n,
{
    if n == 0 || n > cs.len() {
        None
    } else {
        match missing_column(cs, columns, (n - 1) as nat) {
            Some(c) => Some(c),
            None => if has_column(columns, cs[n - 1].expr) {
                None
            } else {
                Some(cs[n - 1].expr)
            },
        }
    }
}

proof fn lemma_missing_column(
    cs: Seq<ParsedIndexColumnView>,
    columns: Seq<ColumnView>,
    i: nat,
    n: nat,
)
    requires
        i <= n <= cs.len(),
        missing_column(cs, columns, i) is Some,
    ensures
        missing_column(cs, columns, n) == missing_column(cs, columns, i),
    decreases n - i,
{
    if i < n {
        lemma_missing_column(cs, columns, i, (n - 1) as nat);
    }
}

/// What `CREATE INDEX` comes to.
pub open spec fn create_index_check(c: CatalogState, h: IndexHeadView) -> Result<
    CheckView,
    Seq<char>,
> {
    match h.name {
        None => Err("Index name is required"@),
        Some(name) => if c.indexes.dom().contains(name) {
            if h.if_not_exists {
                Ok(CheckView::Done("Index '"@ + name + "' already exists, skipping."@))
            } else {
                Err("Index '"@ + name + "' already exists"@)
            }
        } else if !c.tables.dom().contains(h.table) {
            Err("Table '"@ + h.table + "' does not exist"@)
        } else {
            match missing_column(h.columns, c.tables[h.table].columns, h.columns.len()) {
                Some(col) => Err(
                    "Column '"@ + col + "' does not exist in '"@ + h.table + "'"@,
                ),
                None => if h.columns.len() == 0 {
                    Err("Index requires at least one column"@)
                } else {
                    Ok(CheckView::Go(h.text))
                },
            }
        },
    }
}

/// The `CREATE INDEX` of a text.
pub fn parse_create_index(sql: &str) -> (r: Option<IndexHead>)
    ensures
        opt_view(r) == parsed_index(sql@),
{
    read_index(sql)
}

fn find_missing(cs: &Vec<ParsedIndexColumn>, columns: &Vec<ColumnDef>) -> (r: Option<String>)
    ensures
        opt_text(r) == missing_column(views(cs@), views(columns@), views(cs@).len()),
{
    let ghost cv = views(cs@);
    let ghost tv = views(columns@);
    let mut i: usize = 0;
    while i < cs.len()
        invariant
            i <= cs@.len(),
            cv == views(cs@),
            tv == views(columns@),
            cv.len() == cs@.len(),
            missing_column(cv, tv, i as nat) is None,
        decreases cs@.len() - i,
    {
        assert(cv[i as int] == cs@[i as int]@);
        if !column_exists(columns, &cs[i].expr) {
            proof {
                assert(missing_column(cv, tv, (i + 1) as nat) == Some(cv[i as int].expr));
                lemma_missing_column(cv, tv, (i + 1) as nat, cv.len());
            }
            return Some(cs[i].expr.clone());
        }
        i += 1;
    }
    None
}

fn define_index_columns(cs: &Vec<ParsedIndexColumn>) -> (r: Vec<IndexColumn>)
    ensures
        views(r@) == index_columns(views(cs@)),
        all_wf(r@),
{
    let mut out: Vec<IndexColumn> = Vec::new();
    let mut i: usize = 0;
    while i < cs.len()
        invariant
            i <= cs@.len(),
            out@.len() == i,
            all_wf(out@),
            forall|j: int| 0 <= j < i ==> (#[trigger] out@[j])@ == index_columns(views(cs@))[j],
        decreases cs@.len() - i,
    {
        let ascending: bool = match cs[i].asc {
            Some(a) => a,
            None => true,
        };
        out.push(IndexColumn { name: cs[i].expr.clone(), ascending });
        i += 1;
    }
    assert(views(out@) =~= index_columns(views(cs@)));
    out
}

/// An index after another one of the table has become primary.
pub open spec fn demoted(idx: IndexView, table: Seq<char>) -> IndexView {
    if idx.table_name == table {
        IndexView { primary: false, logical_only: true, ..idx }
    } else {
        idx
    }
}

/// The indexes after another one of the table has become primary.
pub open spec fn all_demoted(m: Map<Seq<char>, IndexView>, table: Seq<char>) -> Map<
    Seq<char>,
    IndexView,
> {
    Map::new(|k: Seq<char>| m.dom().contains(k), |k: Seq<char>| demoted(m[k], table))
}

fn demote_indexes(indexes: &mut NameMap<IndexDef>, table: &str)
    requires
        old(indexes).deep_wf(),
    ensures
        final(indexes).deep_wf(),
        final(indexes).deep() == all_demoted(old(indexes).deep(), table@),
        final(indexes).names() == old(indexes).names(),
{
    let ghost start = *indexes;
    let mut i: usize = 0;
    while i < indexes.keys.len()
        invariant
            i <= indexes.keys@.len(),
            start.deep_wf(),
            indexes.deep_wf(),
            indexes.keys@ == start.keys@,
            forall|j: int|
                0 <= j < i ==> (#[trigger] indexes.vals@[j])@ == demoted(start.vals@[j]@, table@),
            forall|j: int| i <= j < indexes.keys@.len() ==> #[trigger] indexes.vals@[j]
                == start.vals@[j],
        decreases indexes.keys@.len() - i,
    {
        let ghost before = *indexes;
        assert(before.vals@[i as int] == start.vals@[i as int]);
        assert(start.vals@[i as int].wf());
        if same(&indexes.vals[i].table_name, table) {
            let idx = indexes.at_mut(i);
            idx.primary = false;
            idx.logical_only = true;
            proof {
                NameMap::lemma_deep_update(&before, indexes, i as int);
            }
        }
        i += 1;
    }
    proof {
        let goal = all_demoted(start.deep(), table@);
        assert forall|k: Seq<char>| #[trigger] goal.dom().contains(k) implies indexes.deep()[k]
            == goal[k] by {
            let j = key_pos(texts(start.keys@), k);
            assert(0 <= j < start.keys@.len() && texts(start.keys@)[j] == k);
            start.lemma_deep_entry(j);
            indexes.lemma_deep_entry(j);
        }
        assert(indexes.deep() =~= goal);
    }
}

/// The index that `CREATE INDEX` enters.
pub open spec fn created_index(name: Seq<char>, h: IndexHeadView) -> IndexView {
    IndexView {
        name,
        table_name: h.table,
        columns: index_columns(h.columns),
        logical_only: false,
        primary: true,
    }
}

/// The names of the columns as the statement lists them.
pub open spec fn listed_columns(cs: Seq<ParsedIndexColumnView>) -> Seq<Seq<char>> {
    Seq::new(cs.len(), |i: int| cs[i].expr)
}

fn list_columns(cs: &Vec<ParsedIndexColumn>) -> (r: Vec<String>)
    ensures
        texts(r@) == listed_columns(views(cs@)),
{
    let mut out: Vec<String> = Vec::new();
    let mut i: usize = 0;
    while i < cs.len()
        invariant
            i <= cs@.len(),
            out@.len() == i,
            forall|j: int| 0 <= j < i ==> (#[trigger] out@[j])@ == cs@[j].expr@,
        decreases cs@.len() - i,
    {
        out.push(cs[i].expr.clone());
        i += 1;
    }
    assert(texts(out@) =~= listed_columns(views(cs@)));
    out
}

/// The statement that reads the rows of a table in the order of a new index.
pub fn index_select(h: &IndexHead) -> (r: String)
    ensures
        r@ == "SELECT * FROM \""@ + h@.table + "\" ORDER BY "@ + sort_order(
            index_columns(h@.columns),
        ),
{
    let columns = define_index_columns(&h.columns);
    let order = write_sort_order(&columns);
    let head = concat3("SELECT * FROM \"", &h.table, "\" ORDER BY ");
    concat2(&head, &order)
}

/// The statement that writes the sorted rows back.
pub fn index_refill(table: &str) -> (r: String)
    ensures
        r@ == "INSERT INTO \""@ + table@ + "\" SELECT * FROM __potato_idx_tmp"@,
{
    concat3("INSERT INTO \"", table, "\" SELECT * FROM __potato_idx_tmp")
}

impl Catalog {
    /// What `CREATE INDEX` comes to.
    pub fn check_create_index(&self, h: &IndexHead) -> (r: Result<Check, String>)
        requires
            self.wf(),
        ensures
            checked(r) == create_index_check(self@, h@),
    {
        let name = match &h.name {
            None => {
                return Err("Index name is required".to_owned());
            },
            Some(n) => n,
        };
        if self.indexes.contains_key(name) {
            return if h.if_not_exists {
                Ok(Check::Done(concat3("Index '", name, "' already exists, skipping.")))
            } else {
                Err(concat3("Index '", name, "' already exists"))
            };
        }
        match self.tables.lookup(&h.table) {
            None => Err(concat3("Table '", &h.table, "' does not exist")),
            Some(meta) => {
                assert(views(h.columns@).len() == h.columns@.len());
                match find_missing(&h.columns, &meta.columns) {
                    Some(col) => {
                        let head = concat3("Column '", &col, "' does not exist in '");
                        Err(concat3(&head, &h.table, "'"))
                    },
                    None => if h.columns.len() == 0 {
                        Err("Index requires at least one column".to_owned())
                    } else {
                        Ok(Check::Go(h.text.clone()))
                    },
                }
            },
        }
    }

    /// Enters an index as the primary one of its table.
    pub fn handle_create_index(&mut self, name: &str, h: &IndexHead) -> (r: String)
        requires
            old(self).wf(),
        ensures
            final(self).wf(),
            r@ == "Index '"@ + name@ + "' created on '"@ + h@.table + "' ("@ + joined(
                listed_columns(h@.columns),
                ", "@,
            ) + ")."@,
            saved(old(self), final(self)),
            final(self)@ == (CatalogState {
                indexes: all_demoted(old(self)@.indexes, h@.table).insert(
                    name@,
                    created_index(name@, h@),
                ),
                ..old(self)@
            }),
    {
        demote_indexes(&mut self.indexes, &h.table);
        let def = IndexDef {
            name: name.to_owned(),
            table_name: h.table.clone(),
            columns: define_index_columns(&h.columns),
            logical_only: false,
            primary: true,
        };
        self.add_index(def);
        let head = concat3("Index '", name, "' created on '");
        let with_table = concat3(&head, &h.table, "' (");
        concat3(&with_table, &join(&list_columns(&h.columns), ", "), ").")
    }
}

// ---------------------------------------------------------------------------
// DROP INDEX
// ---------------------------------------------------------------------------

/// What `DROP INDEX` comes to.
pub open spec fn drop_index_check(c: CatalogState, name: Seq<char>, if_exists: bool) -> Result<
    CheckView,
    Seq<char>,
> {
    if c.indexes.dom().contains(name) {
        Ok(
            CheckView::Go(
                if if_exists {
                    "DROP INDEX IF EXISTS \""@
                } else {
                    "DROP INDEX \""@
                } + name + "\""@,
            ),
        )
    } else if if_exists {
        Ok(CheckView::Done("Index '"@ + name + "' does not exist, skipping."@))
    } else {
        Err("Index '"@ + name + "' does not exist"@)
    }
}

/// Whether a table has a primary index.
pub open spec fn has_primary(m: Map<Seq<char>, IndexView>, table: Seq<char>) -> bool {
    exists|k: Seq<char>| #[trigger] m.dom().contains(k) && m[k].table_name == table && m[k].primary
}

/// The indexes after the first one of a table that has no primary index was made primary.
pub open spec fn promoted(
    names: Seq<Seq<char>>,
    m: Map<Seq<char>, IndexView>,
    table: Seq<char>,
) -> Map<Seq<char>, IndexView> {
    if has_primary(m, table) {
        m
    } else {
        match first_index(names, m, table, names.len()) {
            Some(k) => m.insert(k, IndexView { primary: true, logical_only: false, ..m[k] }),
            None => m,
        }
    }
}

fn table_has_primary(indexes: &NameMap<IndexDef>, table: &str) -> (r: bool)
    requires
        indexes.deep_wf(),
    ensures
        r == has_primary(indexes.deep(), table@),
{
    let mut i: usize = 0;
    while i < indexes.keys.len()
        invariant
            i <= indexes.keys@.len(),
            indexes.deep_wf(),
            forall|j: int|
                0 <= j < i ==> !((#[trigger] indexes.vals@[j]).table_name@ == table@
                    && indexes.vals@[j].primary),
        decreases indexes.keys@.len() - i,
    {
        if same(&indexes.vals[i].table_name, table) && indexes.vals[i].primary {
            proof {
                indexes.lemma_deep_entry(i as int);
            }
            return true;
        }
        i += 1;
    }
    proof {
        assert forall|k: Seq<char>| #[trigger] indexes.deep().dom().contains(k) implies !(
        indexes.deep()[k].table_name == table@ && indexes.deep()[k].primary) by {
            let j = key_pos(texts(indexes.keys@), k);
            assert(0 <= j < indexes.keys@.len() && texts(indexes.keys@)[j] == k);
            indexes.lemma_deep_entry(j);
        }
    }
    false
}

fn promote_index(indexes: &mut NameMap<IndexDef>, table: &str)
    requires
        old(indexes).deep_wf(),
    ensures
        final(indexes).deep_wf(),
        final(indexes).deep() == promoted(old(indexes).names(), old(indexes).deep(), table@),
        final(indexes).names() == old(indexes).names(),
{
    if table_has_primary(indexes, table) {
        return;
    }
    match find_index(indexes, table) {
        None => {},
        Some(i) => {
            let ghost before = *indexes;
            proof {
                before.lemma_deep_entry(i as int);
            }
            let idx = indexes.at_mut(i);
            idx.primary = true;
            idx.logical_only = false;
            proof {
                NameMap::lemma_deep_update(&before, indexes, i as int);
            }
        },
    }
}

impl Catalog {
    /// What `DROP INDEX` comes to.
    pub fn check_drop_index(&self, name: &str, if_exists: bool) -> (r: Result<Check, String>)
        requires
            self.wf(),
        ensures
            checked(r) == drop_index_check(self@, name@, if_exists),
    {
        if self.indexes.contains_key(name) {
            let head = if if_exists {
                "DROP INDEX IF EXISTS \""
            } else {
                "DROP INDEX \""
            };
            return Ok(Check::Go(concat3(head, name, "\"")));
        }
        if if_exists {
            Ok(Check::Done(concat3("Index '", name, "' does not exist, skipping.")))
        } else {
            Err(concat3("Index '", name, "' does not exist"))
        }
    }

    /// Removes an index. Where its table has no primary index left, the first of the others becomes
    /// primary. The table of the index is handed back with the answer: it is to be registered anew.
    pub fn handle_drop_index(&mut self, name: &str) -> (r: Result<(String, String), String>)
        requires
            old(self).wf(),
        ensures
            final(self).wf(),
            saved(old(self), final(self)),
            match lookup(old(self)@.indexes, name@) {
                None => {
                    &&& r matches Err(e) && e@ == "Index '"@ + name@ + "' does not exist"@
                    &&& final(self)@ == old(self)@
                },
                Some(idx) => {
                    &&& r matches Ok(p)
                    &&& p.0@ == "Index '"@ + name@ + "' dropped."@
                    &&& p.1@ == idx.table_name
                    &&& final(self)@ == (CatalogState {
                        indexes: promoted(
                            crate::namemap::without(old(self).indexes.names(), name@),
                            old(self)@.indexes.remove(name@),
                            idx.table_name,
                        ),
                        ..old(self)@
                    })
                },
            },
    {
        match self.remove_index(name) {
            None => {
                assert(self@ =~= old(self)@) by {
                    assert(old(self)@.indexes.remove(name@) =~= old(self)@.indexes);
                }
                Err(concat3("Index '", name, "' does not exist"))
            },
            Some(idx) => {
                promote_index(&mut self.indexes, &idx.table_name);
                Ok((concat3("Index '", name, "' dropped."), idx.table_name))
            },
        }
    }
}

// ---------------------------------------------------------------------------
// Laws
// ---------------------------------------------------------------------------

/// After `CREATE INDEX` the new index is the one primary index of its table.
pub proof fn law_new_index_is_the_primary_one(
    m: Map<Seq<char>, IndexView>,
    name: Seq<char>,
    h: IndexHeadView,
    k: Seq<char>,
)
    requires
        all_demoted(m, h.table).insert(name, created_index(name, h)).dom().contains(k),
    ensures
        ({
            let after = all_demoted(m, h.table).insert(name, created_index(name, h));
            after[k].table_name == h.table ==> (after[k].primary <==> k == name)
        }),
{
}

/// After `DROP INDEX` a table that still has an index has a primary one.
pub proof fn law_drop_keeps_a_primary_index(
    names: Seq<Seq<char>>,
    m: Map<Seq<char>, IndexView>,
    table: Seq<char>,
    k: Seq<char>,
)
    requires
        forall|q: Seq<char>| #[trigger] m.dom().contains(q) <==> names.contains(q),
        m.dom().contains(k),
        m[k].table_name == table,
    ensures
        has_primary(promoted(names, m, table), table),
{
    if !has_primary(m, table) {
        let i = names.index_of(k);
        assert(0 <= i < names.len() && names[i] == k);
        lemma_index_is_found(names, m, table, i, names.len());
        let p = first_index(names, m, table, names.len())->0;
        let after = promoted(names, m, table);
        assert(after.dom().contains(p));
    }
}

proof fn lemma_index_is_found(
    names: Seq<Seq<char>>,
    m: Map<Seq<char>, IndexView>,
    table: Seq<char>,
    i: int,
    n: nat,
)
    requires
        0 <= i < n <= names.len(),
        m[names[i]].table_name == table,
    ensures
        first_index(names, m, table, n) matches Some(p) && m[p].table_name == table
            && names.contains(p),
    decreases n,
{
    if i < n - 1 {
        lemma_index_is_found(names, m, table, i, (n - 1) as nat);
    } else {
        lemma_first_belongs(names, m, table, (n - 1) as nat);
        assert(names.contains(names[i]));
    }
}

proof fn lemma_first_belongs(
    names: Seq<Seq<char>>,
    m: Map<Seq<char>, IndexView>,
    table: Seq<char>,
    n: nat,
)
    ensures
        first_index(names, m, table, n) matches Some(p) ==> m[p].table_name == table
            && names.contains(p),
    decreases n,
{
    if n > 0 && n <= names.len() {
        lemma_first_belongs(names, m, table, (n - 1) as nat);
        assert(names.contains(names[n - 1]));
    }
}

/// `DROP INDEX` goes ahead exactly where there is an index of the name. `CREATE INDEX` goes ahead exactly
/// where there is none, the table is there, and it has all the columns, of which there is at least
/// one.
pub proof fn law_create_or_drop(c: CatalogState, h: IndexHeadView, name: Seq<char>, if_exists: bool)
    requires
        h.name == Some(name),
    ensures
        drop_index_check(c, name, if_exists) matches Ok(CheckView::Go(_))
            <==> c.indexes.dom().contains(name),
        drop_index_check(c, name, if_exists) is Err <==> !c.indexes.dom().contains(name)
            && !if_exists,
        create_index_check(c, h) matches Ok(CheckView::Go(_)) <==> {
            &&& !c.indexes.dom().contains(name)
            &&& c.tables.dom().contains(h.table)
            &&& h.columns.len() > 0
            &&& forall|i: int|
                0 <= i < h.columns.len() ==> has_column(
                    c.tables[h.table].columns,
                    (#[trigger] h.columns[i]).expr,
                )
        },
{
    lemma_no_column_missing(h.columns, c.tables[h.table].columns, h.columns.len());
}

proof fn lemma_no_column_missing(
    cs: Seq<ParsedIndexColumnView>,
    columns: Seq<ColumnView>,
    n: nat,
)
    requires
        n <= cs.len(),
    ensures
        missing_column(cs, columns, n) is None <==> forall|i: int|
            0 <= i < n ==> has_column(columns, (#[trigger] cs[i]).expr),
    decreases n,
{
    if n > 0 {
        lemma_no_column_missing(cs, columns, (n - 1) as nat);
        assert(cs[n - 1].expr == cs[n - 1].expr);
    }
}

/// An index has the columns of the statement in their order. A column is in descending order only where
/// the statement says so.
pub proof fn law_index_keeps_the_order(name: Seq<char>, h: IndexHeadView, i: int)
    requires
        0 <= i < h.columns.len(),
    ensures
        created_index(name, h).columns.len() == h.columns.len(),
        created_index(name, h).columns[i].name == h.columns[i].expr,
        !created_index(name, h).columns[i].ascending <==> h.columns[i].asc == Some(false),
        created_index(name, h).table_name == h.table,
        sort_key(created_index(name, h).columns[i]) == "\""@ + h.columns[i].expr + if h.columns[i].asc
            == Some(false) {
            "\" DESC"@
        } else {
            "\" ASC"@
        },
{
    reveal_strlit("\" ");
    reveal_strlit("ASC");
    reveal_strlit("DESC");
    reveal_strlit("\" ASC");
    reveal_strlit("\" DESC");
    assert("\" "@ + "ASC"@ =~= "\" ASC"@);
    assert("\" "@ + "DESC"@ =~= "\" DESC"@);
    let key = sort_key(created_index(name, h).columns[i]);
    if h.columns[i].asc == Some(false) {
        assert(key =~= "\""@ + h.columns[i].expr + "\" DESC"@);
    } else {
        assert(key =~= "\""@ + h.columns[i].expr + "\" ASC"@);
    }
}

/// A table with an index is read in the order of the index, and one without in any order: either way all
/// of its rows and columns.
pub proof fn law_tables_are_read_in_order(table: Seq<char>, index: IndexView)
    ensures
        ({
            let whole = crate::meaning::select(
                "*"@,
                crate::meaning::table(crate::meaning::quoted_name(table)),
            ).text;
            &&& ordered_select(table, None) == whole
            &&& ordered_select(table, Some(index)) == whole + " ORDER BY "@ + joined(
                Seq::new(index.columns.len(), |i: int| sort_key(index.columns[i])),
                ", "@,
            )
        }),
{
    let whole = crate::meaning::select(
        "*"@,
        crate::meaning::table(crate::meaning::quoted_name(table)),
    ).text;
    reveal_strlit("SELECT * FROM \"");
    reveal_strlit("SELECT ");
    reveal_strlit("*");
    reveal_strlit(" FROM ");
    reveal_strlit("\"");
    reveal_strlit("");
    assert("SELECT * FROM \""@ + table + "\""@ =~= whole);
    assert(whole + ""@ =~= whole);
    assert(sort_keys(index.columns) =~= Seq::new(
        index.columns.len(),
        |i: int| sort_key(index.columns[i]),
    ));
    let order = sort_order(index.columns);
    assert(whole + (" ORDER BY "@ + order) =~= whole + " ORDER BY "@ + order);
}

} // verus!
