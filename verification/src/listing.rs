//! What the query engine is told of a table's files: their order, and how they are partitioned.
use vstd::prelude::*;
use vstd::string::*;

use crate::catalog::Catalog;
use crate::catalog_types::{ColumnDef, ColumnView, IndexDef, IndexView, ViewDef};
use crate::dup::{views, Dup};
use crate::text::{concat2, concat3, same, texts, to_chars};

verus! {

// ---------------------------------------------------------------------------
// The order of texts
// ---------------------------------------------------------------------------

/// Whether a text comes before another, by their first different characters; a text comes before
/// what it begins.
pub open spec fn text_before(a: Seq<char>, b: Seq<char>, i: int) -> bool
    decreases a.len() - i,
{
    if i < 0 || i >= b.len() {
        false
    } else if i >= a.len() {
        true
    } else if a[i] == b[i] {
        text_before(a, b, i + 1)
    } else {
        a[i] < b[i]
    }
}

/// Whether a text comes before another.
pub fn comes_before(a: &str, b: &str) -> (r: bool)
    ensures
        r == text_before(a@, b@, 0),
{
    let x = to_chars(a);
    let y = to_chars(b);
    let mut i: usize = 0;
    while i < x.len() && i < y.len() && x[i] == y[i]
        invariant
            i <= x@.len(),
            i <= y@.len(),
            text_before(x@, y@, 0) == text_before(x@, y@, i as int),
        decreases x@.len() - i,
    {
        i += 1;
    }
    if i >= y.len() {
        false
    } else if i >= x.len() {
        true
    } else {
        x[i] < y[i]
    }
}

// ---------------------------------------------------------------------------
// Sort orders
// ---------------------------------------------------------------------------

/// Whether an index is named before another: primary ones first, then by name.
pub open spec fn index_before(a: IndexView, b: IndexView) -> bool {
    if a.primary == b.primary {
        text_before(a.name, b.name, 0)
    } else {
        a.primary
    }
}

/// An index put into an ordered list, behind those that it does not come before.
pub open spec fn placed_index(list: Seq<IndexView>, x: IndexView) -> Seq<IndexView>
    decreases list.len(),
{
    if list.len() == 0 || !index_before(x, list.last()) {
        list.push(x)
    } else {
        placed_index(list.drop_last(), x).push(list.last())
    }
}

/// The indexes of a table among the first `n`, in order.
pub open spec fn ordered_indexes(all: Seq<IndexView>, table: Seq<char>, n: nat) -> Seq<IndexView>
    decreases n,
{
    if n == 0 || n > all.len() {
        Seq::empty()
    } else {
        let rest = ordered_indexes(all, table, (n - 1) as nat);
        if all[n - 1].table_name == table {
            placed_index(rest, all[n - 1])
        } else {
            rest
        }
    }
}

/// How rows are sorted by a column.
pub struct SortKey {
    pub column: String,
    pub ascending: bool,
    pub nulls_first: bool,
}

/// What a [`SortKey`] says.
pub struct SortKeyView {
    pub column: Seq<char>,
    pub ascending: bool,
    pub nulls_first: bool,
}

impl View for SortKey {
    type V = SortKeyView;

    open spec fn view(&self) -> SortKeyView {
        SortKeyView {
            column: self.column@,
            ascending: self.ascending,
            nulls_first: self.nulls_first,
        }
    }
}

/// The order of the files of a table: how they are sorted, by one column after the other.
pub struct SortOrder {
    pub keys: Vec<SortKey>,
}

impl View for SortOrder {
    type V = Seq<SortKeyView>;

    open spec fn view(&self) -> Seq<SortKeyView> {
        views(self.keys@)
    }
}

/// The order that an index gives: its columns, with nulls where large values are.
pub open spec fn index_order(def: IndexView) -> Seq<SortKeyView> {
    Seq::new(
        def.columns.len(),
        |i: int|
            SortKeyView {
                column: def.columns[i].name,
                ascending: def.columns[i].ascending,
                nulls_first: !def.columns[i].ascending,
            },
    )
}

/// The orders that the first `n` indexes give. An index that does not show in the files gives none.
pub open spec fn physical_orders(defs: Seq<IndexView>, n: nat) -> Seq<Seq<SortKeyView>>
    decreases n,
{
    if n == 0 || n > defs.len() {
        Seq::empty()
    } else {
        let rest = physical_orders(defs, (n - 1) as nat);
        if defs[n - 1].logical_only {
            rest
        } else {
            rest.push(index_order(defs[n - 1]))
        }
    }
}

fn read_index_order(def: &IndexDef) -> (r: SortOrder)
    ensures
        r@ == index_order(def@),
{
    let mut keys: Vec<SortKey> = Vec::new();
    let mut i: usize = 0;
    while i < def.columns.len()
        invariant
            i <= def.columns@.len(),
            keys@.len() == i,
            forall|j: int| 0 <= j < i ==> (#[trigger] keys@[j])@ == index_order(def@)[j],
        decreases def.columns@.len() - i,
    {
        assert(def@.columns[i as int] == def.columns@[i as int]@);
        keys.push(
            SortKey {
                column: def.columns[i].name.clone(),
                ascending: def.columns[i].ascending,
                nulls_first: !def.columns[i].ascending,
            },
        );
        i += 1;
    }
    assert(views(keys@) =~= index_order(def@));
    SortOrder { keys }
}

fn defs_before(a: &IndexDef, b: &IndexDef) -> (r: bool)
    ensures
        r == index_before(a@, b@),
{
    if a.primary == b.primary {
        comes_before(&a.name, &b.name)
    } else {
        a.primary
    }
}

fn place_index(list: &mut Vec<IndexDef>, x: IndexDef)
    ensures
        views(final(list)@) == placed_index(views(old(list)@), x@),
{
    let ghost all = views(list@);
    let ghost xv = x@;
    let mut k: usize = list.len();
    assert(all.subrange(0, all.len() as int) =~= all);
    assert(placed_index(all.subrange(0, k as int), xv) + all.subrange(k as int, all.len() as int)
        =~= placed_index(all, xv));
    while k > 0 && defs_before(&x, &list[k - 1])
        invariant
            k <= list@.len(),
            all == views(list@),
            all.len() == list@.len(),
            xv == x@,
            placed_index(all, xv) == placed_index(all.subrange(0, k as int), xv) + all.subrange(
                k as int,
                all.len() as int,
            ),
        decreases k,
    {
        proof {
            let part = all.subrange(0, k as int);
            assert(part.last() == all[k - 1]);
            assert(part.drop_last() =~= all.subrange(0, k - 1));
            assert(all[k - 1] == list@[k - 1]@);
            assert(placed_index(part.drop_last(), xv).push(part.last()) + all.subrange(
                k as int,
                all.len() as int,
            ) =~= placed_index(all.subrange(0, k - 1), xv) + all.subrange(
                k - 1,
                all.len() as int,
            ));
        }
        k -= 1;
    }
    proof {
        let part = all.subrange(0, k as int);
        if k > 0 {
            assert(part.last() == all[k - 1]);
            assert(all[k - 1] == list@[k - 1]@);
        }
        assert(placed_index(part, xv) == part.push(xv));
    }
    let ghost before = list@;
    list.insert(k, x);
    assert(views(list@) =~= all.subrange(0, k as int).push(xv) + all.subrange(
        k as int,
        all.len() as int,
    ));
}

impl Catalog {
    /// The orders in which the files of a table are known to be, the best first.
    pub fn sort_orders(&self, table: &str) -> (r: Vec<SortOrder>)
        requires
            self.wf(),
        ensures
            ({
                let all = views(self.indexes.vals@);
                let defs = ordered_indexes(all, table@, all.len());
                views(r@) == physical_orders(defs, defs.len())
            }),
    {
        let ghost all = views(self.indexes.vals@);
        let mut defs: Vec<IndexDef> = Vec::new();
        let mut i: usize = 0;
        assert(views(defs@) =~= Seq::<IndexView>::empty());
        while i < self.indexes.vals.len()
            invariant
                self.wf(),
                i <= self.indexes.vals@.len(),
                all == views(self.indexes.vals@),
                all.len() == self.indexes.vals@.len(),
                views(defs@) == ordered_indexes(all, table@, i as nat),
            decreases self.indexes.vals@.len() - i,
        {
            assert(all[i as int] == self.indexes.vals@[i as int]@);
            if same(&self.indexes.vals[i].table_name, table) {
                let copy = self.indexes.vals[i].dup();
                place_index(&mut defs, copy);
            }
            i += 1;
        }
        let ghost dv = views(defs@);
        let mut out: Vec<SortOrder> = Vec::new();
        let mut j: usize = 0;
        assert(views(out@) =~= Seq::<Seq<SortKeyView>>::empty());
        while j < defs.len()
            invariant
                j <= defs@.len(),
                dv == views(defs@),
                dv.len() == defs@.len(),
                views(out@) == physical_orders(dv, j as nat),
            decreases defs@.len() - j,
        {
            assert(dv[j as int] == defs@[j as int]@);
            if !defs[j].logical_only {
                let ghost done = out@;
                let order = read_index_order(&defs[j]);
                let ghost ov = order@;
                out.push(order);
                assert(views(out@) =~= views(done).push(ov));
            }
            j += 1;
        }
        out
    }
}

// ---------------------------------------------------------------------------
// Partitions and views
// ---------------------------------------------------------------------------

/// The place of the first column of a name.
pub open spec fn column_place(cs: Seq<ColumnView>, name: Seq<char>, i: int) -> Option<int>
    decreases cs.len() - i,
{
    if i < 0 || i >= cs.len() {
        None
    } else if cs[i].name == name {
        Some(i)
    } else {
        column_place(cs, name, i + 1)
    }
}

/// The places of the columns by which a table is partitioned, in the order of the first `n`
/// partition columns. A partition column that the table does not have is left out.
pub open spec fn partition_places(cs: Seq<ColumnView>, names: Seq<Seq<char>>, n: nat) -> Seq<int>
    decreases n,
{
    if n == 0 || n > names.len() {
        Seq::empty()
    } else {
        let rest = partition_places(cs, names, (n - 1) as nat);
        match column_place(cs, names[n - 1], 0) {
            Some(k) => rest.push(k),
            None => rest,
        }
    }
}

/// Places as numbers.
pub open spec fn as_ints(s: Seq<usize>) -> Seq<int> {
    Seq::new(s.len(), |i: int| s[i] as int)
}

fn find_column(cs: &Vec<ColumnDef>, name: &str) -> (r: Option<usize>)
    ensures
        match r {
            Some(k) => column_place(views(cs@), name@, 0) == Some(k as int) && k < cs@.len(),
            None => column_place(views(cs@), name@, 0) is None,
        },
{
    let ghost cv = views(cs@);
    let mut i: usize = 0;
    while i < cs.len()
        invariant
            i <= cs@.len(),
            cv == views(cs@),
            cv.len() == cs@.len(),
            column_place(cv, name@, 0) == column_place(cv, name@, i as int),
        decreases cs@.len() - i,
    {
        assert(cv[i as int] == cs@[i as int]@);
        if same(&cs[i].name, name) {
            return Some(i);
        }
        i += 1;
    }
    None
}

/// The places of the columns by which a table is partitioned.
pub fn find_partition_columns(cs: &Vec<ColumnDef>, names: &Vec<String>) -> (r: Vec<usize>)
    ensures
        as_ints(r@) == partition_places(views(cs@), texts(names@), texts(names@).len()),
{
    let ghost all = texts(names@);
    let mut out: Vec<usize> = Vec::new();
    let mut i: usize = 0;
    assert(as_ints(out@) =~= Seq::<int>::empty());
    while i < names.len()
        invariant
            i <= names@.len(),
            all == texts(names@),
            all.len() == names@.len(),
            as_ints(out@) == partition_places(views(cs@), all, i as nat),
        decreases names@.len() - i,
    {
        assert(all[i as int] == names@[i as int]@);
        if let Some(k) = find_column(cs, &names[i]) {
            let ghost done = out@;
            out.push(k);
            assert(as_ints(out@) =~= as_ints(done).push(k as int));
        }
        i += 1;
    }
    out
}

/// The statement by which the query engine learns of a view.
pub fn view_statement(def: &ViewDef) -> (r: String)
    ensures
        r@ == "CREATE OR REPLACE VIEW \""@ + def@.name + "\" AS "@ + def@.sql,
{
    let head = concat3("CREATE OR REPLACE VIEW \"", &def.name, "\" AS ");
    concat2(&head, &def.sql)
}

// ---------------------------------------------------------------------------
// Laws
// ---------------------------------------------------------------------------

proof fn lemma_placed_primary(list: Seq<IndexView>, x: IndexView)
    requires
        forall|i: int, j: int|
            0 <= i < j < list.len() && (#[trigger] list[j]).primary ==> (#[trigger] list[i]).primary,
    ensures
        ({
            let r = placed_index(list, x);
            &&& r.len() == list.len() + 1
            &&& forall|i: int, j: int|
                0 <= i < j < r.len() && (#[trigger] r[j]).primary ==> (#[trigger] r[i]).primary
            &&& forall|i: int| 0 <= i < r.len() ==> r[i] == x || list.contains(#[trigger] r[i])
        }),
    decreases list.len(),
{
    let r = placed_index(list, x);
    if list.len() == 0 {
    } else if !index_before(x, list.last()) {
        assert forall|i: int| 0 <= i < r.len() implies r[i] == x || list.contains(#[trigger] r[i]) by {
            if i < list.len() {
                assert(list[i] == r[i]);
            }
        }
        assert(x.primary ==> list.last().primary);
        assert forall|i: int, j: int|
            0 <= i < j < r.len() && (#[trigger] r[j]).primary implies (#[trigger] r[i]).primary by {
            if j == list.len() {
                if i < list.len() - 1 {
                    assert(list[list.len() - 1].primary);
                    assert(list[i].primary);
                }
            }
        }
    } else {
        let part = list.drop_last();
        lemma_placed_primary(part, x);
        let q = placed_index(part, x);
        assert forall|i: int| 0 <= i < r.len() implies r[i] == x || list.contains(#[trigger] r[i]) by {
            if i < q.len() {
                assert(r[i] == q[i]);
                if q[i] != x {
                    let k = choose|k: int| 0 <= k < part.len() && part[k] == q[i];
                    assert(list[k] == r[i]);
                }
            } else {
                assert(list[list.len() - 1] == r[i]);
            }
        }
        assert forall|i: int, j: int|
            0 <= i < j < r.len() && (#[trigger] r[j]).primary implies (#[trigger] r[i]).primary by {
            if j == q.len() {
                assert(r[j] == list.last());
                assert(x.primary);
                if q[i] != x {
                    let k = choose|k: int| 0 <= k < part.len() && part[k] == q[i];
                    assert(list[k].primary);
                }
            }
        }
    }
}

/// The primary index of a table comes before every other one.
pub proof fn law_primary_index_comes_first(all: Seq<IndexView>, table: Seq<char>, n: nat, i: int, j: int)
    requires
        n <= all.len(),
        0 <= i < j < ordered_indexes(all, table, n).len(),
        ordered_indexes(all, table, n)[j].primary,
    ensures
        ordered_indexes(all, table, n)[i].primary,
{
    lemma_primary_first(all, table, n);
}

proof fn lemma_primary_first(all: Seq<IndexView>, table: Seq<char>, n: nat)
    requires
        n <= all.len(),
    ensures
        forall|i: int, j: int|
            0 <= i < j < ordered_indexes(all, table, n).len() && (#[trigger] ordered_indexes(
                all,
                table,
                n,
            )[j]).primary ==> (#[trigger] ordered_indexes(all, table, n)[i]).primary,
    decreases n,
{
    if n > 0 {
        lemma_primary_first(all, table, (n - 1) as nat);
        if all[n - 1].table_name == table {
            lemma_placed_primary(ordered_indexes(all, table, (n - 1) as nat), all[n - 1]);
        }
    }
}

/// The order of an index: the columns in their order, each in its direction, with nulls at the end of an
/// ascending column and at the beginning of a descending one.
pub proof fn law_nulls_follow_the_direction(def: IndexView, i: int)
    requires
        0 <= i < def.columns.len(),
    ensures
        index_order(def).len() == def.columns.len(),
        index_order(def)[i].column == def.columns[i].name,
        index_order(def)[i].ascending <==> def.columns[i].ascending,
        index_order(def)[i].nulls_first <==> !index_order(def)[i].ascending,
{
}

/// Only an index by which the rows are stored says in which order they are read.
pub proof fn law_logical_indexes_give_no_order(defs: Seq<IndexView>, n: nat)
    requires
        n <= defs.len(),
    ensures
        physical_orders(defs, n).len() <= n,
        (forall|i: int| 0 <= i < n ==> (#[trigger] defs[i]).logical_only) ==> physical_orders(
            defs,
            n,
        ).len() == 0,
        forall|i: int|
            0 <= i < n && !(#[trigger] defs[i]).logical_only ==> physical_orders(defs, n).contains(
                index_order(defs[i]),
            ),
    decreases n,
{
    if n > 0 {
        let rest = physical_orders(defs, (n - 1) as nat);
        let whole = physical_orders(defs, n);
        law_logical_indexes_give_no_order(defs, (n - 1) as nat);
        assert forall|i: int| 0 <= i < n && !(#[trigger] defs[i]).logical_only implies whole.contains(
            index_order(defs[i]),
        ) by {
            if i < n - 1 {
                assert(rest.contains(index_order(defs[i])));
                let k = choose|k: int| 0 <= k < rest.len() && rest[k] == index_order(defs[i]);
                assert(whole[k] == index_order(defs[i]));
            } else {
                assert(whole[rest.len() as int] == index_order(defs[i]));
            }
        }
    }
}

/// The places of the partition columns are those of columns with these names, and none is left out that
/// the table has.
pub proof fn law_partition_places(cs: Seq<ColumnView>, names: Seq<Seq<char>>, n: nat)
    requires
        n <= names.len(),
    ensures
        forall|k: int|
            0 <= k < partition_places(cs, names, n).len() ==> {
                let place = #[trigger] partition_places(cs, names, n)[k];
                0 <= place < cs.len() && names.contains(cs[place].name)
            },
        (forall|i: int|
            0 <= i < n ==> exists|j: int|
                0 <= j < cs.len() && (#[trigger] cs[j]).name == #[trigger] names[i])
            ==> partition_places(cs, names, n).len() == n,
    decreases n,
{
    if n > 0 {
        law_partition_places(cs, names, (n - 1) as nat);
        lemma_column_place(cs, names[n - 1], 0);
        assert(names.contains(names[n - 1]));
        let rest = partition_places(cs, names, (n - 1) as nat);
        let whole = partition_places(cs, names, n);
        assert forall|k: int| 0 <= k < whole.len() implies ({
            let place = #[trigger] whole[k];
            0 <= place < cs.len() && names.contains(cs[place].name)
        }) by {
            if k < rest.len() {
                assert(whole[k] == rest[k]);
            }
        }
    }
}

proof fn lemma_column_place(cs: Seq<ColumnView>, name: Seq<char>, i: int)
    requires
        0 <= i <= cs.len(),
    ensures
        match column_place(cs, name, i) {
            Some(k) => i <= k < cs.len() && cs[k].name == name,
            None => forall|j: int| i <= j < cs.len() ==> (#[trigger] cs[j]).name != name,
        },
    decreases cs.len() - i,
{
    if i < cs.len() {
        lemma_column_place(cs, name, i + 1);
    }
}

proof fn lemma_text_order(a: Seq<char>, b: Seq<char>, c: Seq<char>, i: int)
    requires
        text_before(a, b, i),
        !text_before(c, b, i),
    ensures
        text_before(a, c, i),
    decreases a.len() - i,
{
    if 0 <= i < b.len() && i < a.len() {
        if i < c.len() {
            if a[i] == b[i] {
                if c[i] == b[i] {
                    lemma_text_order(a, b, c, i + 1);
                }
            }
        }
    }
}

/// Of two indexes of the same sort that stand behind one another, the second is not before the first by
/// its name.
pub open spec fn in_name_order(list: Seq<IndexView>) -> bool {
    forall|i: int, j: int|
        0 <= i < j < list.len() && (#[trigger] list[i]).primary == (#[trigger] list[j]).primary
            ==> !text_before(list[j].name, list[i].name, 0)
}

proof fn lemma_placed_in_order(list: Seq<IndexView>, x: IndexView)
    requires
        in_name_order(list),
        forall|i: int, j: int|
            0 <= i < j < list.len() && (#[trigger] list[j]).primary ==> (#[trigger] list[i]).primary,
    ensures
        in_name_order(placed_index(list, x)),
    decreases list.len(),
{
    let r = placed_index(list, x);
    if list.len() == 0 || !index_before(x, list.last()) {
        assert forall|i: int, j: int|
            0 <= i < j < r.len() && (#[trigger] r[i]).primary == (#[trigger] r[j]).primary implies !text_before(
            r[j].name,
            r[i].name,
            0,
        ) by {
            if j == list.len() {
                let last = list[list.len() - 1];
                assert(r[i] == list[i]);
                if i < list.len() - 1 {
                    if last.primary == x.primary {
                        assert(!text_before(last.name, list[i].name, 0));
                        if text_before(x.name, list[i].name, 0) {
                            lemma_text_order(x.name, list[i].name, last.name, 0);
                        }
                    } else {
                        assert(last.primary && !x.primary);
                        assert(list[i].primary);
                    }
                }
            } else {
                assert(r[i] == list[i] && r[j] == list[j]);
            }
        }
    } else {
        let part = list.drop_last();
        assert forall|i: int, j: int|
            0 <= i < j < part.len() && (#[trigger] part[i]).primary == (#[trigger] part[j]).primary implies !text_before(
            part[j].name,
            part[i].name,
            0,
        ) by {
            assert(part[i] == list[i] && part[j] == list[j]);
        }
        assert forall|i: int, j: int|
            0 <= i < j < part.len() && (#[trigger] part[j]).primary implies (#[trigger] part[i]).primary by {
            assert(part[i] == list[i] && part[j] == list[j]);
        }
        lemma_placed_in_order(part, x);
        lemma_placed_primary(part, x);
        let q = placed_index(part, x);
        let last = list[list.len() - 1];
        assert forall|i: int, j: int|
            0 <= i < j < r.len() && (#[trigger] r[i]).primary == (#[trigger] r[j]).primary implies !text_before(
            r[j].name,
            r[i].name,
            0,
        ) by {
            if j == q.len() {
                assert(r[i] == q[i] && r[j] == last);
                assert(q[i] == x || part.contains(q[i]));
                if q[i] == x {
                    if text_before(last.name, x.name, 0) {
                        lemma_no_mutual_order(last.name, x.name, 0);
                    }
                } else {
                    let k = choose|k: int| 0 <= k < part.len() && part[k] == q[i];
                    assert(list[k] == q[i]);
                    assert(!text_before(last.name, list[k].name, 0));
                }
            } else {
                assert(r[i] == q[i] && r[j] == q[j]);
            }
        }
    }
}

proof fn lemma_no_mutual_order(a: Seq<char>, b: Seq<char>, i: int)
    requires
        text_before(a, b, i),
    ensures
        !text_before(b, a, i),
    decreases a.len() - i,
{
    if 0 <= i < b.len() && i < a.len() && a[i] == b[i] {
        lemma_no_mutual_order(a, b, i + 1);
    }
}

/// The indexes of a table are listed by their names, behind the primary one.
pub proof fn law_indexes_are_listed_by_name(all: Seq<IndexView>, table: Seq<char>, n: nat)
    requires
        n <= all.len(),
    ensures
        in_name_order(ordered_indexes(all, table, n)),
    decreases n,
{
    if n > 0 {
        law_indexes_are_listed_by_name(all, table, (n - 1) as nat);
        if all[n - 1].table_name == table {
            lemma_primary_first(all, table, (n - 1) as nat);
            lemma_placed_in_order(ordered_indexes(all, table, (n - 1) as nat), all[n - 1]);
        }
    }
}

/// Exactly the indexes of the table are listed.
pub proof fn law_only_the_indexes_of_the_table(all: Seq<IndexView>, table: Seq<char>, n: nat)
    requires
        n <= all.len(),
    ensures
        ordered_indexes(all, table, n).to_multiset() == all.take(n as int).filter(
            |x: IndexView| x.table_name == table,
        ).to_multiset(),
    decreases n,
{
    broadcast use vstd::seq_lib::group_to_multiset_ensures;

    reveal(Seq::filter);
    if n > 0 {
        law_only_the_indexes_of_the_table(all, table, (n - 1) as nat);
        assert(all.take(n as int).drop_last() =~= all.take(n - 1));
        assert(all.take(n as int).last() == all[n - 1]);
        if all[n - 1].table_name == table {
            lemma_placed_multiset(ordered_indexes(all, table, (n - 1) as nat), all[n - 1]);
        }
    }
}

proof fn lemma_placed_multiset(list: Seq<IndexView>, x: IndexView)
    ensures
        placed_index(list, x).to_multiset() == list.to_multiset().insert(x),
    decreases list.len(),
{
    broadcast use vstd::seq_lib::group_to_multiset_ensures;

    if !(list.len() == 0 || !index_before(x, list.last())) {
        lemma_placed_multiset(list.drop_last(), x);
        assert(list =~= list.drop_last().push(list.last()));
        assert(placed_index(list, x).to_multiset() =~= list.to_multiset().insert(x));
    }
}

} // verus!
