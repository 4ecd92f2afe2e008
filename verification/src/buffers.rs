//! Rows that wait in memory before they are written to a table's files.
use std::time::Duration;
use vstd::prelude::*;
use vstd::string::*;

use crate::catalog_types::ColumnDef;
use crate::checkpoint_policy::nanos;
use crate::dup::{opt_view, views, Dup};
use crate::insert::{column_names, list_column_names};
use crate::namemap::NameMap;
use crate::numbers::{decimal, print_usize};
use crate::text::{clone_strings, concat2, contains, contains_seq, same, texts, upper_text};

verus! {

/// The rows that wait for one table.
pub struct BufferedInsert {
    /// The columns that the statements listed, if they listed any.
    pub columns: Option<Vec<String>>,
    pub row_count: usize,
    pub approx_bytes: usize,
}

/// What a [`BufferedInsert`] says.
pub struct BufferedInsertView {
    pub columns: Option<Seq<Seq<char>>>,
    pub row_count: usize,
    pub approx_bytes: usize,
}

/// The texts of an optional list of names.
pub open spec fn listed(columns: Option<Vec<String>>) -> Option<Seq<Seq<char>>> {
    match columns {
        Some(c) => Some(texts(c@)),
        None => None,
    }
}

impl View for BufferedInsert {
    type V = BufferedInsertView;

    open spec fn view(&self) -> BufferedInsertView {
        BufferedInsertView {
            columns: listed(self.columns),
            row_count: self.row_count,
            approx_bytes: self.approx_bytes,
        }
    }
}

fn copy_columns(columns: &Option<Vec<String>>) -> (r: Option<Vec<String>>)
    ensures
        listed(r) == listed(*columns),
{
    match columns {
        Some(c) => Some(clone_strings(c)),
        None => None,
    }
}

impl Dup for BufferedInsert {
    open spec fn wf(&self) -> bool {
        true
    }

    fn dup(&self) -> (r: Self) {
        BufferedInsert {
            columns: copy_columns(&self.columns),
            row_count: self.row_count,
            approx_bytes: self.approx_bytes,
        }
    }
}

/// The rows that wait, for each table, and when they are written.
pub struct WriteBuffers {
    pub tables: NameMap<BufferedInsert>,
    /// From so many rows on a buffer is written.
    pub row_threshold: usize,
    /// From so many bytes on a buffer is written.
    pub byte_threshold: usize,
    /// After so much time a buffer is written.
    pub time_threshold: Duration,
}

/// The sum of two numbers, held within a machine word.
pub open spec fn capped_sum(a: usize, b: usize) -> usize {
    if a + b > usize::MAX {
        usize::MAX
    } else {
        (a + b) as usize
    }
}

fn add_capped(a: usize, b: usize) -> (r: usize)
    ensures
        r == capped_sum(a, b),
{
    if a > usize::MAX - b {
        usize::MAX
    } else {
        a + b
    }
}

/// The buffer of a table with more rows in it.
pub open spec fn grown(
    before: Option<BufferedInsertView>,
    columns: Option<Seq<Seq<char>>>,
    rows: usize,
    bytes: usize,
) -> BufferedInsertView {
    match before {
        Some(b) => BufferedInsertView {
            columns: b.columns,
            row_count: capped_sum(b.row_count, rows),
            approx_bytes: capped_sum(b.approx_bytes, bytes),
        },
        None => BufferedInsertView { columns, row_count: rows, approx_bytes: bytes },
    }
}

fn same_texts(x: &Vec<String>, y: &Vec<String>) -> (r: bool)
    ensures
        r == (texts(x@) == texts(y@)),
{
    assert(texts(x@).len() == x@.len());
    assert(texts(y@).len() == y@.len());
    if x.len() != y.len() {
        return false;
    }
    let mut i: usize = 0;
    while i < x.len()
        invariant
            i <= x@.len(),
            x@.len() == y@.len(),
            forall|j: int| 0 <= j < i ==> texts(x@)[j] == #[trigger] texts(y@)[j],
        decreases x@.len() - i,
    {
        assert(texts(x@)[i as int] == x@[i as int]@);
        assert(texts(y@)[i as int] == y@[i as int]@);
        if !same(&x[i], &y[i]) {
            return false;
        }
        i += 1;
    }
    assert(texts(x@) =~= texts(y@));
    true
}

/// Whether two lists of columns are the same.
pub fn same_columns(a: &Option<Vec<String>>, b: &Option<Vec<String>>) -> (r: bool)
    ensures
        r == (listed(*a) == listed(*b)),
{
    match (a, b) {
        (None, None) => true,
        (Some(x), Some(y)) => same_texts(x, y),
        _ => false,
    }
}

/// The tables among the first `n` whose names, in upper case, stand in a statement.
pub open spec fn mentioned(names: Seq<Seq<char>>, upper: Seq<char>, n: nat) -> Seq<Seq<char>>
    decreases n,
{
    if n == 0 || n > names.len() {
        Seq::empty()
    } else if contains_seq(upper, upper_text(names[n - 1])) {
        mentioned(names, upper, (n - 1) as nat).push(names[n - 1])
    } else {
        mentioned(names, upper, (n - 1) as nat)
    }
}

/// The tables whose buffers are written before a statement runs: those that it mentions, or all
/// where it mentions none.
pub open spec fn written_first(names: Seq<Seq<char>>, upper: Seq<char>) -> Seq<Seq<char>> {
    let found = mentioned(names, upper, names.len());
    if found.len() == 0 {
        names
    } else {
        found
    }
}

impl WriteBuffers {
    /// The buffers are well-formed.
    pub open spec fn wf(&self) -> bool {
        self.tables.deep_wf()
    }

    /// No rows wait.
    pub fn new(row_threshold: usize, byte_threshold: usize, time_threshold: Duration) -> (r:
        WriteBuffers)
        ensures
            r.wf(),
            r.tables.deep() == Map::<Seq<char>, BufferedInsertView>::empty(),
            r.row_threshold == row_threshold,
            r.byte_threshold == byte_threshold,
            r.time_threshold == time_threshold,
    {
        let tables: NameMap<BufferedInsert> = NameMap::new();
        proof {
            tables.lemma_empty();
        }
        WriteBuffers { tables, row_threshold, byte_threshold, time_threshold }
    }

    /// Whether no rows wait.
    pub fn is_empty(&self) -> (r: bool)
        requires
            self.wf(),
        ensures
            r == (self.tables.names().len() == 0),
    {
        self.tables.is_empty()
    }

    /// Whether the rows of a table have to be written before others come that list other columns.
    pub fn must_flush_first(&self, table: &str, columns: &Option<Vec<String>>) -> (r: bool)
        requires
            self.wf(),
        ensures
            r == (self.tables.deep().dom().contains(table@) && self.tables.deep()[table@].columns
                != listed(*columns)),
    {
        match self.tables.lookup(table) {
            None => false,
            Some(b) => !same_columns(&b.columns, columns),
        }
    }

    /// Takes rows in, where `age` is how long the oldest of the table's rows has waited. Tells
    /// whether the table's rows are to be written now.
    pub fn buffer_insert_batches(
        &mut self,
        table: &str,
        columns: Option<Vec<String>>,
        rows: usize,
        bytes: usize,
        age: Duration,
    ) -> (r: bool)
        requires
            old(self).wf(),
        ensures
            final(self).wf(),
            final(self).row_threshold == old(self).row_threshold,
            final(self).byte_threshold == old(self).byte_threshold,
            final(self).time_threshold == old(self).time_threshold,
            ({
                let before = if old(self).tables.deep().dom().contains(table@) {
                    Some(old(self).tables.deep()[table@])
                } else {
                    None
                };
                let after = grown(before, listed(columns), rows, bytes);
                if rows == 0 {
                    !r && *final(self) == *old(self)
                } else {
                    &&& final(self).tables.deep() == old(self).tables.deep().insert(table@, after)
                    &&& r == (after.row_count >= old(self).row_threshold || after.approx_bytes
                        >= old(self).byte_threshold || nanos(age) >= nanos(
                        old(self).time_threshold,
                    ))
                }
            }),
    {
        if rows == 0 {
            return false;
        }
        let next = match self.tables.lookup(table) {
            Some(b) => BufferedInsert {
                columns: copy_columns(&b.columns),
                row_count: add_capped(b.row_count, rows),
                approx_bytes: add_capped(b.approx_bytes, bytes),
            },
            None => BufferedInsert { columns, row_count: rows, approx_bytes: bytes },
        };
        let full: bool = next.row_count >= self.row_threshold || next.approx_bytes
            >= self.byte_threshold || age.as_nanos() >= self.time_threshold.as_nanos();
        self.tables.put(table.to_owned(), next);
        full
    }

    /// Takes the rows of a table out of the buffers, to be written.
    pub fn flush_table(&mut self, table: &str) -> (r: Option<BufferedInsert>)
        requires
            old(self).wf(),
        ensures
            final(self).wf(),
            final(self).row_threshold == old(self).row_threshold,
            final(self).byte_threshold == old(self).byte_threshold,
            final(self).time_threshold == old(self).time_threshold,
            final(self).tables.deep() == old(self).tables.deep().remove(table@),
            opt_view(r) == if old(self).tables.deep().dom().contains(table@) {
                Some(old(self).tables.deep()[table@])
            } else {
                None
            },
    {
        self.tables.take(table)
    }

    /// The tables whose buffers are written before a statement runs, given in upper case.
    pub fn flush_buffered_for_sql(&self, upper: &str) -> (r: Vec<String>)
        requires
            self.wf(),
        ensures
            texts(r@) == written_first(self.tables.names(), upper@),
    {
        let ghost names = self.tables.names();
        let mut out: Vec<String> = Vec::new();
        let mut i: usize = 0;
        assert(texts(out@) =~= Seq::<Seq<char>>::empty());
        while i < self.tables.keys.len()
            invariant
                i <= self.tables.keys@.len(),
                self.wf(),
                names == self.tables.names(),
                names.len() == self.tables.keys@.len(),
                texts(out@) == mentioned(names, upper@, i as nat),
            decreases self.tables.keys@.len() - i,
        {
            assert(names[i as int] == self.tables.keys@[i as int]@);
            let ghost done = out@;
            if contains(upper, &self.tables.keys[i].to_uppercase()) {
                out.push(self.tables.keys[i].clone());
                assert(texts(out@) =~= texts(done).push(names[i as int]));
            }
            i += 1;
        }
        assert(texts(out@).len() == out@.len());
        if out.len() == 0 {
            self.tables.key_list()
        } else {
            out
        }
    }
}

/// The columns that buffered rows are held against: those that were listed, or all of the table.
pub open spec fn checked_columns(
    columns: Option<Seq<Seq<char>>>,
    table: Option<Seq<crate::catalog_types::ColumnView>>,
) -> Seq<Seq<char>> {
    match columns {
        Some(c) => c,
        None => match table {
            Some(cs) => column_names(cs),
            None => Seq::empty(),
        },
    }
}

/// The columns that buffered rows are held against: those that were listed, or all of the table.
pub fn columns_to_check(b: &BufferedInsert, table: Option<&Vec<ColumnDef>>) -> (r: Vec<String>)
    ensures
        texts(r@) == checked_columns(
            b@.columns,
            match table {
                Some(cs) => Some(views(cs@)),
                None => None,
            },
        ),
{
    match &b.columns {
        Some(c) => clone_strings(c),
        None => match table {
            Some(cs) => list_column_names(cs),
            None => {
                let none: Vec<String> = Vec::new();
                assert(texts(none@) =~= Seq::<Seq<char>>::empty());
                none
            },
        },
    }
}

/// The answer to `FLUSH`, given the number of rows that were written.
pub fn flush_message(rows: usize) -> (r: String)
    ensures
        r@ == decimal(rows as nat) + " row(s) flushed."@,
{
    concat2(&print_usize(rows), " row(s) flushed.")
}

// ---------------------------------------------------------------------------
// Laws
// ---------------------------------------------------------------------------

/// Rows that were taken in and are taken out again leave the other tables as they were.
pub proof fn law_flush_after_insert(
    m: Map<Seq<char>, BufferedInsertView>,
    table: Seq<char>,
    b: BufferedInsertView,
)
    requires
        !m.dom().contains(table),
    ensures
        m.insert(table, b).remove(table) == m,
{
    assert(m.insert(table, b).remove(table) =~= m);
}

/// A buffer never loses rows while it grows.
pub proof fn law_buffer_only_grows(
    b: BufferedInsertView,
    columns: Option<Seq<Seq<char>>>,
    rows: usize,
    bytes: usize,
)
    ensures
        grown(Some(b), columns, rows, bytes).row_count >= b.row_count,
        grown(Some(b), columns, rows, bytes).approx_bytes >= b.approx_bytes,
        b.row_count + rows <= usize::MAX ==> grown(Some(b), columns, rows, bytes).row_count
            == b.row_count + rows,
{
}

/// A statement that names a buffered table has its rows written first.
pub proof fn law_mentioned_table_is_written(names: Seq<Seq<char>>, upper: Seq<char>, i: int)
    requires
        0 <= i < names.len(),
        contains_seq(upper, upper_text(names[i])),
    ensures
        written_first(names, upper).contains(names[i]),
{
    lemma_mentioned(names, upper, i, names.len());
}

proof fn lemma_mentioned(names: Seq<Seq<char>>, upper: Seq<char>, i: int, n: nat)
    requires
        0 <= i < n <= names.len(),
        contains_seq(upper, upper_text(names[i])),
    ensures
        mentioned(names, upper, n).contains(names[i]),
    decreases n,
{
    let all = mentioned(names, upper, n);
    let rest = mentioned(names, upper, (n - 1) as nat);
    if i == n - 1 {
        assert(all[all.len() - 1] == names[i]);
    } else {
        lemma_mentioned(names, upper, i, (n - 1) as nat);
        let j = choose|j: int| 0 <= j < rest.len() && rest[j] == names[i];
        assert(all[j] == names[i]);
    }
}

/// Where a statement names none of the buffered tables, the rows of all of them are written first.
pub proof fn law_unknown_statement_writes_all(names: Seq<Seq<char>>, upper: Seq<char>)
    requires
        forall|i: int|
            0 <= i < names.len() ==> !contains_seq(upper, upper_text(#[trigger] names[i])),
    ensures
        written_first(names, upper) == names,
{
    lemma_none_mentioned(names, upper, names.len());
}

proof fn lemma_none_mentioned(names: Seq<Seq<char>>, upper: Seq<char>, n: nat)
    requires
        n <= names.len(),
        forall|i: int|
            0 <= i < names.len() ==> !contains_seq(upper, upper_text(#[trigger] names[i])),
    ensures
        mentioned(names, upper, n).len() == 0,
    decreases n,
{
    if n > 0 {
        lemma_none_mentioned(names, upper, (n - 1) as nat);
        assert(!contains_seq(upper, upper_text(names[n - 1])));
    }
}

/// A buffer begins with the columns of the first rows and keeps them.
pub proof fn law_buffer_keeps_its_columns(
    before: Option<BufferedInsertView>,
    columns: Option<Seq<Seq<char>>>,
    rows: usize,
    bytes: usize,
)
    ensures
        before is None ==> grown(before, columns, rows, bytes).columns == columns && grown(
            before,
            columns,
            rows,
            bytes,
        ).row_count == rows && grown(before, columns, rows, bytes).approx_bytes == bytes,
        before matches Some(b) ==> grown(before, columns, rows, bytes).columns == b.columns,
{
}

} // verus!
