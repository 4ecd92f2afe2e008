//! Query results as text: plain tables, and box-drawing tables that leave the middle of a long
//! result out.
use arrow::array::Array;
use arrow::datatypes::DataType;
use arrow::record_batch::RecordBatch;
use arrow::util::pretty::pretty_format_batches;
use arrow_cast::display::{ArrayFormatter, FormatOptions};
use vstd::prelude::*;
use vstd::string::*;
use vstd::utf8::{is_ascii_chars, is_ascii_chars_encode_utf8};

use crate::box_drawing::{
    border_line, cell_text, dot_line, footer_left, footer_len, footer_line, footer_right, footer_text_len,
    full_border_line, inner_room, inner_width, law_border_width,
    law_dots_width, law_footer_width, law_row_width, left_footer, lemma_footer_ascii, lemma_width_sum_grows, push_border,
    push_dot_row, push_footer_content, push_full_border, push_row, refs, right_footer, row_line,
    str_texts, width_sum,
};
use crate::text::{concat2, from_chars, has_prefix, same, starts_with, texts, to_chars, utf8};

verus! {

/// Maximum rows to display before the middle is left out.
pub const MAX_DISPLAY_ROWS: usize = 40;

// ---------------------------------------------------------------------------
// Batches of rows
// ---------------------------------------------------------------------------

/// A batch of rows: a `RecordBatch` of the crate `arrow`. It is held here because that type cannot be
/// declared by itself: it can be indexed by a name, which gives an object of the trait `Array`.
#[verifier::external_body]
pub struct Batch {
    pub records: RecordBatch,
}

/// The data type of the crate `arrow`.
#[verifier::external_type_specification]
#[verifier::external_body]
pub struct ExDataType(DataType);

/// What a record batch shows: its rows, and for each column the name, the type as it prints, which
/// rows are null, and the values as they print, if they can.
pub struct BatchView {
    pub rows: nat,
    pub names: Seq<Seq<char>>,
    pub types: Seq<Seq<char>>,
    pub nulls: Seq<Seq<bool>>,
    pub values: Seq<Option<Seq<Seq<char>>>>,
}

/// What a record batch holds.
pub uninterp spec fn contents(b: Batch) -> BatchView;

/// What a list of record batches holds.
pub open spec fn all_contents(s: Seq<Batch>) -> Seq<BatchView> {
    Seq::new(s.len(), |i: int| contents(s[i]))
}

/// Rows from `offset` on, `length` of them.
pub open spec fn sliced(b: BatchView, offset: int, length: int) -> BatchView {
    BatchView {
        rows: length as nat,
        names: b.names,
        types: b.types,
        nulls: Seq::new(b.nulls.len(), |c: int| b.nulls[c].subrange(offset, offset + length)),
        values: Seq::new(
            b.values.len(),
            |c: int|
                match b.values[c] {
                    Some(v) => Some(v.subrange(offset, offset + length)),
                    None => None,
                },
        ),
    }
}

/// `RecordBatch::num_rows` of the crate `arrow`: the number of rows.
#[verifier::external_body]
pub(crate) fn num_rows(b: &Batch) -> (r: usize)
    ensures
        r == contents(*b).rows,
{
    b.records.num_rows()
}

/// `RecordBatch::slice` of the crate `arrow`: the rows from `offset` on, `length` of them, with the
/// columns and types of the batch.
#[verifier::external_body]
fn slice_batch(b: &Batch, offset: usize, length: usize) -> (r: Batch)
    requires
        offset + length <= contents(*b).rows,
    ensures
        contents(r) == sliced(contents(*b), offset as int, length as int),
{
    Batch { records: b.records.slice(offset, length) }
}

/// The schema of a `RecordBatch` of the crate `arrow`: the names of the columns.
#[verifier::external_body]
pub(crate) fn field_names(b: &Batch) -> (r: Vec<String>)
    ensures
        texts(r@) == contents(*b).names,
{
    b.records.schema().fields().iter().map(|f| f.name().clone()).collect()
}

/// The schema of a `RecordBatch` of the crate `arrow`: the types of the columns, printed as
/// `DataType` prints them. There are as many as there are names.
#[verifier::external_body]
pub(crate) fn field_types(b: &Batch) -> (r: Vec<String>)
    ensures
        texts(r@) == contents(*b).types,
        r@.len() == contents(*b).names.len(),
{
    b.records.schema().fields().iter().map(|f| f.data_type().to_string()).collect()
}

/// `RecordBatch::num_columns` of the crate `arrow`: the number of columns, which is the number of
/// names.
#[verifier::external_body]
pub(crate) fn num_columns(b: &Batch) -> (r: usize)
    ensures
        r == contents(*b).names.len(),
        r == contents(*b).nulls.len(),
        r == contents(*b).values.len(),
{
    b.records.num_columns()
}

/// `Array::is_null` of the crate `arrow`, for each row of a column.
#[verifier::external_body]
pub(crate) fn column_nulls(b: &Batch, c: usize) -> (r: Vec<bool>)
    requires
        c < contents(*b).nulls.len(),
    ensures
        r@ == contents(*b).nulls[c as int],
        r@.len() == contents(*b).rows,
{
    (0..b.records.num_rows()).map(|i| b.records.column(c).is_null(i)).collect()
}

/// `Array::get_array_memory_size` of the crate `arrow`, for a column: how many bytes of memory it
/// takes, the array itself included, so that there are always some. How many depends on how much was
/// set aside for it, so no more is said of the number.
#[verifier::external_body]
fn column_bytes(b: &Batch, c: usize) -> (r: usize)
    requires
        c < contents(*b).nulls.len(),
    ensures
        r > 0,
{
    b.records.column(c).get_array_memory_size()
}

/// The sum of the first `n` sizes.
pub open spec fn sum_of_sizes(sizes: Seq<usize>, n: nat) -> nat
    decreases n,
{
    if n == 0 || n > sizes.len() {
        0
    } else {
        sum_of_sizes(sizes, (n - 1) as nat) + sizes[n - 1] as nat
    }
}

proof fn lemma_sizes_grow(sizes: Seq<usize>, m: nat, n: nat)
    requires
        m <= n <= sizes.len(),
    ensures
        sum_of_sizes(sizes, m) <= sum_of_sizes(sizes, n),
    decreases n,
{
    if m < n {
        lemma_sizes_grow(sizes, m, (n - 1) as nat);
    }
}

/// The sum of sizes; `None` where it is too large.
pub fn add_sizes(sizes: &Vec<usize>) -> (r: Option<usize>)
    ensures
        match r {
            Some(total) => total == sum_of_sizes(sizes@, sizes@.len()),
            None => sum_of_sizes(sizes@, sizes@.len()) > usize::MAX,
        },
{
    let mut total: usize = 0;
    let mut i: usize = 0;
    while i < sizes.len()
        invariant
            i <= sizes@.len(),
            total == sum_of_sizes(sizes@, i as nat),
        decreases sizes@.len() - i,
    {
        if sizes[i] > usize::MAX - total {
            proof {
                lemma_sizes_grow(sizes@, (i + 1) as nat, sizes@.len());
            }
            return None;
        }
        total += sizes[i];
        i += 1;
    }
    Some(total)
}

/// How many columns the first `n` batches have together.
pub open spec fn columns_until(s: Seq<BatchView>, n: nat) -> nat
    decreases n,
{
    if n == 0 || n > s.len() {
        0
    } else {
        columns_until(s, (n - 1) as nat) + s[n - 1].nulls.len()
    }
}

/// How many columns the batches have together.
pub open spec fn total_columns(s: Seq<BatchView>) -> nat {
    columns_until(s, s.len())
}

/// Whether there is one size for each of so many columns, and none is 0.
pub open spec fn measured(sizes: Seq<usize>, columns: nat) -> bool {
    &&& sizes.len() == columns
    &&& forall|i: int| 0 <= i < sizes.len() ==> #[trigger] sizes[i] > 0
}

/// What each column of each batch takes in memory, in order.
pub fn column_sizes(batches: &[Batch]) -> (r: Vec<usize>)
    ensures
        measured(r@, total_columns(all_contents(batches@))),
{
    let ghost s = all_contents(batches@);
    let mut sizes: Vec<usize> = Vec::new();
    let mut i: usize = 0;
    while i < batches.len()
        invariant
            i <= batches@.len(),
            s == all_contents(batches@),
            measured(sizes@, columns_until(s, i as nat)),
        decreases batches@.len() - i,
    {
        assert(s[i as int] == contents(batches@[i as int]));
        let columns: usize = num_columns(&batches[i]);
        let mut c: usize = 0;
        while c < columns
            invariant
                i < batches@.len(),
                c <= columns,
                columns == contents(batches@[i as int]).nulls.len(),
                measured(sizes@, columns_until(s, i as nat) + c as nat),
            decreases columns - c,
        {
            sizes.push(column_bytes(&batches[i], c));
            c += 1;
        }
        i += 1;
    }
    sizes
}

proof fn lemma_measured_sum(sizes: Seq<usize>, n: nat)
    requires
        n <= sizes.len(),
        measured(sizes, sizes.len()),
    ensures
        n <= sum_of_sizes(sizes, n) <= n * usize::MAX,
    decreases n,
{
    if n > 0 {
        lemma_measured_sum(sizes, (n - 1) as nat);
        assert(sizes[n - 1] > 0);
        assert(n * usize::MAX == (n - 1) * usize::MAX + usize::MAX) by (nonlinear_arith);
    }
}

/// About how much memory the columns of the batches take together, each of them counted once; `None`
/// where that is too large a number. Every column takes some.
pub fn estimate_batch_bytes(batches: &[Batch]) -> (r: Option<usize>)
    ensures
        exists|sizes: Seq<usize>| #[trigger]
            measured(sizes, total_columns(all_contents(batches@))) && match r {
                Some(n) => n == sum_of_sizes(sizes, sizes.len()),
                None => sum_of_sizes(sizes, sizes.len()) > usize::MAX,
            },
        r matches Some(n) ==> n >= total_columns(all_contents(batches@)),
        r is None ==> total_columns(all_contents(batches@)) >= 2,
        total_columns(all_contents(batches@)) == 0 ==> r == Some(0usize),
{
    let sizes = column_sizes(batches);
    proof {
        lemma_measured_sum(sizes@, sizes@.len());
        let columns = total_columns(all_contents(batches@));
        assert(measured(sizes@, columns));
        assert(columns < 2 ==> columns * usize::MAX <= usize::MAX) by (nonlinear_arith);
    }
    add_sizes(&sizes)
}

/// `ArrayFormatter::try_new` and `ArrayFormatter::value` of the crate `arrow-cast`, with the default
/// options, for each row of a column: the values as they print, or nothing where the formatter does
/// not know the column's type.
#[verifier::external_body]
fn column_values(b: &Batch, c: usize) -> (r: Option<Vec<String>>)
    requires
        c < contents(*b).values.len(),
    ensures
        match r {
            Some(v) => contents(*b).values[c as int] == Some(texts(v@)) && v@.len() == contents(
                *b,
            ).rows,
            None => contents(*b).values[c as int] is None,
        },
{
    let options = FormatOptions::default();
    let formatter = ArrayFormatter::try_new(b.records.column(c).as_ref(), &options).ok()?;
    Some((0..b.records.num_rows()).map(|i| formatter.value(i).to_string()).collect())
}

/// The plain table that the crate `arrow` makes of record batches, or its complaint.
pub uninterp spec fn pretty_table(batches: Seq<BatchView>) -> Result<Seq<char>, Seq<char>>;

/// `pretty_format_batches` of the crate `arrow`: the table depends on what the batches hold.
#[verifier::external_body]
fn pretty_format(batches: &[Batch]) -> (r: Result<String, String>)
    ensures
        crate::outcome::answered(r) == pretty_table(all_contents(batches@)),
{
    let records: Vec<RecordBatch> = batches.iter().map(|b| b.records.clone()).collect();
    match pretty_format_batches(&records) {
        Ok(table) => Ok(table.to_string()),
        Err(e) => Err(e.to_string()),
    }
}

/// The text by which a data type prints.
pub uninterp spec fn type_text(dt: DataType) -> Seq<char>;

/// `DataType`'s `Display` of the crate `arrow`.
#[verifier::external_body]
pub(crate) fn print_data_type(dt: &DataType) -> (r: String)
    ensures
        r@ == type_text(*dt),
{
    dt.to_string()
}

// ---------------------------------------------------------------------------
// Types
// ---------------------------------------------------------------------------

/// The name of a type that is shown, given the type as it prints. A type without a short name is
/// shown as it prints.
pub open spec fn friendly_name(t: Seq<char>) -> Seq<char> {
    if t == "Boolean"@ {
        "boolean"@
    } else if t == "Int8"@ {
        "int8"@
    } else if t == "Int16"@ {
        "int16"@
    } else if t == "Int32"@ {
        "int32"@
    } else if t == "Int64"@ {
        "int64"@
    } else if t == "UInt8"@ {
        "uint8"@
    } else if t == "UInt16"@ {
        "uint16"@
    } else if t == "UInt32"@ {
        "uint32"@
    } else if t == "UInt64"@ {
        "uint64"@
    } else if t == "Float16"@ {
        "float16"@
    } else if t == "Float32"@ {
        "float"@
    } else if t == "Float64"@ {
        "double"@
    } else if t == "Utf8"@ || t == "LargeUtf8"@ {
        "varchar"@
    } else if t == "Binary"@ || t == "LargeBinary"@ {
        "blob"@
    } else if t == "Date32"@ || t == "Date64"@ {
        "date"@
    } else if has_prefix(t, "Time32("@) || has_prefix(t, "Time64("@) {
        "time"@
    } else if has_prefix(t, "Timestamp("@) {
        "timestamp"@
    } else if has_prefix(t, "Decimal128("@) || has_prefix(t, "Decimal256("@) {
        "decimal"@
    } else if t == "Null"@ {
        "null"@
    } else {
        t
    }
}

/// The name of a type that is shown, given the type as it prints.
pub fn friendly_type_name(t: &str) -> (r: String)
    ensures
        r@ == friendly_name(t@),
{
    if same(t, "Boolean") {
        "boolean".to_owned()
    } else if same(t, "Int8") {
        "int8".to_owned()
    } else if same(t, "Int16") {
        "int16".to_owned()
    } else if same(t, "Int32") {
        "int32".to_owned()
    } else if same(t, "Int64") {
        "int64".to_owned()
    } else if same(t, "UInt8") {
        "uint8".to_owned()
    } else if same(t, "UInt16") {
        "uint16".to_owned()
    } else if same(t, "UInt32") {
        "uint32".to_owned()
    } else if same(t, "UInt64") {
        "uint64".to_owned()
    } else if same(t, "Float16") {
        "float16".to_owned()
    } else if same(t, "Float32") {
        "float".to_owned()
    } else if same(t, "Float64") {
        "double".to_owned()
    } else if same(t, "Utf8") || same(t, "LargeUtf8") {
        "varchar".to_owned()
    } else if same(t, "Binary") || same(t, "LargeBinary") {
        "blob".to_owned()
    } else if same(t, "Date32") || same(t, "Date64") {
        "date".to_owned()
    } else if starts_with(t, "Time32(") || starts_with(t, "Time64(") {
        "time".to_owned()
    } else if starts_with(t, "Timestamp(") {
        "timestamp".to_owned()
    } else if starts_with(t, "Decimal128(") || starts_with(t, "Decimal256(") {
        "decimal".to_owned()
    } else if same(t, "Null") {
        "null".to_owned()
    } else {
        t.to_owned()
    }
}

/// The name of a type that is shown.
pub fn friendly_type(dt: &DataType) -> (r: String)
    ensures
        r@ == friendly_name(type_text(*dt)),
{
    friendly_type_name(&print_data_type(dt))
}

// ---------------------------------------------------------------------------
// Rows
// ---------------------------------------------------------------------------

/// The rows of the first `n` batches.
pub open spec fn rows_until(s: Seq<BatchView>, n: nat) -> nat
    decreases n,
{
    if n == 0 || n > s.len() {
        0
    } else {
        rows_until(s, (n - 1) as nat) + s[n - 1].rows
    }
}

/// The rows of all batches.
pub open spec fn total_rows(s: Seq<BatchView>) -> nat {
    rows_until(s, s.len())
}

pub proof fn lemma_rows_grow(s: Seq<BatchView>, a: nat, b: nat)
    requires
        a <= b <= s.len(),
    ensures
        rows_until(s, a) <= rows_until(s, b),
    decreases b,
{
    if a < b {
        lemma_rows_grow(s, a, (b - 1) as nat);
    }
}

/// The rows of all batches, or nothing where there are more than can be counted.
pub fn checked_row_count(batches: &[Batch]) -> (r: Option<usize>)
    ensures
        match r {
            Some(n) => n == total_rows(all_contents(batches@)),
            None => total_rows(all_contents(batches@)) > usize::MAX,
        },
{
    let ghost s = all_contents(batches@);
    let mut sum: usize = 0;
    let mut i: usize = 0;
    while i < batches.len()
        invariant
            i <= batches@.len(),
            s == all_contents(batches@),
            s.len() == batches@.len(),
            sum == rows_until(s, i as nat),
        decreases batches@.len() - i,
    {
        let n: usize = num_rows(&batches[i]);
        assert(s[i as int] == contents(batches@[i as int]));
        if n > usize::MAX - sum {
            proof {
                lemma_rows_grow(s, (i + 1) as nat, s.len());
            }
            return None;
        }
        sum = sum + n;
        i += 1;
    }
    Some(sum)
}

/// The rows of all batches.
pub fn row_count(batches: &[Batch]) -> (r: usize)
    requires
        total_rows(all_contents(batches@)) <= usize::MAX,
    ensures
        r == total_rows(all_contents(batches@)),
{
    match checked_row_count(batches) {
        Some(n) => n,
        None => 0,
    }
}

/// Whether no batch has rows.
pub open spec fn no_rows(s: Seq<BatchView>) -> bool {
    forall|i: int| 0 <= i < s.len() ==> (#[trigger] s[i]).rows == 0
}

fn has_no_rows(batches: &[Batch]) -> (r: bool)
    ensures
        r == no_rows(all_contents(batches@)),
{
    let ghost s = all_contents(batches@);
    let mut i: usize = 0;
    while i < batches.len()
        invariant
            i <= batches@.len(),
            s == all_contents(batches@),
            s.len() == batches@.len(),
            forall|k: int| 0 <= k < i ==> (#[trigger] s[k]).rows == 0,
        decreases batches@.len() - i,
    {
        assert(s[i as int] == contents(batches@[i as int]));
        if num_rows(&batches[i]) != 0 {
            return false;
        }
        i += 1;
    }
    true
}

/// The slices of the batches from the `i`-th on that hold the rows from `offset` on, `remaining` of
/// them, where `seen` rows stand before the `i`-th batch.
pub open spec fn slices_from(
    s: Seq<BatchView>,
    i: int,
    offset: int,
    seen: int,
    remaining: int,
) -> Seq<BatchView>
    decreases s.len() - i,
{
    if i < 0 || i >= s.len() {
        Seq::empty()
    } else {
        let n = s[i].rows as int;
        if seen + n <= offset {
            slices_from(s, i + 1, offset, seen + n, remaining)
        } else {
            let skip = if offset > seen {
                offset - seen
            } else {
                0
            };
            let take = if remaining < n - skip {
                remaining
            } else {
                n - skip
            };
            let first = if take > 0 {
                seq![sliced(s[i], skip, take)]
            } else {
                Seq::empty()
            };
            if remaining - take == 0 {
                first
            } else {
                first + slices_from(s, i + 1, offset, seen + n, remaining - take)
            }
        }
    }
}

/// The rows from `offset` on, `length` of them or as many as there are.
pub fn slice_batches(batches: &[Batch], offset: usize, length: usize) -> (r: Vec<Batch>)
    requires
        total_rows(all_contents(batches@)) <= usize::MAX,
    ensures
        all_contents(r@) == slices_from(
            all_contents(batches@),
            0,
            offset as int,
            0,
            length as int,
        ),
{
    let ghost s = all_contents(batches@);
    let ghost goal = slices_from(s, 0, offset as int, 0, length as int);
    let mut out: Vec<Batch> = Vec::new();
    let mut seen: usize = 0;
    let mut remaining: usize = length;
    let mut i: usize = 0;
    assert(all_contents(out@) + goal =~= goal);
    while i < batches.len()
        invariant
            i <= batches@.len(),
            s == all_contents(batches@),
            s.len() == batches@.len(),
            total_rows(s) <= usize::MAX,
            seen == rows_until(s, i as nat),
            goal == slices_from(s, 0, offset as int, 0, length as int),
            goal == all_contents(out@) + slices_from(
                s,
                i as int,
                offset as int,
                seen as int,
                remaining as int,
            ),
        decreases batches@.len() - i,
    {
        let n: usize = num_rows(&batches[i]);
        proof {
            assert(s[i as int] == contents(batches@[i as int]));
            lemma_rows_grow(s, (i + 1) as nat, s.len());
        }
        let ghost before = all_contents(out@);
        let ghost rest = slices_from(s, i as int, offset as int, seen as int, remaining as int);
        if seen + n <= offset {
            seen = seen + n;
        } else {
            let skip: usize = if offset > seen {
                offset - seen
            } else {
                0
            };
            let take: usize = if remaining < n - skip {
                remaining
            } else {
                n - skip
            };
            if take > 0 {
                let ghost done = out@;
                let piece = slice_batch(&batches[i], skip, take);
                let ghost pv = contents(piece);
                out.push(piece);
                assert(all_contents(out@) =~= before.push(pv));
                assert(before.push(pv) =~= before + seq![pv]);
                remaining = remaining - take;
            }
            seen = seen + n;
            if remaining == 0 {
                assert(all_contents(out@) =~= goal);
                return out;
            }
            assert(goal =~= all_contents(out@) + slices_from(
                s,
                i + 1,
                offset as int,
                seen as int,
                remaining as int,
            ));
        }
        i += 1;
    }
    assert(all_contents(out@) =~= goal);
    out
}

// ---------------------------------------------------------------------------
// Cells
// ---------------------------------------------------------------------------

/// The texts that are shown of a column: `NULL`, the value as it prints, or a question mark.
pub open spec fn column_texts(b: BatchView, c: int) -> Seq<Seq<char>> {
    Seq::new(
        b.rows,
        |i: int|
            if b.nulls[c][i] {
                "NULL"@
            } else {
                match b.values[c] {
                    Some(v) => v[i],
                    None => "?"@,
                }
            },
    )
}

/// The texts that are shown of a column.
pub fn column_to_strings(batch: &Batch, c: usize) -> (r: Vec<String>)
    requires
        c < contents(*batch).nulls.len(),
        c < contents(*batch).values.len(),
    ensures
        texts(r@) == column_texts(contents(*batch), c as int),
{
    let ghost b = contents(*batch);
    let nulls = column_nulls(batch, c);
    let values = column_values(batch, c);
    let mut out: Vec<String> = Vec::new();
    let mut i: usize = 0;
    while i < nulls.len()
        invariant
            i <= nulls@.len(),
            nulls@ == b.nulls[c as int],
            nulls@.len() == b.rows,
            match values {
                Some(v) => b.values[c as int] == Some(texts(v@)) && v@.len() == b.rows,
                None => b.values[c as int] is None,
            },
            out@.len() == i,
            forall|k: int| 0 <= k < i ==> (#[trigger] out@[k])@ == column_texts(b, c as int)[k],
        decreases nulls@.len() - i,
    {
        if nulls[i] {
            out.push("NULL".to_owned());
        } else {
            match &values {
                Some(v) => {
                    assert(texts(v@)[i as int] == v@[i as int]@);
                    out.push(v[i].clone());
                },
                None => {
                    out.push("?".to_owned());
                },
            }
        }
        i += 1;
    }
    assert(texts(out@) =~= column_texts(b, c as int));
    out
}

/// The texts that are shown of a column, in the first `n` batches.
pub open spec fn texts_until(s: Seq<BatchView>, c: int, n: nat) -> Seq<Seq<char>>
    decreases n,
{
    if n == 0 || n > s.len() {
        Seq::empty()
    } else {
        texts_until(s, c, (n - 1) as nat) + column_texts(s[n - 1], c)
    }
}

/// The texts that are shown of a column.
pub open spec fn all_texts(s: Seq<BatchView>, c: int) -> Seq<Seq<char>> {
    texts_until(s, c, s.len())
}

/// Whether every batch has at least so many columns.
pub open spec fn has_columns(s: Seq<BatchView>, cols: nat) -> bool {
    forall|i: int|
        0 <= i < s.len() ==> (#[trigger] s[i]).nulls.len() >= cols && s[i].values.len() >= cols
}

fn append_strings(out: &mut Vec<String>, more: &Vec<String>)
    ensures
        texts(final(out)@) == texts(old(out)@) + texts(more@),
{
    let ghost start = texts(out@);
    let ghost all = texts(more@);
    let mut i: usize = 0;
    assert(start + all.subrange(0, 0) =~= start);
    while i < more.len()
        invariant
            i <= more@.len(),
            start == texts(old(out)@),
            all == texts(more@),
            all.len() == more@.len(),
            texts(out@) == start + all.subrange(0, i as int),
        decreases more@.len() - i,
    {
        let ghost done = out@;
        assert(all[i as int] == more@[i as int]@);
        out.push(more[i].clone());
        assert(texts(out@) =~= texts(done).push(all[i as int]));
        i += 1;
        assert(all.subrange(0, i as int) =~= all.subrange(0, i - 1).push(all[i - 1]));
    }
    assert(all.subrange(0, all.len() as int) =~= all);
}

fn column_strings(batches: &[Batch], c: usize, cols: usize) -> (r: Vec<String>)
    requires
        c < cols,
        has_columns(all_contents(batches@), cols as nat),
    ensures
        texts(r@) == all_texts(all_contents(batches@), c as int),
{
    let ghost s = all_contents(batches@);
    let mut out: Vec<String> = Vec::new();
    let mut i: usize = 0;
    assert(texts(out@) =~= Seq::<Seq<char>>::empty());
    while i < batches.len()
        invariant
            i <= batches@.len(),
            c < cols,
            s == all_contents(batches@),
            s.len() == batches@.len(),
            has_columns(s, cols as nat),
            texts(out@) == texts_until(s, c as int, i as nat),
        decreases batches@.len() - i,
    {
        assert(s[i as int] == contents(batches@[i as int]));
        let more = column_to_strings(&batches[i], c);
        append_strings(&mut out, &more);
        i += 1;
    }
    out
}

/// A list of texts for each column.
pub open spec fn column_lists(v: Seq<Vec<String>>) -> Seq<Seq<Seq<char>>> {
    Seq::new(v.len(), |c: int| texts(v[c]@))
}

// ---------------------------------------------------------------------------
// Widths
// ---------------------------------------------------------------------------

/// The most bytes that one of the first `n` texts takes.
pub open spec fn longest(v: Seq<Seq<char>>, n: nat) -> nat
    decreases n,
{
    if n == 0 || n > v.len() {
        0
    } else {
        let rest = longest(v, (n - 1) as nat);
        if utf8(v[n - 1]).len() > rest {
            utf8(v[n - 1]).len()
        } else {
            rest
        }
    }
}

/// The larger of two numbers.
pub open spec fn larger(a: nat, b: nat) -> nat {
    if a > b {
        a
    } else {
        b
    }
}

/// The width of a column: that of its name, of its type or of its longest text, and at least 1.
pub open spec fn column_width(name: Seq<char>, ty: Seq<char>, cells: Seq<Seq<char>>) -> nat {
    larger(
        larger(larger(utf8(name).len(), utf8(ty).len()), longest(cells, cells.len())),
        1,
    )
}

fn longest_of(v: &Vec<String>) -> (r: usize)
    ensures
        r == longest(texts(v@), texts(v@).len()),
{
    let ghost all = texts(v@);
    let mut best: usize = 0;
    let mut i: usize = 0;
    while i < v.len()
        invariant
            i <= v@.len(),
            all == texts(v@),
            all.len() == v@.len(),
            best == longest(all, i as nat),
        decreases v@.len() - i,
    {
        assert(all[i as int] == v@[i as int]@);
        let n: usize = v[i].as_str().as_bytes().len();
        if n > best {
            best = n;
        }
        i += 1;
    }
    best
}

fn width_of(name: &str, ty: &str, cells: &Vec<String>) -> (r: usize)
    ensures
        r == column_width(name@, ty@, texts(cells@)),
{
    let a: usize = name.as_bytes().len();
    let b: usize = ty.as_bytes().len();
    let c: usize = longest_of(cells);
    let ab: usize = if a > b {
        a
    } else {
        b
    };
    let abc: usize = if ab > c {
        ab
    } else {
        c
    };
    if abc > 1 {
        abc
    } else {
        1
    }
}

// ---------------------------------------------------------------------------
// Tables
// ---------------------------------------------------------------------------

/// What a box-drawing table shows.
pub struct TableText {
    pub names: Seq<Seq<char>>,
    pub types: Seq<Seq<char>>,
    /// For each column the texts of the rows that are shown.
    pub cells: Seq<Seq<Seq<char>>>,
    /// How many rows there are, shown or not.
    pub total: nat,
}

/// Whether rows are left out.
pub open spec fn leaves_out(t: TableText) -> bool {
    t.total > MAX_DISPLAY_ROWS
}

/// The widths that the columns need.
pub open spec fn natural_widths(t: TableText) -> Seq<usize> {
    Seq::new(
        t.names.len(),
        |i: int| column_width(t.names[i], t.types[i], t.cells[i]) as usize,
    )
}

/// The widths with the last column made wide enough for the footer.
pub open spec fn widened(widths: Seq<usize>, footer: nat) -> Seq<usize> {
    if widths.len() > 0 && inner_room(widths) < footer + 2 {
        widths.update(
            widths.len() - 1,
            (widths[widths.len() - 1] + (footer + 2 - inner_room(widths))) as usize,
        )
    } else {
        widths
    }
}

/// The bytes that the footer takes.
pub open spec fn footer_of(t: TableText) -> nat {
    footer_len(t.total, (MAX_DISPLAY_ROWS / 2) as nat, t.names.len())
}

/// The widths of the columns.
pub open spec fn table_widths(t: TableText) -> Seq<usize> {
    if leaves_out(t) {
        widened(natural_widths(t), footer_of(t))
    } else {
        natural_widths(t)
    }
}

/// The texts of a row.
pub open spec fn row_texts(cells: Seq<Seq<Seq<char>>>, row: int) -> Seq<Seq<char>> {
    Seq::new(cells.len(), |c: int| cells[c][row])
}

/// The lines of the rows from `row` on. Three rows of dots stand for those that are left out.
pub open spec fn body_from(t: TableText, widths: Seq<usize>, row: int) -> Seq<char>
    decreases t.cells[0].len() - row,
{
    if row < 0 || row >= t.cells[0].len() {
        Seq::empty()
    } else {
        (if leaves_out(t) && row == MAX_DISPLAY_ROWS / 2 {
            dot_line(widths) + dot_line(widths) + dot_line(widths)
        } else {
            Seq::empty()
        }) + row_line(widths, row_texts(t.cells, row)) + body_from(t, widths, row + 1)
    }
}

/// The lines behind the rows.
pub open spec fn bottom(t: TableText, widths: Seq<usize>) -> Seq<char> {
    if leaves_out(t) {
        border_line(widths, '├', '┴', '┤') + footer_line(
            widths,
            footer_left(t.total, (MAX_DISPLAY_ROWS / 2) as nat),
            footer_right(t.names.len()),
        ) + full_border_line(widths, '└', '┘')
    } else {
        border_line(widths, '└', '┴', '┘')
    }
}

/// The lines of a table, with a line end behind each.
pub open spec fn table_lines(t: TableText) -> Seq<char> {
    let widths = table_widths(t);
    border_line(widths, '┌', '┬', '┐') + row_line(widths, t.names) + row_line(widths, t.types)
        + border_line(widths, '├', '┼', '┤') + body_from(t, widths, 0) + bottom(t, widths)
}

/// A table as text: its lines, without the last line end.
pub open spec fn table_text(t: TableText) -> Seq<char> {
    table_lines(t).drop_last()
}

/// Whether the lengths of the lines can be counted.
pub open spec fn countable(t: TableText) -> bool {
    &&& t.names.len() > 0
    &&& forall|i: int|
        0 <= i < t.names.len() ==> column_width(#[trigger] t.names[i], t.types[i], t.cells[i])
            <= usize::MAX
    &&& width_sum(natural_widths(t), t.names.len()) + 3 * t.names.len() + footer_of(t) + 2
        <= usize::MAX
}

proof fn lemma_bottom_ends(t: TableText, widths: Seq<usize>)
    ensures
        bottom(t, widths).len() > 0,
        bottom(t, widths).last() == '\n',
{
}

proof fn lemma_each_width(widths: Seq<usize>, i: int, n: nat)
    requires
        0 <= i < n <= widths.len(),
    ensures
        widths[i] <= width_sum(widths, n),
    decreases n,
{
    if i < n - 1 {
        lemma_each_width(widths, i, (n - 1) as nat);
    }
}

proof fn lemma_widened_sum(widths: Seq<usize>, w: usize, n: nat)
    requires
        widths.len() > 0,
        n <= widths.len(),
    ensures
        width_sum(widths.update(widths.len() - 1, w), n) == if n == widths.len() {
            width_sum(widths, n) - widths[widths.len() - 1] + w
        } else {
            width_sum(widths, n) as int
        },
    decreases n,
{
    if n > 0 {
        lemma_widened_sum(widths, w, (n - 1) as nat);
    }
}

fn widths_of(names: &Vec<String>, types: &Vec<String>, columns: &Vec<Vec<String>>, total: usize) -> (r:
    Vec<usize>)
    requires
        names@.len() == types@.len() == columns@.len(),
        countable(
            (TableText {
                names: texts(names@),
                types: texts(types@),
                cells: column_lists(columns@),
                total: total as nat,
            }),
        ),
    ensures
        r@ == table_widths(
            (TableText {
                names: texts(names@),
                types: texts(types@),
                cells: column_lists(columns@),
                total: total as nat,
            }),
        ),
        r@.len() == names@.len(),
        inner_room(r@) <= usize::MAX,
        forall|i: int| 0 <= i < r@.len() ==> #[trigger] r@[i] <= usize::MAX - 2,
{
    let ghost t = TableText {
        names: texts(names@),
        types: texts(types@),
        cells: column_lists(columns@),
        total: total as nat,
    };
    let ghost goal = natural_widths(t);
    let mut widths: Vec<usize> = Vec::new();
    let mut i: usize = 0;
    while i < names.len()
        invariant
            i <= names@.len(),
            names@.len() == types@.len() == columns@.len(),
            t.names == texts(names@),
            t.types == texts(types@),
            t.cells == column_lists(columns@),
            goal == natural_widths(t),
            countable(t),
            widths@.len() == i,
            forall|k: int| 0 <= k < i ==> #[trigger] widths@[k] == goal[k],
        decreases names@.len() - i,
    {
        assert(t.names[i as int] == names@[i as int]@);
        assert(t.types[i as int] == types@[i as int]@);
        assert(t.cells[i as int] == texts(columns@[i as int]@));
        let w: usize = width_of(&names[i], &types[i], &columns[i]);
        widths.push(w);
        i += 1;
    }
    assert(widths@ =~= goal);
    proof {
        assert forall|k: int| 0 <= k < goal.len() implies #[trigger] goal[k] <= width_sum(
            goal,
            goal.len(),
        ) by {
            lemma_each_width(goal, k, goal.len());
        }
    }
    if total > MAX_DISPLAY_ROWS {
        let footer: usize = footer_text_len(total, MAX_DISPLAY_ROWS / 2, names.len());
        let cur: usize = inner_width(widths.as_slice());
        if cur < footer + 2 {
            let extra: usize = footer + 2 - cur;
            let last: usize = widths.len() - 1;
            let wide: usize = widths[last] + extra;
            proof {
                lemma_widened_sum(goal, wide, goal.len());
            }
            widths.set(last, wide);
            assert(widths@ =~= widened(goal, footer_of(t)));
        }
    }
    widths
}

fn row_of(columns: &Vec<Vec<String>>, row: usize) -> (r: Vec<&str>)
    requires
        forall|c: int| 0 <= c < columns@.len() ==> row < (#[trigger] columns@[c])@.len(),
    ensures
        str_texts(r@) == row_texts(column_lists(columns@), row as int),
{
    let mut out: Vec<&str> = Vec::new();
    let mut c: usize = 0;
    while c < columns.len()
        invariant
            c <= columns@.len(),
            forall|k: int| 0 <= k < columns@.len() ==> row < (#[trigger] columns@[k])@.len(),
            out@.len() == c,
            forall|k: int|
                0 <= k < c ==> (#[trigger] out@[k])@ == row_texts(
                    column_lists(columns@),
                    row as int,
                )[k],
        decreases columns@.len() - c,
    {
        assert(column_lists(columns@)[c as int] == texts(columns@[c as int]@));
        assert(texts(columns@[c as int]@)[row as int] == columns@[c as int]@[row as int]@);
        out.push(columns[c][row].as_str());
        c += 1;
    }
    assert(str_texts(out@) =~= row_texts(column_lists(columns@), row as int));
    out
}

fn push_body(out: &mut String, columns: &Vec<Vec<String>>, widths: &Vec<usize>, total: usize, Ghost(
    t,
): Ghost<TableText>)
    requires
        columns@.len() > 0,
        t.cells == column_lists(columns@),
        t.total == total,
        forall|c: int|
            0 <= c < columns@.len() ==> (#[trigger] columns@[c])@.len() == columns@[0]@.len(),
    ensures
        final(out)@ == old(out)@ + body_from(t, widths@, 0),
{
    let ghost goal = out@ + body_from(t, widths@, 0);
    let n: usize = columns[0].len();
    let mut row: usize = 0;
    assert(t.cells[0].len() == n);
    while row < n
        invariant
            row <= n,
            columns@.len() > 0,
            n == columns@[0]@.len(),
            t.cells == column_lists(columns@),
            t.cells[0].len() == n,
            t.total == total,
            forall|c: int| 0 <= c < columns@.len() ==> (#[trigger] columns@[c])@.len() == n,
            goal == out@ + body_from(t, widths@, row as int),
        decreases n - row,
    {
        let ghost before = out@;
        if total > MAX_DISPLAY_ROWS && row == MAX_DISPLAY_ROWS / 2 {
            push_dot_row(out, widths.as_slice());
            push_dot_row(out, widths.as_slice());
            push_dot_row(out, widths.as_slice());
        }
        let items = row_of(columns, row);
        push_row(out, widths.as_slice(), items.as_slice());
        row += 1;
        assert(out@ + body_from(t, widths@, row as int) =~= before + body_from(
            t,
            widths@,
            row - 1,
        ));
    }
    assert(out@ =~= goal);
}

/// A box-drawing table of the rows that are shown, given as texts, with a summary of all rows where
/// some are left out.
pub fn draw_table(
    names: &Vec<String>,
    types: &Vec<String>,
    columns: &Vec<Vec<String>>,
    total: usize,
) -> (r: String)
    requires
        names@.len() == types@.len() == columns@.len(),
        forall|c: int|
            0 <= c < columns@.len() ==> (#[trigger] columns@[c])@.len() == columns@[0]@.len(),
        countable(
            (TableText {
                names: texts(names@),
                types: texts(types@),
                cells: column_lists(columns@),
                total: total as nat,
            }),
        ),
    ensures
        r@ == table_text(
            (TableText {
                names: texts(names@),
                types: texts(types@),
                cells: column_lists(columns@),
                total: total as nat,
            }),
        ),
{
    let ghost t = TableText {
        names: texts(names@),
        types: texts(types@),
        cells: column_lists(columns@),
        total: total as nat,
    };
    let widths = widths_of(names, types, columns, total);
    let w = widths.as_slice();
    let mut out = String::new();
    push_border(&mut out, w, '┌', '┬', '┐');
    let shown_names = refs(names.as_slice());
    assert(str_texts(shown_names@) =~= t.names);
    push_row(&mut out, w, shown_names.as_slice());
    let shown_types = refs(types.as_slice());
    assert(str_texts(shown_types@) =~= t.types);
    push_row(&mut out, w, shown_types.as_slice());
    push_border(&mut out, w, '├', '┼', '┤');
    push_body(&mut out, columns, &widths, total, Ghost(t));
    if total > MAX_DISPLAY_ROWS {
        push_border(&mut out, w, '├', '┴', '┤');
        let left = left_footer(total, MAX_DISPLAY_ROWS / 2);
        let right = right_footer(names.len());
        push_footer_content(&mut out, w, &left, &right);
        push_full_border(&mut out, w, '└', '┘');
    } else {
        push_border(&mut out, w, '└', '┴', '┘');
    }
    proof {
        lemma_bottom_ends(t, widths@);
        assert(out@ =~= table_lines(t));
        assert(table_lines(t).last() == '\n');
    }
    let all = to_chars(&out);
    from_chars(&all, 0, all.len() - 1)
}

/// What is shown of batches: all rows, or the first and last ones where there are too many.
pub open spec fn shown_batches(s: Seq<BatchView>) -> Seq<BatchView> {
    let half = (MAX_DISPLAY_ROWS / 2) as int;
    if total_rows(s) > MAX_DISPLAY_ROWS {
        slices_from(s, 0, 0, 0, half) + slices_from(s, 0, total_rows(s) - half, 0, half)
    } else {
        s
    }
}

/// The table that is shown of batches, of which the first gives the columns.
pub open spec fn shown_table(s: Seq<BatchView>) -> TableText {
    TableText {
        names: s[0].names,
        types: Seq::new(s[0].types.len(), |i: int| friendly_name(s[0].types[i])),
        cells: Seq::new(s[0].names.len(), |c: int| all_texts(shown_batches(s), c)),
        total: total_rows(s),
    }
}

/// Whether a box-drawing table can be made: the rows can be counted, every batch has the columns of
/// the first, of which there is one, and the lines can be counted.
pub open spec fn displayable(s: Seq<BatchView>) -> bool {
    no_rows(s) || {
        &&& total_rows(s) <= usize::MAX
        &&& s[0].names.len() > 0
        &&& has_columns(s, s[0].names.len())
        &&& countable(shown_table(s))
    }
}

/// A box-drawing table of batches.
pub open spec fn displayed(s: Seq<BatchView>) -> Seq<char> {
    if no_rows(s) {
        "(0 rows)"@
    } else {
        table_text(shown_table(s))
    }
}

/// A plain table of batches.
pub open spec fn plain_table(s: Seq<BatchView>) -> Seq<char> {
    if no_rows(s) {
        "(0 rows)"@
    } else {
        match pretty_table(s) {
            Ok(t) => t,
            Err(e) => "Error formatting results: "@ + e,
        }
    }
}

/// A plain table of record batches, or `(0 rows)`.
pub fn format_batches(batches: &[Batch]) -> (r: String)
    ensures
        r@ == plain_table(all_contents(batches@)),
{
    if has_no_rows(batches) {
        return "(0 rows)".to_owned();
    }
    match pretty_format(batches) {
        Ok(t) => t,
        Err(e) => concat2("Error formatting results: ", &e),
    }
}

proof fn lemma_slices_have_columns(
    s: Seq<BatchView>,
    cols: nat,
    i: int,
    offset: int,
    seen: int,
    remaining: int,
)
    requires
        has_columns(s, cols),
    ensures
        has_columns(slices_from(s, i, offset, seen, remaining), cols),
    decreases s.len() - i,
{
    if 0 <= i < s.len() {
        let n = s[i].rows as int;
        if seen + n <= offset {
            lemma_slices_have_columns(s, cols, i + 1, offset, seen + n, remaining);
        } else {
            let skip = if offset > seen {
                offset - seen
            } else {
                0
            };
            let take = if remaining < n - skip {
                remaining
            } else {
                n - skip
            };
            lemma_slices_have_columns(s, cols, i + 1, offset, seen + n, remaining - take);
        }
    }
}

proof fn lemma_texts_len(s: Seq<BatchView>, c: int, n: nat)
    requires
        n <= s.len(),
    ensures
        texts_until(s, c, n).len() == rows_until(s, n),
    decreases n,
{
    if n > 0 {
        lemma_texts_len(s, c, (n - 1) as nat);
    }
}

fn all_columns(shown: &[Batch], cols: usize) -> (r: Vec<Vec<String>>)
    requires
        has_columns(all_contents(shown@), cols as nat),
    ensures
        r@.len() == cols,
        column_lists(r@) == Seq::new(
            cols as nat,
            |c: int| all_texts(all_contents(shown@), c),
        ),
        forall|c: int| 0 <= c < cols ==> (#[trigger] r@[c])@.len() == total_rows(all_contents(shown@)),
{
    let ghost s = all_contents(shown@);
    let mut out: Vec<Vec<String>> = Vec::new();
    let mut c: usize = 0;
    while c < cols
        invariant
            c <= cols,
            s == all_contents(shown@),
            has_columns(s, cols as nat),
            out@.len() == c,
            forall|k: int| 0 <= k < c ==> texts((#[trigger] out@[k])@) == all_texts(s, k),
            forall|k: int| 0 <= k < c ==> (#[trigger] out@[k])@.len() == total_rows(s),
        decreases cols - c,
    {
        let column = column_strings(shown, c, cols);
        proof {
            lemma_texts_len(s, c as int, s.len());
            assert(texts(column@).len() == column@.len());
        }
        out.push(column);
        c += 1;
    }
    assert(column_lists(out@) =~= Seq::new(cols as nat, |k: int| all_texts(s, k)));
    out
}

fn shown_columns(batches: &[Batch], total: usize, cols: usize) -> (r: Vec<Vec<String>>)
    requires
        total == total_rows(all_contents(batches@)),
        has_columns(all_contents(batches@), cols as nat),
    ensures
        r@.len() == cols,
        column_lists(r@) == Seq::new(
            cols as nat,
            |c: int| all_texts(shown_batches(all_contents(batches@)), c),
        ),
        forall|c: int| 0 <= c < cols ==> (#[trigger] r@[c])@.len() == r@[0]@.len(),
{
    let ghost s = all_contents(batches@);
    if total > MAX_DISPLAY_ROWS {
        let half: usize = MAX_DISPLAY_ROWS / 2;
        let mut shown = slice_batches(batches, 0, half);
        let mut tail = slice_batches(batches, total - half, half);
        let ghost a = shown@;
        let ghost b = tail@;
        shown.append(&mut tail);
        proof {
            assert(shown@ =~= a + b);
            assert(all_contents(shown@) =~= all_contents(a) + all_contents(b));
            lemma_slices_have_columns(s, cols as nat, 0, 0, 0, half as int);
            lemma_slices_have_columns(s, cols as nat, 0, total - half, 0, half as int);
            assert forall|i: int| 0 <= i < all_contents(shown@).len() implies (
            #[trigger] all_contents(shown@)[i]).nulls.len() >= cols && all_contents(
                shown@,
            )[i].values.len() >= cols by {
                if i < a.len() {
                    assert(all_contents(shown@)[i] == all_contents(a)[i]);
                } else {
                    assert(all_contents(shown@)[i] == all_contents(b)[i - a.len()]);
                }
            }
        }
        all_columns(shown.as_slice(), cols)
    } else {
        all_columns(batches, cols)
    }
}

fn friendly_names(types: &Vec<String>) -> (r: Vec<String>)
    ensures
        texts(r@) == Seq::new(texts(types@).len(), |i: int| friendly_name(texts(types@)[i])),
{
    let mut out: Vec<String> = Vec::new();
    let mut i: usize = 0;
    while i < types.len()
        invariant
            i <= types@.len(),
            out@.len() == i,
            forall|k: int| 0 <= k < i ==> (#[trigger] out@[k])@ == friendly_name(types@[k]@),
        decreases types@.len() - i,
    {
        out.push(friendly_type_name(&types[i]));
        i += 1;
    }
    assert(texts(out@) =~= Seq::new(
        texts(types@).len(),
        |i: int| friendly_name(texts(types@)[i]),
    ));
    out
}

fn all_have_columns(batches: &[Batch], cols: usize) -> (r: bool)
    ensures
        r == has_columns(all_contents(batches@), cols as nat),
{
    let ghost s = all_contents(batches@);
    let mut i: usize = 0;
    while i < batches.len()
        invariant
            i <= batches@.len(),
            s == all_contents(batches@),
            s.len() == batches@.len(),
            forall|k: int|
                0 <= k < i ==> (#[trigger] s[k]).nulls.len() >= cols && s[k].values.len() >= cols,
        decreases batches@.len() - i,
    {
        assert(s[i as int] == contents(batches@[i as int]));
        if num_columns(&batches[i]) < cols {
            return false;
        }
        i += 1;
    }
    true
}

fn is_countable(names: &Vec<String>, types: &Vec<String>, columns: &Vec<Vec<String>>, total: usize) -> (r:
    bool)
    requires
        names@.len() == types@.len() == columns@.len(),
        names@.len() > 0,
    ensures
        r == countable(
            (TableText {
                names: texts(names@),
                types: texts(types@),
                cells: column_lists(columns@),
                total: total as nat,
            }),
        ),
{
    let ghost t = TableText {
        names: texts(names@),
        types: texts(types@),
        cells: column_lists(columns@),
        total: total as nat,
    };
    let ghost goal = natural_widths(t);
    let footer: usize = footer_text_len(total, MAX_DISPLAY_ROWS / 2, names.len()) + 2;
    assert(footer == footer_of(t) + 2);
    let mut sum: usize = footer;
    let mut i: usize = 0;
    while i < names.len()
        invariant
            i <= names@.len(),
            names@.len() == types@.len() == columns@.len(),
            t.names == texts(names@),
            t.types == texts(types@),
            t.cells == column_lists(columns@),
            goal == natural_widths(t),
            goal.len() == names@.len(),
            forall|k: int|
                0 <= k < i ==> column_width(#[trigger] t.names[k], t.types[k], t.cells[k])
                    <= usize::MAX,
            t.total == total,
            footer == footer_of(t) + 2,
            sum == width_sum(goal, i as nat) + 3 * i + footer,
        decreases names@.len() - i,
    {
        assert(t.names[i as int] == names@[i as int]@);
        assert(t.types[i as int] == types@[i as int]@);
        assert(t.cells[i as int] == texts(columns@[i as int]@));
        let w: usize = width_of(&names[i], &types[i], &columns[i]);
        assert(goal[i as int] == w);
        proof {
            lemma_width_sum_grows(goal, (i + 1) as nat, goal.len());
        }
        if w > usize::MAX - 3 || sum > usize::MAX - (w + 3) {
            return false;
        }
        sum = sum + (w + 3);
        i += 1;
    }
    true
}

/// A box-drawing table of record batches, with column types, and with the middle of a long result
/// left out; nothing where no such table can be made.
pub fn try_format_batches_truncated(batches: &[Batch]) -> (r: Option<String>)
    ensures
        r is Some <==> displayable(all_contents(batches@)),
        r matches Some(t) ==> t@ == displayed(all_contents(batches@)),
{
    let ghost s = all_contents(batches@);
    if has_no_rows(batches) {
        return Some("(0 rows)".to_owned());
    }
    proof {
        if batches@.len() == 0 {
            assert(no_rows(s));
        }
        assert(s[0] == contents(batches@[0]));
    }
    let total: usize = match checked_row_count(batches) {
        None => {
            return None;
        },
        Some(n) => n,
    };
    let names = field_names(&batches[0]);
    assert(texts(names@).len() == names@.len());
    if names.len() == 0 || !all_have_columns(batches, names.len()) {
        return None;
    }
    let printed = field_types(&batches[0]);
    let types = friendly_names(&printed);
    let columns = shown_columns(batches, total, names.len());
    proof {
        assert(texts(printed@).len() == printed@.len());
        assert(texts(types@).len() == types@.len());
        let t = TableText {
            names: texts(names@),
            types: texts(types@),
            cells: column_lists(columns@),
            total: total as nat,
        };
        assert(t.types =~= shown_table(s).types);
        assert(t.cells =~= shown_table(s).cells);
        assert(t == shown_table(s));
    }
    if !is_countable(&names, &types, &columns, total) {
        return None;
    }
    Some(draw_table(&names, &types, &columns, total))
}

/// A box-drawing table of record batches, with column types, and with the middle of a long result
/// left out.
pub fn format_batches_truncated(batches: &[Batch]) -> (r: String)
    requires
        displayable(all_contents(batches@)),
    ensures
        r@ == displayed(all_contents(batches@)),
{
    match try_format_batches_truncated(batches) {
        Some(t) => t,
        None => String::new(),
    }
}

// ---------------------------------------------------------------------------
// Laws
// ---------------------------------------------------------------------------

/// Whether every column of a batch has as many rows as the batch.
pub open spec fn well_shaped(b: BatchView) -> bool {
    &&& forall|c: int| 0 <= c < b.nulls.len() ==> (#[trigger] b.nulls[c]).len() == b.rows
    &&& forall|c: int|
        0 <= c < b.values.len() ==> (#[trigger] b.values[c] matches Some(v) ==> v.len() == b.rows)
}

/// `n`, or `max` where that is less.
pub open spec fn at_most(n: int, max: int) -> int {
    if n < max {
        n
    } else {
        max
    }
}

/// Cutting rows out of a list of batches gives the texts of exactly these rows, in order, as far as
/// they are there.
pub proof fn law_slice_takes_rows(s: Seq<BatchView>, cols: nat, c: int, offset: int, length: int)
    requires
        has_columns(s, cols),
        0 <= c < cols,
        forall|i: int| 0 <= i < s.len() ==> well_shaped(#[trigger] s[i]),
        0 <= offset,
        0 <= length,
    ensures
        all_texts(slices_from(s, 0, offset, 0, length), c) == all_texts(s, c).subrange(
            at_most(offset, total_rows(s) as int),
            at_most(offset + length, total_rows(s) as int),
        ),
{
    lemma_slices(s, cols, c, 0, offset, 0, length);
}

proof fn lemma_cut_column(b: BatchView, c: int, skip: int, take: int)
    requires
        well_shaped(b),
        0 <= c < b.nulls.len(),
        0 <= c < b.values.len(),
        0 <= skip,
        0 <= take,
        skip + take <= b.rows,
    ensures
        column_texts(sliced(b, skip, take), c) == column_texts(b, c).subrange(skip, skip + take),
{
    assert(b.nulls[c].len() == b.rows);
    assert(b.values[c] matches Some(v) ==> v.len() == b.rows);
    assert(column_texts(sliced(b, skip, take), c) =~= column_texts(b, c).subrange(
        skip,
        skip + take,
    ));
}

proof fn lemma_texts_prefix(s: Seq<BatchView>, c: int, n: nat)
    requires
        n <= s.len(),
    ensures
        texts_until(s, c, n) == all_texts(s, c).subrange(0, rows_until(s, n) as int),
        rows_until(s, n) <= total_rows(s),
    decreases s.len() - n,
{
    lemma_texts_len(s, c, n);
    lemma_texts_len(s, c, s.len());
    if n < s.len() {
        lemma_texts_prefix(s, c, n + 1);
        let all = all_texts(s, c);
        lemma_texts_len(s, c, n + 1);
        assert(texts_until(s, c, n) =~= texts_until(s, c, n + 1).subrange(
            0,
            rows_until(s, n) as int,
        ));
        assert(texts_until(s, c, n) =~= all.subrange(0, rows_until(s, n) as int));
    } else {
        assert(all_texts(s, c).subrange(0, rows_until(s, n) as int) =~= all_texts(s, c));
    }
}

proof fn lemma_texts_join(a: Seq<BatchView>, b: Seq<BatchView>, c: int, n: nat)
    requires
        n <= b.len(),
    ensures
        texts_until(a + b, c, (a.len() + n) as nat) == all_texts(a, c) + texts_until(b, c, n),
    decreases n,
{
    if n == 0 {
        lemma_texts_head(a, b, c, a.len());
        assert(all_texts(a, c) + texts_until(b, c, 0) =~= all_texts(a, c));
    } else {
        lemma_texts_join(a, b, c, (n - 1) as nat);
        assert((a + b)[a.len() + n - 1] == b[n - 1]);
        assert(all_texts(a, c) + texts_until(b, c, (n - 1) as nat) + column_texts(b[n - 1], c)
            =~= all_texts(a, c) + texts_until(b, c, n));
    }
}

proof fn lemma_texts_head(a: Seq<BatchView>, b: Seq<BatchView>, c: int, n: nat)
    requires
        n <= a.len(),
    ensures
        texts_until(a + b, c, n) == texts_until(a, c, n),
    decreases n,
{
    if n > 0 {
        lemma_texts_head(a, b, c, (n - 1) as nat);
        assert((a + b)[n - 1] == a[n - 1]);
    }
}

proof fn lemma_slices(
    s: Seq<BatchView>,
    cols: nat,
    c: int,
    i: int,
    offset: int,
    seen: int,
    remaining: int,
)
    requires
        has_columns(s, cols),
        0 <= c < cols,
        forall|k: int| 0 <= k < s.len() ==> well_shaped(#[trigger] s[k]),
        0 <= i <= s.len(),
        seen == rows_until(s, i as nat),
        0 <= offset,
        0 <= remaining,
    ensures
        ({
            let lo = if offset > seen {
                offset
            } else {
                seen
            };
            all_texts(slices_from(s, i, offset, seen, remaining), c) == all_texts(s, c).subrange(
                at_most(lo, total_rows(s) as int),
                at_most(lo + remaining, total_rows(s) as int),
            )
        }),
    decreases s.len() - i,
{
    let all = all_texts(s, c);
    let lo = if offset > seen {
        offset
    } else {
        seen
    };
    let end = total_rows(s) as int;
    lemma_texts_len(s, c, s.len());
    if i < s.len() {
        let n = s[i].rows as int;
        let part = column_texts(s[i], c);
        lemma_texts_prefix(s, c, i as nat);
        lemma_texts_prefix(s, c, (i + 1) as nat);
        lemma_texts_len(s, c, i as nat);
        assert(part =~= all.subrange(seen, seen + n)) by {
            let next = texts_until(s, c, (i + 1) as nat);
            assert(next == all.subrange(0, seen + n));
            assert(next == texts_until(s, c, i as nat) + part);
            assert(part =~= next.subrange(seen, seen + n));
        }
        if seen + n <= offset {
            lemma_slices(s, cols, c, i + 1, offset, seen + n, remaining);
        } else {
            let skip = lo - seen;
            let take = if remaining < n - skip {
                remaining
            } else {
                n - skip
            };
            lemma_cut_column(s[i], c, skip, take);
            let first = if take > 0 {
                seq![sliced(s[i], skip, take)]
            } else {
                Seq::empty()
            };
            assert(all_texts(first, c) =~= all.subrange(lo, lo + take)) by {
                reveal_with_fuel(texts_until, 2);
                assert(part.subrange(skip, skip + take) =~= all.subrange(lo, lo + take));
            }
            if remaining - take == 0 {
                assert(take == remaining);
            } else {
                let rest = slices_from(s, i + 1, offset, seen + n, remaining - take);
                lemma_slices(s, cols, c, i + 1, offset, seen + n, remaining - take);
                lemma_texts_join(first, rest, c, rest.len());
                assert(all.subrange(lo, lo + take) + all.subrange(
                    seen + n,
                    at_most(lo + remaining, end),
                ) =~= all.subrange(lo, at_most(lo + remaining, end)));
            }
        }
    } else {
        assert(seen == end);
        assert(all.subrange(end, end) =~= Seq::<Seq<char>>::empty());
    }
}

proof fn lemma_longest(v: Seq<Seq<char>>, i: int, n: nat)
    requires
        0 <= i < n <= v.len(),
    ensures
        utf8(v[i]).len() <= longest(v, n),
    decreases n,
{
    if i < n - 1 {
        lemma_longest(v, i, (n - 1) as nat);
    }
}

/// Whether a table shows only ASCII characters.
pub open spec fn ascii_table(t: TableText) -> bool {
    &&& forall|i: int| 0 <= i < t.names.len() ==> is_ascii_chars(#[trigger] t.names[i])
    &&& forall|i: int| 0 <= i < t.types.len() ==> is_ascii_chars(#[trigger] t.types[i])
    &&& forall|c: int, i: int|
        0 <= c < t.cells.len() && 0 <= i < t.cells[c].len() ==> is_ascii_chars(
            #[trigger] t.cells[c][i],
        )
}

proof fn lemma_cells_fit(t: TableText, i: int)
    requires
        countable(t),
        t.names.len() == t.types.len() == t.cells.len(),
        0 <= i < t.names.len(),
    ensures
        table_widths(t).len() == t.names.len(),
        natural_widths(t)[i] <= table_widths(t)[i],
        table_widths(t)[i] >= 1,
        inner_room(natural_widths(t)) <= inner_room(table_widths(t)),
        leaves_out(t) ==> footer_of(t) + 2 <= inner_room(table_widths(t)),
{
    let w = natural_widths(t);
    assert(column_width(t.names[i], t.types[i], t.cells[i]) <= usize::MAX);
    lemma_each_width(w, i, w.len());
    let last = w.len() - 1;
    lemma_each_width(w, last, w.len());
    if leaves_out(t) && inner_room(w) < footer_of(t) + 2 {
        let wide = (w[last] + (footer_of(t) + 2 - inner_room(w))) as usize;
        lemma_widened_sum(w, wide, w.len());
    }
}

/// Every line of a table of ASCII texts has the same number of characters.
pub proof fn law_lines_have_one_width(t: TableText, row: int)
    requires
        countable(t),
        t.names.len() == t.types.len() == t.cells.len(),
        ascii_table(t),
        forall|c: int| 0 <= c < t.cells.len() ==> (#[trigger] t.cells[c]).len() == t.cells[0].len(),
        0 <= row < t.cells[0].len(),
    ensures
        ({
            let widths = table_widths(t);
            let n = inner_room(widths) + 3;
            &&& border_line(widths, '┌', '┬', '┐').len() == n
            &&& row_line(widths, t.names).len() == n
            &&& row_line(widths, t.types).len() == n
            &&& border_line(widths, '├', '┼', '┤').len() == n
            &&& row_line(widths, row_texts(t.cells, row)).len() == n
            &&& dot_line(widths).len() == n
            &&& border_line(widths, '├', '┴', '┤').len() == n
            &&& border_line(widths, '└', '┴', '┘').len() == n
            &&& full_border_line(widths, '└', '┘').len() == n
            &&& leaves_out(t) ==> footer_line(
                widths,
                footer_left(t.total, (MAX_DISPLAY_ROWS / 2) as nat),
                footer_right(t.names.len()),
            ).len() == n
        }),
{
    let widths = table_widths(t);
    let texts_of_row = row_texts(t.cells, row);
    lemma_cells_fit(t, 0);
    assert forall|i: int| 0 <= i < widths.len() implies #[trigger] widths[i] >= 1 by {
        lemma_cells_fit(t, i);
    }
    assert forall|i: int| 0 <= i < widths.len() implies is_ascii_chars(
        #[trigger] cell_text(t.names, i),
    ) && cell_text(t.names, i).len() <= widths[i] by {
        lemma_cells_fit(t, i);
        is_ascii_chars_encode_utf8(t.names[i]);
        assert(column_width(t.names[i], t.types[i], t.cells[i]) <= usize::MAX);
    }
    assert forall|i: int| 0 <= i < widths.len() implies is_ascii_chars(
        #[trigger] cell_text(t.types, i),
    ) && cell_text(t.types, i).len() <= widths[i] by {
        lemma_cells_fit(t, i);
        is_ascii_chars_encode_utf8(t.types[i]);
        assert(column_width(t.names[i], t.types[i], t.cells[i]) <= usize::MAX);
    }
    assert forall|i: int| 0 <= i < widths.len() implies is_ascii_chars(
        #[trigger] cell_text(texts_of_row, i),
    ) && cell_text(texts_of_row, i).len() <= widths[i] by {
        lemma_cells_fit(t, i);
        assert(t.cells[i].len() == t.cells[0].len());
        is_ascii_chars_encode_utf8(t.cells[i][row]);
        lemma_longest(t.cells[i], row, t.cells[i].len());
        assert(column_width(t.names[i], t.types[i], t.cells[i]) <= usize::MAX);
    }
    law_border_width(widths, '┌', '┬', '┐');
    law_border_width(widths, '├', '┼', '┤');
    law_border_width(widths, '├', '┴', '┤');
    law_border_width(widths, '└', '┴', '┘');
    law_row_width(widths, t.names);
    law_row_width(widths, t.types);
    law_row_width(widths, texts_of_row);
    law_dots_width(widths);
    if leaves_out(t) {
        let left = footer_left(t.total, (MAX_DISPLAY_ROWS / 2) as nat);
        let right = footer_right(t.names.len());
        lemma_footer_ascii(t.total, (MAX_DISPLAY_ROWS / 2) as nat, t.names.len());
        is_ascii_chars_encode_utf8(left);
        is_ascii_chars_encode_utf8(right);
        law_footer_width(widths, left, right);
    }
}

proof fn lemma_longest_holds(v: Seq<Seq<char>>, n: nat, i: int)
    requires
        0 <= i < n <= v.len(),
    ensures
        utf8(v[i]).len() <= longest(v, n),
    decreases n,
{
    if i < n - 1 {
        lemma_longest_holds(v, (n - 1) as nat, i);
    }
}

proof fn lemma_longest_is_there(v: Seq<Seq<char>>, n: nat)
    requires
        n <= v.len(),
    ensures
        longest(v, n) == 0 || exists|i: int| 0 <= i < n && utf8(#[trigger] v[i]).len() == longest(v, n),
    decreases n,
{
    if n > 0 {
        lemma_longest_is_there(v, (n - 1) as nat);
        if utf8(v[n - 1]).len() > longest(v, (n - 1) as nat) {
            assert(utf8(v[n - 1]).len() == longest(v, n));
        } else if longest(v, (n - 1) as nat) > 0 {
            let i = choose|i: int|
                0 <= i < n - 1 && utf8(#[trigger] v[i]).len() == longest(v, (n - 1) as nat);
            assert(utf8(v[i]).len() == longest(v, n));
        }
    }
}

/// A column is as wide as its widest entry, and no wider: the name, the type and every cell fit, and one
/// of them fills it, but for a column without any text.
pub proof fn law_columns_are_as_wide_as_needed(
    name: Seq<char>,
    ty: Seq<char>,
    cells: Seq<Seq<char>>,
)
    ensures
        ({
            let width = column_width(name, ty, cells);
            &&& utf8(name).len() <= width
            &&& utf8(ty).len() <= width
            &&& forall|i: int| 0 <= i < cells.len() ==> utf8(#[trigger] cells[i]).len() <= width
            &&& width >= 1
            &&& width == 1 || width == utf8(name).len() || width == utf8(ty).len() || exists|i: int|
                0 <= i < cells.len() && utf8(#[trigger] cells[i]).len() == width
        }),
{
    assert forall|i: int| 0 <= i < cells.len() implies utf8(#[trigger] cells[i]).len()
        <= column_width(name, ty, cells) by {
        lemma_longest_holds(cells, cells.len(), i);
    }
    lemma_longest_is_there(cells, cells.len());
}

/// A null is shown as such, and every other value as its text.
pub proof fn law_values_are_shown(b: BatchView, c: int, i: int)
    requires
        0 <= i < b.rows,
    ensures
        b.nulls[c][i] ==> column_texts(b, c)[i] == "NULL"@,
        !b.nulls[c][i] && b.values[c] is Some ==> column_texts(b, c)[i] == b.values[c]->0[i],
{
}

/// All rows are shown where there are not too many. Of more rows the first and the last are shown, half
/// and half, and none of the others.
pub proof fn law_shown_rows(s: Seq<BatchView>, cols: nat, c: int)
    requires
        has_columns(s, cols),
        0 <= c < cols,
        forall|i: int| 0 <= i < s.len() ==> well_shaped(#[trigger] s[i]),
    ensures
        ({
            let all = all_texts(s, c);
            let half = MAX_DISPLAY_ROWS as int / 2;
            let total = total_rows(s) as int;
            &&& total <= MAX_DISPLAY_ROWS ==> all_texts(shown_batches(s), c) == all
            &&& total > MAX_DISPLAY_ROWS ==> all_texts(shown_batches(s), c) == all.subrange(0, half)
                + all.subrange(total - half, total)
        }),
{
    let half = MAX_DISPLAY_ROWS as int / 2;
    let total = total_rows(s) as int;
    if total > MAX_DISPLAY_ROWS {
        law_slice_takes_rows(s, cols, c, 0, half);
        law_slice_takes_rows(s, cols, c, total - half, half);
        let a = slices_from(s, 0, 0, 0, half);
        let b = slices_from(s, 0, total - half, 0, half);
        lemma_texts_of_both(a, b, c, b.len());
        assert((a + b).len() == a.len() + b.len());
    }
}

proof fn lemma_texts_of_both(a: Seq<BatchView>, b: Seq<BatchView>, c: int, n: nat)
    requires
        n <= b.len(),
    ensures
        texts_until(a + b, c, a.len() + n) == all_texts(a, c) + texts_until(b, c, n),
    decreases n,
{
    if n == 0 {
        lemma_texts_same(a, a + b, c, a.len());
        assert(all_texts(a, c) + Seq::<Seq<char>>::empty() =~= all_texts(a, c));
    } else {
        lemma_texts_of_both(a, b, c, (n - 1) as nat);
        assert((a + b)[a.len() + n - 1] == b[n - 1]);
        assert(texts_until(a + b, c, a.len() + n) =~= all_texts(a, c) + texts_until(b, c, n));
    }
}

proof fn lemma_texts_same(a: Seq<BatchView>, b: Seq<BatchView>, c: int, n: nat)
    requires
        n <= a.len() <= b.len(),
        forall|i: int| 0 <= i < a.len() ==> a[i] == #[trigger] b[i],
    ensures
        texts_until(a, c, n) == texts_until(b, c, n),
    decreases n,
{
    if n > 0 {
        lemma_texts_same(a, b, c, (n - 1) as nat);
        assert(a[n - 1] == b[n - 1]);
    }
}

} // verus!
