//! What callers in C are told: kinds of results, types of columns, cells, and the statements that
//! stand behind their calls.
use vstd::prelude::*;
use vstd::string::*;

use crate::cells::{Cell, CellView};
use crate::display::{
    all_contents, column_nulls, contents, field_names, field_types, num_columns, num_rows,
    rows_until, Batch, BatchView,
};
use crate::location::S3Config;
use crate::numbers::{decimal, print_usize};
use crate::text::{
    concat2, concat3, has_prefix, join, joined, law_text_without_the_pattern_stays, occurs_at,
    opt_text, replace, replaced, same, starts_with, texts, to_chars, trim, trim_text, upper_text,
};

verus! {

// ---------------------------------------------------------------------------
// Kinds and types
// ---------------------------------------------------------------------------

/// Tag indicating what kind of result a query produced.
#[allow(non_camel_case_types)]
#[derive(Copy, Clone, Debug, Eq, PartialEq, Structural)]
pub enum potato_result_kind {
    POTATO_RESULT_RECORDS,
    POTATO_RESULT_MESSAGE,
}

/// Column type tag exposed to C callers.
#[allow(non_camel_case_types)]
#[derive(Copy, Clone, Debug, Eq, PartialEq, Structural)]
pub enum potato_column_type {
    POTATO_TYPE_NULL,
    POTATO_TYPE_BOOL,
    POTATO_TYPE_INT32,
    POTATO_TYPE_INT64,
    POTATO_TYPE_FLOAT,
    POTATO_TYPE_DOUBLE,
    POTATO_TYPE_STRING,
    POTATO_TYPE_DATE,
    POTATO_TYPE_TIMESTAMP,
    POTATO_TYPE_DECIMAL,
    POTATO_TYPE_BINARY,
    POTATO_TYPE_UUID,
    POTATO_TYPE_INTERVAL,
    POTATO_TYPE_ARRAY,
    POTATO_TYPE_JSON,
    POTATO_TYPE_OTHER,
}

impl potato_result_kind {
    /// The number that stands for the kind.
    pub fn code(self) -> (r: i32)
        ensures
            r == match self {
                potato_result_kind::POTATO_RESULT_RECORDS => 0int,
                potato_result_kind::POTATO_RESULT_MESSAGE => 1,
            },
    {
        match self {
            potato_result_kind::POTATO_RESULT_RECORDS => 0,
            potato_result_kind::POTATO_RESULT_MESSAGE => 1,
        }
    }
}

/// The number that stands for a type.
pub open spec fn type_code(t: potato_column_type) -> int {
    match t {
        potato_column_type::POTATO_TYPE_NULL => 0,
        potato_column_type::POTATO_TYPE_BOOL => 1,
        potato_column_type::POTATO_TYPE_INT32 => 2,
        potato_column_type::POTATO_TYPE_INT64 => 3,
        potato_column_type::POTATO_TYPE_FLOAT => 4,
        potato_column_type::POTATO_TYPE_DOUBLE => 5,
        potato_column_type::POTATO_TYPE_STRING => 6,
        potato_column_type::POTATO_TYPE_DATE => 7,
        potato_column_type::POTATO_TYPE_TIMESTAMP => 8,
        potato_column_type::POTATO_TYPE_DECIMAL => 9,
        potato_column_type::POTATO_TYPE_BINARY => 10,
        potato_column_type::POTATO_TYPE_UUID => 11,
        potato_column_type::POTATO_TYPE_INTERVAL => 12,
        potato_column_type::POTATO_TYPE_ARRAY => 13,
        potato_column_type::POTATO_TYPE_JSON => 14,
        potato_column_type::POTATO_TYPE_OTHER => 99,
    }
}

impl potato_column_type {
    /// The number that stands for the type.
    pub fn code(self) -> (r: i32)
        ensures
            r == type_code(self),
    {
        match self {
            potato_column_type::POTATO_TYPE_NULL => 0,
            potato_column_type::POTATO_TYPE_BOOL => 1,
            potato_column_type::POTATO_TYPE_INT32 => 2,
            potato_column_type::POTATO_TYPE_INT64 => 3,
            potato_column_type::POTATO_TYPE_FLOAT => 4,
            potato_column_type::POTATO_TYPE_DOUBLE => 5,
            potato_column_type::POTATO_TYPE_STRING => 6,
            potato_column_type::POTATO_TYPE_DATE => 7,
            potato_column_type::POTATO_TYPE_TIMESTAMP => 8,
            potato_column_type::POTATO_TYPE_DECIMAL => 9,
            potato_column_type::POTATO_TYPE_BINARY => 10,
            potato_column_type::POTATO_TYPE_UUID => 11,
            potato_column_type::POTATO_TYPE_INTERVAL => 12,
            potato_column_type::POTATO_TYPE_ARRAY => 13,
            potato_column_type::POTATO_TYPE_JSON => 14,
            potato_column_type::POTATO_TYPE_OTHER => 99,
        }
    }
}

/// Whether the SQL type that a column was declared with is one of JSON.
pub open spec fn declared_json(sql_type: Option<Seq<char>>) -> bool {
    match sql_type {
        Some(t) => upper_text(t) == "JSON"@ || upper_text(t) == "JSONB"@,
        None => false,
    }
}

/// The type of a column, given its data type as it prints and the SQL type it was declared with.
pub open spec fn column_tag(t: Seq<char>, sql_type: Option<Seq<char>>) -> potato_column_type {
    if declared_json(sql_type) {
        potato_column_type::POTATO_TYPE_JSON
    } else if t == "Boolean"@ {
        potato_column_type::POTATO_TYPE_BOOL
    } else if t == "Int8"@ || t == "Int16"@ || t == "Int32"@ || t == "UInt8"@ || t == "UInt16"@ || t
        == "UInt32"@ {
        potato_column_type::POTATO_TYPE_INT32
    } else if t == "Int64"@ || t == "UInt64"@ {
        potato_column_type::POTATO_TYPE_INT64
    } else if t == "Float16"@ || t == "Float32"@ {
        potato_column_type::POTATO_TYPE_FLOAT
    } else if t == "Float64"@ {
        potato_column_type::POTATO_TYPE_DOUBLE
    } else if t == "Utf8"@ || t == "LargeUtf8"@ {
        potato_column_type::POTATO_TYPE_STRING
    } else if t == "Date32"@ || t == "Date64"@ {
        potato_column_type::POTATO_TYPE_DATE
    } else if has_prefix(t, "Timestamp("@) {
        potato_column_type::POTATO_TYPE_TIMESTAMP
    } else if has_prefix(t, "Decimal128("@) || has_prefix(t, "Decimal256("@) {
        potato_column_type::POTATO_TYPE_DECIMAL
    } else if has_prefix(t, "Duration("@) {
        potato_column_type::POTATO_TYPE_INTERVAL
    } else if has_prefix(t, "List("@) || has_prefix(t, "LargeList("@) || has_prefix(
        t,
        "FixedSizeList("@,
    ) {
        potato_column_type::POTATO_TYPE_ARRAY
    } else if t == "FixedSizeBinary(16)"@ {
        potato_column_type::POTATO_TYPE_UUID
    } else if t == "Binary"@ || t == "LargeBinary"@ || has_prefix(t, "FixedSizeBinary("@) {
        potato_column_type::POTATO_TYPE_BINARY
    } else {
        potato_column_type::POTATO_TYPE_OTHER
    }
}

/// The type of a column, given its data type as it prints and the SQL type it was declared with.
pub fn column_type(t: &str, sql_type: &Option<String>) -> (r: potato_column_type)
    ensures
        r == column_tag(t@, opt_text(*sql_type)),
{
    if let Some(s) = sql_type {
        let upper = s.to_uppercase();
        if same(&upper, "JSON") || same(&upper, "JSONB") {
            return potato_column_type::POTATO_TYPE_JSON;
        }
    }
    if same(t, "Boolean") {
        potato_column_type::POTATO_TYPE_BOOL
    } else if same(t, "Int8") || same(t, "Int16") || same(t, "Int32") || same(t, "UInt8") || same(
        t,
        "UInt16",
    ) || same(t, "UInt32") {
        potato_column_type::POTATO_TYPE_INT32
    } else if same(t, "Int64") || same(t, "UInt64") {
        potato_column_type::POTATO_TYPE_INT64
    } else if same(t, "Float16") || same(t, "Float32") {
        potato_column_type::POTATO_TYPE_FLOAT
    } else if same(t, "Float64") {
        potato_column_type::POTATO_TYPE_DOUBLE
    } else if same(t, "Utf8") || same(t, "LargeUtf8") {
        potato_column_type::POTATO_TYPE_STRING
    } else if same(t, "Date32") || same(t, "Date64") {
        potato_column_type::POTATO_TYPE_DATE
    } else if starts_with(t, "Timestamp(") {
        potato_column_type::POTATO_TYPE_TIMESTAMP
    } else if starts_with(t, "Decimal128(") || starts_with(t, "Decimal256(") {
        potato_column_type::POTATO_TYPE_DECIMAL
    } else if starts_with(t, "Duration(") {
        potato_column_type::POTATO_TYPE_INTERVAL
    } else if starts_with(t, "List(") || starts_with(t, "LargeList(") || starts_with(
        t,
        "FixedSizeList(",
    ) {
        potato_column_type::POTATO_TYPE_ARRAY
    } else if same(t, "FixedSizeBinary(16)") {
        potato_column_type::POTATO_TYPE_UUID
    } else if same(t, "Binary") || same(t, "LargeBinary") || starts_with(t, "FixedSizeBinary(") {
        potato_column_type::POTATO_TYPE_BINARY
    } else {
        potato_column_type::POTATO_TYPE_OTHER
    }
}

/// The type of a column of a result, where `sql_types` tells for each column the SQL type that it
/// was declared with. A result without batches, or without the column, has the type of nothing.
pub fn potato_result_get_column_type(
    batches: &[Batch],
    sql_types: &Vec<Option<String>>,
    col_idx: usize,
) -> (r: potato_column_type)
    ensures
        r == {
            let s = all_contents(batches@);
            if s.len() == 0 || col_idx >= s[0].types.len() {
                potato_column_type::POTATO_TYPE_NULL
            } else {
                column_tag(
                    s[0].types[col_idx as int],
                    if col_idx < sql_types@.len() {
                        opt_text(sql_types@[col_idx as int])
                    } else {
                        None
                    },
                )
            }
        },
{
    if batches.len() == 0 {
        return potato_column_type::POTATO_TYPE_NULL;
    }
    let types = field_types(&batches[0]);
    assert(texts(types@).len() == types@.len());
    assert(all_contents(batches@)[0] == contents(batches@[0]));
    if col_idx >= types.len() {
        return potato_column_type::POTATO_TYPE_NULL;
    }
    assert(texts(types@)[col_idx as int] == types@[col_idx as int]@);
    if col_idx < sql_types.len() {
        column_type(&types[col_idx], &sql_types[col_idx])
    } else {
        column_type(&types[col_idx], &None)
    }
}

// ---------------------------------------------------------------------------
// Rows and cells
// ---------------------------------------------------------------------------

/// The batch that holds a row, from the `i`-th on, and the row's place in it, where `offset` rows
/// stand before the `i`-th batch.
pub open spec fn row_place(s: Seq<BatchView>, i: int, offset: int, row: int) -> Option<(int, int)>
    decreases s.len() - i,
{
    if i < 0 || i >= s.len() {
        None
    } else if row < offset + s[i].rows {
        Some((i, row - offset))
    } else {
        row_place(s, i + 1, offset + s[i].rows, row)
    }
}

/// The batch that holds a row, and the row's place in it.
pub fn resolve_row(batches: &[Batch], row: usize) -> (r: Option<(usize, usize)>)
    ensures
        match r {
            Some(p) => {
                &&& row_place(all_contents(batches@), 0, 0, row as int) == Some(
                    (p.0 as int, p.1 as int),
                )
                &&& p.0 < batches@.len()
                &&& p.1 < contents(batches@[p.0 as int]).rows
            },
            None => row_place(all_contents(batches@), 0, 0, row as int) is None,
        },
{
    let ghost s = all_contents(batches@);
    let mut offset: usize = 0;
    let mut i: usize = 0;
    while i < batches.len()
        invariant
            i <= batches@.len(),
            s == all_contents(batches@),
            s.len() == batches@.len(),
            offset <= row,
            row_place(s, 0, 0, row as int) == row_place(s, i as int, offset as int, row as int),
        decreases batches@.len() - i,
    {
        assert(s[i as int] == contents(batches@[i as int]));
        let n: usize = num_rows(&batches[i]);
        if row - offset < n {
            return Some((i, row - offset));
        }
        offset = offset + n;
        i += 1;
    }
    None
}

/// Whether a cell is null. A cell that is not there is null.
pub open spec fn null_at(s: Seq<BatchView>, row: int, col: int) -> bool {
    match row_place(s, 0, 0, row) {
        Some((b, i)) => col >= s[b].nulls.len() || s[b].nulls[col][i],
        None => true,
    }
}

/// Whether a cell is null. A cell that is not there is null.
pub fn potato_result_is_null(batches: &[Batch], row: usize, col: usize) -> (r: bool)
    ensures
        r == null_at(all_contents(batches@), row as int, col as int),
{
    match resolve_row(batches, row) {
        None => true,
        Some((b, i)) => {
            assert(all_contents(batches@)[b as int] == contents(batches@[b as int]));
            if col >= num_columns(&batches[b]) {
                return true;
            }
            let nulls = column_nulls(&batches[b], col);
            nulls[i]
        },
    }
}

/// A whole number from a cell: 0 for one that is null or no whole number. A large number without
/// sign wraps around.
#[verifier::truncate]
pub fn potato_result_get_int(cell: &Cell) -> (r: i64)
    ensures
        r == match cell@ {
            CellView::Int(n) => n,
            CellView::UInt(n) => n as i64,
            _ => 0,
        },
{
    match cell {
        Cell::Int(n) => *n,
        Cell::UInt(n) => *n as i64,
        _ => 0,
    }
}

/// A truth value from a cell: false for one that is null or no truth value.
pub fn potato_result_get_bool(cell: &Cell) -> (r: bool)
    ensures
        r == (cell@ == CellView::Bool(true)),
{
    match cell {
        Cell::Bool(b) => *b,
        _ => false,
    }
}

/// The unit in which a point in time is counted.
#[derive(Copy, Clone, Debug, Eq, PartialEq, Structural)]
pub enum TimeScale {
    Second,
    Millisecond,
    Microsecond,
    Nanosecond,
}

/// A number held within 64 bits.
pub open spec fn clamped(n: int) -> int {
    if n > i64::MAX {
        i64::MAX as int
    } else if n < i64::MIN {
        i64::MIN as int
    } else {
        n
    }
}

/// A point in time in microseconds, cut towards zero and held within 64 bits.
pub open spec fn in_microseconds(value: i64, scale: TimeScale) -> int {
    match scale {
        TimeScale::Second => clamped(value * 1_000_000),
        TimeScale::Millisecond => clamped(value * 1_000),
        TimeScale::Microsecond => value as int,
        TimeScale::Nanosecond => if value >= 0 {
            value as int / 1_000
        } else {
            -((-(value as int)) / 1_000)
        },
    }
}

fn clamp(n: i128) -> (r: i64)
    ensures
        r == clamped(n as int),
{
    if n > i64::MAX as i128 {
        i64::MAX
    } else if n < i64::MIN as i128 {
        i64::MIN
    } else {
        n as i64
    }
}

/// A point in time in microseconds.
pub fn potato_result_get_timestamp(value: i64, scale: TimeScale) -> (r: i64)
    ensures
        r == in_microseconds(value, scale),
{
    match scale {
        TimeScale::Second => clamp(value as i128 * 1_000_000i128),
        TimeScale::Millisecond => clamp(value as i128 * 1_000i128),
        TimeScale::Microsecond => value,
        TimeScale::Nanosecond => {
            let wide: i128 = value as i128;
            if wide >= 0 {
                let q: u128 = wide as u128 / 1_000u128;
                q as i64
            } else {
                let m: u128 = (-wide) as u128;
                let q: u128 = m / 1_000u128;
                let back: i128 = -(q as i128);
                back as i64
            }
        },
    }
}

/// Whether a text holds no null character, so that it can be handed over as a C string.
pub open spec fn c_text(s: Seq<char>) -> bool {
    !s.contains('\0')
}

/// Whether a text can be handed over as a C string.
pub fn is_c_text(s: &str) -> (r: bool)
    ensures
        r == c_text(s@),
{
    let v = to_chars(s);
    let mut i: usize = 0;
    while i < v.len()
        invariant
            i <= v@.len(),
            v@ == s@,
            forall|k: int| 0 <= k < i ==> #[trigger] v@[k] != '\0',
        decreases v@.len() - i,
    {
        if v[i] == '\0' {
            assert(s@[i as int] == '\0');
            return false;
        }
        i += 1;
    }
    true
}

/// The first `n` names that can be handed over as C strings.
pub open spec fn c_names(names: Seq<Seq<char>>, n: nat) -> Seq<Seq<char>>
    decreases n,
{
    if n == 0 || n > names.len() {
        Seq::empty()
    } else if c_text(names[n - 1]) {
        c_names(names, (n - 1) as nat).push(names[n - 1])
    } else {
        c_names(names, (n - 1) as nat)
    }
}

/// The names of the columns of a result that can be handed over as C strings; none where there are
/// no batches.
pub fn collect_column_names(batches: &[Batch]) -> (r: Vec<String>)
    ensures
        texts(r@) == {
            let s = all_contents(batches@);
            if s.len() == 0 {
                Seq::empty()
            } else {
                c_names(s[0].names, s[0].names.len())
            }
        },
{
    let mut out: Vec<String> = Vec::new();
    assert(texts(out@) =~= Seq::<Seq<char>>::empty());
    if batches.len() == 0 {
        return out;
    }
    let names = field_names(&batches[0]);
    let ghost all = texts(names@);
    assert(all_contents(batches@)[0] == contents(batches@[0]));
    let mut i: usize = 0;
    while i < names.len()
        invariant
            i <= names@.len(),
            all == texts(names@),
            all.len() == names@.len(),
            texts(out@) == c_names(all, i as nat),
        decreases names@.len() - i,
    {
        assert(all[i as int] == names@[i as int]@);
        if is_c_text(&names[i]) {
            let ghost done = out@;
            out.push(names[i].clone());
            assert(texts(out@) =~= texts(done).push(all[i as int]));
        }
        i += 1;
    }
    out
}

// ---------------------------------------------------------------------------
// Calls
// ---------------------------------------------------------------------------

/// The settings of an object store, for a database that is stored in one.
pub fn potato_open(
    data_dir: &str,
    endpoint: Option<String>,
    region: Option<String>,
    allow_http: bool,
    wal_dir: Option<String>,
) -> (r: Option<S3Config>)
    ensures
        r == if has_prefix(data_dir@, "s3://"@) {
            Some(S3Config { endpoint, region, allow_http, wal_dir })
        } else {
            None
        },
{
    if starts_with(data_dir, "s3://") {
        Some(S3Config { endpoint, region, allow_http, wal_dir })
    } else {
        None
    }
}

/// The name of a table that a caller gives, without white space around it.
pub open spec fn table_argument(name: Option<Seq<char>>) -> Result<Seq<char>, Seq<char>> {
    match name {
        None => Err("NULL table_name pointer"@),
        Some(n) => if trim_text(n).len() == 0 {
            Err("empty table_name"@)
        } else {
            Ok(trim_text(n))
        },
    }
}

/// The name of a table that a caller gives, without white space around it.
pub fn read_table_argument(name: Option<&str>) -> (r: Result<String, String>)
    ensures
        crate::outcome::answered(r) == table_argument(
            match name {
                Some(n) => Some(n@),
                None => None,
            },
        ),
{
    match name {
        None => Err("NULL table_name pointer".to_owned()),
        Some(n) => {
            let t = trim(n);
            if t.as_str().is_empty() {
                Err("empty table_name".to_owned())
            } else {
                Ok(t)
            }
        },
    }
}

/// The statement by which the buffered rows of a table are written.
pub open spec fn flush_statement(table: Seq<char>) -> Seq<char> {
    "FLUSH TABLE \""@ + replaced(table, "\""@, "\"\""@) + "\";"@
}

/// The statement by which the buffered rows of a table are written.
pub fn potato_flush_table(name: Option<&str>) -> (r: Result<String, String>)
    ensures
        crate::outcome::answered(r) == match table_argument(
            match name {
                Some(n) => Some(n@),
                None => None,
            },
        ) {
            Ok(t) => Ok(flush_statement(t)),
            Err(e) => Err(e),
        },
{
    match read_table_argument(name) {
        Err(e) => Err(e),
        Ok(t) => Ok(concat3("FLUSH TABLE \"", &replace(&t, "\"", "\"\""), "\";")),
    }
}

/// A number of files, bytes or seconds, as a C caller gets it, or a complaint that it does not fit.
pub fn count_for_caller(count: u64, what: &str) -> (r: Result<i64, String>)
    ensures
        match r {
            Ok(n) => n == count,
            Err(e) => count > i64::MAX && e@ == what@ + " overflowed i64"@,
        },
{
    if count > i64::MAX as u64 {
        Err(concat2(what, " overflowed i64"))
    } else {
        Ok(count as i64)
    }
}

/// The statement by which a statement is prepared.
pub fn potato_prepare(name: Option<&str>, sql: Option<&str>) -> (r: Result<String, String>)
    ensures
        crate::outcome::answered(r) == match (name, sql) {
            (None, _) => Err("NULL name pointer"@),
            (Some(_), None) => Err("NULL sql pointer"@),
            (Some(n), Some(s)) => Ok("PREPARE "@ + n@ + " AS "@ + s@),
        },
{
    match name {
        None => Err("NULL name pointer".to_owned()),
        Some(n) => match sql {
            None => Err("NULL sql pointer".to_owned()),
            Some(s) => Ok(concat2(&concat3("PREPARE ", n, " AS "), s)),
        },
    }
}

/// The place of the first parameter that was not given, from `i` on.
pub open spec fn missing_from(params: Seq<Option<String>>, i: int) -> Option<int>
    decreases params.len() - i,
{
    if i < 0 || i >= params.len() {
        None
    } else if params[i] is None {
        Some(i)
    } else {
        missing_from(params, i + 1)
    }
}

/// The texts of parameters that were given.
pub open spec fn given_texts(params: Seq<Option<String>>) -> Seq<Seq<char>> {
    Seq::new(
        params.len(),
        |i: int|
            match params[i] {
                Some(t) => t@,
                None => Seq::empty(),
            },
    )
}

/// The statement by which a prepared statement is executed.
pub open spec fn execute_statement(
    name: Option<Seq<char>>,
    params: Seq<Option<String>>,
) -> Result<Seq<char>, Seq<char>> {
    match name {
        None => Err("NULL name pointer"@),
        Some(n) => match missing_from(params, 0) {
            Some(i) => Err("NULL parameter at index "@ + decimal(i as nat)),
            None => Ok("EXECUTE "@ + n + "("@ + joined(given_texts(params), ", "@) + ")"@),
        },
    }
}

/// The statement by which a prepared statement is executed.
pub fn potato_execute_prepared(name: Option<&str>, params: &Vec<Option<String>>) -> (r: Result<
    String,
    String,
>)
    ensures
        crate::outcome::answered(r) == execute_statement(
            match name {
                Some(n) => Some(n@),
                None => None,
            },
            params@,
        ),
{
    let n = match name {
        None => {
            return Err("NULL name pointer".to_owned());
        },
        Some(n) => n,
    };
    let mut given: Vec<String> = Vec::new();
    let mut i: usize = 0;
    while i < params.len()
        invariant
            i <= params@.len(),
            name == Some(n),
            given@.len() == i,
            missing_from(params@, 0) == missing_from(params@, i as int),
            forall|k: int| 0 <= k < i ==> (#[trigger] given@[k])@ == given_texts(params@)[k],
        decreases params@.len() - i,
    {
        match &params[i] {
            None => {
                return Err(concat2("NULL parameter at index ", &print_usize(i)));
            },
            Some(t) => {
                given.push(t.clone());
            },
        }
        i += 1;
    }
    assert(texts(given@) =~= given_texts(params@));
    let list = join(&given, ", ");
    let head = concat3("EXECUTE ", n, "(");
    Ok(concat3(&head, &list, ")"))
}

// ---------------------------------------------------------------------------
// Laws
// ---------------------------------------------------------------------------

/// Different types have different numbers.
pub proof fn law_type_codes_differ(a: potato_column_type, b: potato_column_type)
    requires
        type_code(a) == type_code(b),
    ensures
        a == b,
{
}

/// A row is found exactly where there are enough rows, and then it stands so far behind the rows of
/// the batches before its own.
pub proof fn law_row_is_found(s: Seq<BatchView>, row: int)
    requires
        0 <= row,
    ensures
        row_place(s, 0, 0, row) is Some <==> row < rows_until(s, s.len()),
        row_place(s, 0, 0, row) matches Some(p) ==> {
            &&& 0 <= p.0 < s.len()
            &&& 0 <= p.1 < s[p.0].rows
            &&& row == rows_until(s, p.0 as nat) + p.1
        },
{
    lemma_row_place(s, 0, row);
}

proof fn lemma_row_place(s: Seq<BatchView>, i: int, row: int)
    requires
        0 <= i <= s.len(),
        rows_until(s, i as nat) <= row,
    ensures
        ({
            let r = row_place(s, i, rows_until(s, i as nat) as int, row);
            &&& r is Some <==> row < rows_until(s, s.len())
            &&& r matches Some(p) ==> {
                &&& i <= p.0 < s.len()
                &&& 0 <= p.1 < s[p.0].rows
                &&& row == rows_until(s, p.0 as nat) + p.1
            }
        }),
    decreases s.len() - i,
{
    if i < s.len() {
        let next = rows_until(s, (i + 1) as nat);
        crate::display::lemma_rows_grow(s, (i + 1) as nat, s.len());
        if row >= next {
            lemma_row_place(s, i + 1, row);
        }
    }
}

/// A second has a thousand milliseconds, a millisecond a thousand microseconds, and a microsecond a
/// thousand nanoseconds, as far as the numbers fit.
pub proof fn law_time_scales(v: i64)
    requires
        i64::MIN <= v * 1_000_000 <= i64::MAX,
    ensures
        in_microseconds((v * 1_000) as i64, TimeScale::Nanosecond) == v,
        in_microseconds(v, TimeScale::Microsecond) == v,
        in_microseconds(v, TimeScale::Millisecond) == in_microseconds(
            (v * 1_000) as i64,
            TimeScale::Microsecond,
        ),
        in_microseconds(v, TimeScale::Second) == in_microseconds(
            (v * 1_000) as i64,
            TimeScale::Millisecond,
        ),
{
    assert(i64::MIN <= v * 1_000 <= i64::MAX);
    if v >= 0 {
        assert((v * 1_000) / 1_000 == v);
    } else {
        assert((-(v * 1_000)) / 1_000 == -v);
    }
}

/// A value that is not there, behind the last row or the last column, is null.
pub proof fn law_missing_values_are_null(s: Seq<BatchView>, row: int, col: int)
    ensures
        row_place(s, 0, 0, row) is None ==> null_at(s, row, col),
        row_place(s, 0, 0, row) matches Some(p) ==> col >= s[p.0].nulls.len() ==> null_at(
            s,
            row,
            col,
        ),
        row_place(s, 0, 0, row) matches Some(p) ==> col < s[p.0].nulls.len() ==> (null_at(
            s,
            row,
            col,
        ) <==> s[p.0].nulls[col][p.1]),
{
}

/// A statement is only executed with all its parameters. The first one that is missing is complained of.
pub proof fn law_all_parameters_are_needed(
    name: Seq<char>,
    params: Seq<Option<String>>,
    k: int,
)
    ensures
        execute_statement(None, params) is Err,
        (forall|i: int| 0 <= i < params.len() ==> #[trigger] params[i] is Some)
            ==> execute_statement(Some(name), params) is Ok,
        0 <= k < params.len() && params[k] is None && (forall|i: int|
            0 <= i < k ==> #[trigger] params[i] is Some) ==> execute_statement(Some(name), params)
            == Err::<Seq<char>, Seq<char>>("NULL parameter at index "@ + decimal(k as nat)),
{
    lemma_missing_from(params, 0, k);
}

proof fn lemma_missing_from(params: Seq<Option<String>>, i: int, k: int)
    requires
        0 <= i <= params.len(),
    ensures
        (forall|j: int| i <= j < params.len() ==> #[trigger] params[j] is Some) ==> missing_from(
            params,
            i,
        ) is None,
        i <= k < params.len() && params[k] is None && (forall|j: int|
            i <= j < k ==> #[trigger] params[j] is Some) ==> missing_from(params, i) == Some(k),
    decreases params.len() - i,
{
    if i < params.len() {
        lemma_missing_from(params, i + 1, k);
    }
}

/// A name of a table is taken without the white space around it, and a blank one is refused.
pub proof fn law_table_arguments(name: Option<Seq<char>>)
    ensures
        name is None ==> table_argument(name) is Err,
        name matches Some(n) ==> (table_argument(name) is Err <==> trim_text(n).len() == 0),
        table_argument(name) matches Ok(t) ==> t == trim_text(name->0),
{
}

/// Names that a C text cannot hold are left out, and the others stay in their order.
pub proof fn law_c_names(names: Seq<Seq<char>>, n: nat)
    requires
        n <= names.len(),
    ensures
        c_names(names, n) == names.take(n as int).filter(|t: Seq<char>| !t.contains('\0')),
    decreases n,
{
    reveal(Seq::filter);
    if n > 0 {
        law_c_names(names, (n - 1) as nat);
        assert(names.take(n as int).drop_last() =~= names.take(n - 1));
        assert(names.take(n as int).last() == names[n - 1]);
    }
}

/// A name of a table stands between quotes, as it is where it has none itself.
pub proof fn law_flushed_table_is_quoted(table: Seq<char>)
    requires
        forall|i: int| !#[trigger] occurs_at(table, "\""@, i),
    ensures
        flush_statement(table) == "FLUSH TABLE \""@ + table + "\";"@,
{
    reveal_strlit("\"");
    law_text_without_the_pattern_stays(table, "\""@, "\"\""@);
}

} // verus!
