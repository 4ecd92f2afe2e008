//! Statistics of tables and files, in the form in which the query engine takes them.
use arrow::datatypes::DataType;
use vstd::prelude::*;
use vstd::string::*;

use crate::buffers::capped_sum;
use crate::catalog_types::{
    ColumnStatistics, ColumnStatsView, FileStats, FileStatsView, TableStatistics,
};
use crate::display::{print_data_type, type_text};
use crate::dup::{views, Dup};
use crate::listing::{comes_before, text_before};
use crate::namemap::NameMap;
use crate::numbers::{
    decimal, decimal_signed, law_printed_number_reads_back, law_printed_signed_number_reads_back,
    parse_i64, parse_u64, parsed_signed, parsed_unsigned,
};
use crate::text::{ends_with, has_suffix, opt_text, same, texts};

verus! {

// ---------------------------------------------------------------------------
// Values
// ---------------------------------------------------------------------------

/// A value of a column, as statistics hold it.
pub enum Scalar {
    Int8(i8),
    Int16(i16),
    Int32(i32),
    Int64(i64),
    UInt8(u8),
    UInt16(u16),
    UInt32(u32),
    UInt64(u64),
    /// The text of a single-precision number.
    Float32(String),
    /// The text of a double-precision number.
    Float64(String),
    Utf8(String),
    Boolean(bool),
    /// Days since 1970.
    Date32(i32),
}

/// What a [`Scalar`] says.
pub enum ScalarView {
    Int8(i8),
    Int16(i16),
    Int32(i32),
    Int64(i64),
    UInt8(u8),
    UInt16(u16),
    UInt32(u32),
    UInt64(u64),
    Float32(Seq<char>),
    Float64(Seq<char>),
    Utf8(Seq<char>),
    Boolean(bool),
    Date32(i32),
}

impl View for Scalar {
    type V = ScalarView;

    open spec fn view(&self) -> ScalarView {
        match self {
            Scalar::Int8(n) => ScalarView::Int8(*n),
            Scalar::Int16(n) => ScalarView::Int16(*n),
            Scalar::Int32(n) => ScalarView::Int32(*n),
            Scalar::Int64(n) => ScalarView::Int64(*n),
            Scalar::UInt8(n) => ScalarView::UInt8(*n),
            Scalar::UInt16(n) => ScalarView::UInt16(*n),
            Scalar::UInt32(n) => ScalarView::UInt32(*n),
            Scalar::UInt64(n) => ScalarView::UInt64(*n),
            Scalar::Float32(t) => ScalarView::Float32(t@),
            Scalar::Float64(t) => ScalarView::Float64(t@),
            Scalar::Utf8(t) => ScalarView::Utf8(t@),
            Scalar::Boolean(b) => ScalarView::Boolean(*b),
            Scalar::Date32(d) => ScalarView::Date32(*d),
        }
    }
}

/// The days between 1970 and the date that `NaiveDate::from_str` reads in a text.
pub uninterp spec fn date_value(s: Seq<char>) -> Option<i32>;

/// `chrono::NaiveDate`'s `FromStr`, and the days since 1970: they depend on the text alone; `None`
/// where there is an error.
#[verifier::external_body]
fn date_days(s: &str) -> (r: Option<i32>)
    ensures
        r == date_value(s@),
{
    let date = s.parse::<chrono::NaiveDate>().ok()?;
    Some(date.signed_duration_since(chrono::DateTime::UNIX_EPOCH.date_naive()).num_days() as i32)
}

/// A signed number within bounds.
pub open spec fn signed_within(s: Seq<char>, min: int, max: int) -> Option<int> {
    match parsed_signed(s) {
        Some(n) => if min <= n <= max {
            Some(n)
        } else {
            None
        },
        None => None,
    }
}

/// The value that a text stands for in a column of a type, given the type as it prints and the text
/// read as a date. Numbers that are no whole numbers are left as they are written.
pub open spec fn scalar_value(s: Seq<char>, t: Seq<char>, date: Option<i32>) -> Option<ScalarView> {
    if t == "Int8"@ {
        match signed_within(s, i8::MIN as int, i8::MAX as int) {
            Some(n) => Some(ScalarView::Int8(n as i8)),
            None => None,
        }
    } else if t == "Int16"@ {
        match signed_within(s, i16::MIN as int, i16::MAX as int) {
            Some(n) => Some(ScalarView::Int16(n as i16)),
            None => None,
        }
    } else if t == "Int32"@ {
        match signed_within(s, i32::MIN as int, i32::MAX as int) {
            Some(n) => Some(ScalarView::Int32(n as i32)),
            None => None,
        }
    } else if t == "Int64"@ {
        match parsed_signed(s) {
            Some(n) => Some(ScalarView::Int64(n as i64)),
            None => None,
        }
    } else if t == "UInt8"@ {
        match parsed_unsigned(s, u8::MAX as nat) {
            Some(n) => Some(ScalarView::UInt8(n as u8)),
            None => None,
        }
    } else if t == "UInt16"@ {
        match parsed_unsigned(s, u16::MAX as nat) {
            Some(n) => Some(ScalarView::UInt16(n as u16)),
            None => None,
        }
    } else if t == "UInt32"@ {
        match parsed_unsigned(s, u32::MAX as nat) {
            Some(n) => Some(ScalarView::UInt32(n as u32)),
            None => None,
        }
    } else if t == "UInt64"@ {
        match parsed_unsigned(s, u64::MAX as nat) {
            Some(n) => Some(ScalarView::UInt64(n as u64)),
            None => None,
        }
    } else if t == "Float32"@ {
        Some(ScalarView::Float32(s))
    } else if t == "Float64"@ {
        Some(ScalarView::Float64(s))
    } else if t == "Utf8"@ || t == "LargeUtf8"@ {
        Some(ScalarView::Utf8(s))
    } else if t == "Boolean"@ {
        if s == "true"@ {
            Some(ScalarView::Boolean(true))
        } else if s == "false"@ {
            Some(ScalarView::Boolean(false))
        } else {
            None
        }
    } else if t == "Date32"@ {
        match date {
            Some(d) => Some(ScalarView::Date32(d)),
            None => None,
        }
    } else {
        None
    }
}

/// The view of an optional value.
pub open spec fn opt_scalar(v: Option<Scalar>) -> Option<ScalarView> {
    match v {
        Some(x) => Some(x@),
        None => None,
    }
}

fn read_signed(s: &str, t: &str) -> (r: Option<Scalar>)
    requires
        t@ == "Int8"@ || t@ == "Int16"@ || t@ == "Int32"@ || t@ == "Int64"@,
    ensures
        forall|d: Option<i32>| opt_scalar(r) == #[trigger] scalar_value(s@, t@, d),
{
    match parse_i64(s) {
        None => None,
        Some(n) => if same(t, "Int8") {
            if -128 <= n && n <= 127 {
                Some(Scalar::Int8(n as i8))
            } else {
                None
            }
        } else if same(t, "Int16") {
            if -32768 <= n && n <= 32767 {
                Some(Scalar::Int16(n as i16))
            } else {
                None
            }
        } else if same(t, "Int32") {
            if -2147483648 <= n && n <= 2147483647 {
                Some(Scalar::Int32(n as i32))
            } else {
                None
            }
        } else {
            Some(Scalar::Int64(n))
        },
    }
}

fn unsigned_up_to(s: &str, max: u64) -> (r: Option<u64>)
    ensures
        match r {
            Some(n) => parsed_unsigned(s@, max as nat) == Some(n as nat),
            None => parsed_unsigned(s@, max as nat) is None,
        },
{
    match parse_u64(s) {
        Some(n) => if n <= max {
            Some(n)
        } else {
            None
        },
        None => None,
    }
}

fn read_unsigned(s: &str, t: &str) -> (r: Option<Scalar>)
    requires
        t@ == "UInt8"@ || t@ == "UInt16"@ || t@ == "UInt32"@ || t@ == "UInt64"@,
        t@ != "Int8"@ && t@ != "Int16"@ && t@ != "Int32"@ && t@ != "Int64"@,
    ensures
        forall|d: Option<i32>| opt_scalar(r) == #[trigger] scalar_value(s@, t@, d),
{
    if same(t, "UInt8") {
        match unsigned_up_to(s, 255) {
            Some(n) => Some(Scalar::UInt8(n as u8)),
            None => None,
        }
    } else if same(t, "UInt16") {
        match unsigned_up_to(s, 65535) {
            Some(n) => Some(Scalar::UInt16(n as u16)),
            None => None,
        }
    } else if same(t, "UInt32") {
        match unsigned_up_to(s, 4294967295) {
            Some(n) => Some(Scalar::UInt32(n as u32)),
            None => None,
        }
    } else {
        match parse_u64(s) {
            Some(n) => Some(Scalar::UInt64(n)),
            None => None,
        }
    }
}

/// The value that a text stands for in a column of a type, given the type as it prints and the text
/// read as a date.
pub fn scalar_with(s: &str, t: &str, date: Option<i32>) -> (r: Option<Scalar>)
    ensures
        opt_scalar(r) == scalar_value(s@, t@, date),
{
    if same(t, "Int8") || same(t, "Int16") || same(t, "Int32") || same(t, "Int64") {
        return read_signed(s, t);
    }
    if same(t, "UInt8") || same(t, "UInt16") || same(t, "UInt32") || same(t, "UInt64") {
        return read_unsigned(s, t);
    }
    if same(t, "Float32") {
        Some(Scalar::Float32(s.to_owned()))
    } else if same(t, "Float64") {
        Some(Scalar::Float64(s.to_owned()))
    } else if same(t, "Utf8") || same(t, "LargeUtf8") {
        Some(Scalar::Utf8(s.to_owned()))
    } else if same(t, "Boolean") {
        if same(s, "true") {
            Some(Scalar::Boolean(true))
        } else if same(s, "false") {
            Some(Scalar::Boolean(false))
        } else {
            None
        }
    } else if same(t, "Date32") {
        match date {
            Some(d) => Some(Scalar::Date32(d)),
            None => None,
        }
    } else {
        None
    }
}

/// The value that a text stands for in a column of a type; nothing where the text is no such value,
/// and for types whose values are not held as texts.
pub fn parse_scalar_value(s: &str, dt: &DataType) -> (r: Option<Scalar>)
    ensures
        opt_scalar(r) == scalar_value(s@, type_text(*dt), date_value(s@)),
{
    let t = print_data_type(dt);
    scalar_with(s, &t, date_days(s))
}

// ---------------------------------------------------------------------------
// Statistics of tables
// ---------------------------------------------------------------------------

/// A column of a table, by its name and type.
pub struct FieldType {
    pub name: String,
    pub data_type: DataType,
}

/// What is known of a column.
pub struct KnownColumn {
    pub null_count: usize,
    pub distinct_count: Option<usize>,
    pub min_value: Option<Scalar>,
    pub max_value: Option<Scalar>,
}

/// What a [`KnownColumn`] says.
pub struct KnownColumnView {
    pub null_count: usize,
    pub distinct_count: Option<usize>,
    pub min_value: Option<ScalarView>,
    pub max_value: Option<ScalarView>,
}

impl View for KnownColumn {
    type V = KnownColumnView;

    open spec fn view(&self) -> KnownColumnView {
        KnownColumnView {
            null_count: self.null_count,
            distinct_count: self.distinct_count,
            min_value: opt_scalar(self.min_value),
            max_value: opt_scalar(self.max_value),
        }
    }
}

/// The value of an optional text in a column.
pub open spec fn known_value(v: Option<Seq<char>>, dt: DataType) -> Option<ScalarView> {
    match v {
        Some(s) => scalar_value(s, type_text(dt), date_value(s)),
        None => None,
    }
}

/// What is known of a column, in the form of the query engine.
pub open spec fn known_column(c: ColumnStatsView, dt: DataType) -> KnownColumnView {
    KnownColumnView {
        null_count: c.null_count as usize,
        distinct_count: match c.distinct_count {
            Some(n) => Some(n as usize),
            None => None,
        },
        min_value: known_value(c.min_value, dt),
        max_value: known_value(c.max_value, dt),
    }
}

/// What is known of each field; nothing for a field without statistics.
pub open spec fn known_columns(
    stats: Map<Seq<char>, ColumnStatsView>,
    fields: Seq<FieldType>,
) -> Seq<Option<KnownColumnView>> {
    Seq::new(
        fields.len(),
        |i: int|
            if stats.dom().contains(fields[i].name@) {
                Some(known_column(stats[fields[i].name@], fields[i].data_type))
            } else {
                None
            },
    )
}

/// The views of what is known.
pub open spec fn known_views(s: Seq<Option<KnownColumn>>) -> Seq<Option<KnownColumnView>> {
    Seq::new(
        s.len(),
        |i: int|
            match s[i] {
                Some(c) => Some(c@),
                None => None,
            },
    )
}

/// The statistics of a table, in the form of the query engine.
pub struct KnownTable {
    pub num_rows: usize,
    pub columns: Vec<Option<KnownColumn>>,
}

fn read_value(v: &Option<String>, dt: &DataType) -> (r: Option<Scalar>)
    ensures
        opt_scalar(r) == known_value(opt_text(*v), *dt),
{
    match v {
        Some(s) => parse_scalar_value(s, dt),
        None => None,
    }
}

#[verifier::truncate]
fn read_column(c: &ColumnStatistics, dt: &DataType) -> (r: KnownColumn)
    ensures
        r@ == known_column(c@, *dt),
{
    KnownColumn {
        null_count: c.null_count as usize,
        distinct_count: match c.distinct_count {
            Some(n) => Some(n as usize),
            None => None,
        },
        min_value: read_value(&c.min_value, dt),
        max_value: read_value(&c.max_value, dt),
    }
}

/// The statistics of a table, in the form of the query engine: the number of rows, and for each
/// field what is known of it.
#[verifier::truncate]
pub fn catalog_stats_to_df(stats: &TableStatistics, fields: &Vec<FieldType>) -> (r: KnownTable)
    requires
        stats.wf(),
    ensures
        r.num_rows == stats.row_count as usize,
        known_views(r.columns@) == known_columns(stats@.columns, fields@),
{
    let ghost goal = known_columns(stats@.columns, fields@);
    let mut columns: Vec<Option<KnownColumn>> = Vec::new();
    let mut i: usize = 0;
    while i < fields.len()
        invariant
            stats.wf(),
            i <= fields@.len(),
            goal == known_columns(stats@.columns, fields@),
            columns@.len() == i,
            forall|k: int|
                0 <= k < i ==> (match #[trigger] columns@[k] {
                    Some(c) => Some(c@),
                    None => None,
                }) == goal[k],
        decreases fields@.len() - i,
    {
        let known = match stats.columns.lookup(&fields[i].name) {
            Some(c) => Some(read_column(c, &fields[i].data_type)),
            None => None,
        };
        columns.push(known);
        i += 1;
    }
    assert(known_views(columns@) =~= goal);
    KnownTable { num_rows: stats.row_count as usize, columns }
}

// ---------------------------------------------------------------------------
// Statistics of files
// ---------------------------------------------------------------------------

/// What the files of a table come to.
#[derive(Clone, Copy, Debug, PartialEq, Eq, Structural)]
pub struct FileTotals {
    /// The rows, where at least one file tells its rows.
    pub num_rows: Option<usize>,
    pub total_byte_size: usize,
    /// The number of columns, of which nothing is known.
    pub columns: usize,
}

/// The bytes of the first `n` files, held within a machine word.
pub open spec fn bytes_until(s: Seq<FileStatsView>, n: nat) -> usize
    decreases n,
{
    if n == 0 || n > s.len() {
        0
    } else {
        capped_sum(bytes_until(s, (n - 1) as nat), s[n - 1].size_bytes as usize)
    }
}

/// The rows of the first `n` files, held within a machine word; nothing where no file tells its
/// rows.
pub open spec fn rows_until(s: Seq<FileStatsView>, n: nat) -> Option<usize>
    decreases n,
{
    if n == 0 || n > s.len() {
        None
    } else {
        let rest = rows_until(s, (n - 1) as nat);
        match s[n - 1].row_count {
            Some(rows) => Some(
                capped_sum(
                    match rest {
                        Some(k) => k,
                        None => 0,
                    },
                    rows as usize,
                ),
            ),
            None => rest,
        }
    }
}

fn capped(a: usize, b: usize) -> (r: usize)
    ensures
        r == capped_sum(a, b),
{
    if a > usize::MAX - b {
        usize::MAX
    } else {
        a + b
    }
}

/// What the files of a table come to; nothing where no files are known.
#[verifier::truncate]
pub fn file_stats_to_df(file_stats: &Vec<FileStats>, columns: usize) -> (r: Option<FileTotals>)
    ensures
        match r {
            None => file_stats@.len() == 0,
            Some(t) => {
                let s = views(file_stats@);
                &&& file_stats@.len() > 0
                &&& t.num_rows == rows_until(s, s.len())
                &&& t.total_byte_size == bytes_until(s, s.len())
                &&& t.columns == columns
            },
        },
{
    let ghost s = views(file_stats@);
    if file_stats.len() == 0 {
        return None;
    }
    let mut rows: Option<usize> = None;
    let mut bytes: usize = 0;
    let mut i: usize = 0;
    while i < file_stats.len()
        invariant
            i <= file_stats@.len(),
            s == views(file_stats@),
            s.len() == file_stats@.len(),
            rows == rows_until(s, i as nat),
            bytes == bytes_until(s, i as nat),
        decreases file_stats@.len() - i,
    {
        assert(s[i as int] == file_stats@[i as int]@);
        bytes = capped(bytes, file_stats[i].size_bytes as usize);
        if let Some(n) = file_stats[i].row_count {
            let before: usize = match rows {
                Some(k) => k,
                None => 0,
            };
            rows = Some(capped(before, n as usize));
        }
        i += 1;
    }
    Some(FileTotals { num_rows: rows, total_byte_size: bytes, columns })
}

/// The least and greatest values of columns, as they are noted in the parts of a file.
pub struct ColumnRange {
    pub column: String,
    pub min: String,
    pub max: String,
}

/// The least values once one more was seen.
pub open spec fn with_min(m: Map<Seq<char>, Seq<char>>, column: Seq<char>, min: Seq<char>) -> Map<
    Seq<char>,
    Seq<char>,
> {
    if m.dom().contains(column) && !text_before(min, m[column], 0) {
        m
    } else {
        m.insert(column, min)
    }
}

/// The greatest values once one more was seen.
pub open spec fn with_max(m: Map<Seq<char>, Seq<char>>, column: Seq<char>, max: Seq<char>) -> Map<
    Seq<char>,
    Seq<char>,
> {
    if m.dom().contains(column) && !text_before(m[column], max, 0) {
        m
    } else {
        m.insert(column, max)
    }
}

/// The least values of the first `n` parts.
pub open spec fn mins_until(m: Map<Seq<char>, Seq<char>>, s: Seq<ColumnRange>, n: nat) -> Map<
    Seq<char>,
    Seq<char>,
>
    decreases n,
{
    if n == 0 || n > s.len() {
        m
    } else {
        with_min(mins_until(m, s, (n - 1) as nat), s[n - 1].column@, s[n - 1].min@)
    }
}

/// The greatest values of the first `n` parts.
pub open spec fn maxs_until(m: Map<Seq<char>, Seq<char>>, s: Seq<ColumnRange>, n: nat) -> Map<
    Seq<char>,
    Seq<char>,
>
    decreases n,
{
    if n == 0 || n > s.len() {
        m
    } else {
        with_max(maxs_until(m, s, (n - 1) as nat), s[n - 1].column@, s[n - 1].max@)
    }
}

/// Puts the ranges of the parts of a file together, by the order of their texts.
pub fn collect_minmax_from_parquet(
    ranges: &Vec<ColumnRange>,
    min_values: &mut NameMap<String>,
    max_values: &mut NameMap<String>,
)
    requires
        old(min_values).deep_wf(),
        old(max_values).deep_wf(),
    ensures
        final(min_values).deep_wf(),
        final(max_values).deep_wf(),
        final(min_values).deep() == mins_until(old(min_values).deep(), ranges@, ranges@.len()),
        final(max_values).deep() == maxs_until(old(max_values).deep(), ranges@, ranges@.len()),
{
    let ghost mins = min_values.deep();
    let ghost maxs = max_values.deep();
    let mut i: usize = 0;
    while i < ranges.len()
        invariant
            i <= ranges@.len(),
            min_values.deep_wf(),
            max_values.deep_wf(),
            mins == old(min_values).deep(),
            maxs == old(max_values).deep(),
            min_values.deep() == mins_until(mins, ranges@, i as nat),
            max_values.deep() == maxs_until(maxs, ranges@, i as nat),
        decreases ranges@.len() - i,
    {
        let smaller: bool = match min_values.lookup(&ranges[i].column) {
            Some(v) => comes_before(&ranges[i].min, v),
            None => true,
        };
        if smaller {
            min_values.put(ranges[i].column.clone(), ranges[i].min.clone());
        }
        let greater: bool = match max_values.lookup(&ranges[i].column) {
            Some(v) => comes_before(v, &ranges[i].max),
            None => true,
        };
        if greater {
            max_values.put(ranges[i].column.clone(), ranges[i].max.clone());
        }
        i += 1;
    }
}

// ---------------------------------------------------------------------------
// Listings
// ---------------------------------------------------------------------------

/// A file in the storage of a table.
pub struct StoredFile {
    pub path: String,
    pub size: u64,
    /// When the file was last changed, in seconds since 1970.
    pub changed_at: i64,
    /// How long ago that is, in seconds.
    pub age_secs: i64,
}

/// Whether a file holds rows of the table.
pub open spec fn holds_rows(f: StoredFile) -> bool {
    has_suffix(f.path@, ".parquet"@)
}

/// The paths of those of the first `n` files that hold rows.
pub open spec fn data_paths(s: Seq<StoredFile>, n: nat) -> Seq<Seq<char>>
    decreases n,
{
    if n == 0 || n > s.len() {
        Seq::empty()
    } else if holds_rows(s[n - 1]) {
        data_paths(s, (n - 1) as nat).push(s[n - 1].path@)
    } else {
        data_paths(s, (n - 1) as nat)
    }
}

/// The paths of the files that hold rows.
pub fn list_parquet_files(files: &Vec<StoredFile>) -> (r: Vec<String>)
    ensures
        texts(r@) == data_paths(files@, files@.len()),
{
    let mut out: Vec<String> = Vec::new();
    let mut i: usize = 0;
    assert(texts(out@) =~= Seq::<Seq<char>>::empty());
    while i < files.len()
        invariant
            i <= files@.len(),
            texts(out@) == data_paths(files@, i as nat),
        decreases files@.len() - i,
    {
        if ends_with(&files[i].path, ".parquet") {
            let ghost done = out@;
            out.push(files[i].path.clone());
            assert(texts(out@) =~= texts(done).push(files@[i as int].path@));
        }
        i += 1;
    }
    out
}

/// How many files hold rows.
pub fn parquet_file_count(files: &Vec<StoredFile>) -> (r: usize)
    ensures
        r == data_paths(files@, files@.len()).len(),
{
    let list = list_parquet_files(files);
    assert(texts(list@).len() == list@.len());
    list.len()
}

/// The bytes of those of the first `n` files that hold rows.
pub open spec fn data_bytes(s: Seq<StoredFile>, n: nat) -> nat
    decreases n,
{
    if n == 0 || n > s.len() {
        0
    } else {
        data_bytes(s, (n - 1) as nat) + if holds_rows(s[n - 1]) {
            s[n - 1].size as nat
        } else {
            0
        }
    }
}

proof fn lemma_bytes_grow(s: Seq<StoredFile>, a: nat, b: nat)
    requires
        a <= b <= s.len(),
    ensures
        data_bytes(s, a) <= data_bytes(s, b),
    decreases b,
{
    if a < b {
        lemma_bytes_grow(s, a, (b - 1) as nat);
    }
}

/// The bytes of the files that hold rows; nothing where they cannot be counted.
pub fn table_total_bytes(files: &Vec<StoredFile>) -> (r: Option<u64>)
    ensures
        match r {
            Some(n) => n == data_bytes(files@, files@.len()),
            None => data_bytes(files@, files@.len()) > u64::MAX,
        },
{
    let mut sum: u64 = 0;
    let mut i: usize = 0;
    while i < files.len()
        invariant
            i <= files@.len(),
            sum == data_bytes(files@, i as nat),
        decreases files@.len() - i,
    {
        if ends_with(&files[i].path, ".parquet") {
            let n: u64 = files[i].size;
            if n > u64::MAX - sum {
                proof {
                    lemma_bytes_grow(files@, (i + 1) as nat, files@.len());
                }
                return None;
            }
            sum = sum + n;
        }
        i += 1;
    }
    Some(sum)
}

/// The greatest age of those of the first `n` files that hold rows; 0 where there are none, and for
/// files of the future.
pub open spec fn oldest_age(s: Seq<StoredFile>, n: nat) -> nat
    decreases n,
{
    if n == 0 || n > s.len() {
        0
    } else {
        let rest = oldest_age(s, (n - 1) as nat);
        if holds_rows(s[n - 1]) && s[n - 1].age_secs > rest {
            s[n - 1].age_secs as nat
        } else {
            rest
        }
    }
}

/// The age of the oldest file that holds rows, in seconds.
pub fn table_oldest_file_age_secs(files: &Vec<StoredFile>) -> (r: u64)
    ensures
        r == oldest_age(files@, files@.len()),
{
    let mut best: u64 = 0;
    let mut i: usize = 0;
    while i < files.len()
        invariant
            i <= files@.len(),
            best == oldest_age(files@, i as nat),
        decreases files@.len() - i,
    {
        if ends_with(&files[i].path, ".parquet") && files[i].age_secs > 0 {
            let age: u64 = files[i].age_secs as u64;
            if age > best {
                best = age;
            }
        }
        i += 1;
    }
    best
}

/// What a listing tells of a file.
pub open spec fn listed_file(f: StoredFile) -> FileStatsView {
    FileStatsView {
        path: f.path@,
        row_count: None,
        min_values: Map::empty(),
        max_values: Map::empty(),
        size_bytes: f.size,
        created_at: Some(f.changed_at),
    }
}

/// What a listing tells of those of the first `n` files that hold rows.
pub open spec fn listed_files(s: Seq<StoredFile>, n: nat) -> Seq<FileStatsView>
    decreases n,
{
    if n == 0 || n > s.len() {
        Seq::empty()
    } else if holds_rows(s[n - 1]) {
        listed_files(s, (n - 1) as nat).push(listed_file(s[n - 1]))
    } else {
        listed_files(s, (n - 1) as nat)
    }
}

/// What a listing tells of the files that hold rows: their paths, sizes and times.
pub fn refresh_table_file_stats_light(files: &Vec<StoredFile>) -> (r: Vec<FileStats>)
    ensures
        views(r@) == listed_files(files@, files@.len()),
        crate::dup::all_wf(r@),
{
    let mut out: Vec<FileStats> = Vec::new();
    let mut i: usize = 0;
    assert(views(out@) =~= Seq::<FileStatsView>::empty());
    while i < files.len()
        invariant
            i <= files@.len(),
            crate::dup::all_wf(out@),
            views(out@) == listed_files(files@, i as nat),
        decreases files@.len() - i,
    {
        if ends_with(&files[i].path, ".parquet") {
            let min_values: NameMap<String> = NameMap::new();
            let max_values: NameMap<String> = NameMap::new();
            proof {
                min_values.lemma_empty();
                max_values.lemma_empty();
            }
            let ghost done = out@;
            let one = FileStats {
                path: files[i].path.clone(),
                row_count: None,
                min_values,
                max_values,
                size_bytes: files[i].size,
                created_at: Some(files[i].changed_at),
            };
            let ghost ov = one@;
            out.push(one);
            assert(views(out@) =~= views(done).push(ov));
        }
        i += 1;
    }
    out
}

/// The name of a file without the directories before it.
pub open spec fn file_name(path: Seq<char>) -> Seq<char> {
    let p = crate::text::pieces(path, '/');
    if p.len() > 0 {
        p[p.len() - 1]
    } else {
        path
    }
}

/// The name of a file without the directories before it.
pub fn base_name(path: &str) -> (r: String)
    ensures
        r@ == file_name(path@),
{
    let p = crate::text::split_char(path, '/');
    assert(texts(p@).len() == p@.len());
    if p.len() > 0 {
        assert(texts(p@)[p@.len() - 1] == p@[p@.len() - 1]@);
        p[p.len() - 1].clone()
    } else {
        path.to_owned()
    }
}

// ---------------------------------------------------------------------------
// Laws
// ---------------------------------------------------------------------------

/// Whatever values are seen, the least value of a column is never raised and the greatest never
/// lowered: each is the value from before or the one that was just seen.
pub proof fn law_ranges_only_widen(
    m: Map<Seq<char>, Seq<char>>,
    column: Seq<char>,
    seen: Seq<char>,
)
    requires
        m.dom().contains(column),
    ensures
        with_min(m, column, seen)[column] == m[column] || text_before(seen, m[column], 0),
        with_max(m, column, seen)[column] == m[column] || text_before(m[column], seen, 0),
        forall|other: Seq<char>|
            other != column && #[trigger] m.dom().contains(other) ==> with_min(m, column, seen)[other]
                == m[other] && with_max(m, column, seen)[other] == m[other],
{
}

/// A table without files that hold rows takes no bytes.
pub proof fn law_no_data_files_no_bytes(s: Seq<StoredFile>, n: nat)
    requires
        n <= s.len(),
        forall|i: int| 0 <= i < s.len() ==> !holds_rows(#[trigger] s[i]),
    ensures
        data_bytes(s, n) == 0,
        data_paths(s, n).len() == 0,
        oldest_age(s, n) == 0,
    decreases n,
{
    if n > 0 {
        law_no_data_files_no_bytes(s, (n - 1) as nat);
    }
}

proof fn lemma_before_is_strict(a: Seq<char>, b: Seq<char>, i: int)
    requires
        text_before(a, b, i),
    ensures
        !text_before(b, a, i),
    decreases a.len() - i,
{
    if 0 <= i < b.len() && i < a.len() && a[i] == b[i] {
        lemma_before_is_strict(a, b, i + 1);
    }
}

/// The least value of a column comes before every value that was seen, and the greatest after: neither the
/// one from before nor the one that was just seen lies outside.
pub proof fn law_ranges_hold_what_was_seen(
    m: Map<Seq<char>, Seq<char>>,
    column: Seq<char>,
    seen: Seq<char>,
)
    ensures
        with_min(m, column, seen).dom().contains(column),
        with_max(m, column, seen).dom().contains(column),
        !text_before(seen, with_min(m, column, seen)[column], 0),
        !text_before(with_max(m, column, seen)[column], seen, 0),
        m.dom().contains(column) ==> !text_before(m[column], with_min(m, column, seen)[column], 0)
            && !text_before(with_max(m, column, seen)[column], m[column], 0),
{
    lemma_not_before_itself(seen, 0);
    if m.dom().contains(column) {
        lemma_not_before_itself(m[column], 0);
        if text_before(seen, m[column], 0) {
            lemma_before_is_strict(seen, m[column], 0);
        }
        if text_before(m[column], seen, 0) {
            lemma_before_is_strict(m[column], seen, 0);
        }
    }
}

proof fn lemma_not_before_itself(a: Seq<char>, i: int)
    ensures
        !text_before(a, a, i),
    decreases a.len() - i,
{
    if 0 <= i < a.len() {
        lemma_not_before_itself(a, i + 1);
    }
}

/// The files of a table are those that hold rows, in their order. The oldest of them gives the age, and
/// their sizes add up.
pub proof fn law_data_files(s: Seq<StoredFile>, n: nat)
    requires
        n <= s.len(),
    ensures
        data_paths(s, n).len() == listed_files(s, n).len(),
        forall|k: int|
            0 <= k < data_paths(s, n).len() ==> #[trigger] data_paths(s, n)[k] == listed_files(
                s,
                n,
            )[k].path,
        forall|i: int|
            0 <= i < n && holds_rows(#[trigger] s[i]) ==> s[i].age_secs <= oldest_age(s, n)
                && s[i].size <= data_bytes(s, n) && data_paths(s, n).contains(s[i].path@),
        oldest_age(s, n) == 0 || exists|i: int|
            0 <= i < n && holds_rows(#[trigger] s[i]) && s[i].age_secs == oldest_age(s, n),
        forall|k: int|
            0 <= k < data_paths(s, n).len() ==> has_suffix(
                #[trigger] data_paths(s, n)[k],
                ".parquet"@,
            ),
    decreases n,
{
    if n > 0 {
        let m = (n - 1) as nat;
        law_data_files(s, m);
        let whole = data_paths(s, n);
        let rest = data_paths(s, m);
        assert forall|i: int| 0 <= i < n && holds_rows(#[trigger] s[i]) implies s[i].age_secs
            <= oldest_age(s, n) && s[i].size <= data_bytes(s, n) && whole.contains(s[i].path@) by {
            if i < n - 1 {
                assert(rest.contains(s[i].path@));
                let k = choose|k: int| 0 <= k < rest.len() && rest[k] == s[i].path@;
                assert(whole[k] == s[i].path@);
            } else {
                assert(whole[rest.len() as int] == s[i].path@);
            }
        }
        if oldest_age(s, n) != 0 {
            if oldest_age(s, n) == oldest_age(s, m) {
                let i = choose|i: int|
                    0 <= i < m && holds_rows(#[trigger] s[i]) && s[i].age_secs == oldest_age(s, m);
                assert(holds_rows(s[i]));
            } else {
                assert(holds_rows(s[n - 1]));
            }
        }
    }
}

/// A whole number that was printed reads back in its type.
pub proof fn law_printed_bounds_read_back(n: i64, u: u64, date: Option<i32>)
    ensures
        scalar_value(decimal_signed(n as int), "Int64"@, date) == Some(ScalarView::Int64(n)),
        scalar_value(decimal(u as nat), "UInt64"@, date) == Some(ScalarView::UInt64(u)),
        i32::MIN <= n <= i32::MAX ==> scalar_value(decimal_signed(n as int), "Int32"@, date)
            == Some(ScalarView::Int32(n as i32)),
        i16::MIN <= n <= i16::MAX ==> scalar_value(decimal_signed(n as int), "Int16"@, date)
            == Some(ScalarView::Int16(n as i16)),
        i8::MIN <= n <= i8::MAX ==> scalar_value(decimal_signed(n as int), "Int8"@, date) == Some(
            ScalarView::Int8(n as i8),
        ),
        !(i32::MIN <= n <= i32::MAX) ==> scalar_value(decimal_signed(n as int), "Int32"@, date) is None,
        !(i16::MIN <= n <= i16::MAX) ==> scalar_value(decimal_signed(n as int), "Int16"@, date) is None,
        !(i8::MIN <= n <= i8::MAX) ==> scalar_value(decimal_signed(n as int), "Int8"@, date) is None,
        u <= u32::MAX ==> scalar_value(decimal(u as nat), "UInt32"@, date) == Some(
            ScalarView::UInt32(u as u32),
        ),
        u <= u16::MAX ==> scalar_value(decimal(u as nat), "UInt16"@, date) == Some(
            ScalarView::UInt16(u as u16),
        ),
        u <= u8::MAX ==> scalar_value(decimal(u as nat), "UInt8"@, date) == Some(
            ScalarView::UInt8(u as u8),
        ),
{
    law_printed_signed_number_reads_back(n);
    law_printed_number_reads_back(u as nat, u64::MAX as nat);
    if u <= u32::MAX {
        law_printed_number_reads_back(u as nat, u32::MAX as nat);
    }
    if u <= u16::MAX {
        law_printed_number_reads_back(u as nat, u16::MAX as nat);
    }
    if u <= u8::MAX {
        law_printed_number_reads_back(u as nat, u8::MAX as nat);
    }
    lemma_integer_names_differ();
}

proof fn lemma_integer_names_differ()
    ensures
        "Int8"@.len() == 4,
        "Int16"@.len() == 5 && "Int16"@[0] == 'I' && "Int16"@[3] == '1',
        "Int32"@.len() == 5 && "Int32"@[0] == 'I' && "Int32"@[3] == '3',
        "Int64"@.len() == 5 && "Int64"@[0] == 'I' && "Int64"@[3] == '6',
        "UInt8"@.len() == 5 && "UInt8"@[0] == 'U',
        "UInt16"@.len() == 6 && "UInt16"@[4] == '1',
        "UInt32"@.len() == 6 && "UInt32"@[4] == '3',
        "UInt64"@.len() == 6 && "UInt64"@[4] == '6',
{
    reveal_strlit("Int8");
    reveal_strlit("Int16");
    reveal_strlit("Int32");
    reveal_strlit("Int64");
    reveal_strlit("UInt8");
    reveal_strlit("UInt16");
    reveal_strlit("UInt32");
    reveal_strlit("UInt64");
}

/// What is known of a column is taken over: the least value as the least and the greatest as the greatest,
/// in the type of the column, and the two counts. A column of which nothing is known stays unknown.
pub proof fn law_known_columns(
    stats: Map<Seq<char>, ColumnStatsView>,
    fields: Seq<FieldType>,
    i: int,
)
    requires
        0 <= i < fields.len(),
    ensures
        !stats.dom().contains(fields[i].name@) ==> known_columns(stats, fields)[i] is None,
        stats.dom().contains(fields[i].name@) ==> {
            let c = stats[fields[i].name@];
            &&& known_columns(stats, fields)[i] matches Some(k)
            &&& c.null_count <= usize::MAX ==> k.null_count == c.null_count
            &&& c.distinct_count is None ==> k.distinct_count is None
            &&& c.distinct_count matches Some(n) ==> k.distinct_count == Some(n as usize)
            &&& c.min_value is None ==> k.min_value is None
            &&& c.max_value is None ==> k.max_value is None
            &&& c.min_value matches Some(v) ==> k.min_value == known_value(
                Some(v),
                fields[i].data_type,
            )
            &&& c.max_value matches Some(v) ==> k.max_value == known_value(
                Some(v),
                fields[i].data_type,
            )
        },
{
}

/// The sizes of the files add up, and so do the rows of the files of which they are known.
pub proof fn law_file_figures_add_up(s: Seq<FileStatsView>, n: nat)
    requires
        n < s.len(),
    ensures
        bytes_until(s, n) + (s[n as int].size_bytes as usize) <= usize::MAX ==> bytes_until(s, n + 1)
            == bytes_until(s, n) + (s[n as int].size_bytes as usize),
        s[n as int].row_count is None ==> rows_until(s, n + 1) == rows_until(s, n),
        s[n as int].row_count matches Some(k) ==> rows_until(s, n) is None ==> rows_until(s, n + 1)
            == Some(k as usize),
        s[n as int].row_count matches Some(k) ==> rows_until(s, n) matches Some(r) ==> r + (
        k as usize) <= usize::MAX ==> rows_until(s, n + 1) == Some((r + (k as usize)) as usize),
        bytes_until(s, 0) == 0,
        rows_until(s, 0) is None,
{
}

} // verus!
