//! SQL types and the types of the columnar format that stand for them.
use vstd::prelude::*;
use vstd::string::*;

use crate::catalog_types::{ColumnDef, ColumnView};
use crate::dup::views;
use crate::json::{find_member, json_view, member_of, Json, JsonView};
use crate::numbers::{
    decimal, decimal_signed, parse_i64, parse_u64, parsed_signed, parsed_unsigned, print_i64,
    print_u64,
};
use crate::text::{
    concat2, concat3, contains, contains_seq, ends_with, from_chars, has_prefix, has_suffix, same,
    starts_with, to_chars, trim, trim_text, upper_text,
};
use crate::tree::{
    find_list, is_named, is_variant_of, list_at, print_as, printed, read_script, script, Printer,
};

verus! {

// ---------------------------------------------------------------------------
// Types as the SQL parser reads them
// ---------------------------------------------------------------------------

/// The precision and scale of an exact number.
#[derive(Clone, Copy, PartialEq, Eq, Structural)]
pub enum NumberInfo {
    Plain,
    Precision(u64),
    PrecisionAndScale(u64, i64),
}

/// A SQL type, as far as the engine tells types apart.
#[derive(Clone, Copy, PartialEq, Eq, Structural)]
pub enum SqlType {
    Boolean,
    TinyInt,
    SmallInt,
    Int,
    Integer,
    BigInt,
    Real,
    Float,
    Double,
    DoublePrecision,
    Varchar,
    Text,
    Char,
    CharVarying,
    Str,
    Date,
    Bytea,
    Blob,
    Timestamp { with_time_zone: bool },
    Numeric(NumberInfo),
    Decimal(NumberInfo),
    Dec(NumberInfo),
    Other,
}

/// The tree of the type of the first column, where the first statement is a `CREATE TABLE`.
pub open spec fn first_column_type(trees: Seq<JsonView>) -> Option<JsonView> {
    if trees.len() == 0 {
        None
    } else {
        match member_of(trees[0], "CreateTable"@) {
            None => None,
            Some(c) => match list_at(c, "columns"@) {
                Some(xs) => if xs.len() > 0 {
                    member_of(xs[0], "data_type"@)
                } else {
                    None
                },
                None => None,
            },
        }
    }
}

/// The number that a part of a tree is.
pub open spec fn unsigned_of(j: JsonView) -> Option<u64> {
    match j {
        JsonView::Atom(t) => match parsed_unsigned(t, u64::MAX as nat) {
            Some(n) => Some(n as u64),
            None => None,
        },
        _ => None,
    }
}

/// The number with sign that a part of a tree is.
pub open spec fn signed_of(j: JsonView) -> Option<i64> {
    match j {
        JsonView::Atom(t) => match parsed_signed(t) {
            Some(n) => Some(n as i64),
            None => None,
        },
        _ => None,
    }
}

/// The precision and the scale of an exact number.
pub open spec fn number_info_of(j: JsonView) -> NumberInfo {
    match member_of(j, "Precision"@) {
        Some(p) => match unsigned_of(p) {
            Some(n) => NumberInfo::Precision(n),
            None => NumberInfo::Plain,
        },
        None => match list_at(j, "PrecisionAndScale"@) {
            Some(xs) => if xs.len() == 2 {
                match (unsigned_of(xs[0]), signed_of(xs[1])) {
                    (Some(p), Some(s)) => NumberInfo::PrecisionAndScale(p, s),
                    _ => NumberInfo::Plain,
                }
            } else {
                NumberInfo::Plain
            },
            None => NumberInfo::Plain,
        },
    }
}

/// Which type a tree is.
pub open spec fn type_of(t: JsonView) -> SqlType {
    if is_variant_of(t, "Boolean"@) {
        SqlType::Boolean
    } else if is_variant_of(t, "TinyInt"@) {
        SqlType::TinyInt
    } else if is_variant_of(t, "SmallInt"@) {
        SqlType::SmallInt
    } else if is_variant_of(t, "Int"@) {
        SqlType::Int
    } else if is_variant_of(t, "Integer"@) {
        SqlType::Integer
    } else if is_variant_of(t, "BigInt"@) {
        SqlType::BigInt
    } else if is_variant_of(t, "Real"@) {
        SqlType::Real
    } else if is_variant_of(t, "Float"@) {
        SqlType::Float
    } else if is_variant_of(t, "Double"@) {
        SqlType::Double
    } else if is_variant_of(t, "DoublePrecision"@) {
        SqlType::DoublePrecision
    } else if is_variant_of(t, "Varchar"@) {
        SqlType::Varchar
    } else if is_variant_of(t, "Text"@) {
        SqlType::Text
    } else if is_variant_of(t, "Char"@) {
        SqlType::Char
    } else if is_variant_of(t, "CharVarying"@) {
        SqlType::CharVarying
    } else if is_variant_of(t, "String"@) {
        SqlType::Str
    } else if is_variant_of(t, "Date"@) {
        SqlType::Date
    } else if is_variant_of(t, "Bytea"@) {
        SqlType::Bytea
    } else if is_variant_of(t, "Blob"@) {
        SqlType::Blob
    } else {
        match (
            list_at(t, "Timestamp"@),
            member_of(t, "Numeric"@),
            member_of(t, "Decimal"@),
            member_of(t, "Dec"@),
        ) {
            (Some(xs), _, _, _) => SqlType::Timestamp {
                with_time_zone: xs.len() == 2 && is_variant_of(xs[1], "WithTimeZone"@),
            },
            (_, Some(i), _, _) => SqlType::Numeric(number_info_of(i)),
            (_, _, Some(i), _) => SqlType::Decimal(number_info_of(i)),
            (_, _, _, Some(i)) => SqlType::Dec(number_info_of(i)),
            _ => SqlType::Other,
        }
    }
}

fn read_unsigned(j: &Json) -> (r: Option<u64>)
    ensures
        r == unsigned_of(j@),
{
    match j {
        Json::Atom(t) => parse_u64(t),
        _ => None,
    }
}

fn read_signed(j: &Json) -> (r: Option<i64>)
    ensures
        r == signed_of(j@),
{
    match j {
        Json::Atom(t) => parse_i64(t),
        _ => None,
    }
}

fn read_number_info(j: &Json) -> (r: NumberInfo)
    ensures
        r == number_info_of(j@),
{
    if let Some(p) = find_member(j, "Precision") {
        return match read_unsigned(p) {
            Some(n) => NumberInfo::Precision(n),
            None => NumberInfo::Plain,
        };
    }
    match find_list(j, "PrecisionAndScale") {
        Some(v) => {
            if v.len() != 2 {
                return NumberInfo::Plain;
            }
            let ghost xs = list_at(j@, "PrecisionAndScale"@)->0;
            assert(xs[0] == json_view(v@[0]));
            assert(xs[1] == json_view(v@[1]));
            match (read_unsigned(&v[0]), read_signed(&v[1])) {
                (Some(p), Some(s)) => NumberInfo::PrecisionAndScale(p, s),
                _ => NumberInfo::Plain,
            }
        },
        None => NumberInfo::Plain,
    }
}

/// Which type a tree is.
pub fn read_type(t: &Json) -> (r: SqlType)
    ensures
        r == type_of(t@),
{
    if is_named(t, "Boolean") {
        SqlType::Boolean
    } else if is_named(t, "TinyInt") {
        SqlType::TinyInt
    } else if is_named(t, "SmallInt") {
        SqlType::SmallInt
    } else if is_named(t, "Int") {
        SqlType::Int
    } else if is_named(t, "Integer") {
        SqlType::Integer
    } else if is_named(t, "BigInt") {
        SqlType::BigInt
    } else if is_named(t, "Real") {
        SqlType::Real
    } else if is_named(t, "Float") {
        SqlType::Float
    } else if is_named(t, "Double") {
        SqlType::Double
    } else if is_named(t, "DoublePrecision") {
        SqlType::DoublePrecision
    } else if is_named(t, "Varchar") {
        SqlType::Varchar
    } else if is_named(t, "Text") {
        SqlType::Text
    } else if is_named(t, "Char") {
        SqlType::Char
    } else if is_named(t, "CharVarying") {
        SqlType::CharVarying
    } else if is_named(t, "String") {
        SqlType::Str
    } else if is_named(t, "Date") {
        SqlType::Date
    } else if is_named(t, "Bytea") {
        SqlType::Bytea
    } else if is_named(t, "Blob") {
        SqlType::Blob
    } else {
        if let Some(v) = find_list(t, "Timestamp") {
            let ghost xs = list_at(t@, "Timestamp"@)->0;
            if v.len() != 2 {
                return SqlType::Timestamp { with_time_zone: false };
            }
            assert(xs[1] == json_view(v@[1]));
            return SqlType::Timestamp { with_time_zone: is_named(&v[1], "WithTimeZone") };
        }
        if let Some(i) = find_member(t, "Numeric") {
            return SqlType::Numeric(read_number_info(i));
        }
        if let Some(i) = find_member(t, "Decimal") {
            return SqlType::Decimal(read_number_info(i));
        }
        match find_member(t, "Dec") {
            Some(i) => SqlType::Dec(read_number_info(i)),
            None => SqlType::Other,
        }
    }
}

fn find_column_type<'a>(v: &'a Vec<Json>, Ghost(xs): Ghost<Seq<JsonView>>) -> (r: Option<&'a Json>)
    requires
        crate::tree::lists(v@, xs),
    ensures
        match r {
            Some(t) => first_column_type(xs) == Some(t@),
            None => first_column_type(xs) is None,
        },
{
    if v.len() == 0 {
        return None;
    }
    assert(xs[0] == json_view(v@[0]));
    match find_member(&v[0], "CreateTable") {
        None => None,
        Some(c) => match find_list(c, "columns") {
            Some(cols) => {
                if cols.len() == 0 {
                    return None;
                }
                let ghost cv = list_at(c@, "columns"@)->0;
                assert(cv[0] == json_view(cols@[0]));
                find_member(&cols[0], "data_type")
            },
            None => None,
        },
    }
}

// ---------------------------------------------------------------------------
// Types of columns
// ---------------------------------------------------------------------------

/// The type of a column in the columnar format.
pub enum ArrowType {
    Boolean,
    Int8,
    UInt8,
    Int16,
    UInt16,
    Int32,
    UInt32,
    Int64,
    UInt64,
    Float16,
    Float32,
    Float64,
    Utf8,
    Date32,
    Date64,
    /// A point in time, with a time zone or without.
    Timestamp { zoned: bool },
    /// A span of time.
    Interval,
    /// Byte strings of one length.
    FixedSizeBinary(i32),
    List(Box<ArrowType>),
    LargeList(Box<ArrowType>),
    /// Decimal numbers with a precision and a scale.
    Decimal128(u8, i8),
    Binary,
    LargeBinary,
    Other,
}

/// The lowest eight bits of `n` as a number without sign.
pub open spec fn low_byte(n: u64) -> u8 {
    (n % 256) as u8
}

/// The lowest eight bits of `n` as a number with sign.
pub open spec fn low_signed_byte(n: i64) -> i8 {
    let m = (n as int) % 256;
    if m < 128 {
        m as i8
    } else {
        (m - 256) as i8
    }
}

/// The decimal type that a precision and a scale stand for.
pub open spec fn decimal_type(info: NumberInfo) -> ArrowType {
    match info {
        NumberInfo::Plain => ArrowType::Decimal128(38, 10),
        NumberInfo::Precision(p) => ArrowType::Decimal128(low_byte(p), 0),
        NumberInfo::PrecisionAndScale(p, s) => ArrowType::Decimal128(
            low_byte(p),
            low_signed_byte(s),
        ),
    }
}

/// The column type of a plain SQL type.
pub open spec fn plain_type(t: SqlType) -> Option<ArrowType> {
    match t {
        SqlType::Boolean => Some(ArrowType::Boolean),
        SqlType::TinyInt => Some(ArrowType::Int8),
        SqlType::SmallInt => Some(ArrowType::Int16),
        SqlType::Int => Some(ArrowType::Int32),
        SqlType::Integer => Some(ArrowType::Int32),
        SqlType::BigInt => Some(ArrowType::Int64),
        SqlType::Real => Some(ArrowType::Float32),
        SqlType::Float => Some(ArrowType::Float64),
        SqlType::Double => Some(ArrowType::Float64),
        SqlType::DoublePrecision => Some(ArrowType::Float64),
        SqlType::Varchar => Some(ArrowType::Utf8),
        SqlType::Text => Some(ArrowType::Utf8),
        SqlType::Char => Some(ArrowType::Utf8),
        SqlType::CharVarying => Some(ArrowType::Utf8),
        SqlType::Str => Some(ArrowType::Utf8),
        SqlType::Date => Some(ArrowType::Date32),
        SqlType::Timestamp { with_time_zone } => Some(
            ArrowType::Timestamp { zoned: with_time_zone },
        ),
        SqlType::Numeric(i) => Some(decimal_type(i)),
        SqlType::Decimal(i) => Some(decimal_type(i)),
        SqlType::Dec(i) => Some(decimal_type(i)),
        SqlType::Bytea => Some(ArrowType::Binary),
        SqlType::Blob => Some(ArrowType::Binary),
        SqlType::Other => None,
    }
}

/// The element type of a list type that is written `T[]` or `ARRAY<T>`, in upper case.
pub open spec fn element_text(upper: Seq<char>) -> Option<Seq<char>> {
    let plain = trim_text(upper.subrange(0, upper.len() - 2));
    if has_suffix(upper, "[]"@) && upper.len() >= 2 && plain.len() > 0 {
        Some(plain)
    } else if has_prefix(upper, "ARRAY<"@) && upper.len() >= 7 && upper.last() == '>' {
        Some(trim_text(upper.subrange(6, upper.len() - 1)))
    } else {
        None
    }
}

/// The column type of a type that is told by its name, in upper case.
pub open spec fn named_type(upper: Seq<char>) -> Option<ArrowType> {
    if upper == "UUID"@ {
        Some(ArrowType::FixedSizeBinary(16))
    } else if has_prefix(upper, "INTERVAL"@) {
        Some(ArrowType::Interval)
    } else if upper == "JSON"@ || upper == "JSONB"@ {
        Some(ArrowType::Utf8)
    } else {
        None
    }
}

/// The statement by which a type is parsed.
pub open spec fn type_probe(sql_type: Seq<char>) -> Seq<char> {
    "CREATE TABLE _t (_c "@ + sql_type + ")"@
}

/// The column type of a SQL type. A list is at most `depth` deep.
pub open spec fn column_type(sql_type: Seq<char>, depth: nat) -> Result<ArrowType, Seq<char>>
    decreases depth,
{
    match script(type_probe(sql_type)) {
        Err(e) => Err(e),
        Ok(trees) => match first_column_type(trees) {
            None => Err("Cannot parse SQL type: "@ + sql_type),
            Some(t) => match printed(Printer::DataType, t) {
                None => Err("Cannot parse SQL type: "@ + sql_type),
                Some(printed) => {
                    let upper = upper_text(printed);
                    match named_type(upper) {
                        Some(t) => Ok(t),
                        None => match element_text(upper) {
                            Some(inner) => if depth == 0 {
                                Err("Cannot parse SQL type: "@ + sql_type)
                            } else {
                                match column_type(inner, (depth - 1) as nat) {
                                    Err(e) => Err(e),
                                    Ok(t) => Ok(ArrowType::List(Box::new(t))),
                                }
                            },
                            None => match plain_type(type_of(t)) {
                                Some(t) => Ok(t),
                                None => Err("Unsupported SQL type: "@ + printed),
                            },
                        },
                    }
                },
            },
        },
    }
}

fn signed_byte(n: i64) -> (r: i8)
    ensures
        r == low_signed_byte(n),
{
    let m: i64 = if n >= 0 {
        n % 256
    } else {
        let k: i64 = -(n + 1);
        255 - k % 256
    };
    assert(m == (n as int) % 256);
    if m < 128 {
        m as i8
    } else {
        (m - 256) as i8
    }
}

fn decimal_of(info: NumberInfo) -> (r: ArrowType)
    ensures
        r == decimal_type(info),
{
    match info {
        NumberInfo::Plain => ArrowType::Decimal128(38, 10),
        NumberInfo::Precision(p) => ArrowType::Decimal128((p % 256) as u8, 0),
        NumberInfo::PrecisionAndScale(p, s) => ArrowType::Decimal128(
            (p % 256) as u8,
            signed_byte(s),
        ),
    }
}

/// The column type of a plain SQL type.
pub fn plain_column_type(t: SqlType) -> (r: Option<ArrowType>)
    ensures
        r == plain_type(t),
{
    match t {
        SqlType::Boolean => Some(ArrowType::Boolean),
        SqlType::TinyInt => Some(ArrowType::Int8),
        SqlType::SmallInt => Some(ArrowType::Int16),
        SqlType::Int | SqlType::Integer => Some(ArrowType::Int32),
        SqlType::BigInt => Some(ArrowType::Int64),
        SqlType::Real => Some(ArrowType::Float32),
        SqlType::Float | SqlType::Double | SqlType::DoublePrecision => Some(ArrowType::Float64),
        SqlType::Varchar | SqlType::Text | SqlType::Char | SqlType::CharVarying | SqlType::Str => {
            Some(ArrowType::Utf8)
        },
        SqlType::Date => Some(ArrowType::Date32),
        SqlType::Timestamp { with_time_zone } => Some(
            ArrowType::Timestamp { zoned: with_time_zone },
        ),
        SqlType::Numeric(i) => Some(decimal_of(i)),
        SqlType::Decimal(i) => Some(decimal_of(i)),
        SqlType::Dec(i) => Some(decimal_of(i)),
        SqlType::Bytea | SqlType::Blob => Some(ArrowType::Binary),
        SqlType::Other => None,
    }
}

/// The column type of a type that is told by its name, in upper case.
pub fn named_column_type(upper: &str) -> (r: Option<ArrowType>)
    ensures
        r == named_type(upper@),
{
    if same(upper, "UUID") {
        return Some(ArrowType::FixedSizeBinary(16));
    }
    if starts_with(upper, "INTERVAL") {
        return Some(ArrowType::Interval);
    }
    if same(upper, "JSON") || same(upper, "JSONB") {
        return Some(ArrowType::Utf8);
    }
    None
}

/// The element type of a list type that is written `T[]` or `ARRAY<T>`, in upper case.
pub fn element_of(upper: &str) -> (r: Option<String>)
    ensures
        crate::text::opt_text(r) == element_text(upper@),
{
    let v = to_chars(upper);
    if ends_with(upper, "[]") {
        proof {
            reveal_strlit("[]");
        }
        let inner = from_chars(&v, 0, v.len() - 2);
        let plain = trim(&inner);
        if !plain.as_str().is_empty() {
            return Some(plain);
        }
    }
    if starts_with(upper, "ARRAY<") && v.len() >= 7 && v[v.len() - 1] == '>' {
        let inner = from_chars(&v, 6, v.len() - 1);
        return Some(trim(&inner));
    }
    None
}

fn arrow_within(sql_type: &str, depth: usize) -> (r: Result<ArrowType, String>)
    ensures
        match r {
            Ok(t) => column_type(sql_type@, depth as nat) == Ok::<ArrowType, Seq<char>>(t),
            Err(e) => column_type(sql_type@, depth as nat) == Err::<ArrowType, Seq<char>>(e@),
        },
    decreases depth,
{
    let probe = concat3("CREATE TABLE _t (_c ", sql_type, ")");
    let trees = match read_script(&probe) {
        Err(e) => {
            return Err(e);
        },
        Ok(v) => v,
    };
    let tree = match find_column_type(&trees, Ghost(script(probe@)->Ok_0)) {
        None => {
            return Err(concat2("Cannot parse SQL type: ", sql_type));
        },
        Some(t) => t,
    };
    let printed = match print_as(Printer::DataType, tree) {
        None => {
            return Err(concat2("Cannot parse SQL type: ", sql_type));
        },
        Some(t) => t,
    };
    let upper = printed.to_uppercase();
    if let Some(t) = named_column_type(&upper) {
        return Ok(t);
    }
    match element_of(&upper) {
        Some(inner) => {
            if depth == 0 {
                return Err(concat2("Cannot parse SQL type: ", sql_type));
            }
            match arrow_within(&inner, depth - 1) {
                Err(e) => Err(e),
                Ok(t) => Ok(ArrowType::List(Box::new(t))),
            }
        },
        None => match plain_column_type(read_type(tree)) {
            Some(t) => Ok(t),
            None => Err(concat2("Unsupported SQL type: ", &printed)),
        },
    }
}

/// The column type of a SQL type. A list is at most as deep as its text is long.
pub fn sql_string_to_arrow(sql_type: &str) -> (r: Result<ArrowType, String>)
    ensures
        match r {
            Ok(t) => column_type(sql_type@, sql_type@.len()) == Ok::<ArrowType, Seq<char>>(t),
            Err(e) => column_type(sql_type@, sql_type@.len()) == Err::<ArrowType, Seq<char>>(e@),
        },
{
    let v = to_chars(sql_type);
    arrow_within(sql_type, v.len())
}

/// The types of the first `n` columns, or the complaint about the first type that is not known.
pub open spec fn schema_types(columns: Seq<ColumnView>, n: nat) -> Result<Seq<ArrowType>, Seq<char>>
    decreases n,
{
    if n == 0 || n > columns.len() {
        Ok(Seq::empty())
    } else {
        match schema_types(columns, (n - 1) as nat) {
            Err(e) => Err(e),
            Ok(ts) => match column_type(columns[n - 1].data_type, columns[n - 1].data_type.len()) {
                Err(e) => Err(e),
                Ok(t) => Ok(ts.push(t)),
            },
        }
    }
}

proof fn lemma_schema_error(columns: Seq<ColumnView>, i: nat, n: nat)
    requires
        i <= n <= columns.len(),
        schema_types(columns, i) is Err,
    ensures
        schema_types(columns, n) == schema_types(columns, i),
    decreases n - i,
{
    if i < n {
        lemma_schema_error(columns, i, (n - 1) as nat);
    }
}

/// The types of the columns of a table.
pub fn columns_to_schema(columns: &Vec<ColumnDef>) -> (r: Result<Vec<ArrowType>, String>)
    ensures
        match r {
            Ok(ts) => schema_types(views(columns@), columns@.len()) == Ok::<
                Seq<ArrowType>,
                Seq<char>,
            >(ts@),
            Err(e) => schema_types(views(columns@), columns@.len()) == Err::<
                Seq<ArrowType>,
                Seq<char>,
            >(e@),
        },
{
    let mut out: Vec<ArrowType> = Vec::new();
    let ghost cv = views(columns@);
    let mut i: usize = 0;
    assert(out@ == Seq::<ArrowType>::empty());
    while i < columns.len()
        invariant
            i <= columns@.len(),
            cv == views(columns@),
            cv.len() == columns@.len(),
            schema_types(cv, i as nat) == Ok::<Seq<ArrowType>, Seq<char>>(out@),
        decreases columns@.len() - i,
    {
        assert(cv[i as int] == columns@[i as int]@);
        match sql_string_to_arrow(&columns[i].data_type) {
            Err(e) => {
                proof {
                    assert(schema_types(cv, (i + 1) as nat) == Err::<Seq<ArrowType>, Seq<char>>(
                        e@,
                    ));
                    lemma_schema_error(cv, (i + 1) as nat, columns@.len());
                }
                return Err(e);
            },
            Ok(t) => {
                out.push(t);
            },
        }
        i += 1;
    }
    Ok(out)
}

// ---------------------------------------------------------------------------
// From columns to SQL
// ---------------------------------------------------------------------------

/// The SQL type that stands for a column type.
pub open spec fn sql_name(t: ArrowType) -> Seq<char>
    decreases t,
{
    match t {
        ArrowType::Boolean => "BOOLEAN"@,
        ArrowType::Int8 => "TINYINT"@,
        ArrowType::UInt8 => "TINYINT"@,
        ArrowType::Int16 => "SMALLINT"@,
        ArrowType::UInt16 => "SMALLINT"@,
        ArrowType::Int32 => "INT"@,
        ArrowType::UInt32 => "INT"@,
        ArrowType::Int64 => "BIGINT"@,
        ArrowType::UInt64 => "BIGINT"@,
        ArrowType::Float16 => "REAL"@,
        ArrowType::Float32 => "REAL"@,
        ArrowType::Float64 => "DOUBLE"@,
        ArrowType::Date32 => "DATE"@,
        ArrowType::Date64 => "DATE"@,
        ArrowType::Timestamp { zoned } => if zoned {
            "TIMESTAMP WITH TIME ZONE"@
        } else {
            "TIMESTAMP"@
        },
        ArrowType::Interval => "INTERVAL"@,
        ArrowType::FixedSizeBinary(n) => if n == 16 {
            "UUID"@
        } else {
            "VARCHAR"@
        },
        ArrowType::List(inner) => sql_name(*inner) + "[]"@,
        ArrowType::LargeList(inner) => sql_name(*inner) + "[]"@,
        ArrowType::Decimal128(p, s) => "DECIMAL("@ + decimal(p as nat) + ","@ + decimal_signed(
            s as int,
        ) + ")"@,
        ArrowType::Binary => "BYTEA"@,
        ArrowType::LargeBinary => "BYTEA"@,
        ArrowType::Utf8 => "VARCHAR"@,
        ArrowType::Other => "VARCHAR"@,
    }
}

/// The SQL type that stands for a column type, as `CREATE TABLE ... AS SELECT` records it.
pub fn arrow_type_to_sql_string(t: &ArrowType) -> (r: String)
    ensures
        r@ == sql_name(*t),
    decreases t,
{
    match t {
        ArrowType::Boolean => "BOOLEAN".to_owned(),
        ArrowType::Int8 | ArrowType::UInt8 => "TINYINT".to_owned(),
        ArrowType::Int16 | ArrowType::UInt16 => "SMALLINT".to_owned(),
        ArrowType::Int32 | ArrowType::UInt32 => "INT".to_owned(),
        ArrowType::Int64 | ArrowType::UInt64 => "BIGINT".to_owned(),
        ArrowType::Float16 | ArrowType::Float32 => "REAL".to_owned(),
        ArrowType::Float64 => "DOUBLE".to_owned(),
        ArrowType::Date32 | ArrowType::Date64 => "DATE".to_owned(),
        ArrowType::Timestamp { zoned } => if *zoned {
            "TIMESTAMP WITH TIME ZONE".to_owned()
        } else {
            "TIMESTAMP".to_owned()
        },
        ArrowType::Interval => "INTERVAL".to_owned(),
        ArrowType::FixedSizeBinary(n) => if *n == 16 {
            "UUID".to_owned()
        } else {
            "VARCHAR".to_owned()
        },
        ArrowType::List(inner) => concat2(&arrow_type_to_sql_string(inner), "[]"),
        ArrowType::LargeList(inner) => concat2(&arrow_type_to_sql_string(inner), "[]"),
        ArrowType::Decimal128(p, s) => {
            let head = concat3("DECIMAL(", &print_u64(*p as u64), ",");
            concat3(&head, &print_i64(*s as i64), ")")
        },
        ArrowType::Binary | ArrowType::LargeBinary => "BYTEA".to_owned(),
        ArrowType::Utf8 | ArrowType::Other => "VARCHAR".to_owned(),
    }
}

/// The number by which PostgreSQL knows a type, given in upper case.
pub open spec fn pg_oid(upper: Seq<char>) -> i32 {
    if contains_seq(upper, "BIGINT"@) {
        20
    } else if contains_seq(upper, "SMALLINT"@) {
        21
    } else if contains_seq(upper, "INT"@) {
        23
    } else if contains_seq(upper, "VARCHAR"@) || contains_seq(upper, "CHAR"@) {
        1043
    } else if contains_seq(upper, "BOOL"@) {
        16
    } else if contains_seq(upper, "FLOAT"@) || contains_seq(upper, "DOUBLE"@) {
        701
    } else if contains_seq(upper, "REAL"@) {
        700
    } else if contains_seq(upper, "TEXT"@) {
        25
    } else if contains_seq(upper, "TIMESTAMP"@) {
        1114
    } else if contains_seq(upper, "DATE"@) {
        1082
    } else if contains_seq(upper, "UUID"@) {
        2950
    } else if contains_seq(upper, "DECIMAL"@) || contains_seq(upper, "NUMERIC"@) {
        1700
    } else {
        25
    }
}

/// The number by which PostgreSQL knows a SQL type.
pub fn sql_type_to_pg_oid(sql_type: &str) -> (r: i32)
    ensures
        r == pg_oid(upper_text(sql_type@)),
{
    let upper = sql_type.to_uppercase();
    let u = upper.as_str();
    if contains(u, "BIGINT") {
        20
    } else if contains(u, "SMALLINT") {
        21
    } else if contains(u, "INT") {
        23
    } else if contains(u, "VARCHAR") || contains(u, "CHAR") {
        1043
    } else if contains(u, "BOOL") {
        16
    } else if contains(u, "FLOAT") || contains(u, "DOUBLE") {
        701
    } else if contains(u, "REAL") {
        700
    } else if contains(u, "TEXT") {
        25
    } else if contains(u, "TIMESTAMP") {
        1114
    } else if contains(u, "DATE") {
        1082
    } else if contains(u, "UUID") {
        2950
    } else if contains(u, "DECIMAL") || contains(u, "NUMERIC") {
        1700
    } else {
        25
    }
}

/// The name under which a type is written down is the name of a type that reads as the same one.
pub proof fn law_written_types_read_back(p: u64, s: i64, zoned: bool)
    requires
        p < 256,
        -128 <= s < 128,
    ensures
        sql_name(plain_type(SqlType::Boolean)->0) == "BOOLEAN"@,
        sql_name(plain_type(SqlType::TinyInt)->0) == "TINYINT"@,
        sql_name(plain_type(SqlType::SmallInt)->0) == "SMALLINT"@,
        sql_name(plain_type(SqlType::Int)->0) == "INT"@,
        sql_name(plain_type(SqlType::BigInt)->0) == "BIGINT"@,
        sql_name(plain_type(SqlType::Real)->0) == "REAL"@,
        sql_name(plain_type(SqlType::Double)->0) == "DOUBLE"@,
        sql_name(plain_type(SqlType::Varchar)->0) == "VARCHAR"@,
        sql_name(plain_type(SqlType::Date)->0) == "DATE"@,
        sql_name(plain_type(SqlType::Bytea)->0) == "BYTEA"@,
        sql_name(plain_type(SqlType::Timestamp { with_time_zone: zoned })->0) == if zoned {
            "TIMESTAMP WITH TIME ZONE"@
        } else {
            "TIMESTAMP"@
        },
        sql_name(plain_type(SqlType::Decimal(NumberInfo::PrecisionAndScale(p, s)))->0)
            == "DECIMAL("@ + decimal(p as nat) + ","@ + decimal_signed(s as int) + ")"@,
        plain_type(SqlType::Integer) == plain_type(SqlType::Int),
        plain_type(SqlType::DoublePrecision) == plain_type(SqlType::Double),
        plain_type(SqlType::Float) == plain_type(SqlType::Double),
        plain_type(SqlType::Text) == plain_type(SqlType::Varchar),
        plain_type(SqlType::Char) == plain_type(SqlType::Varchar),
        plain_type(SqlType::CharVarying) == plain_type(SqlType::Varchar),
        plain_type(SqlType::Str) == plain_type(SqlType::Varchar),
        plain_type(SqlType::Blob) == plain_type(SqlType::Bytea),
        plain_type(SqlType::Other) is None,
{
}

/// The three names of a decimal stand for the same type. One with a precision alone has no digits behind
/// the point.
pub proof fn law_decimals_agree(i: NumberInfo, p: u64)
    ensures
        plain_type(SqlType::Numeric(i)) == plain_type(SqlType::Decimal(i)),
        plain_type(SqlType::Dec(i)) == plain_type(SqlType::Decimal(i)),
        decimal_type(NumberInfo::Precision(p)) == decimal_type(
            NumberInfo::PrecisionAndScale(p, 0),
        ),
{
}

/// The number of a type goes by the names that its text holds; a longer name goes before one that is a
/// part of it, and an unknown type is a text.
pub proof fn law_type_numbers(upper: Seq<char>)
    ensures
        ({
            let whole = contains_seq(upper, "BIGINT"@) || contains_seq(upper, "SMALLINT"@)
                || contains_seq(upper, "INT"@);
            let chars = contains_seq(upper, "VARCHAR"@) || contains_seq(upper, "CHAR"@);
            let truth = contains_seq(upper, "BOOL"@);
            let broken = contains_seq(upper, "FLOAT"@) || contains_seq(upper, "DOUBLE"@);
            let single = contains_seq(upper, "REAL"@);
            let text = contains_seq(upper, "TEXT"@);
            let stamp = contains_seq(upper, "TIMESTAMP"@);
            let date = contains_seq(upper, "DATE"@);
            let uuid = contains_seq(upper, "UUID"@);
            let exact = contains_seq(upper, "DECIMAL"@) || contains_seq(upper, "NUMERIC"@);
            &&& contains_seq(upper, "BIGINT"@) ==> pg_oid(upper) == 20
            &&& contains_seq(upper, "SMALLINT"@) && !contains_seq(upper, "BIGINT"@) ==> pg_oid(upper)
                == 21
            &&& contains_seq(upper, "INT"@) && !contains_seq(upper, "BIGINT"@) && !contains_seq(
                upper,
                "SMALLINT"@,
            ) ==> pg_oid(upper) == 23
            &&& !whole && chars ==> pg_oid(upper) == 1043
            &&& !whole && !chars && truth ==> pg_oid(upper) == 16
            &&& !whole && !chars && !truth && broken ==> pg_oid(upper) == 701
            &&& !whole && !chars && !truth && !broken && single ==> pg_oid(upper) == 700
            &&& !whole && !chars && !truth && !broken && !single && text ==> pg_oid(upper) == 25
            &&& !whole && !chars && !truth && !broken && !single && !text && stamp ==> pg_oid(upper)
                == 1114
            &&& !whole && !chars && !truth && !broken && !single && !text && !stamp && date
                ==> pg_oid(upper) == 1082
            &&& !whole && !chars && !truth && !broken && !single && !text && !stamp && !date && uuid
                ==> pg_oid(upper) == 2950
            &&& !whole && !chars && !truth && !broken && !single && !text && !stamp && !date && !uuid
                && exact ==> pg_oid(upper) == 1700
        }),
{
}

/// A list is a list of what its elements are, in either way of writing.
pub proof fn law_element_types(inner: Seq<char>)
    requires
        inner.len() > 0,
        trim_text(inner) == inner,
    ensures
        element_text(inner + seq!['[', ']']) == Some(inner),
{
    let upper = inner + seq!['[', ']'];
    assert(upper.subrange(0, upper.len() - 2) =~= inner);
    reveal_strlit("[]");
    assert(upper.subrange(upper.len() - 2, upper.len() as int) =~= "[]"@);
}

/// The types that have only a name: a UUID has sixteen bytes, and JSON is a text.
pub proof fn law_named_types(upper: Seq<char>)
    ensures
        named_type("UUID"@) == Some(ArrowType::FixedSizeBinary(16)),
        has_prefix(upper, "INTERVAL"@) && upper != "UUID"@ ==> named_type(upper) == Some(
            ArrowType::Interval,
        ),
        upper == "JSON"@ || upper == "JSONB"@ ==> named_type(upper) == Some(ArrowType::Utf8),
        sql_name(named_type("UUID"@)->0) == "UUID"@,
{
    reveal_strlit("UUID");
    reveal_strlit("INTERVAL");
    reveal_strlit("JSON");
    reveal_strlit("JSONB");
    assert("UUID"@[0] == 'U' && "INTERVAL"@[0] == 'I' && "JSON"@[0] == 'J' && "JSONB"@[0] == 'J');
    if has_prefix(upper, "INTERVAL"@) {
        assert(upper.subrange(0, "INTERVAL"@.len() as int)[0] == upper[0]);
    }
}

} // verus!
