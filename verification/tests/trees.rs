//! Trees of queries, statistics of files, and what callers in C are told.
use arrow::array::{BooleanArray, Int32Array, StringArray};
use arrow::datatypes::{DataType, Field, Schema};
use arrow::record_batch::RecordBatch;
use potatodb::catalog::Catalog;
use potatodb::catalog_types::{ColumnDef, ColumnStatistics, FileStats, TableMeta, TableStatistics};
use potatodb::cells::Cell;
use potatodb::display::Batch;
use potatodb::ffi::{
    collect_column_names, column_type, count_for_caller, is_c_text, potato_column_type,
    potato_execute_prepared, potato_flush_table, potato_open, potato_prepare,
    potato_result_get_bool, potato_result_get_column_type, potato_result_get_int,
    potato_result_get_timestamp, potato_result_is_null, potato_result_kind, read_table_argument,
    resolve_row, TimeScale,
};
use potatodb::json::{find_member, parse_json, push_json, Json};
use potatodb::namemap::NameMap;
use potatodb::numbers::{parse_i64, parse_u64, parse_usize, print_i64, print_u64};
use potatodb::printable::can_print;
use potatodb::query_tree::{
    extract_table_names_from_readonly_sql, find_tables, retry_in_days, rewrite_date_subtraction_sql,
    rewrite_tree,
};
use potatodb::stats::{
    base_name, catalog_stats_to_df, collect_minmax_from_parquet, file_stats_to_df,
    list_parquet_files, parquet_file_count, parse_scalar_value, refresh_table_file_stats_light,
    scalar_with, table_oldest_file_age_secs, table_total_bytes, ColumnRange, FieldType, Scalar,
    StoredFile,
};
use potatodb::statement::{read_relation, read_row, ParsedRelation};
use potatodb::tables::parse_create_table;
use std::sync::Arc;

fn names(list: &[&str]) -> Vec<String> {
    list.iter().map(|s| s.to_string()).collect()
}

fn batch(ids: Vec<Option<i32>>) -> Batch {
    let n = ids.len();
    let schema = Schema::new(vec![
        Field::new("id", DataType::Int32, true),
        Field::new("name", DataType::Utf8, true),
    ]);
    Batch {
        records: RecordBatch::try_new(
            Arc::new(schema),
            vec![
                Arc::new(Int32Array::from(ids)),
                Arc::new(StringArray::from(vec!["x"; n])),
            ],
        )
        .unwrap(),
    }
}

fn stored(path: &str, size: u64, age_secs: i64) -> StoredFile {
    StoredFile { path: path.to_string(), size, changed_at: 1000, age_secs }
}

#[test]
fn json_texts_print_as_they_were() {
    for text in ["{\"a\":[1,\"x\\\"y\",null],\"b\":{}}", "[]", "true", "\"\\\\\"", "[[1],[2,3]]"] {
        let j = parse_json(text).unwrap();
        let mut out = String::new();
        push_json(&mut out, &j);
        assert_eq!(out, text);
    }
    for text in ["", "[1", "{\"a\"}", "\"x", "[1,]x", "1]"] {
        assert!(parse_json(text).is_none(), "{text}");
    }
    let j = parse_json("{\"a\":1,\"b\":2}").unwrap();
    assert!(matches!(find_member(&j, "b"), Some(Json::Atom(t)) if t == "2"));
    assert!(find_member(&j, "c").is_none());
}

#[test]
fn trees_that_cannot_be_printed_are_told() {
    for text in [
        "{\"value\":\"a\",\"quote_style\":null}",
        "{\"value\":\"a\",\"quote_style\":\"\\\"\"}",
        "{\"value\":\"a\",\"quote_style\":\"'\"}",
        "{\"value\":\"a\",\"quote_style\":\"[\",\"keyword\":\"NoKeyword\"}",
        "[\"a\",\"`\",{\"start\":{},\"end\":{}}]",
        "[\"a\",\"x\",{}]",
        "[\"Delete\",\"Truncate\",{\"Select\":{\"columns\":null}}]",
        "[\"Text\",\"Date\",{\"Int\":null}]",
        "[\"a\",\"x\",[1,2]]",
        "[{\"Table\":null},{\"Table\":[{\"name\":1},{}]}]",
        "{\"leading_field\":{\"Week\":null},\"leading_precision\":2,\"last_field\":\"Second\",\"fractional_seconds_precision\":3}",
        "{\"leading_field\":null,\"leading_precision\":2,\"last_field\":\"Second\",\"fractional_seconds_precision\":3}",
        "[\"1\",false]",
        "{\"leading_field\":\"Day\",\"leading_precision\":2,\"last_field\":\"Second\",\"fractional_seconds_precision\":3}",
        "{\"leading_field\":\"Second\",\"leading_precision\":2,\"last_field\":null,\"fractional_seconds_precision\":3}",
        "{\"body\":{\"Table\":{\"table_name\":\"t\",\"schema_name\":null}}}",
        "{\"relation\":{\"Table\":{\"name\":[]}}}",
        "{\"limit\":null,\"limit_by\":[]}",
    ] {
        assert!(can_print(text), "{text}");
    }
    for text in [
        "{\"value\":\"a\",\"quote_style\":\"x\"}",
        "{\"value\":\"a\",\"quote_style\":\"\\u0078\"}",
        "{\"value\":\"a\",\"quote_\\u0073tyle\":\"x\"}",
        "{\"value\":\"a\",\"quote_style\":\"'\",\"keyword\":\"NoKeyword\"}",
        "[\"a\",\"x\",{\"start\":{},\"end\":{}}]",
        "[\"a\",\"x\",[[1,2],{\"line\":1,\"column\":3}]]",
        "{\"leading_field\":{\"Second\":null},\"leading_precision\":2,\"last_field\":\"Second\",\"fractional_seconds_precision\":3}",
        "{\"Word\":[\"a\",\"x\",\"NoKeyword\"]}",
        "{\"leading_field\":\"Second\",\"leading_precision\":2,\"last_field\":\"Second\",\"fractional_seconds_precision\":3}",
        "{\"generated_as\":\"ExpStored\",\"generated_keyword\":true,\"generation_expr\":null}",
        "{\"columns\":[],\"external\":true,\"location\":null}",
        "{\"limit\":null,\"limit_by\":[1]}",
        "{\"body\":{\"Table\":{\"table_name\":null,\"schema_name\":null}}}",
        "[{\"Table\":[null,null]}]",
        "[ 1]",
        "",
    ] {
        assert!(!can_print(text), "{text}");
    }
    let value = |quote: &str| {
        let ident = "{\"value\":\"a\",\"quote_style\":Q,\"span\":{\"start\":{\"line\":1,\"column\":1},\"end\":{\"line\":1,\"column\":2}}}";
        parse_json(&format!("[{{\"Identifier\":{}}}]", ident.replace('Q', quote))).unwrap()
    };
    assert_eq!(read_row(&value("null")).unwrap().values, names(&["a"]));
    assert_eq!(read_row(&value("\"`\"")).unwrap().values, names(&["`a`"]));
    assert!(read_row(&value("\"x\"")).is_none());
    let other = parse_json("{\"UNNEST\":{\"quote_style\":\"x\"}}").unwrap();
    assert!(!matches!(read_relation(&other), Some(ParsedRelation::Other { .. })));
    assert!(parse_create_table("CREATE EXTERNAL TABLE t (a INT)").is_none());
    assert!(parse_create_table("CREATE EXTERNAL TABLE t (a INT) LOCATION '/x'").is_some());
}

#[test]
fn differences_become_days() {
    assert_eq!(
        rewrite_date_subtraction_sql("SELECT a - b FROM t").unwrap(),
        "SELECT CAST((date_part('epoch', (a - b)) / 86400) AS BIGINT) FROM t"
    );
    assert_eq!(
        rewrite_date_subtraction_sql("SELECT (a - b) * 2 AS d FROM t").unwrap(),
        "SELECT (CAST((date_part('epoch', (a - b)) / 86400) AS BIGINT)) * 2 AS d FROM t"
    );
    assert_eq!(
        rewrite_date_subtraction_sql("WITH q AS (SELECT a - b AS x FROM t) SELECT x FROM q").unwrap(),
        "WITH q AS (SELECT CAST((date_part('epoch', (a - b)) / 86400) AS BIGINT) AS x FROM t) SELECT x FROM q"
    );
    assert_eq!(rewrite_date_subtraction_sql("SELECT a FROM t WHERE a - b > 1").unwrap(), "SELECT a FROM t WHERE a - b > 1");
    assert!(rewrite_date_subtraction_sql("DELETE FROM t").is_none());
    assert!(rewrite_date_subtraction_sql("nonsense here").is_none());
}

#[test]
fn queries_without_differences_stay() {
    let sql = "SELECT a + 1, count(*) FROM t GROUP BY a + 1";
    assert_eq!(rewrite_date_subtraction_sql(sql).unwrap(), sql);
    let tree = parse_json("{\"Query\":{\"body\":1}}").unwrap();
    assert_eq!(rewrite_tree(&tree).unwrap(), "{\"Query\":{\"body\":1}}");
    assert!(rewrite_tree(&parse_json("{\"Drop\":{}}").unwrap()).is_none());
}

#[test]
fn long_chains_are_walked() {
    let mut sql = "SELECT x".to_string();
    for _ in 0..150 {
        sql.push_str(" + x");
    }
    assert_eq!(rewrite_date_subtraction_sql(&sql).unwrap(), sql);
}

#[test]
fn refused_queries_are_tried_in_days() {
    assert!(retry_in_days("SELECT a - b FROM t", "cannot coerce types Duration and Int").is_some());
    assert!(retry_in_days("SELECT a - b FROM t", "no such column").is_none());
}

#[test]
fn tables_of_a_query() {
    assert_eq!(
        extract_table_names_from_readonly_sql(
            "SELECT * FROM a JOIN b ON a.id = b.id, (SELECT * FROM \"C\") s"
        ),
        names(&["a", "b", "C"])
    );
    assert_eq!(
        extract_table_names_from_readonly_sql("SELECT 1 FROM x UNION SELECT 2 FROM y"),
        names(&["x", "y"])
    );
    assert_eq!(extract_table_names_from_readonly_sql("EXPLAIN SELECT * FROM z"), names(&["z"]));
    assert!(extract_table_names_from_readonly_sql("DELETE FROM t").is_empty());
    assert!(find_tables(&parse_json("{}").unwrap()).is_empty());
}

#[test]
fn partitioned_tables_of_a_query() {
    let mut c = Catalog::new();
    for (name, parts) in [("p", vec!["x".to_string()]), ("q", vec![])] {
        c.add_table(TableMeta {
            name: name.to_string(),
            columns: vec![ColumnDef {
                name: "x".to_string(),
                data_type: "INT".to_string(),
                nullable: true,
            }],
            path: String::new(),
            partition_columns: parts,
            statistics: None,
            retention_seconds: None,
            constraints: vec![],
            file_stats: vec![],
            deletion_vectors: vec![],
        });
    }
    assert_eq!(c.partitioned_tables_read("SELECT * FROM p, q, r"), names(&["p"]));
}

#[test]
fn scalars_are_read() {
    assert!(matches!(parse_scalar_value("7", &DataType::Int32), Some(Scalar::Int32(7))));
    assert!(matches!(parse_scalar_value("300", &DataType::UInt8), None));
    assert!(matches!(parse_scalar_value("true", &DataType::Boolean), Some(Scalar::Boolean(true))));
    assert!(matches!(parse_scalar_value("x", &DataType::Utf8), Some(Scalar::Utf8(t)) if t == "x"));
    assert!(matches!(
        parse_scalar_value("1970-01-11", &DataType::Date32),
        Some(Scalar::Date32(10))
    ));
    assert!(parse_scalar_value("never", &DataType::Date32).is_none());
    assert!(matches!(scalar_with("x", "Date32", Some(3)), Some(Scalar::Date32(3))));
}

#[test]
fn statistics_reach_the_planner() {
    let mut columns = NameMap::new();
    columns.insert(
        "id".to_string(),
        ColumnStatistics {
            null_count: 2,
            distinct_count: Some(5),
            min_value: Some("1".to_string()),
            max_value: Some("x".to_string()),
        },
    );
    let stats = TableStatistics { row_count: 9, columns };
    let fields = vec![
        FieldType { name: "id".to_string(), data_type: DataType::Int32 },
        FieldType { name: "other".to_string(), data_type: DataType::Utf8 },
    ];
    let known = catalog_stats_to_df(&stats, &fields);
    assert_eq!(known.num_rows, 9);
    let id = known.columns[0].as_ref().unwrap();
    assert_eq!((id.null_count, id.distinct_count), (2, Some(5)));
    assert!(matches!(id.min_value, Some(Scalar::Int32(1))));
    assert!(id.max_value.is_none());
    assert!(known.columns[1].is_none());
}

#[test]
fn files_are_summed_up() {
    let file = |rows: Option<u64>, size: u64| FileStats {
        path: "p".to_string(),
        row_count: rows,
        min_values: NameMap::new(),
        max_values: NameMap::new(),
        size_bytes: size,
        created_at: None,
    };
    let sum = file_stats_to_df(&vec![file(Some(2), 10), file(Some(3), 20)], 4).unwrap();
    assert_eq!((sum.num_rows, sum.total_byte_size, sum.columns), (Some(5), 30, 4));
    assert!(file_stats_to_df(&vec![], 4).is_none());
}

#[test]
fn ranges_only_widen() {
    let mut mins = NameMap::new();
    let mut maxs = NameMap::new();
    let range = |min: &str, max: &str| {
        vec![ColumnRange { column: "c".to_string(), min: min.to_string(), max: max.to_string() }]
    };
    collect_minmax_from_parquet(&range("b", "d"), &mut mins, &mut maxs);
    collect_minmax_from_parquet(&range("c", "c"), &mut mins, &mut maxs);
    assert_eq!(mins.get("c").unwrap(), "b");
    assert_eq!(maxs.get("c").unwrap(), "d");
    collect_minmax_from_parquet(&range("a", "e"), &mut mins, &mut maxs);
    assert_eq!(mins.get("c").unwrap(), "a");
    assert_eq!(maxs.get("c").unwrap(), "e");
}

#[test]
fn data_files_are_told_from_others() {
    let files = vec![stored("t/a.parquet", 10, 5), stored("t/b.txt", 99, 50), stored("t/c.parquet", 7, 9)];
    assert_eq!(list_parquet_files(&files), names(&["t/a.parquet", "t/c.parquet"]));
    assert_eq!(parquet_file_count(&files), 2);
    assert_eq!(table_total_bytes(&files), Some(17));
    assert_eq!(table_oldest_file_age_secs(&files), 9);
    assert_eq!(refresh_table_file_stats_light(&files).len(), 2);
    assert_eq!(base_name("t/x/a.parquet"), "a.parquet");
    assert_eq!(table_total_bytes(&vec![stored("t/b.txt", 99, 50)]), Some(0));
}

#[test]
fn codes_for_callers() {
    assert_eq!(potato_result_kind::POTATO_RESULT_RECORDS.code(), 0);
    assert_eq!(potato_result_kind::POTATO_RESULT_MESSAGE.code(), 1);
    assert_eq!(potato_column_type::POTATO_TYPE_NULL.code(), 0);
    assert_eq!(potato_column_type::POTATO_TYPE_JSON.code(), 14);
    assert_eq!(potato_column_type::POTATO_TYPE_OTHER.code(), 99);
}

#[test]
fn column_types_for_callers() {
    let of = |t: &DataType| column_type(&t.to_string(), &None);
    assert_eq!(of(&DataType::Boolean), potato_column_type::POTATO_TYPE_BOOL);
    assert_eq!(of(&DataType::UInt16), potato_column_type::POTATO_TYPE_INT32);
    assert_eq!(of(&DataType::UInt64), potato_column_type::POTATO_TYPE_INT64);
    assert_eq!(of(&DataType::Float16), potato_column_type::POTATO_TYPE_FLOAT);
    assert_eq!(of(&DataType::Float64), potato_column_type::POTATO_TYPE_DOUBLE);
    assert_eq!(of(&DataType::LargeUtf8), potato_column_type::POTATO_TYPE_STRING);
    assert_eq!(of(&DataType::Date64), potato_column_type::POTATO_TYPE_DATE);
    assert_eq!(
        of(&DataType::Timestamp(arrow::datatypes::TimeUnit::Second, None)),
        potato_column_type::POTATO_TYPE_TIMESTAMP
    );
    assert_eq!(of(&DataType::Decimal128(10, 2)), potato_column_type::POTATO_TYPE_DECIMAL);
    assert_eq!(of(&DataType::FixedSizeBinary(16)), potato_column_type::POTATO_TYPE_UUID);
    assert_eq!(of(&DataType::FixedSizeBinary(8)), potato_column_type::POTATO_TYPE_BINARY);
    assert_eq!(
        of(&DataType::Duration(arrow::datatypes::TimeUnit::Second)),
        potato_column_type::POTATO_TYPE_INTERVAL
    );
    assert_eq!(
        of(&DataType::List(Arc::new(Field::new("item", DataType::Int32, true)))),
        potato_column_type::POTATO_TYPE_ARRAY
    );
    assert_eq!(of(&DataType::Null), potato_column_type::POTATO_TYPE_OTHER);
    assert_eq!(
        column_type("Utf8", &Some("jsonb".to_string())),
        potato_column_type::POTATO_TYPE_JSON
    );
}

#[test]
fn columns_of_a_result() {
    let batches = vec![batch(vec![Some(1), None])];
    assert_eq!(
        potato_result_get_column_type(&batches, &vec![], 0),
        potato_column_type::POTATO_TYPE_INT32
    );
    assert_eq!(
        potato_result_get_column_type(&batches, &vec![None, Some("JSON".to_string())], 1),
        potato_column_type::POTATO_TYPE_JSON
    );
    assert_eq!(
        potato_result_get_column_type(&batches, &vec![], 2),
        potato_column_type::POTATO_TYPE_NULL
    );
    assert_eq!(
        potato_result_get_column_type(&[], &vec![], 0),
        potato_column_type::POTATO_TYPE_NULL
    );
    assert_eq!(collect_column_names(&batches), names(&["id", "name"]));
    assert!(collect_column_names(&[]).is_empty());
    assert!(is_c_text("plain") && !is_c_text("a\0b"));
}

#[test]
fn rows_of_a_result() {
    let batches = vec![batch(vec![Some(1), None]), batch(vec![]), batch(vec![Some(3)])];
    assert_eq!(resolve_row(&batches, 0), Some((0, 0)));
    assert_eq!(resolve_row(&batches, 1), Some((0, 1)));
    assert_eq!(resolve_row(&batches, 2), Some((2, 0)));
    assert_eq!(resolve_row(&batches, 3), None);
    assert!(!potato_result_is_null(&batches, 0, 0));
    assert!(potato_result_is_null(&batches, 1, 0));
    assert!(!potato_result_is_null(&batches, 1, 1));
    assert!(potato_result_is_null(&batches, 9, 0));
    assert!(potato_result_is_null(&batches, 0, 9));
}

#[test]
fn column_names_with_a_null_character_are_left_out() {
    let schema = Schema::new(vec![
        Field::new("a\0", DataType::Boolean, true),
        Field::new("b", DataType::Boolean, true),
    ]);
    let column = || Arc::new(BooleanArray::from(vec![true]));
    let b = Batch {
        records: RecordBatch::try_new(Arc::new(schema), vec![column(), column()]).unwrap(),
    };
    assert_eq!(collect_column_names(&[b]), names(&["b"]));
}

#[test]
fn cells_for_callers() {
    assert_eq!(potato_result_get_int(&Cell::Int(-3)), -3);
    assert_eq!(potato_result_get_int(&Cell::UInt(u64::MAX)), -1);
    assert_eq!(potato_result_get_int(&Cell::Text("7".to_string())), 0);
    assert!(potato_result_get_bool(&Cell::Bool(true)));
    assert!(!potato_result_get_bool(&Cell::Null));
}

#[test]
fn times_for_callers() {
    assert_eq!(potato_result_get_timestamp(2, TimeScale::Second), 2_000_000);
    assert_eq!(potato_result_get_timestamp(-2, TimeScale::Millisecond), -2_000);
    assert_eq!(potato_result_get_timestamp(7, TimeScale::Microsecond), 7);
    assert_eq!(potato_result_get_timestamp(1_999, TimeScale::Nanosecond), 1);
    assert_eq!(potato_result_get_timestamp(-1_999, TimeScale::Nanosecond), -1);
    assert_eq!(potato_result_get_timestamp(i64::MAX, TimeScale::Second), i64::MAX);
    assert_eq!(potato_result_get_timestamp(i64::MIN, TimeScale::Millisecond), i64::MIN);
}

#[test]
fn calls_become_statements() {
    assert_eq!(potato_flush_table(Some(" a\"b ")).unwrap(), "FLUSH TABLE \"a\"\"b\";");
    assert_eq!(read_table_argument(None).unwrap_err(), "NULL table_name pointer");
    assert_eq!(read_table_argument(Some("  ")).unwrap_err(), "empty table_name");
    assert_eq!(potato_prepare(Some("q"), Some("SELECT 1")).unwrap(), "PREPARE q AS SELECT 1");
    assert_eq!(potato_prepare(None, Some("x")).unwrap_err(), "NULL name pointer");
    assert_eq!(potato_prepare(Some("q"), None).unwrap_err(), "NULL sql pointer");
    assert_eq!(
        potato_execute_prepared(Some("q"), &vec![Some("1".to_string()), Some("'x'".to_string())])
            .unwrap(),
        "EXECUTE q(1, 'x')"
    );
    assert_eq!(
        potato_execute_prepared(Some("q"), &vec![Some("1".to_string()), None]).unwrap_err(),
        "NULL parameter at index 1"
    );
    assert_eq!(count_for_caller(5, "parquet file count").unwrap(), 5);
    assert_eq!(
        count_for_caller(u64::MAX, "table total bytes").unwrap_err(),
        "table total bytes overflowed i64"
    );
    assert!(potato_open("/data", None, None, false, None).is_none());
    assert_eq!(
        potato_open("s3://b", None, Some("eu".to_string()), true, None).unwrap().region,
        Some("eu".to_string())
    );
}

#[test]
fn numbers_read_back() {
    for n in [0, 7, 10, 999, u64::MAX] {
        assert_eq!(parse_u64(&print_u64(n)), Some(n));
    }
    for n in [i64::MIN, -1, 0, i64::MAX] {
        assert_eq!(parse_i64(&print_i64(n)), Some(n));
    }
    assert_eq!(parse_u64("18446744073709551616"), None);
    assert_eq!(parse_i64("-"), None);
    assert_eq!(parse_usize("+5"), Some(5));
}
