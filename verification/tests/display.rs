use arrow::array::{BooleanArray, Int32Array, StringArray};
use arrow::datatypes::{DataType, Field, Schema, TimeUnit};
use arrow::record_batch::RecordBatch;
use potatodb::box_drawing::{
    footer_text_len, friendly_row_count, inner_width, push_border, push_dot_row,
    push_footer_content, push_full_border, push_row, refs,
};
use potatodb::display::{
    add_sizes, checked_row_count, estimate_batch_bytes, format_batches, format_batches_truncated,
    friendly_type, row_count,
    slice_batches, try_format_batches_truncated, Batch, MAX_DISPLAY_ROWS,
};
use std::sync::Arc;

fn make_batch(ids: &[i32], names: &[&str]) -> Batch {
    let schema = Arc::new(Schema::new(vec![
        Field::new("id", DataType::Int32, false),
        Field::new("name", DataType::Utf8, false),
    ]));
    let records = RecordBatch::try_new(
        schema,
        vec![
            Arc::new(Int32Array::from(ids.to_vec())),
            Arc::new(StringArray::from(names.to_vec())),
        ],
    )
    .unwrap();
    Batch { records }
}

fn make_large_batch(n: usize) -> Batch {
    let ids: Vec<i32> = (0..n as i32).collect();
    let names: Vec<String> = (0..n).map(|i| format!("row_{i}")).collect();
    let schema = Arc::new(Schema::new(vec![
        Field::new("id", DataType::Int32, false),
        Field::new("name", DataType::Utf8, false),
    ]));
    let records = RecordBatch::try_new(
        schema,
        vec![
            Arc::new(Int32Array::from(ids)),
            Arc::new(StringArray::from(
                names.iter().map(|s| s.as_str()).collect::<Vec<_>>(),
            )),
        ],
    )
    .unwrap();
    Batch { records }
}

// -- format_batches (plain ASCII) -------------------------------------------

#[test]
fn test_format_batches_empty_vec() {
    assert_eq!(format_batches(&[]), "(0 rows)");
}

#[test]
fn test_format_batches_zero_row_batch() {
    let schema = Arc::new(Schema::new(vec![Field::new("x", DataType::Int32, false)]));
    let records =
        RecordBatch::try_new(schema, vec![Arc::new(Int32Array::from(Vec::<i32>::new()))]).unwrap();
    assert_eq!(format_batches(&[Batch { records }]), "(0 rows)");
}

#[test]
fn test_format_batches_with_data() {
    let batch = make_batch(&[1, 2], &["alice", "bob"]);
    let output = format_batches(&[batch]);
    assert!(output.contains("id"));
    assert!(output.contains("alice"));
}

#[test]
fn test_format_batches_multiple_batches() {
    let b1 = make_batch(&[1], &["a"]);
    let b2 = make_batch(&[2], &["b"]);
    let output = format_batches(&[b1, b2]);
    assert!(output.contains("a"));
    assert!(output.contains("b"));
}

#[test]
fn plain_table_has_exact_lines() {
    let batch = make_batch(&[1], &["a"]);
    assert_eq!(
        format_batches(&[batch]),
        "+----+------+\n| id | name |\n+----+------+\n| 1  | a    |\n+----+------+"
    );
}

#[test]
fn plain_table_complains_of_unequal_columns() {
    let one = make_batch(&[1], &["a"]);
    let schema = Arc::new(Schema::new(vec![Field::new("x", DataType::Int32, false)]));
    let records = RecordBatch::try_new(schema, vec![Arc::new(Int32Array::from(vec![1]))]).unwrap();
    let output = format_batches(&[one, Batch { records }]);
    assert!(output.starts_with("Error formatting results: "));
}

// -- row_count --------------------------------------------------------------

#[test]
fn test_row_count_empty() {
    assert_eq!(row_count(&[]), 0);
}

#[test]
fn test_row_count_single_batch() {
    let batch = make_batch(&[1, 2, 3], &["a", "b", "c"]);
    assert_eq!(row_count(&[batch]), 3);
}

#[test]
fn test_row_count_multiple_batches() {
    let b1 = make_batch(&[1, 2], &["a", "b"]);
    let b2 = make_batch(&[3], &["c"]);
    assert_eq!(row_count(&[b1, b2]), 3);
}

#[test]
fn rows_can_be_counted_with_care() {
    let b1 = make_batch(&[1, 2], &["a", "b"]);
    assert_eq!(checked_row_count(&[b1]), Some(2));
}

// -- format_batches_truncated (box-drawing) ---------------------------------

#[test]
fn test_truncated_empty() {
    assert_eq!(format_batches_truncated(&[]), "(0 rows)");
}

#[test]
fn test_truncated_small_uses_box_drawing() {
    let batch = make_batch(&[1, 2], &["alice", "bob"]);
    let output = format_batches_truncated(&[batch]);
    assert!(output.contains('┌'), "should use box-drawing top-left");
    assert!(output.contains('│'), "should use box-drawing vertical");
    assert!(output.contains('└'), "should use box-drawing bottom-left");
    assert!(output.contains("int32"), "should show column type");
    assert!(output.contains("varchar"), "should show column type");
    assert!(output.contains("alice"));
    assert!(output.contains("bob"));
}

#[test]
fn test_truncated_small_no_dots() {
    let batch = make_batch(&[1, 2], &["alice", "bob"]);
    let output = format_batches_truncated(&[batch]);
    assert!(!output.contains('·'), "small results should not truncate");
}

#[test]
fn test_truncated_large_has_separator_and_footer() {
    let batch = make_large_batch(100);
    let output = format_batches_truncated(&[batch]);
    assert!(output.contains('·'), "should contain dot separator");
    assert!(output.contains("100 rows"), "should show total");
    assert!(output.contains("40 shown"), "should show displayed count");
    assert!(output.contains("2 column(s)"), "should show column count");
}

#[test]
fn test_truncated_shows_head_and_tail() {
    let batch = make_large_batch(100);
    let output = format_batches_truncated(&[batch]);
    assert!(output.contains("row_0"), "should contain first row");
    assert!(output.contains("row_19"), "should contain last head row");
    assert!(output.contains("row_80"), "should contain first tail row");
    assert!(output.contains("row_99"), "should contain last row");
    assert!(!output.contains("row_40"), "should not contain middle rows");
}

#[test]
fn test_truncated_at_boundary() {
    let batch = make_large_batch(MAX_DISPLAY_ROWS);
    let output = format_batches_truncated(&[batch]);
    assert!(
        !output.contains('·'),
        "exactly MAX rows should not truncate"
    );
}

#[test]
fn test_truncated_just_over_boundary() {
    let batch = make_large_batch(MAX_DISPLAY_ROWS + 1);
    let output = format_batches_truncated(&[batch]);
    assert!(output.contains('·'), "MAX+1 rows should truncate");
    assert!(output.contains("41 rows"));
}

#[test]
fn box_table_has_exact_lines() {
    let batch = make_batch(&[1], &["a"]);
    assert_eq!(
        format_batches_truncated(&[batch]),
        "┌───────┬─────────┐\n│ id    │ name    │\n│ int32 │ varchar │\n├───────┼─────────┤\n│ 1     │ a       │\n└───────┴─────────┘"
    );
}

#[test]
fn box_table_shows_nulls() {
    let schema = Arc::new(Schema::new(vec![Field::new("ok", DataType::Boolean, true)]));
    let records = RecordBatch::try_new(
        schema,
        vec![Arc::new(BooleanArray::from(vec![Some(true), None]))],
    )
    .unwrap();
    assert_eq!(
        format_batches_truncated(&[Batch { records }]),
        "┌─────────┐\n│ ok      │\n│ boolean │\n├─────────┤\n│ true    │\n│ NULL    │\n└─────────┘"
    );
}

#[test]
fn box_table_needs_columns() {
    let options = arrow::record_batch::RecordBatchOptions::new().with_row_count(Some(3));
    let records =
        RecordBatch::try_new_with_options(Arc::new(Schema::empty()), vec![], &options).unwrap();
    assert_eq!(try_format_batches_truncated(&[Batch { records }]), None);
    let two = make_batch(&[1], &["a"]);
    assert!(try_format_batches_truncated(&[two]).is_some());
}

// -- slice_batches ----------------------------------------------------------

#[test]
fn test_slice_batches_single() {
    let batch = make_large_batch(10);
    let sliced = slice_batches(&[batch], 3, 4);
    let total: usize = sliced.iter().map(|b| b.records.num_rows()).sum();
    assert_eq!(total, 4);
}

#[test]
fn test_slice_batches_across_boundary() {
    let b1 = make_large_batch(5);
    let b2 = make_large_batch(5);
    let sliced = slice_batches(&[b1, b2], 3, 4);
    let total: usize = sliced.iter().map(|b| b.records.num_rows()).sum();
    assert_eq!(total, 4);
}

#[test]
fn slices_hold_the_asked_rows() {
    let b1 = make_large_batch(5);
    let b2 = make_batch(&[10, 11], &["x", "y"]);
    let sliced = slice_batches(&[b1, b2], 4, 2);
    assert_eq!(
        format_batches(&sliced),
        "+----+-------+\n| id | name  |\n+----+-------+\n| 4  | row_4 |\n| 10 | x     |\n+----+-------+"
    );
}

#[test]
fn slices_end_with_the_rows() {
    let rows = |offset: usize, length: usize| -> usize {
        slice_batches(&[make_large_batch(5), make_large_batch(3)], offset, length)
            .iter()
            .map(|b| b.records.num_rows())
            .sum()
    };
    assert_eq!(rows(6, 5), 2);
    assert_eq!(rows(0, 100), 8);
    assert_eq!(rows(8, 1), 0);
    assert_eq!(rows(50, 2), 0);
    let last = slice_batches(&[make_large_batch(5)], 4, 9);
    assert_eq!(
        format_batches(&last),
        "+----+-------+\n| id | name  |\n+----+-------+\n| 4  | row_4 |\n+----+-------+"
    );
}

// -- sizes ------------------------------------------------------------------

#[test]
fn sizes_are_added() {
    assert_eq!(add_sizes(&vec![]), Some(0));
    assert_eq!(add_sizes(&vec![3, 0, 4]), Some(7));
    assert_eq!(add_sizes(&vec![usize::MAX, 1]), None);
    assert_eq!(estimate_batch_bytes(&[]), Some(0));
    let small = estimate_batch_bytes(&[make_large_batch(10)]).unwrap();
    let both = estimate_batch_bytes(&[make_large_batch(10), make_large_batch(10)]).unwrap();
    assert!(small > 0 && both == 2 * small);
}

// -- friendly helpers -------------------------------------------------------

#[test]
fn test_friendly_row_count() {
    assert_eq!(friendly_row_count(500), "500");
    assert_eq!(friendly_row_count(1_500), "1.5K");
    assert_eq!(friendly_row_count(1_260_000), "1.26 million");
}

#[test]
fn friendly_row_count_agrees_with_double_precision() {
    let mut n: usize = 1_000;
    while n < 1_000_000 {
        assert_eq!(friendly_row_count(n), format!("{:.1}K", n as f64 / 1_000.0));
        n += 37;
    }
    let mut n: usize = 1_000_000;
    let mut step: usize = 123_457;
    for _ in 0..400 {
        assert_eq!(
            friendly_row_count(n),
            format!("{:.2} million", n as f64 / 1_000_000.0)
        );
        n = n.saturating_add(step);
        step = step.saturating_add(step / 8);
    }
    for n in [
        999,
        1_050,
        1_150,
        1_250,
        1_005_000,
        1_015_000,
        1_025_000,
        999_950,
        999_999,
        usize::MAX,
        usize::MAX - 1,
        (1 << 53) + 1,
        (1 << 53) + 3,
        (1 << 60) + 12_345,
    ] {
        let expected = if n >= 1_000_000 {
            format!("{:.2} million", n as f64 / 1_000_000.0)
        } else if n >= 1_000 {
            format!("{:.1}K", n as f64 / 1_000.0)
        } else {
            n.to_string()
        };
        assert_eq!(friendly_row_count(n), expected);
    }
}

#[test]
fn test_friendly_type() {
    assert_eq!(friendly_type(&DataType::Int32), "int32");
    assert_eq!(friendly_type(&DataType::Utf8), "varchar");
    assert_eq!(friendly_type(&DataType::Float64), "double");
    assert_eq!(friendly_type(&DataType::Boolean), "boolean");
}

#[test]
fn friendly_types_of_every_kind() {
    assert_eq!(friendly_type(&DataType::Int8), "int8");
    assert_eq!(friendly_type(&DataType::Int16), "int16");
    assert_eq!(friendly_type(&DataType::Int64), "int64");
    assert_eq!(friendly_type(&DataType::UInt8), "uint8");
    assert_eq!(friendly_type(&DataType::UInt16), "uint16");
    assert_eq!(friendly_type(&DataType::UInt32), "uint32");
    assert_eq!(friendly_type(&DataType::UInt64), "uint64");
    assert_eq!(friendly_type(&DataType::Float16), "float16");
    assert_eq!(friendly_type(&DataType::Float32), "float");
    assert_eq!(friendly_type(&DataType::LargeUtf8), "varchar");
    assert_eq!(friendly_type(&DataType::Binary), "blob");
    assert_eq!(friendly_type(&DataType::LargeBinary), "blob");
    assert_eq!(friendly_type(&DataType::Date32), "date");
    assert_eq!(friendly_type(&DataType::Date64), "date");
    assert_eq!(friendly_type(&DataType::Time32(TimeUnit::Second)), "time");
    assert_eq!(friendly_type(&DataType::Time64(TimeUnit::Nanosecond)), "time");
    assert_eq!(
        friendly_type(&DataType::Timestamp(TimeUnit::Millisecond, Some("UTC".into()))),
        "timestamp"
    );
    assert_eq!(friendly_type(&DataType::Decimal128(10, 2)), "decimal");
    assert_eq!(friendly_type(&DataType::Decimal256(10, 2)), "decimal");
    assert_eq!(friendly_type(&DataType::Null), "null");
    assert_eq!(friendly_type(&DataType::Utf8View), "Utf8View");
}

// -- rendering consistency --------------------------------------------------

#[test]
fn test_box_drawing_line_widths_consistent() {
    let batch = make_batch(&[1, 2], &["alice", "bob"]);
    let output = format_batches_truncated(&[batch]);
    let lines: Vec<&str> = output.lines().collect();
    let expected_width = lines[0].chars().count();
    for (i, line) in lines.iter().enumerate() {
        assert_eq!(
            line.chars().count(),
            expected_width,
            "line {i} width mismatch: {line:?}"
        );
    }
}

#[test]
fn test_truncated_line_widths_consistent() {
    let batch = make_large_batch(100);
    let output = format_batches_truncated(&[batch]);
    let lines: Vec<&str> = output.lines().collect();
    let expected_width = lines[0].chars().count();
    for (i, line) in lines.iter().enumerate() {
        assert_eq!(
            line.chars().count(),
            expected_width,
            "line {i} width mismatch: {line:?}"
        );
    }
}

#[test]
fn lines_have_exact_characters() {
    let widths = [2, 3];
    assert_eq!(inner_width(&widths), 10);
    let mut out = String::new();
    push_border(&mut out, &widths, '├', '┼', '┤');
    push_row(&mut out, &widths, &["a"]);
    push_dot_row(&mut out, &widths);
    push_footer_content(&mut out, &widths, "l", "r");
    push_full_border(&mut out, &widths, '└', '┘');
    assert_eq!(
        out,
        "├────┼─────┤\n│ a  │     │\n│ ·  │ ·   │\n│ l      r │\n└──────────┘\n"
    );
}

#[test]
fn rows_are_filled_by_bytes() {
    let mut out = String::new();
    push_row(&mut out, &[4], &["ä"]);
    assert_eq!(out, "│ ä   │\n");
}

#[test]
fn footer_length_counts_both_texts() {
    let left = "1500 rows (1.5K, 40 shown)";
    let right = "3 column(s)";
    assert_eq!(footer_text_len(1_500, 20, 3), left.len() + right.len());
}

#[test]
fn refs_borrow_in_order() {
    let names = ["a".to_string(), "b".to_string()];
    assert_eq!(refs(&names), vec!["a", "b"]);
}
