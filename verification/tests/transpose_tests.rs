//! Chunk layout and column-major transposition on concrete inputs.

use kgen_db::error::BulkError;
use kgen_db::transpose::transpose_rows;
use kgen_db::value::{field_value_eq, FieldValue, RowRecord};

fn text_row(s: &str) -> RowRecord {
    RowRecord::new(vec![FieldValue::Text(String::from(s))])
}

fn wide_row(name: &str, small: i16, big: i64) -> RowRecord {
    RowRecord::new(vec![
        FieldValue::Text(String::from(name)),
        FieldValue::SmallInt(small),
        FieldValue::BigInt(big),
    ])
}

fn assert_text(v: &FieldValue, expected: &str) {
    let want = FieldValue::Text(String::from(expected));
    assert!(field_value_eq(v, &want));
}

#[test]
fn three_rows_chunk_two_gives_two_batches() {
    let rows = vec![text_row("a"), text_row("b"), text_row("c")];
    let batches = transpose_rows(&rows, 1, 2).unwrap();
    assert_eq!(batches.len(), 2);
    assert_eq!(batches[0].field_count(), 1);
    assert_eq!(batches[0].row_count(), 2);
    assert_eq!(batches[1].row_count(), 1);
    let col0 = batches[0].column(0);
    assert_text(&col0[0], "a");
    assert_text(&col0[1], "b");
    let col1 = batches[1].column(0);
    assert_text(&col1[0], "c");
}

#[test]
fn batch_count_is_rounded_up_quotient() {
    let rows: Vec<RowRecord> = (0..7).map(|i| text_row(&format!("r{i}"))).collect();
    let batches = transpose_rows(&rows, 1, 3).unwrap();
    assert_eq!(batches.len(), 3);
    assert_eq!(batches[0].row_count(), 3);
    assert_eq!(batches[1].row_count(), 3);
    assert_eq!(batches[2].row_count(), 1);
}

#[test]
fn chunk_size_equal_to_length_gives_one_batch() {
    let rows = vec![text_row("a"), text_row("b"), text_row("c")];
    let batches = transpose_rows(&rows, 1, 3).unwrap();
    assert_eq!(batches.len(), 1);
    assert_eq!(batches[0].row_count(), 3);
}

#[test]
fn chunk_size_larger_than_length_gives_one_full_batch() {
    let rows = vec![text_row("a"), text_row("b")];
    let batches = transpose_rows(&rows, 1, 100).unwrap();
    assert_eq!(batches.len(), 1);
    assert_eq!(batches[0].row_count(), 2);
}

#[test]
fn empty_input_gives_zero_batches() {
    let rows: Vec<RowRecord> = Vec::new();
    let batches = transpose_rows(&rows, 1, 4).unwrap();
    assert_eq!(batches.len(), 0);
}

#[test]
fn chunk_size_zero_is_invalid_configuration() {
    let rows = vec![text_row("a")];
    match transpose_rows(&rows, 1, 0) {
        Err(BulkError::InvalidConfiguration) => {}
        _ => panic!("a zero chunk size must be rejected"),
    }
}

#[test]
fn every_batch_has_one_column_per_field() {
    let rows = vec![
        wide_row("a", 1, 10),
        wide_row("b", 2, 20),
        wide_row("c", 3, 30),
        wide_row("d", 4, 40),
        wide_row("e", 5, 50),
    ];
    let batches = transpose_rows(&rows, 3, 2).unwrap();
    assert_eq!(batches.len(), 3);
    for batch in &batches {
        assert_eq!(batch.field_count(), 3);
        for j in 0..3 {
            assert_eq!(batch.column(j).len(), batch.row_count());
        }
    }
    // columns are the per-field projections, rows in input order
    assert!(field_value_eq(
        &batches[1].column(1)[0],
        &FieldValue::SmallInt(3)
    ));
    assert!(field_value_eq(
        &batches[1].column(2)[1],
        &FieldValue::BigInt(40)
    ));
    assert_text(&batches[2].column(0)[0], "e");
}

#[test]
fn concatenated_batch_rows_rebuild_the_input() {
    let rows = vec![
        wide_row("a", 1, 10),
        wide_row("b", 2, 20),
        wide_row("c", 3, 30),
        wide_row("d", 4, 40),
        wide_row("e", 5, 50),
    ];
    let batches = transpose_rows(&rows, 3, 2).unwrap();
    let mut rebuilt: Vec<RowRecord> = Vec::new();
    for batch in &batches {
        for i in 0..batch.row_count() {
            rebuilt.push(batch.row_at(i));
        }
    }
    assert_eq!(rebuilt.len(), rows.len());
    for (orig, copy) in rows.iter().zip(rebuilt.iter()) {
        assert_eq!(orig.arity(), copy.arity());
        for j in 0..orig.arity() {
            assert!(field_value_eq(orig.value_at(j), copy.value_at(j)));
        }
    }
}
