//! Whole bulk calls against the capturing executor: round trips, partial
//! failure, and upsert overwrite semantics.

use kgen_db::error::BulkError;
use kgen_db::model::{FakeExecutor, ModelTable};
use kgen_db::schema::ConflictTarget;
use kgen_db::value::{field_value_eq, FieldValue, RowRecord};

fn keyed_row(name: &str, payload: i64) -> RowRecord {
    RowRecord::new(vec![
        FieldValue::Text(String::from(name)),
        FieldValue::BigInt(payload),
    ])
}

fn key_on_first_field() -> ConflictTarget {
    ConflictTarget::new(vec![0])
}

fn table_snapshot(table: &ModelTable) -> Vec<(i64, RowRecord)> {
    let mut rows = Vec::new();
    for i in 0..table.row_total() {
        let e = table.entry_at(i);
        rows.push((e.id, e.row.clone()));
    }
    rows
}

fn assert_rows_equal(a: &RowRecord, b: &RowRecord) {
    assert_eq!(a.arity(), b.arity());
    for j in 0..a.arity() {
        assert!(field_value_eq(a.value_at(j), b.value_at(j)));
    }
}

#[test]
fn insert_round_trip_pairs_rows_with_ids_in_input_order() {
    let mut exec = FakeExecutor::new(ModelTable::new(2, 100), None);
    let rows: Vec<RowRecord> = (0..5).map(|i| keyed_row(&format!("k{i}"), i)).collect();
    let pairs = exec.bulk_insert(rows, 2).unwrap();
    assert_eq!(pairs.len(), 5);
    for (i, pair) in pairs.iter().enumerate() {
        assert_eq!(pair.id, 100 + i as i64);
        assert_rows_equal(&pair.row, &keyed_row(&format!("k{i}"), i as i64));
    }
    assert_eq!(exec.table.row_total(), 5);
    assert_eq!(exec.calls, 3);
    for i in 0..5 {
        let e = exec.table.entry_at(i);
        assert_eq!(e.id, 100 + i as i64);
        assert_rows_equal(&e.row, &keyed_row(&format!("k{i}"), i as i64));
    }
}

#[test]
fn empty_insert_completes_with_zero_rows() {
    let mut exec = FakeExecutor::new(ModelTable::new(2, 1), None);
    let pairs = exec.bulk_insert(Vec::new(), 4).unwrap();
    assert_eq!(pairs.len(), 0);
    assert_eq!(exec.table.row_total(), 0);
    assert_eq!(exec.calls, 0);
}

#[test]
fn insert_with_zero_chunk_size_is_invalid_configuration() {
    let mut exec = FakeExecutor::new(ModelTable::new(2, 1), None);
    match exec.bulk_insert(vec![keyed_row("a", 1)], 0) {
        Err(BulkError::InvalidConfiguration) => {}
        _ => panic!("a zero chunk size must be rejected"),
    }
    assert_eq!(exec.table.row_total(), 0);
    assert_eq!(exec.calls, 0);
}

#[test]
fn failure_on_third_chunk_commits_first_two_and_stops() {
    let mut exec = FakeExecutor::new(ModelTable::new(2, 1), Some(2));
    let rows: Vec<RowRecord> = (0..10).map(|i| keyed_row(&format!("k{i}"), i)).collect();
    match exec.bulk_insert(rows, 2) {
        Err(BulkError::Driver {
            chunk_index,
            rows_committed,
            ..
        }) => {
            assert_eq!(chunk_index, 2);
            assert_eq!(rows_committed, 4);
        }
        _ => panic!("the injected failure must surface as a driver error"),
    }
    // chunks 0 and 1 committed, chunk 2 failed, chunks 3 and 4 never ran
    assert_eq!(exec.table.row_total(), 4);
    assert_eq!(exec.calls, 3);
}

#[test]
fn correlation_mismatch_reports_both_counts() {
    let rows = vec![keyed_row("a", 1), keyed_row("b", 2)];
    let ids: Vec<i64> = vec![7];
    match kgen_db::correlate::correlate(rows, &ids) {
        Err(BulkError::CorrelationMismatch { expected, actual }) => {
            assert_eq!(expected, 2);
            assert_eq!(actual, 1);
        }
        _ => panic!("a short id list must be a correlation mismatch"),
    }
}

#[test]
fn upsert_overwrites_matching_keys_and_appends_fresh_ones() {
    let mut exec = FakeExecutor::new(ModelTable::new(2, 1), None);
    let seeded = exec
        .bulk_insert(vec![keyed_row("a", 10), keyed_row("b", 20)], 10)
        .unwrap();
    assert_eq!(seeded.len(), 2);
    let key = key_on_first_field();
    let pairs = exec
        .bulk_upsert(vec![keyed_row("b", 99), keyed_row("c", 30)], 10, &key)
        .unwrap();
    assert_eq!(pairs.len(), 2);
    // the overwrite reports the overwritten row's id, the append a fresh one
    assert_eq!(pairs[0].id, 2);
    assert_eq!(pairs[1].id, 3);
    assert_eq!(exec.table.row_total(), 3);
    // row "b" overwritten in place under its original id
    let b = exec.table.entry_at(1);
    assert_eq!(b.id, 2);
    assert_rows_equal(&b.row, &keyed_row("b", 99));
    // row "c" appended under a fresh id
    let c = exec.table.entry_at(2);
    assert_eq!(c.id, 3);
    assert_rows_equal(&c.row, &keyed_row("c", 30));
    // row "a" untouched
    assert_rows_equal(&exec.table.entry_at(0).row, &keyed_row("a", 10));
}

#[test]
fn upsert_twice_with_identical_input_leaves_the_same_table() {
    let mut exec = FakeExecutor::new(ModelTable::new(2, 1), None);
    exec.bulk_insert(vec![keyed_row("a", 1), keyed_row("b", 2)], 10)
        .unwrap();
    let key = key_on_first_field();
    let input = || {
        vec![
            keyed_row("b", 200),
            keyed_row("d", 400),
            keyed_row("b", 222),
            keyed_row("e", 500),
        ]
    };
    exec.bulk_upsert(input(), 2, &key).unwrap();
    let first = table_snapshot(&exec.table);
    exec.bulk_upsert(input(), 2, &key).unwrap();
    let second = table_snapshot(&exec.table);
    assert_eq!(first.len(), second.len());
    for ((id_a, row_a), (id_b, row_b)) in first.iter().zip(second.iter()) {
        assert_eq!(id_a, id_b);
        assert_rows_equal(row_a, row_b);
    }
    // last writer won within the batch: "b" holds 222
    assert_rows_equal(&exec.table.entry_at(1).row, &keyed_row("b", 222));
    assert_eq!(exec.table.row_total(), 4);
}

#[test]
fn upsert_failure_mid_stream_keeps_earlier_chunks_applied() {
    let mut exec = FakeExecutor::new(ModelTable::new(2, 1), Some(1));
    let key = key_on_first_field();
    let rows = vec![
        keyed_row("a", 1),
        keyed_row("b", 2),
        keyed_row("c", 3),
        keyed_row("d", 4),
    ];
    match exec.bulk_upsert(rows, 2, &key) {
        Err(BulkError::Driver {
            chunk_index,
            rows_committed,
            ..
        }) => {
            assert_eq!(chunk_index, 1);
            assert_eq!(rows_committed, 2);
        }
        _ => panic!("the injected failure must surface as a driver error"),
    }
    assert_eq!(exec.table.row_total(), 2);
    assert_eq!(exec.calls, 2);
}
