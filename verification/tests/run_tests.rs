//! The aggregator state machine, driven by hand.

use kgen_db::run::BulkRun;
use kgen_db::value::{FieldValue, RowRecord};

fn int_row(v: i64) -> RowRecord {
    RowRecord::new(vec![FieldValue::BigInt(v)])
}

#[test]
fn run_hands_out_chunks_in_order_until_done() {
    let rows: Vec<RowRecord> = (0..4).map(int_row).collect();
    let mut run = BulkRun::start(&rows, 1, 3).unwrap();
    assert_eq!(run.chunks_planned(), 2);
    assert!(!run.is_done());

    let first_len = run.current_batch().unwrap().row_count();
    assert_eq!(first_len, 3);
    run.on_chunk_success(3, vec![10, 11, 12]);
    assert_eq!(run.chunks_committed(), 1);
    assert_eq!(run.rows_committed(), 3);
    assert!(!run.is_done());

    let second_len = run.current_batch().unwrap().row_count();
    assert_eq!(second_len, 1);
    run.on_chunk_success(1, vec![13]);
    assert_eq!(run.chunks_committed(), 2);
    assert_eq!(run.rows_committed(), 4);
    assert!(run.is_done());
    assert!(run.current_batch().is_none());
    assert_eq!(run.ids, vec![10, 11, 12, 13]);
    assert_eq!(run.affected, vec![3, 1]);
}

#[test]
fn failed_run_cites_the_chunk_and_hands_out_nothing_more() {
    let rows: Vec<RowRecord> = (0..6).map(int_row).collect();
    let mut run = BulkRun::start(&rows, 1, 2).unwrap();
    assert_eq!(run.chunks_planned(), 3);
    run.on_chunk_success(2, vec![1, 2]);
    run.on_chunk_failure(String::from("connection reset"));
    assert!(run.is_done());
    assert!(run.current_batch().is_none());
    match run.failure {
        Some(kgen_db::error::BulkError::Driver {
            chunk_index,
            rows_committed,
            message,
        }) => {
            assert_eq!(chunk_index, 1);
            assert_eq!(rows_committed, 2);
            assert_eq!(message, "connection reset");
        }
        _ => panic!("the failure must carry the failing chunk index"),
    }
}

#[test]
fn empty_input_starts_completed() {
    let rows: Vec<RowRecord> = Vec::new();
    let run = BulkRun::start(&rows, 1, 5).unwrap();
    assert_eq!(run.chunks_planned(), 0);
    assert_eq!(run.rows_committed(), 0);
    assert!(run.is_done());
    assert!(run.current_batch().is_none());
}
