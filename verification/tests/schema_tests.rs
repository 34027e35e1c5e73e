//! Schema descriptors, conflict targets and key extraction.

use kgen_db::schema::ConflictTarget;
use kgen_db::tables::{
    SamplePkey, SampleWithIdPkey, TableKeyless, TableSample, TableSampleWithId,
};
use kgen_db::value::{FieldValue, RowRecord};

#[test]
fn keyless_schema_lists_twenty_two_columns_in_order() {
    let schema = TableKeyless::schema();
    assert_eq!(schema.field_count(), 22);
    assert_eq!(schema.field_at(0).name, "the_name");
    assert_eq!(schema.field_at(1).name, "the_small_int");
    assert_eq!(schema.field_at(9).name, "the_json");
    assert_eq!(schema.field_at(21).name, "nullable_jsonb");
    assert!(!schema.field_at(0).nullable);
    assert!(schema.field_at(12).nullable);
    // the generator's `nullable_name` column is not actually nullable
    assert!(!schema.field_at(11).nullable);
}

#[test]
fn sample_with_id_schema_lists_eighteen_columns() {
    let schema = TableSampleWithId::schema();
    assert_eq!(schema.field_count(), 18);
    assert_eq!(schema.field_at(0).name, "the_name");
    assert_eq!(schema.field_at(17).name, "nullable_ulong");
}

#[test]
fn sample_conflict_target_is_valid_for_its_schema() {
    let schema = TableSample::schema();
    let key = TableSample::conflict_target();
    assert_eq!(key.key_count(), 2);
    assert!(key.is_valid_for(schema.field_count()));
}

#[test]
fn conflict_target_validation_rejects_bad_targets() {
    assert!(!ConflictTarget::new(vec![]).is_valid_for(5));
    assert!(!ConflictTarget::new(vec![5]).is_valid_for(5));
    assert!(!ConflictTarget::new(vec![1, 1]).is_valid_for(5));
    assert!(ConflictTarget::new(vec![1, 3]).is_valid_for(5));
}

#[test]
fn sample_pkey_reads_the_key_fields_of_a_row() {
    let row = RowRecord::new(vec![
        FieldValue::Text(String::from("alpha")),
        FieldValue::SmallInt(7),
        FieldValue::BigInt(99),
    ]);
    let key = SamplePkey::of_row(&row).unwrap();
    assert_eq!(key.the_name, "alpha");
    assert_eq!(key.the_small_int, 7);
}

#[test]
fn sample_pkey_rejects_a_row_with_wrong_key_types() {
    let row = RowRecord::new(vec![
        FieldValue::BigInt(1),
        FieldValue::SmallInt(7),
    ]);
    assert!(SamplePkey::of_row(&row).is_none());
    let short = RowRecord::new(vec![FieldValue::Text(String::from("x"))]);
    assert!(SamplePkey::of_row(&short).is_none());
}

#[test]
fn sample_with_id_pkey_checks_the_id_width() {
    assert_eq!(SampleWithIdPkey::from_generated(41).unwrap().auto_id, 41);
    assert!(SampleWithIdPkey::from_generated(1 << 40).is_none());
    assert!(SampleWithIdPkey::from_generated(-(1 << 40)).is_none());
}
