//! Field value equality across every variant.

use kgen_db::value::{field_value_eq, FieldValue};

#[test]
fn equal_values_compare_equal() {
    let pairs = vec![
        (FieldValue::Null, FieldValue::Null),
        (FieldValue::Boolean(true), FieldValue::Boolean(true)),
        (FieldValue::SmallInt(-3), FieldValue::SmallInt(-3)),
        (FieldValue::Integer(12), FieldValue::Integer(12)),
        (FieldValue::BigInt(1 << 40), FieldValue::BigInt(1 << 40)),
        (
            FieldValue::Text(String::from("abc")),
            FieldValue::Text(String::from("abc")),
        ),
        (FieldValue::Date(19000), FieldValue::Date(19000)),
        (
            FieldValue::Timestamp(1_600_000_000_000_000),
            FieldValue::Timestamp(1_600_000_000_000_000),
        ),
        (
            FieldValue::Uuid(0x528f97ee_afb7_349d_ae9d_228f407501d5),
            FieldValue::Uuid(0x528f97ee_afb7_349d_ae9d_228f407501d5),
        ),
        (
            FieldValue::Json(String::from("{\"value\":1}")),
            FieldValue::Json(String::from("{\"value\":1}")),
        ),
    ];
    for (a, b) in &pairs {
        assert!(field_value_eq(a, b));
    }
}

#[test]
fn different_values_or_variants_compare_unequal() {
    assert!(!field_value_eq(
        &FieldValue::SmallInt(1),
        &FieldValue::SmallInt(2)
    ));
    assert!(!field_value_eq(
        &FieldValue::Text(String::from("a")),
        &FieldValue::Text(String::from("b"))
    ));
    assert!(!field_value_eq(&FieldValue::Null, &FieldValue::Boolean(false)));
    assert!(!field_value_eq(
        &FieldValue::Integer(1),
        &FieldValue::BigInt(1)
    ));
    assert!(!field_value_eq(
        &FieldValue::Text(String::from("{}")),
        &FieldValue::Json(String::from("{}"))
    ));
}
