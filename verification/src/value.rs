//! Field values and row records.
//!
//! A row is an ordered, fixed-arity tuple of typed field values whose
//! declaration order matches the target statement's column order.  Dates,
//! timestamps and identifiers are carried as plain scalars (day numbers,
//! microsecond counts, 128-bit integers) so the batching logic never has to
//! look inside a driver-specific value.

use vstd::prelude::*;

verus! {

/// One typed field value of a row.  A nullable column holds `Null` when the
/// value is absent.
pub enum FieldValue {
    /// Absent value of a nullable column.
    Null,
    /// A boolean column value.
    Boolean(bool),
    /// A 16-bit integer column value.
    SmallInt(i16),
    /// A 32-bit integer column value.
    Integer(i32),
    /// A 64-bit integer column value.
    BigInt(i64),
    /// A text column value.
    Text(String),
    /// A date, as a day count relative to a fixed epoch.
    Date(i32),
    /// A timestamp, as microseconds relative to a fixed epoch.
    Timestamp(i64),
    /// A 128-bit universally unique identifier.
    Uuid(u128),
    /// A serialized JSON document.
    Json(String),
}

/// The mathematical abstraction of a [`FieldValue`]: text becomes a character
/// sequence and every machine integer becomes an unbounded integer, so that
/// contracts can compare values without caring about representation.
pub enum AbstractValue {
    /// Absent value of a nullable column.
    Null,
    /// A boolean column value.
    Boolean(bool),
    /// A 16-bit integer column value.
    SmallInt(int),
    /// A 32-bit integer column value.
    Integer(int),
    /// A 64-bit integer column value.
    BigInt(int),
    /// A text column value.
    Text(Seq<char>),
    /// A date, as a day count relative to a fixed epoch.
    Date(int),
    /// A timestamp, as microseconds relative to a fixed epoch.
    Timestamp(int),
    /// A 128-bit universally unique identifier.
    Uuid(int),
    /// A serialized JSON document.
    Json(Seq<char>),
}

impl View for FieldValue {
    type V = AbstractValue;

    open spec fn view(&self) -> AbstractValue {
        match self {
            FieldValue::Null => AbstractValue::Null,
            FieldValue::Boolean(b) => AbstractValue::Boolean(*b),
            FieldValue::SmallInt(i) => AbstractValue::SmallInt(*i as int),
            FieldValue::Integer(i) => AbstractValue::Integer(*i as int),
            FieldValue::BigInt(i) => AbstractValue::BigInt(*i as int),
            FieldValue::Text(s) => AbstractValue::Text(s@),
            FieldValue::Date(d) => AbstractValue::Date(*d as int),
            FieldValue::Timestamp(t) => AbstractValue::Timestamp(*t as int),
            FieldValue::Uuid(u) => AbstractValue::Uuid(*u as int),
            FieldValue::Json(s) => AbstractValue::Json(s@),
        }
    }
}

impl Clone for FieldValue {
    fn clone(&self) -> (res: Self)
        ensures
            res@ == self@,
    {
        match self {
            FieldValue::Null => FieldValue::Null,
            FieldValue::Boolean(b) => FieldValue::Boolean(*b),
            FieldValue::SmallInt(i) => FieldValue::SmallInt(*i),
            FieldValue::Integer(i) => FieldValue::Integer(*i),
            FieldValue::BigInt(i) => FieldValue::BigInt(*i),
            FieldValue::Text(s) => FieldValue::Text(s.clone()),
            FieldValue::Date(d) => FieldValue::Date(*d),
            FieldValue::Timestamp(t) => FieldValue::Timestamp(*t),
            FieldValue::Uuid(u) => FieldValue::Uuid(*u),
            FieldValue::Json(s) => FieldValue::Json(s.clone()),
        }
    }
}

/// Decides whether two field values abstract to the same value.
pub fn field_value_eq(a: &FieldValue, b: &FieldValue) -> (r: bool)
    ensures
        r == (a@ == b@),
{
    match (a, b) {
        (FieldValue::Null, FieldValue::Null) => true,
        (FieldValue::Boolean(x), FieldValue::Boolean(y)) => *x == *y,
        (FieldValue::SmallInt(x), FieldValue::SmallInt(y)) => *x == *y,
        (FieldValue::Integer(x), FieldValue::Integer(y)) => *x == *y,
        (FieldValue::BigInt(x), FieldValue::BigInt(y)) => *x == *y,
        (FieldValue::Text(x), FieldValue::Text(y)) => *x == *y,
        (FieldValue::Date(x), FieldValue::Date(y)) => *x == *y,
        (FieldValue::Timestamp(x), FieldValue::Timestamp(y)) => *x == *y,
        (FieldValue::Uuid(x), FieldValue::Uuid(y)) => *x == *y,
        (FieldValue::Json(x), FieldValue::Json(y)) => *x == *y,
        _ => false,
    }
}

/// One table row: an ordered tuple of field values in schema order.
pub struct RowRecord {
    /// The field values, one per schema field, in declaration order.
    pub values: Vec<FieldValue>,
}

impl View for RowRecord {
    type V = Seq<AbstractValue>;

    open spec fn view(&self) -> Seq<AbstractValue> {
        Seq::new(self.values@.len(), |i: int| self.values@[i]@)
    }
}

impl RowRecord {
    /// Wraps a value vector as a row.
    pub fn new(values: Vec<FieldValue>) -> (r: RowRecord)
        ensures
            r@ == Seq::new(values@.len(), |i: int| values@[i]@),
    {
        RowRecord { values }
    }

    /// The number of fields in this row.
    pub fn arity(&self) -> (n: usize)
        ensures
            n == self@.len(),
    {
        self.values.len()
    }

    /// The field value at position `j`.
    pub fn value_at(&self, j: usize) -> (v: &FieldValue)
        requires
            j < self@.len(),
        ensures
            v@ == self@[j as int],
    {
        &self.values[j]
    }
}

/// The abstraction of a row sequence: each row as its sequence of abstract
/// field values.
pub open spec fn rows_view(rows: Seq<RowRecord>) -> Seq<Seq<AbstractValue>> {
    Seq::new(rows.len(), |i: int| rows[i]@)
}

/// Holds when every row of `rv` has exactly `field_count` fields.
pub open spec fn rows_uniform(rv: Seq<Seq<AbstractValue>>, field_count: int) -> bool {
    forall|i: int| 0 <= i < rv.len() ==> (#[trigger] rv[i]).len() == field_count
}

impl Clone for RowRecord {
    fn clone(&self) -> (res: Self)
        ensures
            res@ == self@,
    {
        let values = self.values.clone();
        proof {
            assert forall|i: int| 0 <= i < values@.len() implies values@[i]@
                == self.values@[i]@ by {
                assert(cloned::<FieldValue>(self.values@[i], values@[i]));
            }
            assert(Seq::new(values@.len(), |i: int| values@[i]@) =~= Seq::new(
                self.values@.len(),
                |i: int| self.values@[i]@,
            ));
        }
        RowRecord { values }
    }
}

} // verus!
