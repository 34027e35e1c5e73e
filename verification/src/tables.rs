//! Schema descriptors for the generated gateway tables.
//!
//! Each table type carries the ordered column list its statements bind, as
//! data: the transposer and the statement text must agree on column order,
//! and both take it from here.  The keyless table declares no conflict
//! target — its generator emitted an empty one, which is invalid — so the
//! library offers it no upsert; the other two tables share the natural key
//! `(the_name, the_small_int)`.

use vstd::prelude::*;

use crate::schema::{conflict_target_wf, ConflictTarget, FieldSpec, FieldSpecModel, FieldType, Schema};

verus! {

/// Appends one field descriptor to a field list under construction.
fn push_field(fields: &mut Vec<FieldSpec>, name: &str, field_type: FieldType, nullable: bool)
    ensures
        final(fields)@.len() == old(fields)@.len() + 1,
        forall|i: int| 0 <= i < old(fields)@.len() ==> final(fields)@[i] == #[trigger] old(
            fields,
        )@[i],
        final(fields)@[old(fields)@.len() as int]@ == (FieldSpecModel {
            name: name@,
            field_type,
            nullable,
        }),
{
    fields.push(FieldSpec::new(name, field_type, nullable));
}

/// Table gateway support for table `keyless`: a table with no primary key
/// or generated id.
pub struct TableKeyless {}

impl TableKeyless {
    /// The column list of `keyless`, in binding order.
    pub open spec fn spec_schema() -> Seq<FieldSpecModel> {
        seq![
            FieldSpecModel { name: "the_name"@, field_type: FieldType::Text, nullable: false },
            FieldSpecModel {
                name: "the_small_int"@,
                field_type: FieldType::SmallInt,
                nullable: false,
            },
            FieldSpecModel {
                name: "the_large_int"@,
                field_type: FieldType::BigInt,
                nullable: false,
            },
            FieldSpecModel { name: "the_big_int"@, field_type: FieldType::BigInt, nullable: false },
            FieldSpecModel { name: "the_date"@, field_type: FieldType::Date, nullable: false },
            FieldSpecModel {
                name: "the_general_int"@,
                field_type: FieldType::Integer,
                nullable: false,
            },
            FieldSpecModel {
                name: "the_date_time"@,
                field_type: FieldType::Timestamp,
                nullable: false,
            },
            FieldSpecModel { name: "the_uuid"@, field_type: FieldType::Uuid, nullable: false },
            FieldSpecModel { name: "the_ulong"@, field_type: FieldType::BigInt, nullable: false },
            FieldSpecModel { name: "the_json"@, field_type: FieldType::Json, nullable: false },
            FieldSpecModel { name: "the_jsonb"@, field_type: FieldType::Json, nullable: false },
            FieldSpecModel { name: "nullable_name"@, field_type: FieldType::Text, nullable: false },
            FieldSpecModel {
                name: "nullable_small_int"@,
                field_type: FieldType::SmallInt,
                nullable: true,
            },
            FieldSpecModel {
                name: "nullable_large_int"@,
                field_type: FieldType::BigInt,
                nullable: true,
            },
            FieldSpecModel {
                name: "nullable_big_int"@,
                field_type: FieldType::BigInt,
                nullable: true,
            },
            FieldSpecModel { name: "nullable_date"@, field_type: FieldType::Date, nullable: true },
            FieldSpecModel {
                name: "nullable_general_int"@,
                field_type: FieldType::Integer,
                nullable: true,
            },
            FieldSpecModel {
                name: "nullable_date_time"@,
                field_type: FieldType::Timestamp,
                nullable: true,
            },
            FieldSpecModel { name: "nullable_uuid"@, field_type: FieldType::Uuid, nullable: true },
            FieldSpecModel {
                name: "nullable_ulong"@,
                field_type: FieldType::BigInt,
                nullable: true,
            },
            FieldSpecModel { name: "nullable_json"@, field_type: FieldType::Json, nullable: true },
            FieldSpecModel {
                name: "nullable_jsonb"@,
                field_type: FieldType::Json,
                nullable: false,
            },
        ]
    }

    /// Builds the schema descriptor of `keyless`.
    pub fn schema() -> (r: Schema)
        ensures
            r@ == Self::spec_schema(),
            r.wf(),
            r@.len() == 22,
    {
        let mut fields: Vec<FieldSpec> = Vec::new();
        push_field(&mut fields, "the_name", FieldType::Text, false);
        push_field(&mut fields, "the_small_int", FieldType::SmallInt, false);
        push_field(&mut fields, "the_large_int", FieldType::BigInt, false);
        push_field(&mut fields, "the_big_int", FieldType::BigInt, false);
        push_field(&mut fields, "the_date", FieldType::Date, false);
        push_field(&mut fields, "the_general_int", FieldType::Integer, false);
        push_field(&mut fields, "the_date_time", FieldType::Timestamp, false);
        push_field(&mut fields, "the_uuid", FieldType::Uuid, false);
        push_field(&mut fields, "the_ulong", FieldType::BigInt, false);
        push_field(&mut fields, "the_json", FieldType::Json, false);
        push_field(&mut fields, "the_jsonb", FieldType::Json, false);
        push_field(&mut fields, "nullable_name", FieldType::Text, false);
        push_field(&mut fields, "nullable_small_int", FieldType::SmallInt, true);
        push_field(&mut fields, "nullable_large_int", FieldType::BigInt, true);
        push_field(&mut fields, "nullable_big_int", FieldType::BigInt, true);
        push_field(&mut fields, "nullable_date", FieldType::Date, true);
        push_field(&mut fields, "nullable_general_int", FieldType::Integer, true);
        push_field(&mut fields, "nullable_date_time", FieldType::Timestamp, true);
        push_field(&mut fields, "nullable_uuid", FieldType::Uuid, true);
        push_field(&mut fields, "nullable_ulong", FieldType::BigInt, true);
        push_field(&mut fields, "nullable_json", FieldType::Json, true);
        push_field(&mut fields, "nullable_jsonb", FieldType::Json, false);
        let r = Schema::new(fields);
        proof {
            assert(r@ =~= Self::spec_schema());
        }
        r
    }
}

/// Table gateway support for table `sample`: a table with a natural
/// primary key and no generated id.
pub struct TableSample {}

impl TableSample {
    /// The column list of `sample`, in binding order: the same columns as
    /// `keyless`, keyed by `(the_name, the_small_int)`.
    pub open spec fn spec_schema() -> Seq<FieldSpecModel> {
        TableKeyless::spec_schema()
    }

    /// Builds the schema descriptor of `sample`.
    pub fn schema() -> (r: Schema)
        ensures
            r@ == Self::spec_schema(),
            r.wf(),
            r@.len() == 22,
    {
        TableKeyless::schema()
    }

    /// The conflict target of `sample`'s upsert: the positions of
    /// `the_name` and `the_small_int`.
    pub fn conflict_target() -> (r: ConflictTarget)
        ensures
            r@ == seq![0int, 1int],
            conflict_target_wf(r@, 22),
    {
        let mut key_indices: Vec<usize> = Vec::new();
        key_indices.push(0);
        key_indices.push(1);
        let r = ConflictTarget::new(key_indices);
        proof {
            assert(r@ =~= seq![0int, 1int]);
        }
        r
    }
}

/// Primary key fields for `sample`.
#[derive(Debug, Clone)]
pub struct SamplePkey {
    /// Field for column `the_name`.
    pub the_name: String,
    /// Field for column `the_small_int`.
    pub the_small_int: i16,
}

impl SamplePkey {
    /// Reads the key fields out of a row laid out by `sample`'s schema.
    /// Fails when the row is too short or a key column holds a value of
    /// the wrong type.
    pub fn of_row(row: &crate::value::RowRecord) -> (r: Option<SamplePkey>)
        ensures
            match r {
                Some(k) => {
                    &&& row@.len() >= 2
                    &&& row@[0] == crate::value::AbstractValue::Text(k.the_name@)
                    &&& row@[1] == crate::value::AbstractValue::SmallInt(k.the_small_int as int)
                },
                None => row@.len() < 2 || !(row@[0] is Text) || !(row@[1] is SmallInt),
            },
    {
        if row.arity() < 2 {
            return None;
        }
        let name = match row.value_at(0) {
            crate::value::FieldValue::Text(s) => s.clone(),
            _ => {
                return None;
            },
        };
        let small = match row.value_at(1) {
            crate::value::FieldValue::SmallInt(v) => *v,
            _ => {
                return None;
            },
        };
        Some(SamplePkey { the_name: name, the_small_int: small })
    }
}

/// Table gateway support for table `sample_with_id`: a table with a
/// natural key and a generated `auto_id` returned by its insert
/// statements.
pub struct TableSampleWithId {}

impl TableSampleWithId {
    /// The column list of `sample_with_id`, in binding order.
    pub open spec fn spec_schema() -> Seq<FieldSpecModel> {
        seq![
            FieldSpecModel { name: "the_name"@, field_type: FieldType::Text, nullable: false },
            FieldSpecModel {
                name: "the_small_int"@,
                field_type: FieldType::SmallInt,
                nullable: false,
            },
            FieldSpecModel {
                name: "the_large_int"@,
                field_type: FieldType::BigInt,
                nullable: false,
            },
            FieldSpecModel { name: "the_big_int"@, field_type: FieldType::BigInt, nullable: false },
            FieldSpecModel { name: "the_date"@, field_type: FieldType::Date, nullable: false },
            FieldSpecModel {
                name: "the_general_int"@,
                field_type: FieldType::Integer,
                nullable: false,
            },
            FieldSpecModel {
                name: "the_date_time"@,
                field_type: FieldType::Timestamp,
                nullable: false,
            },
            FieldSpecModel { name: "the_uuid"@, field_type: FieldType::Uuid, nullable: false },
            FieldSpecModel { name: "the_ulong"@, field_type: FieldType::BigInt, nullable: false },
            FieldSpecModel { name: "nullable_name"@, field_type: FieldType::Text, nullable: false },
            FieldSpecModel {
                name: "nullable_small_int"@,
                field_type: FieldType::SmallInt,
                nullable: true,
            },
            FieldSpecModel {
                name: "nullable_large_int"@,
                field_type: FieldType::BigInt,
                nullable: true,
            },
            FieldSpecModel {
                name: "nullable_big_int"@,
                field_type: FieldType::BigInt,
                nullable: true,
            },
            FieldSpecModel { name: "nullable_date"@, field_type: FieldType::Date, nullable: true },
            FieldSpecModel {
                name: "nullable_general_int"@,
                field_type: FieldType::Integer,
                nullable: true,
            },
            FieldSpecModel {
                name: "nullable_date_time"@,
                field_type: FieldType::Timestamp,
                nullable: true,
            },
            FieldSpecModel { name: "nullable_uuid"@, field_type: FieldType::Uuid, nullable: true },
            FieldSpecModel {
                name: "nullable_ulong"@,
                field_type: FieldType::BigInt,
                nullable: true,
            },
        ]
    }

    /// Builds the schema descriptor of `sample_with_id`.
    pub fn schema() -> (r: Schema)
        ensures
            r@ == Self::spec_schema(),
            r.wf(),
            r@.len() == 18,
    {
        let mut fields: Vec<FieldSpec> = Vec::new();
        push_field(&mut fields, "the_name", FieldType::Text, false);
        push_field(&mut fields, "the_small_int", FieldType::SmallInt, false);
        push_field(&mut fields, "the_large_int", FieldType::BigInt, false);
        push_field(&mut fields, "the_big_int", FieldType::BigInt, false);
        push_field(&mut fields, "the_date", FieldType::Date, false);
        push_field(&mut fields, "the_general_int", FieldType::Integer, false);
        push_field(&mut fields, "the_date_time", FieldType::Timestamp, false);
        push_field(&mut fields, "the_uuid", FieldType::Uuid, false);
        push_field(&mut fields, "the_ulong", FieldType::BigInt, false);
        push_field(&mut fields, "nullable_name", FieldType::Text, false);
        push_field(&mut fields, "nullable_small_int", FieldType::SmallInt, true);
        push_field(&mut fields, "nullable_large_int", FieldType::BigInt, true);
        push_field(&mut fields, "nullable_big_int", FieldType::BigInt, true);
        push_field(&mut fields, "nullable_date", FieldType::Date, true);
        push_field(&mut fields, "nullable_general_int", FieldType::Integer, true);
        push_field(&mut fields, "nullable_date_time", FieldType::Timestamp, true);
        push_field(&mut fields, "nullable_uuid", FieldType::Uuid, true);
        push_field(&mut fields, "nullable_ulong", FieldType::BigInt, true);
        let r = Schema::new(fields);
        proof {
            assert(r@ =~= Self::spec_schema());
        }
        r
    }

    /// The conflict target of `sample_with_id`'s upsert: the positions of
    /// `the_name` and `the_small_int`.
    pub fn conflict_target() -> (r: ConflictTarget)
        ensures
            r@ == seq![0int, 1int],
            conflict_target_wf(r@, 18),
    {
        let mut key_indices: Vec<usize> = Vec::new();
        key_indices.push(0);
        key_indices.push(1);
        let r = ConflictTarget::new(key_indices);
        proof {
            assert(r@ =~= seq![0int, 1int]);
        }
        r
    }
}

/// Primary key fields for `sample_with_id`: its generated id.
#[derive(Debug, Clone)]
pub struct SampleWithIdPkey {
    /// Field for column `auto_id`.
    pub auto_id: i32,
}

impl SampleWithIdPkey {
    /// Wraps a generated id as the primary key, when it fits the column's
    /// 32-bit width.
    pub fn from_generated(id: i64) -> (r: Option<SampleWithIdPkey>)
        ensures
            match r {
                Some(k) => i32::MIN <= id <= i32::MAX && k.auto_id == id,
                None => id < i32::MIN || id > i32::MAX,
            },
    {
        if id >= i32::MIN as i64 && id <= i32::MAX as i64 {
            Some(SampleWithIdPkey { auto_id: id as i32 })
        } else {
            None
        }
    }
}

} // verus!
