//! Row schema descriptor.
//!
//! Purely descriptive metadata about a record type: the ordered field list,
//! each field's semantic type and nullability.  Its only job is to keep the
//! column order consistent between the transposer and the statement's
//! binding order; it validates no row contents.

use vstd::prelude::*;

verus! {

/// The semantic type of one column.
pub enum FieldType {
    /// A boolean column.
    Boolean,
    /// A 16-bit integer column.
    SmallInt,
    /// A 32-bit integer column.
    Integer,
    /// A 64-bit integer column.
    BigInt,
    /// A text column.
    Text,
    /// A date column.
    Date,
    /// A timestamp column.
    Timestamp,
    /// A universally unique identifier column.
    Uuid,
    /// A JSON document column.
    Json,
}

/// One field of a record type: its column name, semantic type and
/// nullability, in declaration order.
pub struct FieldSpec {
    /// The column name bound by this field.
    pub name: String,
    /// The semantic type of the column.
    pub field_type: FieldType,
    /// Whether the column admits an absent value.
    pub nullable: bool,
}

/// The abstraction of a [`FieldSpec`]: the name as a character sequence.
pub struct FieldSpecModel {
    /// The column name.
    pub name: Seq<char>,
    /// The semantic type of the column.
    pub field_type: FieldType,
    /// Whether the column admits an absent value.
    pub nullable: bool,
}

impl View for FieldSpec {
    type V = FieldSpecModel;

    open spec fn view(&self) -> FieldSpecModel {
        FieldSpecModel { name: self.name@, field_type: self.field_type, nullable: self.nullable }
    }
}

impl FieldSpec {
    /// Builds one field descriptor from a column name literal.
    pub fn new(name: &str, field_type: FieldType, nullable: bool) -> (r: FieldSpec)
        ensures
            r@ == (FieldSpecModel { name: name@, field_type, nullable }),
    {
        FieldSpec { name: String::from_str(name), field_type, nullable }
    }
}

/// The ordered field list of one record type.
pub struct Schema {
    /// The fields, in the declaration order of the record type, which is
    /// also the positional binding order of the statement parameters.
    pub fields: Vec<FieldSpec>,
}

impl View for Schema {
    type V = Seq<FieldSpecModel>;

    open spec fn view(&self) -> Seq<FieldSpecModel> {
        Seq::new(self.fields@.len(), |i: int| self.fields@[i]@)
    }
}

impl Schema {
    /// A usable schema describes at least one column.
    pub open spec fn wf(self) -> bool {
        self@.len() >= 1
    }

    /// Wraps an ordered field list as a schema.
    pub fn new(fields: Vec<FieldSpec>) -> (r: Schema)
        ensures
            r@ == Seq::new(fields@.len(), |i: int| fields@[i]@),
    {
        Schema { fields }
    }

    /// The number of fields, and so the number of column vectors of every
    /// batch built against this schema.
    pub fn field_count(&self) -> (n: usize)
        ensures
            n == self@.len(),
    {
        self.fields.len()
    }

    /// The field descriptor at position `i`.
    pub fn field_at(&self, i: usize) -> (f: &FieldSpec)
        requires
            i < self@.len(),
        ensures
            f@ == self@[i as int],
    {
        &self.fields[i]
    }
}

/// The conflict target of an upsert: the positions of the key columns that
/// detect a pre-existing row.  An upsert overwrites every non-key column of
/// the found row with the incoming value.
pub struct ConflictTarget {
    /// Positions of the key columns within the schema's field list.
    pub key_indices: Vec<usize>,
}

impl View for ConflictTarget {
    type V = Seq<int>;

    open spec fn view(&self) -> Seq<int> {
        Seq::new(self.key_indices@.len(), |i: int| self.key_indices@[i] as int)
    }
}

/// Holds when `key` is a usable conflict target against `field_count`
/// fields: non-empty, every index in range, no index repeated.  An empty
/// target is rejected outright rather than passed through to the statement.
pub open spec fn conflict_target_wf(key: Seq<int>, field_count: int) -> bool {
    &&& key.len() >= 1
    &&& forall|i: int| 0 <= i < key.len() ==> 0 <= #[trigger] key[i] < field_count
    &&& forall|i: int, j: int|
        0 <= i < key.len() && 0 <= j < key.len() && i != j ==> #[trigger] key[i] != #[trigger] key[j]
}

impl ConflictTarget {
    /// Wraps a key column index list as a conflict target.
    pub fn new(key_indices: Vec<usize>) -> (r: ConflictTarget)
        ensures
            r@ == Seq::new(key_indices@.len(), |i: int| key_indices@[i] as int),
    {
        ConflictTarget { key_indices }
    }

    /// The number of key columns.
    pub fn key_count(&self) -> (n: usize)
        ensures
            n == self@.len(),
    {
        self.key_indices.len()
    }

    /// The key column position at slot `j` of the target.
    pub fn key_at(&self, j: usize) -> (i: usize)
        requires
            j < self@.len(),
        ensures
            i as int == self@[j as int],
    {
        self.key_indices[j]
    }

    /// Decides whether this target is usable against a schema of
    /// `field_count` fields.
    pub fn is_valid_for(&self, field_count: usize) -> (r: bool)
        ensures
            r == conflict_target_wf(self@, field_count as int),
    {
        let n = self.key_indices.len();
        if n == 0 {
            return false;
        }
        let mut i: usize = 0;
        while i < n
            invariant
                n == self@.len(),
                i <= n,
                forall|ii: int| 0 <= ii < i ==> 0 <= #[trigger] self@[ii] < field_count as int,
                forall|ii: int, jj: int|
                    0 <= ii < i && 0 <= jj < i && ii != jj ==> #[trigger] self@[ii]
                        != #[trigger] self@[jj],
            decreases n - i,
        {
            if self.key_indices[i] >= field_count {
                proof {
                    assert(self@[i as int] >= field_count as int);
                }
                return false;
            }
            let mut j: usize = 0;
            while j < i
                invariant
                    n == self@.len(),
                    i < n,
                    j <= i,
                    forall|jj: int| 0 <= jj < j ==> self@[i as int] != #[trigger] self@[jj],
                decreases i - j,
            {
                if self.key_indices[j] == self.key_indices[i] {
                    proof {
                        assert(self@[j as int] == self@[i as int]);
                    }
                    return false;
                }
                j = j + 1;
            }
            i = i + 1;
        }
        true
    }
}

} // verus!
