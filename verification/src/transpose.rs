//! Columnar transposer.
//!
//! Partitions an ordered row sequence into contiguous runs of at most
//! `chunk_size` rows and turns each run into one [`ColumnBatch`]: one column
//! vector per field, the i-th element of every column belonging to the i-th
//! row of the run.  Row order is preserved within and across chunks, and
//! concatenating the rows of all batches in chunk order gives back the input
//! exactly.

use vstd::arithmetic::div_mod::lemma_fundamental_div_mod_converse;
use vstd::prelude::*;
use vstd::seq_lib::lemma_flatten_concat;

use crate::error::BulkError;
use crate::value::{rows_uniform, rows_view, AbstractValue, FieldValue, RowRecord};

verus! {

/// The number of chunks that a sequence of `n` rows yields under a chunk
/// size of `chunk_size`: zero for an empty input, otherwise the number of
/// full runs plus one for a shorter final run.
pub open spec fn num_chunks(n: int, chunk_size: int) -> int
    recommends
        chunk_size >= 1,
    decreases n,
{
    if n <= 0 || chunk_size <= 0 {
        0
    } else if n <= chunk_size {
        1
    } else {
        1 + num_chunks(n - chunk_size, chunk_size)
    }
}

/// Chunk `i` of `s`: the rows from position `i * chunk_size` up to the end
/// of the run (the final run may be shorter than `chunk_size`).
pub open spec fn chunk_of<T>(s: Seq<T>, chunk_size: int, i: int) -> Seq<T>
    recommends
        chunk_size >= 1,
        0 <= i < num_chunks(s.len() as int, chunk_size),
{
    s.subrange(
        i * chunk_size,
        if (i + 1) * chunk_size <= s.len() {
            (i + 1) * chunk_size
        } else {
            s.len() as int
        },
    )
}

/// All chunks of `s` in order.
pub open spec fn chunk_seq<T>(s: Seq<T>, chunk_size: int) -> Seq<Seq<T>>
    recommends
        chunk_size >= 1,
{
    Seq::new(num_chunks(s.len() as int, chunk_size) as nat, |i: int| chunk_of(s, chunk_size, i))
}

/// The chunk count lies strictly between the previous and the current
/// multiple of the chunk size.
pub proof fn lemma_num_chunks_sandwich(n: int, chunk_size: int)
    requires
        chunk_size >= 1,
        n >= 1,
    ensures
        num_chunks(n, chunk_size) >= 1,
        (num_chunks(n, chunk_size) - 1) * chunk_size < n,
        n <= num_chunks(n, chunk_size) * chunk_size,
    decreases n,
{
    if n <= chunk_size {
        assert(0 * chunk_size == 0) by (nonlinear_arith);
        assert(1 * chunk_size == chunk_size) by (nonlinear_arith);
    } else {
        lemma_num_chunks_sandwich(n - chunk_size, chunk_size);
        let k: int = num_chunks(n - chunk_size, chunk_size);
        assert(num_chunks(n, chunk_size) == k + 1);
        assert(k * chunk_size < n) by (nonlinear_arith)
            requires
                (k - 1) * chunk_size < n - chunk_size,
        ;
        assert(n <= (k + 1) * chunk_size) by (nonlinear_arith)
            requires
                n - chunk_size <= k * chunk_size,
        ;
        assert((k + 1 - 1) * chunk_size == k * chunk_size);
    }
}

/// The chunk count is the rounded-up quotient of the row count by the
/// chunk size.
pub proof fn lemma_num_chunks_is_ceil(n: int, chunk_size: int)
    requires
        chunk_size >= 1,
        n >= 0,
    ensures
        num_chunks(n, chunk_size) == (n + chunk_size - 1) / chunk_size,
{
    if n == 0 {
        assert(0 * chunk_size == 0) by (nonlinear_arith);
        lemma_fundamental_div_mod_converse(chunk_size - 1, chunk_size, 0, chunk_size - 1);
    } else {
        lemma_num_chunks_sandwich(n, chunk_size);
        let k: int = num_chunks(n, chunk_size);
        let m: int = n - (k - 1) * chunk_size;
        assert((k - 1) * chunk_size + chunk_size == k * chunk_size) by (nonlinear_arith);
        assert(n + chunk_size - 1 == k * chunk_size + (m - 1)) by (nonlinear_arith)
            requires
                m == n - (k - 1) * chunk_size,
        ;
        lemma_fundamental_div_mod_converse(n + chunk_size - 1, chunk_size, k, m - 1);
    }
}

/// Entering one more run of `1..=chunk_size` rows after `m` full runs
/// raises the chunk count to `m + 1`.
pub proof fn lemma_num_chunks_step(m: int, e: int, chunk_size: int)
    requires
        chunk_size >= 1,
        m >= 0,
        m * chunk_size < e <= m * chunk_size + chunk_size,
    ensures
        num_chunks(e, chunk_size) == m + 1,
    decreases m,
{
    if m == 0 {
        assert(0 * chunk_size == 0) by (nonlinear_arith);
    } else {
        assert((m - 1) * chunk_size == m * chunk_size - chunk_size) by (nonlinear_arith);
        assert(m * chunk_size >= chunk_size) by (nonlinear_arith)
            requires
                m >= 1,
                chunk_size >= 1,
        ;
        lemma_num_chunks_step(m - 1, e - chunk_size, chunk_size);
    }
}

/// Every chunk but the last has exactly `chunk_size` rows; the last has
/// `n % chunk_size` rows, or `chunk_size` when the row count is an exact
/// multiple of the chunk size.  Together with
/// [`lemma_num_chunks_is_ceil`] this pins the whole chunk layout of a
/// non-empty input.
pub proof fn lemma_chunk_sizes(s: Seq<Seq<AbstractValue>>, chunk_size: int)
    requires
        chunk_size >= 1,
        s.len() >= 1,
    ensures
        chunk_seq(s, chunk_size).len() == num_chunks(s.len() as int, chunk_size),
        forall|i: int|
            0 <= i < num_chunks(s.len() as int, chunk_size) - 1 ==> #[trigger] chunk_of(
                s,
                chunk_size,
                i,
            ).len() == chunk_size,
        chunk_of(s, chunk_size, num_chunks(s.len() as int, chunk_size) - 1).len() == (
        if s.len() as int % chunk_size == 0 {
            chunk_size
        } else {
            s.len() as int % chunk_size
        }),
{
    let n: int = s.len() as int;
    let k: int = num_chunks(n, chunk_size);
    lemma_num_chunks_sandwich(n, chunk_size);
    assert forall|i: int| 0 <= i < k - 1 implies #[trigger] chunk_of(s, chunk_size, i).len()
        == chunk_size by {
        assert((i + 1) * chunk_size <= (k - 1) * chunk_size) by (nonlinear_arith)
            requires
                i + 1 <= k - 1,
                chunk_size >= 1,
        ;
        assert(i * chunk_size >= 0) by (nonlinear_arith)
            requires
                i >= 0,
                chunk_size >= 1,
        ;
        assert((i + 1) * chunk_size == i * chunk_size + chunk_size) by (nonlinear_arith);
    }
    let m: int = n - (k - 1) * chunk_size;
    assert((k - 1) * chunk_size >= 0) by (nonlinear_arith)
        requires
            k >= 1,
            chunk_size >= 1,
    ;
    assert(k * chunk_size == (k - 1) * chunk_size + chunk_size) by (nonlinear_arith);
    assert(chunk_of(s, chunk_size, k - 1).len() == m);
    if m == chunk_size {
        lemma_fundamental_div_mod_converse(n, chunk_size, k, 0);
    } else {
        lemma_fundamental_div_mod_converse(n, chunk_size, k - 1, m);
    }
}

/// Concatenating the chunks of `s` in order gives back `s` exactly.
pub proof fn lemma_chunk_seq_flatten<T>(s: Seq<T>, chunk_size: int)
    requires
        chunk_size >= 1,
    ensures
        chunk_seq(s, chunk_size).flatten() == s,
    decreases s.len(),
{
    let n: int = s.len() as int;
    if n == 0 {
        assert(chunk_seq(s, chunk_size) =~= Seq::<Seq<T>>::empty());
        assert(chunk_seq(s, chunk_size).flatten() =~= s);
    } else if n <= chunk_size {
        assert(0 * chunk_size == 0) by (nonlinear_arith);
        assert(1 * chunk_size == chunk_size) by (nonlinear_arith);
        assert(chunk_of(s, chunk_size, 0) =~= s);
        assert(chunk_seq(s, chunk_size) =~= seq![s]);
        chunk_seq(s, chunk_size).lemma_flatten_one_element();
    } else {
        assert(0 * chunk_size == 0) by (nonlinear_arith);
        assert(1 * chunk_size == chunk_size) by (nonlinear_arith);
        let rest = s.skip(chunk_size);
        lemma_chunk_seq_flatten(rest, chunk_size);
        lemma_num_chunks_sandwich(n, chunk_size);
        let k: int = num_chunks(n, chunk_size);
        let head = seq![chunk_of(s, chunk_size, 0)];
        assert(chunk_seq(s, chunk_size) =~= head + chunk_seq(rest, chunk_size)) by {
            assert forall|i: int| 1 <= i < k implies chunk_of(s, chunk_size, i) =~= chunk_of(
                rest,
                chunk_size,
                i - 1,
            ) by {
                assert(i * chunk_size == (i - 1) * chunk_size + chunk_size) by (nonlinear_arith);
                assert((i - 1 + 1) * chunk_size == (i - 1) * chunk_size + chunk_size)
                    by (nonlinear_arith);
                assert((i + 1) * chunk_size == i * chunk_size + chunk_size) by (nonlinear_arith);
                assert(i * chunk_size >= chunk_size) by (nonlinear_arith)
                    requires
                        i >= 1,
                        chunk_size >= 1,
                ;
                assert(i * chunk_size <= (k - 1) * chunk_size) by (nonlinear_arith)
                    requires
                        i <= k - 1,
                        chunk_size >= 1,
                ;
            }
        }
        lemma_flatten_concat(head, chunk_seq(rest, chunk_size));
        head.lemma_flatten_one_element();
        assert(head.flatten() + chunk_seq(rest, chunk_size).flatten() =~= s);
    }
}

/// One column-major parameter batch: one column vector per schema field,
/// all of the same length, holding one chunk's rows.
pub struct ColumnBatch {
    /// The column vectors, one per field, in schema order.
    pub columns: Vec<Vec<FieldValue>>,
}

impl View for ColumnBatch {
    type V = Seq<Seq<AbstractValue>>;

    open spec fn view(&self) -> Seq<Seq<AbstractValue>> {
        Seq::new(
            self.columns@.len(),
            |j: int| Seq::new(self.columns@[j]@.len(), |i: int| self.columns@[j]@[i]@),
        )
    }
}

/// The number of rows a batch holds: the length of its first column.
pub open spec fn batch_row_count(b: Seq<Seq<AbstractValue>>) -> nat {
    if b.len() == 0 {
        0
    } else {
        b[0].len()
    }
}

/// The rows of a batch, rebuilt from its columns: row `i` is the i-th
/// element of every column, in field order.
pub open spec fn batch_rows(b: Seq<Seq<AbstractValue>>, field_count: nat) -> Seq<
    Seq<AbstractValue>,
> {
    Seq::new(batch_row_count(b), |i: int| Seq::new(field_count, |j: int| b[j][i]))
}

/// Holds when batch `b` is the column-major image of the row run `chunk`
/// under `field_count` fields: `field_count` columns, each as long as the
/// run, with the i-th element of column `j` equal to field `j` of row `i`.
pub open spec fn batch_matches_chunk(
    b: Seq<Seq<AbstractValue>>,
    chunk: Seq<Seq<AbstractValue>>,
    field_count: int,
) -> bool {
    &&& b.len() == field_count
    &&& forall|j: int| 0 <= j < field_count ==> (#[trigger] b[j]).len() == chunk.len()
    &&& forall|i: int, j: int|
        0 <= i < chunk.len() && 0 <= j < field_count ==> #[trigger] b[j][i] == chunk[i][j]
}

/// Holds when `bv` is exactly the chunked column-major image of the row
/// sequence `rv`: one well-formed batch per chunk, in chunk order.
pub open spec fn batches_match_chunks(
    bv: Seq<Seq<Seq<AbstractValue>>>,
    rv: Seq<Seq<AbstractValue>>,
    chunk_size: int,
    field_count: int,
) -> bool {
    &&& bv.len() == num_chunks(rv.len() as int, chunk_size)
    &&& forall|i: int|
        0 <= i < bv.len() ==> batch_matches_chunk(
            #[trigger] bv[i],
            chunk_of(rv, chunk_size, i),
            field_count,
        )
}

/// The abstraction of a batch vector: each batch as its column sequences.
pub open spec fn batches_view(bs: Seq<ColumnBatch>) -> Seq<Seq<Seq<AbstractValue>>> {
    Seq::new(bs.len(), |i: int| bs[i]@)
}

impl ColumnBatch {
    /// The number of column vectors in this batch.
    pub fn field_count(&self) -> (n: usize)
        ensures
            n == self@.len(),
    {
        self.columns.len()
    }

    /// The number of rows this batch covers.
    pub fn row_count(&self) -> (n: usize)
        ensures
            n == batch_row_count(self@),
    {
        if self.columns.len() == 0 {
            0
        } else {
            self.columns[0].len()
        }
    }

    /// Rebuilds row `i` of this batch from its columns: the i-th element
    /// of every column vector, in field order.
    pub fn row_at(&self, i: usize) -> (r: RowRecord)
        requires
            i < batch_row_count(self@),
            forall|j: int| 0 <= j < self@.len() ==> (#[trigger] self@[j]).len() == batch_row_count(self@),
        ensures
            r@ == batch_rows(self@, self@.len() as nat)[i as int],
    {
        let f = self.columns.len();
        let mut values: Vec<FieldValue> = Vec::new();
        let mut j: usize = 0;
        while j < f
            invariant
                f == self@.len(),
                i < batch_row_count(self@),
                forall|jj: int|
                    0 <= jj < self@.len() ==> (#[trigger] self@[jj]).len() == batch_row_count(
                        self@,
                    ),
                j <= f,
                values@.len() == j,
                forall|jj: int| 0 <= jj < j ==> (#[trigger] values@[jj])@ == self@[jj][i as int],
            decreases f - j,
        {
            let col = self.column(j);
            let v = col[i].clone();
            values.push(v);
            j = j + 1;
        }
        let r = RowRecord::new(values);
        proof {
            assert(r@ =~= batch_rows(self@, self@.len() as nat)[i as int]);
        }
        r
    }

    /// The column vector for field `j`.
    pub fn column(&self, j: usize) -> (c: &Vec<FieldValue>)
        requires
            j < self@.len(),
        ensures
            c@.len() == self@[j as int].len(),
            forall|i: int| 0 <= i < c@.len() ==> (#[trigger] c@[i])@ == self@[j as int][i],
    {
        &self.columns[j]
    }
}

/// Partitions `rows` into runs of at most `chunk_size` and builds one
/// column-major batch per run, preserving row order within and across runs.
/// A chunk size of zero is rejected as an invalid configuration; an empty
/// input yields zero batches.
pub fn transpose_rows(rows: &Vec<RowRecord>, field_count: usize, chunk_size: usize) -> (r: Result<
    Vec<ColumnBatch>,
    BulkError,
>)
    requires
        field_count >= 1,
        rows_uniform(rows_view(rows@), field_count as int),
    ensures
        match r {
            Ok(batches) => chunk_size >= 1 && batches_match_chunks(
                batches_view(batches@),
                rows_view(rows@),
                chunk_size as int,
                field_count as int,
            ),
            Err(e) => chunk_size == 0 && e is InvalidConfiguration,
        },
{
    if chunk_size == 0 {
        return Err(BulkError::InvalidConfiguration);
    }
    let ghost rv = rows_view(rows@);
    let ghost cs = chunk_size as int;
    let ghost f = field_count as int;
    let n = rows.len();
    let mut batches: Vec<ColumnBatch> = Vec::new();
    let mut start: usize = 0;
    proof {
        assert(0 * cs == 0) by (nonlinear_arith);
    }
    while start < n
        invariant
            chunk_size >= 1,
            field_count >= 1,
            cs == chunk_size as int,
            f == field_count as int,
            n == rows@.len(),
            rv == rows_view(rows@),
            rows_uniform(rv, f),
            start <= n,
            batches@.len() == num_chunks(start as int, cs),
            start as int == batches@.len() * cs || start == n,
            forall|i: int|
                0 <= i < batches@.len() ==> batch_matches_chunk(
                    (#[trigger] batches@[i])@,
                    chunk_of(rv, cs, i),
                    f,
                ),
        decreases n - start,
    {
        let end = if n - start <= chunk_size {
            n
        } else {
            start + chunk_size
        };
        let len = end - start;
        let ghost k = batches@.len() as int;
        proof {
            assert(start as int == k * cs);
            assert(chunk_of(rv, cs, k) =~= rv.subrange(
                start as int,
                end as int,
            )) by {
                assert(k * cs + cs == (k + 1) * cs) by (nonlinear_arith);
            }
        }
        let mut columns: Vec<Vec<FieldValue>> = Vec::new();
        let mut j: usize = 0;
        while j < field_count
            invariant
                chunk_size >= 1,
                field_count >= 1,
                f == field_count as int,
                n == rows@.len(),
                rv == rows_view(rows@),
                rows_uniform(rv, f),
                start <= end <= n,
                len == end - start,
                j <= field_count,
                columns@.len() == j,
                forall|jj: int| 0 <= jj < j ==> (#[trigger] columns@[jj])@.len() == len,
                forall|jj: int, ii: int|
                    0 <= jj < j && 0 <= ii < len ==> (#[trigger] columns@[jj]@[ii])@ == rv[start
                        + ii][jj],
            decreases field_count - j,
        {
            let mut col: Vec<FieldValue> = Vec::new();
            let mut i = start;
            while i < end
                invariant
                    n == rows@.len(),
                    rv == rows_view(rows@),
                    rows_uniform(rv, f),
                    start <= i <= end <= n,
                    j < field_count,
                    f == field_count as int,
                    col@.len() == i - start,
                    forall|ii: int|
                        0 <= ii < i - start ==> (#[trigger] col@[ii])@ == rv[start + ii][j as int],
                decreases end - i,
            {
                let row: &RowRecord = &rows[i];
                proof {
                    assert(row@ == rv[i as int]);
                    assert(rv[i as int].len() == f);
                }
                let v = row.value_at(j).clone();
                col.push(v);
                i = i + 1;
            }
            columns.push(col);
            j = j + 1;
        }
        let batch = ColumnBatch { columns };
        proof {
            let chunk = chunk_of(rv, cs, k);
            assert(batch@.len() == f);
            assert forall|jj: int| 0 <= jj < f implies (#[trigger] batch@[jj]).len()
                == chunk.len() by {}
            assert forall|ii: int, jj: int|
                0 <= ii < chunk.len() && 0 <= jj < f implies #[trigger] batch@[jj][ii]
                == chunk[ii][jj] by {}
            assert(batch_matches_chunk(batch@, chunk, f));
            lemma_num_chunks_step(k, end as int, cs);
            assert(k * cs + cs == (k + 1) * cs) by (nonlinear_arith);
        }
        batches.push(batch);
        start = end;
    }
    Ok(batches)
}

/// The rows of batch `i`, rebuilt from its columns, are exactly chunk `i`
/// of the input.
pub proof fn lemma_batch_rows_of_chunk(
    bv: Seq<Seq<Seq<AbstractValue>>>,
    rv: Seq<Seq<AbstractValue>>,
    chunk_size: int,
    field_count: int,
    i: int,
)
    requires
        chunk_size >= 1,
        field_count >= 1,
        rows_uniform(rv, field_count),
        batches_match_chunks(bv, rv, chunk_size, field_count),
        0 <= i < bv.len(),
    ensures
        batch_rows(bv[i], field_count as nat) == chunk_of(rv, chunk_size, i),
{
    let b = bv[i];
    let chunk = chunk_of(rv, chunk_size, i);
    let k: int = num_chunks(rv.len() as int, chunk_size);
    lemma_num_chunks_sandwich(rv.len() as int, chunk_size);
    assert(i * chunk_size >= 0) by (nonlinear_arith)
        requires
            i >= 0,
            chunk_size >= 1,
    ;
    assert(i * chunk_size <= (k - 1) * chunk_size) by (nonlinear_arith)
        requires
            i <= k - 1,
            chunk_size >= 1,
    ;
    assert((i + 1) * chunk_size == i * chunk_size + chunk_size) by (nonlinear_arith);
    assert(batch_row_count(b) == chunk.len());
    assert forall|ii: int| 0 <= ii < chunk.len() implies Seq::new(
        field_count as nat,
        |j: int| b[j][ii],
    ) =~= chunk[ii] by {
        assert(chunk[ii] == rv[i * chunk_size + ii]);
        assert(rv[i * chunk_size + ii].len() == field_count);
    }
    assert(batch_rows(b, field_count as nat) =~= chunk);
}

/// Concatenating the rows of all batches in chunk order reconstructs the
/// original input row sequence exactly.
pub proof fn lemma_batches_reconstruct_rows(
    bv: Seq<Seq<Seq<AbstractValue>>>,
    rv: Seq<Seq<AbstractValue>>,
    chunk_size: int,
    field_count: int,
)
    requires
        chunk_size >= 1,
        field_count >= 1,
        rows_uniform(rv, field_count),
        batches_match_chunks(bv, rv, chunk_size, field_count),
    ensures
        Seq::new(bv.len(), |i: int| batch_rows(bv[i], field_count as nat)).flatten() == rv,
{
    assert forall|i: int| 0 <= i < bv.len() implies batch_rows(bv[i], field_count as nat)
        == chunk_of(rv, chunk_size, i) by {
        lemma_batch_rows_of_chunk(bv, rv, chunk_size, field_count, i);
    }
    assert(Seq::new(bv.len(), |i: int| batch_rows(bv[i], field_count as nat)) =~= chunk_seq(
        rv,
        chunk_size,
    ));
    lemma_chunk_seq_flatten(rv, chunk_size);
}

/// Every batch of a finished transposition has exactly `field_count`
/// column vectors, each as long as the batch's own row count.
pub proof fn lemma_batches_well_formed(
    bv: Seq<Seq<Seq<AbstractValue>>>,
    rv: Seq<Seq<AbstractValue>>,
    chunk_size: int,
    field_count: int,
)
    requires
        chunk_size >= 1,
        field_count >= 1,
        batches_match_chunks(bv, rv, chunk_size, field_count),
    ensures
        forall|i: int| 0 <= i < bv.len() ==> (#[trigger] bv[i]).len() == field_count,
        forall|i: int, j: int|
            0 <= i < bv.len() && 0 <= j < field_count ==> (#[trigger] bv[i][j]).len()
                == batch_row_count(bv[i]),
{
    assert forall|i: int, j: int|
        0 <= i < bv.len() && 0 <= j < field_count implies (#[trigger] bv[i][j]).len()
        == batch_row_count(bv[i]) by {
        assert(bv[i][j].len() == chunk_of(rv, chunk_size, i).len());
        assert(bv[i][0].len() == chunk_of(rv, chunk_size, i).len());
    }
}

/// A chunk size at least as large as the whole input yields exactly one
/// chunk holding the input unchanged, and an empty input yields none.
pub proof fn lemma_single_chunk<T>(s: Seq<T>, chunk_size: int)
    requires
        chunk_size >= 1,
        s.len() <= chunk_size,
    ensures
        s.len() == 0 ==> chunk_seq(s, chunk_size) == Seq::<Seq<T>>::empty(),
        s.len() >= 1 ==> chunk_seq(s, chunk_size) == seq![s],
{
    if s.len() == 0 {
        assert(chunk_seq(s, chunk_size) =~= Seq::<Seq<T>>::empty());
    } else {
        assert(0 * chunk_size == 0) by (nonlinear_arith);
        assert(1 * chunk_size == chunk_size) by (nonlinear_arith);
        assert(chunk_of(s, chunk_size, 0) =~= s);
        assert(chunk_seq(s, chunk_size) =~= seq![s]);
    }
}

} // verus!
