//! Outcome aggregator.
//!
//! A [`BulkRun`] drives one bulk call chunk by chunk: it plans the batches,
//! hands them out strictly in order, and folds the per-chunk outcomes into
//! one terminal result.  The first failing chunk ends the run; the chunks
//! before it stay committed and the failure records exactly how much work
//! they covered.  No chunk after a failure is ever handed out.

use vstd::prelude::*;

use crate::error::BulkError;
use crate::transpose::{
    batch_row_count, batches_match_chunks, batches_view, num_chunks, transpose_rows, ColumnBatch,
};
use crate::value::{rows_uniform, rows_view, AbstractValue, RowRecord};

verus! {

/// The input rows covered by the first `m` chunks: `m` full runs, capped at
/// the total row count once the final, possibly shorter run is in.
pub open spec fn rows_covered(n: int, chunk_size: int, m: int) -> int {
    if m < num_chunks(n, chunk_size) {
        m * chunk_size
    } else {
        n
    }
}

/// Executing chunk `m` extends the covered prefix by exactly that chunk's
/// row count, never past the end of the input.
pub proof fn lemma_rows_covered_step(n: int, chunk_size: int, m: int)
    requires
        chunk_size >= 1,
        0 <= m < num_chunks(n, chunk_size),
    ensures
        m * chunk_size >= 0,
        (m + 1) * chunk_size == m * chunk_size + chunk_size,
        rows_covered(n, chunk_size, m) == m * chunk_size,
        m * chunk_size < n,
        rows_covered(n, chunk_size, m + 1) == (
        if (m + 1) * chunk_size <= n {
            (m + 1) * chunk_size
        } else {
            n
        }),
        rows_covered(n, chunk_size, m + 1) <= n,
{
    let k: int = num_chunks(n, chunk_size);
    assert(n >= 1);
    crate::transpose::lemma_num_chunks_sandwich(n, chunk_size);
    assert(m * chunk_size >= 0) by (nonlinear_arith)
        requires
            m >= 0,
            chunk_size >= 1,
    ;
    assert((m + 1) * chunk_size == m * chunk_size + chunk_size) by (nonlinear_arith);
    assert(m * chunk_size <= (k - 1) * chunk_size) by (nonlinear_arith)
        requires
            m <= k - 1,
            chunk_size >= 1,
    ;
    if m + 1 < k {
        assert((m + 1) * chunk_size <= (k - 1) * chunk_size) by (nonlinear_arith)
            requires
                m + 1 <= k - 1,
                chunk_size >= 1,
        ;
    }
}

/// One bulk call in progress: the planned batches, the cursor of the next
/// chunk to execute, and everything the finished or failed call reports.
pub struct BulkRun {
    /// The planned column batches, one per chunk, in chunk order.
    pub batches: Vec<ColumnBatch>,
    /// Index of the next chunk to execute; also the number of chunks that
    /// have committed so far.
    pub next_chunk: usize,
    /// Input rows covered by the committed chunks.
    pub rows_done: usize,
    /// The affected-row count each committed chunk reported, in chunk order.
    pub affected: Vec<u64>,
    /// Generated ids collected from the committed chunks, concatenated in
    /// chunk order.
    pub ids: Vec<i64>,
    /// The failure that ended the run, if one chunk's statement failed.
    pub failure: Option<BulkError>,
    /// The abstract input rows this run was planned from.
    pub rows: Ghost<Seq<Seq<AbstractValue>>>,
    /// The configured chunk size.
    pub chunk_size: Ghost<int>,
    /// The number of fields of every input row.
    pub field_count: Ghost<int>,
}

impl BulkRun {
    /// The internal consistency of a run: the batches are exactly the
    /// chunked column-major image of the input, the cursor is in range,
    /// and the committed prefix is accounted row by row.
    pub open spec fn wf(self) -> bool {
        &&& self.chunk_size@ >= 1
        &&& self.field_count@ >= 1
        &&& self.rows@.len() <= usize::MAX
        &&& rows_uniform(self.rows@, self.field_count@)
        &&& batches_match_chunks(
            batches_view(self.batches@),
            self.rows@,
            self.chunk_size@,
            self.field_count@,
        )
        &&& self.next_chunk <= self.batches@.len()
        &&& self.affected@.len() == self.next_chunk
        &&& self.rows_done as int == rows_covered(
            self.rows@.len() as int,
            self.chunk_size@,
            self.next_chunk as int,
        )
    }

    /// The run ended because one chunk's statement failed.
    pub open spec fn is_failed(self) -> bool {
        self.failure is Some
    }

    /// Every chunk committed; the run is complete.
    pub open spec fn is_completed(self) -> bool {
        self.failure is None && self.next_chunk == self.batches@.len()
    }

    /// Chunks remain and no failure has occurred.
    pub open spec fn is_streaming(self) -> bool {
        self.failure is None && self.next_chunk < self.batches@.len()
    }

    /// Plans a bulk call over `rows`: transposes the input into column
    /// batches and positions the cursor before the first chunk.  An empty
    /// input starts in the completed state with zero rows covered.
    pub fn start(rows: &Vec<RowRecord>, field_count: usize, chunk_size: usize) -> (r: Result<
        BulkRun,
        BulkError,
    >)
        requires
            field_count >= 1,
            rows_uniform(rows_view(rows@), field_count as int),
        ensures
            match r {
                Ok(run) => {
                    &&& chunk_size >= 1
                    &&& run.wf()
                    &&& run.rows@ == rows_view(rows@)
                    &&& run.chunk_size@ == chunk_size as int
                    &&& run.field_count@ == field_count as int
                    &&& run.next_chunk == 0
                    &&& run.rows_done == 0
                    &&& run.affected@ == Seq::<u64>::empty()
                    &&& run.ids@ == Seq::<i64>::empty()
                    &&& run.failure is None
                },
                Err(e) => chunk_size == 0 && e is InvalidConfiguration,
            },
    {
        let row_total = rows.len();
        let batches = match transpose_rows(rows, field_count, chunk_size) {
            Ok(batches) => batches,
            Err(e) => {
                return Err(e);
            },
        };
        proof {
            assert(rows_view(rows@).len() == row_total as int);
            assert(0 * chunk_size as int == 0) by (nonlinear_arith);
            let n = rows_view(rows@).len() as int;
            if n >= 1 {
                crate::transpose::lemma_num_chunks_sandwich(n, chunk_size as int);
            }
            assert(rows_covered(n, chunk_size as int, 0) == 0);
        }
        let run = BulkRun {
            batches,
            next_chunk: 0,
            rows_done: 0,
            affected: Vec::new(),
            ids: Vec::new(),
            failure: None,
            rows: Ghost(rows_view(rows@)),
            chunk_size: Ghost(chunk_size as int),
            field_count: Ghost(field_count as int),
        };
        Ok(run)
    }

    /// The number of chunks this run plans to execute in all.
    pub fn chunks_planned(&self) -> (n: usize)
        ensures
            n == self.batches@.len(),
    {
        self.batches.len()
    }

    /// The number of chunks that have committed so far.
    pub fn chunks_committed(&self) -> (n: usize)
        ensures
            n == self.next_chunk,
    {
        self.next_chunk
    }

    /// The number of input rows covered by the committed chunks.
    pub fn rows_committed(&self) -> (n: usize)
        ensures
            n == self.rows_done,
    {
        self.rows_done
    }

    /// Whether the run has reached a terminal state, completed or failed.
    pub fn is_done(&self) -> (r: bool)
        requires
            self.wf(),
        ensures
            r == (self.is_completed() || self.is_failed()),
            r == !self.is_streaming(),
    {
        if self.failure.is_some() {
            true
        } else {
            self.next_chunk >= self.batches.len()
        }
    }

    /// The next batch to execute, in chunk order, or nothing once the run
    /// is terminal.  A failed run never hands out another batch.
    pub fn current_batch(&self) -> (b: Option<&ColumnBatch>)
        ensures
            match b {
                Some(batch) => self.is_streaming() && batch@ == batches_view(
                    self.batches@,
                )[self.next_chunk as int],
                None => !self.is_streaming(),
            },
    {
        if self.failure.is_some() {
            None
        } else {
            if self.next_chunk < self.batches.len() {
                Some(&self.batches[self.next_chunk])
            } else {
                None
            }
        }
    }

    /// Records the successful execution of the current chunk: its
    /// affected-row count and whatever generated ids came back, appended in
    /// chunk order, and advances the cursor past the chunk's rows.
    pub fn on_chunk_success(&mut self, affected_count: u64, chunk_ids: Vec<i64>)
        requires
            old(self).wf(),
            old(self).is_streaming(),
        ensures
            final(self).wf(),
            final(self).next_chunk == old(self).next_chunk + 1,
            final(self).rows_done as int == old(self).rows_done as int + batch_row_count(
                batches_view(old(self).batches@)[old(self).next_chunk as int],
            ),
            final(self).affected@ == old(self).affected@.push(affected_count),
            final(self).ids@ == old(self).ids@ + chunk_ids@,
            final(self).failure is None,
            final(self).batches == old(self).batches,
            final(self).rows == old(self).rows,
            final(self).chunk_size == old(self).chunk_size,
            final(self).field_count == old(self).field_count,
    {
        let ghost n = self.rows@.len() as int;
        let ghost cs = self.chunk_size@;
        let ghost m = self.next_chunk as int;
        proof {
            lemma_rows_covered_step(n, cs, m);
            let bv = batches_view(self.batches@);
            assert(batch_row_count(bv[m]) == crate::transpose::chunk_of(
                self.rows@,
                cs,
                m,
            ).len()) by {
                assert(bv[m].len() == self.field_count@);
                assert(bv[m][0].len() == crate::transpose::chunk_of(self.rows@, cs, m).len());
            }
        }
        let planned = self.batches.len();
        let batch_len = {
            let b = &self.batches[self.next_chunk];
            b.row_count()
        };
        self.rows_done = self.rows_done + batch_len;
        self.affected.push(affected_count);
        let mut incoming = chunk_ids;
        self.ids.append(&mut incoming);
        self.next_chunk = self.next_chunk + 1;
    }

    /// Records the failure of the current chunk's statement and ends the
    /// run: the failure cites the 0-based index of the failing chunk and
    /// the rows covered by the chunks that committed before it.  The
    /// remaining chunks are never handed out.
    pub fn on_chunk_failure(&mut self, message: String)
        requires
            old(self).wf(),
            old(self).is_streaming(),
        ensures
            final(self).wf(),
            final(self).is_failed(),
            final(self).failure matches Some(
                BulkError::Driver { chunk_index, rows_committed, message: m },
            ) && chunk_index == old(self).next_chunk && rows_committed == old(self).rows_done
                && m@ == message@,
            final(self).next_chunk == old(self).next_chunk,
            final(self).rows_done == old(self).rows_done,
            final(self).affected == old(self).affected,
            final(self).ids == old(self).ids,
            final(self).batches == old(self).batches,
            final(self).rows == old(self).rows,
            final(self).chunk_size == old(self).chunk_size,
            final(self).field_count == old(self).field_count,
    {
        self.failure = Some(
            BulkError::Driver {
                chunk_index: self.next_chunk,
                rows_committed: self.rows_done,
                message,
            },
        );
    }
}

} // verus!
