//! A verified model of the write target.
//!
//! The batch executor's collaborator is an opaque SQL execution capability.
//! This module gives the library its own logical table with the exact
//! semantics the two supported statements rely on — append for a plain bulk
//! insert, and the conflict-key overwrite of [`crate::upsert`] for a bulk
//! upsert — so that whole bulk calls can be driven, and their laws proved,
//! entirely inside the library.  It also serves the tests as a capturing
//! executor with configurable per-chunk failure.

use vstd::prelude::*;

use crate::correlate::{correlate, CorrelatedRow};
use crate::error::BulkError;
use crate::run::{lemma_rows_covered_step, BulkRun};
use crate::schema::{conflict_target_wf, ConflictTarget};
use crate::transpose::{
    batch_row_count, batch_rows, lemma_batch_rows_of_chunk, num_chunks, ColumnBatch,
};
use crate::upsert::{
    first_key_match, key_matches, lemma_first_key_match_props, lemma_first_key_match_push,
    lemma_first_key_match_push_fresh, lemma_first_key_match_same_keys,
    lemma_first_key_match_upsert_stable, lemma_upsert_all_append, lemma_upsert_all_push,
    row_key_matches, same_keys, upsert_all, upsert_one,
};
use crate::value::{rows_uniform, rows_view, AbstractValue, RowRecord};

verus! {

/// One row of the logical table: the generated id the row was created
/// under, and its current field values.
pub struct ModelEntry {
    /// The generated id of this row; stable across upsert overwrites.
    pub id: i64,
    /// The current field values of this row.
    pub row: RowRecord,
}

/// The logical table a run of bulk statements writes into: an ordered row
/// list with an auto-id counter.
pub struct ModelTable {
    /// The rows, in insertion order; an upsert overwrite keeps position.
    pub entries: Vec<ModelEntry>,
    /// The number of fields of every row.
    pub field_count: usize,
    /// The next generated id to hand out.
    pub next_id: i64,
}

impl View for ModelTable {
    type V = Seq<Seq<AbstractValue>>;

    open spec fn view(&self) -> Seq<Seq<AbstractValue>> {
        Seq::new(self.entries@.len(), |i: int| self.entries@[i].row@)
    }
}

impl ModelTable {
    /// Every row has the declared number of fields.
    pub open spec fn wf(self) -> bool {
        &&& self.field_count >= 1
        &&& rows_uniform(self@, self.field_count as int)
    }

    /// An empty table over `field_count` columns, handing out generated
    /// ids from `first_id` on.
    pub fn new(field_count: usize, first_id: i64) -> (t: ModelTable)
        requires
            field_count >= 1,
        ensures
            t.wf(),
            t@ == Seq::<Seq<AbstractValue>>::empty(),
            t.entries@ == Seq::<ModelEntry>::empty(),
            t.field_count == field_count,
            t.next_id == first_id,
    {
        let t = ModelTable { entries: Vec::new(), field_count, next_id: first_id };
        proof {
            assert(t@ =~= Seq::<Seq<AbstractValue>>::empty());
        }
        t
    }

    /// The number of rows the table currently holds.
    pub fn row_total(&self) -> (n: usize)
        ensures
            n == self@.len(),
    {
        self.entries.len()
    }

    /// The entry at position `i`.
    pub fn entry_at(&self, i: usize) -> (e: &ModelEntry)
        requires
            i < self@.len(),
        ensures
            e == self.entries@[i as int],
            e.row@ == self@[i as int],
    {
        &self.entries[i]
    }

    /// The position of the first row whose key columns match `row`, if any.
    pub fn find_key_match(&self, row: &RowRecord, key: &ConflictTarget) -> (r: Option<usize>)
        requires
            self.wf(),
            row@.len() == self.field_count,
            conflict_target_wf(key@, self.field_count as int),
        ensures
            match r {
                Some(i) => {
                    &&& i as int == first_key_match(self@, row@, key@)
                    &&& i < self@.len()
                    &&& key_matches(self@[i as int], row@, key@)
                },
                None => first_key_match(self@, row@, key@) == -1,
            },
    {
        let n = self.entries.len();
        let mut i: usize = 0;
        while i < n
            invariant
                self.wf(),
                row@.len() == self.field_count,
                conflict_target_wf(key@, self.field_count as int),
                n == self@.len(),
                i <= n,
                forall|p: int| 0 <= p < i ==> !key_matches(self@[p], row@, key@),
            decreases n - i,
        {
            let e = &self.entries[i];
            proof {
                assert(e.row@ == self@[i as int]);
                assert(self@[i as int].len() == self.field_count);
            }
            if row_key_matches(&e.row, row, key) {
                proof {
                    lemma_first_key_match_props(self@, row@, key@);
                }
                return Some(i);
            }
            i = i + 1;
        }
        proof {
            lemma_first_key_match_props(self@, row@, key@);
        }
        None
    }
}

/// A capturing execution capability over the logical table, with an
/// optional injected failure: the statement whose 0-based call number
/// equals `fail_at` is rejected, everything it would have written left
/// undone.
pub struct FakeExecutor {
    /// The table the statements write into.
    pub table: ModelTable,
    /// The call number whose statement is rejected, if any.
    pub fail_at: Option<usize>,
    /// The number of statements executed so far, failed ones included.
    pub calls: usize,
}

impl FakeExecutor {
    /// The executor is usable while its table is.
    pub open spec fn wf(self) -> bool {
        self.table.wf()
    }

    /// Whether the next statement is the one configured to fail.
    pub open spec fn next_call_fails(self) -> bool {
        self.fail_at matches Some(c) && c == self.calls
    }

    /// Wraps a table as an execution capability.
    pub fn new(table: ModelTable, fail_at: Option<usize>) -> (e: FakeExecutor)
        ensures
            e.table == table,
            e.fail_at == fail_at,
            e.calls == 0,
    {
        FakeExecutor { table, fail_at, calls: 0 }
    }

    /// Executes one plain bulk insert statement for `batch`: appends the
    /// batch's rows in order, assigning consecutive generated ids, and
    /// returns the affected count with the ids in row order — or rejects
    /// the statement, leaving the table untouched.
    pub fn execute_insert(&mut self, batch: &ColumnBatch) -> (r: Result<(u64, Vec<i64>), String>)
        requires
            old(self).wf(),
            batch@.len() == old(self).table.field_count,
            forall|j: int|
                0 <= j < batch@.len() ==> (#[trigger] batch@[j]).len() == batch_row_count(batch@),
            old(self).calls < usize::MAX,
            old(self).table@.len() + batch_row_count(batch@) <= usize::MAX,
            old(self).table.next_id + batch_row_count(batch@) <= i64::MAX,
        ensures
            final(self).wf(),
            final(self).calls == old(self).calls + 1,
            final(self).fail_at == old(self).fail_at,
            final(self).table.field_count == old(self).table.field_count,
            match r {
                Ok((affected, ids)) => {
                    &&& !old(self).next_call_fails()
                    &&& affected as nat == batch_row_count(batch@)
                    &&& final(self).table@ == old(self).table@ + batch_rows(
                        batch@,
                        batch@.len(),
                    )
                    &&& final(self).table.next_id as int == old(self).table.next_id
                        + batch_row_count(batch@)
                    &&& ids@.len() == batch_row_count(batch@)
                    &&& forall|x: int|
                        0 <= x < ids@.len() ==> #[trigger] ids@[x] == old(self).table.next_id + x
                    &&& forall|p: int|
                        0 <= p < old(self).table.entries@.len() ==> final(self).table.entries@[p]
                            == #[trigger] old(self).table.entries@[p]
                    &&& forall|x: int|
                        0 <= x < batch_row_count(batch@) ==> (#[trigger] final(self).table.entries@[old(self).table.entries@.len() + x]).id == old(self).table.next_id + x
                },
                Err(_) => {
                    &&& old(self).next_call_fails()
                    &&& final(self).table == old(self).table
                },
            },
    {
        let should_fail = match self.fail_at {
            Some(c) => c == self.calls,
            None => false,
        };
        self.calls = self.calls + 1;
        if should_fail {
            return Err(String::from_str("statement rejected"));
        }
        let rc = batch.row_count();
        let mut ids: Vec<i64> = Vec::new();
        let ghost old_view = self.table@;
        let ghost old_entries = self.table.entries@;
        let ghost start_id = self.table.next_id as int;
        let ghost calls1 = self.calls;
        let ghost fa = self.fail_at;
        let mut i: usize = 0;
        while i < rc
            invariant
                self.calls == calls1,
                self.fail_at == fa,
                batch@.len() == self.table.field_count,
                self.table.field_count >= 1,
                forall|j: int|
                    0 <= j < batch@.len() ==> (#[trigger] batch@[j]).len() == batch_row_count(
                        batch@,
                    ),
                rc == batch_row_count(batch@),
                old_view.len() + rc <= usize::MAX,
                start_id + rc <= i64::MAX,
                i <= rc,
                self.table.entries@.len() == old_view.len() + i,
                self.table.next_id as int == start_id + i,
                ids@.len() == i,
                forall|x: int| 0 <= x < i ==> #[trigger] ids@[x] == start_id + x,
                forall|p: int|
                    0 <= p < old_view.len() ==> #[trigger] self.table.entries@[p]
                        == old_entries[p],
                forall|x: int|
                    0 <= x < i ==> (#[trigger] self.table.entries@[old_view.len() + x]).id
                        == start_id + x,
                forall|x: int|
                    0 <= x < i ==> (#[trigger] self.table.entries@[old_view.len() + x]).row@
                        == batch_rows(batch@, batch@.len())[x],
            decreases rc - i,
        {
            let row = batch.row_at(i);
            let id = self.table.next_id;
            self.table.entries.push(ModelEntry { id, row });
            self.table.next_id = self.table.next_id + 1;
            ids.push(id);
            i = i + 1;
        }
        proof {
            assert(self.table@.len() == old_view.len() + rc);
            assert forall|p: int| 0 <= p < old_view.len() implies self.table@[p] == old_view[p] by {
                assert(self.table.entries@[p] == old_entries[p]);
            }
            assert forall|x: int| 0 <= x < rc implies self.table@[old_view.len() + x] == batch_rows(
                batch@,
                batch@.len(),
            )[x] by {
                assert((self.table.entries@[old_view.len() + x]).row@ == batch_rows(
                    batch@,
                    batch@.len(),
                )[x]);
            }
            assert(self.table@ =~= old_view + batch_rows(batch@, batch@.len()));
            assert forall|p: int| 0 <= p < self.table@.len() implies (#[trigger] self.table@[p]).len()
                == self.table.field_count as int by {
                if p >= old_view.len() {
                    assert(self.table@[p] == batch_rows(batch@, batch@.len())[p - old_view.len()]);
                }
            }
        }
        Ok((rc as u64, ids))
    }

    /// Executes one bulk upsert statement for `batch` against conflict
    /// target `key`: each batch row in order overwrites the first table row
    /// with matching key columns, keeping that row's id, or is appended
    /// under a fresh id.  Returns the affected count with one id per batch
    /// row — or rejects the statement, leaving the table untouched.
    pub fn execute_upsert(&mut self, batch: &ColumnBatch, key: &ConflictTarget) -> (r: Result<
        (u64, Vec<i64>),
        String,
    >)
        requires
            old(self).wf(),
            batch@.len() == old(self).table.field_count,
            conflict_target_wf(key@, old(self).table.field_count as int),
            forall|j: int|
                0 <= j < batch@.len() ==> (#[trigger] batch@[j]).len() == batch_row_count(batch@),
            old(self).calls < usize::MAX,
            old(self).table@.len() + batch_row_count(batch@) <= usize::MAX,
            old(self).table.next_id + batch_row_count(batch@) <= i64::MAX,
        ensures
            final(self).wf(),
            final(self).calls == old(self).calls + 1,
            final(self).fail_at == old(self).fail_at,
            final(self).table.field_count == old(self).table.field_count,
            match r {
                Ok((affected, ids)) => {
                    &&& !old(self).next_call_fails()
                    &&& affected as nat == batch_row_count(batch@)
                    &&& final(self).table@ == upsert_all(
                        old(self).table@,
                        batch_rows(batch@, batch@.len()),
                        key@,
                    )
                    &&& ids@.len() == batch_row_count(batch@)
                    &&& forall|x: int|
                        0 <= x < batch_row_count(batch@) ==> first_key_match(
                            final(self).table@,
                            #[trigger] batch_rows(batch@, batch@.len())[x],
                            key@,
                        ) != -1 && ids@[x] == final(self).table.entries@[first_key_match(
                            final(self).table@,
                            batch_rows(batch@, batch@.len())[x],
                            key@,
                        )].id
                    &&& forall|p: int|
                        0 <= p < old(self).table.entries@.len() ==> final(self).table.entries@[p].id
                            == (#[trigger] old(self).table.entries@[p]).id
                    &&& old(self).table@.len() <= final(self).table@.len() <= old(
                        self,
                    ).table@.len() + batch_row_count(batch@)
                    &&& old(self).table.next_id <= final(self).table.next_id <= old(
                        self,
                    ).table.next_id + batch_row_count(batch@)
                },
                Err(_) => {
                    &&& old(self).next_call_fails()
                    &&& final(self).table == old(self).table
                },
            },
    {
        let should_fail = match self.fail_at {
            Some(c) => c == self.calls,
            None => false,
        };
        self.calls = self.calls + 1;
        if should_fail {
            return Err(String::from_str("statement rejected"));
        }
        let rc = batch.row_count();
        let mut ids: Vec<i64> = Vec::new();
        let ghost rows_in = batch_rows(batch@, batch@.len());
        let ghost old_table = self.table@;
        let ghost old_entries = self.table.entries@;
        let ghost start_id = self.table.next_id as int;
        let ghost calls1 = self.calls;
        let ghost fa = self.fail_at;
        let mut i: usize = 0;
        proof {
            assert(rows_in.take(0) =~= Seq::<Seq<AbstractValue>>::empty());
        }
        while i < rc
            invariant
                self.calls == calls1,
                self.fail_at == fa,
                self.table.wf(),
                batch@.len() == self.table.field_count,
                conflict_target_wf(key@, self.table.field_count as int),
                forall|j: int|
                    0 <= j < batch@.len() ==> (#[trigger] batch@[j]).len() == batch_row_count(
                        batch@,
                    ),
                rc == batch_row_count(batch@),
                rows_in == batch_rows(batch@, batch@.len()),
                rows_in.len() == rc,
                old_table.len() == old_entries.len(),
                old_table.len() + rc <= usize::MAX,
                start_id + rc <= i64::MAX,
                i <= rc,
                ids@.len() == i,
                self.table@ == upsert_all(old_table, rows_in.take(i as int), key@),
                old_table.len() <= self.table@.len() <= old_table.len() + i,
                start_id <= self.table.next_id as int <= start_id + i,
                forall|x: int|
                    0 <= x < i ==> first_key_match(self.table@, #[trigger] rows_in[x], key@) != -1
                        && ids@[x] == self.table.entries@[first_key_match(
                        self.table@,
                        rows_in[x],
                        key@,
                    )].id,
                forall|p: int|
                    0 <= p < old_entries.len() ==> self.table.entries@[p].id == (
                    #[trigger] old_entries[p]).id,
            decreases rc - i,
        {
            let row = batch.row_at(i);
            let ghost tv = self.table@;
            let ghost ev = self.table.entries@;
            let ghost ids0 = ids@;
            proof {
                assert(rows_in.take(i as int).push(rows_in[i as int]) =~= rows_in.take(i + 1));
                lemma_upsert_all_push(old_table, rows_in.take(i as int), rows_in[i as int], key@);
            }
            match self.table.find_key_match(&row, key) {
                Some(p) => {
                    let id = self.table.entries[p].id;
                    self.table.entries.set(p, ModelEntry { id, row });
                    ids.push(id);
                    proof {
                        assert(self.table@ =~= upsert_one(
                            upsert_all(old_table, rows_in.take(i as int), key@),
                            rows_in[i as int],
                            key@,
                        ));
                        assert(same_keys(tv, self.table@, key@)) by {
                            assert forall|q: int| 0 <= q < tv.len() implies key_matches(
                                #[trigger] tv[q],
                                self.table@[q],
                                key@,
                            ) by {
                                if q == p {
                                    assert(self.table@[q] == row@);
                                    assert(key_matches(tv[p as int], row@, key@));
                                }
                            }
                        }
                        assert forall|q: int| 0 <= q < ev.len() implies (
                        #[trigger] self.table.entries@[q]).id == ev[q].id by {}
                        assert forall|q: int| 0 <= q < old_entries.len() implies (
                        #[trigger] self.table.entries@[q]).id == old_entries[q].id by {
                            assert(old_table.len() == old_entries.len());
                            assert(tv.len() == ev.len());
                            assert(old_table.len() <= tv.len());
                            assert(ev[q].id == old_entries[q].id);
                            assert(self.table.entries@[q].id == ev[q].id);
                        }
                        assert forall|x: int| 0 <= x < i + 1 implies first_key_match(
                            self.table@,
                            #[trigger] rows_in[x],
                            key@,
                        ) != -1 && ids@[x] == self.table.entries@[first_key_match(
                            self.table@,
                            rows_in[x],
                            key@,
                        )].id by {
                            lemma_first_key_match_same_keys(tv, self.table@, rows_in[x], key@);
                            if x < i {
                                assert(first_key_match(tv, rows_in[x], key@) != -1);
                                lemma_first_key_match_props(tv, rows_in[x], key@);
                                assert(0 <= first_key_match(tv, rows_in[x], key@) < tv.len());
                                assert(ids0[x] == ev[first_key_match(tv, rows_in[x], key@)].id);
                                assert(ids@[x] == ids0[x]);
                                assert(self.table.entries@[first_key_match(tv, rows_in[x], key@)].id
                                    == ev[first_key_match(tv, rows_in[x], key@)].id);
                            } else {
                                assert(first_key_match(tv, rows_in[x], key@) == p);
                            }
                        }
                    }
                },
                None => {
                    let id = self.table.next_id;
                    self.table.entries.push(ModelEntry { id, row });
                    self.table.next_id = self.table.next_id + 1;
                    ids.push(id);
                    proof {
                        assert(self.table@ =~= upsert_one(
                            upsert_all(old_table, rows_in.take(i as int), key@),
                            rows_in[i as int],
                            key@,
                        ));
                        assert(self.table@ == tv.push(row@));
                        assert forall|q: int| 0 <= q < ev.len() implies (
                        #[trigger] self.table.entries@[q]).id == ev[q].id by {}
                        assert forall|q: int| 0 <= q < old_entries.len() implies (
                        #[trigger] self.table.entries@[q]).id == old_entries[q].id by {
                            assert(old_table.len() == old_entries.len());
                            assert(tv.len() == ev.len());
                            assert(old_table.len() <= tv.len());
                            assert(ev[q].id == old_entries[q].id);
                            assert(self.table.entries@[q].id == ev[q].id);
                        }
                        assert forall|x: int| 0 <= x < i + 1 implies first_key_match(
                            self.table@,
                            #[trigger] rows_in[x],
                            key@,
                        ) != -1 && ids@[x] == self.table.entries@[first_key_match(
                            self.table@,
                            rows_in[x],
                            key@,
                        )].id by {
                            if x < i {
                                assert(first_key_match(tv, rows_in[x], key@) != -1);
                                lemma_first_key_match_props(tv, rows_in[x], key@);
                                assert(0 <= first_key_match(tv, rows_in[x], key@) < tv.len());
                                lemma_first_key_match_push(tv, row@, rows_in[x], key@);
                                assert(ids0[x] == ev[first_key_match(tv, rows_in[x], key@)].id);
                                assert(ids@[x] == ids0[x]);
                            } else {
                                assert(key_matches(row@, rows_in[x], key@));
                                lemma_first_key_match_push_fresh(tv, row@, rows_in[x], key@);
                                assert(first_key_match(self.table@, rows_in[x], key@)
                                    == tv.len());
                                assert(self.table.entries@[tv.len() as int].id == id);
                            }
                        }
                    }
                },
            }
            i = i + 1;
        }
        proof {
            assert(rows_in.take(rc as int) =~= rows_in);
        }
        Ok((rc as u64, ids))
    }
}

impl FakeExecutor {
    /// Runs one whole bulk insert call against this executor: plans the
    /// chunks, executes one insert statement per chunk strictly in order,
    /// stops at the first rejected statement, and on full success zips the
    /// collected generated ids back onto the input rows in input order.
    pub fn bulk_insert(&mut self, rows: Vec<RowRecord>, chunk_size: usize) -> (r: Result<
        Vec<CorrelatedRow>,
        BulkError,
    >)
        requires
            old(self).wf(),
            rows_uniform(rows_view(rows@), old(self).table.field_count as int),
            old(self).calls + num_chunks(rows@.len() as int, chunk_size as int) <= usize::MAX,
            old(self).table@.len() + rows@.len() <= usize::MAX,
            old(self).table.next_id + rows@.len() <= i64::MAX,
        ensures
            final(self).wf(),
            final(self).fail_at == old(self).fail_at,
            final(self).table.field_count == old(self).table.field_count,
            match r {
                Ok(pairs) => {
                    &&& chunk_size >= 1
                    &&& (old(self).fail_at matches Some(c) ==> !(old(self).calls <= c < old(
                        self,
                    ).calls + num_chunks(rows@.len() as int, chunk_size as int)))
                    &&& final(self).table@ == old(self).table@ + rows_view(rows@)
                    &&& final(self).table.next_id as int == old(self).table.next_id + rows@.len()
                    &&& final(self).calls as int == old(self).calls + num_chunks(
                        rows@.len() as int,
                        chunk_size as int,
                    )
                    &&& pairs@.len() == rows@.len()
                    &&& forall|i: int|
                        0 <= i < pairs@.len() ==> (#[trigger] pairs@[i]).row == rows@[i]
                            && pairs@[i].id == old(self).table.next_id + i
                    &&& forall|p: int|
                        0 <= p < old(self).table.entries@.len() ==> final(self).table.entries@[p]
                            == #[trigger] old(self).table.entries@[p]
                    &&& forall|x: int|
                        0 <= x < rows@.len() ==> (#[trigger] final(self).table.entries@[old(self).table.entries@.len() + x]).id == old(self).table.next_id + x
                },
                Err(e) => match e {
                    BulkError::InvalidConfiguration => chunk_size == 0 && *final(self) == *old(self),
                    BulkError::Driver { chunk_index, rows_committed, .. } => {
                        &&& chunk_size >= 1
                        &&& old(self).fail_at matches Some(c) && c == old(self).calls + chunk_index
                        &&& (chunk_index as int) < num_chunks(rows@.len() as int, chunk_size as int)
                        &&& rows_committed as int == crate::run::rows_covered(
                            rows@.len() as int,
                            chunk_size as int,
                            chunk_index as int,
                        )
                        &&& final(self).table@ == old(self).table@ + rows_view(rows@).take(
                            rows_committed as int,
                        )
                        &&& final(self).table.next_id as int == old(self).table.next_id
                            + rows_committed
                        &&& final(self).calls == old(self).calls + chunk_index + 1
                    },
                    BulkError::CorrelationMismatch { .. } => false,
                },
            },
    {
        let ghost n = rows@.len() as int;
        let ghost cs = chunk_size as int;
        let ghost rv = rows_view(rows@);
        let ghost t0 = self.table@;
        let ghost e0 = self.table.entries@;
        let ghost id0 = self.table.next_id as int;
        let ghost calls0 = self.calls as int;
        let ghost fa = self.fail_at;
        let field_count = self.table.field_count;
        let ghost f = field_count as int;
        let mut run = match BulkRun::start(&rows, field_count, chunk_size) {
            Ok(run) => run,
            Err(e) => {
                return Err(e);
            },
        };
        proof {
            assert(rv.take(0) =~= Seq::<Seq<AbstractValue>>::empty());
            assert(t0 + rv.take(0) =~= t0);
        }
        while !run.is_done()
            invariant
                run.wf(),
                self.wf(),
                chunk_size >= 1,
                cs == chunk_size as int,
                n == rows@.len() as int,
                rv == rows_view(rows@),
                run.rows@ == rv,
                run.chunk_size@ == cs,
                run.field_count@ == f,
                run.batches@.len() == num_chunks(n, cs),
                self.table.field_count == field_count,
                f == field_count as int,
                self.fail_at == fa,
                t0.len() + n <= usize::MAX,
                id0 + n <= i64::MAX,
                calls0 + num_chunks(n, cs) <= usize::MAX,
                calls0 == old(self).calls as int,
                t0 == old(self).table@,
                id0 == old(self).table.next_id as int,
                fa == old(self).fail_at,
                !run.is_failed() ==> self.calls as int == calls0 + run.next_chunk,
                !run.is_failed() ==> (fa matches Some(c) ==> !(calls0 <= c < calls0
                    + run.next_chunk)),
                run.is_failed() ==> self.calls as int == calls0 + run.next_chunk + 1,
                run.is_failed() ==> (fa matches Some(c) && c == calls0 + run.next_chunk),
                run.is_failed() ==> run.next_chunk < run.batches@.len(),
                run.is_failed() ==> (run.failure matches Some(
                    BulkError::Driver { chunk_index, rows_committed, .. },
                ) && chunk_index == run.next_chunk && rows_committed == run.rows_done),
                self.table@ == t0 + rv.take(run.rows_done as int),
                self.table.next_id as int == id0 + run.rows_done,
                t0.len() == e0.len(),
                forall|p: int|
                    0 <= p < e0.len() ==> self.table.entries@[p] == #[trigger] e0[p],
                forall|x: int|
                    0 <= x < run.rows_done ==> (#[trigger] self.table.entries@[e0.len() + x]).id
                        == id0 + x,
                run.ids@.len() == run.rows_done,
                forall|x: int| 0 <= x < run.ids@.len() ==> #[trigger] run.ids@[x] == id0 + x,
            decreases run.batches@.len() - run.next_chunk + (
            if run.is_streaming() {
                1int
            } else {
                0int
            }),
        {
            let ghost m = run.next_chunk as int;
            let ghost rd = run.rows_done as int;
            let ghost eb = self.table.entries@;
            proof {
                lemma_rows_covered_step(n, cs, m);
            }
            let step = match run.current_batch() {
                Some(batch) => {
                    proof {
                        let bv = crate::transpose::batches_view(run.batches@);
                        assert(batch@ == bv[m]);
                        assert(batch@.len() == f);
                        assert(batch_row_count(batch@) == crate::transpose::chunk_of(
                            rv,
                            cs,
                            m,
                        ).len()) by {
                            assert(bv[m][0].len() == crate::transpose::chunk_of(rv, cs, m).len());
                        }
                    }
                    self.execute_insert(batch)
                },
                None => {
                    proof {
                        assert(false);
                    }
                    unreached()
                },
            };
            match step {
                Ok((affected_count, chunk_ids)) => {
                    proof {
                        let bv = crate::transpose::batches_view(run.batches@);
                        lemma_batch_rows_of_chunk(bv, rv, cs, f, m);
                    }
                    run.on_chunk_success(affected_count, chunk_ids);
                    proof {
                        let chunk = crate::transpose::chunk_of(rv, cs, m);
                        let rd2 = run.rows_done as int;
                        assert(rv.take(rd2) =~= rv.take(rd) + chunk);
                        assert(self.table@ =~= t0 + rv.take(rd2));
                        assert(eb.len() == e0.len() + rd);
                        assert forall|x: int| 0 <= x < rd2 implies (
                        #[trigger] self.table.entries@[e0.len() + x]).id == id0 + x by {
                            if x < rd {
                                assert(self.table.entries@[e0.len() + x] == eb[e0.len() + x]);
                                assert(eb[e0.len() + x].id == id0 + x);
                            } else {
                                let xr = x - rd;
                                assert((self.table.entries@[eb.len() + xr]).id == (id0 + rd) + xr);
                                assert(eb.len() + xr == e0.len() + x);
                            }
                        }
                    }
                },
                Err(msg) => {
                    run.on_chunk_failure(msg);
                },
            }
        }
        match run.failure {
            Some(e) => {
                proof {
                    assert(e matches BulkError::Driver { chunk_index, rows_committed, .. }
                        && chunk_index == run.next_chunk && rows_committed == run.rows_done);
                }
                Err(e)
            },
            None => {
                proof {
                    assert(run.is_completed());
                    assert(run.rows_done == n);
                }
                let pairs = match correlate(rows, &run.ids) {
                    Ok(pairs) => pairs,
                    Err(_) => {
                        proof {
                            assert(false);
                        }
                        unreached()
                    },
                };
                Ok(pairs)
            },
        }
    }

    /// Runs one whole bulk upsert call against this executor: plans the
    /// chunks, executes one upsert statement per chunk strictly in order
    /// (each statement overwriting or appending row by row, last writer
    /// wins), stops at the first rejected statement, and on full success
    /// pairs the input rows with the collected ids in input order.
    pub fn bulk_upsert(&mut self, rows: Vec<RowRecord>, chunk_size: usize, key: &ConflictTarget) -> (r:
        Result<Vec<CorrelatedRow>, BulkError>)
        requires
            old(self).wf(),
            rows_uniform(rows_view(rows@), old(self).table.field_count as int),
            conflict_target_wf(key@, old(self).table.field_count as int),
            old(self).calls + num_chunks(rows@.len() as int, chunk_size as int) <= usize::MAX,
            old(self).table@.len() + rows@.len() <= usize::MAX,
            old(self).table.next_id + rows@.len() <= i64::MAX,
        ensures
            final(self).wf(),
            final(self).fail_at == old(self).fail_at,
            final(self).table.field_count == old(self).table.field_count,
            match r {
                Ok(pairs) => {
                    &&& chunk_size >= 1
                    &&& (old(self).fail_at matches Some(c) ==> !(old(self).calls <= c < old(
                        self,
                    ).calls + num_chunks(rows@.len() as int, chunk_size as int)))
                    &&& final(self).table@ == upsert_all(
                        old(self).table@,
                        rows_view(rows@),
                        key@,
                    )
                    &&& final(self).calls as int == old(self).calls + num_chunks(
                        rows@.len() as int,
                        chunk_size as int,
                    )
                    &&& pairs@.len() == rows@.len()
                    &&& forall|i: int|
                        0 <= i < pairs@.len() ==> (#[trigger] pairs@[i]).row == rows@[i]
                    &&& forall|i: int|
                        0 <= i < pairs@.len() ==> first_key_match(
                            final(self).table@,
                            #[trigger] rows_view(rows@)[i],
                            key@,
                        ) != -1 && pairs@[i].id == final(self).table.entries@[first_key_match(
                            final(self).table@,
                            rows_view(rows@)[i],
                            key@,
                        )].id
                },
                Err(e) => match e {
                    BulkError::InvalidConfiguration => chunk_size == 0 && *final(self) == *old(
                        self,
                    ),
                    BulkError::Driver { chunk_index, rows_committed, .. } => {
                        &&& chunk_size >= 1
                        &&& old(self).fail_at matches Some(c) && c == old(self).calls + chunk_index
                        &&& (chunk_index as int) < num_chunks(rows@.len() as int, chunk_size as int)
                        &&& rows_committed as int == crate::run::rows_covered(
                            rows@.len() as int,
                            chunk_size as int,
                            chunk_index as int,
                        )
                        &&& final(self).table@ == upsert_all(
                            old(self).table@,
                            rows_view(rows@).take(rows_committed as int),
                            key@,
                        )
                        &&& final(self).calls == old(self).calls + chunk_index + 1
                    },
                    BulkError::CorrelationMismatch { .. } => false,
                },
            },
    {
        let ghost n = rows@.len() as int;
        let ghost cs = chunk_size as int;
        let ghost rv = rows_view(rows@);
        let ghost t0 = self.table@;
        let ghost id0 = self.table.next_id as int;
        let ghost calls0 = self.calls as int;
        let ghost fa = self.fail_at;
        let field_count = self.table.field_count;
        let ghost f = field_count as int;
        let mut run = match BulkRun::start(&rows, field_count, chunk_size) {
            Ok(run) => run,
            Err(e) => {
                return Err(e);
            },
        };
        proof {
            assert(rv.take(0) =~= Seq::<Seq<AbstractValue>>::empty());
            assert(upsert_all(t0, rv.take(0), key@) == t0);
        }
        while !run.is_done()
            invariant
                run.wf(),
                self.wf(),
                chunk_size >= 1,
                cs == chunk_size as int,
                n == rows@.len() as int,
                rv == rows_view(rows@),
                run.rows@ == rv,
                run.chunk_size@ == cs,
                run.field_count@ == f,
                run.batches@.len() == num_chunks(n, cs),
                self.table.field_count == field_count,
                f == field_count as int,
                self.fail_at == fa,
                conflict_target_wf(key@, f),
                t0.len() + n <= usize::MAX,
                id0 + n <= i64::MAX,
                calls0 + num_chunks(n, cs) <= usize::MAX,
                calls0 == old(self).calls as int,
                t0 == old(self).table@,
                id0 == old(self).table.next_id as int,
                fa == old(self).fail_at,
                !run.is_failed() ==> self.calls as int == calls0 + run.next_chunk,
                !run.is_failed() ==> (fa matches Some(c) ==> !(calls0 <= c < calls0
                    + run.next_chunk)),
                run.is_failed() ==> self.calls as int == calls0 + run.next_chunk + 1,
                run.is_failed() ==> (fa matches Some(c) && c == calls0 + run.next_chunk),
                run.is_failed() ==> run.next_chunk < run.batches@.len(),
                run.is_failed() ==> (run.failure matches Some(
                    BulkError::Driver { chunk_index, rows_committed, .. },
                ) && chunk_index == run.next_chunk && rows_committed == run.rows_done),
                self.table@ == upsert_all(t0, rv.take(run.rows_done as int), key@),
                self.table@.len() <= t0.len() + run.rows_done,
                id0 <= self.table.next_id as int <= id0 + run.rows_done,
                run.ids@.len() == run.rows_done,
                forall|x: int|
                    0 <= x < run.rows_done ==> first_key_match(self.table@, #[trigger] rv[x], key@)
                        != -1 && run.ids@[x] == self.table.entries@[first_key_match(
                        self.table@,
                        rv[x],
                        key@,
                    )].id,
            decreases run.batches@.len() - run.next_chunk + (
            if run.is_streaming() {
                1int
            } else {
                0int
            }),
        {
            let ghost m = run.next_chunk as int;
            let ghost rd = run.rows_done as int;
            let ghost tb = self.table@;
            let ghost eb = self.table.entries@;
            let ghost ri0 = run.ids@;
            proof {
                lemma_rows_covered_step(n, cs, m);
            }
            let step = match run.current_batch() {
                Some(batch) => {
                    proof {
                        let bv = crate::transpose::batches_view(run.batches@);
                        assert(batch@ == bv[m]);
                        assert(batch@.len() == f);
                        assert(batch_row_count(batch@) == crate::transpose::chunk_of(
                            rv,
                            cs,
                            m,
                        ).len()) by {
                            assert(bv[m][0].len() == crate::transpose::chunk_of(rv, cs, m).len());
                        }
                    }
                    self.execute_upsert(batch, key)
                },
                None => {
                    proof {
                        assert(false);
                    }
                    unreached()
                },
            };
            match step {
                Ok((affected_count, chunk_ids)) => {
                    let ghost ci = chunk_ids@;
                    proof {
                        let bv = crate::transpose::batches_view(run.batches@);
                        lemma_batch_rows_of_chunk(bv, rv, cs, f, m);
                    }
                    run.on_chunk_success(affected_count, chunk_ids);
                    proof {
                        let bv = crate::transpose::batches_view(run.batches@);
                        let bm = bv[m];
                        let chunk = crate::transpose::chunk_of(rv, cs, m);
                        let rd2 = run.rows_done as int;
                        assert(rv.take(rd2) =~= rv.take(rd) + chunk);
                        lemma_upsert_all_append(t0, rv.take(rd), chunk, key@);
                        assert(rd == m * cs);
                        assert(self.table@ == upsert_all(tb, batch_rows(bm, bm.len()), key@));
                        assert forall|x: int| 0 <= x < rd2 implies first_key_match(
                            self.table@,
                            #[trigger] rv[x],
                            key@,
                        ) != -1 && run.ids@[x] == self.table.entries@[first_key_match(
                            self.table@,
                            rv[x],
                            key@,
                        )].id by {
                            if x < rd {
                                assert(first_key_match(tb, rv[x], key@) != -1);
                                lemma_first_key_match_props(tb, rv[x], key@);
                                assert(0 <= first_key_match(tb, rv[x], key@) < tb.len());
                                lemma_first_key_match_upsert_stable(
                                    tb,
                                    batch_rows(bm, bm.len()),
                                    rv[x],
                                    key@,
                                );
                                assert(ri0[x] == eb[first_key_match(tb, rv[x], key@)].id);
                                assert(run.ids@[x] == ri0[x]);
                                assert(self.table.entries@[first_key_match(tb, rv[x], key@)].id
                                    == eb[first_key_match(tb, rv[x], key@)].id);
                            } else {
                                let xr = x - rd;
                                assert(batch_rows(bm, bm.len())[xr] == chunk[xr]);
                                assert(chunk[xr] == rv[rd + xr]);
                                assert(first_key_match(
                                    self.table@,
                                    batch_rows(bm, bm.len())[xr],
                                    key@,
                                ) != -1);
                                assert(ci[xr] == self.table.entries@[first_key_match(
                                    self.table@,
                                    batch_rows(bm, bm.len())[xr],
                                    key@,
                                )].id);
                                assert(run.ids@[x] == ci[xr]);
                            }
                        }
                    }
                },
                Err(msg) => {
                    run.on_chunk_failure(msg);
                },
            }
        }
        match run.failure {
            Some(e) => {
                proof {
                    assert(e matches BulkError::Driver { chunk_index, rows_committed, .. }
                        && chunk_index == run.next_chunk && rows_committed == run.rows_done);
                }
                Err(e)
            },
            None => {
                proof {
                    assert(run.is_completed());
                    assert(run.rows_done == n);
                    assert(rv.take(n) =~= rv);
                }
                let pairs = match correlate(rows, &run.ids) {
                    Ok(pairs) => pairs,
                    Err(_) => {
                        proof {
                            assert(false);
                        }
                        unreached()
                    },
                };
                Ok(pairs)
            },
        }
    }
}

} // verus!
