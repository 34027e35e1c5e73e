//! Result correlator.
//!
//! For statements that return generated identifiers, the per-chunk id
//! sequences are concatenated in chunk order and zipped positionally onto
//! the original input rows.  The id count must equal the input row count;
//! a mismatch reports a misbehaving driver, distinct from a statement
//! execution error.

use vstd::prelude::*;

use crate::error::BulkError;
use crate::value::RowRecord;

verus! {

/// One input row paired with the generated id its insertion produced.
pub struct CorrelatedRow {
    /// The input row, unchanged.
    pub row: RowRecord,
    /// The generated id returned for this row.
    pub id: i64,
}

/// Zips the collected generated ids back onto the input rows, positionally
/// and in the original input order.  Succeeds exactly when one id came back
/// per input row; otherwise reports the mismatch of the two counts.
pub fn correlate(rows: Vec<RowRecord>, ids: &Vec<i64>) -> (r: Result<
    Vec<CorrelatedRow>,
    BulkError,
>)
    ensures
        match r {
            Ok(pairs) => {
                &&& ids@.len() == rows@.len()
                &&& pairs@.len() == rows@.len()
                &&& forall|i: int|
                    0 <= i < pairs@.len() ==> (#[trigger] pairs@[i]).row == rows@[i]
                        && pairs@[i].id == ids@[i]
            },
            Err(e) => {
                &&& ids@.len() != rows@.len()
                &&& e matches BulkError::CorrelationMismatch { expected, actual } && expected
                    == rows@.len() && actual == ids@.len()
            },
        },
{
    let n = rows.len();
    if ids.len() != n {
        return Err(BulkError::CorrelationMismatch { expected: n, actual: ids.len() });
    }
    let mut stack = rows;
    let mut rev: Vec<CorrelatedRow> = Vec::new();
    proof {
        assert(stack@ =~= stack@.take(stack@.len() as int));
    }
    let ghost all = stack@;
    while stack.len() > 0
        invariant
            all.len() == n,
            ids@.len() == n,
            stack@ == all.take(stack@.len() as int),
            rev@.len() == n - stack@.len(),
            forall|k: int|
                0 <= k < rev@.len() ==> (#[trigger] rev@[k]).row == all[n - 1 - k] && rev@[k].id
                    == ids@[n - 1 - k],
        decreases stack@.len(),
    {
        let idx = stack.len() - 1;
        let row = match stack.pop() {
            Some(row) => row,
            None => {
                proof {
                    assert(false);
                }
                unreached()
            },
        };
        proof {
            assert(row == all[idx as int]);
            assert(stack@ =~= all.take(stack@.len() as int));
        }
        rev.push(CorrelatedRow { row, id: ids[idx] });
    }
    let mut pairs: Vec<CorrelatedRow> = Vec::new();
    while rev.len() > 0
        invariant
            all.len() == n,
            ids@.len() == n,
            rev@.len() + pairs@.len() == n,
            forall|k: int|
                0 <= k < rev@.len() ==> (#[trigger] rev@[k]).row == all[n - 1 - k] && rev@[k].id
                    == ids@[n - 1 - k],
            forall|i: int|
                0 <= i < pairs@.len() ==> (#[trigger] pairs@[i]).row == all[i] && pairs@[i].id
                    == ids@[i],
        decreases rev@.len(),
    {
        let pr = match rev.pop() {
            Some(pr) => pr,
            None => {
                proof {
                    assert(false);
                }
                unreached()
            },
        };
        pairs.push(pr);
    }
    Ok(pairs)
}

} // verus!
