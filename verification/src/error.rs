//! The terminal failures of a bulk call.
//!
//! A bulk operation either completes fully or stops at its first failing
//! chunk.  Because every chunk executes as an independent statement, the
//! chunks before the failing one stay committed; the error therefore always
//! carries how much work succeeded before the failure.

use vstd::prelude::*;

verus! {

/// Why a bulk call ended without a full result.
#[derive(Debug)]
pub enum BulkError {
    /// The configured chunk size was zero.
    InvalidConfiguration,
    /// The execution capability rejected the statement for one chunk.
    /// Chunks `0 .. chunk_index` had already committed, covering
    /// `rows_committed` input rows; they are not rolled back.
    Driver {
        /// 0-based index of the chunk whose statement failed.
        chunk_index: usize,
        /// Number of input rows covered by the chunks that committed
        /// before the failure.
        rows_committed: usize,
        /// The driver's own description of the failure.
        message: String,
    },
    /// The number of returned generated ids does not match the number of
    /// input rows.  This reports a misbehaving driver, not caller misuse.
    CorrelationMismatch {
        /// The id count that was owed: one id per input row.
        expected: usize,
        /// The id count that actually came back.
        actual: usize,
    },
}

} // verus!
