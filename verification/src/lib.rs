//! Columnar batch writer.
//!
//! Takes an ordered sequence of uniform row records and a chunk size,
//! transposes the rows into column-major parameter batches for
//! array-unnest style bulk statements, drives the chunked execution as a
//! state machine that stops at the first failing chunk while reporting
//! exactly how much work committed before it, and zips returned generated
//! ids back onto the input rows in their original order.
//!
//! The SQL execution capability is an injected collaborator.  A verified
//! logical table with the exact append and conflict-key-overwrite
//! semantics of the two supported statements lets whole bulk calls run and
//! be reasoned about entirely inside the library; the per-table schema
//! descriptors keep the transposer and the statement text agreed on column
//! order.

pub mod correlate;
pub mod error;
pub mod model;
pub mod run;
pub mod schema;
pub mod tables;
pub mod transpose;
pub mod upsert;
pub mod value;
