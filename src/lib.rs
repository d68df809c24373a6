//! Typed statistics aggregation over self-describing JSON records.
//!
//! Each input row maps field names to typed values; the aggregate keeps, per
//! field, a running summary (numeric moments, category counts, date bounds),
//! merges summaries computed elsewhere, and emits a summary object.
pub mod accum;
pub mod agg;
pub mod counts;
pub mod entry;
pub mod error;
pub mod final_fn;
pub mod json;
pub mod keyed;
pub mod laws;
pub mod merge;
pub mod stat;
pub mod state;
pub mod text;
