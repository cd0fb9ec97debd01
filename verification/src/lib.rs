//! Incremental maintenance of a two-table equi-join view over a stream of
//! row-level change events.
//!
//! The crate normalizes per-table change events into signed deltas, buffers
//! them until they can be released in time order, maintains a keyed state
//! store per join side so that bare-key deletions can be reconstructed,
//! joins the two sides incrementally, applies an optional filter, and
//! renders the resulting output deltas as SQL statements for a downstream
//! sink.

pub mod buffer;
pub mod coordinator;
pub mod event;
pub mod filter;
pub mod join;
pub mod keys;
pub mod numeral;
pub mod parser;
pub mod planer;
pub mod record;
pub mod scalar;
pub mod sink;
pub mod state;
pub mod subscription;
pub mod text;
