//! Streaming codec for length-prefixed ledger-close records.
//!
//! The library decodes a live byte stream of length-prefixed, versioned
//! binary records into structured ledger-close metadata, projects each
//! decoded record to a line-delimited JSON document, and drives a pipeline
//! state machine that isolates per-record failures so one malformed record
//! never halts the stream.

pub mod codec;
pub mod pipeline;
pub mod render;
pub mod stream;
pub mod wire;
