//! Decision logic of a concurrent data processing pipeline.

pub mod cancel;
pub mod dlq;
pub mod embedding;
pub mod fault;
pub mod graph;
pub mod idempotency;
pub mod metadata;
pub mod node;
pub mod pipeline;
pub mod text;
