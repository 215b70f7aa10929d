//! Batch sizing, word chunking and line-range reconstruction for the Vekta
//! embedding and reranking tools.

pub mod batch;
pub mod chunker;
pub mod lines;
pub mod metadata;
pub mod rerank;
pub mod text;
pub mod utils;
