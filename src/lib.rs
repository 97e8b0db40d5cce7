//! Retrieval and deduplication of code snippets found by a vector index.
//!
//! The library decodes the untyped payload that the index stores with each
//! candidate, selects a bounded, ranked and diverse subset of the decoded
//! snippets, and decides the course of one search request as a state machine
//! whose outside work (parsing, embedding, searching, measuring similarity)
//! the caller performs.
pub mod decimal;
pub mod dedupe;
pub mod pipeline;
pub mod snippet;
