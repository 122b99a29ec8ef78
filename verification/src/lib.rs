//! Structural usage-pattern extraction.
//!
//! The crate turns raw source text into a directed multigraph of typed
//! relationships between declared symbols.  A language adapter parses the
//! text into a normalized structural tree, a pattern matcher walks that tree
//! and emits raw usage events, a resolver binds the raw names to symbols,
//! and a graph builder accumulates the resolved events into a graph from
//! which a report of counts and diagnostics is derived.

pub mod span;
pub mod node;
pub mod token;
pub mod diag;
pub mod adapter;
pub mod pattern;
pub mod resolve;
pub mod graph;
pub mod report;
pub mod sample;
