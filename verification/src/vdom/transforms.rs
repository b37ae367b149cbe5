//! Transforms between VDOM phases.

pub mod indexer;
