//! Typst compilation support: diagnostics bookkeeping and file caching.

pub mod diagnostic;
pub mod file;
pub mod snippet;
