//! Hot-reload pipeline logic: classifying changed files, normalizing page URLs.

pub mod cache;
pub mod classify;
pub mod compile;
pub mod diff;
