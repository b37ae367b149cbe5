//! Tola: the verified core of a Typst-based static site generator.
//!
//! The library holds the logic of the site generator (slugs, link rewriting,
//! date handling, minification, hashing, file classification, diagnostics
//! bookkeeping, VDOM identities) with contracts proved by Verus. Reading and
//! writing files, running processes and serving HTTP live in the program
//! around it.

pub mod config;
pub mod error;
pub mod utils;
pub mod pipeline;
pub mod typst_lib;
pub mod vdom;
pub mod serve;
pub mod watch;
