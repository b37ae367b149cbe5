//! Outcomes of compiling a changed file for hot reload.

use vstd::prelude::*;
use crate::vdom::transforms::indexer::IndexedDocument;

verus! {

/// The outcome of compiling one changed file.
#[derive(Debug)]
pub enum CompileOutcome {
    /// The page compiled to an indexed document.
    Vdom { path: String, url_path: String, vdom: IndexedDocument },
    /// A file other than content changed; the page needs a full reload.
    Reload { reason: String },
    /// The file was skipped (a draft, a missing or an unknown file).
    Skipped,
    /// Compilation failed.
    Error { path: String, error: String },
}

} // verus!
