//! The virtual DOM: node identities, node types, phase transformations.

pub mod id;
pub mod node;
pub mod folder;
pub mod transform;
pub mod transforms;

use vstd::prelude::*;
use crate::vdom::folder::ProcessedDocExt;

verus! {

/// What compiling a page through the VDOM pipeline gives: the HTML bytes
/// and the processing statistics.
#[derive(Debug)]
pub struct VdomCompileResult {
    pub html: Vec<u8>,
    pub stats: ProcessedDocExt,
}

} // verus!
