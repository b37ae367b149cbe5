//! SVG helpers.

pub mod extract;
pub mod optimize;
pub mod compress;
