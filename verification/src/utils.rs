//! Utility modules.

pub mod text;
pub mod keyed;
pub mod slug;
pub mod path;
pub mod log;
pub mod meta;
pub mod xml;
pub mod rss;
pub mod typst;
pub mod pattern;
pub mod minify;
pub mod hash;
pub mod platform;
pub mod exec;
pub mod css;
pub mod category;
pub mod svg;
pub mod git;
