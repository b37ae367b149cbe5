//! Errors reported by the library.

use vstd::prelude::*;

verus! {

/// An error of the library's logic.
#[derive(Clone, Debug, PartialEq, Eq)]
pub enum Error {
    /// Bytes that should hold text are not valid UTF-8.
    InvalidUtf8,
    /// A link attribute is empty.
    EmptyLink,
    /// A file lies outside the assets directory.
    NotInAssets(String),
    /// A path lies outside the output directory.
    NotInOutput(String),
    /// A path lies outside the content directory.
    NotInContent(String),
    /// A content path does not end in `.typ`.
    NotTypFile(String),
    /// No Tailwind input file is configured.
    TailwindInputMissing,
    /// A configured path cannot be resolved on disk.
    CannotResolve(String),
    /// The document is not well-formed XML where it is read.
    XmlParse,
    /// A tag's attributes cannot be parsed.
    XmlAttribute,
    /// The input ends inside an element.
    UnexpectedEof,
    /// Element nesting goes below the element being read.
    UnbalancedTags,
    /// A remote URL does not start with `https://`.
    NotHttps(String),
}

} // verus!
