//! Path handling.
//!
//! Paths are carried as strings. Their structure (components, joining,
//! prefixes, extensions) is what `std::path` computes; the functions here call
//! it, and the library's logic is stated over the names of their results.

use vstd::prelude::*;

verus! {

/// The view of an optional string.
pub open spec fn opt_view(o: Option<String>) -> Option<Seq<char>> {
    match o {
        Some(s) => Some(s@),
        None => None,
    }
}

/// The components of a path, each as a string, as `Path::components` yields them.
pub uninterp spec fn path_components(p: Seq<char>) -> Seq<Seq<char>>;

/// The path that collecting the given components into a `PathBuf` produces.
pub uninterp spec fn path_collect(parts: Seq<Seq<char>>) -> Seq<char>;

/// `Path::join` of two paths.
pub uninterp spec fn path_joined(base: Seq<char>, rel: Seq<char>) -> Seq<char>;

/// `Path::strip_prefix`: the rest of `p` after the components of `base`, if `p` starts with them.
pub uninterp spec fn path_stripped(p: Seq<char>, base: Seq<char>) -> Option<Seq<char>>;

/// `Path::extension`.
pub uninterp spec fn path_extension(p: Seq<char>) -> Option<Seq<char>>;

/// `Path::file_name`.
pub uninterp spec fn path_file_name(p: Seq<char>) -> Option<Seq<char>>;

/// `Path::starts_with`: whether the components of `base` are a prefix of those of `p`.
pub uninterp spec fn path_has_base(p: Seq<char>, base: Seq<char>) -> bool;

/// `Path::parent`.
pub uninterp spec fn path_parent(p: Seq<char>) -> Option<Seq<char>>;

/// `Path::is_absolute`.
pub uninterp spec fn path_is_absolute(p: Seq<char>) -> bool;

/// Splits a path into its components with `Path::components`; each component
/// is given as the string it stands for. The contract names that result.
#[verifier::external_body]
pub(crate) fn components(p: &str) -> (r: Vec<String>)
    ensures
        r@.map_values(|s: String| s@) == path_components(p@),
{
    std::path::Path::new(p).components().map(|c| c.as_os_str().to_string_lossy().into_owned()).collect()
}

/// Collects components into a `PathBuf` (pushing each in turn) and returns its string.
#[verifier::external_body]
pub(crate) fn collect_components(parts: &Vec<String>) -> (r: String)
    ensures
        r@ == path_collect(parts@.map_values(|s: String| s@)),
{
    parts.iter().collect::<std::path::PathBuf>().to_string_lossy().into_owned()
}

/// `Path::join`: the contract names the joined path.
#[verifier::external_body]
pub(crate) fn join(base: &str, rel: &str) -> (r: String)
    ensures
        r@ == path_joined(base@, rel@),
{
    std::path::Path::new(base).join(rel).to_string_lossy().into_owned()
}

/// `Path::strip_prefix`; `None` where `p` does not start with `base`.
#[verifier::external_body]
pub(crate) fn strip_prefix(p: &str, base: &str) -> (r: Option<String>)
    ensures
        opt_view(r) == path_stripped(p@, base@),
{
    std::path::Path::new(p).strip_prefix(base).ok().map(|r| r.to_string_lossy().into_owned())
}

/// `Path::extension`.
#[verifier::external_body]
pub(crate) fn extension(p: &str) -> (r: Option<String>)
    ensures
        opt_view(r) == path_extension(p@),
{
    std::path::Path::new(p).extension().map(|e| e.to_string_lossy().into_owned())
}

/// `Path::file_name`.
#[verifier::external_body]
pub(crate) fn file_name(p: &str) -> (r: Option<String>)
    ensures
        opt_view(r) == path_file_name(p@),
{
    std::path::Path::new(p).file_name().map(|e| e.to_string_lossy().into_owned())
}

/// `Path::starts_with`.
#[verifier::external_body]
pub(crate) fn has_base(p: &str, base: &str) -> (r: bool)
    ensures
        r == path_has_base(p@, base@),
{
    std::path::Path::new(p).starts_with(base)
}

/// `Path::parent`.
#[verifier::external_body]
pub(crate) fn parent(p: &str) -> (r: Option<String>)
    ensures
        opt_view(r) == path_parent(p@),
{
    std::path::Path::new(p).parent().map(|e| e.to_string_lossy().into_owned())
}

/// `Path::is_absolute`.
#[verifier::external_body]
pub(crate) fn is_absolute(p: &str) -> (r: bool)
    ensures
        r == path_is_absolute(p@),
{
    std::path::Path::new(p).is_absolute()
}

/// Normalizes a path to absolute form, given what the file system answered:
/// the canonical form of the path (if canonicalization succeeded) and the
/// current directory (if it could be read).
///
/// The canonical form wins; otherwise an absolute path stays as it is, and a
/// relative one is joined onto the current directory when that is known.
pub fn normalize_path(path: &str, canonical: Option<String>, cwd: Option<String>) -> (r: String)
    ensures
        canonical is Some ==> r@ == canonical.unwrap()@,
        canonical is None && path_is_absolute(path@) ==> r@ == path@,
        canonical is None && !path_is_absolute(path@) && cwd is Some ==> r@ == path_joined(cwd.unwrap()@, path@),
        canonical is None && !path_is_absolute(path@) && cwd is None ==> r@ == path@,
{
    match canonical {
        Some(c) => c,
        None => {
            if is_absolute(path) {
                path.to_owned()
            } else {
                match cwd {
                    Some(d) => join(&d, path),
                    None => path.to_owned(),
                }
            }
        }
    }
}

} // verus!
