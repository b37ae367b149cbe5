//! Cache file naming that keeps caches apart across machine architectures.
//!
//! The architecture fingerprint (such as `x86_64_linux`) is given by the
//! program, which knows the target it was built for.

use vstd::prelude::*;
use crate::utils::path::{self, path_file_name, path_joined};
use std::collections::hash_map::DefaultHasher;
use std::hash::{Hash, Hasher};
use vstd::std_specs::hash::DefaultHasherAdditionalSpecFns;
use crate::utils::text::{contains_seq, from_chars, matches_at, push_all, to_chars};

verus! {

/// The cache path for an entry: `{base}/{name}_{arch}.rkyv`.
pub open spec fn cache_path_spec(base: Seq<char>, name: Seq<char>, arch: Seq<char>) -> Seq<char> {
    path_joined(base, name + "_"@ + arch + ".rkyv"@)
}

/// Builds the cache path of an entry, with the architecture fingerprint in
/// the file name.
pub fn cache_path(base: &str, name: &str, arch: &str) -> (r: String)
    ensures
        r@ == cache_path_spec(base@, name@, arch@),
{
    let mut file = to_chars(name);
    push_all(&mut file, &to_chars("_"));
    push_all(&mut file, &to_chars(arch));
    push_all(&mut file, &to_chars(".rkyv"));
    let f = from_chars(&file);
    path::join(base, f.as_str())
}

/// Whether `s` contains `p`.
pub fn contains_str(s: &[char], p: &[char]) -> (r: bool)
    ensures
        r == contains_seq(s@, p@),
{
    if p.len() > s.len() {
        assert(!contains_seq(s@, p@));
        return false;
    }
    let last = s.len() - p.len();
    let mut i: usize = 0;
    while i < last
        invariant
            last == s@.len() - p@.len(),
            i <= last,
            forall|k: int| 0 <= k < i ==> !crate::utils::text::occurs_at(s@, p@, k),
        decreases last + 1 - i,
    {
        if matches_at(s, p, i) {
            return true;
        }
        i = i + 1;
    }
    if matches_at(s, p, last) {
        return true;
    }
    assert(!contains_seq(s@, p@)) by {
        if contains_seq(s@, p@) {
            let k = choose|k: int| crate::utils::text::occurs_at(s@, p@, k);
            assert(k <= last);
        }
    }
    false
}

/// Whether a cache path was written for the given architecture: its file
/// name contains the fingerprint.
pub fn is_cache_valid_for_arch(p: &str, arch: &str) -> (r: bool)
    ensures
        r == match path_file_name(p@) {
            Some(n) => contains_seq(n, arch@),
            None => false,
        },
{
    match path::file_name(p) {
        Some(n) => contains_str(&to_chars(n.as_str()), &to_chars(arch)),
        None => false,
    }
}

/// The writes that `<Path as Hash>::hash` makes to a `DefaultHasher` for
/// the path `p`.
pub uninterp spec fn path_hash_writes(p: Seq<char>) -> Seq<Seq<u8>>;

/// `<Path as Hash>::hash` into a `DefaultHasher`: the hasher's writes are
/// extended by those the path makes, which depend on the path alone.
#[verifier::external_body]
fn write_path(h: &mut DefaultHasher, p: &str)
    ensures
        final(h)@ == old(h)@ + path_hash_writes(p@),
{
    std::path::Path::new(p).hash(h);
}

/// A hash-based cache key for a path: `DefaultHasher` over the path.
pub fn path_to_cache_hash(p: &str) -> (r: u64)
    ensures
        r == DefaultHasher::spec_finish(path_hash_writes(p@)),
{
    let mut hasher = DefaultHasher::new();
    write_path(&mut hasher, p);
    assert(hasher@ =~= path_hash_writes(p@));
    hasher.finish()
}

/// The architecture fingerprint of a build target: its architecture and
/// operating system joined by `_` (such as `aarch64_linux`).
pub fn arch_fingerprint(arch: &str, os: &str) -> (r: String)
    ensures
        r@ == arch@ + "_"@ + os@,
{
    let mut v = to_chars(arch);
    push_all(&mut v, &to_chars("_"));
    push_all(&mut v, &to_chars(os));
    from_chars(&v)
}

} // verus!
