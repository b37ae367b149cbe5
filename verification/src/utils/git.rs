//! Git deployment helpers.

use vstd::prelude::*;
use crate::error::Error;
use crate::utils::text::{from_chars, has_prefix, push_all, slice_vec, starts_with, to_chars, trim, trim_chars};
use crate::vdom::id::{bytes_le, bytes_le_exec, lemma_bytes_le_total, lemma_bytes_le_trans};

verus! {

/// The push URL for a remote: `https://` and the URL's rest, with a
/// non-empty token (surrounding whitespace removed) as user name when one
/// is given; `None` when the URL does not start with `https://`.
pub open spec fn authenticated_url(url: Seq<char>, token: Option<Seq<char>>) -> Option<Seq<char>> {
    if !has_prefix(url, "https://"@) {
        None
    } else {
        let base = url.subrange(8, url.len() as int);
        match token {
            Some(t) => if trim(t).len() > 0 {
                Some("https://"@ + trim(t) + seq!['@'] + base)
            } else {
                Some("https://"@ + base)
            },
            None => Some("https://"@ + base),
        }
    }
}

/// An optional string slice as an optional sequence.
pub open spec fn str_view(o: Option<&str>) -> Option<Seq<char>> {
    match o {
        Some(t) => Some(t@),
        None => None,
    }
}

/// Builds the authenticated HTTPS URL of a remote from the token file's
/// content, when there is one.
pub fn build_authenticated_url(url: &str, token: Option<&str>) -> (r: Result<String, Error>)
    ensures
        authenticated_url(url@, str_view(token)) is None <==> r is Err,
        authenticated_url(url@, str_view(token)) matches Some(u) ==> r matches Ok(s) && s@ == u,
{
    let v = to_chars(url);
    let scheme = to_chars("https://");
    proof {
        reveal_strlit("https://");
    }
    if !starts_with(&v, &scheme) {
        return Err(Error::NotHttps(url.to_owned()));
    }
    let base = slice_vec(&v, 8, v.len());
    let mut out = to_chars("https://");
    match token {
        Some(t) => {
            let trimmed = trim_chars(&to_chars(t));
            if trimmed.len() > 0 {
                push_all(&mut out, &trimmed);
                out.push('@');
            }
        },
        None => {},
    }
    push_all(&mut out, &base);
    Ok(from_chars(&out))
}


// =============================================================================
// Tree entry ordering
// =============================================================================

/// The kind of object a git tree entry points at.
#[derive(Clone, Copy, PartialEq, Eq, Structural, Debug)]
pub enum EntryKind {
    Tree,
    Blob,
    BlobExecutable,
    Link,
    Commit,
}

/// An entry of a git tree: the kind of object, its file name, and the
/// object's id.
#[derive(Clone, Debug)]
pub struct TreeEntry {
    pub mode: EntryKind,
    pub filename: Vec<u8>,
    pub oid: Vec<u8>,
}

/// The key by which git orders tree entries: the file name, with a `/`
/// after the name of a directory.
pub open spec fn tree_key(e: TreeEntry) -> Seq<u8> {
    if e.mode == EntryKind::Tree {
        e.filename@.push(47u8)
    } else {
        e.filename@
    }
}

/// Whether `a` goes before `b`, or may stand beside it, in a tree.
pub open spec fn entry_le(a: TreeEntry, b: TreeEntry) -> bool {
    bytes_le(tree_key(a), tree_key(b))
}

/// Where `x` goes into `s`: after the last entry, counting from the end,
/// whose key is not greater than its key.
pub open spec fn entry_insertion_point(s: Seq<TreeEntry>, x: TreeEntry) -> int
    decreases s.len(),
{
    if s.len() == 0 {
        0
    } else if entry_le(s.last(), x) {
        s.len() as int
    } else {
        entry_insertion_point(s.drop_last(), x)
    }
}

/// The entries in git's tree order; entries of equal keys keep their order
/// (a stable sort).
pub open spec fn tree_sorted(s: Seq<TreeEntry>) -> Seq<TreeEntry>
    decreases s.len(),
{
    if s.len() == 0 {
        s
    } else {
        let rest = tree_sorted(s.drop_last());
        rest.insert(entry_insertion_point(rest, s.last()), s.last())
    }
}

/// The entries are in git's tree order.
pub open spec fn entries_ordered(s: Seq<TreeEntry>) -> bool {
    forall|i: int, j: int| 0 <= i < j < s.len() ==> entry_le(#[trigger] s[i], #[trigger] s[j])
}

proof fn lemma_insertion_point_bounds(s: Seq<TreeEntry>, x: TreeEntry)
    ensures
        0 <= entry_insertion_point(s, x) <= s.len(),
        forall|j: int| entry_insertion_point(s, x) <= j < s.len() ==> !entry_le(#[trigger] s[j], x),
        entry_insertion_point(s, x) > 0 ==> entry_le(s[entry_insertion_point(s, x) - 1], x),
    decreases s.len(),
{
    if s.len() > 0 && !entry_le(s.last(), x) {
        let d = s.drop_last();
        lemma_insertion_point_bounds(d, x);
        assert forall|j: int| entry_insertion_point(s, x) <= j < s.len() implies !entry_le(#[trigger] s[j], x) by {
            if j < d.len() {
                assert(s[j] == d[j]);
            }
        }
    }
}

/// The sort key of an entry.
fn sort_key(e: &TreeEntry) -> (r: Vec<u8>)
    ensures
        r@ == tree_key(*e),
{
    let mut k: Vec<u8> = Vec::new();
    let mut i: usize = 0;
    while i < e.filename.len()
        invariant
            i <= e.filename@.len(),
            k@ == e.filename@.subrange(0, i as int),
        decreases e.filename@.len() - i,
    {
        k.push(e.filename[i]);
        i = i + 1;
    }
    assert(e.filename@.subrange(0, i as int) =~= e.filename@);
    if e.mode == EntryKind::Tree {
        k.push(47u8);
    }
    k
}

/// Where `x` goes into the sorted entries.
fn insertion_index(s: &Vec<TreeEntry>, x: &TreeEntry) -> (p: usize)
    ensures
        p == entry_insertion_point(s@, *x),
        p <= s@.len(),
{
    let kx = sort_key(x);
    let mut p: usize = s.len();
    assert(s@.subrange(0, p as int) =~= s@);
    while p > 0 && !bytes_le_exec(sort_key(&s[p - 1]).as_slice(), kx.as_slice())
        invariant
            p <= s@.len(),
            kx@ == tree_key(*x),
            entry_insertion_point(s@, *x) == entry_insertion_point(s@.subrange(0, p as int), *x),
        decreases p,
    {
        assert(s@.subrange(0, p as int).drop_last() =~= s@.subrange(0, p - 1));
        p = p - 1;
    }
    p
}

/// Sorts the entries of a tree as git orders them: by name, a directory's
/// name taken as if it ended with `/`, so that the file `foo.rs` comes
/// before the directory `foo`, and the file `foo-bar` before both.
pub fn sort_tree_entries(entries: &mut Vec<TreeEntry>)
    ensures
        final(entries)@ == tree_sorted(old(entries)@),
{
    let mut src: Vec<TreeEntry> = Vec::new();
    std::mem::swap(&mut src, entries);
    let ghost orig = src@;
    let n: usize = src.len();
    assert(orig.len() == n);
    let mut k: usize = 0;
    assert(orig.subrange(0, 0) =~= Seq::<TreeEntry>::empty());
    while src.len() > 0
        invariant
            k + src@.len() == orig.len(),
            orig.len() <= usize::MAX,
            src@ == orig.subrange(k as int, orig.len() as int),
            entries@ == tree_sorted(orig.subrange(0, k as int)),
        decreases src@.len(),
    {
        let x = src.remove(0);
        let p = insertion_index(entries, &x);
        proof {
            let pre = orig.subrange(0, k + 1);
            assert(pre.drop_last() =~= orig.subrange(0, k as int));
            assert(pre.last() == x);
        }
        entries.insert(p, x);
        k = k + 1;
        assert(src@ =~= orig.subrange(k as int, orig.len() as int));
    }
    assert(orig.subrange(0, k as int) =~= orig);
}

proof fn lemma_insert_keeps_order(s: Seq<TreeEntry>, x: TreeEntry)
    requires
        entries_ordered(s),
    ensures
        entries_ordered(s.insert(entry_insertion_point(s, x), x)),
{
    lemma_insertion_point_bounds(s, x);
    let p = entry_insertion_point(s, x);
    let r = s.insert(p, x);
    assert forall|i: int, j: int| 0 <= i < j < r.len() implies entry_le(#[trigger] r[i], #[trigger] r[j]) by {
        if i < p && j == p {
            if i < p - 1 {
                assert(entry_le(s[i], s[p - 1]));
                lemma_bytes_le_trans(tree_key(s[i]), tree_key(s[p - 1]), tree_key(x));
            }
        } else if i == p && j > p {
            lemma_bytes_le_total(tree_key(x), tree_key(s[j - 1]));
            if p < j - 1 {
                lemma_bytes_le_total(tree_key(s[p]), tree_key(x));
                lemma_bytes_le_trans(tree_key(x), tree_key(s[p]), tree_key(s[j - 1]));
            }
        } else if i < p && j > p {
            assert(entry_le(s[i], s[j - 1]));
        } else if i > p {
            assert(entry_le(s[i - 1], s[j - 1]));
        }
    }
}

/// The tree order puts every entry at or before those after it.
pub proof fn law_tree_sorted_is_ordered(s: Seq<TreeEntry>)
    ensures
        entries_ordered(tree_sorted(s)),
    decreases s.len(),
{
    if s.len() > 0 {
        law_tree_sorted_is_ordered(s.drop_last());
        lemma_insert_keeps_order(tree_sorted(s.drop_last()), s.last());
    }
}

/// Sorting a tree's entries keeps each entry, as often as it occurs.
pub proof fn law_tree_sorted_is_permutation(s: Seq<TreeEntry>)
    ensures
        tree_sorted(s).to_multiset() == s.to_multiset(),
    decreases s.len(),
{
    broadcast use vstd::seq_lib::group_to_multiset_ensures;
    if s.len() > 0 {
        law_tree_sorted_is_permutation(s.drop_last());
        let rest = tree_sorted(s.drop_last());
        lemma_insertion_point_bounds(rest, s.last());
        assert(s.drop_last().push(s.last()) =~= s);
    }
}

} // verus!
