//! Page URL normalization for cache keys, and what a recompiled page's
//! diff against its cached document leads to.

use vstd::prelude::*;
use crate::utils::text::{find_char, first_index_of, from_chars, slice_vec, to_chars};
use crate::pipeline::cache::VdomCache;
use crate::vdom::transforms::indexer::IndexedDocument;

verus! {

/// The part of `s` before the first `c` (all of `s` when there is none).
pub open spec fn before_char(s: Seq<char>, c: char) -> Seq<char> {
    match first_index_of(s, c) {
        Some(i) => s.subrange(0, i),
        None => s,
    }
}

/// `s` with every run of slashes shortened to one slash.
pub open spec fn squeeze_slashes(s: Seq<char>) -> Seq<char>
    decreases s.len(),
{
    if s.len() == 0 {
        s
    } else if s.len() >= 2 && s.last() == '/' && s[s.len() - 2] == '/' {
        squeeze_slashes(s.drop_last())
    } else {
        squeeze_slashes(s.drop_last()).push(s.last())
    }
}

/// The normalized form of a page URL path.
pub open spec fn normalized_url(url: Seq<char>) -> Seq<char> {
    let p = squeeze_slashes(before_char(before_char(url, '#'), '?'));
    let q = if p.len() > 0 && p[0] == '/' { p } else { seq!['/'] + p };
    if q.len() > 1 && q.last() == '/' { q.drop_last() } else { q }
}

proof fn lemma_squeeze_last(s: Seq<char>)
    ensures
        s.len() > 0 ==> squeeze_slashes(s).len() > 0 && squeeze_slashes(s).last() == s.last(),
        s.len() == 0 ==> squeeze_slashes(s).len() == 0,
    decreases s.len(),
{
    if s.len() >= 2 {
        lemma_squeeze_last(s.drop_last());
    }
}

fn squeeze(v: &[char]) -> (r: Vec<char>)
    ensures
        r@ == squeeze_slashes(v@),
{
    let mut r: Vec<char> = Vec::new();
    let mut i: usize = 0;
    while i < v.len()
        invariant
            i <= v@.len(),
            r@ == squeeze_slashes(v@.subrange(0, i as int)),
        decreases v.len() - i,
    {
        let ghost p = v@.subrange(0, i + 1);
        assert(p.drop_last() =~= v@.subrange(0, i as int));
        proof {
            lemma_squeeze_last(v@.subrange(0, i as int));
            if i > 0 {
                assert(p[p.len() - 2] == v@[i - 1]);
                assert(v@.subrange(0, i as int).last() == v@[i - 1]);
            }
        }
        let skip = v[i] == '/' && i > 0 && v[i - 1] == '/';
        if !skip {
            r.push(v[i]);
        }
        i = i + 1;
    }
    assert(v@.subrange(0, i as int) =~= v@);
    r
}

/// Normalizes a page URL path for use as a cache key: no fragment or query,
/// runs of slashes collapsed, a leading slash, and no trailing slash except
/// for the root.
pub fn normalize_url_path(url_path: &str) -> (r: String)
    ensures
        r@ == normalized_url(url_path@),
{
    let v = to_chars(url_path);
    let a = match find_char(&v, '#') {
        Some(i) => slice_vec(&v, 0, i),
        None => v,
    };
    let b = match find_char(&a, '?') {
        Some(i) => slice_vec(&a, 0, i),
        None => a,
    };
    let p = squeeze(&b);
    let mut q = if p.len() > 0 && p[0] == '/' {
        p
    } else {
        let mut t: Vec<char> = Vec::new();
        t.push('/');
        crate::utils::text::push_all(&mut t, &p);
        assert(t@ =~= seq!['/'] + p@);
        t
    };
    if q.len() > 1 && q[q.len() - 1] == '/' {
        q.pop();
    }
    from_chars(&q)
}

/// No two slashes in a row.
pub open spec fn no_double_slash(s: Seq<char>) -> bool {
    forall|i: int| 0 <= i < s.len() - 1 ==> !(#[trigger] s[i] == '/' && s[i + 1] == '/')
}

proof fn lemma_squeeze_props(s: Seq<char>)
    ensures
        no_double_slash(squeeze_slashes(s)),
        forall|j: int| 0 <= j < squeeze_slashes(s).len() ==> s.contains(#[trigger] squeeze_slashes(s)[j]),
        s.len() > 0 ==> squeeze_slashes(s).len() > 0 && squeeze_slashes(s)[0] == s[0],
        no_double_slash(s) ==> squeeze_slashes(s) == s,
    decreases s.len(),
{
    if s.len() > 0 {
        let t = s.drop_last();
        let c = s.last();
        lemma_squeeze_props(t);
        lemma_squeeze_last(t);
        let st = squeeze_slashes(t);
        assert forall|j: int| 0 <= j < st.len() implies s.contains(#[trigger] st[j]) by {
            assert(t.contains(st[j]));
            let k = choose|k: int| 0 <= k < t.len() && t[k] == st[j];
            assert(s[k] == st[j]);
        }
        if s.len() >= 2 && c == '/' && s[s.len() - 2] == '/' {
            assert(!no_double_slash(s) || false) by {
                if no_double_slash(s) {
                    assert(!(s[s.len() - 2] == '/' && s[s.len() - 1] == '/'));
                }
            }
        } else {
            let r = st.push(c);
            assert(squeeze_slashes(s) == r);
            assert forall|i: int| 0 <= i < r.len() - 1 implies !(#[trigger] r[i] == '/' && r[i + 1] == '/') by {
                if i == r.len() - 2 {
                    assert(r[i] == st.last());
                    assert(st.last() == t.last());
                    assert(t.last() == s[s.len() - 2]);
                } else {
                    assert(r[i] == st[i] && r[i + 1] == st[i + 1]);
                }
            }
            assert forall|j: int| 0 <= j < r.len() implies s.contains(#[trigger] r[j]) by {
                if j == r.len() - 1 {
                    assert(s[s.len() - 1] == r[j]);
                } else {
                    assert(r[j] == st[j]);
                }
            }
            if t.len() == 0 {
                assert(st.len() == 0);
            }
            if no_double_slash(s) {
                assert(no_double_slash(t)) by {
                    assert forall|i: int| 0 <= i < t.len() - 1 implies !(#[trigger] t[i] == '/' && t[i + 1] == '/') by {
                        assert(t[i] == s[i] && t[i + 1] == s[i + 1]);
                    }
                }
                assert(r =~= s);
            }
        }
    }
}

proof fn lemma_min_witness(s: Seq<char>, c: char, k: int)
    requires
        0 <= k < s.len(),
        s[k] == c,
    ensures
        exists|i: int| 0 <= i < s.len() && s[i] == c && forall|j: int| 0 <= j < i ==> s[j] != c,
    decreases k,
{
    if exists|j: int| 0 <= j < k && s[j] == c {
        let j = choose|j: int| 0 <= j < k && s[j] == c;
        lemma_min_witness(s, c, j);
    } else {
        assert(forall|j: int| 0 <= j < k ==> s[j] != c);
    }
}

proof fn lemma_before_char(s: Seq<char>, c: char)
    ensures
        !before_char(s, c).contains(c),
        forall|j: int| 0 <= j < before_char(s, c).len() ==> s.contains(#[trigger] before_char(s, c)[j]),
        !s.contains(c) ==> before_char(s, c) == s,
{
    if exists|i: int| 0 <= i < s.len() && s[i] == c {
        let k = choose|i: int| 0 <= i < s.len() && s[i] == c;
        lemma_min_witness(s, c, k);
    }
    match first_index_of(s, c) {
        Some(i) => {
            let b = s.subrange(0, i);
            assert forall|j: int| 0 <= j < b.len() implies s.contains(#[trigger] b[j]) by {
                assert(s[j] == b[j]);
            }
            if s.contains(c) {
            } else {
                assert(s[i] == c);
            }
        },
        None => {
            assert forall|j: int| 0 <= j < s.len() implies s.contains(#[trigger] s[j]) by {}
            if s.contains(c) {
                let k = choose|k: int| 0 <= k < s.len() && s[k] == c;
                assert(exists|i: int| 0 <= i < s.len() && s[i] == c);
            }
        },
    }
}

/// A normalized URL path starts with `/`, holds no `//`, no fragment and no
/// query, and ends without a slash unless it is the root `/`; normalizing it
/// again changes nothing.
pub proof fn law_normalized_url(u: Seq<char>)
    ensures
        normalized_url(u).len() >= 1 && normalized_url(u)[0] == '/',
        no_double_slash(normalized_url(u)),
        !normalized_url(u).contains('#') && !normalized_url(u).contains('?'),
        normalized_url(u).len() > 1 ==> normalized_url(u).last() != '/',
        normalized_url(normalized_url(u)) == normalized_url(u),
{
    let a = before_char(u, '#');
    let b = before_char(a, '?');
    lemma_before_char(u, '#');
    lemma_before_char(a, '?');
    let p = squeeze_slashes(b);
    lemma_squeeze_props(b);
    assert(!p.contains('#') && !p.contains('?')) by {
        if p.contains('#') {
            let j = choose|j: int| 0 <= j < p.len() && p[j] == '#';
            assert(b.contains(p[j]));
            let k = choose|k: int| 0 <= k < b.len() && b[k] == p[j];
            assert(a.contains(b[k]));
        }
        if p.contains('?') {
            let j = choose|j: int| 0 <= j < p.len() && p[j] == '?';
            assert(b.contains(p[j]));
        }
    }
    let q = if p.len() > 0 && p[0] == '/' { p } else { seq!['/'] + p };
    assert(no_double_slash(q)) by {
        if !(p.len() > 0 && p[0] == '/') {
            assert forall|i: int| 0 <= i < q.len() - 1 implies !(#[trigger] q[i] == '/' && q[i + 1] == '/') by {
                if i == 0 {
                    assert(q[1] == p[0]);
                } else {
                    assert(q[i] == p[i - 1] && q[i + 1] == p[i]);
                }
            }
        }
    }
    assert(!q.contains('#') && !q.contains('?')) by {
        if !(p.len() > 0 && p[0] == '/') {
            if q.contains('#') {
                let j = choose|j: int| 0 <= j < q.len() && q[j] == '#';
                assert(p[j - 1] == '#');
            }
            if q.contains('?') {
                let j = choose|j: int| 0 <= j < q.len() && q[j] == '?';
                assert(p[j - 1] == '?');
            }
        }
    }
    let r = normalized_url(u);
    assert(r == if q.len() > 1 && q.last() == '/' { q.drop_last() } else { q });
    assert(no_double_slash(r)) by {
        assert forall|i: int| 0 <= i < r.len() - 1 implies !(#[trigger] r[i] == '/' && r[i + 1] == '/') by {
            assert(r[i] == q[i] && r[i + 1] == q[i + 1]);
        }
    }
    assert(!r.contains('#') && !r.contains('?')) by {
        if r.contains('#') {
            let j = choose|j: int| 0 <= j < r.len() && r[j] == '#';
            assert(q[j] == '#');
        }
        if r.contains('?') {
            let j = choose|j: int| 0 <= j < r.len() && r[j] == '?';
            assert(q[j] == '?');
        }
    }
    if q.len() > 1 && q.last() == '/' {
        assert(!(q[q.len() - 2] == '/' && q[q.len() - 1] == '/'));
    }
    lemma_before_char(r, '#');
    lemma_before_char(r, '?');
    lemma_squeeze_props(r);
}

/// What diffing a page's new document against its cached one found: the
/// patch operations `P`, and whether the page must be reloaded instead
/// (with the reason, when there is one).
pub struct DiffResult<P> {
    pub ops: Vec<P>,
    pub should_reload: bool,
    pub reload_reason: Option<String>,
}

/// What a recompiled page leads to.
pub enum DiffOutcome<P> {
    /// The page was not cached: its document is now.
    Initial,
    /// Nothing changed.
    Unchanged,
    /// The patches to apply, and the new document.
    Patches(Vec<P>, IndexedDocument),
    /// The page must be reloaded.
    NeedsReload { reason: String },
}

/// The reason given for a reload: the diff's, or `complex change`.
pub open spec fn reload_reason_text(r: Option<String>) -> Seq<char> {
    match r {
        Some(s) => s@,
        None => "complex change"@,
    }
}

/// Whether `r` and the cache `after` are what the diff result `d` of the
/// page `k` leads to, from the cache `before` and the new document `new`:
/// a reload (with its reason) or no change caches the new document; patches
/// are handed out with the new document and leave the cache as it was.
pub open spec fn diff_settled<P>(
    before: Map<Seq<char>, IndexedDocument>,
    after: Map<Seq<char>, IndexedDocument>,
    k: Seq<char>,
    new: IndexedDocument,
    d: DiffResult<P>,
    r: DiffOutcome<P>,
) -> bool {
    if d.should_reload {
        &&& r matches DiffOutcome::NeedsReload { reason } && reason@ == reload_reason_text(d.reload_reason)
        &&& after == before.insert(k, new)
    } else if d.ops@.len() == 0 {
        &&& r is Unchanged
        &&& after == before.insert(k, new)
    } else {
        &&& r == DiffOutcome::Patches(d.ops, new)
        &&& after == before
    }
}

/// Decides what a recompiled page leads to: a page not cached (under its
/// normalized URL path) is cached and gives `Initial`; otherwise `diff`
/// compares the cached document with the new one and the result is settled
/// as `diff_settled` says.
pub fn compute_diff<P, G: FnOnce(&IndexedDocument, &IndexedDocument) -> DiffResult<P>>(
    cache: &mut VdomCache,
    url_path: &str,
    new_vdom: IndexedDocument,
    diff: G,
) -> (r: DiffOutcome<P>)
    requires
        forall|a: &IndexedDocument, b: &IndexedDocument| diff.requires((a, b)),
    ensures
        !old(cache)@.contains_key(normalized_url(url_path@)) ==> r is Initial && final(cache)@ == old(cache)@.insert(
            normalized_url(url_path@),
            new_vdom,
        ),
        old(cache)@.contains_key(normalized_url(url_path@)) ==> exists|d: DiffResult<P>|
            {
                &&& call_ensures(diff, (&old(cache)@[normalized_url(url_path@)], &new_vdom), d)
                &&& diff_settled(old(cache)@, final(cache)@, normalized_url(url_path@), new_vdom, d, r)
            },
{
    let url = normalize_url_path(url_path);
    let ghost before = cache@;
    let ghost nv = new_vdom;
    let found = match cache.get(url.as_str()) {
        Some(old_vdom) => Some(diff(old_vdom, &new_vdom)),
        None => None,
    };
    match found {
        Some(d) => {
            let ghost dd = d;
            let res = if d.should_reload {
                let reason = match d.reload_reason {
                    Some(s) => s,
                    None => "complex change".to_owned(),
                };
                cache.insert(url, new_vdom);
                DiffOutcome::NeedsReload { reason }
            } else if d.ops.len() == 0 {
                cache.insert(url, new_vdom);
                DiffOutcome::Unchanged
            } else {
                DiffOutcome::Patches(d.ops, new_vdom)
            };
            assert(diff_settled(before, cache@, normalized_url(url_path@), nv, dd, res));
            res
        },
        None => {
            cache.insert(url, new_vdom);
            DiffOutcome::Initial
        },
    }
}

} // verus!
