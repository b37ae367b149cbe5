//! The last indexed document of each page, kept in memory for diffing.

use vstd::prelude::*;
use crate::utils::keyed::{
    distinct_keys, entries_map, find_entry, lemma_entries_finite, lemma_entry_absent, lemma_entry_found, remove_entry,
    set_entry,
};
use crate::vdom::transforms::indexer::IndexedDocument;

verus! {

/// The last indexed document of each page, by URL path.
#[derive(Debug)]
pub struct VdomCache {
    pages: Vec<(String, IndexedDocument)>,
}

impl View for VdomCache {
    type V = Map<Seq<char>, IndexedDocument>;

    closed spec fn view(&self) -> Map<Seq<char>, IndexedDocument> {
        entries_map(self.pages@)
    }
}

impl VdomCache {
    #[verifier::type_invariant]
    spec fn wf(self) -> bool {
        distinct_keys(self.pages@)
    }

    /// An empty cache.
    pub fn new() -> (r: VdomCache)
        ensures
            r@ == Map::<Seq<char>, IndexedDocument>::empty(),
    {
        VdomCache { pages: Vec::new() }
    }

    /// The cached document of a page.
    pub fn get(&self, url_path: &str) -> (r: Option<&IndexedDocument>)
        ensures
            self@.contains_key(url_path@) ==> (r matches Some(d) && *d == self@[url_path@]),
            !self@.contains_key(url_path@) ==> r is None,
    {
        proof {
            use_type_invariant(self);
        }
        match find_entry(&self.pages, url_path) {
            Some(i) => {
                proof {
                    lemma_entry_found(self.pages@, i as int);
                }
                Some(&self.pages[i].1)
            },
            None => {
                proof {
                    lemma_entry_absent(self.pages@, url_path@);
                }
                None
            },
        }
    }

    /// Caches the document of a page; returns the one it replaces, if any.
    pub fn insert(&mut self, url_path: String, doc: IndexedDocument) -> (r: Option<IndexedDocument>)
        ensures
            final(self)@ == old(self)@.insert(url_path@, doc),
            old(self)@.contains_key(url_path@) ==> r == Some(old(self)@[url_path@]),
            !old(self)@.contains_key(url_path@) ==> r is None,
    {
        proof {
            use_type_invariant(&*self);
        }
        let mut pages: Vec<(String, IndexedDocument)> = Vec::new();
        std::mem::swap(&mut pages, &mut self.pages);
        let r = set_entry(&mut pages, url_path, doc);
        self.pages = pages;
        r
    }

    /// Removes a page from the cache; returns its document, if it was cached.
    pub fn remove(&mut self, url_path: &str) -> (r: Option<IndexedDocument>)
        ensures
            final(self)@ == old(self)@.remove(url_path@),
            old(self)@.contains_key(url_path@) ==> r == Some(old(self)@[url_path@]),
            !old(self)@.contains_key(url_path@) ==> r is None,
    {
        proof {
            use_type_invariant(&*self);
        }
        let mut pages: Vec<(String, IndexedDocument)> = Vec::new();
        std::mem::swap(&mut pages, &mut self.pages);
        let r = remove_entry(&mut pages, url_path);
        self.pages = pages;
        r
    }

    /// Empties the cache.
    pub fn clear(&mut self)
        ensures
            final(self)@ == Map::<Seq<char>, IndexedDocument>::empty(),
    {
        self.pages = Vec::new();
    }

    /// The number of cached pages.
    pub fn len(&self) -> (r: usize)
        ensures
            r == self@.len(),
    {
        proof {
            use_type_invariant(self);
            lemma_entries_finite(self.pages@);
        }
        self.pages.len()
    }

    /// Whether no page is cached.
    pub fn is_empty(&self) -> (r: bool)
        ensures
            r == (self@.len() == 0),
    {
        self.len() == 0
    }

    /// The URL paths of the cached pages, in no particular order.
    pub fn keys(&self) -> (r: Vec<&String>)
        ensures
            r@.len() == self@.len(),
            forall|k: Seq<char>| self@.contains_key(k) <==> exists|i: int| 0 <= i < r@.len() && (#[trigger] r@[i])@ == k,
    {
        proof {
            use_type_invariant(self);
            lemma_entries_finite(self.pages@);
        }
        let mut r: Vec<&String> = Vec::new();
        let mut i: usize = 0;
        while i < self.pages.len()
            invariant
                i <= self.pages@.len(),
                r@.len() == i,
                forall|j: int| 0 <= j < i ==> (#[trigger] r@[j])@ == self.pages@[j].0@,
            decreases self.pages.len() - i,
        {
            r.push(&self.pages[i].0);
            i = i + 1;
        }
        assert forall|k: Seq<char>| self@.contains_key(k) <==> exists|i: int| 0 <= i < r@.len() && (#[trigger] r@[i])@ == k by {
            if self@.contains_key(k) {
                if forall|j: int| 0 <= j < self.pages@.len() ==> #[trigger] self.pages@[j].0@ != k {
                    lemma_entry_absent(self.pages@, k);
                }
                let j = choose|j: int| 0 <= j < self.pages@.len() && #[trigger] self.pages@[j].0@ == k;
                assert(r@[j]@ == k);
            }
            if exists|i: int| 0 <= i < r@.len() && (#[trigger] r@[i])@ == k {
                let i = choose|i: int| 0 <= i < r@.len() && (#[trigger] r@[i])@ == k;
                lemma_entry_found(self.pages@, i);
            }
        }
        r
    }
}

/// What a read gives back after a write: after caching a document for a
/// page, looking the page up gives that document, and every other page
/// keeps its document.
pub proof fn law_get_after_insert(cache: Map<Seq<char>, IndexedDocument>, key: Seq<char>, doc: IndexedDocument, other: Seq<char>)
    requires
        other != key,
    ensures
        cache.insert(key, doc).contains_key(key),
        cache.insert(key, doc)[key] == doc,
        cache.insert(key, doc).contains_key(other) == cache.contains_key(other),
        cache.contains_key(other) ==> cache.insert(key, doc)[other] == cache[other],
{
}

/// After a page is removed, looking it up finds nothing, and every other
/// page keeps its document.
pub proof fn law_get_after_remove(cache: Map<Seq<char>, IndexedDocument>, key: Seq<char>, other: Seq<char>)
    requires
        other != key,
    ensures
        !cache.remove(key).contains_key(key),
        cache.remove(key).contains_key(other) == cache.contains_key(other),
        cache.contains_key(other) ==> cache.remove(key)[other] == cache[other],
{
}

} // verus!
