//! Maps held as vectors of entries with distinct text keys.

use vstd::prelude::*;
use crate::utils::text::str_eq;

verus! {

/// The map of a list of entries keyed by text; a later entry for the same
/// key wins.
pub open spec fn entries_map<V>(s: Seq<(String, V)>) -> Map<Seq<char>, V>
    decreases s.len(),
{
    if s.len() == 0 {
        Map::empty()
    } else {
        entries_map(s.drop_last()).insert(s.last().0@, s.last().1)
    }
}

/// No key occurs twice.
pub open spec fn distinct_keys<V>(s: Seq<(String, V)>) -> bool {
    forall|i: int, j: int| 0 <= i < j < s.len() ==> s[i].0@ != s[j].0@
}

/// An entry's key maps to its value.
pub proof fn lemma_entry_found<V>(s: Seq<(String, V)>, i: int)
    requires
        distinct_keys(s),
        0 <= i < s.len(),
    ensures
        entries_map(s).contains_key(s[i].0@),
        entries_map(s)[s[i].0@] == s[i].1,
    decreases s.len(),
{
    if i < s.len() - 1 {
        lemma_entry_found(s.drop_last(), i);
        assert(s.drop_last()[i] == s[i]);
    }
}

/// A key of no entry is not in the map.
pub proof fn lemma_entry_absent<V>(s: Seq<(String, V)>, k: Seq<char>)
    requires
        forall|i: int| 0 <= i < s.len() ==> #[trigger] s[i].0@ != k,
    ensures
        !entries_map(s).contains_key(k),
    decreases s.len(),
{
    if s.len() > 0 {
        assert(s[s.len() - 1].0@ != k);
        assert forall|i: int| 0 <= i < s.drop_last().len() implies #[trigger] s.drop_last()[i].0@ != k by {
            assert(s.drop_last()[i] == s[i]);
            assert(s[i].0@ != k);
        }
        lemma_entry_absent(s.drop_last(), k);
    }
}

/// The map has one key per entry.
pub proof fn lemma_entries_finite<V>(s: Seq<(String, V)>)
    requires
        distinct_keys(s),
    ensures
        entries_map(s).dom().finite(),
        entries_map(s).len() == s.len(),
    decreases s.len(),
{
    if s.len() > 0 {
        let t = s.drop_last();
        assert forall|i: int, j: int| 0 <= i < j < t.len() implies t[i].0@ != t[j].0@ by {
            assert(t[i] == s[i] && t[j] == s[j]);
        }
        lemma_entries_finite(t);
        assert forall|i: int| 0 <= i < t.len() implies #[trigger] t[i].0@ != s.last().0@ by {
            assert(t[i] == s[i]);
        }
        lemma_entry_absent(t, s.last().0@);
    }
}

/// The map of entries without the one at `i` is the map without its key.
pub proof fn lemma_entries_remove<V>(s: Seq<(String, V)>, i: int)
    requires
        distinct_keys(s),
        0 <= i < s.len(),
    ensures
        distinct_keys(s.remove(i)),
        entries_map(s.remove(i)) == entries_map(s).remove(s[i].0@),
{
    let r = s.remove(i);
    assert forall|a: int, b: int| 0 <= a < b < r.len() implies r[a].0@ != r[b].0@ by {
        let a0 = if a < i { a } else { a + 1 };
        let b0 = if b < i { b } else { b + 1 };
        assert(r[a] == s[a0] && r[b] == s[b0]);
    }
    let k = s[i].0@;
    assert forall|x: Seq<char>| #[trigger] entries_map(r).contains_key(x) <==> entries_map(s).remove(k).contains_key(x) by {
        if entries_map(r).contains_key(x) {
            if forall|j: int| 0 <= j < r.len() ==> #[trigger] r[j].0@ != x {
                lemma_entry_absent(r, x);
            }
            let j = choose|j: int| 0 <= j < r.len() && #[trigger] r[j].0@ == x;
            let j0 = if j < i { j } else { j + 1 };
            assert(r[j] == s[j0]);
            lemma_entry_found(s, j0);
        }
        if entries_map(s).remove(k).contains_key(x) {
            if forall|j: int| 0 <= j < s.len() ==> #[trigger] s[j].0@ != x {
                lemma_entry_absent(s, x);
            }
            let j = choose|j: int| 0 <= j < s.len() && #[trigger] s[j].0@ == x;
            let j1 = if j < i { j } else { j - 1 };
            assert(r[j1] == s[j]);
            lemma_entry_found(r, j1);
        }
    }
    assert forall|x: Seq<char>| #[trigger] entries_map(r).contains_key(x) implies entries_map(r)[x] == entries_map(
        s,
    ).remove(k)[x] by {
        if forall|j: int| 0 <= j < r.len() ==> #[trigger] r[j].0@ != x {
            lemma_entry_absent(r, x);
        }
        let j = choose|j: int| 0 <= j < r.len() && #[trigger] r[j].0@ == x;
        let j0 = if j < i { j } else { j + 1 };
        assert(r[j] == s[j0]);
        lemma_entry_found(r, j);
        lemma_entry_found(s, j0);
    }
    assert(entries_map(r) =~= entries_map(s).remove(k));
}

/// The position of a key among entries.
pub fn find_entry<V>(entries: &Vec<(String, V)>, key: &str) -> (r: Option<usize>)
    ensures
        r matches Some(i) ==> i < entries@.len() && entries@[i as int].0@ == key@,
        r matches Some(i) ==> forall|j: int| 0 <= j < i ==> #[trigger] entries@[j].0@ != key@,
        r is None ==> forall|i: int| 0 <= i < entries@.len() ==> #[trigger] entries@[i].0@ != key@,
{
    let mut i: usize = 0;
    while i < entries.len()
        invariant
            i <= entries@.len(),
            forall|j: int| 0 <= j < i ==> #[trigger] entries@[j].0@ != key@,
        decreases entries.len() - i,
    {
        if str_eq(entries[i].0.as_str(), key) {
            return Some(i);
        }
        i = i + 1;
    }
    None
}


/// Sets the value of a key (adding the entry when the key is new); returns
/// the value it replaces, if any.
pub fn set_entry<V>(entries: &mut Vec<(String, V)>, key: String, value: V) -> (r: Option<V>)
    requires
        distinct_keys(old(entries)@),
    ensures
        distinct_keys(final(entries)@),
        entries_map(final(entries)@) == entries_map(old(entries)@).insert(key@, value),
        entries_map(old(entries)@).contains_key(key@) ==> r == Some(entries_map(old(entries)@)[key@]),
        !entries_map(old(entries)@).contains_key(key@) ==> r is None,
{
    let ghost k = key@;
    let ghost before = entries@;
    let old_value = match find_entry(entries, key.as_str()) {
        Some(i) => {
            proof {
                lemma_entry_found(before, i as int);
                lemma_entries_remove(before, i as int);
            }
            let (_, v) = entries.remove(i);
            Some(v)
        },
        None => {
            proof {
                lemma_entry_absent(before, k);
            }
            None
        },
    };
    let ghost kept = entries@;
    assert forall|j: int| 0 <= j < kept.len() implies #[trigger] kept[j].0@ != k by {
        if kept[j].0@ == k {
            lemma_entry_found(kept, j);
        }
    }
    entries.push((key, value));
    assert(entries@.drop_last() =~= kept);
    assert forall|a: int, b: int| 0 <= a < b < entries@.len() implies entries@[a].0@ != entries@[b].0@ by {
        assert(entries@[a] == kept[a]);
        if b < entries@.len() - 1 {
            assert(entries@[b] == kept[b]);
        }
    }
    assert(entries_map(entries@) =~= entries_map(before).insert(k, value));
    old_value
}

/// Removes a key; returns its value, if it had one.
pub fn remove_entry<V>(entries: &mut Vec<(String, V)>, key: &str) -> (r: Option<V>)
    requires
        distinct_keys(old(entries)@),
    ensures
        distinct_keys(final(entries)@),
        entries_map(final(entries)@) == entries_map(old(entries)@).remove(key@),
        entries_map(old(entries)@).contains_key(key@) ==> r == Some(entries_map(old(entries)@)[key@]),
        !entries_map(old(entries)@).contains_key(key@) ==> r is None,
{
    match find_entry(entries, key) {
        Some(i) => {
            proof {
                lemma_entry_found(entries@, i as int);
                lemma_entries_remove(entries@, i as int);
            }
            let (_, v) = entries.remove(i);
            Some(v)
        },
        None => {
            proof {
                lemma_entry_absent(entries@, key@);
                assert(entries_map(entries@) =~= entries_map(entries@).remove(key@));
            }
            None
        },
    }
}

} // verus!
