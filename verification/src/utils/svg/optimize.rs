//! Attribute lookup in SVG markup.

use vstd::prelude::*;
use crate::utils::text::{find_char, first_index_of, from_chars, matches_at, occurs_at, slice_vec, to_chars};

verus! {

/// The position of the first occurrence of `p` in `s`, if any.
pub open spec fn first_occurrence(s: Seq<char>, p: Seq<char>) -> Option<int> {
    if exists|i: int| occurs_at(s, p, i) {
        Some(choose|i: int| occurs_at(s, p, i) && forall|j: int| 0 <= j < i ==> !occurs_at(s, p, j))
    } else {
        None
    }
}

/// The text between the first occurrence of `prefix` and the next `"`
/// after it; none when `prefix` does not occur or no `"` follows it.
pub open spec fn attr_value(s: Seq<char>, prefix: Seq<char>) -> Option<Seq<char>> {
    match first_occurrence(s, prefix) {
        Some(i) => {
            let rest = s.subrange(i + prefix.len(), s.len() as int);
            match first_index_of(rest, '"') {
                Some(k) => Some(rest.subrange(0, k)),
                None => None,
            }
        },
        None => None,
    }
}

/// The position of the first occurrence of `p` in `v`.
fn find_seq(v: &[char], p: &[char]) -> (r: Option<usize>)
    ensures
        r matches Some(i) ==> first_occurrence(v@, p@) == Some(i as int) && i + p@.len()
            <= v@.len(),
        r is None ==> first_occurrence(v@, p@) is None,
{
    if p.len() > v.len() {
        assert(forall|i: int| !occurs_at(v@, p@, i));
        return None;
    }
    if p.len() == 0 {
        assert(occurs_at(v@, p@, 0)) by {
            assert(v@.subrange(0, 0) =~= p@);
        }
        return Some(0);
    }
    let last = v.len() - p.len();
    let mut i: usize = 0;
    while i <= last
        invariant
            last == v@.len() - p@.len(),
            p@.len() >= 1,
            last < usize::MAX,
            i <= last + 1,
            forall|j: int| 0 <= j < i ==> !occurs_at(v@, p@, j),
        decreases last + 1 - i,
    {
        if matches_at(v, p, i) {
            proof {
                let k = choose|k: int|
                    occurs_at(v@, p@, k) && forall|j: int| 0 <= j < k ==> !occurs_at(v@, p@, j);
                if k > i {
                    assert(occurs_at(v@, p@, i as int));
                }
            }
            return Some(i);
        }
        i = i + 1;
    }
    assert forall|j: int| !occurs_at(v@, p@, j) by {
        if occurs_at(v@, p@, j) {
            assert(0 <= j <= last);
        }
    }
    None
}

/// Extracts an attribute value: the text after the first occurrence of
/// `prefix` (such as `width="`) up to the next closing quote.
pub fn extract_attr(s: &str, prefix: &str) -> (r: Option<String>)
    ensures
        r matches Some(v) ==> attr_value(s@, prefix@) == Some(v@),
        r is None ==> attr_value(s@, prefix@) is None,
{
    let v = to_chars(s);
    let p = to_chars(prefix);
    let n = v.len();
    let m = p.len();
    match find_seq(v.as_slice(), p.as_slice()) {
        Some(i) => {
            assert(i + m <= n);
            let start = i + m;
            let rest = slice_vec(&v, start, v.len());
            match find_char(&rest, '"') {
                Some(k) => {
                    let out = slice_vec(&rest, 0, k);
                    Some(from_chars(&out))
                },
                None => None,
            }
        },
        None => None,
    }
}

} // verus!
