//! Content-derived identities of VDOM nodes.
//!
//! An element's identity hashes its tag, its attributes sorted by name, the
//! identities of its children and its position among its siblings; a text
//! node's identity hashes its content and its position. Equal content gives
//! equal identities, and the position tells identical siblings apart.
//!
//! The hash is std's `DefaultHasher`. A string enters it as two writes, its
//! UTF-8 bytes and then the single byte `0xff`; an integer enters it as one
//! write of eight little-endian bytes.

use vstd::prelude::*;
use vstd::string::StringSliceAdditionalSpecFns;
use vstd::utf8::encode_utf8;
use vstd::std_specs::hash::DefaultHasherAdditionalSpecFns;
use std::collections::hash_map::DefaultHasher;
use std::hash::Hasher;
use crate::utils::hash::{hex_char, le_bytes, le_u64, le_value, pow256};
use crate::utils::text::from_chars;

verus! {

/// Identity of a node, derived from its content.
#[derive(Clone, Copy, PartialEq, Eq, Structural, Hash, Debug)]
pub struct StableId(u64);

impl View for StableId {
    type V = u64;

    closed spec fn view(&self) -> u64 {
        self.0
    }
}

/// `n` in lowercase hexadecimal, without leading zeros (`"0"` for zero).
pub open spec fn hex_lower(n: nat) -> Seq<char>
    decreases n,
{
    if n < 16 {
        seq![hex_char(n as int)]
    } else {
        hex_lower(n / 16).push(hex_char((n % 16) as int))
    }
}

fn push_hex(out: &mut Vec<char>, n: u64)
    ensures
        final(out)@ == old(out)@ + hex_lower(n as nat),
    decreases n,
{
    if n >= 16 {
        push_hex(out, n / 16);
    }
    let d = n % 16;
    let c = if d < 10 { ((48 + d) as u8) as char } else { ((87 + d) as u8) as char };
    out.push(c);
}

/// The writes that hash a string with these UTF-8 bytes: the bytes, then the
/// byte `0xff`.
pub open spec fn bytes_writes(b: Seq<u8>) -> Seq<Seq<u8>> {
    seq![b, seq![255u8]]
}

/// The writes that hash a string.
pub open spec fn str_writes(s: Seq<char>) -> Seq<Seq<u8>> {
    bytes_writes(encode_utf8(s))
}

/// The write that hashes an integer: its eight little-endian bytes.
pub open spec fn int_write(n: nat) -> Seq<u8> {
    le_bytes(n, 8)
}

fn le_bytes_vec(n: u64) -> (r: Vec<u8>)
    ensures
        r@ == le_bytes(n as nat, 8),
{
    let mut out: Vec<u8> = Vec::new();
    let mut rest: u64 = n;
    let mut i: usize = 0;
    while i < 8
        invariant
            i <= 8,
            out@ + le_bytes(rest as nat, (8 - i) as nat) == le_bytes(n as nat, 8),
        decreases 8 - i,
    {
        let ghost before = out@;
        assert(le_bytes(rest as nat, (8 - i) as nat) == seq![(rest as nat % 256) as u8]
            + le_bytes(rest as nat / 256, (8 - i - 1) as nat));
        out.push((rest % 256) as u8);
        assert(before + le_bytes(rest as nat, (8 - i) as nat) =~= out@ + le_bytes(
            rest as nat / 256,
            (8 - i - 1) as nat,
        ));
        rest = rest / 256;
        i = i + 1;
    }
    assert(le_bytes(rest as nat, 0) =~= Seq::<u8>::empty());
    assert(out@ + Seq::<u8>::empty() =~= out@);
    out
}

fn write_str(h: &mut DefaultHasher, s: &str)
    ensures
        final(h)@ == old(h)@ + str_writes(s@),
{
    let bytes = s.as_bytes();
    h.write(bytes);
    let ghost mid = h@;
    assert(mid == old(h)@.push(encode_utf8(s@)));
    let mut term: Vec<u8> = Vec::new();
    term.push(255u8);
    assert(term@ =~= seq![255u8]);
    h.write(term.as_slice());
    assert(h@ == mid.push(seq![255u8]));
    assert(old(h)@.push(encode_utf8(s@)).push(seq![255u8]) =~= old(h)@ + str_writes(s@));
}

fn write_int(h: &mut DefaultHasher, n: u64)
    ensures
        final(h)@ == old(h)@.push(int_write(n as nat)),
{
    let b = le_bytes_vec(n);
    h.write(b.as_slice());
}

/// The writes that hash a text node.
pub open spec fn text_writes(content: Seq<char>, position: nat) -> Seq<Seq<u8>> {
    str_writes("__text__"@) + str_writes(content) + seq![int_write(position)]
}

/// The writes that hash a frame node.
pub open spec fn frame_writes(frame_id: nat, position: nat) -> Seq<Seq<u8>> {
    str_writes("__frame__"@) + seq![int_write(frame_id), int_write(position)]
}

/// An attribute as the hash sees it: the UTF-8 bytes of its name and value.
pub open spec fn attr_bytes(a: (String, String)) -> (Seq<u8>, Seq<u8>) {
    (encode_utf8(a.0@), encode_utf8(a.1@))
}

/// The attributes of a list as the hash sees them.
pub open spec fn attrs_bytes(s: Seq<(String, String)>) -> Seq<(Seq<u8>, Seq<u8>)> {
    s.map_values(|a: (String, String)| attr_bytes(a))
}

/// The raw values of a list of identities.
pub open spec fn ids_view(s: Seq<StableId>) -> Seq<u64> {
    s.map_values(|c: StableId| c@)
}

/// Byte-wise lexicographic order, the order in which `str` compares.
pub open spec fn bytes_le(a: Seq<u8>, b: Seq<u8>) -> bool
    decreases a.len(),
{
    if a.len() == 0 {
        true
    } else if b.len() == 0 {
        false
    } else if a[0] != b[0] {
        a[0] < b[0]
    } else {
        bytes_le(a.drop_first(), b.drop_first())
    }
}

/// `s` with `x` inserted after every attribute whose name is not greater
/// than its name, counting from the end.
pub open spec fn insert_by_name(s: Seq<(Seq<u8>, Seq<u8>)>, x: (Seq<u8>, Seq<u8>)) -> Seq<
    (Seq<u8>, Seq<u8>),
>
    decreases s.len(),
{
    if s.len() == 0 {
        seq![x]
    } else if bytes_le(s.last().0, x.0) {
        s.push(x)
    } else {
        insert_by_name(s.drop_last(), x).push(s.last())
    }
}

/// The attributes sorted by name; attributes of equal names keep their order
/// (a stable sort).
pub open spec fn sorted_by_name(s: Seq<(Seq<u8>, Seq<u8>)>) -> Seq<(Seq<u8>, Seq<u8>)>
    decreases s.len(),
{
    if s.len() == 0 {
        s
    } else {
        insert_by_name(sorted_by_name(s.drop_last()), s.last())
    }
}

/// The writes that hash a list of attributes, name then value for each.
pub open spec fn attr_writes(s: Seq<(Seq<u8>, Seq<u8>)>) -> Seq<Seq<u8>>
    decreases s.len(),
{
    if s.len() == 0 {
        seq![]
    } else {
        attr_writes(s.drop_last()) + bytes_writes(s.last().0) + bytes_writes(s.last().1)
    }
}

/// The writes that hash a list of child identities.
pub open spec fn id_writes(s: Seq<u64>) -> Seq<Seq<u8>> {
    Seq::new(s.len(), |i: int| int_write(s[i] as nat))
}

/// The writes that hash an element: its tag, its attributes sorted by name,
/// its children's identities, its position.
pub open spec fn element_writes(
    tag: Seq<u8>,
    attrs: Seq<(Seq<u8>, Seq<u8>)>,
    children: Seq<u64>,
    position: nat,
) -> Seq<Seq<u8>> {
    bytes_writes(tag) + attr_writes(sorted_by_name(attrs)) + id_writes(children) + seq![
        int_write(position),
    ]
}

/// The identity of an element.
pub open spec fn element_id(
    tag: Seq<u8>,
    attrs: Seq<(Seq<u8>, Seq<u8>)>,
    children: Seq<u64>,
    position: nat,
) -> u64 {
    DefaultHasher::spec_finish(element_writes(tag, attrs, children, position))
}

pub(crate) fn bytes_le_exec(a: &[u8], b: &[u8]) -> (r: bool)
    ensures
        r == bytes_le(a@, b@),
{
    let mut i: usize = 0;
    assert(a@.subrange(0, a@.len() as int) =~= a@);
    assert(b@.subrange(0, b@.len() as int) =~= b@);
    while i < a.len() && i < b.len()
        invariant
            i <= a@.len(),
            i <= b@.len(),
            bytes_le(a@, b@) == bytes_le(
                a@.subrange(i as int, a@.len() as int),
                b@.subrange(i as int, b@.len() as int),
            ),
        decreases a@.len() - i,
    {
        if a[i] != b[i] {
            return a[i] < b[i];
        }
        assert(a@.subrange(i as int, a@.len() as int).drop_first() =~= a@.subrange(
            i + 1,
            a@.len() as int,
        ));
        assert(b@.subrange(i as int, b@.len() as int).drop_first() =~= b@.subrange(
            i + 1,
            b@.len() as int,
        ));
        i = i + 1;
    }
    i == a.len()
}

/// `s` with `x` inserted at `p`, where `p` is the place that
/// `insert_by_name` finds.
proof fn lemma_insert_at(s: Seq<(Seq<u8>, Seq<u8>)>, x: (Seq<u8>, Seq<u8>), p: int)
    requires
        0 <= p <= s.len(),
        p == 0 || bytes_le(s[p - 1].0, x.0),
        forall|j: int| p <= j < s.len() ==> !bytes_le(#[trigger] s[j].0, x.0),
    ensures
        insert_by_name(s, x) == s.insert(p, x),
    decreases s.len(),
{
    if s.len() == 0 {
        assert(s.insert(p, x) =~= seq![x]);
    } else if p == s.len() {
        assert(s.insert(p, x) =~= s.push(x));
    } else {
        assert(!bytes_le(s[s.len() - 1].0, x.0));
        lemma_insert_at(s.drop_last(), x, p);
        assert(s.drop_last().insert(p, x).push(s.last()) =~= s.insert(p, x));
    }
}

spec fn order_view(attrs: Seq<(String, String)>, idx: Seq<usize>) -> Seq<(Seq<u8>, Seq<u8>)> {
    idx.map_values(|j: usize| attr_bytes(attrs[j as int]))
}

/// The positions of the attributes, in the order of `sorted_by_name`.
fn name_order(attrs: &[(String, String)]) -> (idx: Vec<usize>)
    ensures
        forall|k: int| 0 <= k < idx@.len() ==> idx@[k] < attrs@.len(),
        order_view(attrs@, idx@) == sorted_by_name(attrs_bytes(attrs@)),
{
    let n = attrs.len();
    let mut idx: Vec<usize> = Vec::new();
    let mut i: usize = 0;
    while i < n
        invariant
            i <= n == attrs@.len(),
            forall|k: int| 0 <= k < idx@.len() ==> idx@[k] < i,
            order_view(attrs@, idx@) == sorted_by_name(attrs_bytes(attrs@).subrange(0, i as int)),
        decreases n - i,
    {
        let ghost x = attr_bytes(attrs@[i as int]);
        let ghost s = order_view(attrs@, idx@);
        let key = attrs[i].0.as_str().as_bytes();
        let mut p: usize = idx.len();
        while p > 0 && !bytes_le_exec(attrs[idx[p - 1]].0.as_str().as_bytes(), key)
            invariant
                p <= idx@.len(),
                s == order_view(attrs@, idx@),
                i < n == attrs@.len(),
                forall|k: int| 0 <= k < idx@.len() ==> idx@[k] < i,
                key@ == x.0,
                x == attr_bytes(attrs@[i as int]),
                forall|j: int| p <= j < s.len() ==> !bytes_le(#[trigger] s[j].0, x.0),
            decreases p,
        {
            p = p - 1;
        }
        proof {
            lemma_insert_at(s, x, p as int);
            let pre = attrs_bytes(attrs@).subrange(0, i + 1);
            assert(pre.drop_last() =~= attrs_bytes(attrs@).subrange(0, i as int));
            assert(pre.last() == x);
        }
        idx.insert(p, i);
        assert(order_view(attrs@, idx@) =~= s.insert(p as int, x));
        i = i + 1;
    }
    assert(attrs_bytes(attrs@).subrange(0, n as int) =~= attrs_bytes(attrs@));
    idx
}

/// No two attributes share a name.
pub open spec fn distinct_names(s: Seq<(Seq<u8>, Seq<u8>)>) -> bool {
    forall|i: int, j: int| 0 <= i < j < s.len() ==> #[trigger] s[i].0 != #[trigger] s[j].0
}

/// The names are in order (not necessarily strictly).
pub open spec fn names_sorted(s: Seq<(Seq<u8>, Seq<u8>)>) -> bool {
    forall|i: int, j: int| 0 <= i < j < s.len() ==> bytes_le(#[trigger] s[i].0, #[trigger] s[j].0)
}

pub(crate) proof fn lemma_bytes_le_refl(a: Seq<u8>)
    ensures
        bytes_le(a, a),
    decreases a.len(),
{
    if a.len() > 0 {
        lemma_bytes_le_refl(a.drop_first());
    }
}

proof fn lemma_bytes_le_antisym(a: Seq<u8>, b: Seq<u8>)
    requires
        bytes_le(a, b),
        bytes_le(b, a),
    ensures
        a == b,
    decreases a.len(),
{
    if a.len() == 0 {
        assert(b.len() == 0);
        assert(a =~= b);
    } else {
        assert(b.len() > 0);
        assert(a[0] == b[0]);
        lemma_bytes_le_antisym(a.drop_first(), b.drop_first());
        assert(a =~= seq![a[0]] + a.drop_first());
        assert(b =~= seq![b[0]] + b.drop_first());
    }
}

pub(crate) proof fn lemma_bytes_le_trans(a: Seq<u8>, b: Seq<u8>, c: Seq<u8>)
    requires
        bytes_le(a, b),
        bytes_le(b, c),
    ensures
        bytes_le(a, c),
    decreases a.len(),
{
    if a.len() > 0 && b.len() > 0 && c.len() > 0 && a[0] == b[0] && b[0] == c[0] {
        lemma_bytes_le_trans(a.drop_first(), b.drop_first(), c.drop_first());
    }
}

pub(crate) proof fn lemma_bytes_le_total(a: Seq<u8>, b: Seq<u8>)
    ensures
        bytes_le(a, b) || bytes_le(b, a),
    decreases a.len(),
{
    if a.len() > 0 && b.len() > 0 && a[0] == b[0] {
        lemma_bytes_le_total(a.drop_first(), b.drop_first());
    }
}

/// Attributes ordered by name, then by value.
spec fn name_value_le(x: (Seq<u8>, Seq<u8>), y: (Seq<u8>, Seq<u8>)) -> bool {
    if x.0 != y.0 {
        bytes_le(x.0, y.0)
    } else {
        bytes_le(x.1, y.1)
    }
}

proof fn lemma_name_value_total_ordering()
    ensures
        vstd::relations::total_ordering(
            |x: (Seq<u8>, Seq<u8>), y: (Seq<u8>, Seq<u8>)| name_value_le(x, y),
        ),
{
    let leq = |x: (Seq<u8>, Seq<u8>), y: (Seq<u8>, Seq<u8>)| name_value_le(x, y);
    assert forall|x: (Seq<u8>, Seq<u8>)| #[trigger] leq(x, x) by {
        lemma_bytes_le_refl(x.1);
    }
    assert forall|x: (Seq<u8>, Seq<u8>), y: (Seq<u8>, Seq<u8>)|
        #[trigger] leq(x, y) && #[trigger] leq(y, x) implies x == y by {
        if x.0 != y.0 {
            lemma_bytes_le_antisym(x.0, y.0);
        } else {
            lemma_bytes_le_antisym(x.1, y.1);
        }
    }
    assert forall|x: (Seq<u8>, Seq<u8>), y: (Seq<u8>, Seq<u8>), z: (Seq<u8>, Seq<u8>)|
        #[trigger] leq(x, y) && #[trigger] leq(y, z) implies leq(x, z) by {
        if x.0 != y.0 && y.0 != z.0 {
            lemma_bytes_le_trans(x.0, y.0, z.0);
            if x.0 == z.0 {
                lemma_bytes_le_antisym(x.0, y.0);
            }
        } else if x.0 != y.0 {
            assert(y.0 == z.0);
        } else if y.0 != z.0 {
            assert(x.0 == y.0);
        } else {
            lemma_bytes_le_trans(x.1, y.1, z.1);
        }
    }
    assert forall|x: (Seq<u8>, Seq<u8>), y: (Seq<u8>, Seq<u8>)|
        #[trigger] leq(x, y) || #[trigger] leq(y, x) by {
        lemma_bytes_le_total(x.0, y.0);
        lemma_bytes_le_total(x.1, y.1);
    }
}

/// Inserting keeps every name under a bound that all names were under.
proof fn lemma_insert_bounded(s: Seq<(Seq<u8>, Seq<u8>)>, x: (Seq<u8>, Seq<u8>), b: Seq<u8>)
    requires
        forall|i: int| 0 <= i < s.len() ==> bytes_le(#[trigger] s[i].0, b),
        bytes_le(x.0, b),
    ensures
        insert_by_name(s, x).len() == s.len() + 1,
        forall|i: int|
            0 <= i < insert_by_name(s, x).len() ==> bytes_le(#[trigger] insert_by_name(s, x)[i].0, b),
    decreases s.len(),
{
    if s.len() > 0 && !bytes_le(s.last().0, x.0) {
        lemma_insert_bounded(s.drop_last(), x, b);
    }
}

proof fn lemma_insert_sorted(s: Seq<(Seq<u8>, Seq<u8>)>, x: (Seq<u8>, Seq<u8>))
    requires
        names_sorted(s),
    ensures
        names_sorted(insert_by_name(s, x)),
        insert_by_name(s, x).to_multiset() == s.to_multiset().insert(x),
    decreases s.len(),
{
    broadcast use vstd::seq_lib::group_to_multiset_ensures;

    if s.len() == 0 {
        assert(seq![x] =~= Seq::<(Seq<u8>, Seq<u8>)>::empty().push(x));
    } else if bytes_le(s.last().0, x.0) {
        assert forall|i: int, j: int| 0 <= i < j < s.len() + 1 implies bytes_le(
            #[trigger] s.push(x)[i].0,
            #[trigger] s.push(x)[j].0,
        ) by {
            if j == s.len() && i < s.len() - 1 {
                lemma_bytes_le_trans(s[i].0, s.last().0, x.0);
            }
        }
    } else {
        let t = s.drop_last();
        let l = s.last();
        lemma_insert_sorted(t, x);
        lemma_bytes_le_total(l.0, x.0);
        lemma_bytes_le_refl(l.0);
        lemma_insert_bounded(t, x, l.0);
        let r = insert_by_name(t, x);
        assert forall|i: int, j: int| 0 <= i < j < r.len() + 1 implies bytes_le(
            #[trigger] r.push(l)[i].0,
            #[trigger] r.push(l)[j].0,
        ) by {
            if j == r.len() {
                assert(bytes_le(r[i].0, l.0));
            } else {
                assert(bytes_le(r[i].0, r[j].0));
            }
        }
        assert(s =~= t.push(l));
        assert(r.push(l).to_multiset() =~= s.to_multiset().insert(x));
    }
}

proof fn lemma_sorted_by_name(s: Seq<(Seq<u8>, Seq<u8>)>)
    ensures
        names_sorted(sorted_by_name(s)),
        sorted_by_name(s).to_multiset() == s.to_multiset(),
    decreases s.len(),
{
    broadcast use vstd::seq_lib::group_to_multiset_ensures;

    if s.len() > 0 {
        lemma_sorted_by_name(s.drop_last());
        lemma_insert_sorted(sorted_by_name(s.drop_last()), s.last());
        assert(s =~= s.drop_last().push(s.last()));
    }
}

/// A reordering of attributes with distinct names has distinct names.
proof fn lemma_distinct_names_reordered(s: Seq<(Seq<u8>, Seq<u8>)>, t: Seq<(Seq<u8>, Seq<u8>)>)
    requires
        distinct_names(s),
        t.to_multiset() == s.to_multiset(),
    ensures
        distinct_names(t),
{
    broadcast use vstd::seq_lib::group_to_multiset_ensures;

    assert forall|i: int, j: int| 0 <= i < s.len() && 0 <= j < s.len() && i != j implies s[i]
        != s[j] by {
        if i < j {
            assert(s[i].0 != s[j].0);
        } else {
            assert(s[j].0 != s[i].0);
        }
    }
    assert(s.no_duplicates());
    s.lemma_multiset_has_no_duplicates();
    t.lemma_multiset_has_no_duplicates_conv();
    assert forall|i: int, j: int| 0 <= i < j < t.len() implies #[trigger] t[i].0 != #[trigger] t[j].0 by {
        assert(t.to_multiset().count(t[i]) > 0);
        assert(t.to_multiset().count(t[j]) > 0);
        assert(s.contains(t[i]));
        assert(s.contains(t[j]));
        let a = choose|a: int| 0 <= a < s.len() && s[a] == t[i];
        let b = choose|b: int| 0 <= b < s.len() && s[b] == t[j];
        if t[i].0 == t[j].0 {
            assert(t[i] != t[j]);
            assert(a != b);
            if a < b {
                assert(s[a].0 != s[b].0);
            } else {
                assert(s[b].0 != s[a].0);
            }
        }
    }
}

/// Attribute order does not matter: two attribute lists that hold the same
/// name-value pairs, with no name twice, give an element the same identity.
pub proof fn law_element_id_ignores_attribute_order(
    tag: Seq<u8>,
    a1: Seq<(Seq<u8>, Seq<u8>)>,
    a2: Seq<(Seq<u8>, Seq<u8>)>,
    children: Seq<u64>,
    position: nat,
)
    requires
        a1.to_multiset() == a2.to_multiset(),
        distinct_names(a1),
    ensures
        element_id(tag, a1, children, position) == element_id(tag, a2, children, position),
{
    let t1 = sorted_by_name(a1);
    let t2 = sorted_by_name(a2);
    lemma_sorted_by_name(a1);
    lemma_sorted_by_name(a2);
    lemma_distinct_names_reordered(a1, t1);
    lemma_distinct_names_reordered(a1, t2);
    let leq = |x: (Seq<u8>, Seq<u8>), y: (Seq<u8>, Seq<u8>)| name_value_le(x, y);
    lemma_name_value_total_ordering();
    assert(vstd::relations::sorted_by(t1, leq));
    assert(vstd::relations::sorted_by(t2, leq));
    vstd::seq_lib::lemma_sorted_unique(t1, t2, leq);
    assert(t1 == t2);
}

impl StableId {
    /// The identity with the given raw value.
    pub fn from_raw(raw: u64) -> (r: StableId)
        ensures
            r@ == raw,
    {
        StableId(raw)
    }

    /// The raw value of this identity.
    pub fn as_raw(&self) -> (r: u64)
        ensures
            r == self@,
    {
        self.0
    }

    /// The identity as it is written in a `data-tola-id` attribute:
    /// lowercase hexadecimal, no leading `#`.
    pub fn to_attr_value(&self) -> (r: String)
        ensures
            r@ == hex_lower(self@ as nat),
    {
        let mut out: Vec<char> = Vec::new();
        push_hex(&mut out, self.0);
        assert(Seq::<char>::empty() + hex_lower(self@ as nat) =~= hex_lower(self@ as nat));
        from_chars(&out)
    }

    /// The identity for display: `#` and lowercase hexadecimal.
    pub fn to_display_string(&self) -> (r: String)
        ensures
            r@ == seq!['#'] + hex_lower(self@ as nat),
    {
        let mut out: Vec<char> = Vec::new();
        out.push('#');
        push_hex(&mut out, self.0);
        from_chars(&out)
    }

    /// The identity of an element: its tag, its attributes sorted by name,
    /// its children's identities (in order) and its position among its
    /// siblings.
    pub fn for_element(
        tag: &str,
        attrs: &[(String, String)],
        children: &[StableId],
        position: usize,
    ) -> (r: StableId)
        ensures
            r@ == element_id(
                encode_utf8(tag@),
                attrs_bytes(attrs@),
                ids_view(children@),
                position as nat,
            ),
    {
        let order = name_order(attrs);
        let ghost sorted = order_view(attrs@, order@);
        let mut h = DefaultHasher::new();
        write_str(&mut h, tag);
        let mut k: usize = 0;
        assert(sorted.subrange(0, 0) =~= Seq::<(Seq<u8>, Seq<u8>)>::empty());
        assert(h@ =~= str_writes(tag@) + attr_writes(sorted.subrange(0, 0)));
        while k < order.len()
            invariant
                k <= order@.len() == sorted.len(),
                sorted == order_view(attrs@, order@),
                forall|j: int| 0 <= j < order@.len() ==> order@[j] < attrs@.len(),
                h@ == str_writes(tag@) + attr_writes(sorted.subrange(0, k as int)),
            decreases order@.len() - k,
        {
            let a = &attrs[order[k]];
            let ghost before = h@;
            write_str(&mut h, a.0.as_str());
            write_str(&mut h, a.1.as_str());
            proof {
                let pre = sorted.subrange(0, k + 1);
                assert(pre.drop_last() =~= sorted.subrange(0, k as int));
                assert(before + str_writes(a.0@) + str_writes(a.1@) =~= str_writes(tag@)
                    + attr_writes(pre));
            }
            k = k + 1;
        }
        assert(sorted.subrange(0, sorted.len() as int) =~= sorted);
        let ghost after_attrs = h@;
        let mut c: usize = 0;
        while c < children.len()
            invariant
                c <= children@.len(),
                h@ == after_attrs + id_writes(ids_view(children@).subrange(0, c as int)),
            decreases children@.len() - c,
        {
            let ghost before = h@;
            write_int(&mut h, children[c].0);
            assert(before.push(int_write(children@[c as int]@ as nat)) =~= after_attrs + id_writes(
                ids_view(children@).subrange(0, c + 1),
            ));
            c = c + 1;
        }
        assert(ids_view(children@).subrange(0, children@.len() as int) =~= ids_view(children@));
        write_int(&mut h, position as u64);
        assert(h@ =~= element_writes(
            encode_utf8(tag@),
            attrs_bytes(attrs@),
            ids_view(children@),
            position as nat,
        ));
        StableId(h.finish())
    }

    /// The identity of an element at position zero.
    pub fn from_content_hash(tag: &str, attrs: &[(String, String)], children: &[StableId]) -> (r:
        StableId)
        ensures
            r@ == element_id(encode_utf8(tag@), attrs_bytes(attrs@), ids_view(children@), 0),
    {
        StableId::for_element(tag, attrs, children, 0)
    }

    /// The identity of a text node with this content at this position.
    pub fn for_text(content: &str, position: usize) -> (r: StableId)
        ensures
            r@ == DefaultHasher::spec_finish(text_writes(content@, position as nat)),
    {
        let mut h = DefaultHasher::new();
        write_str(&mut h, "__text__");
        write_str(&mut h, content);
        write_int(&mut h, position as u64);
        assert(h@ =~= text_writes(content@, position as nat));
        StableId(h.finish())
    }

    /// The identity of a frame node with this frame number at this position.
    pub fn for_frame(frame_id: usize, position: usize) -> (r: StableId)
        ensures
            r@ == DefaultHasher::spec_finish(frame_writes(frame_id as nat, position as nat)),
    {
        let mut h = DefaultHasher::new();
        write_str(&mut h, "__frame__");
        write_int(&mut h, frame_id as u64);
        write_int(&mut h, position as u64);
        assert(h@ =~= frame_writes(frame_id as nat, position as nat));
        StableId(h.finish())
    }

    /// The identity of a text node with this content at position zero.
    pub fn from_text_content(content: &str) -> (r: StableId)
        ensures
            r@ == DefaultHasher::spec_finish(text_writes(content@, 0)),
    {
        StableId::for_text(content, 0)
    }

    /// The placeholder identity, which matches no real node.
    pub fn detached() -> (r: StableId)
        ensures
            r@ == 0,
    {
        StableId(0)
    }

    /// Whether this is the placeholder identity.
    pub fn is_detached(&self) -> (b: bool)
        ensures
            b == (self@ == 0),
    {
        self.0 == 0
    }

    /// Whether this identity was taken from a source span. Identities are
    /// derived from content alone, so never.
    pub fn has_span(&self) -> (b: bool)
        ensures
            !b,
    {
        false
    }
}

impl Default for StableId {
    /// The placeholder identity.
    fn default() -> (r: StableId)
        ensures
            r@ == 0,
    {
        StableId::detached()
    }
}

/// The archived form of an identity: its value as eight little-endian
/// bytes, the same on every platform.
pub struct ArchivedStableId([u8; 8]);

impl ArchivedStableId {
    /// The stored bytes.
    pub closed spec fn bytes(&self) -> Seq<u8> {
        self.0@
    }

    /// The identity's raw value, read back from the stored bytes.
    pub fn as_raw(&self) -> (r: u64)
        ensures
            r == le_value(self.bytes()),
    {
        le_u64(self.0.as_slice())
    }
}

impl StableId {
    /// The archived form of this identity.
    pub fn archive(&self) -> (r: ArchivedStableId)
        ensures
            r.bytes() == le_bytes(self@ as nat, 8),
    {
        let b = le_bytes_vec(self.0);
        proof {
            lemma_le_bytes_len(self@ as nat, 8);
        }
        let arr: [u8; 8] = [b[0], b[1], b[2], b[3], b[4], b[5], b[6], b[7]];
        assert(arr@ =~= b@);
        ArchivedStableId(arr)
    }
}

proof fn lemma_le_bytes_len(n: nat, k: nat)
    ensures
        le_bytes(n, k).len() == k,
    decreases k,
{
    if k > 0 {
        lemma_le_bytes_len(n / 256, (k - 1) as nat);
    }
}

proof fn lemma_le_roundtrip(n: nat, k: nat)
    requires
        n < pow256(k),
    ensures
        le_value(le_bytes(n, k)) == n,
    decreases k,
{
    if k > 0 {
        assert(n / 256 < pow256((k - 1) as nat));
        lemma_le_roundtrip(n / 256, (k - 1) as nat);
        assert(le_bytes(n, k).drop_first() == le_bytes(n / 256, (k - 1) as nat));
    }
}

/// Archiving an identity and reading it back gives the same raw value.
pub proof fn law_archive_roundtrip(id: StableId, archived: ArchivedStableId)
    requires
        archived.bytes() == le_bytes(id@ as nat, 8),
    ensures
        le_value(archived.bytes()) == id@,
{
    reveal_with_fuel(pow256, 9);
    lemma_le_roundtrip(id@ as nat, 8);
}

} // verus!
