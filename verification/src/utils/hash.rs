//! Deterministic hashing with BLAKE3.
//!
//! Unlike `std`'s `DefaultHasher`, BLAKE3 gives the same output for the same
//! input in every process and on every machine. Hashes are the first eight
//! bytes of the BLAKE3 digest, read as a little-endian `u64`.

use vstd::prelude::*;
use vstd::string::StringSliceAdditionalSpecFns;
use crate::utils::text::{from_chars, slice_vec};

verus! {

#[verifier::external_type_specification]
#[verifier::external_body]
pub struct ExBlake3Hasher(blake3::Hasher);

/// The bytes a `blake3::Hasher` has been fed since it was created.
pub uninterp spec fn hasher_input(h: blake3::Hasher) -> Seq<u8>;

/// The 32-byte BLAKE3 digest of `data`.
pub uninterp spec fn blake3_digest(data: Seq<u8>) -> Seq<u8>;

/// `blake3::Hasher::new`: a hasher that has been fed nothing.
#[verifier::external_body]
fn blake3_new() -> (h: blake3::Hasher)
    ensures
        hasher_input(h) == Seq::<u8>::empty(),
{
    blake3::Hasher::new()
}

/// `blake3::Hasher::update`: feeds `data` after what the hasher had been fed.
#[verifier::external_body]
fn blake3_update(h: &mut blake3::Hasher, data: &[u8])
    ensures
        hasher_input(*final(h)) == hasher_input(*old(h)) + data@,
{
    h.update(data);
}

/// `blake3::Hasher::finalize`: the 32-byte digest of everything fed so far.
#[verifier::external_body]
fn blake3_finalize(h: &blake3::Hasher) -> (r: Vec<u8>)
    ensures
        r@ == blake3_digest(hasher_input(*h)),
        r@.len() == 32,
{
    h.finalize().as_bytes().to_vec()
}

/// The value of little-endian bytes.
pub open spec fn le_value(b: Seq<u8>) -> nat
    decreases b.len(),
{
    if b.len() == 0 { 0 } else { b[0] as nat + 256 * le_value(b.drop_first()) }
}

/// The `k` little-endian bytes of `n` (modulo 256^k).
pub open spec fn le_bytes(n: nat, k: nat) -> Seq<u8>
    decreases k,
{
    if k == 0 { seq![] } else { seq![(n % 256) as u8] + le_bytes(n / 256, (k - 1) as nat) }
}

/// The `u64` hash of data: the first eight digest bytes, little-endian.
pub open spec fn hash_of(data: Seq<u8>) -> nat {
    le_value(blake3_digest(data).subrange(0, 8))
}

/// A deterministic hasher using BLAKE3.
pub struct StableHasher {
    inner: blake3::Hasher,
}

impl StableHasher {
    /// The bytes fed so far.
    pub closed spec fn input(&self) -> Seq<u8> {
        hasher_input(self.inner)
    }

    /// Creates a hasher that has been fed nothing.
    pub fn new() -> (r: Self)
        ensures
            r.input() == Seq::<u8>::empty(),
    {
        StableHasher { inner: blake3_new() }
    }

    /// Feeds raw bytes.
    pub fn update(self, data: &[u8]) -> (r: Self)
        ensures
            r.input() == self.input() + data@,
    {
        let mut s = self;
        blake3_update(&mut s.inner, data);
        s
    }

    /// Feeds the UTF-8 bytes of a string.
    pub fn update_str(self, s: &str) -> (r: Self)
        ensures
            r.input() == self.input() + s.spec_bytes(),
    {
        self.update(s.as_bytes())
    }

    /// Feeds a `u64` as eight little-endian bytes.
    pub fn update_u64(self, v: u64) -> (r: Self)
        ensures
            r.input() == self.input() + le_bytes(v as nat, 8),
    {
        let b = to_le_bytes(v as u128, 8);
        self.update(&b)
    }

    /// Feeds a `usize` as little-endian bytes (as many as a `usize` has).
    pub fn update_usize(self, v: usize) -> (r: Self)
        ensures
            r.input() == self.input() + le_bytes(v as nat, (usize::BITS / 8) as nat),
    {
        let n = (usize::BITS / 8) as usize;
        let b = to_le_bytes(v as u128, n);
        self.update(&b)
    }

    /// Finishes: the first eight bytes of the digest, little-endian.
    pub fn finish(self) -> (r: u64)
        ensures
            r == hash_of(self.input()),
    {
        let d = blake3_finalize(&self.inner);
        let first = slice_vec_u8(&d, 8);
        le_u64(&first)
    }
}

impl Default for StableHasher {
    fn default() -> (r: Self)
        ensures
            r.input() == Seq::<u8>::empty(),
    {
        Self::new()
    }
}

/// The first `n` bytes of `v`.
fn slice_vec_u8(v: &[u8], n: usize) -> (r: Vec<u8>)
    requires
        n <= v@.len(),
    ensures
        r@ == v@.subrange(0, n as int),
{
    let mut r: Vec<u8> = Vec::new();
    let mut i: usize = 0;
    while i < n
        invariant
            n <= v@.len(),
            i <= n,
            r@ == v@.subrange(0, i as int),
        decreases n - i,
    {
        r.push(v[i]);
        i = i + 1;
        assert(r@ =~= v@.subrange(0, i as int));
    }
    r
}

/// The `k` little-endian bytes of `n`.
fn to_le_bytes(n: u128, k: usize) -> (r: Vec<u8>)
    ensures
        r@ == le_bytes(n as nat, k as nat),
{
    let mut r: Vec<u8> = Vec::new();
    let mut m = n;
    let mut i: usize = 0;
    while i < k
        invariant
            i <= k,
            r@ + le_bytes(m as nat, (k - i) as nat) == le_bytes(n as nat, k as nat),
        decreases k - i,
    {
        let ghost before = r@;
        r.push((m % 256) as u8);
        assert(before + le_bytes(m as nat, (k - i) as nat) =~= r@ + le_bytes((m / 256) as nat, (k - i - 1) as nat));
        m = m / 256;
        i = i + 1;
    }
    assert(r@ + le_bytes(m as nat, 0) =~= r@);
    r
}

proof fn lemma_le_value_bound(b: Seq<u8>)
    ensures
        le_value(b) < pow256(b.len()),
    decreases b.len(),
{
    if b.len() > 0 {
        lemma_le_value_bound(b.drop_first());
        assert(pow256(b.len()) == 256 * pow256((b.len() - 1) as nat));
    }
}

/// 256 to the power `k`.
pub open spec fn pow256(k: nat) -> nat
    decreases k,
{
    if k == 0 { 1 } else { 256 * pow256((k - 1) as nat) }
}

/// The value of eight little-endian bytes.
pub(crate) fn le_u64(b: &[u8]) -> (r: u64)
    requires
        b@.len() == 8,
    ensures
        r == le_value(b@),
{
    let mut acc: u64 = 0;
    let mut i: usize = 8;
    proof {
        reveal_with_fuel(pow256, 9);
    }
    while i > 0
        invariant
            i <= 8,
            b@.len() == 8,
            acc as nat == le_value(b@.subrange(i as int, 8)),
            le_value(b@.subrange(i as int, 8)) < pow256((8 - i) as nat),
            pow256(8) == 0x1_0000_0000_0000_0000nat,
        decreases i,
    {
        let ghost rest = b@.subrange(i - 1, 8);
        assert(rest.drop_first() =~= b@.subrange(i as int, 8));
        proof {
            lemma_le_value_bound(rest);
            assert(pow256((8 - i + 1) as nat) <= pow256(8)) by {
                lemma_pow256_mono((8 - i + 1) as nat, 8);
            }
        }
        acc = b[i - 1] as u64 + 256 * acc;
        i = i - 1;
    }
    assert(b@.subrange(0, 8) =~= b@);
    acc
}

proof fn lemma_pow256_mono(a: nat, b: nat)
    requires
        a <= b,
    ensures
        pow256(a) <= pow256(b),
    decreases b,
{
    if a < b {
        lemma_pow256_mono(a, (b - 1) as nat);
    }
}

/// Computes the 64-bit hash of byte data.
pub fn compute(data: &[u8]) -> (r: u64)
    ensures
        r == hash_of(data@),
{
    hash_bytes(data)
}

/// Hashes a byte slice to a `u64`.
pub fn hash_bytes(data: &[u8]) -> (r: u64)
    ensures
        r == hash_of(data@),
{
    let h = StableHasher::new().update(data);
    assert(h.input() =~= data@);
    h.finish()
}

/// Hashes a string (its UTF-8 bytes) to a `u64`.
pub fn hash_str(s: &str) -> (r: u64)
    ensures
        r == hash_of(s.spec_bytes()),
{
    hash_bytes(s.as_bytes())
}

/// The UTF-8 bytes of several strings, one after the other.
pub open spec fn concat_bytes(strs: Seq<&str>) -> Seq<u8>
    decreases strs.len(),
{
    if strs.len() == 0 { seq![] } else { concat_bytes(strs.drop_last()) + strs.last().spec_bytes() }
}

/// Hashes several strings together: the hash of their bytes one after the other.
pub fn hash_strs(strs: &[&str]) -> (r: u64)
    ensures
        r == hash_of(concat_bytes(strs@)),
{
    let mut hasher = StableHasher::new();
    let mut i: usize = 0;
    while i < strs.len()
        invariant
            i <= strs@.len(),
            hasher.input() == concat_bytes(strs@.subrange(0, i as int)),
        decreases strs.len() - i,
    {
        hasher = hasher.update_str(strs[i]);
        assert(strs@.subrange(0, i + 1).drop_last() =~= strs@.subrange(0, i as int));
        i = i + 1;
    }
    assert(strs@.subrange(0, i as int) =~= strs@);
    hasher.finish()
}

/// Lowercase hexadecimal digit for a value below sixteen.
pub open spec fn hex_char(d: int) -> char {
    if d < 10 { ((48 + d) as u32) as char } else { ((87 + d) as u32) as char }
}

/// The `w` lowest hexadecimal digits of `n`, most significant first.
pub open spec fn hex_digits(n: nat, w: nat) -> Seq<char>
    decreases w,
{
    if w == 0 { seq![] } else { hex_digits(n / 16, (w - 1) as nat).push(hex_char((n % 16) as int)) }
}

fn hex_digits_exec(n: u64, w: usize) -> (r: Vec<char>)
    ensures
        r@ == hex_digits(n as nat, w as nat),
    decreases w,
{
    if w == 0 {
        Vec::new()
    } else {
        let mut v = hex_digits_exec(n / 16, w - 1);
        let d = n % 16;
        let c = if d < 10 { ((48 + d) as u8) as char } else { ((87 + d) as u8) as char };
        v.push(c);
        v
    }
}

/// The cache-busting fingerprint of a value: the first eight characters of
/// its hash written as sixteen lowercase hexadecimal digits.
pub open spec fn fingerprint_of(data: Seq<u8>) -> Seq<char> {
    hex_digits(hash_of(data), 16).subrange(0, 8)
}

/// Computes the hash of a value and returns it as an 8-character hex fingerprint.
pub fn fingerprint(value: &[u8]) -> (r: String)
    ensures
        r@ == fingerprint_of(value@),
        r@.len() == 8,
{
    let h = compute(value);
    let digits = hex_digits_exec(h, 16);
    proof { lemma_hex_digits_len(h as nat, 16); }
    from_chars(&slice_vec(&digits, 0, 8))
}

proof fn lemma_hex_digits_len(n: nat, w: nat)
    ensures
        hex_digits(n, w).len() == w,
    decreases w,
{
    if w > 0 {
        lemma_hex_digits_len(n / 16, (w - 1) as nat);
    }
}

/// The first sixteen bytes of the BLAKE3 digest of `data`, little-endian.
pub fn digest_prefix_u128(data: &[u8]) -> (r: u128)
    ensures
        r == le_value(blake3_digest(data@).subrange(0, 16)),
{
    let mut h = blake3_new();
    blake3_update(&mut h, data);
    assert(hasher_input(h) =~= data@);
    let d = blake3_finalize(&h);
    let first = slice_vec_u8(&d, 16);
    le_u128(&first)
}

/// The value of sixteen little-endian bytes.
fn le_u128(b: &[u8]) -> (r: u128)
    requires
        b@.len() == 16,
    ensures
        r == le_value(b@),
{
    let mut acc: u128 = 0;
    let mut i: usize = 16;
    proof {
        reveal_with_fuel(pow256, 17);
    }
    while i > 0
        invariant
            i <= 16,
            b@.len() == 16,
            acc as nat == le_value(b@.subrange(i as int, 16)),
            le_value(b@.subrange(i as int, 16)) < pow256((16 - i) as nat),
            pow256(16) == 0x1_0000_0000_0000_0000_0000_0000_0000_0000nat,
        decreases i,
    {
        let ghost rest = b@.subrange(i - 1, 16);
        assert(rest.drop_first() =~= b@.subrange(i as int, 16));
        proof {
            lemma_le_value_bound(rest);
            assert(pow256((16 - i + 1) as nat) <= pow256(16)) by {
                lemma_pow256_mono((16 - i + 1) as nat, 16);
            }
        }
        acc = b[i - 1] as u128 + 256 * acc;
        i = i - 1;
    }
    assert(b@.subrange(0, 16) =~= b@);
    acc
}

/// Equal inputs hash alike, whatever the process or machine.
pub proof fn law_hash_deterministic(a: &str, b: &str)
    requires
        a@ == b@,
    ensures
        hash_of(a.spec_bytes()) == hash_of(b.spec_bytes()),
{
}

} // verus!
