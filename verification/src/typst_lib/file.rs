//! File reading for compilations: UTF-8 decoding and fingerprint-based caching.
//!
//! ```text
//! SlotCell access:
//! 1. accessed already in this compilation and data cached -> cached data
//! 2. load the file, compute its fingerprint
//! 3. fingerprint unchanged and data cached                -> cached data
//! 4. otherwise process the loaded bytes and cache the result
//! ```

use vstd::prelude::*;
use vstd::string::StringSliceAdditionalSpecFns;
use vstd::utf8::{encode_utf8, valid_utf8};
use crate::utils::hash::{blake3_digest, le_value};

verus! {

/// Why a file could not be read.
#[derive(Clone, Debug, PartialEq, Eq)]
pub enum FileError {
    /// The file does not exist.
    NotFound(String),
    /// The path is a directory.
    IsDirectory,
    /// Access to the file was denied.
    AccessDenied,
    /// The file is not valid UTF-8.
    InvalidUtf8,
    /// Another error, with its description.
    Other(String),
}

/// The result of reading or processing a file.
pub type FileResult<T> = Result<T, FileError>;

/// A copy of a file error.
pub fn copy_error(e: &FileError) -> (r: FileError)
    ensures
        r == *e,
{
    match e {
        FileError::NotFound(p) => FileError::NotFound(p.clone()),
        FileError::IsDirectory => FileError::IsDirectory,
        FileError::AccessDenied => FileError::AccessDenied,
        FileError::InvalidUtf8 => FileError::InvalidUtf8,
        FileError::Other(m) => FileError::Other(m.clone()),
    }
}

/// `v` without a leading UTF-8 byte order mark.
pub open spec fn without_bom(v: Seq<u8>) -> Seq<u8> {
    if v.len() >= 3 && v[0] == 0xefu8 && v[1] == 0xbbu8 && v[2] == 0xbfu8 { v.subrange(3, v.len() as int) } else { v }
}

/// Decodes bytes with `std::str::from_utf8`; `None` when they are not UTF-8.
#[verifier::external_body]
fn utf8_str(v: &[u8]) -> (r: Option<&str>)
    ensures
        r is Some <==> valid_utf8(v@),
        r matches Some(s) ==> s.spec_bytes() == v@,
{
    std::str::from_utf8(v).ok()
}

/// Decodes bytes as UTF-8, stripping a byte order mark if present.
pub fn decode_utf8(buf: &[u8]) -> (r: FileResult<&str>)
    ensures
        valid_utf8(without_bom(buf@)) <==> r is Ok,
        r matches Ok(s) ==> s.spec_bytes() == without_bom(buf@),
        r matches Err(e) ==> e == FileError::InvalidUtf8,
{
    let b = if buf.len() >= 3 && buf[0] == 0xef && buf[1] == 0xbb && buf[2] == 0xbf {
        vstd::slice::slice_subrange(buf, 3, buf.len())
    } else {
        buf
    };
    match utf8_str(b) {
        Some(s) => Ok(s),
        None => Err(FileError::InvalidUtf8),
    }
}

/// The bytes that stand for an error in a fingerprint.
pub open spec fn error_bytes(e: FileError) -> Seq<u8> {
    match e {
        FileError::NotFound(p) => seq![0u8] + encode_utf8(p@),
        FileError::IsDirectory => seq![1u8],
        FileError::AccessDenied => seq![2u8],
        FileError::InvalidUtf8 => seq![3u8],
        FileError::Other(m) => seq![4u8] + encode_utf8(m@),
    }
}

/// The fingerprint of a load result: the first sixteen bytes of the BLAKE3
/// digest of a tagged encoding of the result, little-endian.
pub open spec fn fingerprint128(r: FileResult<Vec<u8>>) -> nat {
    let enc = match r {
        Ok(b) => seq![0u8] + b@,
        Err(e) => seq![1u8] + error_bytes(e),
    };
    le_value(blake3_digest(enc).subrange(0, 16))
}

fn error_encoding(e: &FileError) -> (r: Vec<u8>)
    ensures
        r@ == error_bytes(*e),
{
    let mut v: Vec<u8> = Vec::new();
    match e {
        FileError::NotFound(p) => {
            v.push(0u8);
            let b = crate::utils::text::string_bytes(p.as_str());
            let mut i: usize = 0;
            while i < b.len()
                invariant
                    i <= b@.len(),
                    v@ == seq![0u8] + b@.subrange(0, i as int),
                decreases b.len() - i,
            {
                v.push(b[i]);
                i = i + 1;
                assert(v@ =~= seq![0u8] + b@.subrange(0, i as int));
            }
            assert(b@.subrange(0, i as int) =~= b@);
        },
        FileError::IsDirectory => { v.push(1u8); },
        FileError::AccessDenied => { v.push(2u8); },
        FileError::InvalidUtf8 => { v.push(3u8); },
        FileError::Other(m) => {
            v.push(4u8);
            let b = crate::utils::text::string_bytes(m.as_str());
            let mut i: usize = 0;
            while i < b.len()
                invariant
                    i <= b@.len(),
                    v@ == seq![4u8] + b@.subrange(0, i as int),
                decreases b.len() - i,
            {
                v.push(b[i]);
                i = i + 1;
                assert(v@ =~= seq![4u8] + b@.subrange(0, i as int));
            }
            assert(b@.subrange(0, i as int) =~= b@);
        },
    }
    v
}

/// Computes the fingerprint of a load result.
pub fn fingerprint_result(r: &FileResult<Vec<u8>>) -> (f: u128)
    ensures
        f == fingerprint128(*r),
{
    let mut enc: Vec<u8> = Vec::new();
    match r {
        Ok(b) => {
            enc.push(0u8);
            let mut i: usize = 0;
            while i < b.len()
                invariant
                    i <= b@.len(),
                    enc@ == seq![0u8] + b@.subrange(0, i as int),
                decreases b.len() - i,
            {
                enc.push(b[i]);
                i = i + 1;
                assert(enc@ =~= seq![0u8] + b@.subrange(0, i as int));
            }
            assert(b@.subrange(0, i as int) =~= b@);
        },
        Err(e) => {
            enc.push(1u8);
            let eb = error_encoding(e);
            let mut i: usize = 0;
            while i < eb.len()
                invariant
                    i <= eb@.len(),
                    enc@ == seq![1u8] + eb@.subrange(0, i as int),
                decreases eb.len() - i,
            {
                enc.push(eb[i]);
                i = i + 1;
                assert(enc@ =~= seq![1u8] + eb@.subrange(0, i as int));
            }
            assert(eb@.subrange(0, i as int) =~= eb@);
        },
    }
    crate::utils::hash::digest_prefix_u128(&enc)
}


/// Whether `b` is a copy of `a`: a clone of the value, or the same error.
pub open spec fn result_copy<T: Clone>(a: FileResult<T>, b: FileResult<T>) -> bool {
    match (a, b) {
        (Ok(x), Ok(y)) => cloned::<T>(x, y),
        (Err(e1), Err(e2)) => e1 == e2,
        _ => false,
    }
}

fn copy_result<T: Clone>(r: &FileResult<T>) -> (c: FileResult<T>)
    ensures
        result_copy(*r, c),
{
    match r {
        Ok(t) => Ok(t.clone()),
        Err(e) => Err(copy_error(e)),
    }
}

/// The previous value handed to processing: the cached value when the
/// cache held a success.
pub open spec fn previous<T>(data: Option<FileResult<T>>) -> Option<T> {
    match data {
        Some(Ok(t)) => Some(t),
        _ => None,
    }
}

/// Lazily processed data of a file, cached by the fingerprint of its content.
pub struct SlotCell<T> {
    data: Option<FileResult<T>>,
    fingerprint: u128,
    /// Whether the file was accessed in the current compilation.
    pub accessed: bool,
}

impl<T: Clone> SlotCell<T> {
    /// The cached result, if any.
    pub closed spec fn cached(&self) -> Option<FileResult<T>> {
        self.data
    }

    /// Whether the cell was accessed in the current compilation.
    pub closed spec fn is_accessed(&self) -> bool {
        self.accessed
    }

    /// The fingerprint of the content that produced the cached result.
    pub closed spec fn spec_fingerprint(&self) -> nat {
        self.fingerprint as nat
    }

    /// An empty cell: nothing cached, not accessed.
    pub fn new() -> (r: Self)
        ensures
            r.cached() is None,
            r.spec_fingerprint() == 0,
            !r.is_accessed(),
    {
        SlotCell { data: None, fingerprint: 0, accessed: false }
    }

    /// Whether what the cell holds came from loading content whose
    /// fingerprint the cell keeps: the load's error, or what `processed`
    /// makes of the loaded bytes.
    pub open spec fn holds_load_of(self, processed: spec_fn(Seq<u8>, FileResult<T>) -> bool) -> bool {
        match self.cached() {
            None => true,
            Some(c) => exists|loaded: FileResult<Vec<u8>>| {
                &&& self.spec_fingerprint() == fingerprint128(loaded)
                &&& match loaded {
                    Err(e) => c == Err::<T, FileError>(e),
                    Ok(v) => processed(v@, c),
                }
            },
        }
    }

    /// Whether the cell `after` and the result `r` are what an access of the
    /// cell `before` gives, where `loaded_by` says what loading may give and
    /// `processed(bytes, r)` what processing makes of loaded bytes:
    /// - a cell already accessed in this compilation and holding data answers
    ///   with a copy of it and stays as it is;
    /// - otherwise the file is loaded and the cell keeps the fingerprint of
    ///   what was loaded; an unchanged fingerprint with data cached answers
    ///   with a copy of that data; else a load error is cached and returned,
    ///   or the loaded bytes are processed and the outcome cached and
    ///   returned.
    /// Either way the cell is then accessed and holds data.
    pub open spec fn accessed_as(
        before: Self,
        after: Self,
        r: FileResult<T>,
        loaded_by: spec_fn(FileResult<Vec<u8>>) -> bool,
        processed: spec_fn(Seq<u8>, FileResult<T>) -> bool,
    ) -> bool {
        &&& after.is_accessed()
        &&& after.cached() is Some
        &&& if before.is_accessed() && before.cached() is Some {
            &&& result_copy(before.cached().unwrap(), r)
            &&& after.cached() == before.cached()
            &&& after.spec_fingerprint() == before.spec_fingerprint()
        } else {
            exists|loaded: FileResult<Vec<u8>>| {
                &&& loaded_by(loaded)
                &&& after.spec_fingerprint() == fingerprint128(loaded)
                &&& if before.spec_fingerprint() == fingerprint128(loaded) && before.cached() is Some {
                    &&& result_copy(before.cached().unwrap(), r)
                    &&& after.cached() == before.cached()
                } else {
                    match loaded {
                        Err(e) => r == Err::<T, FileError>(e) && after.cached() == Some(Err::<T, FileError>(e)),
                        Ok(bytes) => processed(bytes@, r) && result_copy(r, after.cached().unwrap()),
                    }
                }
            }
        }
    }

    /// Marks the cell as not yet accessed in the current compilation.
    pub fn reset_access(&mut self)
        ensures
            !final(self).is_accessed(),
            final(self).cached() == old(self).cached(),
            final(self).spec_fingerprint() == old(self).spec_fingerprint(),
    {
        self.accessed = false;
    }

    /// Gets the data, or loads and processes it, using fingerprint-based
    /// invalidation:
    /// - when the cell was already accessed in this compilation and holds
    ///   data, that data (a copy) is returned without loading;
    /// - otherwise the file is loaded; if its fingerprint is unchanged and
    ///   data is cached, the cached data is returned without processing;
    /// - otherwise a load error is cached and returned, or the loaded bytes
    ///   are processed (with the previous value, if the cache held one) and
    ///   the outcome is cached and returned.
    pub fn get_or_init<L, P>(&mut self, load: L, process: P) -> (r: FileResult<T>)
        where
            L: FnOnce() -> FileResult<Vec<u8>>,
            P: FnOnce(Vec<u8>, Option<T>) -> FileResult<T>,
        requires
            call_requires(load, ()),
            forall|b: Vec<u8>, prev: Option<T>| call_requires(process, (b, prev)),
        ensures
            final(self).is_accessed(),
            final(self).cached() is Some,
            result_copy(final(self).cached().unwrap(), r) || result_copy(r, final(self).cached().unwrap()),
            old(self).is_accessed() && old(self).cached() is Some ==> {
                &&& result_copy(old(self).cached().unwrap(), r)
                &&& final(self).cached() == old(self).cached()
                &&& final(self).spec_fingerprint() == old(self).spec_fingerprint()
            },
            !(old(self).is_accessed() && old(self).cached() is Some) ==> exists|loaded: FileResult<Vec<u8>>| {
                &&& call_ensures(load, (), loaded)
                &&& final(self).spec_fingerprint() == fingerprint128(loaded)
                &&& if old(self).spec_fingerprint() == fingerprint128(loaded) && old(self).cached() is Some {
                    &&& result_copy(old(self).cached().unwrap(), r)
                    &&& final(self).cached() == old(self).cached()
                } else {
                    match loaded {
                        Err(e) => r == Err::<T, FileError>(e) && final(self).cached() == Some(Err::<T, FileError>(e)),
                        Ok(bytes) => call_ensures(process, (bytes, previous(old(self).cached())), r)
                            && result_copy(r, final(self).cached().unwrap()),
                    }
                }
            },
    {
        let was_accessed = self.accessed;
        self.accessed = true;
        if was_accessed {
            if let Some(data) = &self.data {
                return copy_result(data);
            }
        }
        let result = load();
        let fingerprint = fingerprint_result(&result);
        let old_fingerprint = self.fingerprint;
        self.fingerprint = fingerprint;
        if old_fingerprint == fingerprint {
            if let Some(data) = &self.data {
                return copy_result(data);
            }
        }
        let prev = match self.data.take() {
            Some(Ok(t)) => Some(t),
            _ => None,
        };
        let value = match result {
            Ok(bytes) => process(bytes, prev),
            Err(e) => Err(e),
        };
        self.data = Some(copy_result(&value));
        value
    }
}

/// The first access of an empty cell loads the file: the result is the
/// load's error, or what processing makes of the loaded bytes.
pub proof fn law_first_access_loads<T: Clone>(
    before: SlotCell<T>,
    after: SlotCell<T>,
    r: FileResult<T>,
    loaded_by: spec_fn(FileResult<Vec<u8>>) -> bool,
    processed: spec_fn(Seq<u8>, FileResult<T>) -> bool,
)
    requires
        before.cached() is None,
        !before.is_accessed(),
        SlotCell::accessed_as(before, after, r, loaded_by, processed),
    ensures
        exists|loaded: FileResult<Vec<u8>>| {
            &&& loaded_by(loaded)
            &&& after.spec_fingerprint() == fingerprint128(loaded)
            &&& match loaded {
                Err(e) => r == Err::<T, FileError>(e),
                Ok(bytes) => processed(bytes@, r),
            }
        },
{
}

/// Whether two byte results are the same: equal bytes, or the same error.
pub open spec fn same_bytes(a: FileResult<Vec<u8>>, b: FileResult<Vec<u8>>) -> bool {
    match (a, b) {
        (Ok(x), Ok(y)) => x@ == y@,
        (Err(e1), Err(e2)) => e1 == e2,
        _ => false,
    }
}

proof fn lemma_text_copy(a: FileResult<String>, b: FileResult<String>)
    requires
        result_copy(a, b),
    ensures
        a == b,
{
}

proof fn lemma_bytes_copy(a: FileResult<Vec<u8>>, b: FileResult<Vec<u8>>)
    requires
        result_copy(a, b),
    ensures
        same_bytes(a, b),
        same_bytes(b, a),
{
    match (a, b) {
        (Ok(x), Ok(y)) => {
            if x != y {
                assert(x.len() == y.len());
                assert forall|i: int| 0 <= i < x.len() implies x@[i] == y@[i] by {
                    assert(cloned::<u8>(x[i], y[i]));
                }
                assert(x@ =~= y@);
            }
        },
        _ => {},
    }
}

proof fn lemma_access_keeps_load<T: Clone>(
    before: SlotCell<T>,
    after: SlotCell<T>,
    r: FileResult<T>,
    loaded_by: spec_fn(FileResult<Vec<u8>>) -> bool,
    processed: spec_fn(Seq<u8>, FileResult<T>) -> bool,
)
    requires
        before.holds_load_of(processed),
        SlotCell::accessed_as(before, after, r, loaded_by, processed),
        forall|b: Seq<u8>, x: FileResult<T>, y: FileResult<T>|
            #[trigger] processed(b, x) && result_copy(x, y) ==> #[trigger] processed(b, y),
    ensures
        after.holds_load_of(processed),
{
    if before.is_accessed() && before.cached() is Some {
    } else {
        let loaded = choose|loaded: FileResult<Vec<u8>>| {
            &&& loaded_by(loaded)
            &&& after.spec_fingerprint() == fingerprint128(loaded)
            &&& if before.spec_fingerprint() == fingerprint128(loaded) && before.cached() is Some {
                &&& result_copy(before.cached().unwrap(), r)
                &&& after.cached() == before.cached()
            } else {
                match loaded {
                    Err(e) => r == Err::<T, FileError>(e) && after.cached() == Some(Err::<T, FileError>(e)),
                    Ok(bytes) => processed(bytes@, r) && result_copy(r, after.cached().unwrap()),
                }
            }
        };
        if before.spec_fingerprint() == fingerprint128(loaded) && before.cached() is Some {
        } else {
            match loaded {
                Err(e) => {
                    assert(after.holds_load_of(processed));
                },
                Ok(bytes) => {
                    assert(processed(bytes@, after.cached().unwrap()));
                    assert(after.holds_load_of(processed));
                },
            }
        }
    }
}

/// Reading a file's bytes twice in one compilation gives the same result
/// twice: the second read answers from the cache the first one filled, and
/// leaves it as it is.
pub proof fn law_second_read_same_bytes(
    s0: FileSlot,
    s1: FileSlot,
    s2: FileSlot,
    r1: FileResult<Vec<u8>>,
    r2: FileResult<Vec<u8>>,
    loaded_first: spec_fn(FileResult<Vec<u8>>) -> bool,
    loaded_second: spec_fn(FileResult<Vec<u8>>) -> bool,
)
    requires
        SlotCell::accessed_as(
            s0.byte_cell(),
            s1.byte_cell(),
            r1,
            loaded_first,
            |b: Seq<u8>, t: FileResult<Vec<u8>>| bytes_result(b, t),
        ),
        s1.byte_cell().cached() matches Some(c) && same_bytes(c, r1),
        SlotCell::accessed_as(
            s1.byte_cell(),
            s2.byte_cell(),
            r2,
            loaded_second,
            |b: Seq<u8>, t: FileResult<Vec<u8>>| bytes_result(b, t),
        ),
    ensures
        same_bytes(r1, r2),
        s2.byte_cell().cached() == s1.byte_cell().cached(),
{
    let c = s1.byte_cell().cached().unwrap();
    lemma_bytes_copy(c, r2);
}

/// Cached data of one file: its text and its raw bytes.
pub struct FileSlot {
    id: String,
    source: SlotCell<String>,
    file: SlotCell<Vec<u8>>,
}

/// Whether `r` is the text of the loaded bytes: their decoding, or
/// `InvalidUtf8` when they are not UTF-8.
pub open spec fn text_result(bytes: Seq<u8>, r: FileResult<String>) -> bool {
    match r {
        Ok(t) => decoded_text(bytes) == Some(t@),
        Err(e) => decoded_text(bytes) is None && e == FileError::InvalidUtf8,
    }
}

/// Whether `r` is the loaded bytes themselves.
pub open spec fn bytes_result(bytes: Seq<u8>, r: FileResult<Vec<u8>>) -> bool {
    r matches Ok(b) && b@ == bytes
}

/// The text of loaded bytes: the UTF-8 decoding after removing a byte order mark.
pub open spec fn decoded_text(bytes: Seq<u8>) -> Option<Seq<char>> {
    if valid_utf8(without_bom(bytes)) { Some(vstd::utf8::decode_utf8(without_bom(bytes))) } else { None }
}

impl FileSlot {
    /// Each cache holds what loading content with the fingerprint it keeps
    /// gave: the text holds that content decoded, the bytes that content.
    #[verifier::type_invariant]
    spec fn wf(self) -> bool {
        &&& self.source.holds_load_of(|b: Seq<u8>, t: FileResult<String>| text_result(b, t))
        &&& self.file.holds_load_of(|b: Seq<u8>, t: FileResult<Vec<u8>>| bytes_result(b, t))
    }

    /// The file's identifier.
    pub closed spec fn spec_id(&self) -> Seq<char> {
        self.id@
    }

    /// An empty slot for a file.
    pub fn new(id: &str) -> (r: Self)
        ensures
            r.spec_id() == id@,
    {
        FileSlot { id: id.to_owned(), source: SlotCell::new(), file: SlotCell::new() }
    }

    /// The cache of the file's text.
    pub closed spec fn text_cell(&self) -> SlotCell<String> {
        self.source
    }

    /// The cache of the file's raw bytes.
    pub closed spec fn byte_cell(&self) -> SlotCell<Vec<u8>> {
        self.file
    }

    /// Whether the file was accessed (as text or as bytes) in the current
    /// compilation.
    pub closed spec fn is_accessed(&self) -> bool {
        self.source.is_accessed() || self.file.is_accessed()
    }

    /// The cached text and bytes.
    pub closed spec fn cached(&self) -> (Option<FileResult<String>>, Option<FileResult<Vec<u8>>>) {
        (self.source.cached(), self.file.cached())
    }

    /// Marks both cached forms as not yet accessed, keeping what is cached
    /// and the fingerprints it was cached under.
    pub fn reset_access(&mut self)
        ensures
            final(self).spec_id() == old(self).spec_id(),
            final(self).cached() == old(self).cached(),
            final(self).text_cell().spec_fingerprint() == old(self).text_cell().spec_fingerprint(),
            final(self).byte_cell().spec_fingerprint() == old(self).byte_cell().spec_fingerprint(),
            !final(self).is_accessed(),
    {
        proof {
            use_type_invariant(&*self);
        }
        self.source.accessed = false;
        self.file.accessed = false;
    }

    /// The file's text, loaded with `load` when the cache cannot answer.
    /// The file is first recorded as accessed, whatever the outcome. A
    /// successful result is the UTF-8 text of the loaded bytes (without a
    /// byte order mark); bytes that are not UTF-8 give `InvalidUtf8`.
    pub fn source<L>(&mut self, accessed: &mut AccessedFiles, load: L) -> (r: FileResult<String>)
        where
            L: FnOnce() -> FileResult<Vec<u8>>,
        requires
            call_requires(load, ()),
        ensures
            final(accessed)@ == old(accessed)@.insert(old(self).spec_id()),
            final(self).spec_id() == old(self).spec_id(),
            final(self).byte_cell() == old(self).byte_cell(),
            SlotCell::accessed_as(
                old(self).text_cell(),
                final(self).text_cell(),
                r,
                |x: FileResult<Vec<u8>>| call_ensures(load, (), x),
                |b: Seq<u8>, t: FileResult<String>| text_result(b, t),
            ),
            final(self).text_cell().cached() == Some(r),
            final(self).text_cell().holds_load_of(|b: Seq<u8>, t: FileResult<String>| text_result(b, t)),
    {
        proof {
            use_type_invariant(&*self);
        }
        record_file_access(accessed, self.id.as_str());
        let ghost before = self.source;
        let ghost lb = |x: FileResult<Vec<u8>>| call_ensures(load, (), x);
        let ghost tp = |b: Seq<u8>, t: FileResult<String>| text_result(b, t);
        let mut cell: SlotCell<String> = SlotCell::new();
        std::mem::swap(&mut cell, &mut self.source);
        let r = cell.get_or_init(load, |data: Vec<u8>, prev: Option<String>| -> (r: FileResult<String>)
            ensures
                r matches Ok(t) ==> decoded_text(data@) == Some(t@),
                r matches Err(e) ==> decoded_text(data@) is None && e == FileError::InvalidUtf8,
            {
                match decode_utf8(&data) {
                    Ok(text) => {
                        proof { vstd::utf8::decode_utf8_encode_utf8(without_bom(data@)); vstd::utf8::encode_utf8_decode_utf8(text@); }
                        Ok(text.to_owned())
                    },
                    Err(e) => Err(e),
                }
            });
        proof {
            assert(SlotCell::accessed_as(before, cell, r, lb, tp));
            lemma_access_keeps_load(before, cell, r, lb, tp);
            if before.is_accessed() && before.cached() is Some {
                lemma_text_copy(before.cached().unwrap(), r);
            } else {
                let loaded = choose|loaded: FileResult<Vec<u8>>| {
                    &&& lb(loaded)
                    &&& cell.spec_fingerprint() == fingerprint128(loaded)
                    &&& if before.spec_fingerprint() == fingerprint128(loaded) && before.cached() is Some {
                        &&& result_copy(before.cached().unwrap(), r)
                        &&& cell.cached() == before.cached()
                    } else {
                        match loaded {
                            Err(e) => r == Err::<String, FileError>(e) && cell.cached() == Some(Err::<String, FileError>(e)),
                            Ok(bytes) => tp(bytes@, r) && result_copy(r, cell.cached().unwrap()),
                        }
                    }
                };
                if before.spec_fingerprint() == fingerprint128(loaded) && before.cached() is Some {
                    lemma_text_copy(before.cached().unwrap(), r);
                } else if loaded is Ok {
                    lemma_text_copy(r, cell.cached().unwrap());
                }
            }
        }
        self.source = cell;
        r
    }

    /// The file's raw bytes, loaded with `load` when the cache cannot answer.
    /// The file is first recorded as accessed, whatever the outcome.
    pub fn file<L>(&mut self, accessed: &mut AccessedFiles, load: L) -> (r: FileResult<Vec<u8>>)
        where
            L: FnOnce() -> FileResult<Vec<u8>>,
        requires
            call_requires(load, ()),
        ensures
            final(accessed)@ == old(accessed)@.insert(old(self).spec_id()),
            final(self).spec_id() == old(self).spec_id(),
            final(self).text_cell() == old(self).text_cell(),
            SlotCell::accessed_as(
                old(self).byte_cell(),
                final(self).byte_cell(),
                r,
                |x: FileResult<Vec<u8>>| call_ensures(load, (), x),
                |b: Seq<u8>, t: FileResult<Vec<u8>>| bytes_result(b, t),
            ),
            final(self).byte_cell().cached() matches Some(c) && same_bytes(c, r),
            final(self).byte_cell().holds_load_of(|b: Seq<u8>, t: FileResult<Vec<u8>>| bytes_result(b, t)),
    {
        proof {
            use_type_invariant(&*self);
        }
        record_file_access(accessed, self.id.as_str());
        let ghost before = self.file;
        let ghost lb = |x: FileResult<Vec<u8>>| call_ensures(load, (), x);
        let ghost bp = |b: Seq<u8>, t: FileResult<Vec<u8>>| bytes_result(b, t);
        let mut cell: SlotCell<Vec<u8>> = SlotCell::new();
        std::mem::swap(&mut cell, &mut self.file);
        let r = cell.get_or_init(load, |data: Vec<u8>, prev: Option<Vec<u8>>| -> (r: FileResult<Vec<u8>>)
            ensures
                r matches Ok(b) && b@ == data@,
            {
                Ok(data)
            });
        proof {
            assert(SlotCell::accessed_as(before, cell, r, lb, bp));
            assert forall|b: Seq<u8>, x: FileResult<Vec<u8>>, y: FileResult<Vec<u8>>|
                #[trigger] bp(b, x) && result_copy(x, y) implies #[trigger] bp(b, y) by {
                lemma_bytes_copy(x, y);
            }
            lemma_access_keeps_load(before, cell, r, lb, bp);
            if before.is_accessed() && before.cached() is Some {
                lemma_bytes_copy(before.cached().unwrap(), r);
            } else {
                let loaded = choose|loaded: FileResult<Vec<u8>>| {
                    &&& lb(loaded)
                    &&& cell.spec_fingerprint() == fingerprint128(loaded)
                    &&& if before.spec_fingerprint() == fingerprint128(loaded) && before.cached() is Some {
                        &&& result_copy(before.cached().unwrap(), r)
                        &&& cell.cached() == before.cached()
                    } else {
                        match loaded {
                            Err(e) => r == Err::<Vec<u8>, FileError>(e) && cell.cached() == Some(Err::<Vec<u8>, FileError>(e)),
                            Ok(bytes) => bp(bytes@, r) && result_copy(r, cell.cached().unwrap()),
                        }
                    }
                };
                if before.spec_fingerprint() == fingerprint128(loaded) && before.cached() is Some {
                    lemma_bytes_copy(before.cached().unwrap(), r);
                } else if loaded is Ok {
                    lemma_bytes_copy(r, cell.cached().unwrap());
                }
            }
        }
        self.file = cell;
        r
    }
}


/// The files accessed during the current compilation, each once.
pub struct AccessedFiles {
    ids: Vec<String>,
}

impl View for AccessedFiles {
    type V = Set<Seq<char>>;

    closed spec fn view(&self) -> Set<Seq<char>> {
        self.ids@.map_values(|s: String| s@).to_set()
    }
}

impl AccessedFiles {
    #[verifier::type_invariant]
    spec fn wf(self) -> bool {
        forall|i: int, j: int| 0 <= i < j < self.ids@.len() ==> self.ids@[i]@ != self.ids@[j]@
    }

    /// No file accessed yet.
    pub fn new() -> (r: AccessedFiles)
        ensures
            r@ == Set::<Seq<char>>::empty(),
    {
        let r = AccessedFiles { ids: Vec::new() };
        assert(r@ =~= Set::<Seq<char>>::empty());
        r
    }
}

/// Starts a compilation: forgets the accessed files and marks every cached
/// file as not accessed, keeping what is cached and its fingerprints.
pub fn reset_access_flags(accessed: &mut AccessedFiles, slots: &mut Vec<FileSlot>)
    ensures
        final(accessed)@ == Set::<Seq<char>>::empty(),
        final(slots)@.len() == old(slots)@.len(),
        forall|i: int|
            0 <= i < final(slots)@.len() ==> {
                &&& (#[trigger] final(slots)@[i]).spec_id() == old(slots)@[i].spec_id()
                &&& final(slots)@[i].cached() == old(slots)@[i].cached()
                &&& final(slots)@[i].text_cell().spec_fingerprint() == old(slots)@[i].text_cell().spec_fingerprint()
                &&& final(slots)@[i].byte_cell().spec_fingerprint() == old(slots)@[i].byte_cell().spec_fingerprint()
                &&& !final(slots)@[i].is_accessed()
            },
{
    *accessed = AccessedFiles::new();
    let mut taken: Vec<FileSlot> = Vec::new();
    std::mem::swap(&mut taken, slots);
    let ghost before = taken@;
    let mut i: usize = 0;
    while i < taken.len()
        invariant
            i <= taken@.len(),
            taken@.len() == before.len(),
            slots@.len() == 0,
            forall|j: int| 0 <= j < i ==> {
                &&& (#[trigger] taken@[j]).spec_id() == before[j].spec_id()
                &&& taken@[j].cached() == before[j].cached()
                &&& taken@[j].text_cell().spec_fingerprint() == before[j].text_cell().spec_fingerprint()
                &&& taken@[j].byte_cell().spec_fingerprint() == before[j].byte_cell().spec_fingerprint()
                &&& !taken@[j].is_accessed()
            },
            forall|j: int| i <= j < taken@.len() ==> #[trigger] taken@[j] == before[j],
        decreases taken.len() - i,
    {
        let mut slot = taken.remove(i);
        slot.reset_access();
        taken.insert(i, slot);
        i = i + 1;
    }
    std::mem::swap(&mut taken, slots);
}

/// Records that a file was accessed.
pub fn record_file_access(accessed: &mut AccessedFiles, id: &str)
    ensures
        final(accessed)@ == old(accessed)@.insert(id@),
{
    proof {
        use_type_invariant(&*accessed);
    }
    let ghost before = accessed.ids@;
    let mut i: usize = 0;
    while i < accessed.ids.len()
        invariant
            i <= accessed.ids@.len(),
            accessed.ids@ == before,
            forall|j: int| 0 <= j < i ==> #[trigger] before[j]@ != id@,
        decreases accessed.ids.len() - i,
    {
        if crate::utils::text::str_eq(accessed.ids[i].as_str(), id) {
            proof {
                assert(before.map_values(|s: String| s@)[i as int] == id@);
                assert(accessed@ =~= accessed@.insert(id@));
            }
            return;
        }
        i = i + 1;
    }
    let mut ids: Vec<String> = Vec::new();
    std::mem::swap(&mut ids, &mut accessed.ids);
    ids.push(id.to_owned());
    proof {
        assert(ids@.map_values(|s: String| s@) =~= before.map_values(|s: String| s@).push(id@));
        lemma_push_to_set(before.map_values(|s: String| s@), id@);
    }
    accessed.ids = ids;
}

proof fn lemma_push_to_set(s: Seq<Seq<char>>, x: Seq<char>)
    ensures
        s.push(x).to_set() == s.to_set().insert(x),
{
    assert forall|y: Seq<char>| #[trigger] s.push(x).to_set().contains(y) <==> s.to_set().insert(x).contains(y) by {
        if s.push(x).contains(y) && y != x {
            let k = choose|k: int| 0 <= k < s.push(x).len() && s.push(x)[k] == y;
            assert(s[k] == y);
        }
        if s.contains(y) {
            let k = choose|k: int| 0 <= k < s.len() && s[k] == y;
            assert(s.push(x)[k] == y);
        }
        if y == x {
            assert(s.push(x)[s.len() as int] == y);
        }
    }
    assert(s.push(x).to_set() =~= s.to_set().insert(x));
}

/// The files accessed since the compilation started, each once.
pub fn get_accessed_files(accessed: &AccessedFiles) -> (r: Vec<String>)
    ensures
        r@.map_values(|s: String| s@).to_set() == accessed@,
        forall|i: int, j: int| 0 <= i < j < r@.len() ==> r@[i]@ != r@[j]@,
{
    proof {
        use_type_invariant(accessed);
    }
    let mut r: Vec<String> = Vec::new();
    let mut i: usize = 0;
    while i < accessed.ids.len()
        invariant
            i <= accessed.ids@.len(),
            r@.len() == i,
            forall|j: int| 0 <= j < i ==> (#[trigger] r@[j])@ == accessed.ids@[j]@,
        decreases accessed.ids.len() - i,
    {
        r.push(accessed.ids[i].as_str().to_owned());
        i = i + 1;
    }
    assert(r@.map_values(|s: String| s@) =~= accessed.ids@.map_values(|s: String| s@));
    r
}

} // verus!
