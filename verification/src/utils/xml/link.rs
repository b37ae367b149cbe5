//! Link rewriting for `href` and `src` attribute values.
//!
//! | Prefix | Type | Handling |
//! |--------|------|----------|
//! | `/` or `//` | absolute | path prefix added, path and fragment slugified |
//! | `#` | fragment | fragment slugified |
//! | scheme such as `https:` | external | unchanged |
//! | anything else | relative | `../` prepended unless the source is an `index.typ` |

use vstd::prelude::*;
use vstd::utf8::{decode_utf8, encode_utf8, valid_utf8};
use crate::config::{SiteConfig, SlugConfig};
use crate::error::Error;
use crate::utils::slug::{fragment_slug, path_slug, slugify_fragment, slugify_path};
use crate::utils::text::{
    concat, find_char, first_index_of, from_chars, has_prefix, has_suffix, prepend_char, push_all, slice_vec,
    starts_with, string_bytes, to_chars, trim_start_char, trim_start_matches, utf8_to_string,
};
use crate::utils::xml::assets::{is_asset_link, is_asset_path};

verus! {

/// Whether `c` may appear in a URL scheme: ASCII alphanumeric, `+`, `-` or `.`.
pub open spec fn is_scheme_char(c: char) -> bool {
    ('a' <= c <= 'z') || ('A' <= c <= 'Z') || ('0' <= c <= '9') || c == '+' || c == '-' || c == '.'
}

/// Whether a link has a scheme: a non-empty run of scheme characters before its first `:`.
pub open spec fn is_external(link: Seq<char>) -> bool {
    match first_index_of(link, ':') {
        Some(pos) => pos > 0 && forall|i: int| 0 <= i < pos ==> is_scheme_char(#[trigger] link[i]),
        None => false,
    }
}

fn is_scheme_char_exec(c: char) -> (b: bool)
    ensures
        b == is_scheme_char(c),
{
    ('a' <= c && c <= 'z') || ('A' <= c && c <= 'Z') || ('0' <= c && c <= '9') || c == '+' || c == '-' || c == '.'
}

/// Whether the characters of `v` before `pos` are all scheme characters.
pub(crate) fn all_scheme_chars(v: &[char], pos: usize) -> (b: bool)
    requires
        pos <= v@.len(),
    ensures
        b == forall|i: int| 0 <= i < pos ==> is_scheme_char(#[trigger] v@[i]),
{
    let mut i: usize = 0;
    while i < pos
        invariant
            pos <= v@.len(),
            i <= pos,
            forall|k: int| 0 <= k < i ==> is_scheme_char(#[trigger] v@[k]),
        decreases pos - i,
    {
        if !is_scheme_char_exec(v[i]) {
            return false;
        }
        i = i + 1;
    }
    true
}

/// Checks whether a link is external (has a scheme such as `http:` or `mailto:`).
pub fn is_external_link(link: &str) -> (b: bool)
    ensures
        b == is_external(link@),
{
    let v = to_chars(link);
    match find_char(&v, ':') {
        Some(pos) => pos > 0 && all_scheme_chars(&v, pos),
        None => false,
    }
}

/// The rewritten form of a relative link.
pub open spec fn relative_link(value: Seq<char>, is_source_index: bool) -> Seq<char> {
    if is_external(value) || is_source_index { value } else { "../"@ + value }
}

/// Processes a relative link: external links and links from an `index.typ`
/// source stay as they are; others get `../` prepended, since the page is
/// written one directory deeper than its source.
pub fn process_relative_link(value: &str, is_source_index: bool) -> (r: Result<String, Error>)
    ensures
        r matches Ok(s) && s@ == relative_link(value@, is_source_index),
{
    if is_external_link(value) || is_source_index {
        Ok(value.to_owned())
    } else {
        let up = to_chars("../");
        let v = to_chars(value);
        let joined = concat(&up, &v);
        Ok(from_chars(&joined))
    }
}

/// `#` followed by the slug of the fragment text after the leading `#`.
pub open spec fn fragment_link(value: Seq<char>, slug: SlugConfig) -> Seq<char> {
    seq!['#'] + fragment_slug(value.drop_first(), slug)
}

/// Processes a fragment link (starting with `#`): the fragment is slugified.
pub fn process_fragment_link(value: &str, config: &SiteConfig) -> (r: Result<String, Error>)
    requires
        value@.len() > 0,
        value@[0] == '#',
    ensures
        r matches Ok(s) && s@ == fragment_link(value@, config.build.slug),
{
    let v = to_chars(value);
    let rest = slice_vec(&v, 1, v.len());
    let rest_s = from_chars(&rest);
    let slug = slugify_fragment(rest_s.as_str(), &config.build.slug);
    assert(rest@ == value@.drop_first());
    Ok(from_chars(&prepend_char('#', slug.as_str())))
}

/// Whether `path` starts with `segment` as a whole path segment.
pub open spec fn starts_with_segment(path: Seq<char>, segment: Seq<char>) -> bool {
    path == segment || has_prefix(path, segment.push('/'))
}

/// Checks whether a path starts with a given segment (not just a string prefix).
pub fn path_starts_with_segment(path: &str, segment: &str) -> (b: bool)
    ensures
        b == starts_with_segment(path@, segment@),
{
    let p = to_chars(path);
    let s = to_chars(segment);
    if crate::utils::text::eq_chars(&p, &s) {
        return true;
    }
    let mut with_slash = s;
    with_slash.push('/');
    starts_with(&p, &with_slash)
}

/// Whether a path already contains the configured path prefix.
pub open spec fn has_path_prefix_spec(path: Seq<char>, config: SiteConfig) -> bool {
    config.build.path_prefix@.len() > 0 && starts_with_segment(path, config.build.path_prefix@)
}

fn has_path_prefix(path: &str, config: &SiteConfig) -> (b: bool)
    ensures
        b == has_path_prefix_spec(path@, *config),
{
    if !config.has_prefix() {
        return false;
    }
    path_starts_with_segment(path, config.build.path_prefix.as_str())
}

/// The URL of a site path: the slugified path, with the path prefix added
/// unless the path already starts with it.
pub open spec fn prefixed_url(path: Seq<char>, config: SiteConfig) -> Seq<char> {
    let slugified = path_slug(path, config.build.slug);
    if has_path_prefix_spec(path, config) {
        seq!['/'] + slugified
    } else {
        config.spec_url_for_rel_path(slugified)
    }
}

fn build_prefixed_url(path: &str, config: &SiteConfig) -> (r: String)
    ensures
        r@ == prefixed_url(path@, *config),
{
    let slugified = slugify_path(path, &config.build.slug);
    if has_path_prefix(path, config) {
        from_chars(&prepend_char('/', slugified.as_str()))
    } else {
        config.url_for_rel_path(slugified.as_str())
    }
}

/// The path and fragment of a URL, split at the first `#` (the fragment is
/// empty when there is none).
pub open spec fn split_fragment(url: Seq<char>) -> (Seq<char>, Seq<char>) {
    match first_index_of(url, '#') {
        Some(i) => (url.subrange(0, i), url.subrange(i + 1, url.len() as int)),
        None => (url, seq![]),
    }
}

fn split_path_fragment(url: &[char]) -> (r: (Vec<char>, Vec<char>))
    ensures
        (r.0@, r.1@) == split_fragment(url@),
{
    let n = url.len();
    match find_char(url, '#') {
        Some(i) => (slice_vec(url, 0, i), slice_vec(url, i + 1, n)),
        None => (slice_vec(url, 0, url.len()), Vec::new()),
    }
}

/// The rewritten form of an absolute link.
pub open spec fn absolute_link(value: Seq<char>, config: SiteConfig) -> Seq<char> {
    if is_asset_path(value, config) {
        config.spec_url_for_rel_path(trim_start_matches(value, '/'))
    } else {
        let (p, fragment) = split_fragment(value);
        let base = prefixed_url(trim_start_matches(p, '/'), config);
        if fragment.len() == 0 {
            base
        } else {
            base + seq!['#'] + fragment_slug(fragment, config.build.slug)
        }
    }
}

/// Processes an absolute link (starting with `/` or `//`): asset links get
/// the path prefix only; other links get the prefix (unless already there),
/// a slugified path and a slugified fragment.
pub fn process_absolute_link(value: &str, config: &SiteConfig) -> (r: Result<String, Error>)
    ensures
        r matches Ok(s) && s@ == absolute_link(value@, *config),
{
    let v = to_chars(value);
    if is_asset_link(value, config) {
        let trimmed = trim_start_char(&v, '/');
        let t = from_chars(&trimmed);
        return Ok(config.url_for_rel_path(t.as_str()));
    }
    let (p, fragment) = split_path_fragment(&v);
    assert(v@.subrange(0, v@.len() as int) =~= v@);
    let p2 = trim_start_char(&p, '/');
    let p2s = from_chars(&p2);
    let result = build_prefixed_url(p2s.as_str(), config);
    if fragment.len() == 0 {
        return Ok(result);
    }
    let mut out = to_chars(result.as_str());
    out.push('#');
    let fs = from_chars(&fragment);
    let slug = slugify_fragment(fs.as_str(), &config.build.slug);
    let sv = to_chars(slug.as_str());
    let ghost before = out@;
    push_all(&mut out, &sv);
    assert(out@ =~= result@ + seq!['#'] + fragment_slug(fragment@, config.build.slug));
    Ok(from_chars(&out))
}

/// The rewritten form of a link value, or `None` for an empty one.
pub open spec fn link_value(value: Seq<char>, config: SiteConfig, is_source_index: bool) -> Option<Seq<char>> {
    if value.len() == 0 {
        None
    } else if value[0] == '/' {
        Some(absolute_link(value, config))
    } else if value[0] == '#' {
        Some(fragment_link(value, config.build.slug))
    } else {
        Some(relative_link(value, is_source_index))
    }
}

/// Processes a link value (an `href` or `src` attribute).
///
/// `is_source_index` tells whether the page's source is an `index.typ`,
/// which decides how relative links are adjusted.
pub fn process_link_value(value: &[u8], config: &SiteConfig, is_source_index: bool) -> (r: Result<Vec<u8>, Error>)
    ensures
        !valid_utf8(value@) ==> r == Err::<Vec<u8>, Error>(Error::InvalidUtf8),
        valid_utf8(value@) && decode_utf8(value@).len() == 0 ==> r == Err::<Vec<u8>, Error>(Error::EmptyLink),
        valid_utf8(value@) && decode_utf8(value@).len() > 0 ==> (r matches Ok(b)
            && b@ == encode_utf8(link_value(decode_utf8(value@), *config, is_source_index).unwrap())),
{
    let s = match utf8_to_string(value) {
        Some(s) => s,
        None => return Err(Error::InvalidUtf8),
    };
    let v = to_chars(s.as_str());
    if v.len() == 0 {
        return Err(Error::EmptyLink);
    }
    let processed = if v[0] == '/' {
        process_absolute_link(s.as_str(), config)
    } else if v[0] == '#' {
        process_fragment_link(s.as_str(), config)
    } else {
        process_relative_link(s.as_str(), is_source_index)
    };
    match processed {
        Ok(p) => Ok(string_bytes(p.as_str())),
        Err(e) => Err(e),
    }
}

/// The fragment of an absolute link is slugified exactly as a link made of
/// `#` and that fragment alone: for a page link (not an asset) with a
/// non-empty fragment after its first `#`, the rewritten link ends with the
/// rewritten fragment link.
pub proof fn law_absolute_fragment_slugified(value: Seq<char>, config: SiteConfig, is_source_index: bool, i: int)
    requires
        value.len() > 0,
        value[0] == '/',
        !is_asset_path(value, config),
        0 <= i,
        i + 1 < value.len(),
        value[i] == '#',
        forall|j: int| 0 <= j < i ==> value[j] != '#',
    ensures
        has_suffix(
            link_value(value, config, is_source_index).unwrap(),
            link_value(seq!['#'] + value.subrange(i + 1, value.len() as int), config, is_source_index).unwrap(),
        ),
        link_value(seq!['#'] + value.subrange(i + 1, value.len() as int), config, is_source_index) == Some(
            seq!['#'] + fragment_slug(value.subrange(i + 1, value.len() as int), config.build.slug),
        ),
{
    let fragment = value.subrange(i + 1, value.len() as int);
    assert(first_index_of(value, '#') == Some(i)) by {
        let k = choose|k: int| 0 <= k < value.len() && value[k] == '#' && forall|j: int| 0 <= j < k ==> value[j] != '#';
        assert(0 <= i < value.len() && value[i] == '#');
        if k < i {
        } else if k > i {
        }
    }
    let frag_link = seq!['#'] + fragment;
    assert(frag_link[0] == '#');
    assert(frag_link.drop_first() =~= fragment);
    let r = link_value(value, config, is_source_index).unwrap();
    let f = link_value(frag_link, config, is_source_index).unwrap();
    let (p, fr) = split_fragment(value);
    assert(fr == fragment);
    assert(fr.len() > 0);
    let base = prefixed_url(trim_start_matches(p, '/'), config);
    assert(link_value(value, config, is_source_index) == Some(absolute_link(value, config)));
    assert(absolute_link(value, config) == base + seq!['#'] + fragment_slug(fr, config.build.slug));
    assert(r == base + seq!['#'] + fragment_slug(fragment, config.build.slug));
    assert(f == seq!['#'] + fragment_slug(fragment, config.build.slug));
    assert(r =~= base + f);
    assert(r.subrange(r.len() - f.len(), r.len() as int) =~= f);
}

} // verus!
