//! XML/HTML link and asset helpers.
//!
//! The submodules hold the current link and asset logic; the functions here
//! keep the older link rewriting, in which every relative link is moved one
//! directory up.

pub mod assets;
pub mod common;
pub mod head;
pub mod processor;
pub mod link;

pub use self::assets::{compute_asset_href, compute_stylesheet_href, get_icon_mime_type, is_asset_link};
pub use self::link::process_fragment_link;

use vstd::prelude::*;
use vstd::utf8::{decode_utf8, encode_utf8, valid_utf8};
use crate::config::SiteConfig;
use crate::error::Error;
use crate::utils::path::{self as paths, path_joined};
use crate::utils::slug::{fragment_slug, path_slug, slugify_fragment, slugify_path};
use crate::utils::text::{
    concat, find_char, first_index_of, from_chars, prepend_char, push_all, slice_vec, string_bytes,
    to_chars, trim_start_char, trim_start_matches, utf8_to_string,
};
use self::assets::is_asset_path;
use self::link::{all_scheme_chars, fragment_link, is_scheme_char, split_fragment};

verus! {

/// Whether a link has a scheme: the characters before its first `:` (possibly
/// none) are all scheme characters.
pub open spec fn has_scheme(link: Seq<char>) -> bool {
    match first_index_of(link, ':') {
        Some(pos) => forall|i: int| 0 <= i < pos ==> is_scheme_char(#[trigger] link[i]),
        None => false,
    }
}

/// Checks whether a link is external: it has a `:` and every character
/// before the first one is a scheme character.
pub fn is_external_link(link: &str) -> (b: bool)
    ensures
        b == has_scheme(link@),
{
    let v = to_chars(link);
    match find_char(&v, ':') {
        Some(pos) => all_scheme_chars(&v, pos),
        None => false,
    }
}

/// The rewritten form of a relative or external link.
pub open spec fn relative_or_external(value: Seq<char>) -> Seq<char> {
    if has_scheme(value) { value } else { "../"@ + value }
}

/// Processes relative or external links: external links stay, relative links
/// get `../` prepended (content pages live one directory deeper).
pub fn process_relative_or_external_link(value: &str) -> (r: Result<String, Error>)
    ensures
        r matches Ok(s) && s@ == relative_or_external(value@),
{
    if is_external_link(value) {
        Ok(value.to_owned())
    } else {
        let up = to_chars("../");
        let v = to_chars(value);
        Ok(from_chars(&concat(&up, &v)))
    }
}

/// The rewritten form of an absolute link.
pub open spec fn absolute_link(value: Seq<char>, config: SiteConfig) -> Seq<char> {
    if is_asset_path(value, config) {
        seq!['/'] + path_joined(config.build.path_prefix@, trim_start_matches(value, '/'))
    } else {
        let (p, fragment) = split_fragment(value);
        let slugified = path_slug(trim_start_matches(p, '/'), config.build.slug);
        let base = seq!['/'] + path_joined(config.build.path_prefix@, slugified);
        if fragment.len() == 0 {
            base
        } else {
            base + seq!['#'] + fragment_slug(fragment, config.build.slug)
        }
    }
}

/// Processes an absolute link (starting with `/` or `//`): the path prefix is
/// added; outside assets the path and the fragment are slugified.
pub fn process_absolute_link(value: &str, config: &SiteConfig) -> (r: Result<String, Error>)
    ensures
        r matches Ok(s) && s@ == absolute_link(value@, *config),
{
    let v = to_chars(value);
    if is_asset_link(value, config) {
        let trimmed = from_chars(&trim_start_char(&v, '/'));
        let joined = paths::join(config.build.path_prefix.as_str(), trimmed.as_str());
        return Ok(from_chars(&prepend_char('/', joined.as_str())));
    }
    let n = v.len();
    let (p, fragment) = match find_char(&v, '#') {
        Some(i) => (slice_vec(&v, 0, i), slice_vec(&v, i + 1, n)),
        None => (slice_vec(&v, 0, n), Vec::new()),
    };
    assert(v@.subrange(0, n as int) =~= v@);
    let ps = from_chars(&trim_start_char(&p, '/'));
    let slugified = slugify_path(ps.as_str(), &config.build.slug);
    let joined = paths::join(config.build.path_prefix.as_str(), slugified.as_str());
    let mut out = prepend_char('/', joined.as_str());
    if fragment.len() > 0 {
        let fs = from_chars(&fragment);
        let slug = slugify_fragment(fs.as_str(), &config.build.slug);
        let ghost base = out@;
        out.push('#');
        push_all(&mut out, &to_chars(slug.as_str()));
        assert(out@ =~= base + seq!['#'] + fragment_slug(fragment@, config.build.slug));
    }
    Ok(from_chars(&out))
}

/// The rewritten form of a link value, or `None` for an empty one.
pub open spec fn link_value(value: Seq<char>, config: SiteConfig) -> Option<Seq<char>> {
    if value.len() == 0 {
        None
    } else if value[0] == '/' {
        Some(absolute_link(value, config))
    } else if value[0] == '#' {
        Some(fragment_link(value, config.build.slug))
    } else {
        Some(relative_or_external(value))
    }
}

/// Processes a link value (an `href` or `src` attribute).
pub fn process_link_value(value: &[u8], config: &SiteConfig) -> (r: Result<Vec<u8>, Error>)
    ensures
        !valid_utf8(value@) ==> r == Err::<Vec<u8>, Error>(Error::InvalidUtf8),
        valid_utf8(value@) && decode_utf8(value@).len() == 0 ==> r == Err::<Vec<u8>, Error>(Error::EmptyLink),
        valid_utf8(value@) && decode_utf8(value@).len() > 0 ==> (r matches Ok(b)
            && b@ == encode_utf8(link_value(decode_utf8(value@), *config).unwrap())),
{
    let s = match utf8_to_string(value) {
        Some(s) => s,
        None => return Err(Error::InvalidUtf8),
    };
    let v = to_chars(s.as_str());
    if v.len() == 0 {
        return Err(Error::EmptyLink);
    }
    let processed = if v[0] == '/' {
        process_absolute_link(s.as_str(), config)
    } else if v[0] == '#' {
        process_fragment_link(s.as_str(), config)
    } else {
        process_relative_or_external_link(s.as_str())
    };
    match processed {
        Ok(p) => Ok(string_bytes(p.as_str())),
        Err(e) => Err(e),
    }
}

} // verus!
