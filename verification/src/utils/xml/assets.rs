//! Asset links: icon MIME types, asset and stylesheet hrefs, asset detection.

use vstd::prelude::*;
use crate::config::SiteConfig;
use crate::error::Error;
use crate::utils::meta::{asset_dest, url_of_relative, AssetMeta};
use crate::utils::path::{self, path_extension, path_joined, path_stripped};
use crate::utils::slug::{lowercased, to_lowercase};
use crate::utils::text::{find_char, first_index_of, slice_vec, str_eq, to_chars, trim_start_char, trim_start_matches};

verus! {

/// The icon MIME type for a lowercase extension; unknown ones are treated as `.ico`.
pub open spec fn icon_mime(ext: Seq<char>) -> Seq<char> {
    if ext == "png"@ {
        "image/png"@
    } else if ext == "svg"@ {
        "image/svg+xml"@
    } else if ext == "avif"@ {
        "image/avif"@
    } else if ext == "webp"@ {
        "image/webp"@
    } else if ext == "gif"@ {
        "image/gif"@
    } else if ext == "jpg"@ || ext == "jpeg"@ {
        "image/jpeg"@
    } else {
        "image/x-icon"@
    }
}

/// The icon MIME type of a path, from its extension (compared case-insensitively).
pub open spec fn icon_mime_of_path(p: Seq<char>) -> Seq<char> {
    match path_extension(p) {
        Some(ext) => icon_mime(lowercased(ext)),
        None => "image/x-icon"@,
    }
}

/// The MIME type of an icon, from the extension of its path; `image/x-icon`
/// for unknown or missing extensions.
pub fn get_icon_mime_type(p: &str) -> (r: &'static str)
    ensures
        r@ == icon_mime_of_path(p@),
{
    match path::extension(p) {
        None => "image/x-icon",
        Some(ext) => {
            let lower = to_lowercase(ext.as_str());
            let e = lower.as_str();
            assert(path_extension(p@) == Some(ext@));
            assert(icon_mime_of_path(p@) == icon_mime(e@));
            if str_eq(e, "png") {
                "image/png"
            } else if str_eq(e, "svg") {
                "image/svg+xml"
            } else if str_eq(e, "avif") {
                "image/avif"
            } else if str_eq(e, "webp") {
                "image/webp"
            } else if str_eq(e, "gif") {
                "image/gif"
            } else if str_eq(e, "jpg") || str_eq(e, "jpeg") {
                "image/jpeg"
            } else {
                "image/x-icon"
            }
        },
    }
}

/// `p` without a leading prefix `base`, or `p` itself when it has none.
pub open spec fn stripped_or_same(p: Seq<char>, base: Seq<char>) -> Seq<char> {
    match path_stripped(p, base) {
        Some(r) => r,
        None => p,
    }
}

/// The source path of an asset named by `asset_path`: a leading `./` and then
/// a leading `assets/` are dropped, and the rest is joined onto the assets directory.
pub open spec fn asset_source(asset_path: Seq<char>, config: SiteConfig) -> Seq<char> {
    let w = stripped_or_same(asset_path, "./"@);
    let rel = stripped_or_same(w, "assets/"@);
    path_joined(config.build.assets@, rel)
}

/// The href of an asset, when it lies in the assets directory and its output path in the output directory.
pub open spec fn asset_href(source: Seq<char>, config: SiteConfig) -> Option<Seq<char>> {
    match path_stripped(source, config.build.assets@) {
        None => None,
        Some(rel) => match path_stripped(asset_dest(rel, config), config.build.output@) {
            None => None,
            Some(out_rel) => Some(url_of_relative(out_rel)),
        },
    }
}

/// Computes the href of an asset path, relative to the path prefix.
pub fn compute_asset_href(asset_path: &str, config: &SiteConfig) -> (r: Result<String, Error>)
    ensures
        asset_href(asset_source(asset_path@, *config), *config) is None <==> r is Err,
        r matches Ok(u) ==> u@ == asset_href(asset_source(asset_path@, *config), *config).unwrap(),
{
    let without_dot_prefix = match path::strip_prefix(asset_path, "./") {
        Some(s) => s,
        None => asset_path.to_owned(),
    };
    let relative_path = match path::strip_prefix(without_dot_prefix.as_str(), "assets/") {
        Some(s) => s,
        None => without_dot_prefix,
    };
    let source = path::join(config.build.assets.as_str(), relative_path.as_str());
    match AssetMeta::from_source(source, config) {
        Ok(meta) => Ok(meta.paths.url),
        Err(e) => Err(e),
    }
}

/// Computes the href of a stylesheet from its canonical input path.
pub fn compute_stylesheet_href(canonical_input: &str, config: &SiteConfig) -> (r: Result<String, Error>)
    ensures
        asset_href(canonical_input@, *config) is None <==> r is Err,
        r matches Ok(u) ==> u@ == asset_href(canonical_input@, *config).unwrap(),
{
    match AssetMeta::from_source(canonical_input.to_owned(), config) {
        Ok(meta) => Ok(meta.paths.url),
        Err(e) => Err(e),
    }
}

/// The first segment of a link path: after leading slashes, up to the next slash.
pub open spec fn first_segment(p: Seq<char>) -> Seq<char> {
    let t = trim_start_matches(p, '/');
    match first_index_of(t, '/') {
        Some(i) => t.subrange(0, i),
        None => t,
    }
}

/// Whether a link path points into one of the top-level entries of the assets directory.
pub open spec fn is_asset_path(p: Seq<char>, config: SiteConfig) -> bool {
    exists|k: int| 0 <= k < config.build.asset_top_levels@.len()
        && (#[trigger] config.build.asset_top_levels@[k])@ == first_segment(p)
}

/// Checks whether a link path is an asset link: its first segment names a
/// top-level entry of the assets directory.
pub fn is_asset_link(p: &str, config: &SiteConfig) -> (r: bool)
    ensures
        r == is_asset_path(p@, *config),
{
    let chars = to_chars(p);
    let t = trim_start_char(&chars, '/');
    let first = match find_char(&t, '/') {
        Some(i) => slice_vec(&t, 0, i),
        None => t,
    };
    let tops = &config.build.asset_top_levels;
    let mut k: usize = 0;
    while k < tops.len()
        invariant
            k <= tops@.len(),
            tops == &config.build.asset_top_levels,
            first@ == first_segment(p@),
            forall|j: int| 0 <= j < k ==> (#[trigger] tops@[j])@ != first@,
        decreases tops.len() - k,
    {
        let name = to_chars(tops[k].as_str());
        if crate::utils::text::eq_chars(&name, &first) {
            return true;
        }
        k = k + 1;
    }
    false
}

} // verus!
