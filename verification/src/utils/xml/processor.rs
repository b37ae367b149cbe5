//! Rewriting a page's elements while its HTML is post-processed.

use vstd::prelude::*;

use crate::config::SiteConfig;
use crate::error::Error;
use crate::utils::slug::{fragment_slug, slugify_fragment};
use crate::utils::text::{ends_with, from_chars, has_suffix, is_whitespace, is_ws, matches_at, occurs_at, push_all, str_eq, string_bytes, to_chars, utf8_to_string};
use crate::utils::xml::common::{attribute_text, attribute_views, escaped, escaped_char, parsed_attributes, tag_attributes, XmlEvent, XmlTag, XmlWriter};
use crate::utils::xml::link::{link_value, process_link_value};
use crate::utils::xml::common::{create_xml_reader, event_text, is_event_stream, pending_events, read_event, xml_events};
use crate::utils::xml::head::{head_text, write_head_content};
use crate::utils::svg::extract::{capture_svg_body, captured, lemma_captured_len};

verus! {

/// The attributes that parse, in order; malformed ones are skipped.
pub open spec fn well_formed_attributes(attrs: Seq<Option<(Seq<char>, Seq<char>)>>) -> Seq<(Seq<char>, Seq<char>)>
    decreases attrs.len(),
{
    if attrs.len() == 0 {
        seq![]
    } else {
        let rest = well_formed_attributes(attrs.drop_last());
        match attrs.last() {
            Some(p) => rest.push(p),
            None => rest,
        }
    }
}

/// The attributes of a tag that parse, as key and value as written.
pub open spec fn tag_attribute_list(t: XmlTag) -> Seq<(Seq<char>, Seq<char>)> {
    well_formed_attributes(parsed_attributes(t.name@, t.attrs@))
}

/// Attributes as a tag's text holds them, the values as given.
pub open spec fn raw_attributes(attrs: Seq<(Seq<char>, Seq<char>)>) -> Seq<char>
    decreases attrs.len(),
{
    if attrs.len() == 0 {
        seq![]
    } else {
        raw_attributes(attrs.drop_last()) + attribute_text(attrs.last().0, attrs.last().1)
    }
}

/// Pairs of strings as pairs of sequences.
pub open spec fn string_pairs(v: Seq<(String, String)>) -> Seq<(Seq<char>, Seq<char>)> {
    v.map_values(|p: (String, String)| (p.0@, p.1@))
}

/// `<name attrs>`.
pub open spec fn start_tag_text(name: Seq<char>, attrs: Seq<char>) -> Seq<char> {
    seq!['<'] + name + attrs + seq!['>']
}

fn copy_string(s: &String) -> (r: String)
    ensures
        r@ == s@,
{
    s.as_str().to_owned()
}

/// The attributes of a tag that parse.
pub fn attribute_list(tag: &XmlTag) -> (r: Vec<(String, String)>)
    ensures
        string_pairs(r@) == tag_attribute_list(*tag),
{
    let parsed = tag_attributes(tag);
    let ghost views = attribute_views(parsed@);
    let mut r: Vec<(String, String)> = Vec::new();
    let mut i: usize = 0;
    while i < parsed.len()
        invariant
            i <= parsed@.len(),
            views == attribute_views(parsed@),
            views.len() == parsed@.len(),
            string_pairs(r@) == well_formed_attributes(views.subrange(0, i as int)),
        decreases parsed.len() - i,
    {
        assert(views.subrange(0, i + 1).drop_last() =~= views.subrange(0, i as int));
        match &parsed[i] {
            Some((k, v)) => {
                r.push((copy_string(k), copy_string(v)));
                assert(string_pairs(r@) =~= well_formed_attributes(views.subrange(0, i + 1)));
            },
            None => {},
        }
        i = i + 1;
    }
    assert(views.subrange(0, views.len() as int) =~= views);
    r
}

/// A tag with `elem`'s name and the given attributes, their values written
/// as given.
pub fn rebuild_elem(elem: &XmlTag, attrs: &[(String, String)]) -> (t: XmlTag)
    ensures
        t.name@ == elem.name@,
        t.attrs@ == raw_attributes(string_pairs(attrs@)),
{
    let mut t = XmlTag::new(elem.name.as_str());
    let mut i: usize = 0;
    while i < attrs.len()
        invariant
            i <= attrs@.len(),
            t.name@ == elem.name@,
            t.attrs@ == raw_attributes(string_pairs(attrs@.subrange(0, i as int))),
        decreases attrs.len() - i,
    {
        assert(string_pairs(attrs@.subrange(0, i + 1)).drop_last() =~= string_pairs(attrs@.subrange(0, i as int)));
        t.push_raw_attribute(attrs[i].0.as_str(), attrs[i].1.as_str());
        i = i + 1;
    }
    assert(attrs@.subrange(0, attrs@.len() as int) =~= attrs@);
    t
}

/// The `<html>` start tag with the site's language added.
pub open spec fn html_with_lang(t: XmlTag, lang: Seq<char>) -> Seq<char> {
    start_tag_text(t.name@, t.attrs@ + attribute_text("lang"@, escaped(lang, true)))
}

/// Writes the `<html>` start tag with a `lang` attribute.
pub fn write_html_with_lang(elem: &XmlTag, writer: &mut XmlWriter, config: &SiteConfig)
    ensures
        final(writer)@ == old(writer)@ + html_with_lang(*elem, config.base.language@),
{
    let mut e = XmlTag { name: copy_string(&elem.name), attrs: copy_string(&elem.attrs) };
    e.push_attribute("lang", config.base.language.as_str());
    let ghost start = writer@;
    writer.write_event(&XmlEvent::Start(e));
    assert(writer@ =~= start + html_with_lang(*elem, config.base.language@));
}

/// Attributes with the value of `id` slugified as a fragment.
pub open spec fn slugified_ids(attrs: Seq<(Seq<char>, Seq<char>)>, config: SiteConfig) -> Seq<(Seq<char>, Seq<char>)> {
    attrs.map_values(
        |p: (Seq<char>, Seq<char>)|
            if p.0 == "id"@ {
                (p.0, fragment_slug(p.1, config.build.slug))
            } else {
                p
            },
    )
}

/// Writes a heading's start tag with its `id` slugified.
pub fn write_heading_with_slugified_id(elem: &XmlTag, writer: &mut XmlWriter, config: &SiteConfig)
    ensures
        final(writer)@ == old(writer)@ + start_tag_text(
            elem.name@,
            raw_attributes(slugified_ids(tag_attribute_list(*elem), *config)),
        ),
{
    let attrs = attribute_list(elem);
    let mut out: Vec<(String, String)> = Vec::new();
    let mut i: usize = 0;
    while i < attrs.len()
        invariant
            i <= attrs@.len(),
            string_pairs(out@) == slugified_ids(string_pairs(attrs@.subrange(0, i as int)), *config),
        decreases attrs.len() - i,
    {
        let (k, v) = (&attrs[i].0, &attrs[i].1);
        let value = if str_eq(k.as_str(), "id") {
            slugify_fragment(v.as_str(), &config.build.slug)
        } else {
            copy_string(v)
        };
        let ghost before = string_pairs(out@);
        out.push((copy_string(k), value));
        assert(string_pairs(attrs@.subrange(0, i + 1)) =~= string_pairs(attrs@.subrange(0, i as int)).push((k@, v@)));
        assert(string_pairs(out@) =~= before.push((k@, value@)));
        assert(string_pairs(out@) =~= slugified_ids(string_pairs(attrs@.subrange(0, i + 1)), *config));
        i = i + 1;
    }
    assert(attrs@.subrange(0, attrs@.len() as int) =~= attrs@);
    let ghost start = writer@;
    let t = rebuild_elem(elem, &out);
    writer.write_event(&XmlEvent::Start(t));
    assert(writer@ =~= start + start_tag_text(
        elem.name@,
        raw_attributes(slugified_ids(tag_attribute_list(*elem), *config)),
    ));
}

/// An attribute with its link rewritten when it is an `href` or a `src`;
/// `None` for an empty link.
pub open spec fn linked_attribute(p: (Seq<char>, Seq<char>), config: SiteConfig, is_source_index: bool) -> Option<
    (Seq<char>, Seq<char>),
> {
    if p.0 == "href"@ || p.0 == "src"@ {
        match link_value(p.1, config, is_source_index) {
            Some(v) => Some((p.0, v)),
            None => None,
        }
    } else {
        Some(p)
    }
}

/// Attributes with their links rewritten; `None` when a link is empty.
pub open spec fn linked_attributes(
    attrs: Seq<(Seq<char>, Seq<char>)>,
    config: SiteConfig,
    is_source_index: bool,
) -> Option<Seq<(Seq<char>, Seq<char>)>>
    decreases attrs.len(),
{
    if attrs.len() == 0 {
        Some(seq![])
    } else {
        match (linked_attributes(attrs.drop_last(), config, is_source_index), linked_attribute(
            attrs.last(),
            config,
            is_source_index,
        )) {
            (Some(r), Some(p)) => Some(r.push(p)),
            _ => None,
        }
    }
}

/// Rewrites a link value given as text.
fn rewrite_link(value: &String, config: &SiteConfig, is_source_index: bool) -> (r: Result<String, Error>)
    ensures
        link_value(value@, *config, is_source_index) is None ==> r == Err::<String, Error>(Error::EmptyLink),
        link_value(value@, *config, is_source_index) matches Some(v) ==> r matches Ok(s) && s@ == v,
{
    let bytes = string_bytes(value.as_str());
    proof {
        vstd::utf8::encode_utf8_valid_utf8(value@);
        vstd::utf8::encode_utf8_decode_utf8(value@);
    }
    match process_link_value(&bytes, config, is_source_index) {
        Ok(b) => {
            proof {
                let v = link_value(value@, *config, is_source_index).unwrap();
                vstd::utf8::encode_utf8_valid_utf8(v);
                vstd::utf8::encode_utf8_decode_utf8(v);
            }
            match utf8_to_string(&b) {
                Some(s) => Ok(s),
                None => Err(Error::InvalidUtf8),
            }
        },
        Err(e) => Err(e),
    }
}

/// Rewrites the links among attributes; the error of the first empty link.
fn link_attributes(attrs: &Vec<(String, String)>, config: &SiteConfig, is_source_index: bool) -> (r: Result<
    Vec<(String, String)>,
    Error,
>)
    ensures
        linked_attributes(string_pairs(attrs@), *config, is_source_index) is None ==> r == Err::<
            Vec<(String, String)>,
            Error,
        >(Error::EmptyLink),
        linked_attributes(string_pairs(attrs@), *config, is_source_index) matches Some(qs) ==> r matches Ok(out)
            && string_pairs(out@) == qs,
{
    let mut out: Vec<(String, String)> = Vec::new();
    let mut i: usize = 0;
    while i < attrs.len()
        invariant
            i <= attrs@.len(),
            linked_attributes(string_pairs(attrs@.subrange(0, i as int)), *config, is_source_index) matches Some(qs)
                && string_pairs(out@) == qs,
        decreases attrs.len() - i,
    {
        assert(string_pairs(attrs@.subrange(0, i + 1)).drop_last() =~= string_pairs(attrs@.subrange(0, i as int)));
        let (k, v) = (&attrs[i].0, &attrs[i].1);
        let value = if str_eq(k.as_str(), "href") || str_eq(k.as_str(), "src") {
            match rewrite_link(v, config, is_source_index) {
                Ok(s) => s,
                Err(e) => {
                    proof {
                        lemma_linked_prefix(string_pairs(attrs@), i as int + 1, *config, is_source_index);
                        assert(string_pairs(attrs@.subrange(0, i + 1)) =~= string_pairs(attrs@).subrange(0, i + 1));
                    }
                    return Err(e);
                },
            }
        } else {
            copy_string(v)
        };
        out.push((copy_string(k), value));
        assert(string_pairs(out@) =~= linked_attributes(string_pairs(attrs@.subrange(0, i + 1)), *config, is_source_index).unwrap());
        i = i + 1;
    }
    assert(attrs@.subrange(0, attrs@.len() as int) =~= attrs@);
    Ok(out)
}

proof fn lemma_linked_prefix(attrs: Seq<(Seq<char>, Seq<char>)>, n: int, config: SiteConfig, is_source_index: bool)
    requires
        0 <= n <= attrs.len(),
        linked_attributes(attrs.subrange(0, n), config, is_source_index) is None,
    ensures
        linked_attributes(attrs, config, is_source_index) is None,
    decreases attrs.len() - n,
{
    if n < attrs.len() {
        assert(attrs.subrange(0, n + 1).drop_last() =~= attrs.subrange(0, n));
        lemma_linked_prefix(attrs, n + 1, config, is_source_index);
    } else {
        assert(attrs.subrange(0, n) =~= attrs);
    }
}

/// The start tag with its links rewritten; `None` when a link is empty.
pub open spec fn linked_start_tag(elem: XmlTag, config: SiteConfig, is_source_index: bool) -> Option<Seq<char>> {
    match linked_attributes(tag_attribute_list(elem), config, is_source_index) {
        Some(qs) => Some(start_tag_text(elem.name@, raw_attributes(qs))),
        None => None,
    }
}

/// Writes a start tag with its `href` and `src` links rewritten.
pub fn write_element_with_processed_links(
    elem: &XmlTag,
    writer: &mut XmlWriter,
    config: &SiteConfig,
    is_source_index: bool,
) -> (r: Result<(), Error>)
    ensures
        linked_start_tag(*elem, *config, is_source_index) is None ==> r == Err::<(), Error>(Error::EmptyLink),
        linked_start_tag(*elem, *config, is_source_index) matches Some(t) ==> r is Ok && final(writer)@ == old(
            writer,
        )@ + t,
{
    let attrs = attribute_list(elem);
    let out = match link_attributes(&attrs, config, is_source_index) {
        Ok(out) => out,
        Err(e) => return Err(e),
    };
    let ghost start = writer@;
    let t = rebuild_elem(elem, &out);
    writer.write_event(&XmlEvent::Start(t));
    assert(writer@ =~= start + linked_start_tag(*elem, *config, is_source_index).unwrap());
    Ok(())
}


/// Whether `w` is one of the whitespace-separated words of `s`.
pub open spec fn has_word(s: Seq<char>, w: Seq<char>) -> bool {
    exists|i: int|
        #[trigger] occurs_at(s, w, i) && (i == 0 || is_ws(s[i - 1])) && (i + w.len() == s.len() || is_ws(
            s[i + w.len()],
        ))
}

/// Checks whether `w` is one of the whitespace-separated words of `s`.
pub fn contains_word(s: &[char], w: &[char]) -> (r: bool)
    ensures
        r == has_word(s@, w@),
{
    let mut i: usize = 0;
    while i < s.len()
        invariant
            i <= s@.len(),
            forall|j: int|
                0 <= j < i ==> !(#[trigger] occurs_at(s@, w@, j) && (j == 0 || is_ws(s@[j - 1])) && (j + w@.len()
                    == s@.len() || is_ws(s@[j + w@.len()]))),
        decreases s.len() - i,
    {
        if matches_at(s, w, i) && (i == 0 || is_whitespace(s[i - 1])) && (i + w.len() == s.len() || is_whitespace(
            s[i + w.len()],
        )) {
            return true;
        }
        i = i + 1;
    }
    if matches_at(s, w, i) && (i == 0 || is_whitespace(s[i - 1])) && i + w.len() == s.len() {
        return true;
    }
    assert forall|j: int|
        !(#[trigger] occurs_at(s@, w@, j) && (j == 0 || is_ws(s@[j - 1])) && (j + w@.len() == s@.len() || is_ws(
            s@[j + w@.len()],
        ))) by {
        if 0 <= j <= s@.len() {
        } else {
        }
    }
    false
}

/// Whether a `src` attribute names an SVG file (`.svg` or `.svgz`).
pub open spec fn is_svg_source(attrs: Seq<(Seq<char>, Seq<char>)>) -> bool {
    exists|i: int|
        0 <= i < attrs.len() && #[trigger] attrs[i].0 == "src"@ && (has_suffix(attrs[i].1, ".svg"@) || has_suffix(
            attrs[i].1,
            ".svgz"@,
        ))
}

/// Whether there is a `class` attribute.
pub open spec fn has_class(attrs: Seq<(Seq<char>, Seq<char>)>) -> bool {
    exists|i: int| 0 <= i < attrs.len() && #[trigger] attrs[i].0 == "class"@
}

/// A class list with `color-invert` among its words.
pub open spec fn with_color_invert(class: Seq<char>) -> Seq<char> {
    if has_word(class, "color-invert"@) {
        class
    } else {
        class + " color-invert"@
    }
}

/// An attribute of an SVG image: its `src` rewritten, `color-invert` added to
/// its `class`; `None` for an empty `src`.
pub open spec fn img_attribute(p: (Seq<char>, Seq<char>), config: SiteConfig, is_source_index: bool) -> Option<
    (Seq<char>, Seq<char>),
> {
    if p.0 == "src"@ {
        match link_value(p.1, config, is_source_index) {
            Some(v) => Some((p.0, v)),
            None => None,
        }
    } else if p.0 == "class"@ {
        Some((p.0, with_color_invert(p.1)))
    } else {
        Some(p)
    }
}

/// The attributes of an SVG image, rewritten; `None` when `src` is empty.
pub open spec fn img_attributes(
    attrs: Seq<(Seq<char>, Seq<char>)>,
    config: SiteConfig,
    is_source_index: bool,
) -> Option<Seq<(Seq<char>, Seq<char>)>>
    decreases attrs.len(),
{
    if attrs.len() == 0 {
        Some(seq![])
    } else {
        match (img_attributes(attrs.drop_last(), config, is_source_index), img_attribute(
            attrs.last(),
            config,
            is_source_index,
        )) {
            (Some(r), Some(p)) => Some(r.push(p)),
            _ => None,
        }
    }
}

/// The `<img>` start tag as written: an SVG image gets the `color-invert`
/// class (added to its class list, or as a new `class` attribute) and its
/// `src` rewritten; any other image has its links rewritten. `None` when a
/// link is empty.
pub open spec fn img_start_tag(elem: XmlTag, config: SiteConfig, is_source_index: bool) -> Option<Seq<char>> {
    let attrs = tag_attribute_list(elem);
    if !is_svg_source(attrs) {
        linked_start_tag(elem, config, is_source_index)
    } else {
        match img_attributes(attrs, config, is_source_index) {
            Some(qs) => Some(
                start_tag_text(
                    elem.name@,
                    raw_attributes(qs) + if has_class(attrs) {
                        seq![]
                    } else {
                        attribute_text("class"@, "color-invert"@)
                    },
                ),
            ),
            None => None,
        }
    }
}

fn svg_source_in(attrs: &Vec<(String, String)>) -> (r: bool)
    ensures
        r == is_svg_source(string_pairs(attrs@)),
{
    let svg = to_chars(".svg");
    let svgz = to_chars(".svgz");
    let mut i: usize = 0;
    while i < attrs.len()
        invariant
            i <= attrs@.len(),
            svg@ == ".svg"@,
            svgz@ == ".svgz"@,
            forall|j: int|
                0 <= j < i ==> !(#[trigger] string_pairs(attrs@)[j].0 == "src"@ && (has_suffix(
                    string_pairs(attrs@)[j].1,
                    ".svg"@,
                ) || has_suffix(string_pairs(attrs@)[j].1, ".svgz"@))),
        decreases attrs.len() - i,
    {
        let value = to_chars(attrs[i].1.as_str());
        if str_eq(attrs[i].0.as_str(), "src") && (ends_with(&value, &svg) || ends_with(&value, &svgz)) {
            assert(string_pairs(attrs@)[i as int].0 == "src"@);
            return true;
        }
        i = i + 1;
    }
    false
}

proof fn lemma_plain_text_unescaped(s: Seq<char>)
    requires
        forall|i: int| 0 <= i < s.len() ==> escaped_char(#[trigger] s[i], true) == seq![s[i]],
    ensures
        escaped(s, true) == s,
    decreases s.len(),
{
    if s.len() > 0 {
        lemma_plain_text_unescaped(s.drop_last());
        assert(escaped_char(s.last(), true) == seq![s[s.len() - 1]]);
        assert(escaped(s, true) =~= s);
    }
}

fn img_class_attributes(attrs: &Vec<(String, String)>, config: &SiteConfig, is_source_index: bool) -> (r: Result<
    (Vec<(String, String)>, bool),
    Error,
>)
    ensures
        img_attributes(string_pairs(attrs@), *config, is_source_index) is None ==> r == Err::<
            (Vec<(String, String)>, bool),
            Error,
        >(Error::EmptyLink),
        img_attributes(string_pairs(attrs@), *config, is_source_index) matches Some(qs) ==> r matches Ok(
            (out, found),
        ) && string_pairs(out@) == qs && found == has_class(string_pairs(attrs@)),
{
    let word = to_chars("color-invert");
    let mut out: Vec<(String, String)> = Vec::new();
    let mut found = false;
    let mut i: usize = 0;
    while i < attrs.len()
        invariant
            i <= attrs@.len(),
            word@ == "color-invert"@,
            img_attributes(string_pairs(attrs@.subrange(0, i as int)), *config, is_source_index) matches Some(qs)
                && string_pairs(out@) == qs,
            found == has_class(string_pairs(attrs@.subrange(0, i as int))),
        decreases attrs.len() - i,
    {
        let ghost prefix = string_pairs(attrs@.subrange(0, i as int));
        assert(string_pairs(attrs@.subrange(0, i + 1)) =~= prefix.push((attrs@[i as int].0@, attrs@[i as int].1@)));
        let (k, v) = (&attrs[i].0, &attrs[i].1);
        let value = if str_eq(k.as_str(), "src") {
            match rewrite_link(v, config, is_source_index) {
                Ok(s) => s,
                Err(e) => {
                    proof {
                        lemma_img_prefix(string_pairs(attrs@), i as int + 1, *config, is_source_index);
                        assert(string_pairs(attrs@.subrange(0, i + 1)) =~= string_pairs(attrs@).subrange(0, i + 1));
                    }
                    return Err(e);
                },
            }
        } else if str_eq(k.as_str(), "class") {
            let cv = to_chars(v.as_str());
            if contains_word(&cv, &word) {
                copy_string(v)
            } else {
                let mut nv = cv;
                push_all(&mut nv, &to_chars(" color-invert"));
                let nvs = from_chars(&nv);
                assert(nvs@ == with_color_invert(v@));
                nvs
            }
        } else {
            copy_string(v)
        };
        if str_eq(k.as_str(), "class") {
            found = true;
        }
        let ghost before = string_pairs(out@);
        assert(img_attribute((k@, v@), *config, is_source_index) == Some((k@, value@)));
        out.push((copy_string(k), value));
        assert(string_pairs(out@) =~= before.push((k@, value@)));
        assert(string_pairs(attrs@.subrange(0, i + 1)).drop_last() =~= prefix);
        assert(string_pairs(out@) == img_attributes(string_pairs(attrs@.subrange(0, i + 1)), *config, is_source_index).unwrap());
        assert(found == has_class(string_pairs(attrs@.subrange(0, i + 1)))) by {
            let pre = string_pairs(attrs@.subrange(0, i + 1));
            if found {
                if k@ == "class"@ {
                    assert(pre[i as int].0 == "class"@);
                } else {
                    let j = choose|j: int| 0 <= j < prefix.len() && #[trigger] prefix[j].0 == "class"@;
                    assert(pre[j] == prefix[j]);
                }
            } else {
                assert forall|j: int| 0 <= j < pre.len() implies !(#[trigger] pre[j].0 == "class"@) by {
                    if j < i {
                        assert(pre[j] == prefix[j]);
                    }
                }
            }
        }
        i = i + 1;
    }
    assert(attrs@.subrange(0, attrs@.len() as int) =~= attrs@);
    Ok((out, found))
}

proof fn lemma_img_prefix(attrs: Seq<(Seq<char>, Seq<char>)>, n: int, config: SiteConfig, is_source_index: bool)
    requires
        0 <= n <= attrs.len(),
        img_attributes(attrs.subrange(0, n), config, is_source_index) is None,
    ensures
        img_attributes(attrs, config, is_source_index) is None,
    decreases attrs.len() - n,
{
    if n < attrs.len() {
        assert(attrs.subrange(0, n + 1).drop_last() =~= attrs.subrange(0, n));
        lemma_img_prefix(attrs, n + 1, config, is_source_index);
    } else {
        assert(attrs.subrange(0, n) =~= attrs);
    }
}

/// Writes an `<img>` start tag; an SVG image (`.svg` or `.svgz` source) gets
/// the `color-invert` class so that it follows the dark theme, and its
/// `src` is rewritten; any other image has its links rewritten only.
pub fn write_img_with_color_invert(
    elem: &XmlTag,
    writer: &mut XmlWriter,
    config: &SiteConfig,
    is_source_index: bool,
) -> (r: Result<(), Error>)
    ensures
        img_start_tag(*elem, *config, is_source_index) is None ==> r == Err::<(), Error>(Error::EmptyLink),
        img_start_tag(*elem, *config, is_source_index) matches Some(t) ==> r is Ok && final(writer)@ == old(
            writer,
        )@ + t,
{
    let attrs = attribute_list(elem);
    if !svg_source_in(&attrs) {
        return write_element_with_processed_links(elem, writer, config, is_source_index);
    }
    let (out, found) = match img_class_attributes(&attrs, config, is_source_index) {
        Ok(p) => p,
        Err(e) => return Err(e),
    };
    let mut t = rebuild_elem(elem, &out);
    if !found {
        proof {
            reveal_strlit("color-invert");
            lemma_plain_text_unescaped("color-invert"@);
        }
        t.push_attribute("class", "color-invert");
    }
    let ghost start = writer@;
    writer.write_event(&XmlEvent::Start(t));
    assert(writer@ =~= start + img_start_tag(*elem, *config, is_source_index).unwrap());
    Ok(())
}


/// A part of a processed page: HTML text, or an inline SVG element to be
/// extracted (its start tag and its content up to and including `</svg>`).
#[derive(Debug)]
pub enum HtmlPiece {
    Html(String),
    Svg(XmlTag, String),
}

/// A part of a processed page as plain sequences.
pub enum PieceView {
    Html(Seq<char>),
    Svg(Seq<char>, Seq<char>, Seq<char>),
}

pub open spec fn piece_view(p: HtmlPiece) -> PieceView {
    match p {
        HtmlPiece::Html(s) => PieceView::Html(s@),
        HtmlPiece::Svg(t, body) => PieceView::Svg(t.name@, t.attrs@, body@),
    }
}

pub open spec fn piece_views(v: Seq<HtmlPiece>) -> Seq<PieceView> {
    v.map_values(|p: HtmlPiece| piece_view(p))
}

/// Whether a tag name is that of a heading, `h1` to `h6`.
pub open spec fn is_heading(n: Seq<char>) -> bool {
    n == "h1"@ || n == "h2"@ || n == "h3"@ || n == "h4"@ || n == "h5"@ || n == "h6"@
}

/// How a start tag is written back (SVG extraction aside): `<html>` gets the
/// language, headings get slugified ids, SVG images get `color-invert` when
/// auto-enhance is on, and every other tag gets its links rewritten.
pub open spec fn start_text(t: XmlTag, config: SiteConfig, is_source_index: bool) -> Option<Seq<char>> {
    if t.name@ == "html"@ {
        Some(html_with_lang(t, config.base.language@))
    } else if is_heading(t.name@) {
        Some(start_tag_text(t.name@, raw_attributes(slugified_ids(tag_attribute_list(t), config))))
    } else if t.name@ == "img"@ && config.build.css.auto_enhance {
        img_start_tag(t, config, is_source_index)
    } else {
        linked_start_tag(t, config, is_source_index)
    }
}

/// The pieces of a page from the events still to read, after pieces `done`
/// and the HTML text `current` of the piece being written; `None` when
/// processing fails.
pub open spec fn rendered(
    events: Seq<Option<XmlEvent>>,
    config: SiteConfig,
    is_source_index: bool,
    done: Seq<PieceView>,
    current: Seq<char>,
) -> Option<Seq<PieceView>>
    decreases events.len(),
{
    if events.len() == 0 {
        None
    } else {
        let rest = events.drop_first();
        match events[0] {
            None => None,
            Some(ev) => match ev {
                XmlEvent::Eof => Some(done.push(PieceView::Html(current))),
                XmlEvent::Start(t) => if t.name@ == "svg"@ && config.build.extract_svg {
                    match captured(rest, 1) {
                        Some((body, n)) => if n <= rest.len() {
                            rendered(
                                rest.subrange(n as int, rest.len() as int),
                                config,
                                is_source_index,
                                done.push(PieceView::Html(current)).push(PieceView::Svg(t.name@, t.attrs@, body)),
                                seq![],
                            )
                        } else {
                            None
                        },
                        None => None,
                    }
                } else {
                    match start_text(t, config, is_source_index) {
                        Some(s) => rendered(rest, config, is_source_index, done, current + s),
                        None => None,
                    }
                },
                XmlEvent::End(n) => if n@ == "head"@ {
                    match head_text(config) {
                        Some(h) => rendered(rest, config, is_source_index, done, current + h),
                        None => None,
                    }
                } else {
                    rendered(rest, config, is_source_index, done, current + event_text(XmlEvent::End(n)))
                },
                other => rendered(rest, config, is_source_index, done, current + event_text(other)),
            },
        }
    }
}

fn name_is_heading(n: &str) -> (r: bool)
    ensures
        r == is_heading(n@),
{
    str_eq(n, "h1") || str_eq(n, "h2") || str_eq(n, "h3") || str_eq(n, "h4") || str_eq(n, "h5") || str_eq(n, "h6")
}

/// Writes a start tag back as `start_text` says.
pub fn handle_start_element(
    elem: &XmlTag,
    writer: &mut XmlWriter,
    config: &SiteConfig,
    is_source_index: bool,
) -> (r: Result<(), Error>)
    ensures
        start_text(*elem, *config, is_source_index) is None ==> r is Err,
        start_text(*elem, *config, is_source_index) matches Some(t) ==> r is Ok && final(writer)@ == old(writer)@ + t,
{
    if str_eq(elem.name.as_str(), "html") {
        write_html_with_lang(elem, writer, config);
        Ok(())
    } else if name_is_heading(elem.name.as_str()) {
        write_heading_with_slugified_id(elem, writer, config);
        Ok(())
    } else if str_eq(elem.name.as_str(), "img") && config.build.css.auto_enhance {
        write_img_with_color_invert(elem, writer, config, is_source_index)
    } else {
        write_element_with_processed_links(elem, writer, config, is_source_index)
    }
}

/// Post-processes a page's HTML: start tags are rewritten (language, heading
/// ids, links, image classes), the configured head content goes before
/// `</head>`, and, when SVGs are extracted, each inline `<svg>` element is
/// cut out as a piece of its own; everything else is written back as read.
pub fn process_html(content: &[u8], config: &SiteConfig, is_source_index: bool) -> (r: Result<Vec<HtmlPiece>, Error>)
    ensures
        rendered(xml_events(content@), *config, is_source_index, seq![], seq![]) is None ==> r is Err,
        rendered(xml_events(content@), *config, is_source_index, seq![], seq![]) matches Some(ps) ==> r matches Ok(v)
            && piece_views(v@) == ps,
{
    let mut reader = create_xml_reader(content);
    let mut writer = XmlWriter::new();
    let mut pieces: Vec<HtmlPiece> = Vec::new();
    let ghost target = rendered(xml_events(content@), *config, is_source_index, seq![], seq![]);
    assert(piece_views(pieces@) =~= Seq::<PieceView>::empty());
    loop
        invariant
            is_event_stream(pending_events(reader)),
            target == rendered(xml_events(content@), *config, is_source_index, seq![], seq![]),
            target == rendered(pending_events(reader), *config, is_source_index, piece_views(pieces@), writer@),
        decreases pending_events(reader).len(),
    {
        let ghost pending = pending_events(reader);
        let ghost done = piece_views(pieces@);
        let ghost current = writer@;
        let ev = read_event(&mut reader);
        assert(ev == pending[0]);
        proof {
            if pending[0] matches Some(e) && !(e is Eof) {
                lemma_stream_rest(pending);
                assert(pending_events(reader) == pending.drop_first());
            }
        }
        match ev {
            None => return Err(Error::XmlParse),
            Some(XmlEvent::Eof) => {
                pieces.push(HtmlPiece::Html(writer.into_text()));
                assert(piece_views(pieces@) =~= done.push(PieceView::Html(current)));
                return Ok(pieces);
            },
            Some(XmlEvent::Start(t)) => {
                if str_eq(t.name.as_str(), "svg") && config.build.extract_svg {
                    proof {
                        lemma_stream_rest(pending);
                        lemma_captured_len(pending.drop_first(), 1);
                    }
                    let body = match capture_svg_body(&mut reader) {
                        Ok(b) => b,
                        Err(e) => return Err(e),
                    };
                    let text = writer.into_text();
                    writer = XmlWriter::new();
                    pieces.push(HtmlPiece::Html(text));
                    let ghost tv = t;
                    pieces.push(HtmlPiece::Svg(t, body));
                    assert(piece_views(pieces@) =~= done.push(PieceView::Html(current)).push(
                        PieceView::Svg(tv.name@, tv.attrs@, body@),
                    ));
                    assert(writer@ =~= Seq::<char>::empty());
                    assert(target == rendered(pending_events(reader), *config, is_source_index, piece_views(pieces@), writer@));
                } else {
                    match handle_start_element(&t, &mut writer, config, is_source_index) {
                        Ok(()) => {},
                        Err(e) => return Err(e),
                    }
                    assert(piece_views(pieces@) == done);
                    assert(target == rendered(pending_events(reader), *config, is_source_index, piece_views(pieces@), writer@));
                }
            },
            Some(XmlEvent::End(n)) => {
                if str_eq(n.as_str(), "head") {
                    match write_head_content(&mut writer, config) {
                        Ok(()) => {},
                        Err(e) => return Err(e),
                    }
                } else {
                    writer.write_event(&XmlEvent::End(n));
                }
                assert(target == rendered(pending_events(reader), *config, is_source_index, piece_views(pieces@), writer@));
            },
            Some(other) => {
                writer.write_event(&other);
                assert(target == rendered(pending_events(reader), *config, is_source_index, piece_views(pieces@), writer@));
            },
        }
    }
}

/// After the first of a stream's results, if it is an event other than the
/// end of input, the rest is a stream again.
proof fn lemma_stream_rest(s: Seq<Option<XmlEvent>>)
    requires
        is_event_stream(s),
        s[0] matches Some(e) && !(e is Eof),
    ensures
        is_event_stream(s.drop_first()),
{
    if s.len() == 1 {
        assert(s.last() == s[0]);
    }
    assert forall|i: int| 0 <= i < s.drop_first().len() - 1 implies (#[trigger] s.drop_first()[i] matches Some(e) && !(
    e is Eof)) by {
        assert(s.drop_first()[i] == s[i + 1]);
    }
}

} // verus!
