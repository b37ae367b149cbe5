//! What goes into every page's `<head>`.

use vstd::prelude::*;
use crate::config::{HeadScript, SiteConfig};
use crate::error::Error;
use crate::utils::css::{enhance_css_filename, enhance_name, ENHANCE_CSS};
use crate::utils::xml::assets::{asset_href, asset_source, compute_asset_href, compute_stylesheet_href, get_icon_mime_type, icon_mime_of_path};
use crate::utils::xml::common::{
    empty_elem_text, pair_views, script_text, text_element_text, write_empty_elem, write_script, write_text_element,
    XmlEvent, XmlWriter,
};
use vstd::string::StringSliceAdditionalSpecFns;

verus! {

/// The href of an asset path, if the path lies in the assets directory.
pub open spec fn asset_href_of(p: Seq<char>, config: SiteConfig) -> Option<Seq<char>> {
    asset_href(asset_source(p, config), config)
}

/// `<link rel="stylesheet" href="..."/>`.
pub open spec fn stylesheet_link(href: Seq<char>) -> Seq<char> {
    empty_elem_text("link"@, seq![("rel"@, "stylesheet"@), ("href"@, href)])
}

/// The stylesheet links for the configured styles, or `None` when one of
/// them is not an asset.
pub open spec fn styles_text(styles: Seq<String>, config: SiteConfig) -> Option<Seq<char>>
    decreases styles.len(),
{
    if styles.len() == 0 {
        Some(seq![])
    } else {
        match (styles_text(styles.drop_last(), config), asset_href_of(styles.last()@, config)) {
            (Some(t), Some(h)) => Some(t + stylesheet_link(h)),
            _ => None,
        }
    }
}

/// The script elements for the configured scripts, or `None` when one of
/// them is not an asset.
pub open spec fn scripts_text(scripts: Seq<HeadScript>, config: SiteConfig) -> Option<Seq<char>>
    decreases scripts.len(),
{
    if scripts.len() == 0 {
        Some(seq![])
    } else {
        let s = scripts.last();
        match (scripts_text(scripts.drop_last(), config), asset_href_of(s.path@, config)) {
            (Some(t), Some(h)) => Some(t + script_text(h, s.defer, s.async_load)),
            _ => None,
        }
    }
}

/// The raw elements, one after the other.
pub open spec fn elements_text(elements: Seq<String>) -> Seq<char>
    decreases elements.len(),
{
    if elements.len() == 0 {
        seq![]
    } else {
        elements_text(elements.drop_last()) + elements.last()@
    }
}

/// The title element, when a title is set.
pub open spec fn title_text(config: SiteConfig) -> Seq<char> {
    if config.base.title@.len() > 0 {
        text_element_text("title"@, config.base.title@)
    } else {
        seq![]
    }
}

/// The description meta element, when a description is set.
pub open spec fn description_text(config: SiteConfig) -> Seq<char> {
    if config.base.description@.len() > 0 {
        empty_elem_text("meta"@, seq![("name"@, "description"@), ("content"@, config.base.description@)])
    } else {
        seq![]
    }
}

/// The favicon link, when an icon is set; `None` when it is not an asset.
pub open spec fn icon_text(config: SiteConfig) -> Option<Seq<char>> {
    match config.build.head.icon {
        None => Some(seq![]),
        Some(icon) => match asset_href_of(icon@, config) {
            None => None,
            Some(h) => Some(
                empty_elem_text(
                    "link"@,
                    seq![("rel"@, "shortcut icon"@), ("href"@, h), ("type"@, icon_mime_of_path(icon@))],
                ),
            ),
        },
    }
}

/// The Tailwind stylesheet link, when Tailwind is enabled with an input;
/// `None` when the input cannot be resolved or is not an asset.
pub open spec fn tailwind_text(config: SiteConfig) -> Option<Seq<char>> {
    if config.build.tailwind.enable && config.build.tailwind.input is Some {
        match config.build.tailwind.canonical_input {
            None => None,
            Some(c) => match asset_href(c@, config) {
                None => None,
                Some(h) => Some(stylesheet_link(h)),
            },
        }
    } else {
        Some(seq![])
    }
}

/// The auto-enhance stylesheet link, when enabled.
pub open spec fn enhance_text(config: SiteConfig) -> Seq<char> {
    if config.build.css.auto_enhance {
        stylesheet_link(seq!['/'] + enhance_name(ENHANCE_CSS.spec_bytes()))
    } else {
        seq![]
    }
}

/// Everything written before and including `</head>`: title, description,
/// favicon, stylesheets, Tailwind and enhance stylesheets, scripts and raw
/// elements, or `None` when a configured path cannot be linked.
pub open spec fn head_text(config: SiteConfig) -> Option<Seq<char>> {
    match (icon_text(config), styles_text(config.build.head.styles@, config), tailwind_text(config),
        scripts_text(config.build.head.scripts@, config)) {
        (Some(icon), Some(styles), Some(tailwind), Some(scripts)) => Some(
            title_text(config) + description_text(config) + icon + styles + tailwind + enhance_text(config)
                + scripts + elements_text(config.build.head.elements@) + "</head>"@,
        ),
        _ => None,
    }
}

fn write_stylesheet_link(writer: &mut XmlWriter, href: &str)
    ensures
        final(writer)@ == old(writer)@ + stylesheet_link(href@),
{
    let attrs = [("rel", "stylesheet"), ("href", href)];
    assert(pair_views(attrs@) =~= seq![("rel"@, "stylesheet"@), ("href"@, href@)]);
    write_empty_elem(writer, "link", &attrs);
}

fn write_title_and_description(writer: &mut XmlWriter, config: &SiteConfig)
    ensures
        final(writer)@ == old(writer)@ + (title_text(*config) + description_text(*config)),
{
    let ghost start = writer@;
    if config.base.title.as_str().unicode_len() > 0 {
        write_text_element(writer, "title", config.base.title.as_str());
    }
    if config.base.description.as_str().unicode_len() > 0 {
        let attrs = [("name", "description"), ("content", config.base.description.as_str())];
        assert(pair_views(attrs@) =~= seq![("name"@, "description"@), ("content"@, config.base.description@)]);
        write_empty_elem(writer, "meta", &attrs);
    }
    assert(writer@ =~= start + (title_text(*config) + description_text(*config)));
}

fn write_icon(writer: &mut XmlWriter, config: &SiteConfig) -> (r: Result<(), Error>)
    ensures
        r is Ok <==> icon_text(*config) is Some,
        r is Ok ==> final(writer)@ == old(writer)@ + icon_text(*config).unwrap(),
{
    let ghost start = writer@;
    match &config.build.head.icon {
        Some(icon) => {
            let href = match compute_asset_href(icon.as_str(), config) {
                Ok(h) => h,
                Err(e) => return Err(e),
            };
            let attrs = [("rel", "shortcut icon"), ("href", href.as_str()), ("type", get_icon_mime_type(icon.as_str()))];
            assert(pair_views(attrs@) =~= seq![("rel"@, "shortcut icon"@), ("href"@, href@), ("type"@, icon_mime_of_path(icon@))]);
            write_empty_elem(writer, "link", &attrs);
        },
        None => {},
    }
    assert(writer@ =~= start + icon_text(*config).unwrap());
    Ok(())
}

fn write_styles(writer: &mut XmlWriter, config: &SiteConfig) -> (r: Result<(), Error>)
    ensures
        r is Ok <==> styles_text(config.build.head.styles@, *config) is Some,
        r is Ok ==> final(writer)@ == old(writer)@ + styles_text(config.build.head.styles@, *config).unwrap(),
{
    let styles = &config.build.head.styles;
    let ghost start = writer@;
    let mut i: usize = 0;
    while i < styles.len()
        invariant
            i <= styles@.len(),
            styles == &config.build.head.styles,
            styles_text(styles@.subrange(0, i as int), *config) matches Some(t) && writer@ == start + t,
        decreases styles.len() - i,
    {
        assert(styles@.subrange(0, i + 1).drop_last() =~= styles@.subrange(0, i as int));
        let href = match compute_asset_href(styles[i].as_str(), config) {
            Ok(h) => h,
            Err(e) => {
                proof {
                    lemma_styles_prefix(styles@, i as int + 1, *config);
                }
                return Err(e);
            },
        };
        write_stylesheet_link(writer, href.as_str());
        i = i + 1;
    }
    assert(styles@.subrange(0, styles@.len() as int) =~= styles@);
    Ok(())
}

fn write_tailwind(writer: &mut XmlWriter, config: &SiteConfig) -> (r: Result<(), Error>)
    ensures
        r is Ok <==> tailwind_text(*config) is Some,
        r is Ok ==> final(writer)@ == old(writer)@ + tailwind_text(*config).unwrap(),
{
    let ghost start = writer@;
    if config.build.tailwind.enable && config.build.tailwind.input.is_some() {
        let canonical = match &config.build.tailwind.canonical_input {
            Some(c) => c,
            None => {
                let input = match &config.build.tailwind.input {
                    Some(p) => p.clone(),
                    None => String::new(),
                };
                return Err(Error::CannotResolve(input));
            },
        };
        let href = match compute_stylesheet_href(canonical.as_str(), config) {
            Ok(h) => h,
            Err(e) => return Err(e),
        };
        write_stylesheet_link(writer, href.as_str());
    }
    assert(writer@ =~= start + tailwind_text(*config).unwrap());
    Ok(())
}

fn write_enhance(writer: &mut XmlWriter, config: &SiteConfig)
    ensures
        final(writer)@ == old(writer)@ + enhance_text(*config),
{
    let ghost start = writer@;
    if config.build.css.auto_enhance {
        let mut href = String::from_str("/");
        proof {
            reveal_strlit("/");
        }
        let name = enhance_css_filename();
        href.append(name.as_str());
        assert(href@ =~= seq!['/'] + enhance_name(ENHANCE_CSS.spec_bytes()));
        write_stylesheet_link(writer, href.as_str());
        assert(writer@ =~= start + stylesheet_link(seq!['/'] + enhance_name(ENHANCE_CSS.spec_bytes())));
    }
    assert(writer@ =~= start + enhance_text(*config));
}

fn write_scripts(writer: &mut XmlWriter, config: &SiteConfig) -> (r: Result<(), Error>)
    ensures
        r is Ok <==> scripts_text(config.build.head.scripts@, *config) is Some,
        r is Ok ==> final(writer)@ == old(writer)@ + scripts_text(config.build.head.scripts@, *config).unwrap(),
{
    let scripts = &config.build.head.scripts;
    let ghost start = writer@;
    let mut k: usize = 0;
    while k < scripts.len()
        invariant
            k <= scripts@.len(),
            scripts == &config.build.head.scripts,
            scripts_text(scripts@.subrange(0, k as int), *config) matches Some(t) && writer@ == start + t,
        decreases scripts.len() - k,
    {
        assert(scripts@.subrange(0, k + 1).drop_last() =~= scripts@.subrange(0, k as int));
        let script = &scripts[k];
        let src = match compute_asset_href(script.path(), config) {
            Ok(h) => h,
            Err(e) => {
                proof {
                    lemma_scripts_prefix(scripts@, k as int + 1, *config);
                }
                return Err(e);
            },
        };
        write_script(writer, src.as_str(), script.is_defer(), script.is_async());
        k = k + 1;
    }
    assert(scripts@.subrange(0, scripts@.len() as int) =~= scripts@);
    Ok(())
}

fn write_elements(writer: &mut XmlWriter, config: &SiteConfig)
    ensures
        final(writer)@ == old(writer)@ + elements_text(config.build.head.elements@),
{
    let elements = &config.build.head.elements;
    let ghost start = writer@;
    let mut m: usize = 0;
    while m < elements.len()
        invariant
            m <= elements@.len(),
            elements == &config.build.head.elements,
            writer@ == start + elements_text(elements@.subrange(0, m as int)),
        decreases elements.len() - m,
    {
        assert(elements@.subrange(0, m + 1).drop_last() =~= elements@.subrange(0, m as int));
        writer.write_str(elements[m].as_str());
        m = m + 1;
    }
    assert(elements@.subrange(0, elements@.len() as int) =~= elements@);
}

/// Writes the `<head>` additions and the closing `</head>` tag.
pub fn write_head_content(writer: &mut XmlWriter, config: &SiteConfig) -> (r: Result<(), Error>)
    ensures
        r is Ok <==> head_text(*config) is Some,
        r is Ok ==> final(writer)@ == old(writer)@ + head_text(*config).unwrap(),
{
    let ghost w0 = writer@;
    write_title_and_description(writer, config);
    let ghost w1 = writer@;
    match write_icon(writer, config) {
        Ok(()) => {},
        Err(e) => return Err(e),
    }
    let ghost w2 = writer@;
    match write_styles(writer, config) {
        Ok(()) => {},
        Err(e) => return Err(e),
    }
    let ghost w3 = writer@;
    match write_tailwind(writer, config) {
        Ok(()) => {},
        Err(e) => return Err(e),
    }
    let ghost w4 = writer@;
    write_enhance(writer, config);
    let ghost w5 = writer@;
    match write_scripts(writer, config) {
        Ok(()) => {},
        Err(e) => return Err(e),
    }
    let ghost w6 = writer@;
    write_elements(writer, config);
    let ghost w7 = writer@;
    writer.write_event(&XmlEvent::End("head".to_owned()));
    proof {
        reveal_strlit("head");
        reveal_strlit("</head>");
        assert(writer@ =~= w7 + "</head>"@);
        lemma_head_text(*config, w0, w1, w2, w3, w4, w5, w6, w7, writer@);
    }
    Ok(())
}

proof fn lemma_head_text(
    config: SiteConfig,
    w0: Seq<char>,
    w1: Seq<char>,
    w2: Seq<char>,
    w3: Seq<char>,
    w4: Seq<char>,
    w5: Seq<char>,
    w6: Seq<char>,
    w7: Seq<char>,
    w8: Seq<char>,
)
    requires
        w1 == w0 + (title_text(config) + description_text(config)),
        icon_text(config) matches Some(t) && w2 == w1 + t,
        styles_text(config.build.head.styles@, config) matches Some(t) && w3 == w2 + t,
        tailwind_text(config) matches Some(t) && w4 == w3 + t,
        w5 == w4 + enhance_text(config),
        scripts_text(config.build.head.scripts@, config) matches Some(t) && w6 == w5 + t,
        w7 == w6 + elements_text(config.build.head.elements@),
        w8 == w7 + "</head>"@,
    ensures
        head_text(config) is Some,
        w8 == w0 + head_text(config).unwrap(),
{
    let t1 = title_text(config) + description_text(config);
    let t2 = icon_text(config).unwrap();
    let t3 = styles_text(config.build.head.styles@, config).unwrap();
    let t4 = tailwind_text(config).unwrap();
    let t5 = enhance_text(config);
    let t6 = scripts_text(config.build.head.scripts@, config).unwrap();
    let t7 = elements_text(config.build.head.elements@);
    let t8 = "</head>"@;
    assert(head_text(config) == Some(t1 + t2 + t3 + t4 + t5 + t6 + t7 + t8));
    lemma_concat_steps(w0, w1, w2, w3, w4, w5, w6, w7, w8, t1, t2, t3, t4, t5, t6, t7, t8);
}

proof fn lemma_concat_steps(
    w0: Seq<char>,
    w1: Seq<char>,
    w2: Seq<char>,
    w3: Seq<char>,
    w4: Seq<char>,
    w5: Seq<char>,
    w6: Seq<char>,
    w7: Seq<char>,
    w8: Seq<char>,
    t1: Seq<char>,
    t2: Seq<char>,
    t3: Seq<char>,
    t4: Seq<char>,
    t5: Seq<char>,
    t6: Seq<char>,
    t7: Seq<char>,
    t8: Seq<char>,
)
    requires
        w1 == w0 + t1,
        w2 == w1 + t2,
        w3 == w2 + t3,
        w4 == w3 + t4,
        w5 == w4 + t5,
        w6 == w5 + t6,
        w7 == w6 + t7,
        w8 == w7 + t8,
    ensures
        w8 == w0 + (t1 + t2 + t3 + t4 + t5 + t6 + t7 + t8),
{
    assert(w8 =~= w0 + (t1 + t2 + t3 + t4 + t5 + t6 + t7 + t8));
}

/// A prefix of the styles that cannot be linked keeps the whole list from
/// being linked.
proof fn lemma_styles_prefix(styles: Seq<String>, n: int, config: SiteConfig)
    requires
        0 <= n <= styles.len(),
        styles_text(styles.subrange(0, n), config) is None,
    ensures
        styles_text(styles, config) is None,
    decreases styles.len() - n,
{
    if n < styles.len() {
        assert(styles.subrange(0, n + 1).drop_last() =~= styles.subrange(0, n));
        lemma_styles_prefix(styles, n + 1, config);
    } else {
        assert(styles.subrange(0, n) =~= styles);
    }
}

proof fn lemma_scripts_prefix(scripts: Seq<HeadScript>, n: int, config: SiteConfig)
    requires
        0 <= n <= scripts.len(),
        scripts_text(scripts.subrange(0, n), config) is None,
    ensures
        scripts_text(scripts, config) is None,
    decreases scripts.len() - n,
{
    if n < scripts.len() {
        assert(scripts.subrange(0, n + 1).drop_last() =~= scripts.subrange(0, n));
        lemma_scripts_prefix(scripts, n + 1, config);
    } else {
        assert(scripts.subrange(0, n) =~= scripts);
    }
}

} // verus!
