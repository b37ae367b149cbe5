//! Minification of HTML (through `minify-html`) and of XML (line trimming).

use vstd::prelude::*;
use vstd::utf8::{decode_utf8, encode_utf8, valid_utf8};
use crate::config::SiteConfig;
use crate::utils::text::{push_all, slice_vec, string_bytes, to_chars, trim, trim_chars, utf8_to_string, from_chars};

verus! {

/// Content to minify, by kind.
pub enum MinifyType<'a> {
    /// HTML content.
    Html(&'a [u8]),
    /// XML content.
    Xml(&'a [u8]),
}

/// What `minify_html::minify` returns for `src` under the configuration that
/// keeps closing tags and the `html`/`head` opening tags, drops comments,
/// bangs and processing instructions, and minifies CSS and JS.
pub uninterp spec fn html_minified(src: Seq<u8>) -> Seq<u8>;

/// Minifies HTML with `minify_html::minify` under the configuration that
/// `html_minified` describes. With CSS minification on, the crate unwraps a
/// UTF-8 check on `<style>` content and on `style` attributes, so the input
/// must be UTF-8.
#[verifier::external_body]
fn minify_html_inner(html: &[u8]) -> (r: Vec<u8>)
    requires
        valid_utf8(html@),
    ensures
        r@ == html_minified(html@),
{
    let mut cfg = minify_html::Cfg::new();
    cfg.keep_closing_tags = true;
    cfg.keep_html_and_head_opening_tags = true;
    cfg.keep_comments = false;
    cfg.minify_css = true;
    cfg.minify_js = true;
    cfg.remove_bangs = true;
    cfg.remove_processing_instructions = true;
    minify_html::minify(html, &cfg)
}

/// Whether position `i` holds the first `\n` of `s`.
pub open spec fn is_first_newline(s: Seq<char>, i: int) -> bool {
    0 <= i < s.len() && s[i] == '\n' && forall|j: int| 0 <= j < i ==> s[j] != '\n'
}

proof fn lemma_first_newline_exists(s: Seq<char>, i: int)
    requires
        0 <= i < s.len(),
        s[i] == '\n',
    ensures
        exists|k: int| is_first_newline(s, k),
    decreases i,
{
    if exists|j: int| 0 <= j < i && s[j] == '\n' {
        let j = choose|j: int| 0 <= j < i && s[j] == '\n';
        lemma_first_newline_exists(s, j);
    } else {
        assert(is_first_newline(s, i));
    }
}

/// The lines of `s` (split at `\n`), each trimmed of whitespace, concatenated.
pub open spec fn trimmed_lines(s: Seq<char>) -> Seq<char>
    decreases s.len(),
{
    if exists|i: int| is_first_newline(s, i) {
        let i = choose|i: int| is_first_newline(s, i);
        trim(s.subrange(0, i)) + trimmed_lines(s.subrange(i + 1, s.len() as int))
    } else {
        trim(s)
    }
}

/// The minified form of XML bytes: the text's lines trimmed and joined
/// (empty for bytes that are not UTF-8).
pub open spec fn xml_minified(xml: Seq<u8>) -> Seq<u8> {
    if valid_utf8(xml) { encode_utf8(trimmed_lines(decode_utf8(xml))) } else { seq![] }
}

proof fn lemma_trimmed_lines_step(s: Seq<char>, i: int)
    requires
        0 <= i < s.len(),
        s[i] == '\n',
        forall|j: int| 0 <= j < i ==> s[j] != '\n',
    ensures
        trimmed_lines(s) == trim(s.subrange(0, i)) + trimmed_lines(s.subrange(i + 1, s.len() as int)),
{
    assert(is_first_newline(s, i));
    let k = choose|k: int| is_first_newline(s, k);
    if k < i {
    } else if k > i {
        assert(s[i] != '\n');
    }
}

/// Minifies XML by trimming every line and dropping the line breaks.
fn minify_xml_inner(xml: &[u8]) -> (r: Vec<u8>)
    ensures
        r@ == xml_minified(xml@),
{
    let s = match utf8_to_string(xml) {
        Some(s) => s,
        None => return Vec::new(),
    };
    let v = to_chars(s.as_str());
    let n = v.len();
    let mut out: Vec<char> = Vec::new();
    let mut start: usize = 0;
    assert(v@.subrange(0, n as int) =~= v@);
    while start < n
        invariant
            start <= n == v@.len(),
            out@ + trimmed_lines(v@.subrange(start as int, n as int)) == trimmed_lines(v@),
        decreases n - start,
    {
        let mut i = start;
        while i < n && v[i] != '\n'
            invariant
                start <= i <= n == v@.len(),
                forall|j: int| start <= j < i ==> v@[j] != '\n',
            decreases n - i,
        {
            i = i + 1;
        }
        let line = slice_vec(&v, start, i);
        let t = trim_chars(&line);
        let ghost rest = v@.subrange(start as int, n as int);
        let ghost before = out@;
        push_all(&mut out, &t);
        if i < n {
            proof {
                assert(rest[i - start] == '\n');
                assert forall|j: int| 0 <= j < i - start implies rest[j] != '\n' by {
                    assert(rest[j] == v@[start + j]);
                }
                lemma_trimmed_lines_step(rest, i - start);
                assert(rest.subrange(0, i - start) =~= line@);
                assert(rest.subrange(i - start + 1, rest.len() as int) =~= v@.subrange(i + 1, n as int));
            }
            assert(before + (t@ + trimmed_lines(v@.subrange(i + 1, n as int))) =~= out@ + trimmed_lines(v@.subrange(i + 1, n as int)));
            start = i + 1;
        } else {
            proof {
                assert(!(exists|j: int| is_first_newline(rest, j))) by {
                    if exists|j: int| is_first_newline(rest, j) {
                        let j = choose|j: int| is_first_newline(rest, j);
                        assert(rest[j] == v@[start + j]);
                    }
                }
                assert(rest =~= line@);
                assert(v@.subrange(n as int, n as int) =~= Seq::<char>::empty());
                lemma_trimmed_lines_empty();
            }
            start = n;
        }
    }
    proof {
        assert(v@.subrange(n as int, n as int) =~= Seq::<char>::empty());
        lemma_trimmed_lines_empty();
        assert(out@ =~= trimmed_lines(v@));
    }
    string_bytes(from_chars(&out).as_str())
}

proof fn lemma_trimmed_lines_empty()
    ensures
        trimmed_lines(Seq::<char>::empty()) == Seq::<char>::empty(),
{
    assert(crate::utils::text::trim_start(Seq::<char>::empty()) == Seq::<char>::empty());
    assert(crate::utils::text::trim_end(Seq::<char>::empty()) == Seq::<char>::empty());
}

/// The result of minification: the content unchanged when minification is
/// off, otherwise the minified HTML or XML.
pub open spec fn minified(content: MinifyType, enabled: bool) -> Seq<u8> {
    match content {
        MinifyType::Html(h) => if enabled { html_minified(h@) } else { h@ },
        MinifyType::Xml(x) => if enabled { xml_minified(x@) } else { x@ },
    }
}

/// Minifies content according to its kind, when the configuration enables
/// it. HTML to minify must be UTF-8 (the HTML the compiler writes is).
pub fn minify(content: MinifyType, config: &SiteConfig) -> (r: Vec<u8>)
    requires
        config.build.minify ==> (content matches MinifyType::Html(h) ==> valid_utf8(h@)),
    ensures
        r@ == minified(content, config.build.minify),
{
    if !config.build.minify {
        match content {
            MinifyType::Html(html) => vstd::slice::slice_to_vec(html),
            MinifyType::Xml(xml) => vstd::slice::slice_to_vec(xml),
        }
    } else {
        match content {
            MinifyType::Html(html) => minify_html_inner(html),
            MinifyType::Xml(xml) => minify_xml_inner(xml),
        }
    }
}

} // verus!
