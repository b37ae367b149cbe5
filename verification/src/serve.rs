//! The development server's decisions: content types and directory listings.
//!
//! Reading directories and answering HTTP requests happen around the library;
//! here a listing is computed from the entries that were read.

use vstd::prelude::*;
use crate::utils::path::{extension, opt_view, parent, path_extension, path_parent};
use crate::utils::pattern::{replace_all, replaced_all};
use crate::utils::text::{
    ends_with, find_char, first_index_of, from_chars, has_prefix, has_suffix, push_all, slice_vec, starts_with, str_eq,
    to_chars, trim_start_char, trim_start_matches,
};
use crate::utils::typst::trim_end_slashes;
use crate::utils::meta::trim_end_slashes_exec;
use crate::utils::rss::{decimal, decimal_chars};
use crate::utils::path::{join, path_joined};

verus! {

// ============================================================================
// Content Type Detection
// ============================================================================

/// The MIME type served for a file extension.
pub open spec fn content_type_for(e: Seq<char>) -> Seq<char> {
    if e == "html"@ || e == "htm"@ {
        "text/html; charset=utf-8"@
    } else if e == "css"@ {
        "text/css; charset=utf-8"@
    } else if e == "js"@ || e == "mjs"@ {
        "application/javascript; charset=utf-8"@
    } else if e == "json"@ {
        "application/json; charset=utf-8"@
    } else if e == "xml"@ {
        "application/xml; charset=utf-8"@
    } else if e == "svg"@ {
        "image/svg+xml"@
    } else if e == "png"@ {
        "image/png"@
    } else if e == "jpg"@ || e == "jpeg"@ {
        "image/jpeg"@
    } else if e == "gif"@ {
        "image/gif"@
    } else if e == "webp"@ {
        "image/webp"@
    } else if e == "avif"@ {
        "image/avif"@
    } else if e == "ico"@ {
        "image/x-icon"@
    } else if e == "woff"@ {
        "font/woff"@
    } else if e == "woff2"@ {
        "font/woff2"@
    } else if e == "ttf"@ {
        "font/ttf"@
    } else if e == "otf"@ {
        "font/otf"@
    } else if e == "pdf"@ {
        "application/pdf"@
    } else if e == "txt"@ {
        "text/plain; charset=utf-8"@
    } else if e == "md"@ {
        "text/markdown; charset=utf-8"@
    } else {
        "application/octet-stream"@
    }
}

/// The MIME type served for a path: that of its extension, and
/// `application/octet-stream` for a path without one.
pub open spec fn content_type_of(path: Seq<char>) -> Seq<char> {
    match path_extension(path) {
        Some(e) => content_type_for(e),
        None => "application/octet-stream"@,
    }
}

fn content_type_for_ext(e: &str) -> (r: &'static str)
    ensures
        r@ == content_type_for(e@),
{
    if str_eq(e, "html") || str_eq(e, "htm") {
        "text/html; charset=utf-8"
    } else if str_eq(e, "css") {
        "text/css; charset=utf-8"
    } else if str_eq(e, "js") || str_eq(e, "mjs") {
        "application/javascript; charset=utf-8"
    } else if str_eq(e, "json") {
        "application/json; charset=utf-8"
    } else if str_eq(e, "xml") {
        "application/xml; charset=utf-8"
    } else if str_eq(e, "svg") {
        "image/svg+xml"
    } else if str_eq(e, "png") {
        "image/png"
    } else if str_eq(e, "jpg") || str_eq(e, "jpeg") {
        "image/jpeg"
    } else if str_eq(e, "gif") {
        "image/gif"
    } else if str_eq(e, "webp") {
        "image/webp"
    } else if str_eq(e, "avif") {
        "image/avif"
    } else if str_eq(e, "ico") {
        "image/x-icon"
    } else if str_eq(e, "woff") {
        "font/woff"
    } else if str_eq(e, "woff2") {
        "font/woff2"
    } else if str_eq(e, "ttf") {
        "font/ttf"
    } else if str_eq(e, "otf") {
        "font/otf"
    } else if str_eq(e, "pdf") {
        "application/pdf"
    } else if str_eq(e, "txt") {
        "text/plain; charset=utf-8"
    } else if str_eq(e, "md") {
        "text/markdown; charset=utf-8"
    } else {
        "application/octet-stream"
    }
}

/// Guesses the MIME type of a file from its extension;
/// `application/octet-stream` for unknown extensions.
pub fn guess_content_type(path: &str) -> (r: &'static str)
    ensures
        r@ == content_type_of(path@),
{
    match extension(path) {
        Some(e) => content_type_for_ext(e.as_str()),
        None => "application/octet-stream",
    }
}

// ============================================================================
// Directory Listing
// ============================================================================

/// Whether a directory entry is listed: not hidden (a name starting with
/// `.`), not the internal data directory, and a directory or an `.html` file.
pub open spec fn is_listed(name: Seq<char>, is_dir: bool, data_dir_name: Seq<char>) -> bool {
    !(has_prefix(name, seq!['.']) || name == data_dir_name) && (is_dir || has_suffix(
        name,
        ".html"@,
    ))
}

/// The link target of an entry of the directory at `request_path`.
pub open spec fn entry_href(name: Seq<char>, request_path: Seq<char>) -> Seq<char> {
    if request_path.len() == 0 {
        seq!['/'] + name
    } else {
        seq!['/'] + request_path + seq!['/'] + name
    }
}

/// The list item of an entry, with a folder or file icon.
pub open spec fn entry_line(name: Seq<char>, is_dir: bool, request_path: Seq<char>) -> Seq<char> {
    "<li><span class=\"icon\">"@ + (if is_dir {
        "\u{1F4C1}"@
    } else {
        "\u{1F4C4}"@
    }) + "</span><a href=\""@ + entry_href(name, request_path) + "\">"@ + name + "</a></li>"@
}

/// The list items of the listed entries, in the order of the entries.
pub open spec fn listing_lines(
    entries: Seq<(String, bool)>,
    request_path: Seq<char>,
    data_dir_name: Seq<char>,
) -> Seq<Seq<char>>
    decreases entries.len(),
{
    if entries.len() == 0 {
        seq![]
    } else {
        let rest = listing_lines(entries.drop_last(), request_path, data_dir_name);
        let e = entries.last();
        if is_listed(e.0@, e.1, data_dir_name) {
            rest.push(entry_line(e.0@, e.1, request_path))
        } else {
            rest
        }
    }
}

/// The lines joined with `sep` between them.
pub open spec fn join_lines(ls: Seq<Seq<char>>, sep: Seq<char>) -> Seq<char>
    decreases ls.len(),
{
    if ls.len() == 0 {
        seq![]
    } else if ls.len() == 1 {
        ls[0]
    } else {
        join_lines(ls.drop_last(), sep) + sep + ls.last()
    }
}

/// The link to the parent directory: none at the root, else a list item
/// pointing at the parent of the request path (`/` when it has none).
pub open spec fn parent_link_of(request_path: Seq<char>) -> Seq<char> {
    if request_path.len() == 0 {
        seq![]
    } else {
        let pp = match path_parent(request_path) {
            Some(p) => p,
            None => seq![],
        };
        let href = if pp.len() == 0 {
            seq!['/']
        } else {
            seq!['/'] + pp
        };
        "<li class=\"parent\"><span class=\"icon\">\u{1F4C2}</span><a href=\""@ + href
            + "\">..</a></li>"@
    }
}

/// The separator between list items in a listing.
pub open spec fn entry_separator() -> Seq<char> {
    "\n            "@
}

/// The page served for a directory: the welcome page when no entry is
/// listed, else the directory template with the path, the parent link and
/// the list items filled in.
pub open spec fn directory_page(
    entries: Seq<(String, bool)>,
    request_path: Seq<char>,
    data_dir_name: Seq<char>,
    directory_template: Seq<char>,
    welcome_template: Seq<char>,
    version: Seq<char>,
) -> Seq<char> {
    let lines = listing_lines(entries, request_path, data_dir_name);
    if lines.len() == 0 {
        replaced_all(replaced_all(welcome_template, "{title}"@, "Welcome"@), "{version}"@, version)
    } else {
        replaced_all(
            replaced_all(
                replaced_all(directory_template, "{path}"@, request_path),
                "{parent_link}"@,
                parent_link_of(request_path),
            ),
            "{entries}"@,
            join_lines(lines, entry_separator()),
        )
    }
}

fn append_str(out: &mut Vec<char>, s: &str)
    ensures
        final(out)@ == old(out)@ + s@,
{
    let v = to_chars(s);
    push_all(out, &v);
}

fn is_listed_exec(name: &str, is_dir: bool, data_dir_name: &str) -> (b: bool)
    ensures
        b == is_listed(name@, is_dir, data_dir_name@),
{
    let n = to_chars(name);
    let dot: Vec<char> = vec!['.'];
    assert(dot@ =~= seq!['.']);
    let html = to_chars(".html");
    let hidden = starts_with(&n, &dot) || str_eq(name, data_dir_name);
    !hidden && (is_dir || ends_with(&n, &html))
}

fn entry_line_exec(name: &str, is_dir: bool, request_path: &str) -> (r: Vec<char>)
    ensures
        r@ == entry_line(name@, is_dir, request_path@),
{
    let mut out: Vec<char> = Vec::new();
    append_str(&mut out, "<li><span class=\"icon\">");
    if is_dir {
        append_str(&mut out, "\u{1F4C1}");
    } else {
        append_str(&mut out, "\u{1F4C4}");
    }
    append_str(&mut out, "</span><a href=\"");
    out.push('/');
    if to_chars(request_path).len() > 0 {
        append_str(&mut out, request_path);
        out.push('/');
    }
    append_str(&mut out, name);
    append_str(&mut out, "\">");
    append_str(&mut out, name);
    append_str(&mut out, "</a></li>");
    assert(out@ =~= entry_line(name@, is_dir, request_path@));
    out
}

/// The link to the parent directory of `request_path` (empty at the root).
pub fn parent_link(request_path: &str) -> (r: String)
    ensures
        r@ == parent_link_of(request_path@),
{
    let mut out: Vec<char> = Vec::new();
    if to_chars(request_path).len() == 0 {
        return from_chars(&out);
    }
    let pp = match parent(request_path) {
        Some(p) => p,
        None => String::new(),
    };
    append_str(&mut out, "<li class=\"parent\"><span class=\"icon\">\u{1F4C2}</span><a href=\"");
    out.push('/');
    append_str(&mut out, pp.as_str());
    append_str(&mut out, "\">..</a></li>");
    assert(out@ =~= parent_link_of(request_path@));
    from_chars(&out)
}

/// Renders the page for a served directory from its entries (name and
/// whether it is a directory, in the order they were read) and the two page
/// templates.
pub fn directory_listing(
    entries: &[(String, bool)],
    request_path: &str,
    data_dir_name: &str,
    directory_template: &str,
    welcome_template: &str,
    version: &str,
) -> (r: String)
    ensures
        r@ == directory_page(
            entries@,
            request_path@,
            data_dir_name@,
            directory_template@,
            welcome_template@,
            version@,
        ),
{
    let mut joined: Vec<char> = Vec::new();
    let mut count: usize = 0;
    let mut i: usize = 0;
    while i < entries.len()
        invariant
            i <= entries@.len(),
            count == listing_lines(entries@.subrange(0, i as int), request_path@, data_dir_name@).len(),
            joined@ == join_lines(
                listing_lines(entries@.subrange(0, i as int), request_path@, data_dir_name@),
                entry_separator(),
            ),
            count <= i,
        decreases entries@.len() - i,
    {
        let ghost pre = entries@.subrange(0, i + 1);
        assert(pre.drop_last() =~= entries@.subrange(0, i as int));
        let e = &entries[i];
        let ghost ls = listing_lines(entries@.subrange(0, i as int), request_path@, data_dir_name@);
        assert(pre.last() == entries@[i as int]);
        if is_listed_exec(e.0.as_str(), e.1, data_dir_name) {
            let line = entry_line_exec(e.0.as_str(), e.1, request_path);
            let ghost before = joined@;
            if count > 0 {
                append_str(&mut joined, "\n            ");
            }
            push_all(&mut joined, &line);
            proof {
                let ls2 = ls.push(line@);
                assert(ls2.drop_last() =~= ls);
                assert(listing_lines(pre, request_path@, data_dir_name@) == ls2);
                if count == 0 {
                    assert(ls.len() == 0);
                    assert(joined@ =~= join_lines(ls2, entry_separator()));
                } else {
                    assert(joined@ =~= join_lines(ls2, entry_separator()));
                }
            }
            count = count + 1;
        }
        i = i + 1;
    }
    assert(entries@.subrange(0, entries@.len() as int) =~= entries@);
    proof {
        reveal_strlit("{title}");
        reveal_strlit("{version}");
        reveal_strlit("{path}");
        reveal_strlit("{parent_link}");
        reveal_strlit("{entries}");
    }
    if count == 0 {
        let t = replace_all(welcome_template, "{title}", "Welcome");
        replace_all(t.as_str(), "{version}", version)
    } else {
        let joined_s = from_chars(&joined);
        let pl = parent_link(request_path);
        let t1 = replace_all(directory_template, "{path}", request_path);
        let t2 = replace_all(t1.as_str(), "{parent_link}", pl.as_str());
        replace_all(t2.as_str(), "{entries}", joined_s.as_str())
    }
}


// ============================================================================
// Request Paths
// ============================================================================

/// What `urlencoding::decode` gives for a text: the text with its `%XX`
/// escapes decoded, or `None` when the decoded bytes are not UTF-8.
pub uninterp spec fn url_decoded(s: Seq<char>) -> Option<Seq<char>>;

/// Decodes `%XX` escapes with `urlencoding::decode`.
#[verifier::external_body]
fn url_decode(s: &str) -> (r: Option<String>)
    ensures
        opt_view(r) == url_decoded(s@),
{
    urlencoding::decode(s).ok().map(|c| c.into_owned())
}

/// The path that a request URL asks for below the served directory: the
/// URL decoded (empty when it does not decode), without its query string,
/// without leading and trailing slashes.
pub open spec fn request_path_of(url: Seq<char>) -> Seq<char> {
    let decoded = match url_decoded(url) {
        Some(d) => d,
        None => seq![],
    };
    let path = match first_index_of(decoded, '?') {
        Some(i) => decoded.subrange(0, i),
        None => decoded,
    };
    trim_end_slashes(trim_start_matches(path, '/'))
}

/// The path that a request URL asks for below the served directory.
pub fn request_path(url: &str) -> (r: String)
    ensures
        r@ == request_path_of(url@),
{
    let decoded = match url_decode(url) {
        Some(d) => to_chars(d.as_str()),
        None => Vec::new(),
    };
    let path = match find_char(&decoded, '?') {
        Some(i) => slice_vec(&decoded, 0, i),
        None => decoded,
    };
    from_chars(&trim_end_slashes_exec(&trim_start_char(&path, '/')))
}

/// The file a request URL asks for: the request path joined to the served
/// directory, with the request path itself.
pub fn request_target(serve_root: &str, url: &str) -> (r: (String, String))
    ensures
        r.0@ == request_path_of(url@),
        r.1@ == path_joined(serve_root@, request_path_of(url@)),
{
    let path = request_path(url);
    let local = join(serve_root, path.as_str());
    (path, local)
}

// ============================================================================
// Port binding
// ============================================================================

/// The port tried at attempt `offset` from `base`, held at the largest port.
pub open spec fn port_at(base: u16, offset: u16) -> u16 {
    if base + offset > u16::MAX { u16::MAX } else { (base + offset) as u16 }
}

/// What follows one attempt to bind the server to a port.
#[derive(Debug, PartialEq, Eq)]
pub enum BindNext {
    /// Serve on this port; `note` says so when the first port was taken.
    Bound { port: u16, note: Option<String> },
    /// Try the next port.
    Retry,
    /// Give up, with this message.
    GiveUp(String),
}

/// The note shown when the server had to move off the first port.
pub open spec fn moved_note(base: u16, port: u16) -> Seq<char> {
    "port "@ + decimal(base as nat) + " in use, using "@ + decimal(port as nat) + " instead"@
}

/// The message when every attempt failed.
pub open spec fn give_up_text(max_retries: u16, base: u16, port: u16, error: Seq<char>) -> Seq<char> {
    "Failed to bind after "@ + decimal(max_retries as nat) + " attempts (ports "@ + decimal(base as nat) + "-"@
        + decimal(port as nat) + "): "@ + error
}

/// Decides what follows the attempt `offset` (of `max_retries`) to bind to
/// the port `port_at(base, offset)`: serve there when binding worked (with a
/// note when this is not the first port), otherwise try the next port, or
/// give up after the last attempt with the binding error.
pub fn bind_next(base: u16, offset: u16, max_retries: u16, bound: bool, error: &str) -> (r: BindNext)
    requires
        offset < max_retries,
    ensures
        bound ==> r is Bound && r->port == port_at(base, offset),
        bound && offset == 0 ==> r->note is None,
        bound && offset > 0 ==> r->note is Some && r->note->0@ == moved_note(base, port_at(base, offset)),
        !bound && offset + 1 < max_retries ==> r is Retry,
        !bound && offset + 1 >= max_retries ==> (r is GiveUp && r->GiveUp_0@ == give_up_text(
            max_retries,
            base,
            port_at(base, offset),
            error@,
        )),
{
    let port = base.saturating_add(offset);
    if bound {
        if offset > 0 {
            let mut t = to_chars("port ");
            push_all(&mut t, &decimal_chars(base as u64));
            push_all(&mut t, &to_chars(" in use, using "));
            push_all(&mut t, &decimal_chars(port as u64));
            push_all(&mut t, &to_chars(" instead"));
            BindNext::Bound { port, note: Some(from_chars(&t)) }
        } else {
            BindNext::Bound { port, note: None }
        }
    } else if offset + 1 < max_retries {
        BindNext::Retry
    } else {
        let mut t = to_chars("Failed to bind after ");
        push_all(&mut t, &decimal_chars(max_retries as u64));
        push_all(&mut t, &to_chars(" attempts (ports "));
        push_all(&mut t, &decimal_chars(base as u64));
        push_all(&mut t, &to_chars("-"));
        push_all(&mut t, &decimal_chars(port as u64));
        push_all(&mut t, &to_chars("): "));
        push_all(&mut t, &to_chars(error));
        BindNext::GiveUp(from_chars(&t))
    }
}

} // verus!
