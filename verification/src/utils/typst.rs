//! Typst content elements (as `typst query` reports them) and their HTML form.

use vstd::prelude::*;
use vstd::string::StringExecFns;
use crate::utils::text::{from_chars, push_all, slice_vec, to_chars};

verus! {

/// A parsed Typst content element.
#[derive(Debug, PartialEq, Eq)]
pub enum TypstElement {
    Space,
    Linebreak,
    Text { text: String },
    Strike { text: String },
    Link { dest: String, body: Box<TypstElement> },
    Sequence { children: Vec<TypstElement> },
    Unknown,
}

/// The HTML escape of one character.
pub open spec fn escape_char(c: char) -> Seq<char> {
    if c == '<' {
        "&lt;"@
    } else if c == '>' {
        "&gt;"@
    } else if c == '&' {
        "&amp;"@
    } else if c == '"' {
        "&quot;"@
    } else {
        seq![c]
    }
}

/// `s` with `<`, `>`, `&` and `"` escaped.
pub open spec fn escaped(s: Seq<char>) -> Seq<char>
    decreases s.len(),
{
    if s.len() == 0 { seq![] } else { escaped(s.drop_last()) + escape_char(s.last()) }
}

/// Escapes the HTML special characters `<`, `>`, `&` and `"`.
pub fn html_escape(s: &str) -> (r: String)
    ensures
        r@ == escaped(s@),
{
    let v = to_chars(s);
    let mut out: Vec<char> = Vec::new();
    let mut i: usize = 0;
    proof {
        reveal_strlit("&lt;");
        reveal_strlit("&gt;");
        reveal_strlit("&amp;");
        reveal_strlit("&quot;");
    }
    while i < v.len()
        invariant
            i <= v@.len(),
            v@ == s@,
            out@ == escaped(v@.subrange(0, i as int)),
        decreases v.len() - i,
    {
        let c = v[i];
        let ghost before = out@;
        if c == '<' {
            push_all(&mut out, &to_chars("&lt;"));
        } else if c == '>' {
            push_all(&mut out, &to_chars("&gt;"));
        } else if c == '&' {
            push_all(&mut out, &to_chars("&amp;"));
        } else if c == '"' {
            push_all(&mut out, &to_chars("&quot;"));
        } else {
            out.push(c);
        }
        assert(v@.subrange(0, i + 1).drop_last() =~= v@.subrange(0, i as int));
        i = i + 1;
        assert(out@ =~= escaped(v@.subrange(0, i as int)));
    }
    assert(v@.subrange(0, i as int) =~= v@);
    from_chars(&out)
}

/// `s` without leading `.` and `/` characters.
pub open spec fn trim_dots_slashes(s: Seq<char>) -> Seq<char>
    decreases s.len(),
{
    if s.len() > 0 && (s[0] == '.' || s[0] == '/') { trim_dots_slashes(s.drop_first()) } else { s }
}

/// `s` without trailing `/` characters.
pub open spec fn trim_end_slashes(s: Seq<char>) -> Seq<char>
    decreases s.len(),
{
    if s.len() > 0 && s.last() == '/' { trim_end_slashes(s.drop_last()) } else { s }
}

/// A link destination made absolute: one starting with `.` or `/` is put
/// under the base URL, others are kept.
pub open spec fn normalized_link(dest: Seq<char>, base_url: Seq<char>) -> Seq<char> {
    if dest.len() > 0 && (dest[0] == '.' || dest[0] == '/') {
        trim_end_slashes(base_url) + seq!['/'] + trim_dots_slashes(dest)
    } else {
        dest
    }
}

/// Normalizes relative links to absolute URLs under `base_url`.
pub fn normalize_link(dest: &str, base_url: &str) -> (r: String)
    ensures
        r@ == normalized_link(dest@, base_url@),
{
    let d = to_chars(dest);
    if d.len() > 0 && (d[0] == '.' || d[0] == '/') {
        let n = d.len();
        let mut i: usize = 0;
        assert(d@.subrange(0, n as int) =~= d@);
        while i < n && (d[i] == '.' || d[i] == '/')
            invariant
                i <= n == d@.len(),
                trim_dots_slashes(d@) == trim_dots_slashes(d@.subrange(i as int, n as int)),
            decreases n - i,
        {
            assert(d@.subrange(i as int, n as int).drop_first() =~= d@.subrange(i + 1, n as int));
            i = i + 1;
        }
        proof {
            if i < n {
                assert(d@.subrange(i as int, n as int)[0] == d@[i as int]);
            }
        }
        let path = slice_vec(&d, i, n);
        let b = to_chars(base_url);
        let mut j: usize = b.len();
        assert(b@.subrange(0, j as int) =~= b@);
        while j > 0 && b[j - 1] == '/'
            invariant
                j <= b@.len(),
                trim_end_slashes(b@) == trim_end_slashes(b@.subrange(0, j as int)),
            decreases j,
        {
            assert(b@.subrange(0, j as int).drop_last() =~= b@.subrange(0, j - 1));
            j = j - 1;
        }
        proof {
            if j > 0 {
                assert(b@.subrange(0, j as int).last() == b@[j - 1]);
            }
        }
        let mut out = slice_vec(&b, 0, j);
        out.push('/');
        push_all(&mut out, &path);
        from_chars(&out)
    } else {
        dest.to_owned()
    }
}

/// The HTML form of a Typst element.
pub open spec fn element_html(e: TypstElement, base_url: Seq<char>) -> Seq<char>
    decreases e, 1nat,
{
    match e {
        TypstElement::Space => " "@,
        TypstElement::Linebreak => "<br/>"@,
        TypstElement::Text { text } => escaped(text@),
        TypstElement::Strike { text } => "<s>"@ + escaped(text@) + "</s>"@,
        TypstElement::Link { dest, body } => "<a href=\""@ + normalized_link(dest@, base_url) + "\">"@
            + element_html(*body, base_url) + "</a>"@,
        TypstElement::Sequence { children } => children_html(children@, base_url, children@.len() as int),
        TypstElement::Unknown => seq![],
    }
}

/// The HTML of the first `n` children, concatenated.
pub open spec fn children_html(children: Seq<TypstElement>, base_url: Seq<char>, n: int) -> Seq<char>
    decreases children, 0nat, n,
{
    if n <= 0 || n > children.len() {
        seq![]
    } else {
        children_html(children, base_url, n - 1) + element_html(children[n - 1], base_url)
    }
}

impl TypstElement {
    /// Converts the element to an HTML string; relative link destinations
    /// are put under `base_url`.
    pub fn to_html(&self, base_url: &str) -> (r: String)
        ensures
            r@ == element_html(*self, base_url@),
        decreases self,
    {
        match self {
            TypstElement::Space => String::from_str(" "),
            TypstElement::Linebreak => String::from_str("<br/>"),
            TypstElement::Text { text } => html_escape(text.as_str()),
            TypstElement::Strike { text } => {
                let mut out = to_chars("<s>");
                push_all(&mut out, &to_chars(html_escape(text.as_str()).as_str()));
                push_all(&mut out, &to_chars("</s>"));
                from_chars(&out)
            },
            TypstElement::Link { dest, body } => {
                let href = normalize_link(dest.as_str(), base_url);
                let mut out = to_chars("<a href=\"");
                push_all(&mut out, &to_chars(href.as_str()));
                push_all(&mut out, &to_chars("\">"));
                let inner = body.to_html(base_url);
                push_all(&mut out, &to_chars(inner.as_str()));
                push_all(&mut out, &to_chars("</a>"));
                from_chars(&out)
            },
            TypstElement::Sequence { children } => {
                let mut out: Vec<char> = Vec::new();
                let mut i: usize = 0;
                while i < children.len()
                    invariant
                        i <= children@.len(),
                        out@ == children_html(children@, base_url@, i as int),
                        *self == (TypstElement::Sequence { children: *children }),
                    decreases children.len() - i,
                {
                    proof {
                        let ghost e = *self;
                        let ghost cs = *children;
                        assert(decreases_to!(e => e->children));
                        assert(decreases_to!(cs => cs@));
                        assert(decreases_to!(cs@ => cs@[i as int]));
                        assert(decreases_to!(e => cs@[i as int]));
                    }
                    let h = children[i].to_html(base_url);
                    push_all(&mut out, &to_chars(h.as_str()));
                    i = i + 1;
                }
                from_chars(&out)
            },
            TypstElement::Unknown => String::new(),
        }
    }
}

} // verus!
