//! What the compression of extracted SVGs logs.

use vstd::prelude::*;
use crate::config::SiteConfig;
use crate::utils::path::{path_stripped, strip_prefix};
use crate::utils::text::{ends_with, from_chars, has_suffix, slice_vec, to_chars};

verus! {

/// `s` without every trailing repetition of `p` (unchanged when `p` is
/// empty).
pub open spec fn trim_end_matches(s: Seq<char>, p: Seq<char>) -> Seq<char>
    decreases s.len(),
{
    if p.len() > 0 && has_suffix(s, p) {
        trim_end_matches(s.subrange(0, s.len() - p.len()), p)
    } else {
        s
    }
}

/// The prefix of the log lines for the SVGs of a page: the page's path in
/// the output directory without its trailing `index.html`; empty when the
/// page lies outside the output directory.
pub open spec fn log_prefix(html_path: Seq<char>, output: Seq<char>) -> Seq<char> {
    let rel = match path_stripped(html_path, output) {
        Some(r) => r,
        None => seq![],
    };
    trim_end_matches(rel, "index.html"@)
}

/// `v` without every trailing repetition of `p`.
fn trim_end_all(v: &Vec<char>, p: &Vec<char>) -> (r: Vec<char>)
    ensures
        r@ == trim_end_matches(v@, p@),
{
    let mut cur = slice_vec(v, 0, v.len());
    assert(cur@ =~= v@);
    if p.len() == 0 {
        return cur;
    }
    while ends_with(&cur, p)
        invariant
            p@.len() > 0,
            trim_end_matches(cur@, p@) == trim_end_matches(v@, p@),
        decreases cur@.len(),
    {
        cur = slice_vec(&cur, 0, cur.len() - p.len());
    }
    cur
}

/// The prefix of the log lines for the SVGs of the page at `html_path`.
pub fn get_log_prefix(html_path: &str, config: &SiteConfig) -> (r: String)
    ensures
        r@ == log_prefix(html_path@, config.build.output@),
{
    let rel = match strip_prefix(html_path, config.build.output.as_str()) {
        Some(r) => to_chars(r.as_str()),
        None => Vec::new(),
    };
    let suffix = to_chars("index.html");
    from_chars(&trim_end_all(&rel, &suffix))
}

} // verus!
