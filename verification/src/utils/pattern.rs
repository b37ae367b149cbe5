//! Regular expressions (through the `regex` crate) and literal replacement.

use vstd::prelude::*;
use crate::utils::text::{has_prefix, matches_at, push_all, to_chars, from_chars};

verus! {

/// Whether the regular expression `pattern` compiles and matches somewhere in `text`
/// (`Regex::new(pattern)` followed by `Regex::is_match(text)`).
pub uninterp spec fn regex_matches(pattern: Seq<char>, text: Seq<char>) -> bool;

/// The text that `Regex::replace_all(text, replacement)` returns for the
/// compiled `pattern` (the text unchanged when the pattern does not compile).
pub uninterp spec fn regex_replaced(pattern: Seq<char>, text: Seq<char>, replacement: Seq<char>) -> Seq<char>;

/// Compiles `pattern` with `regex::Regex::new` and tests `text` with
/// `Regex::is_match`; false when the pattern does not compile. The contract
/// names the result.
#[verifier::external_body]
pub(crate) fn regex_is_match(pattern: &str, text: &str) -> (r: bool)
    ensures
        r == regex_matches(pattern@, text@),
{
    regex::Regex::new(pattern).is_ok_and(|re| re.is_match(text))
}

/// Whether `c` is in the class `[0-9;]`.
pub open spec fn sgr_param(c: char) -> bool {
    ('0' <= c && c <= '9') || c == ';'
}

/// The length of the run of `[0-9;]` characters that `s` starts with.
pub open spec fn param_run(s: Seq<char>) -> nat
    decreases s.len(),
{
    if s.len() > 0 && sgr_param(s[0]) {
        1 + param_run(s.drop_first())
    } else {
        0
    }
}

/// The length of the colour escape sequence `ESC [ [0-9;]* m` that `s`
/// starts with, if it starts with one.
pub open spec fn escape_at(s: Seq<char>) -> Option<nat> {
    if s.len() >= 2 && s[0] == '\u{1b}' && s[1] == '[' && 2 + param_run(s.subrange(2, s.len() as int)) < s.len()
        && s[2 + param_run(s.subrange(2, s.len() as int)) as int] == 'm' {
        Some(3 + param_run(s.subrange(2, s.len() as int)))
    } else {
        None
    }
}

/// `s` with every colour escape sequence `ESC [ [0-9;]* m` removed,
/// scanning from the left (the sequences do not overlap, and the greedy run
/// can only end where the `m` is).
pub open spec fn ansi_free(s: Seq<char>) -> Seq<char>
    decreases s.len(),
{
    if s.len() == 0 {
        s
    } else {
        match escape_at(s) {
            Some(n) => ansi_free(s.subrange(n as int, s.len() as int)),
            None => seq![s[0]] + ansi_free(s.drop_first()),
        }
    }
}

/// Compiles `pattern` with `regex::Regex::new` and applies
/// `Regex::replace_all(text, replacement)`; the text unchanged when the
/// pattern does not compile. The contract names the result; for the
/// colour-escape pattern `\x1b\[[0-9;]*m` with an empty replacement it
/// states it: the text without those sequences, matched leftmost first.
#[verifier::external_body]
pub(crate) fn regex_replace_all(pattern: &str, text: &str, replacement: &str) -> (r: String)
    ensures
        r@ == regex_replaced(pattern@, text@, replacement@),
        pattern@ == crate::utils::exec::ANSI_PATTERN@ && replacement@ == ""@ ==> r@ == ansi_free(text@),
{
    match regex::Regex::new(pattern) {
        Ok(re) => re.replace_all(text, replacement).into_owned(),
        Err(_) => text.to_owned(),
    }
}

/// `s` with every non-overlapping occurrence of `pat`, scanning from the left,
/// replaced by `rep` (what `str::replace` returns for a non-empty pattern).
pub open spec fn replaced_all(s: Seq<char>, pat: Seq<char>, rep: Seq<char>) -> Seq<char>
    recommends
        pat.len() > 0,
    decreases s.len(),
{
    if s.len() == 0 || pat.len() == 0 {
        s
    } else if has_prefix(s, pat) {
        rep + replaced_all(s.subrange(pat.len() as int, s.len() as int), pat, rep)
    } else {
        seq![s[0]] + replaced_all(s.drop_first(), pat, rep)
    }
}

proof fn lemma_replaced_step(s: Seq<char>, i: int, pat: Seq<char>, rep: Seq<char>)
    requires
        0 <= i < s.len(),
        pat.len() > 0,
    ensures
        has_prefix(s.subrange(i, s.len() as int), pat) ==> i + pat.len() <= s.len() && replaced_all(s.subrange(i, s.len() as int), pat, rep)
            == rep + replaced_all(s.subrange(i + pat.len(), s.len() as int), pat, rep),
        !has_prefix(s.subrange(i, s.len() as int), pat) ==> replaced_all(s.subrange(i, s.len() as int), pat, rep)
            == seq![s[i]] + replaced_all(s.subrange(i + 1, s.len() as int), pat, rep),
{
    let sub = s.subrange(i, s.len() as int);
    assert(sub.subrange(pat.len() as int, sub.len() as int) =~= s.subrange(i + pat.len(), s.len() as int)
        || pat.len() > sub.len());
    assert(sub.drop_first() =~= s.subrange(i + 1, s.len() as int));
}

/// Replaces every non-overlapping occurrence of `pat` (non-empty) with `rep`,
/// scanning from the left.
pub fn replace_all(s: &str, pat: &str, rep: &str) -> (r: String)
    requires
        pat@.len() > 0,
    ensures
        r@ == replaced_all(s@, pat@, rep@),
{
    let v = to_chars(s);
    let p = to_chars(pat);
    let rv = to_chars(rep);
    let n = v.len();
    let mut out: Vec<char> = Vec::new();
    let mut i: usize = 0;
    assert(v@.subrange(0, n as int) =~= v@);
    while i < n
        invariant
            i <= n == v@.len(),
            p@ == pat@,
            p@.len() > 0,
            rv@ == rep@,
            out@ + replaced_all(v@.subrange(i as int, n as int), p@, rv@) == replaced_all(v@, p@, rv@),
        decreases n - i,
    {
        proof { lemma_replaced_step(v@, i as int, p@, rv@); }
        if matches_at(&v, &p, i) {
            assert(has_prefix(v@.subrange(i as int, n as int), p@)) by {
                assert(v@.subrange(i as int, n as int).subrange(0, p@.len() as int) =~= v@.subrange(i as int, i + p@.len()));
            }
            let ghost before = out@;
            push_all(&mut out, &rv);
            assert(before + (rv@ + replaced_all(v@.subrange(i + p@.len(), n as int), p@, rv@))
                =~= out@ + replaced_all(v@.subrange(i + p@.len(), n as int), p@, rv@));
            i = i + p.len();
        } else {
            assert(!has_prefix(v@.subrange(i as int, n as int), p@)) by {
                if has_prefix(v@.subrange(i as int, n as int), p@) {
                    assert(v@.subrange(i as int, n as int).subrange(0, p@.len() as int) =~= v@.subrange(i as int, i + p@.len()));
                }
            }
            let ghost before = out@;
            out.push(v[i]);
            assert(before + (seq![v@[i as int]] + replaced_all(v@.subrange(i + 1, n as int), p@, rv@))
                =~= out@ + replaced_all(v@.subrange(i + 1, n as int), p@, rv@));
            i = i + 1;
        }
    }
    assert(v@.subrange(n as int, n as int) =~= Seq::<char>::empty());
    assert(out@ + replaced_all(Seq::<char>::empty(), p@, rv@) =~= out@);
    from_chars(&out)
}

} // verus!
