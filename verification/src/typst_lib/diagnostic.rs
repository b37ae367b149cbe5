//! Diagnostics of Typst compilations: counting, filtering and the layout of
//! source snippets for display.
//!
//! A diagnostic is held as the plain values the logic reads: its severity,
//! its message and its hints. Source locations are resolved by the compiler
//! into [`SpanLocation`]s.

use vstd::prelude::*;
use crate::utils::log::{count_digits, decimal_len};
use crate::utils::platform::contains_str;
use crate::utils::exec::{split_lines, text_lines};
use crate::utils::text::{contains_seq, from_chars, slice_vec, to_chars};

verus! {

/// Severity of a diagnostic.
#[derive(Clone, Copy, Debug, PartialEq, Eq, Structural)]
pub enum Severity {
    Error,
    Warning,
}

/// A compilation diagnostic.
#[derive(Clone, Debug)]
pub struct Diagnostic {
    pub severity: Severity,
    pub message: String,
    pub hints: Vec<String>,
}

impl Diagnostic {
    /// An error with a message.
    pub fn error(message: &str) -> (r: Diagnostic)
        ensures
            r.severity == Severity::Error,
            r.message@ == message@,
            r.hints@.len() == 0,
    {
        Diagnostic { severity: Severity::Error, message: message.to_owned(), hints: Vec::new() }
    }

    /// A warning with a message.
    pub fn warning(message: &str) -> (r: Diagnostic)
        ensures
            r.severity == Severity::Warning,
            r.message@ == message@,
            r.hints@.len() == 0,
    {
        Diagnostic { severity: Severity::Warning, message: message.to_owned(), hints: Vec::new() }
    }
}

/// The number of diagnostics among the first `n` with the given severity.
pub open spec fn count_of(d: Seq<Diagnostic>, sev: Severity, n: int) -> nat
    decreases n,
{
    if n <= 0 {
        0
    } else {
        count_of(d, sev, n - 1) + if d[n - 1].severity == sev { 1nat } else { 0nat }
    }
}

proof fn lemma_count_le(d: Seq<Diagnostic>, sev: Severity, n: int)
    requires
        0 <= n,
    ensures
        count_of(d, sev, n) <= n,
    decreases n,
{
    if n > 0 {
        lemma_count_le(d, sev, n - 1);
    }
}

/// Counts the errors and the warnings in a list of diagnostics.
pub fn count_diagnostics(diagnostics: &[Diagnostic]) -> (r: (usize, usize))
    ensures
        r.0 == count_of(diagnostics@, Severity::Error, diagnostics@.len() as int),
        r.1 == count_of(diagnostics@, Severity::Warning, diagnostics@.len() as int),
{
    let mut errors: usize = 0;
    let mut warnings: usize = 0;
    let mut i: usize = 0;
    while i < diagnostics.len()
        invariant
            i <= diagnostics@.len(),
            errors == count_of(diagnostics@, Severity::Error, i as int),
            warnings == count_of(diagnostics@, Severity::Warning, i as int),
        decreases diagnostics.len() - i,
    {
        proof {
            lemma_count_le(diagnostics@, Severity::Error, i as int);
            lemma_count_le(diagnostics@, Severity::Warning, i as int);
        }
        match diagnostics[i].severity {
            Severity::Error => { errors = errors + 1; },
            Severity::Warning => { warnings = warnings + 1; },
        }
        i = i + 1;
    }
    (errors, warnings)
}

/// Whether any diagnostic is an error.
pub open spec fn any_error(d: Seq<Diagnostic>) -> bool {
    exists|i: int| 0 <= i < d.len() && (#[trigger] d[i]).severity == Severity::Error
}

/// Checks whether there are any errors in the diagnostics.
pub fn has_errors(diagnostics: &[Diagnostic]) -> (r: bool)
    ensures
        r == any_error(diagnostics@),
{
    let mut i: usize = 0;
    while i < diagnostics.len()
        invariant
            i <= diagnostics@.len(),
            forall|k: int| 0 <= k < i ==> (#[trigger] diagnostics@[k]).severity != Severity::Error,
        decreases diagnostics.len() - i,
    {
        if diagnostics[i].severity == Severity::Error {
            return true;
        }
        i = i + 1;
    }
    false
}

/// The warning that Typst's experimental HTML export always emits.
pub const HTML_EXPORT_WARNING: &'static str = "html export is under active development";

/// Whether a diagnostic is kept when HTML export warnings are filtered:
/// errors always, warnings unless they are the HTML export warning.
pub open spec fn kept(d: Diagnostic) -> bool {
    d.severity == Severity::Error || !contains_seq(d.message@, HTML_EXPORT_WARNING@)
}

/// The diagnostics among the first `n` that are kept, in order.
pub open spec fn kept_prefix(d: Seq<Diagnostic>, n: int) -> Seq<Diagnostic>
    decreases n,
{
    if n <= 0 {
        seq![]
    } else if kept(d[n - 1]) {
        kept_prefix(d, n - 1).push(d[n - 1])
    } else {
        kept_prefix(d, n - 1)
    }
}

/// Whether two diagnostics agree in severity, message and hints.
pub open spec fn same_diagnostic(a: Diagnostic, b: Diagnostic) -> bool {
    a.severity == b.severity && a.message@ == b.message@
        && a.hints@.map_values(|h: String| h@) == b.hints@.map_values(|h: String| h@)
}

/// Filtering keeps exactly the errors and the warnings that do not mention
/// the HTML export warning, in the order of the input: the kept diagnostics
/// are the input filtered by that condition.
pub proof fn law_html_warning_filtered(d: Seq<Diagnostic>, n: int)
    requires
        0 <= n <= d.len(),
    ensures
        kept_prefix(d, n) == d.subrange(0, n).filter(
            |x: Diagnostic| x.severity == Severity::Error || !contains_seq(x.message@, HTML_EXPORT_WARNING@),
        ),
    decreases n,
{
    reveal(Seq::filter);
    if n > 0 {
        law_html_warning_filtered(d, n - 1);
        assert(d.subrange(0, n).drop_last() =~= d.subrange(0, n - 1));
        assert(d.subrange(0, n).last() == d[n - 1]);
    } else {
        assert(d.subrange(0, n) =~= Seq::<Diagnostic>::empty());
    }
}

fn clone_diagnostic(d: &Diagnostic) -> (r: Diagnostic)
    ensures
        same_diagnostic(*d, r),
{
    Diagnostic {
        severity: d.severity,
        message: d.message.clone(),
        hints: crate::utils::category::clone_strings(&d.hints),
    }
}

/// Filters out the HTML export warning, keeping all errors and all other warnings.
pub fn filter_html_warnings(diagnostics: &[Diagnostic]) -> (r: Vec<Diagnostic>)
    ensures
        r@.len() == kept_prefix(diagnostics@, diagnostics@.len() as int).len(),
        forall|k: int| 0 <= k < r@.len() ==>
            same_diagnostic(#[trigger] r@[k], kept_prefix(diagnostics@, diagnostics@.len() as int)[k]),
{
    let mut out: Vec<Diagnostic> = Vec::new();
    let pat = to_chars(HTML_EXPORT_WARNING);
    let mut i: usize = 0;
    while i < diagnostics.len()
        invariant
            i <= diagnostics@.len(),
            pat@ == HTML_EXPORT_WARNING@,
            out@.len() == kept_prefix(diagnostics@, i as int).len(),
            forall|k: int| 0 <= k < out@.len() ==>
                same_diagnostic(#[trigger] out@[k], kept_prefix(diagnostics@, i as int)[k]),
        decreases diagnostics.len() - i,
    {
        let d = &diagnostics[i];
        let keep = match d.severity {
            Severity::Error => true,
            Severity::Warning => !contains_str(&to_chars(d.message.as_str()), &pat),
        };
        if keep {
            out.push(clone_diagnostic(d));
        }
        i = i + 1;
    }
    out
}

// ============================================================================
// Source locations
// ============================================================================

/// Resolved source location of a diagnostic span.
#[derive(Clone, Debug)]
pub struct SpanLocation {
    /// File path, relative to the project root.
    pub path: String,
    /// First line number (1-based).
    pub start_line: usize,
    /// First column (0-based).
    pub start_col: usize,
    /// The source lines the span covers.
    pub lines: Vec<String>,
    /// Column where highlighting starts in the first line (0-based).
    pub highlight_start_col: usize,
    /// Column where highlighting ends in the last line (0-based, exclusive).
    pub highlight_end_col: usize,
}

/// Position of the last line break before position `k`, or -1.
pub open spec fn last_nl_before(s: Seq<char>, k: int) -> int
    decreases k,
{
    if k <= 0 {
        -1
    } else if s[k - 1] == '\n' {
        k - 1
    } else {
        last_nl_before(s, k - 1)
    }
}

/// Start of the line that holds position `k`.
pub open spec fn line_start(s: Seq<char>, k: int) -> int {
    last_nl_before(s, k) + 1
}

/// Position of the first line break at or after `k`, or the length of `s`.
pub open spec fn line_end(s: Seq<char>, k: int) -> int
    decreases s.len() - k,
{
    if k >= s.len() {
        s.len() as int
    } else if s[k] == '\n' {
        k
    } else {
        line_end(s, k + 1)
    }
}

/// Number of line breaks in `s`.
pub open spec fn count_nl(s: Seq<char>) -> nat
    decreases s.len(),
{
    if s.len() == 0 {
        0
    } else {
        count_nl(s.drop_last()) + if s.last() == '\n' { 1nat } else { 0nat }
    }
}

/// The location of the character range `start..end` of a source text: the
/// line and column where it starts (line 1-based, columns 0-based, in
/// characters), the whole lines it touches, and the columns where it starts
/// and ends.
pub open spec fn location_of(path: Seq<char>, text: Seq<char>, start: int, end: int) -> (
    Seq<char>,
    int,
    int,
    Seq<Seq<char>>,
    int,
    int,
) {
    let first = line_start(text, start);
    let last_end = line_end(text, end);
    let start_col = start - first;
    let end_col = end - line_start(text, end);
    (
        path,
        count_nl(text.subrange(0, start)) + 1int,
        start_col,
        text_lines(text.subrange(first, last_end)),
        start_col,
        end_col,
    )
}

proof fn lemma_last_nl_bounds(s: Seq<char>, k: int)
    requires
        0 <= k <= s.len(),
    ensures
        -1 <= last_nl_before(s, k) < k,
    decreases k,
{
    if k > 0 && s[k - 1] != '\n' {
        lemma_last_nl_bounds(s, k - 1);
    }
}

proof fn lemma_line_end_bounds(s: Seq<char>, k: int)
    requires
        0 <= k <= s.len(),
    ensures
        k <= line_end(s, k) <= s.len(),
    decreases s.len() - k,
{
    if k < s.len() && s[k] != '\n' {
        lemma_line_end_bounds(s, k + 1);
    }
}

proof fn lemma_count_nl_bound(s: Seq<char>)
    ensures
        count_nl(s) <= s.len(),
    decreases s.len(),
{
    if s.len() > 0 {
        lemma_count_nl_bound(s.drop_last());
    }
}

fn line_start_exec(v: &[char], k: usize) -> (r: usize)
    requires
        k <= v@.len(),
    ensures
        r == line_start(v@, k as int),
        r <= k,
{
    let mut i = k;
    while i > 0 && v[i - 1] != '\n'
        invariant
            i <= k <= v@.len(),
            last_nl_before(v@, k as int) == last_nl_before(v@, i as int),
        decreases i,
    {
        i = i - 1;
    }
    i
}

fn line_end_exec(v: &[char], k: usize) -> (r: usize)
    requires
        k <= v@.len(),
    ensures
        r == line_end(v@, k as int),
        k <= r <= v@.len(),
{
    let mut i = k;
    while i < v.len() && v[i] != '\n'
        invariant
            k <= i <= v@.len(),
            line_end(v@, k as int) == line_end(v@, i as int),
        decreases v@.len() - i,
    {
        i = i + 1;
    }
    i
}

fn count_nl_exec(v: &[char], k: usize) -> (r: usize)
    requires
        k <= v@.len(),
    ensures
        r == count_nl(v@.subrange(0, k as int)),
        r <= k,
{
    let mut c: usize = 0;
    let mut i: usize = 0;
    while i < k
        invariant
            i <= k <= v@.len(),
            c == count_nl(v@.subrange(0, i as int)),
            c <= i,
        decreases k - i,
    {
        assert(v@.subrange(0, i + 1).drop_last() =~= v@.subrange(0, i as int));
        if v[i] == '\n' {
            c = c + 1;
        }
        i = i + 1;
    }
    c
}

impl SpanLocation {
    /// Resolves the character range `start..end` of a source text (such as
    /// the range of a diagnostic's span) to its location.
    pub fn from_range(path: String, text: &str, start: usize, end: usize) -> (r: SpanLocation)
        requires
            start <= end <= text@.len(),
            text@.len() < usize::MAX,
        ensures
            location_of(path@, text@, start as int, end as int) == (
                r.path@,
                r.start_line as int,
                r.start_col as int,
                r.lines@.map_values(|l: String| l@),
                r.highlight_start_col as int,
                r.highlight_end_col as int,
            ),
    {
        let v = to_chars(text);
        let first = line_start_exec(&v, start);
        let last_end = line_end_exec(&v, end);
        let end_first = line_start_exec(&v, end);
        let nl = count_nl_exec(&v, start);
        proof {
            lemma_last_nl_bounds(v@, start as int);
        }
        let start_col = start - first;
        let end_col = end - end_first;
        let segment = from_chars(&slice_vec(&v, first, last_end));
        let lines = split_lines(segment.as_str());
        SpanLocation {
            path,
            start_line: nl + 1,
            start_col,
            lines,
            highlight_start_col: start_col,
            highlight_end_col: end_col,
        }
    }

    /// Whether the span covers more than one line.
    pub fn is_multiline(&self) -> (r: bool)
        ensures
            r == (self.lines@.len() > 1),
    {
        self.lines.len() > 1
    }

    /// The last line number the span covers.
    pub fn end_line(&self) -> (r: usize)
        requires
            1 <= self.start_line + self.lines@.len() <= usize::MAX,
        ensures
            r == self.start_line + self.lines@.len() - 1,
    {
        self.start_line + self.lines.len() - 1
    }

    /// Width needed to display the line numbers: the digits of the last line number.
    pub fn line_num_width(&self) -> (r: usize)
        requires
            1 <= self.start_line + self.lines@.len() <= usize::MAX,
        ensures
            r == decimal_len((self.start_line + self.lines@.len() - 1) as nat),
    {
        let w = count_digits(self.end_line());
        if w < 1 { 1 } else { w }
    }
}

/// Splits a line into the text before, inside and after a column range
/// (0-based columns counted in characters, clamped to the line). The range,
/// once clamped, must not run backwards.
pub fn split_line(line: &str, start_col: usize, end_col: usize) -> (r: (String, String, String))
    requires
        start_col <= end_col || end_col >= line@.len(),
    ensures
        ({
            let n = line@.len();
            let s = if start_col < n { start_col as int } else { n as int };
            let e = if end_col < n { end_col as int } else { n as int };
            &&& r.0@ == line@.subrange(0, s)
            &&& r.1@ == line@.subrange(s, e)
            &&& r.2@ == line@.subrange(e, n as int)
        }),
{
    let chars = to_chars(line);
    let n = chars.len();
    let s = if start_col < n { start_col } else { n };
    let e = if end_col < n { end_col } else { n };
    let before = from_chars(&slice_vec(&chars, 0, s));
    let highlighted = from_chars(&slice_vec(&chars, s, e));
    let after = from_chars(&slice_vec(&chars, e, n));
    (before, highlighted, after)
}

} // verus!
