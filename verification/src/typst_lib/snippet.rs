//! The display layout of diagnostics: header, source snippet with markers,
//! trace and hints.
//!
//! ```text
//! error: `invalid:meta.typ` is not a valid package namespace
//!   ┌─ content/index.typ:1:8
//!   │
//! 1 │ #import "@invalid:meta.typ" as meta
//!   │         ^^^^^^^^^^^^^^^^
//! ```
//!
//! Output is a list of segments, each with the paint it is shown in (errors
//! red, warnings yellow, help cyan); the terminal colors are applied by the
//! program when it prints them.

use vstd::prelude::*;
use crate::typst_lib::diagnostic::{Diagnostic, Severity, SpanLocation, split_line};
use crate::utils::log::decimal_len;
use crate::utils::rss::{decimal, decimal_chars};
use crate::utils::text::{from_chars, push_all, to_chars};

verus! {

/// How a piece of output is shown.
#[derive(Clone, Copy, Debug, PartialEq, Eq, Structural)]
pub enum Paint {
    Plain,
    Error,
    Warning,
    Help,
}

/// A piece of output with its paint.
#[derive(Clone, Debug)]
pub struct Segment {
    pub text: String,
    pub paint: Paint,
}

/// A point of the call stack of a diagnostic.
#[derive(Clone, Debug)]
pub enum Tracepoint {
    /// A call of a function, named or not.
    Call(Option<String>),
    /// A show rule for an element.
    Show(String),
    /// An import.
    Import,
}

/// A trace point with the location it was resolved to, if any.
#[derive(Clone, Debug)]
pub struct TraceEntry {
    pub point: Tracepoint,
    pub location: Option<SpanLocation>,
}

/// A diagnostic with its span and its trace resolved to locations.
#[derive(Clone, Debug)]
pub struct ResolvedDiagnostic {
    pub diagnostic: Diagnostic,
    pub location: Option<SpanLocation>,
    pub trace: Vec<TraceEntry>,
}

/// The segments as text and paint.
pub open spec fn segs_view(v: Seq<Segment>) -> Seq<(Seq<char>, Paint)> {
    v.map_values(|s: Segment| (s.text@, s.paint))
}

/// `n` spaces.
pub open spec fn spaces(n: nat) -> Seq<char> {
    Seq::new(n, |i: int| ' ')
}

/// `s` repeated `n` times.
pub open spec fn repeated(s: Seq<char>, n: nat) -> Seq<char>
    decreases n,
{
    if n == 0 {
        seq![]
    } else {
        repeated(s, (n - 1) as nat) + s
    }
}

/// `s` right-aligned in a field of `w` characters.
pub open spec fn right_aligned(s: Seq<char>, w: nat) -> Seq<char> {
    if s.len() < w {
        spaces((w - s.len()) as nat) + s
    } else {
        s
    }
}

/// The empty gutter that starts a marker or header line.
pub open spec fn gutter_pad(w: nat) -> (Seq<char>, Paint) {
    (spaces(w) + " "@, Paint::Plain)
}

/// The location header: `  ┌─ path:line:col`.
pub open spec fn header_segs(path: Seq<char>, line: nat, col: nat, w: nat, t: Paint) -> Seq<
    (Seq<char>, Paint),
> {
    seq![
        gutter_pad(w),
        ("\u{250C}\u{2500}"@, t),
        (" "@ + path + ":"@ + decimal(line) + ":"@ + decimal(col) + "\n"@, Paint::Plain),
    ]
}

/// An empty gutter line: `  │`.
pub open spec fn empty_gutter_segs(w: nat, t: Paint) -> Seq<(Seq<char>, Paint)> {
    seq![gutter_pad(w), ("\u{2502}"@, t), ("\n"@, Paint::Plain)]
}

/// The column `c` clamped to a line of `n` characters.
pub open spec fn clamp(c: int, n: int) -> int {
    if c < n {
        c
    } else {
        n
    }
}

/// A source line with its number, an optional box character, and the
/// columns `start..end` highlighted.
pub open spec fn source_line_segs(
    num: nat,
    text: Seq<char>,
    box_char: Option<Seq<char>>,
    start: int,
    end: int,
    w: nat,
    t: Paint,
) -> Seq<(Seq<char>, Paint)> {
    let s = clamp(start, text.len() as int);
    let e = clamp(end, text.len() as int);
    let lead = seq![(right_aligned(decimal(num), w), t), (" "@, Paint::Plain), ("\u{2502}"@, t)];
    let boxed = match box_char {
        Some(b) => seq![(" "@, Paint::Plain), (b, t)],
        None => seq![],
    };
    lead + boxed + seq![
        (" "@ + text.subrange(0, s), Paint::Plain),
        (text.subrange(s, e), t),
        (text.subrange(e, text.len() as int) + "\n"@, Paint::Plain),
    ]
}

/// The marker line under a single-line span: `  │   ^^^^`.
pub open spec fn single_marker_segs(start_col: nat, span_len: nat, w: nat, t: Paint) -> Seq<
    (Seq<char>, Paint),
> {
    seq![
        gutter_pad(w),
        ("\u{2502}"@, t),
        (" "@ + spaces(start_col), Paint::Plain),
        (repeated("^"@, if span_len < 1 { 1 } else { span_len }), t),
        ("\n"@, Paint::Plain),
    ]
}

/// The marker line that closes a multi-line span: `  │ ╰────^`.
pub open spec fn multiline_end_segs(end_col: nat, w: nat, t: Paint) -> Seq<(Seq<char>, Paint)> {
    seq![
        gutter_pad(w),
        ("\u{2502}"@, t),
        (" "@, Paint::Plain),
        ("\u{2570}"@, t),
        (repeated("\u{2500}"@, end_col), t),
        ("^"@, t),
        ("\n"@, Paint::Plain),
    ]
}

/// The width of the line-number column: the digits of the last line number.
pub open spec fn number_width(l: SpanLocation) -> nat {
    decimal_len((l.start_line + l.lines@.len() - 1) as nat)
}

/// The lines `i..` of a multi-line span: the first with `╭` and highlighted
/// from the start column, the others with `│` and highlighted from column 1.
pub open spec fn multiline_body(l: SpanLocation, w: nat, t: Paint, i: int) -> Seq<(Seq<char>, Paint)>
    decreases l.lines@.len() - i,
{
    if i >= l.lines@.len() || i < 0 {
        seq![]
    } else {
        let text = l.lines@[i]@;
        let line = if i == 0 {
            source_line_segs(
                (l.start_line + i) as nat,
                text,
                Some("\u{256D}"@),
                l.highlight_start_col as int,
                text.len() + 1int,
                w,
                t,
            )
        } else {
            source_line_segs(
                (l.start_line + i) as nat,
                text,
                Some("\u{2502}"@),
                1,
                text.len() + 1int,
                w,
                t,
            )
        };
        line + multiline_body(l, w, t, i + 1)
    }
}

/// The source snippet of a location: header, empty gutter, then the source
/// lines with their markers.
pub open spec fn snippet_segs(l: SpanLocation, t: Paint) -> Seq<(Seq<char>, Paint)> {
    let w = number_width(l);
    let head = header_segs(l.path@, l.start_line as nat, l.start_col as nat, w, t) + empty_gutter_segs(
        w,
        t,
    );
    if l.lines@.len() > 1 {
        head + multiline_body(l, w, t, 0) + multiline_end_segs(l.highlight_end_col as nat, w, t)
    } else {
        let text = if l.lines@.len() == 0 {
            seq![]
        } else {
            l.lines@[0]@
        };
        let span_len = if l.highlight_end_col > l.highlight_start_col {
            (l.highlight_end_col - l.highlight_start_col) as nat
        } else {
            0
        };
        head + source_line_segs(
            l.start_line as nat,
            text,
            None,
            l.highlight_start_col as int,
            l.highlight_end_col as int,
            w,
            t,
        ) + single_marker_segs(l.highlight_start_col as nat, span_len, w, t)
    }
}

/// Whether a location can be laid out: its line numbers fit, and a
/// single-line highlight does not run backwards.
pub open spec fn printable(l: SpanLocation) -> bool {
    &&& 1 <= l.start_line
    &&& l.start_line + l.lines@.len() < usize::MAX
    &&& forall|i: int| 0 <= i < l.lines@.len() ==> (#[trigger] l.lines@[i])@.len() < usize::MAX
    &&& l.lines@.len() <= 1 ==> (l.highlight_start_col <= l.highlight_end_col || l.highlight_end_col
        >= (if l.lines@.len() == 0 {
        0
    } else {
        l.lines@[0]@.len()
    }))
}

fn push_str(out: &mut Vec<Segment>, s: &str, p: Paint)
    ensures
        segs_view(final(out)@) == segs_view(old(out)@).push((s@, p)),
{
    out.push(Segment { text: s.to_string(), paint: p });
    assert(segs_view(out@) =~= segs_view(old(out)@).push((s@, p)));
}

fn push_chars(out: &mut Vec<Segment>, v: &[char], p: Paint)
    ensures
        segs_view(final(out)@) == segs_view(old(out)@).push((v@, p)),
{
    out.push(Segment { text: from_chars(v), paint: p });
    assert(segs_view(out@) =~= segs_view(old(out)@).push((v@, p)));
}

fn spaces_exec(n: usize) -> (r: Vec<char>)
    ensures
        r@ == spaces(n as nat),
{
    let mut r: Vec<char> = Vec::new();
    let mut i: usize = 0;
    while i < n
        invariant
            i <= n,
            r@ == spaces(i as nat),
        decreases n - i,
    {
        r.push(' ');
        i = i + 1;
        assert(r@ =~= spaces(i as nat));
    }
    r
}

fn repeated_exec(s: &str, n: usize) -> (r: Vec<char>)
    ensures
        r@ == repeated(s@, n as nat),
{
    let piece = to_chars(s);
    let mut r: Vec<char> = Vec::new();
    let mut i: usize = 0;
    while i < n
        invariant
            i <= n,
            piece@ == s@,
            r@ == repeated(s@, i as nat),
        decreases n - i,
    {
        push_all(&mut r, &piece);
        i = i + 1;
    }
    r
}

fn gutter_pad_exec(out: &mut Vec<Segment>, w: usize)
    ensures
        segs_view(final(out)@) == segs_view(old(out)@).push(gutter_pad(w as nat)),
{
    let mut v = spaces_exec(w);
    v.push(' ');
    assert(v@ =~= spaces(w as nat) + " "@) by {
        reveal_strlit(" ");
    }
    push_chars(out, &v, Paint::Plain);
}

fn decimal_exec(n: usize) -> (r: Vec<char>)
    ensures
        r@ == decimal(n as nat),
{
    decimal_chars(n as u64)
}

fn write_header(out: &mut Vec<Segment>, path: &str, line: usize, col: usize, w: usize, t: Paint)
    ensures
        segs_view(final(out)@) == segs_view(old(out)@) + header_segs(
            path@,
            line as nat,
            col as nat,
            w as nat,
            t,
        ),
{
    gutter_pad_exec(out, w);
    push_str(out, "\u{250C}\u{2500}", t);
    let mut v = to_chars(" ");
    push_all(&mut v, &to_chars(path));
    push_all(&mut v, &to_chars(":"));
    push_all(&mut v, &decimal_exec(line));
    push_all(&mut v, &to_chars(":"));
    push_all(&mut v, &decimal_exec(col));
    push_all(&mut v, &to_chars("\n"));
    push_chars(out, &v, Paint::Plain);
    assert(segs_view(out@) =~= segs_view(old(out)@) + header_segs(
        path@,
        line as nat,
        col as nat,
        w as nat,
        t,
    ));
}

fn write_empty_gutter(out: &mut Vec<Segment>, w: usize, t: Paint)
    ensures
        segs_view(final(out)@) == segs_view(old(out)@) + empty_gutter_segs(w as nat, t),
{
    gutter_pad_exec(out, w);
    push_str(out, "\u{2502}", t);
    push_str(out, "\n", Paint::Plain);
    assert(segs_view(out@) =~= segs_view(old(out)@) + empty_gutter_segs(w as nat, t));
}

fn write_source_line(
    out: &mut Vec<Segment>,
    num: usize,
    text: &str,
    box_char: Option<&str>,
    start: usize,
    end: usize,
    w: usize,
    t: Paint,
)
    requires
        start <= end || end >= text@.len(),
    ensures
        segs_view(final(out)@) == segs_view(old(out)@) + source_line_segs(
            num as nat,
            text@,
            match box_char {
                Some(b) => Some(b@),
                None => None,
            },
            start as int,
            end as int,
            w as nat,
            t,
        ),
{
    let d = decimal_exec(num);
    let num_str = if d.len() < w {
        let mut p = spaces_exec(w - d.len());
        push_all(&mut p, &d);
        p
    } else {
        d
    };
    push_chars(out, &num_str, t);
    push_str(out, " ", Paint::Plain);
    push_str(out, "\u{2502}", t);
    match box_char {
        Some(b) => {
            push_str(out, " ", Paint::Plain);
            push_str(out, b, t);
        },
        None => {},
    }
    let (before, highlighted, after) = split_line(text, start, end);
    let mut b = to_chars(" ");
    push_all(&mut b, &to_chars(before.as_str()));
    push_chars(out, &b, Paint::Plain);
    push_str(out, highlighted.as_str(), t);
    let mut a = to_chars(after.as_str());
    push_all(&mut a, &to_chars("\n"));
    push_chars(out, &a, Paint::Plain);
    assert(segs_view(out@) =~= segs_view(old(out)@) + source_line_segs(
        num as nat,
        text@,
        match box_char {
            Some(b) => Some(b@),
            None => None,
        },
        start as int,
        end as int,
        w as nat,
        t,
    ));
}

fn write_single_line_marker(out: &mut Vec<Segment>, start_col: usize, span_len: usize, w: usize, t: Paint)
    ensures
        segs_view(final(out)@) == segs_view(old(out)@) + single_marker_segs(
            start_col as nat,
            span_len as nat,
            w as nat,
            t,
        ),
{
    gutter_pad_exec(out, w);
    push_str(out, "\u{2502}", t);
    let mut sp = to_chars(" ");
    push_all(&mut sp, &spaces_exec(start_col));
    push_chars(out, &sp, Paint::Plain);
    let n = if span_len < 1 { 1 } else { span_len };
    push_chars(out, &repeated_exec("^", n), t);
    push_str(out, "\n", Paint::Plain);
    assert(segs_view(out@) =~= segs_view(old(out)@) + single_marker_segs(
        start_col as nat,
        span_len as nat,
        w as nat,
        t,
    ));
}

fn write_multiline_end_marker(out: &mut Vec<Segment>, end_col: usize, w: usize, t: Paint)
    ensures
        segs_view(final(out)@) == segs_view(old(out)@) + multiline_end_segs(end_col as nat, w as nat, t),
{
    gutter_pad_exec(out, w);
    push_str(out, "\u{2502}", t);
    push_str(out, " ", Paint::Plain);
    push_str(out, "\u{2570}", t);
    push_chars(out, &repeated_exec("\u{2500}", end_col), t);
    push_str(out, "^", t);
    push_str(out, "\n", Paint::Plain);
    assert(segs_view(out@) =~= segs_view(old(out)@) + multiline_end_segs(end_col as nat, w as nat, t));
}

/// Lays out the source snippet of a location in the given paint.
pub fn write_snippet(out: &mut Vec<Segment>, l: &SpanLocation, t: Paint)
    requires
        printable(*l),
    ensures
        segs_view(final(out)@) == segs_view(old(out)@) + snippet_segs(*l, t),
{
    let w = l.line_num_width();
    write_header(out, l.path.as_str(), l.start_line, l.start_col, w, t);
    write_empty_gutter(out, w, t);
    let ghost head = segs_view(out@);
    let ghost hg = header_segs(l.path@, l.start_line as nat, l.start_col as nat, w as nat, t)
        + empty_gutter_segs(w as nat, t);
    assert(head =~= segs_view(old(out)@) + hg);
    assert(w == number_width(*l));
    if l.is_multiline() {
        let n = l.lines.len();
        let mut i: usize = 0;
        while i < n
            invariant
                i <= n == l.lines@.len(),
                printable(*l),
                w == number_width(*l),
                segs_view(out@) + multiline_body(*l, w as nat, t, i as int) == head + multiline_body(
                    *l,
                    w as nat,
                    t,
                    0,
                ),
            decreases n - i,
        {
            let text = l.lines[i].as_str();
            let len = to_chars(text).len();
            let ghost before = segs_view(out@);
            assert(l.lines@[i as int]@.len() < usize::MAX);
            if i == 0 {
                write_source_line(out, l.start_line + i, text, Some("\u{256D}"), l.highlight_start_col, len + 1, w, t);
            } else {
                write_source_line(out, l.start_line + i, text, Some("\u{2502}"), 1, len + 1, w, t);
            }
            assert(before + multiline_body(*l, w as nat, t, i as int) =~= segs_view(out@)
                + multiline_body(*l, w as nat, t, i + 1));
            i = i + 1;
        }
        assert(segs_view(out@) + multiline_body(*l, w as nat, t, n as int) =~= segs_view(out@));
        let ghost mid = segs_view(out@);
        write_multiline_end_marker(out, l.highlight_end_col, w, t);
        assert(segs_view(out@) =~= segs_view(old(out)@) + (hg + multiline_body(*l, w as nat, t, 0)
            + multiline_end_segs(l.highlight_end_col as nat, w as nat, t)));
        assert(segs_view(out@) == segs_view(old(out)@) + snippet_segs(*l, t));
    } else {
        let text = if l.lines.len() == 0 {
            ""
        } else {
            l.lines[0].as_str()
        };
        let span_len = if l.highlight_end_col > l.highlight_start_col {
            l.highlight_end_col - l.highlight_start_col
        } else {
            0
        };
        proof {
            if l.lines@.len() == 0 {
                reveal_strlit("");
                assert(text@ =~= Seq::<char>::empty());
            }
        }
        write_source_line(out, l.start_line, text, None, l.highlight_start_col, l.highlight_end_col, w, t);
        let ghost mid = segs_view(out@);
        write_single_line_marker(out, l.highlight_start_col, span_len, w, t);
        assert(segs_view(out@) =~= segs_view(old(out)@) + (hg + source_line_segs(
            l.start_line as nat,
            text@,
            None,
            l.highlight_start_col as int,
            l.highlight_end_col as int,
            w as nat,
            t,
        ) + single_marker_segs(l.highlight_start_col as nat, span_len as nat, w as nat, t)));
        assert(segs_view(out@) == segs_view(old(out)@) + snippet_segs(*l, t));
    }
}

// ============================================================================
// Diagnostics
// ============================================================================

/// The label of a severity and the paint of its output.
pub open spec fn severity_label(s: Severity) -> (Seq<char>, Paint) {
    match s {
        Severity::Error => ("error"@, Paint::Error),
        Severity::Warning => ("warning"@, Paint::Warning),
    }
}

/// What a trace point says.
pub open spec fn trace_message(p: Tracepoint) -> Seq<char> {
    match p {
        Tracepoint::Call(Some(n)) => "error occurred in this call of function `"@ + n@ + "`"@,
        Tracepoint::Call(None) => "error occurred in this function call"@,
        Tracepoint::Show(n) => "error occurred in this show rule for `"@ + n@ + "`"@,
        Tracepoint::Import => seq![],
    }
}

/// The output of a trace entry: nothing for an import (it only names the
/// file that imported the failing one); else a help line and the snippet of
/// its location.
pub open spec fn trace_segs(e: TraceEntry) -> Seq<(Seq<char>, Paint)> {
    if e.point is Import {
        seq![]
    } else {
        seq![("help"@, Paint::Help), (": "@ + trace_message(e.point) + "\n"@, Paint::Plain)]
            + match e.location {
            Some(l) => snippet_segs(l, Paint::Help),
            None => seq![],
        }
    }
}

/// The output of the trace entries from `i` on.
pub open spec fn traces_segs(t: Seq<TraceEntry>, i: int) -> Seq<(Seq<char>, Paint)>
    decreases t.len() - i,
{
    if i < 0 || i >= t.len() {
        seq![]
    } else {
        trace_segs(t[i]) + traces_segs(t, i + 1)
    }
}

/// The hint lines from `i` on: `  = hint: ...`.
pub open spec fn hints_segs(h: Seq<String>, i: int) -> Seq<(Seq<char>, Paint)>
    decreases h.len() - i,
{
    if i < 0 || i >= h.len() {
        seq![]
    } else {
        seq![("  "@, Paint::Plain), ("="@, Paint::Help), (" hint: "@ + h[i]@ + "\n"@, Paint::Plain)]
            + hints_segs(h, i + 1)
    }
}

/// The output of one diagnostic: `severity: message`, its snippet, its
/// trace, its hints.
pub open spec fn diagnostic_segs(d: ResolvedDiagnostic) -> Seq<(Seq<char>, Paint)> {
    let (label, t) = severity_label(d.diagnostic.severity);
    seq![(label, t), (": "@ + d.diagnostic.message@ + "\n"@, Paint::Plain)] + match d.location {
        Some(l) => snippet_segs(l, t),
        None => seq![],
    } + traces_segs(d.trace@, 0) + hints_segs(d.diagnostic.hints@, 0)
}

/// Whether every location of a diagnostic can be laid out.
pub open spec fn diagnostic_printable(d: ResolvedDiagnostic) -> bool {
    &&& (d.location matches Some(l) ==> printable(l))
    &&& forall|i: int|
        0 <= i < d.trace@.len() ==> ((#[trigger] d.trace@[i]).location matches Some(l) ==> printable(l))
}

/// The output of the diagnostics of one severity from `i` on, in order.
pub open spec fn diagnostics_of(ds: Seq<ResolvedDiagnostic>, sev: Severity, i: int) -> Seq<
    (Seq<char>, Paint),
>
    decreases ds.len() - i,
{
    if i < 0 || i >= ds.len() {
        seq![]
    } else if ds[i].diagnostic.severity == sev {
        diagnostic_segs(ds[i]) + diagnostics_of(ds, sev, i + 1)
    } else {
        diagnostics_of(ds, sev, i + 1)
    }
}

fn write_trace(out: &mut Vec<Segment>, e: &TraceEntry)
    requires
        e.location matches Some(l) ==> printable(l),
    ensures
        segs_view(final(out)@) == segs_view(old(out)@) + trace_segs(*e),
{
    let mut msg = to_chars(": ");
    match &e.point {
        Tracepoint::Import => {
            return;
        },
        Tracepoint::Call(Some(name)) => {
            push_all(&mut msg, &to_chars("error occurred in this call of function `"));
            push_all(&mut msg, &to_chars(name.as_str()));
            push_all(&mut msg, &to_chars("`"));
            assert(msg@ =~= ": "@ + trace_message(e.point));
        },
        Tracepoint::Call(None) => {
            push_all(&mut msg, &to_chars("error occurred in this function call"));
            assert(msg@ =~= ": "@ + trace_message(e.point));
        },
        Tracepoint::Show(name) => {
            push_all(&mut msg, &to_chars("error occurred in this show rule for `"));
            push_all(&mut msg, &to_chars(name.as_str()));
            push_all(&mut msg, &to_chars("`"));
            assert(msg@ =~= ": "@ + trace_message(e.point));
        },
    }
    push_all(&mut msg, &to_chars("\n"));
    assert(!(e.point is Import));
    push_str(out, "help", Paint::Help);
    push_chars(out, &msg, Paint::Plain);
    let ghost mid = segs_view(out@);
    match &e.location {
        Some(l) => write_snippet(out, l, Paint::Help),
        None => {},
    }
    assert(segs_view(out@) =~= segs_view(old(out)@) + trace_segs(*e));
}

fn write_diagnostic(out: &mut Vec<Segment>, d: &ResolvedDiagnostic)
    requires
        diagnostic_printable(*d),
    ensures
        segs_view(final(out)@) == segs_view(old(out)@) + diagnostic_segs(*d),
{
    let (label, t) = match d.diagnostic.severity {
        Severity::Error => ("error", Paint::Error),
        Severity::Warning => ("warning", Paint::Warning),
    };
    push_str(out, label, t);
    let mut msg = to_chars(": ");
    push_all(&mut msg, &to_chars(d.diagnostic.message.as_str()));
    push_all(&mut msg, &to_chars("\n"));
    push_chars(out, &msg, Paint::Plain);
    match &d.location {
        Some(l) => write_snippet(out, l, t),
        None => {},
    }
    let ghost after_snippet = segs_view(out@);
    let mut i: usize = 0;
    while i < d.trace.len()
        invariant
            i <= d.trace@.len(),
            diagnostic_printable(*d),
            segs_view(out@) + traces_segs(d.trace@, i as int) == after_snippet + traces_segs(d.trace@, 0),
        decreases d.trace@.len() - i,
    {
        let ghost before = segs_view(out@);
        write_trace(out, &d.trace[i]);
        assert(before + traces_segs(d.trace@, i as int) =~= segs_view(out@) + traces_segs(
            d.trace@,
            i + 1,
        ));
        i = i + 1;
    }
    assert(segs_view(out@) + traces_segs(d.trace@, i as int) =~= segs_view(out@));
    let ghost after_trace = segs_view(out@);
    let mut j: usize = 0;
    while j < d.diagnostic.hints.len()
        invariant
            j <= d.diagnostic.hints@.len(),
            segs_view(out@) + hints_segs(d.diagnostic.hints@, j as int) == after_trace + hints_segs(
                d.diagnostic.hints@,
                0,
            ),
        decreases d.diagnostic.hints@.len() - j,
    {
        let ghost before = segs_view(out@);
        push_str(out, "  ", Paint::Plain);
        push_str(out, "=", Paint::Help);
        let mut h = to_chars(" hint: ");
        push_all(&mut h, &to_chars(d.diagnostic.hints[j].as_str()));
        push_all(&mut h, &to_chars("\n"));
        push_chars(out, &h, Paint::Plain);
        assert(before + hints_segs(d.diagnostic.hints@, j as int) =~= segs_view(out@) + hints_segs(
            d.diagnostic.hints@,
            j + 1,
        ));
        j = j + 1;
    }
    assert(segs_view(out@) + hints_segs(d.diagnostic.hints@, j as int) =~= segs_view(out@));
    assert(segs_view(out@) =~= segs_view(old(out)@) + diagnostic_segs(*d));
}

fn write_of_severity(out: &mut Vec<Segment>, ds: &[ResolvedDiagnostic], sev: Severity)
    requires
        forall|i: int| 0 <= i < ds@.len() ==> diagnostic_printable(#[trigger] ds@[i]),
    ensures
        segs_view(final(out)@) == segs_view(old(out)@) + diagnostics_of(ds@, sev, 0),
{
    let ghost start = segs_view(out@);
    let mut i: usize = 0;
    while i < ds.len()
        invariant
            i <= ds@.len(),
            forall|k: int| 0 <= k < ds@.len() ==> diagnostic_printable(#[trigger] ds@[k]),
            segs_view(out@) + diagnostics_of(ds@, sev, i as int) == start + diagnostics_of(ds@, sev, 0),
        decreases ds@.len() - i,
    {
        let ghost before = segs_view(out@);
        if ds[i].diagnostic.severity == sev {
            write_diagnostic(out, &ds[i]);
            assert(before + diagnostics_of(ds@, sev, i as int) =~= segs_view(out@) + diagnostics_of(
                ds@,
                sev,
                i + 1,
            ));
        }
        i = i + 1;
    }
    assert(segs_view(out@) + diagnostics_of(ds@, sev, i as int) =~= segs_view(out@));
}

/// Lays out diagnostics for display: all errors first, then all warnings,
/// each group in the given order.
pub fn format_diagnostics(ds: &[ResolvedDiagnostic]) -> (r: Vec<Segment>)
    requires
        forall|i: int| 0 <= i < ds@.len() ==> diagnostic_printable(#[trigger] ds@[i]),
    ensures
        segs_view(r@) == diagnostics_of(ds@, Severity::Error, 0) + diagnostics_of(
            ds@,
            Severity::Warning,
            0,
        ),
{
    let mut out: Vec<Segment> = Vec::new();
    write_of_severity(&mut out, ds, Severity::Error);
    write_of_severity(&mut out, ds, Severity::Warning);
    assert(segs_view(out@) =~= diagnostics_of(ds@, Severity::Error, 0) + diagnostics_of(
        ds@,
        Severity::Warning,
        0,
    ));
    out
}

/// Whether a location can be laid out (see `printable`).
pub fn is_printable(l: &SpanLocation) -> (b: bool)
    ensures
        b == printable(*l),
{
    let n = l.lines.len();
    if l.start_line < 1 || l.start_line >= usize::MAX - n {
        return false;
    }
    let mut i: usize = 0;
    while i < n
        invariant
            i <= n == l.lines@.len(),
            forall|k: int| 0 <= k < i ==> (#[trigger] l.lines@[k])@.len() < usize::MAX,
        decreases n - i,
    {
        if to_chars(l.lines[i].as_str()).len() >= usize::MAX {
            return false;
        }
        i = i + 1;
    }
    if n <= 1 {
        let first_len = if n == 0 { 0 } else { to_chars(l.lines[0].as_str()).len() };
        l.highlight_start_col <= l.highlight_end_col || l.highlight_end_col >= first_len
    } else {
        true
    }
}

} // verus!
