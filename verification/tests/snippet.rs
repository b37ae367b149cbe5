use tola::typst_lib::diagnostic::{Diagnostic, SpanLocation};
use tola::typst_lib::snippet::{
    format_diagnostics, is_printable, write_snippet, Paint, ResolvedDiagnostic, Segment, TraceEntry,
    Tracepoint,
};

fn plain(segs: &[Segment]) -> String {
    segs.iter().map(|s| s.text.as_str()).collect()
}

fn snippet(location: &SpanLocation) -> String {
    let mut out = Vec::new();
    write_snippet(&mut out, location, Paint::Error);
    plain(&out)
}

#[test]
fn test_format_source_snippet_single_line() {
    let location = SpanLocation {
        path: "content/index.typ".to_string(),
        start_line: 1,
        start_col: 8,
        lines: vec!["#import \"@tola:meta.typ\" as meta".to_string()],
        highlight_start_col: 8,
        highlight_end_col: 24,
    };
    let output = snippet(&location);
    assert!(output.contains("content/index.typ:1:8"));
    assert!(output.contains("#import \"@tola:meta.typ\" as meta"));
    assert!(output.contains("^^^^^^^^^^^^^^^^"));
}

#[test]
fn test_format_source_snippet_multiline() {
    let location = SpanLocation {
        path: "templates/normal.typ".to_string(),
        start_line: 32,
        start_col: 2,
        lines: vec![
            "  meta((".to_string(),
            "    title: title,".to_string(),
            "    date: date,".to_string(),
            "  ))".to_string(),
        ],
        highlight_start_col: 2,
        highlight_end_col: 4,
    };
    let output = snippet(&location);
    assert!(output.contains("templates/normal.typ:32:2"));
    assert!(output.contains("meta(("));
    assert!(output.contains("title: title"));
    assert!(output.contains("╭") || output.contains("╰"));
}

#[test]
fn test_format_source_snippet_line_number_width() {
    let location = SpanLocation {
        path: "test.typ".to_string(),
        start_line: 123,
        start_col: 4,
        lines: vec!["    some code".to_string()],
        highlight_start_col: 4,
        highlight_end_col: 8,
    };
    let output = snippet(&location);
    assert!(output.contains("123 │"));
    assert!(output.contains("^^^^"));
}

#[test]
fn snippet_exact_layout() {
    let location = SpanLocation {
        path: "content/index.typ".to_string(),
        start_line: 1,
        start_col: 8,
        lines: vec!["#import \"@invalid:meta.typ\" as meta".to_string()],
        highlight_start_col: 8,
        highlight_end_col: 27,
    };
    assert_eq!(
        snippet(&location),
        "  ┌─ content/index.typ:1:8\n  │\n1 │ #import \"@invalid:meta.typ\" as meta\n  │         ^^^^^^^^^^^^^^^^^^^\n"
    );
}

#[test]
fn location_from_range() {
    let text = "first\nsecond line\r\nthird\n";
    let l = SpanLocation::from_range("a.typ".to_string(), text, 7, 20);
    assert_eq!(l.start_line, 2);
    assert_eq!(l.start_col, 1);
    assert_eq!(l.lines, vec!["second line".to_string(), "third".to_string()]);
    assert_eq!(l.highlight_end_col, 1);
    assert!(is_printable(&l));
}

#[test]
fn errors_come_before_warnings() {
    let ds = vec![
        ResolvedDiagnostic { diagnostic: Diagnostic::warning("w"), location: None, trace: vec![] },
        ResolvedDiagnostic {
            diagnostic: Diagnostic { hints: vec!["try this".to_string()], ..Diagnostic::error("e") },
            location: None,
            trace: vec![
                TraceEntry { point: Tracepoint::Import, location: None },
                TraceEntry { point: Tracepoint::Call(Some("f".to_string())), location: None },
            ],
        },
    ];
    let out = format_diagnostics(&ds);
    assert_eq!(
        plain(&out),
        "error: e\nhelp: error occurred in this call of function `f`\n  = hint: try this\nwarning: w\n"
    );
    assert_eq!(out[0].paint, Paint::Error);
}
