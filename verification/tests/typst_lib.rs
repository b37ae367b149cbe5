use tola::typst_lib::diagnostic::{count_diagnostics, has_errors, split_line, Diagnostic, SpanLocation};
use tola::typst_lib::file::{decode_utf8, FileError, SlotCell};

#[test]
fn test_count_diagnostics() {
    let diags = vec![
        Diagnostic::error("error 1"),
        Diagnostic::error("error 2"),
        Diagnostic::warning("warning 1"),
        Diagnostic::warning("warning 2"),
    ];
    let (errors, warnings) = count_diagnostics(&diags);
    assert_eq!(errors, 2);
    assert_eq!(warnings, 2);
}

#[test]
fn test_has_errors() {
    let warnings_only = vec![Diagnostic::warning("warning 1"), Diagnostic::warning("warning 2")];
    assert!(!has_errors(&warnings_only));

    let with_errors = vec![Diagnostic::warning("warning 1"), Diagnostic::error("error 1")];
    assert!(has_errors(&with_errors));

    let empty: Vec<Diagnostic> = vec![];
    assert!(!has_errors(&empty));
}

#[test]
fn test_span_location_methods() {
    let location = SpanLocation {
        path: "test.typ".to_string(),
        start_line: 10,
        start_col: 0,
        lines: vec!["line1".into(), "line2".into(), "line3".into()],
        highlight_start_col: 0,
        highlight_end_col: 5,
    };
    assert!(location.is_multiline());
    assert_eq!(location.end_line(), 12);
    assert_eq!(location.line_num_width(), 2);

    let single_line = SpanLocation {
        path: "test.typ".to_string(),
        start_line: 5,
        start_col: 0,
        lines: vec!["single".into()],
        highlight_start_col: 0,
        highlight_end_col: 6,
    };
    assert!(!single_line.is_multiline());
    assert_eq!(single_line.end_line(), 5);
    assert_eq!(single_line.line_num_width(), 1);
}

#[test]
fn test_split_line_helper() {
    let (before, highlighted, after) = split_line("hello world", 6, 11);
    assert_eq!(before, "hello ");
    assert_eq!(highlighted, "world");
    assert_eq!(after, "");

    let (before, highlighted, after) = split_line("abc", 0, 1);
    assert_eq!(before, "");
    assert_eq!(highlighted, "a");
    assert_eq!(after, "bc");

    let (before, highlighted, after) = split_line("test", 0, 4);
    assert_eq!(before, "");
    assert_eq!(highlighted, "test");
    assert_eq!(after, "");

    let (before, highlighted, after) = split_line("你好世界", 0, 2);
    assert_eq!(before, "");
    assert_eq!(highlighted, "你好");
    assert_eq!(after, "世界");
}

#[test]
fn test_decode_utf8_valid() {
    let text = "Hello, 世界!";
    assert_eq!(decode_utf8(text.as_bytes()).unwrap(), text);
}

#[test]
fn test_decode_utf8_strips_bom() {
    let mut bytes = vec![0xef, 0xbb, 0xbf];
    bytes.extend_from_slice(b"Hello");
    assert_eq!(decode_utf8(&bytes).unwrap(), "Hello");
}

#[test]
fn test_decode_utf8_invalid() {
    let invalid = vec![0xff, 0xfe];
    assert!(decode_utf8(&invalid).is_err());
}

#[test]
fn test_slot_cell_fingerprint() {
    let mut slot: SlotCell<String> = SlotCell::new();

    let result1 = slot.get_or_init(
        || Ok(b"hello".to_vec()),
        |data, _| Ok(String::from_utf8(data).unwrap()),
    );
    assert_eq!(result1.unwrap(), "hello");

    slot.accessed = false;
    let result2 = slot.get_or_init(|| Ok(b"hello".to_vec()), |_, _| panic!("Should not reprocess"));
    assert_eq!(result2.unwrap(), "hello");
}

// Changed content is processed again.
#[test]
fn slot_cell_reprocesses_changed_content() {
    let mut slot: SlotCell<String> = SlotCell::new();
    let first = slot.get_or_init(|| Ok(b"one".to_vec()), |d, _| Ok(String::from_utf8(d).unwrap()));
    assert_eq!(first.unwrap(), "one");
    slot.reset_access();
    let second = slot.get_or_init(|| Ok(b"two".to_vec()), |d, _| Ok(String::from_utf8(d).unwrap()));
    assert_eq!(second.unwrap(), "two");
}

// A load error is cached and handed back.
#[test]
fn slot_cell_caches_load_errors() {
    let mut slot: SlotCell<String> = SlotCell::new();
    let r = slot.get_or_init(|| Err(FileError::AccessDenied), |d, _| Ok(String::from_utf8(d).unwrap()));
    assert!(matches!(r, Err(FileError::AccessDenied)));
}
