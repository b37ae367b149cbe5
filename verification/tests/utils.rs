use tola::config::SiteConfig;
use tola::utils::category::FileCategory;
use tola::utils::css::enhance_css_filename;
use tola::utils::exec::{format_error, strip_ansi, FilterRule, filter_args};
use tola::utils::hash::{fingerprint, hash_str, StableHasher};
use tola::utils::path::normalize_path;
use tola::utils::platform::{arch_fingerprint, cache_path, is_cache_valid_for_arch, path_to_cache_hash};
use tola::utils::svg::optimize::extract_attr;

#[test]
fn test_category_name() {
    assert_eq!(FileCategory::Content.name(), "content");
    assert_eq!(FileCategory::Asset.name(), "assets");
    assert_eq!(FileCategory::Config.name(), "config");
    assert_eq!(FileCategory::Deps.name(), "deps");
    assert_eq!(FileCategory::Unknown.name(), "unknown");
}

#[test]
fn test_is_directory() {
    assert!(FileCategory::Content.is_directory());
    assert!(FileCategory::Asset.is_directory());
    assert!(FileCategory::Deps.is_directory());
    assert!(!FileCategory::Config.is_directory());
    assert!(!FileCategory::Unknown.is_directory());
}

// The file system answers for a path that does not exist: no canonical form;
// the current directory of the process is given as `/tmp/project`.
fn normalize(path: &str) -> String {
    normalize_path(path, None, Some("/tmp/project".to_string()))
}

#[test]
fn category_test_normalize_path_absolute() {
    let normalized = normalize("/absolute/path/file.txt");
    assert!(std::path::Path::new(&normalized).is_absolute());
}

#[test]
fn category_test_normalize_path_relative() {
    let normalized = normalize("relative/path/file.txt");
    assert!(std::path::Path::new(&normalized).is_absolute());
}

#[test]
fn path_test_normalize_path_absolute() {
    let normalized = normalize("/absolute/path/file.txt");
    assert!(std::path::Path::new(&normalized).is_absolute());
}

#[test]
fn path_test_normalize_path_relative() {
    let normalized = normalize("relative/path/file.txt");
    assert!(std::path::Path::new(&normalized).is_absolute());
}

#[test]
fn normalize_path_prefers_the_canonical_form() {
    let r = normalize_path("a/../b", Some("/root/b".to_string()), Some("/x".to_string()));
    assert_eq!(r, "/root/b");
    assert_eq!(normalize("rel"), "/tmp/project/rel");
}

#[test]
fn test_enhance_css_filename_format() {
    let filename = enhance_css_filename();
    assert!(filename.starts_with(".enhance-"));
    assert!(filename.ends_with(".css"));
    assert_eq!(filename.len(), ".enhance-12345678.css".len());
}

#[test]
fn test_enhance_css_filename_stable() {
    let f1 = enhance_css_filename();
    let f2 = enhance_css_filename();
    assert_eq!(f1, f2);
}

#[test]
fn test_filter_rule() {
    let filter = FilterRule::new(&["WARN:", "INFO:"]);
    assert!(filter.should_skip("WARN: something"));
    assert!(filter.should_skip("INFO: something"));
    assert!(!filter.should_skip("ERROR: something"));
    assert!(filter.should_skip(""));
}

#[test]
fn test_format_error() {
    let filter = FilterRule::new(&["Ignored:"]);
    let msg = format_error("test", "exit status: 1", "Ignored: warning\nFatal error", "", &filter);
    assert!(msg.contains("Command `test` failed"));
}

#[test]
fn test_strip_ansi() {
    assert_eq!(strip_ansi("\x1b[31mRed\x1b[0m"), "Red");
    assert_eq!(strip_ansi("\x1b[1;32mGreen Bold\x1b[0m"), "Green Bold");
    assert_eq!(strip_ansi("\x1b[31;42mRed on Green\x1b[0m"), "Red on Green");
    assert_eq!(strip_ansi("Plain text"), "Plain text");
    assert_eq!(strip_ansi("Start \x1b[33mYellow\x1b[0m End"), "Start Yellow End");
}

#[test]
fn test_deterministic() {
    let h1 = hash_str("hello world");
    let h2 = hash_str("hello world");
    assert_eq!(h1, h2);
}

#[test]
fn test_different_inputs() {
    let h1 = hash_str("hello");
    let h2 = hash_str("world");
    assert_ne!(h1, h2);
}

#[test]
fn test_fingerprint() {
    let fp = fingerprint(b"test");
    assert_eq!(fp.len(), 8);
    assert!(fp.chars().all(|c| c.is_ascii_hexdigit()));
}

#[test]
fn test_builder_pattern() {
    let h = StableHasher::new().update_str("tag").update_u64(42).update_usize(100).finish();
    let h2 = StableHasher::new().update_str("tag").update_u64(42).update_usize(100).finish();
    assert_eq!(h, h2);
}

#[test]
fn test_order_matters() {
    let h1 = StableHasher::new().update_str("a").update_str("b").finish();
    let h2 = StableHasher::new().update_str("b").update_str("a").finish();
    assert_ne!(h1, h2);
}

// The fingerprint is the start of the hexadecimal hash.
#[test]
fn fingerprint_is_prefix_of_hex_hash() {
    let fp = fingerprint(b"abc");
    let full = format!("{:016x}", tola::utils::hash::hash_bytes(b"abc"));
    assert!(full.starts_with(&fp));
}

// An architecture without `_` in its name, so that the fingerprint splits in two.
fn arch() -> String {
    arch_fingerprint("aarch64", "linux")
}

#[test]
fn test_arch_fingerprint_format() {
    let fp = arch();
    assert!(fp.contains('_'));
    let parts: Vec<_> = fp.split('_').collect();
    assert_eq!(parts.len(), 2);
}

#[test]
fn test_cache_path() {
    let path_str = cache_path(".cache", "test", &arch());
    assert!(path_str.starts_with(".cache"));
    assert!(path_str.ends_with(".rkyv"));
    assert!(path_str.contains(&arch()));
}

#[test]
fn test_is_cache_valid() {
    let valid_path = cache_path(".cache", "test", &arch());
    assert!(is_cache_valid_for_arch(&valid_path, &arch()));
    assert!(!is_cache_valid_for_arch(".cache/test_wrong_arch.rkyv", &arch()));
}

#[test]
fn test_path_hash() {
    assert_eq!(path_to_cache_hash("content/index.typ"), path_to_cache_hash("content/index.typ"));
    assert_ne!(path_to_cache_hash("content/index.typ"), path_to_cache_hash("content/other.typ"));
}

#[test]
fn optimize_test_extract_attr() {
    let s = r#"<svg width="100" height="50" class="icon">"#;
    assert_eq!(extract_attr(s, r#"width=""#).as_deref(), Some("100"));
    assert_eq!(extract_attr(s, r#"height=""#).as_deref(), Some("50"));
    assert_eq!(extract_attr(s, r#"class=""#).as_deref(), Some("icon"));
    assert_eq!(extract_attr(s, r#"id=""#), None);
    assert_eq!(extract_attr(r#"width="0""#, r#"width=""#).as_deref(), Some("0"));
    assert_eq!(extract_attr(r#"width="""#, r#"width=""#).as_deref(), Some(""));
}

#[test]
fn extract_attr_without_closing_quote() {
    assert_eq!(extract_attr(r#"<svg width="100"#, r#"width=""#), None);
}

#[test]
fn default_config_values() {
    let c = SiteConfig::default();
    assert_eq!(c.build.content, "content");
    assert_eq!(c.build.output, "public");
    assert!(c.build.minify);
}

#[test]
fn exec_test_filter_args() {
    let args = ["a".to_string(), "".to_string(), "b".to_string()];
    let filtered = filter_args(&args);
    assert_eq!(filtered.len(), 2);
    assert_eq!(filtered[0], "a");
    assert_eq!(filtered[1], "b");
}

#[test]
fn strip_ansi_leaves_unfinished_sequences() {
    assert_eq!(strip_ansi("\x1b[\x1b[31mred\x1b[0m"), "\x1b[red");
    assert_eq!(strip_ansi("a\x1b[1;2"), "a\x1b[1;2");
    assert_eq!(strip_ansi("\x1b[mx\x1b[38;5;208my"), "xy");
}
