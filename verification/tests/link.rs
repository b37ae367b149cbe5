use tola::config::SiteConfig;
use tola::utils::xml::link::{
    is_external_link, path_starts_with_segment, process_fragment_link, process_link_value,
    process_relative_link,
};

#[test]
fn test_relative_link_index_no_adjustment() {
    assert_eq!(process_relative_link("./img.png", true).unwrap(), "./img.png");
    assert_eq!(process_relative_link("../doc.pdf", true).unwrap(), "../doc.pdf");
    assert_eq!(process_relative_link("asset/logo.svg", true).unwrap(), "asset/logo.svg");
    assert_eq!(process_relative_link("../../up/up.txt", true).unwrap(), "../../up/up.txt");
}

#[test]
fn test_relative_link_non_index_prepend() {
    assert_eq!(process_relative_link("./img.png", false).unwrap(), ".././img.png");
    assert_eq!(process_relative_link("../doc.pdf", false).unwrap(), "../../doc.pdf");
    assert_eq!(process_relative_link("asset/logo.svg", false).unwrap(), "../asset/logo.svg");
}

#[test]
fn test_relative_link_external_unchanged() {
    assert_eq!(process_relative_link("https://example.com", true).unwrap(), "https://example.com");
    assert_eq!(process_relative_link("https://example.com", false).unwrap(), "https://example.com");
    assert_eq!(
        process_relative_link("mailto:user@example.com", true).unwrap(),
        "mailto:user@example.com"
    );
    assert_eq!(process_relative_link("tel:+1234567890", false).unwrap(), "tel:+1234567890");
}

#[test]
fn test_is_external_link_schemes() {
    assert!(is_external_link("https://example.com"));
    assert!(is_external_link("http://example.com"));
    assert!(is_external_link("mailto:user@example.com"));
    assert!(is_external_link("tel:+1234567890"));
    assert!(is_external_link("ftp://files.example.com"));
    assert!(is_external_link("data:text/html,hello"));
}

#[test]
fn test_is_external_link_not_external() {
    assert!(!is_external_link("./img.png"));
    assert!(!is_external_link("../doc.pdf"));
    assert!(!is_external_link("/about"));
    assert!(!is_external_link("#section"));
    assert!(!is_external_link("path/to/file"));
}

#[test]
fn test_is_external_link_edge_cases() {
    assert!(is_external_link("file:with:multiple:colons"));
    assert!(is_external_link("custom+scheme://example"));
    assert!(!is_external_link(":invalid"));
    assert!(!is_external_link(""));
    assert!(!is_external_link("中文:path"));
}

#[test]
fn test_fragment_link_simple() {
    let config = SiteConfig::default();
    assert_eq!(process_fragment_link("#section", &config).unwrap(), "#section");
    assert_eq!(process_fragment_link("#my-heading", &config).unwrap(), "#my-heading");
}

#[test]
fn test_fragment_link_with_spaces() {
    let config = SiteConfig::default();
    let result = process_fragment_link("#My Section", &config).unwrap();
    assert!(result.starts_with('#'));
}

#[test]
fn test_process_link_value_dispatch() {
    let config = SiteConfig::default();

    let result = process_link_value(b"/about", &config, true).unwrap();
    assert!(result.starts_with(b"/"));

    let result = process_link_value(b"#section", &config, true).unwrap();
    assert!(result.starts_with(b"#"));

    let result = process_link_value(b"https://example.com", &config, true).unwrap();
    assert_eq!(&*result, b"https://example.com");

    let result = process_link_value(b"./img.png", &config, true).unwrap();
    assert_eq!(&*result, b"./img.png");

    let result = process_link_value(b"./img.png", &config, false).unwrap();
    assert_eq!(&*result, b".././img.png");
}

#[test]
fn test_process_link_value_empty_error() {
    let config = SiteConfig::default();
    let result = process_link_value(b"", &config, true);
    assert!(result.is_err());
}

#[test]
fn test_path_starts_with_segment_exact_match() {
    assert!(path_starts_with_segment("blog", "blog"));
    assert!(path_starts_with_segment("docs", "docs"));
}

#[test]
fn test_path_starts_with_segment_with_subpath() {
    assert!(path_starts_with_segment("blog/post-1", "blog"));
    assert!(path_starts_with_segment("blog/2024/post", "blog"));
    assert!(path_starts_with_segment("docs/api/v1", "docs"));
}

#[test]
fn test_path_starts_with_segment_partial_no_match() {
    assert!(!path_starts_with_segment("blogger/post", "blog"));
    assert!(!path_starts_with_segment("blogging", "blog"));
    assert!(!path_starts_with_segment("documentation", "docs"));
}

#[test]
fn test_path_starts_with_segment_different_prefix() {
    assert!(!path_starts_with_segment("about", "blog"));
    assert!(!path_starts_with_segment("posts/blog", "blog"));
}

// A fragment is slugified: spaces become the separator, case is lowered.
#[test]
fn fragment_link_is_slugified() {
    let config = SiteConfig::default();
    assert_eq!(process_fragment_link("#My Section", &config).unwrap(), "#my-section");
}

// With a path prefix, absolute links get it prepended once.
#[test]
fn absolute_link_gets_path_prefix() {
    let mut config = SiteConfig::default();
    config.build.path_prefix = "blog".to_string();
    let result = process_link_value(b"/about", &config, true).unwrap();
    assert_eq!(&*result, b"/blog/about");
}
