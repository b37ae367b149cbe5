use tola::config::SiteConfig;
use tola::utils::xml::{compute_asset_href, get_icon_mime_type, is_external_link, process_link_value};

#[test]
fn test_get_icon_mime_type_ico() {
    assert_eq!(get_icon_mime_type("favicon.ico"), "image/x-icon");
}

#[test]
fn test_get_icon_mime_type_png() {
    assert_eq!(get_icon_mime_type("icon.png"), "image/png");
}

#[test]
fn test_get_icon_mime_type_svg() {
    assert_eq!(get_icon_mime_type("logo.svg"), "image/svg+xml");
}

#[test]
fn test_get_icon_mime_type_avif() {
    assert_eq!(get_icon_mime_type("image.avif"), "image/avif");
}

#[test]
fn test_get_icon_mime_type_webp() {
    assert_eq!(get_icon_mime_type("photo.webp"), "image/webp");
}

#[test]
fn test_get_icon_mime_type_gif() {
    assert_eq!(get_icon_mime_type("animation.gif"), "image/gif");
}

#[test]
fn test_get_icon_mime_type_jpeg() {
    assert_eq!(get_icon_mime_type("photo.jpg"), "image/jpeg");
    assert_eq!(get_icon_mime_type("photo.jpeg"), "image/jpeg");
}

#[test]
fn test_get_icon_mime_type_unknown_defaults_to_ico() {
    assert_eq!(get_icon_mime_type("file.xyz"), "image/x-icon");
}

#[test]
fn test_get_icon_mime_type_no_extension_defaults_to_ico() {
    assert_eq!(get_icon_mime_type("favicon"), "image/x-icon");
}

#[test]
fn test_get_icon_mime_type_case_insensitive() {
    assert_eq!(get_icon_mime_type("icon.PNG"), "image/png");
    assert_eq!(get_icon_mime_type("logo.SVG"), "image/svg+xml");
    assert_eq!(get_icon_mime_type("photo.JPEG"), "image/jpeg");
}

fn asset_config() -> SiteConfig {
    let mut config = SiteConfig::default();
    config.build.assets = "/assets".to_string();
    config.build.output = "/output".to_string();
    config
}

#[test]
fn test_compute_asset_href_simple_path() {
    let config = asset_config();
    let result = compute_asset_href("images/icon.png", &config).unwrap();
    assert_eq!(result, "/images/icon.png");
}

#[test]
fn test_compute_asset_href_with_dot_prefix() {
    let config = asset_config();
    let result = compute_asset_href("./images/icon.png", &config).unwrap();
    assert_eq!(result, "/images/icon.png");
}

#[test]
fn test_compute_asset_href_with_assets_prefix() {
    let config = asset_config();
    let result = compute_asset_href("assets/images/icon.png", &config).unwrap();
    assert_eq!(result, "/images/icon.png");
}

#[test]
fn test_compute_asset_href_with_dot_and_assets_prefix() {
    let config = asset_config();
    let result = compute_asset_href("./assets/images/icon.png", &config).unwrap();
    assert_eq!(result, "/images/icon.png");
}

#[test]
fn test_compute_asset_href_with_path_prefix() {
    let mut config = asset_config();
    config.build.path_prefix = "blog".to_string();
    let result = compute_asset_href("images/icon.png", &config).unwrap();
    assert_eq!(result, "/blog/images/icon.png");
}

#[test]
fn test_compute_asset_href_full_path_with_prefix() {
    let mut config = asset_config();
    config.build.path_prefix = "mysite".to_string();
    let result = compute_asset_href("./assets/scripts/main.js", &config).unwrap();
    assert_eq!(result, "/mysite/scripts/main.js");
}

#[test]
fn test_is_external_link_http() {
    assert!(is_external_link("http://example.com"));
    assert!(is_external_link("https://example.com/path"));
}

#[test]
fn test_is_external_link_mailto() {
    assert!(is_external_link("mailto:user@example.com"));
}

#[test]
fn test_is_external_link_relative_path() {
    assert!(!is_external_link("/path/to/page"));
    assert!(!is_external_link("./relative/path"));
    assert!(!is_external_link("../parent/path"));
}

#[test]
fn test_is_external_link_anchor() {
    assert!(!is_external_link("#section"));
}

#[test]
fn test_process_link_value() {
    let config = SiteConfig::default();

    let result = process_link_value(b"/about", &config).unwrap();
    assert_eq!(String::from_utf8_lossy(&result), "/about");

    let result = process_link_value(b"#header", &config).unwrap();
    assert_eq!(String::from_utf8_lossy(&result), "#header");

    let result = process_link_value(b"contact", &config).unwrap();
    assert_eq!(String::from_utf8_lossy(&result), "../contact");

    let result = process_link_value(b"/about#team", &config).unwrap();
    assert_eq!(String::from_utf8_lossy(&result), "/about#team");

    let result = process_link_value(b"contact#form", &config).unwrap();
    assert_eq!(String::from_utf8_lossy(&result), "../contact#form");

    let result = process_link_value(b"../images/logo.png", &config).unwrap();
    assert_eq!(String::from_utf8_lossy(&result), "../../images/logo.png");
}

// Invalid UTF-8 in a link value is an error.
#[test]
fn link_value_rejects_invalid_utf8() {
    let config = SiteConfig::default();
    assert!(process_link_value(&[0xff, 0xfe], &config).is_err());
}
