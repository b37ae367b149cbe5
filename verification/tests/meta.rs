use tola::config::SiteConfig;
use tola::utils::meta::{collect_pages, days_to_ymd, PageMeta, PagePaths, Pages};

#[test]
fn test_days_to_ymd_unix_epoch() {
    assert_eq!(days_to_ymd(0), (1970, 1, 1));
}

#[test]
fn test_days_to_ymd_one_year() {
    assert_eq!(days_to_ymd(365), (1971, 1, 1));
}

#[test]
fn test_days_to_ymd_leap_year() {
    assert_eq!(days_to_ymd(730), (1972, 1, 1));
    assert_eq!(days_to_ymd(730 + 31 + 28), (1972, 2, 29));
}

#[test]
fn test_days_to_ymd_2025() {
    assert_eq!(days_to_ymd(20089), (2025, 1, 1));
}

#[test]
fn test_days_to_ymd_negative() {
    assert_eq!(days_to_ymd(-1), (1969, 12, 31));
}

#[test]
fn test_days_to_ymd_century_boundary() {
    assert_eq!(days_to_ymd(10957), (2000, 1, 1));
}

#[test]
fn test_days_to_ymd_end_of_year() {
    assert_eq!(days_to_ymd(364), (1970, 12, 31));
}

#[test]
fn days_to_ymd_far_dates() {
    // 1900 is not a leap year, 2000 is.
    assert_eq!(days_to_ymd(-25508), (1900, 3, 1));
    assert_eq!(days_to_ymd(-25509), (1900, 2, 28));
    assert_eq!(days_to_ymd(11016), (2000, 2, 29));
    // Before year zero of the proleptic calendar.
    assert_eq!(days_to_ymd(-719529), (-1, 12, 31));
    assert_eq!(days_to_ymd(-719528), (0, 1, 1));
}

fn page(source: &str, relative: &str, html: &str, url_path: &str, full_url: &str, lastmod: Option<u64>) -> PageMeta {
    PageMeta {
        paths: PagePaths {
            source: source.to_string(),
            html: html.to_string(),
            relative: relative.to_string(),
            url_path: url_path.to_string(),
            full_url: full_url.to_string(),
        },
        lastmod,
    }
}

#[test]
fn test_lastmod_ymd_some() {
    let days_since_epoch = 20254u64;
    let secs = days_since_epoch * 86400;
    let page = page(
        "test.typ",
        "test",
        "public/test/index.html",
        "/test/",
        "https://example.com/test/",
        Some(secs),
    );
    let ymd = page.lastmod_ymd().unwrap();
    assert!(ymd.len() == 10);
    assert!(ymd.starts_with("2025-"));
}

#[test]
fn test_lastmod_ymd_none() {
    let page = page("test.typ", "test", "public/test/index.html", "/test/", "https://example.com/test/", None);
    assert_eq!(page.lastmod_ymd(), None);
}

#[test]
fn lastmod_ymd_exact_dates() {
    let at = |secs: u64| page("a.typ", "a", "public/a/index.html", "/a/", "/a/", Some(secs)).lastmod_ymd().unwrap();
    assert_eq!(at(20254 * 86400), "2025-06-15");
    assert_eq!(at(20254 * 86400 + 86399), "2025-06-15");
    assert_eq!(at(0), "1970-01-01");
    assert_eq!(at(951782400), "2000-02-29");
}

#[test]
fn test_page_meta_fields() {
    let page = page(
        "content/posts/hello.typ",
        "posts/hello",
        "public/posts/hello/index.html",
        "/posts/hello/",
        "https://example.com/posts/hello/",
        None,
    );
    assert_eq!(page.paths.source, "content/posts/hello.typ");
    assert_eq!(page.paths.html, "public/posts/hello/index.html");
    assert_eq!(page.paths.relative, "posts/hello");
    assert_eq!(page.paths.url_path, "/posts/hello/");
    assert_eq!(page.paths.full_url, "https://example.com/posts/hello/");
}

#[test]
fn test_page_meta_root_index() {
    let page = page("content/index.typ", "index", "public/index.html", "/", "https://example.com/", None);
    assert_eq!(page.paths.relative, "index");
    assert_eq!(page.paths.url_path, "/");
    assert_eq!(page.paths.full_url, "https://example.com/");
}

#[test]
fn test_page_meta_with_path_prefix() {
    let page = page(
        "content/posts/hello.typ",
        "posts/hello",
        "public/blog/posts/hello/index.html",
        "/blog/posts/hello/",
        "https://example.com/blog/posts/hello/",
        None,
    );
    assert_eq!(page.paths.html, "public/blog/posts/hello/index.html");
    assert_eq!(page.paths.url_path, "/blog/posts/hello/");
    assert_eq!(page.paths.full_url, "https://example.com/blog/posts/hello/");
}

#[test]
fn test_page_meta_case_mismatch() {
    let mut config = SiteConfig::default();
    config.build.output = "Public".to_string();
    config.build.content = "content".to_string();
    let page = PageMeta::from_source("content/Posts/Hello.typ".to_string(), &config, None).unwrap();
    assert_eq!(page.paths.html, "Public/posts/hello/index.html");
    assert_eq!(page.paths.url_path, "/posts/hello/");
}

#[test]
fn test_pages_empty() {
    let pages = Pages::default();
    assert_eq!(pages.len(), 0);
    assert_eq!(pages.iter().count(), 0);
}

#[test]
fn test_pages_with_items() {
    let pages = Pages {
        items: vec![
            page("a.typ", "a", "public/a/index.html", "/a/", "https://example.com/a/", None),
            page("b.typ", "b", "public/b/index.html", "/b/", "https://example.com/b/", None),
        ],
    };
    assert_eq!(pages.len(), 2);
    assert_eq!(pages.iter().count(), 2);
}

#[test]
fn test_pages_iter_urls() {
    let pages = Pages {
        items: vec![
            page("index.typ", "index", "public/index.html", "/", "https://example.com/", None),
            page(
                "posts/hello.typ",
                "posts/hello",
                "public/posts/hello/index.html",
                "/posts/hello/",
                "https://example.com/posts/hello/",
                None,
            ),
        ],
    };
    let urls: Vec<_> = pages.iter().map(|p| p.paths.full_url.as_str()).collect();
    assert_eq!(urls, vec!["https://example.com/", "https://example.com/posts/hello/"]);
}

#[test]
fn collect_pages_keeps_pages_in_order() {
    let mut config = SiteConfig::default();
    config.base.url = Some("https://example.com".to_string());
    let files = vec![
        ("content/index.typ".to_string(), Some(0)),
        ("content/notes.md".to_string(), None),
        ("elsewhere/x.typ".to_string(), None),
        ("content/posts/First Post.typ".to_string(), Some(86400)),
    ];
    let pages = collect_pages(&config, &files);
    assert_eq!(pages.len(), 2);
    assert_eq!(pages.items[0].paths.full_url, "https://example.com/");
    assert_eq!(pages.items[0].lastmod, Some(0));
    assert_eq!(pages.items[1].paths.relative, "posts/First Post");
    assert_eq!(pages.items[1].paths.url_path, "/posts/first-post/");
    assert_eq!(pages.items[1].lastmod, Some(86400));
    assert_eq!(pages.items[1].lastmod_ymd().unwrap(), "1970-01-02");
}
