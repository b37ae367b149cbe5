use tola::config::SiteConfig;
use tola::pipeline::classify::{categorize_path, classify_changes, collect_dependents, FileCategory};
use tola::pipeline::diff::normalize_url_path;
use tola::serve::{bind_next, directory_listing, guess_content_type, parent_link, BindNext};
use tola::utils::meta::PagePaths;
use tola::watch::{failure_message, format_rel, is_temp_file, rebuild_message};

fn site() -> SiteConfig {
    let mut c = SiteConfig::default();
    c.build.content = "/site/content".to_string();
    c.build.assets = "/site/assets".to_string();
    c.build.output = "/site/public".to_string();
    c.config_path = "/site/tola.toml".to_string();
    c.build.deps = vec!["/site/templates".to_string()];
    c
}

#[test]
fn content_types_by_extension() {
    assert_eq!(guess_content_type("index.html"), "text/html; charset=utf-8");
    assert_eq!(guess_content_type("a/b/style.css"), "text/css; charset=utf-8");
    assert_eq!(guess_content_type("app.mjs"), "application/javascript; charset=utf-8");
    assert_eq!(guess_content_type("logo.svg"), "image/svg+xml");
    assert_eq!(guess_content_type("font.woff2"), "font/woff2");
    assert_eq!(guess_content_type("README"), "application/octet-stream");
    assert_eq!(guess_content_type("archive.zip"), "application/octet-stream");
}

#[test]
fn directory_listing_filters_and_links() {
    let entries = vec![
        (".hidden".to_string(), false),
        ("_data".to_string(), true),
        ("posts".to_string(), true),
        ("index.html".to_string(), false),
        ("feed.xml".to_string(), false),
    ];
    let page = directory_listing(&entries, "blog", "_data", "{path}|{parent_link}|{entries}", "W", "1");
    assert_eq!(
        page,
        "blog|<li class=\"parent\"><span class=\"icon\">📂</span><a href=\"/\">..</a></li>|\
<li><span class=\"icon\">📁</span><a href=\"/blog/posts\">posts</a></li>\n            \
<li><span class=\"icon\">📄</span><a href=\"/blog/index.html\">index.html</a></li>"
    );
}

#[test]
fn empty_directory_shows_welcome() {
    let entries = vec![(".git".to_string(), true)];
    let page = directory_listing(&entries, "", "_data", "D", "{title} v{version}", "0.7.0");
    assert_eq!(page, "Welcome v0.7.0");
}

#[test]
fn parent_links() {
    assert_eq!(parent_link(""), "");
    assert!(parent_link("a/b").contains("href=\"/a\""));
}

#[test]
fn temp_files() {
    assert!(is_temp_file("notes.md~"));
    assert!(is_temp_file("/x/.index.typ.swp"));
    assert!(is_temp_file("a/b.bak"));
    assert!(is_temp_file("a/b.tmp"));
    assert!(!is_temp_file("content/index.typ"));
}

#[test]
fn relative_display() {
    assert_eq!(format_rel("/site/content", "/site", true), "content/");
    assert_eq!(format_rel("/site/tola.toml", "/site", false), "tola.toml");
    assert_eq!(format_rel("/elsewhere/x", "/site", false), "/elsewhere/x");
}

#[test]
fn page_paths_of_a_post() {
    let c = site();
    let p = PagePaths::from_source("/site/content/posts/Hello World.typ".to_string(), &c).unwrap();
    assert_eq!(p.relative, "posts/Hello World");
    assert_eq!(p.html, "/site/public/posts/hello-world/index.html");
    assert_eq!(p.url_path, "/posts/hello-world/");
    assert_eq!(p.full_url, "/posts/hello-world/");
}

#[test]
fn page_paths_root_index_with_base_url() {
    let mut c = site();
    c.base.url = Some("https://example.com/".to_string());
    let p = PagePaths::from_source("/site/content/index.typ".to_string(), &c).unwrap();
    assert_eq!(p.html, "/site/public/index.html");
    assert_eq!(p.url_path, "/");
    assert_eq!(p.full_url, "https://example.com/");
}

#[test]
fn page_paths_with_prefix() {
    let mut c = site();
    c.build.path_prefix = "blog".to_string();
    let p = PagePaths::from_source("/site/content/about.typ".to_string(), &c).unwrap();
    assert_eq!(p.html, "/site/public/blog/about/index.html");
    assert_eq!(p.url_path, "/blog/about/");
}

#[test]
fn page_paths_errors() {
    let c = site();
    assert!(PagePaths::from_source("/other/x.typ".to_string(), &c).is_err());
    assert!(PagePaths::from_source("/site/content/x.md".to_string(), &c).is_err());
}

#[test]
fn url_paths_are_normalized() {
    assert_eq!(normalize_url_path("posts//hello/?q=1#top"), "/posts/hello");
    assert_eq!(normalize_url_path("/"), "/");
    assert_eq!(normalize_url_path(""), "/");
    let once = normalize_url_path("a//b/");
    assert_eq!(normalize_url_path(&once), once);
}

#[test]
fn categories() {
    let c = site();
    assert!(matches!(categorize_path("/site/content/a.typ", &c), FileCategory::Content));
    assert!(matches!(categorize_path("/site/tola.toml", &c), FileCategory::Config));
    assert!(matches!(categorize_path("/site/templates/base.typ", &c), FileCategory::Deps));
    assert!(matches!(categorize_path("/tmp/x", &c), FileCategory::Unknown));
}

#[test]
fn classify_plans_rebuilds() {
    let c = site();
    let paths = vec!["/site/content/a.typ".to_string(), "/site/content/a.typ".to_string()];
    let r = classify_changes(&paths, &paths, &vec![], &c);
    assert!(!r.config_changed);
    assert_eq!(r.content_to_compile, paths);
    // A dependency change merges its dependents with the changed content, once each.
    let paths = vec!["/site/templates/base.typ".to_string(), "/site/content/a.typ".to_string()];
    let deps = vec!["/site/content/a.typ".to_string(), "/site/content/b.typ".to_string()];
    let r = classify_changes(&paths, &paths, &deps, &c);
    assert!(!r.config_changed);
    let mut got = r.content_to_compile.clone();
    got.sort();
    assert_eq!(got, deps);
    // A dependency change with no dependents is a full rebuild.
    let paths = vec!["/site/templates/base.typ".to_string()];
    let r = classify_changes(&paths, &paths, &vec![], &c);
    assert!(r.config_changed);
    assert!(r.note.is_some());
    let paths = vec!["/site/tola.toml".to_string()];
    let r = classify_changes(&paths, &paths, &vec![], &c);
    assert!(r.config_changed);
}

#[test]
fn rebuild_status_lines() {
    assert_eq!(rebuild_message(1, "content/post"), "rebuilt: content/post");
    assert_eq!(rebuild_message(3, "content/post"), "rebuilt 3 files");
    assert_eq!(rebuild_message(0, "x"), "rebuilt 0 files");
    let deps = vec!["templates/base".to_string(), "utils/x".to_string()];
    let files = vec!["content/a".to_string()];
    assert_eq!(failure_message(true, &deps, &files), "failed: templates/base, utils/x");
    assert_eq!(failure_message(false, &deps, &files), "failed: content/a");
    assert_eq!(failure_message(false, &deps, &[]), "failed: ");
}

#[test]
fn dependents_are_collected_once() {
    let graph = vec![
        ("/t/base.typ".to_string(), vec!["/c/a.typ".to_string(), "/c/b.typ".to_string()]),
        ("/t/nav.typ".to_string(), vec!["/c/b.typ".to_string(), "/c/c.typ".to_string()]),
        ("/t/base.typ".to_string(), vec!["/c/ignored.typ".to_string()]),
    ];
    let changed = vec!["/t/base.typ".to_string(), "/t/nav.typ".to_string(), "/t/none.typ".to_string()];
    let mut got = collect_dependents(&changed, &graph);
    got.sort();
    assert_eq!(got, vec!["/c/a.typ".to_string(), "/c/b.typ".to_string(), "/c/c.typ".to_string()]);
    assert!(collect_dependents(&["/t/none.typ".to_string()], &graph).is_empty());
}

#[test]
fn port_binding_steps() {
    assert_eq!(bind_next(5277, 0, 10, true, ""), BindNext::Bound { port: 5277, note: None });
    assert_eq!(
        bind_next(5277, 2, 10, true, ""),
        BindNext::Bound { port: 5279, note: Some("port 5277 in use, using 5279 instead".to_string()) }
    );
    assert_eq!(bind_next(5277, 3, 10, false, "in use"), BindNext::Retry);
    assert_eq!(
        bind_next(5277, 9, 10, false, "in use"),
        BindNext::GiveUp("Failed to bind after 10 attempts (ports 5277-5286): in use".to_string())
    );
    assert_eq!(bind_next(65535, 1, 2, true, ""), BindNext::Bound {
        port: 65535,
        note: Some("port 65535 in use, using 65535 instead".to_string())
    });
}
