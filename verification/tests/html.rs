use quick_xml::Reader;
use tola::config::{HeadScript, SiteConfig};
use tola::error::Error;
use tola::utils::svg::compress::get_log_prefix;
use tola::utils::svg::extract::{capture_svg_content, capture_svg_element};
use tola::utils::xml::common::{
    escape_attribute, write_empty_elem, write_script, write_text_element, XmlTag, XmlWriter,
};
use tola::utils::xml::head::write_head_content;
use tola::utils::xml::processor::{
    process_html, write_element_with_processed_links, write_heading_with_slugified_id, write_html_with_lang,
    write_img_with_color_invert, HtmlPiece,
};

fn output(writer: XmlWriter) -> String {
    String::from_utf8(writer.into_inner()).unwrap()
}

#[test]
fn test_write_empty_elem_stylesheet() {
    let mut writer = XmlWriter::new();
    write_empty_elem(&mut writer, "link", &[("rel", "stylesheet"), ("href", "/styles/main.css")]);
    let output = output(writer);
    assert!(output.contains("link"));
    assert!(output.contains("rel=\"stylesheet\""));
    assert!(output.contains("href=\"/styles/main.css\""));
}

#[test]
fn test_write_script_basic() {
    let mut writer = XmlWriter::new();
    write_script(&mut writer, "/scripts/main.js", false, false);
    let output = output(writer);
    assert!(output.contains("<script"));
    assert!(output.contains("src=\"/scripts/main.js\""));
    assert!(output.contains("</script>"));
    assert!(!output.contains("defer"));
    assert!(!output.contains("async"));
}

#[test]
fn test_write_script_with_defer() {
    let mut writer = XmlWriter::new();
    write_script(&mut writer, "/scripts/main.js", true, false);
    let output = output(writer);
    assert!(output.contains("defer"));
    assert!(!output.contains("async"));
}

#[test]
fn test_write_script_with_async() {
    let mut writer = XmlWriter::new();
    write_script(&mut writer, "/scripts/main.js", false, true);
    let output = output(writer);
    assert!(!output.contains("defer"));
    assert!(output.contains("async"));
}

#[test]
fn test_write_script_with_both_defer_and_async() {
    let mut writer = XmlWriter::new();
    write_script(&mut writer, "/scripts/main.js", true, true);
    let output = output(writer);
    assert!(output.contains("defer"));
    assert!(output.contains("async"));
}

#[test]
fn written_elements_exactly() {
    let mut writer = XmlWriter::new();
    write_text_element(&mut writer, "title", "Tom & Jerry <3");
    write_empty_elem(&mut writer, "meta", &[("content", "a \"b\"\n")]);
    write_script(&mut writer, "/s.js", true, true);
    assert_eq!(
        output(writer),
        "<title>Tom &amp; Jerry &lt;3</title><meta content=\"a &quot;b&quot;&#10;\"/>\
         <script src=\"/s.js\" defer=\"\" async=\"\"> </script>"
    );
    assert_eq!(escape_attribute("<'\t&>"), "&lt;&apos;&#9;&amp;&gt;");
}

fn head_config() -> SiteConfig {
    let mut config = SiteConfig::default();
    config.base.title = "My Site".to_string();
    config.base.description = "About things".to_string();
    config.build.assets = "assets".to_string();
    config.build.head.icon = Some("assets/favicon.png".to_string());
    config.build.head.styles = vec!["css/main.css".to_string()];
    config.build.head.scripts = vec![HeadScript { path: "./assets/js/app.js".to_string(), defer: true, async_load: false }];
    config.build.head.elements = vec!["<meta name=\"x\" content=\"y\"/>".to_string()];
    config
}

#[test]
fn head_content_in_order() {
    let config = head_config();
    let mut writer = XmlWriter::new();
    write_head_content(&mut writer, &config).unwrap();
    assert_eq!(
        output(writer),
        "<title>My Site</title><meta name=\"description\" content=\"About things\"/>\
         <link rel=\"shortcut icon\" href=\"/favicon.png\" type=\"image/png\"/>\
         <link rel=\"stylesheet\" href=\"/css/main.css\"/>\
         <script src=\"/js/app.js\" defer=\"\"> </script>\
         <meta name=\"x\" content=\"y\"/></head>"
    );
}

#[test]
fn head_content_with_unresolved_tailwind_input() {
    let mut config = head_config();
    config.build.tailwind.enable = true;
    config.build.tailwind.input = Some("styles/input.css".to_string());
    let mut writer = XmlWriter::new();
    assert_eq!(
        write_head_content(&mut writer, &config),
        Err(Error::CannotResolve("styles/input.css".to_string()))
    );
}

#[test]
fn head_content_of_empty_config() {
    let mut writer = XmlWriter::new();
    write_head_content(&mut writer, &SiteConfig::default()).unwrap();
    assert_eq!(output(writer), "</head>");
}

fn tag(name: &str, attrs: &str) -> XmlTag {
    XmlTag { name: name.to_string(), attrs: attrs.to_string() }
}

#[test]
fn html_gets_language() {
    let mut config = SiteConfig::default();
    config.base.language = "zh-CN".to_string();
    let mut writer = XmlWriter::new();
    write_html_with_lang(&tag("html", " class='x'"), &mut writer, &config);
    assert_eq!(output(writer), "<html class='x' lang=\"zh-CN\">");
}

#[test]
fn heading_ids_are_slugified() {
    let config = SiteConfig::default();
    let mut writer = XmlWriter::new();
    write_heading_with_slugified_id(&tag("h2", " id=\"Hello World\" class='t'"), &mut writer, &config);
    assert_eq!(output(writer), "<h2 id=\"hello-world\" class=\"t\">");
}

#[test]
fn links_are_rewritten() {
    let mut config = SiteConfig::default();
    config.build.path_prefix = "blog".to_string();
    let mut writer = XmlWriter::new();
    write_element_with_processed_links(&tag("a", " href=\"/about\" title=\"x\""), &mut writer, &config, false).unwrap();
    assert_eq!(output(writer), "<a href=\"/blog/about\" title=\"x\">");
    let mut writer = XmlWriter::new();
    assert_eq!(
        write_element_with_processed_links(&tag("a", " href=\"\""), &mut writer, &config, false),
        Err(Error::EmptyLink)
    );
}

#[test]
fn svg_images_get_color_invert() {
    let config = SiteConfig::default();
    let mut writer = XmlWriter::new();
    write_img_with_color_invert(&tag("img", " src=\"/pic.svg\""), &mut writer, &config, false).unwrap();
    assert_eq!(output(writer), "<img src=\"/pic.svg\" class=\"color-invert\">");

    let mut writer = XmlWriter::new();
    write_img_with_color_invert(&tag("img", " class=\"wide\" src=\"/pic.svgz\""), &mut writer, &config, false).unwrap();
    assert_eq!(output(writer), "<img class=\"wide color-invert\" src=\"/pic.svgz\">");

    let mut writer = XmlWriter::new();
    write_img_with_color_invert(&tag("img", " class=\"a color-invert\" src=\"/p.svg\""), &mut writer, &config, false)
        .unwrap();
    assert_eq!(output(writer), "<img class=\"a color-invert\" src=\"/p.svg\">");

    let mut writer = XmlWriter::new();
    write_img_with_color_invert(&tag("img", " src=\"/photo.png\" class=\"x\""), &mut writer, &config, false).unwrap();
    assert_eq!(output(writer), "<img src=\"/photo.png\" class=\"x\">");
}

#[test]
fn reader_events_pass_through_with_attributes_requoted() {
    let config = SiteConfig::default();
    let page = "<p x='1'>t&amp;<!--c--><b/></p>";
    let pieces = process_html(page.as_bytes(), &config, false).unwrap();
    assert_eq!(pieces.len(), 1);
    match &pieces[0] {
        HtmlPiece::Html(s) => assert_eq!(s, "<p x=\"1\">t&amp;<!--c--><b/></p>"),
        HtmlPiece::Svg(_, _) => panic!("no SVG expected"),
    }
}

fn svg_reader(xml: &str) -> Reader<&[u8]> {
    let mut reader = Reader::from_str(xml);
    reader.config_mut().check_end_names = false;
    let _ = reader.read_event().unwrap();
    reader
}

#[test]
fn test_capture_svg_content() {
    let mut reader = svg_reader(r#"<svg><rect x="0" y="0" width="10" height="10" /></svg>"#);
    let attrs = vec![];
    let captured = capture_svg_content(&mut reader, &attrs).unwrap();
    let s = String::from_utf8(captured).unwrap();
    assert_eq!(s, r#"<svg><rect x="0" y="0" width="10" height="10"/></svg>"#);
}

#[test]
fn test_capture_svg_content_nested() {
    let mut reader = svg_reader(r#"<svg><g><svg viewBox="0 0 10 10"><rect /></svg></g></svg>"#);
    let attrs = vec![];
    let captured = capture_svg_content(&mut reader, &attrs).unwrap();
    let s = String::from_utf8(captured).unwrap();
    assert_eq!(s, r#"<svg><g><svg viewBox="0 0 10 10"><rect/></svg></g></svg>"#);
}

#[test]
fn test_capture_svg_content_with_attrs() {
    let mut reader = svg_reader(r#"<svg><rect /></svg>"#);
    let attrs = vec![("width".to_string(), "100".to_string()), ("height".to_string(), "100".to_string())];
    let captured = capture_svg_content(&mut reader, &attrs).unwrap();
    let s = String::from_utf8(captured).unwrap();
    assert_eq!(s, r#"<svg width="100" height="100"><rect/></svg>"#);
}

#[test]
fn capture_fails_on_truncated_svg() {
    let mut reader = svg_reader(r#"<svg><g>"#);
    assert_eq!(capture_svg_content(&mut reader, &[]), Err(Error::UnexpectedEof));
    // An end tag with no open element is refused by the parser or by the
    // capture itself.
    let mut reader = svg_reader(r#"<svg><g></a></b></c>"#);
    let r = capture_svg_content(&mut reader, &[]);
    assert!(r == Err(Error::XmlParse) || r == Err(Error::UnbalancedTags));
}

#[test]
fn process_html_rewrites_page() {
    let mut config = SiteConfig::default();
    config.base.title = "T".to_string();
    config.build.css.auto_enhance = false;
    let page = "<html><head><meta charset=\"utf-8\"/></head><body><h1 id=\"A B\">x &amp; y</h1>\
                <a href=\"#Top Part\">t</a><img src=\"/i.svg\"/></body></html>";
    let pieces = process_html(page.as_bytes(), &config, false).unwrap();
    assert_eq!(pieces.len(), 1);
    match &pieces[0] {
        HtmlPiece::Html(s) => assert_eq!(
            s,
            "<html lang=\"en\"><head><meta charset=\"utf-8\"/><title>T</title></head><body>\
             <h1 id=\"a-b\">x &amp; y</h1><a href=\"#top-part\">t</a><img src=\"/i.svg\"/></body></html>"
        ),
        HtmlPiece::Svg(_, _) => panic!("no SVG expected"),
    }
}

#[test]
fn process_html_cuts_out_svgs() {
    let mut config = SiteConfig::default();
    config.build.extract_svg = true;
    let page = "<p>a</p><svg width=\"3pt\"><path d=\"M0\"/></svg><p>b</p>";
    let pieces = process_html(page.as_bytes(), &config, false).unwrap();
    assert_eq!(pieces.len(), 3);
    match (&pieces[0], &pieces[1], &pieces[2]) {
        (HtmlPiece::Html(a), HtmlPiece::Svg(t, body), HtmlPiece::Html(b)) => {
            assert_eq!(a, "<p>a</p>");
            assert_eq!(t.name, "svg");
            assert_eq!(t.attrs, " width=\"3pt\"");
            assert_eq!(body, "<path d=\"M0\"/></svg>");
            assert_eq!(b, "<p>b</p>");
        },
        _ => panic!("unexpected pieces"),
    }
}

#[test]
fn process_html_reports_empty_links() {
    let config = SiteConfig::default();
    assert_eq!(process_html(b"<p><a href=\"\">x</a></p>", &config, false).unwrap_err(), Error::EmptyLink);
}

#[test]
fn test_get_log_prefix() {
    let mut config = SiteConfig::default();
    config.build.output = "public".to_string();

    let path = "public/blog/post/index.html";
    assert_eq!(get_log_prefix(path, &config), "blog/post/");

    let path = "public/index.html";
    assert_eq!(get_log_prefix(path, &config), "");
}

#[test]
fn log_prefix_of_a_page_elsewhere_is_empty() {
    let mut config = SiteConfig::default();
    config.build.output = "public".to_string();
    assert_eq!(get_log_prefix("other/a/index.html", &config), "");
    assert_eq!(get_log_prefix("public/a/page.html", &config), "a/page.html");
}

#[test]
fn capture_svg_element_from_bytes() {
    let attrs = vec![("width".to_string(), "10pt".to_string())];
    let out = capture_svg_element(br#"<svg w="1"><g><rect x="0"/></g></svg><p>after</p>"#, &attrs).unwrap();
    assert_eq!(String::from_utf8(out).unwrap(), r#"<svg width="10pt"><g><rect x="0"/></g></svg>"#);
    assert_eq!(capture_svg_element(b"", &[]), Err(Error::UnexpectedEof));
    assert_eq!(capture_svg_element(b"text<svg/>", &[]), Err(Error::UnbalancedTags));
    assert!(capture_svg_element(b"<svg><g>", &[]).is_err());
}
