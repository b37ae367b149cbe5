use tola::vdom::folder::{process_family_ext, NodeIdGenerator};
use tola::vdom::id::StableId;
use tola::vdom::node::{FamilyExt, IndexedElemExt, NodeId, RawElemExt, Text};
use tola::vdom::transforms::indexer::{classify_link, get_attr, LinkType};

#[test]
fn test_node_id_generator() {
    let mut id_gen = NodeIdGenerator::new();
    assert_eq!(id_gen.next().as_u32(), 0);
    assert_eq!(id_gen.next().as_u32(), 1);
    assert_eq!(id_gen.next().as_u32(), 2);
    assert_eq!(id_gen.current(), 3);
}

#[test]
fn test_process_family_ext() {
    let indexed_ext: FamilyExt<IndexedElemExt> = FamilyExt::Svg(IndexedElemExt::placeholder());
    let processed_ext = process_family_ext(indexed_ext);
    assert!(processed_ext.is_svg());
    assert!(!processed_ext.is_modified());
}

#[test]
fn test_detached_id() {
    let id = StableId::detached();
    assert!(id.is_detached());
    assert!(!id.has_span());
}

#[test]
fn test_content_hash_deterministic() {
    let attrs = vec![("class".to_string(), "foo".to_string())];
    let children = vec![StableId::from_raw(1), StableId::from_raw(2)];
    let id1 = StableId::from_content_hash("div", &attrs, &children);
    let id2 = StableId::from_content_hash("div", &attrs, &children);
    assert_eq!(id1, id2);
}

#[test]
fn test_content_hash_differs() {
    let attrs1 = vec![("class".to_string(), "foo".to_string())];
    let attrs2 = vec![("class".to_string(), "bar".to_string())];
    let children: Vec<StableId> = vec![];
    let id1 = StableId::from_content_hash("div", &attrs1, &children);
    let id2 = StableId::from_content_hash("div", &attrs2, &children);
    assert_ne!(id1, id2);
}

#[test]
fn test_display_format() {
    let id = StableId::from_raw(0x123456789abcdef0);
    assert_eq!(id.to_display_string(), "#123456789abcdef0");
}

#[test]
fn test_node_id_display() {
    let id = NodeId::new(42);
    assert_eq!(id.to_display_string(), "#42");
}

#[test]
fn test_text_node() {
    let text: Text<()> = Text::new("  hello world  ");
    assert!(!text.is_empty());
    assert!(!text.is_whitespace());
    assert_eq!(text.trimmed(), "hello world");
}

#[test]
fn test_family_ext_explicit_construction() {
    let ext: FamilyExt<RawElemExt> = FamilyExt::Other(RawElemExt::detached());
    assert!(ext.is_other());
    assert_eq!(ext.family_name(), "other");

    let svg_ext: FamilyExt<RawElemExt> = FamilyExt::Svg(RawElemExt::detached());
    assert!(svg_ext.is_svg());
    assert_eq!(svg_ext.family_name(), "svg");
}

#[test]
fn test_classify_link() {
    assert_eq!(classify_link("#section"), LinkType::Fragment);
    assert_eq!(classify_link("https://example.com"), LinkType::External);
    assert_eq!(classify_link("http://example.com"), LinkType::External);
    assert_eq!(classify_link("/about"), LinkType::Absolute);
    assert_eq!(classify_link("./page.html"), LinkType::Relative);
    assert_eq!(classify_link("../index.html"), LinkType::Relative);
    assert_eq!(classify_link("page.html"), LinkType::Relative);
    assert_eq!(classify_link("mailto:test@example.com"), LinkType::External);
}

// Attribute order does not change an element's identity.
#[test]
fn element_id_ignores_attribute_order() {
    let a1 = vec![("id".to_string(), "x".to_string()), ("class".to_string(), "y".to_string())];
    let a2 = vec![("class".to_string(), "y".to_string()), ("id".to_string(), "x".to_string())];
    let c = vec![StableId::from_raw(7)];
    assert_eq!(StableId::for_element("p", &a1, &c, 3), StableId::for_element("p", &a2, &c, 3));
    assert_ne!(StableId::for_element("p", &a1, &c, 3), StableId::for_element("p", &a1, &c, 4));
}

// The position tells identical text siblings apart.
#[test]
fn text_id_depends_on_position() {
    assert_eq!(StableId::for_text("same", 0), StableId::from_text_content("same"));
    assert_ne!(StableId::for_text("same", 0), StableId::for_text("same", 1));
    assert_ne!(StableId::for_frame(0, 0), StableId::for_frame(1, 0));
}

#[test]
fn attr_value_is_lowercase_hex() {
    assert_eq!(StableId::from_raw(0).to_attr_value(), "0");
    assert_eq!(StableId::from_raw(255).to_attr_value(), "ff");
    assert_eq!(StableId::from_raw(0xABCDEF).to_attr_value(), "abcdef");
}

#[test]
fn archive_roundtrip() {
    for raw in [0u64, 1, 0x0102030405060708, u64::MAX] {
        let id = StableId::from_raw(raw);
        assert_eq!(id.archive().as_raw(), raw);
    }
}

#[test]
fn get_attr_finds_the_first() {
    let attrs = vec![
        ("href".to_string(), "/a".to_string()),
        ("id".to_string(), "x".to_string()),
        ("href".to_string(), "/b".to_string()),
    ];
    assert_eq!(get_attr(&attrs, "href"), Some("/a"));
    assert_eq!(get_attr(&attrs, "src"), None);
}

#[test]
fn whitespace_text() {
    let t: Text<()> = Text::new(" \t\n ");
    assert!(t.is_whitespace());
    assert_eq!(t.len(), 4);
    let e: Text<()> = Text::new("");
    assert!(e.is_empty());
}

#[test]
fn default_id_is_detached() {
    assert!(StableId::default().is_detached());
    assert_eq!(StableId::default(), StableId::detached());
}
