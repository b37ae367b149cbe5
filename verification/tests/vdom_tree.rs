use tola::vdom::folder::ProcessFolder;
use tola::vdom::id::StableId;
use tola::vdom::node::{Document, Element, FamilyData, FamilyExt, Frame, Node, RawElemExt, Text};
use tola::vdom::transforms::indexer::{Indexer, LinkType, RawElement, RawNode};
use tola::vdom::transform::Transform;

fn el(tag: &str, attrs: &[(&str, &str)], ext: FamilyExt<RawElemExt>, children: Vec<RawNode>) -> RawElement {
    Element {
        tag: tag.to_string(),
        attrs: attrs.iter().map(|(k, v)| (k.to_string(), v.to_string())).collect(),
        children,
        ext,
    }
}

fn raw() -> RawElemExt {
    RawElemExt { span: None }
}

fn text(s: &str) -> RawNode {
    Node::Text(Text { content: s.to_string(), ext: () })
}

fn sample() -> RawElement {
    let link = el("a", &[("href", "https://example.com")], FamilyExt::Link(raw()), vec![text("go")]);
    let svg = el("svg", &[("viewBox", "0 0 1 1")], FamilyExt::Svg(raw()), vec![]);
    let img = el("img", &[("src", "Logo.SVG")], FamilyExt::Media(raw()), vec![]);
    let frame: RawNode = Node::Frame(Box::new(Frame { ext: () }));
    el(
        "html",
        &[],
        FamilyExt::Other(raw()),
        vec![Node::Element(Box::new(link)), Node::Element(Box::new(svg)), frame, Node::Element(Box::new(img))],
    )
}

#[test]
fn test_indexer_basic() {
    let raw_doc = Document::new(el("html", &[], FamilyExt::Other(raw()), vec![]), ());
    let indexed = Indexer::new().transform(raw_doc);
    assert_eq!(indexed.ext.node_count, 1);
    assert_eq!(indexed.ext.element_count, 1);
}

#[test]
fn indexer_numbers_and_family_data() {
    let indexed = Indexer::new().transform(Document::new(sample(), ()));
    let e = &indexed.ext;
    // html 0, a 1, svg 2, frame 3, img 4
    assert_eq!(e.node_count, 5);
    assert_eq!(e.element_count, 4);
    assert_eq!(e.text_count, 1);
    assert_eq!(e.frame_count, 1);
    assert_eq!(e.link_nodes.iter().map(|n| n.0).collect::<Vec<_>>(), vec![1]);
    assert_eq!(e.svg_nodes.iter().map(|n| n.0).collect::<Vec<_>>(), vec![2]);
    assert_eq!(e.frame_nodes.iter().map(|n| n.0).collect::<Vec<_>>(), vec![3]);
    assert_eq!(e.media_nodes.iter().map(|n| n.0).collect::<Vec<_>>(), vec![4]);
    match &indexed.root.children[0] {
        Node::Element(a) => match &a.ext {
            FamilyExt::Link(d) => match &d.family_data {
                FamilyData::Link(l) => {
                    assert_eq!(l.link_type, Some(LinkType::External));
                    assert_eq!(l.original_href.as_deref(), Some("https://example.com"));
                },
                _ => panic!("link data expected"),
            },
            _ => panic!("link expected"),
        },
        _ => panic!("element expected"),
    }
    match &indexed.root.children[3] {
        Node::Element(img) => match &img.ext {
            FamilyExt::Media(d) => match &d.family_data {
                FamilyData::Media(m) => assert!(m.is_svg_image),
                _ => panic!("media data expected"),
            },
            _ => panic!("media expected"),
        },
        _ => panic!("element expected"),
    }
}

#[test]
fn indexer_identities_follow_content() {
    let a = Indexer::new().transform(Document::new(sample(), ()));
    let b = Indexer::new().transform(Document::new(sample(), ()));
    let sid = |d: &tola::vdom::transforms::indexer::IndexedDocument| d.root.ext.stable_id();
    assert_eq!(sid(&a), sid(&b));
    match &a.root.children[0] {
        Node::Element(link) => match &link.children[0] {
            Node::Text(t) => assert_eq!(t.ext.stable_id, StableId::for_text("go", 0)),
            _ => panic!("text expected"),
        },
        _ => panic!("element expected"),
    }
}

#[test]
fn stats_and_processing() {
    let doc = Document::new(sample(), ());
    let stats = doc.collect_stats();
    assert_eq!(stats.element_count, 4);
    assert_eq!(stats.svg_count, 1);
    assert_eq!(stats.link_count, 1);
    assert_eq!(stats.media_count, 1);
    assert_eq!(stats.frame_count, 1);
    assert_eq!(stats.text_count, 1);
    assert!(stats.has_svg() && stats.has_links() && stats.has_frames() && !stats.has_headings());
    assert_eq!(stats.family_element_count(), 3);

    let indexed = Indexer::new().transform(doc);
    let mut folder = ProcessFolder::new();
    let processed = folder.fold(indexed);
    assert_eq!(processed.ext.svg_count, 1);
    assert_eq!(processed.ext.links_resolved, 1);
    assert_eq!(processed.ext.headings_anchored, 0);
    assert_eq!(processed.ext.frames_expanded, 1);
    assert_eq!(processed.root.tag, "html");
    match &processed.root.children[2] {
        Node::Element(f) => {
            assert_eq!(f.tag, "svg");
            assert_eq!(f.attrs, vec![("class".to_string(), "typst-frame".to_string())]);
        },
        _ => panic!("a frame becomes an element"),
    }
    assert_eq!(folder.stats().svg_count, 0);
}
