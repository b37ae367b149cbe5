use tola::pipeline::cache::VdomCache;
use tola::pipeline::compile::CompileOutcome;
use tola::pipeline::diff::{compute_diff, DiffOutcome, DiffResult};
use tola::typst_lib::file::{get_accessed_files, record_file_access, reset_access_flags, AccessedFiles, FileError, FileSlot};
use tola::utils::git::{build_authenticated_url, sort_tree_entries, EntryKind, TreeEntry};
use tola::vdom::folder::ProcessFolder;
use tola::vdom::node::{
    Document, Element, FamilyData, FamilyExt, Frame, HasFamilyData, IndexedElemExt, LinkFamily, LinkIndexedData, Node,
    RawElemExt, SvgFamily, Text,
};
use tola::vdom::id::StableId;
use tola::vdom::node::NodeId;
use tola::vdom::transform::{IdentityTransform, Pipeline, Transform};
use tola::vdom::transforms::indexer::{IndexedDocExt, IndexedDocument, RawElement};

fn indexed_doc(tag: &str) -> IndexedDocument {
    let root = Element { tag: tag.to_string(), attrs: vec![], children: vec![], ext: FamilyExt::Other(IndexedElemExt::default()) };
    Document { root, ext: IndexedDocExt::default() }
}

#[test]
fn test_cache_empty() {
    let cache = VdomCache::new();
    assert!(cache.is_empty());
    assert_eq!(cache.len(), 0);
    assert!(cache.get("/test").is_none());
}

#[test]
fn cache_reads_back_writes() {
    let mut cache = VdomCache::new();
    assert!(cache.insert("/a".to_string(), indexed_doc("a")).is_none());
    assert!(cache.insert("/b".to_string(), indexed_doc("b")).is_none());
    assert_eq!(cache.get("/a").unwrap().root.tag, "a");
    let old = cache.insert("/a".to_string(), indexed_doc("a2")).unwrap();
    assert_eq!(old.root.tag, "a");
    assert_eq!(cache.get("/a").unwrap().root.tag, "a2");
    assert_eq!(cache.get("/b").unwrap().root.tag, "b");
    assert_eq!(cache.len(), 2);
    let mut keys: Vec<String> = cache.keys().into_iter().cloned().collect();
    keys.sort();
    assert_eq!(keys, vec!["/a".to_string(), "/b".to_string()]);
    assert_eq!(cache.remove("/a").unwrap().root.tag, "a2");
    assert!(cache.get("/a").is_none());
    assert!(cache.remove("/a").is_none());
    assert_eq!(cache.len(), 1);
    cache.clear();
    assert!(cache.is_empty());
}

#[test]
fn test_compile_outcome_variants() {
    let _ = CompileOutcome::Reload { reason: "test".to_string() };
    let _ = CompileOutcome::Skipped;
    let _ = CompileOutcome::Error { path: "/test.typ".to_string(), error: "test error".to_string() };
}

fn raw_div(tag: &str) -> RawElement {
    Element::new(tag, RawElemExt { span: None })
}

#[test]
fn test_element_basics() {
    let elem = raw_div("div");
    assert_eq!(elem.tag, "div");
    assert!(elem.is_empty());
    assert_eq!(elem.child_count(), 0);
}

#[test]
fn test_node_type_checks() {
    let elem = raw_div("div");
    let node: Node<RawElemExt, (), ()> = Node::Element(Box::new(elem));
    assert!(node.is_element());
    assert!(!node.is_text());
    assert!(!node.is_frame());
    assert!(node.as_element().is_some());
}

#[test]
fn attributes_read_back_what_was_set() {
    let mut elem = raw_div("div");
    elem.set_attr("id", "main");
    elem.set_attr("class", "a");
    elem.set_attr("id", "other");
    assert_eq!(elem.get_attr("id"), Some("other"));
    assert_eq!(elem.get_attr("class"), Some("a"));
    assert_eq!(elem.get_attr("title"), None);
    assert_eq!(elem.attrs.len(), 2);
}

#[test]
fn test_identity_transform() {
    let doc = Document::new(raw_div("div"), ());
    let result = doc.pipe(IdentityTransform::new());
    assert_eq!(result.root.tag, "div");
}

#[test]
fn test_pipeline_chain() {
    let doc = Document::new(raw_div("html"), ());
    let result = doc.pipe(IdentityTransform::new()).pipe(IdentityTransform::new()).pipe(IdentityTransform::new());
    assert_eq!(result.root.tag, "html");
}

#[test]
fn test_pipeline_apply() {
    let doc = Document::new(raw_div("div"), ());
    let mut pipeline = Pipeline::new(doc);
    pipeline.doc_mut().root.set_attr("id", "main");
    let result = pipeline.finish();
    assert_eq!(result.root.get_attr("id"), Some("main"));
}

#[test]
fn test_process_folder() {
    let doc = indexed_doc("div");
    let mut folder = ProcessFolder::new();
    let processed_doc = folder.fold(doc);
    assert_eq!(processed_doc.root.tag, "div");
}

#[test]
fn test_process_folder_tracks_stats() {
    let svg_elem = Element { tag: "svg".to_string(), attrs: vec![], children: vec![], ext: FamilyExt::Svg(IndexedElemExt::default()) };
    let link_elem = Element { tag: "a".to_string(), attrs: vec![], children: vec![], ext: FamilyExt::Link(IndexedElemExt::default()) };
    let root = Element {
        tag: "div".to_string(),
        attrs: vec![],
        children: vec![Node::Element(Box::new(svg_elem)), Node::Element(Box::new(link_elem))],
        ext: FamilyExt::Other(IndexedElemExt::default()),
    };
    let doc = Document { root, ext: IndexedDocExt::default() };
    let mut folder = ProcessFolder::new();
    let processed_doc = folder.fold(doc);
    assert_eq!(processed_doc.ext.svg_count, 1);
    assert_eq!(processed_doc.ext.links_resolved, 1);
}

#[test]
fn git_test_build_authenticated_url_no_token() {
    let url = "https://github.com/user/repo.git";
    let result = build_authenticated_url(url, None).unwrap();
    assert_eq!(result, "https://github.com/user/repo.git");
}

#[test]
fn git_test_build_authenticated_url_invalid_scheme() {
    let url = "http://github.com/user/repo.git";
    let result = build_authenticated_url(url, None);
    assert!(result.is_err());
}

#[test]
fn remote_test_build_authenticated_url_no_token() {
    let url = "https://github.com/user/repo.git";
    let result = build_authenticated_url(url, None).unwrap();
    assert_eq!(result, "https://github.com/user/repo.git");
}

#[test]
fn remote_test_build_authenticated_url_invalid_scheme() {
    let url = "http://github.com/user/repo.git";
    let result = build_authenticated_url(url, None);
    assert!(result.is_err());
}

#[test]
fn authenticated_url_with_token() {
    let url = "https://github.com/user/repo.git";
    assert_eq!(build_authenticated_url(url, Some("  ghp_secret123\n")).unwrap(), "https://ghp_secret123@github.com/user/repo.git");
    assert_eq!(build_authenticated_url(url, Some(" \n")).unwrap(), "https://github.com/user/repo.git");
}

#[test]
fn accessed_files_are_a_set() {
    let mut accessed = AccessedFiles::new();
    let mut slots = vec![FileSlot::new("/a.typ"), FileSlot::new("/b.typ")];
    record_file_access(&mut accessed, "/a.typ");
    record_file_access(&mut accessed, "/b.typ");
    record_file_access(&mut accessed, "/a.typ");
    let mut files = get_accessed_files(&accessed);
    files.sort();
    assert_eq!(files, vec!["/a.typ".to_string(), "/b.typ".to_string()]);
    reset_access_flags(&mut accessed, &mut slots);
    assert!(get_accessed_files(&accessed).is_empty());
    assert_eq!(slots.len(), 2);
}

fn entry(mode: EntryKind, name: &str) -> TreeEntry {
    TreeEntry { mode, filename: name.as_bytes().to_vec(), oid: vec![0u8; 20] }
}

#[test]
fn git_test_sort_tree_entries() {
    let mut entries = vec![
        entry(EntryKind::Blob, "foo.rs"),
        entry(EntryKind::Tree, "foo"),
        entry(EntryKind::Blob, "foo-bar"),
    ];

    sort_tree_entries(&mut entries);

    assert_eq!(entries[0].filename, b"foo-bar".to_vec());
    assert_eq!(entries[1].filename, b"foo.rs".to_vec());
    assert_eq!(entries[2].filename, b"foo".to_vec());
}

#[test]
fn tree_test_sort_tree_entries() {
    let mut entries = vec![
        entry(EntryKind::Blob, "foo.rs"),
        entry(EntryKind::Tree, "foo"),
        entry(EntryKind::Blob, "foo-bar"),
    ];

    sort_tree_entries(&mut entries);

    assert_eq!(entries[0].filename, b"foo-bar".to_vec());
    assert_eq!(entries[1].filename, b"foo.rs".to_vec());
    assert_eq!(entries[2].filename, b"foo".to_vec());
}

#[test]
fn tree_order_file_before_longer_names_and_dirs() {
    let mut entries = vec![
        entry(EntryKind::Tree, "b"),
        entry(EntryKind::Blob, "b"),
        entry(EntryKind::Link, "a"),
        entry(EntryKind::Blob, "b0"),
        entry(EntryKind::Blob, "B"),
    ];
    sort_tree_entries(&mut entries);
    let names: Vec<(Vec<u8>, EntryKind)> = entries.iter().map(|e| (e.filename.clone(), e.mode)).collect();
    assert_eq!(
        names,
        vec![
            (b"B".to_vec(), EntryKind::Blob),
            (b"a".to_vec(), EntryKind::Link),
            (b"b".to_vec(), EntryKind::Blob),
            (b"b".to_vec(), EntryKind::Tree),
            (b"b0".to_vec(), EntryKind::Blob),
        ]
    );
}

#[test]
fn removing_an_attribute_hands_back_its_value() {
    let mut elem = raw_div("div");
    elem.set_attr("id", "main");
    elem.set_attr("class", "a");
    assert!(elem.has_attr("id"));
    assert_eq!(elem.remove_attr("id"), Some("main".to_string()));
    assert!(!elem.has_attr("id"));
    assert_eq!(elem.get_attr("class"), Some("a"));
    assert_eq!(elem.remove_attr("id"), None);
    assert_eq!(elem.attrs.len(), 1);
}

fn text_node(s: &str) -> Node<RawElemExt, (), ()> {
    Node::Text(Text { content: s.to_string(), ext: () })
}

#[test]
fn text_content_gathers_text_in_document_order() {
    let mut inner = raw_div("em");
    inner.children.push(text_node("big "));
    let mut root = raw_div("p");
    root.children.push(text_node("a "));
    root.children.push(Node::Element(Box::new(inner)));
    root.children.push(Node::Frame(Box::new(Frame { ext: () })));
    root.children.push(text_node("world"));
    assert_eq!(root.text_content(), "a big world");
    assert!(!root.is_leaf());
    assert_eq!(root.element_count(), 1);
    assert_eq!(root.family(), "other");
    let doc = Document::new(root, ());
    assert!(doc.has_frames());
    assert_eq!(doc.element_count(), 2);
}

#[test]
fn leaf_element_holds_no_element() {
    let mut root = raw_div("p");
    root.children.push(text_node("x"));
    assert!(root.is_leaf());
    assert_eq!(root.element_count(), 0);
    let doc = Document::new(root, ());
    assert!(!doc.has_frames());
    assert_eq!(doc.element_count(), 1);
}

#[test]
fn family_data_is_found_for_its_family_only() {
    let data = LinkIndexedData { link_type: None, original_href: Some("/x".to_string()) };
    let ext = IndexedElemExt { stable_id: StableId::detached(), node_id: NodeId(3), family_data: FamilyData::Link(data.clone()) };
    let link: Element<IndexedElemExt, (), ()> = Element { tag: "a".to_string(), attrs: vec![], children: vec![], ext: FamilyExt::Link(ext) };
    let got: Option<&LinkIndexedData> = HasFamilyData::<LinkFamily>::family_data(&link);
    assert_eq!(got, Some(&data));
    let svg: Option<_> = HasFamilyData::<SvgFamily>::family_data(&link);
    assert!(svg.is_none());
}

fn sample_tree() -> Document<RawElemExt, (), (), ()> {
    let mut em = raw_div("em");
    em.set_attr("id", "inner");
    let mut p = raw_div("p");
    p.children.push(Node::Element(Box::new(em)));
    let mut span = raw_div("span");
    span.set_attr("id", "second");
    let mut root = raw_div("div");
    root.children.push(Node::Element(Box::new(p)));
    root.children.push(text_node("t"));
    root.children.push(Node::Element(Box::new(span)));
    Document::new(root, ())
}

#[test]
fn queries_walk_the_tree_in_document_order() {
    let doc = sample_tree();
    let found = doc.find_element(|e: &Element<RawElemExt, (), ()>| e.has_attr("id")).unwrap();
    assert_eq!(found.tag, "em");
    assert!(doc.has_element(|e: &Element<RawElemExt, (), ()>| e.tag == "span"));
    assert!(!doc.has_element(|e: &Element<RawElemExt, (), ()>| e.tag == "table"));
    assert!(doc.find_element(|e: &Element<RawElemExt, (), ()>| e.tag == "table").is_none());
    let tags: Vec<&str> = doc.find_all(|_: &Element<RawElemExt, (), ()>| true).iter().map(|e| e.tag.as_str()).collect();
    assert_eq!(tags, vec!["div", "p", "em", "span"]);
    let with_id: Vec<&str> =
        doc.find_all(|e: &Element<RawElemExt, (), ()>| e.has_attr("id")).iter().map(|e| e.tag.as_str()).collect();
    assert_eq!(with_id, vec!["em", "span"]);
}

#[test]
fn pipeline_applies_transforms_in_turn() {
    let doc = Document::new(raw_div("div"), ());
    let result = doc.into_pipeline().then(IdentityTransform::new()).then(IdentityTransform::new()).finish();
    assert_eq!(result.root.tag, "div");
    let folded = Pipeline::new(indexed_doc("p")).then(ProcessFolder::new()).finish();
    assert_eq!(folded.root.tag, "p");
    let direct = ProcessFolder::new().transform(indexed_doc("q"));
    assert_eq!(direct.root.tag, "q");
}

#[test]
fn elements_listed_in_document_order() {
    let doc = sample_tree();
    let tags: Vec<&str> = doc.iter_elements().iter().map(|e| e.tag.as_str()).collect();
    assert_eq!(tags, vec!["div", "p", "em", "span"]);
    let direct: Vec<&str> = doc.root.children_elements().iter().map(|e| e.tag.as_str()).collect();
    assert_eq!(direct, vec!["p", "span"]);
}

#[test]
fn family_constructors_set_the_family() {
    let s: RawElement = Element::svg("svg", RawElemExt { span: None });
    assert!(s.ext.is_svg());
    let l: RawElement = Element::link("a", RawElemExt { span: None });
    assert_eq!(l.family(), "link");
    let h: RawElement = Element::heading("h2", RawElemExt { span: None });
    assert!(h.ext.is_heading());
    let m: RawElement = Element::media("img", RawElemExt { span: None });
    assert!(m.ext.is_media());
    let o: RawElement = Element::other("div", RawElemExt { span: None });
    assert!(o.ext.is_other());
    let w: RawElement = Element::with_ext("p", FamilyExt::Link(RawElemExt { span: None }));
    assert_eq!(w.tag, "p");
    assert!(w.ext.is_link());
}

#[test]
fn file_slot_records_access_and_caches() {
    let mut accessed = AccessedFiles::new();
    let mut slot = FileSlot::new("test.typ");
    let r1 = slot.file(&mut accessed, || Ok(b"= Hello".to_vec()));
    assert_eq!(r1, Ok(b"= Hello".to_vec()));
    let r2 = slot.file(&mut accessed, || Err(FileError::AccessDenied));
    assert_eq!(r2, r1);
    assert_eq!(get_accessed_files(&accessed), vec!["test.typ".to_string()]);
    let text = slot.source(&mut accessed, || Ok(b"\xef\xbb\xbfHi".to_vec()));
    assert_eq!(text, Ok("Hi".to_string()));
}

#[test]
fn file_slot_records_access_on_failure() {
    let mut accessed = AccessedFiles::new();
    let mut slot = FileSlot::new("missing.typ");
    let r = slot.source(&mut accessed, || Err(FileError::NotFound("missing.typ".to_string())));
    assert_eq!(r, Err(FileError::NotFound("missing.typ".to_string())));
    assert_eq!(get_accessed_files(&accessed), vec!["missing.typ".to_string()]);
    let mut bad = FileSlot::new("bad.typ");
    assert_eq!(bad.source(&mut accessed, || Ok(vec![0xff, 0xfe])), Err(FileError::InvalidUtf8));
}

fn no_ops(_: &IndexedDocument, _: &IndexedDocument) -> DiffResult<u32> {
    DiffResult { ops: vec![], should_reload: false, reload_reason: None }
}

#[test]
fn diff_outcomes_follow_the_cache() {
    let mut cache = VdomCache::new();
    let first = compute_diff(&mut cache, "/blog/", indexed_doc("a"), no_ops);
    assert!(matches!(first, DiffOutcome::Initial));
    assert_eq!(cache.get("/blog").unwrap().root.tag, "a");

    let same = compute_diff(&mut cache, "/blog", indexed_doc("b"), no_ops);
    assert!(matches!(same, DiffOutcome::Unchanged));
    assert_eq!(cache.get("/blog").unwrap().root.tag, "b");

    let patched = compute_diff(&mut cache, "/blog?x=1", indexed_doc("c"), |old: &IndexedDocument, _: &IndexedDocument| {
        assert_eq!(old.root.tag, "b");
        DiffResult { ops: vec![7u32], should_reload: false, reload_reason: None }
    });
    match patched {
        DiffOutcome::Patches(ops, doc) => {
            assert_eq!(ops, vec![7]);
            assert_eq!(doc.root.tag, "c");
        },
        _ => panic!("patches expected"),
    }
    assert_eq!(cache.get("/blog").unwrap().root.tag, "b");

    let reload = compute_diff(&mut cache, "/blog", indexed_doc("d"), |_: &IndexedDocument, _: &IndexedDocument| {
        DiffResult::<u32> { ops: vec![], should_reload: true, reload_reason: None }
    });
    match reload {
        DiffOutcome::NeedsReload { reason } => assert_eq!(reason, "complex change"),
        _ => panic!("reload expected"),
    }
    assert_eq!(cache.get("/blog").unwrap().root.tag, "d");
}
