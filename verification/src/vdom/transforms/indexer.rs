//! The raw-to-indexed step: node numbers, identities, link classification.

use vstd::prelude::*;
use crate::utils::platform::contains_str;
use crate::utils::text::{contains_seq, has_prefix, starts_with, str_eq, to_chars};
use crate::utils::path::opt_view;
use crate::utils::slug::{lowercased, to_lowercase};
use crate::utils::text::{ends_with, has_suffix};
use vstd::std_specs::hash::DefaultHasherAdditionalSpecFns;
use vstd::utf8::encode_utf8;
use std::collections::hash_map::DefaultHasher;
use crate::vdom::transform::Transform;
use crate::vdom::id::{attrs_bytes, element_id, frame_writes, ids_view, text_writes, StableId};
use crate::vdom::node::{
    Document, Element, FamilyData, FamilyExt, FamilyKind, Frame, HeadingIndexedData,
    IndexedElemExt, IndexedFrameExt, IndexedTextExt, LinkIndexedData, MediaIndexedData, Node,
    NodeId, RawElemExt, SvgIndexedData, Text,
};

verus! {

/// The kind of target a link points at.
#[derive(Clone, Copy, PartialEq, Eq, Structural, Debug)]
pub enum LinkType {
    /// `#section`
    Fragment,
    /// `https://...`, `mailto:...`
    External,
    /// `/about`
    Absolute,
    /// `./page.html`, `page.html`
    Relative,
}

/// The kind of target of `href`: a fragment (`#...`), an http(s) URL, a
/// site-absolute path (`/...`), an explicitly relative path (`./`, `../`),
/// any other text with a scheme separator or a colon, and else a relative
/// path.
pub open spec fn link_type_of(href: Seq<char>) -> LinkType {
    if has_prefix(href, seq!['#']) {
        LinkType::Fragment
    } else if has_prefix(href, "http://"@) || has_prefix(href, "https://"@) {
        LinkType::External
    } else if has_prefix(href, seq!['/']) {
        LinkType::Absolute
    } else if has_prefix(href, "./"@) || has_prefix(href, "../"@) {
        LinkType::Relative
    } else if contains_seq(href, "://"@) || contains_seq(href, seq![':']) {
        LinkType::External
    } else {
        LinkType::Relative
    }
}

/// Classifies a link target.
pub fn classify_link(href: &str) -> (r: LinkType)
    ensures
        r == link_type_of(href@),
{
    let h = to_chars(href);
    let hash: Vec<char> = vec!['#'];
    let slash: Vec<char> = vec!['/'];
    let colon: Vec<char> = vec![':'];
    let http = to_chars("http://");
    let https = to_chars("https://");
    let dot = to_chars("./");
    let dotdot = to_chars("../");
    let sep = to_chars("://");
    assert(hash@ =~= seq!['#']);
    assert(slash@ =~= seq!['/']);
    assert(colon@ =~= seq![':']);
    if starts_with(&h, &hash) {
        LinkType::Fragment
    } else if starts_with(&h, &http) || starts_with(&h, &https) {
        LinkType::External
    } else if starts_with(&h, &slash) {
        LinkType::Absolute
    } else if starts_with(&h, &dot) || starts_with(&h, &dotdot) {
        LinkType::Relative
    } else if contains_str(&h, &sep) || contains_str(&h, &colon) {
        LinkType::External
    } else {
        LinkType::Relative
    }
}

/// The value of the first attribute named `name` from position `i` on.
pub open spec fn attr_lookup_from(attrs: Seq<(String, String)>, name: Seq<char>, i: int) -> Option<
    Seq<char>,
>
    decreases attrs.len() - i,
{
    if i < 0 || i >= attrs.len() {
        None
    } else if attrs[i].0@ == name {
        Some(attrs[i].1@)
    } else {
        attr_lookup_from(attrs, name, i + 1)
    }
}

/// The value of the first attribute named `name`, if any.
pub open spec fn attr_lookup(attrs: Seq<(String, String)>, name: Seq<char>) -> Option<Seq<char>> {
    attr_lookup_from(attrs, name, 0)
}

/// The view of an optional string slice.
pub open spec fn opt_str_view(o: Option<&str>) -> Option<Seq<char>> {
    match o {
        Some(s) => Some(s@),
        None => None,
    }
}

/// The value of the first attribute named `name`, if any.
pub fn get_attr<'a>(attrs: &'a [(String, String)], name: &str) -> (r: Option<&'a str>)
    ensures
        opt_str_view(r) == attr_lookup(attrs@, name@),
{
    let mut i: usize = 0;
    while i < attrs.len()
        invariant
            i <= attrs@.len(),
            attr_lookup(attrs@, name@) == attr_lookup_from(attrs@, name@, i as int),
        decreases attrs@.len() - i,
    {
        if str_eq(attrs[i].0.as_str(), name) {
            return Some(attrs[i].1.as_str());
        }
        i = i + 1;
    }
    None
}

/// Whether `fd` is the family data that indexing extracts from an element
/// of family `k` with this tag and these attributes: for svg, whether it is
/// the `<svg>` root and its `viewBox`; for a link, its `href` and the kind of
/// target; for a heading, its `id`; for media, its `src` and whether that
/// names an SVG image.
pub open spec fn family_data_ok(
    fd: FamilyData,
    k: FamilyKind,
    tag: Seq<char>,
    attrs: Seq<(String, String)>,
) -> bool {
    match k {
        FamilyKind::Svg => fd matches FamilyData::Svg(d) && d.is_root == (tag == "svg"@) && opt_view(
            d.viewbox,
        ) == attr_lookup(attrs, "viewBox"@),
        FamilyKind::Link => fd matches FamilyData::Link(d) && opt_view(d.original_href) == attr_lookup(
            attrs,
            "href"@,
        ) && d.link_type == match attr_lookup(attrs, "href"@) {
            Some(h) => Some(link_type_of(h)),
            None => None,
        },
        FamilyKind::Heading => fd matches FamilyData::Heading(d) && opt_view(d.original_id)
            == attr_lookup(attrs, "id"@),
        FamilyKind::Media => fd matches FamilyData::Media(d) && opt_view(d.src) == attr_lookup(
            attrs,
            "src"@,
        ) && d.is_svg_image == match attr_lookup(attrs, "src"@) {
            Some(v) => has_suffix(lowercased(v), ".svg"@),
            None => false,
        },
        FamilyKind::Other => fd == FamilyData::Other,
    }
}

fn owned(o: Option<&str>) -> (r: Option<String>)
    ensures
        opt_view(r) == opt_str_view(o),
{
    match o {
        Some(s) => Some(s.to_string()),
        None => None,
    }
}

// =============================================================================
// Trees of the two phases
// =============================================================================

/// An element of the raw phase.
pub type RawElement = Element<RawElemExt, (), ()>;

/// A node of the raw phase.
pub type RawNode = Node<RawElemExt, (), ()>;

/// A document of the raw phase.
pub type RawDocument = Document<RawElemExt, (), (), ()>;

/// An element of the indexed phase.
pub type IndexedElement = Element<IndexedElemExt, IndexedTextExt, IndexedFrameExt>;

/// A node of the indexed phase.
pub type IndexedNode = Node<IndexedElemExt, IndexedTextExt, IndexedFrameExt>;

/// Document data of the indexed phase: node counts and the node numbers of
/// each family (in the order the indexer finished them).
#[derive(Debug)]
pub struct IndexedDocExt {
    pub node_count: u32,
    pub element_count: usize,
    pub text_count: usize,
    pub frame_count: usize,
    pub svg_nodes: Vec<NodeId>,
    pub link_nodes: Vec<NodeId>,
    pub heading_nodes: Vec<NodeId>,
    pub media_nodes: Vec<NodeId>,
    pub frame_nodes: Vec<NodeId>,
}

impl Default for IndexedDocExt {
    /// No nodes counted.
    fn default() -> (r: IndexedDocExt)
        ensures
            r.node_count == 0,
            r.element_count == 0 && r.text_count == 0 && r.frame_count == 0,
            r.svg_nodes@.len() == 0 && r.link_nodes@.len() == 0 && r.heading_nodes@.len() == 0,
            r.media_nodes@.len() == 0 && r.frame_nodes@.len() == 0,
    {
        IndexedDocExt {
            node_count: 0,
            element_count: 0,
            text_count: 0,
            frame_count: 0,
            svg_nodes: Vec::new(),
            link_nodes: Vec::new(),
            heading_nodes: Vec::new(),
            media_nodes: Vec::new(),
            frame_nodes: Vec::new(),
        }
    }
}

/// A document of the indexed phase.
pub type IndexedDocument = Document<IndexedElemExt, IndexedTextExt, IndexedFrameExt, IndexedDocExt>;

/// What indexing a subtree hands out and counts: node numbers used (one per
/// element and frame), elements, text nodes and frames seen, and the numbers
/// of the elements of each family and of the frames, in the order in which
/// they are finished (an element after its children).
pub struct Tally {
    pub ids: nat,
    pub elements: nat,
    pub texts: nat,
    pub frames: nat,
    pub svg: Seq<u32>,
    pub link: Seq<u32>,
    pub heading: Seq<u32>,
    pub media: Seq<u32>,
    pub frame_ids: Seq<u32>,
}

/// The tally of nothing.
pub open spec fn empty_tally() -> Tally {
    Tally {
        ids: 0,
        elements: 0,
        texts: 0,
        frames: 0,
        svg: seq![],
        link: seq![],
        heading: seq![],
        media: seq![],
        frame_ids: seq![],
    }
}

/// The tally of `a` followed by `b`.
pub open spec fn join_tally(a: Tally, b: Tally) -> Tally {
    Tally {
        ids: a.ids + b.ids,
        elements: a.elements + b.elements,
        texts: a.texts + b.texts,
        frames: a.frames + b.frames,
        svg: a.svg + b.svg,
        link: a.link + b.link,
        heading: a.heading + b.heading,
        media: a.media + b.media,
        frame_ids: a.frame_ids + b.frame_ids,
    }
}

/// `[id]` when `k` is `want`, else nothing.
pub open spec fn own_number(k: FamilyKind, want: FamilyKind, id: int) -> Seq<u32> {
    if k == want {
        seq![id as u32]
    } else {
        seq![]
    }
}

/// The tally of indexing a raw node whose first number is `id`.
pub open spec fn node_tally(n: RawNode, id: int) -> Tally
    decreases n,
{
    match n {
        Node::Element(b) => elem_tally(*b, id),
        Node::Text(_) => Tally { texts: 1, ..empty_tally() },
        Node::Frame(_) => Tally { ids: 1, frames: 1, frame_ids: seq![id as u32], ..empty_tally() },
    }
}

/// The tally of indexing a raw element numbered `id`: its children are
/// numbered from `id + 1` on, and the element counts after them.
pub open spec fn elem_tally(r: RawElement, id: int) -> Tally
    decreases r,
{
    let c = prefix_tally(r.children@, id + 1, r.children@.len() as int);
    let k = r.ext.family();
    Tally {
        ids: c.ids + 1,
        elements: c.elements + 1,
        texts: c.texts,
        frames: c.frames,
        svg: c.svg + own_number(k, FamilyKind::Svg, id),
        link: c.link + own_number(k, FamilyKind::Link, id),
        heading: c.heading + own_number(k, FamilyKind::Heading, id),
        media: c.media + own_number(k, FamilyKind::Media, id),
        frame_ids: c.frame_ids,
    }
}

/// The tally of indexing the first `j` children, numbered from `id` on.
pub open spec fn prefix_tally(cs: Seq<RawNode>, id: int, j: int) -> Tally
    decreases cs, j,
{
    if j <= 0 || j > cs.len() {
        empty_tally()
    } else {
        let p = prefix_tally(cs, id, j - 1);
        join_tally(p, node_tally(cs[j - 1], id + p.ids))
    }
}

/// The identity an indexed node carries.
pub open spec fn node_sid(x: IndexedNode) -> u64 {
    match x {
        Node::Element(c) => c.ext.data().stable_id@,
        Node::Text(u) => u.ext.stable_id@,
        Node::Frame(f) => f.ext.stable_id@,
    }
}

/// The identities of a list of indexed nodes.
pub open spec fn child_sids(xs: Seq<IndexedNode>) -> Seq<u64> {
    Seq::new(xs.len(), |j: int| node_sid(xs[j]))
}

/// Whether `x` is the indexed form of the raw element `r` numbered `id` at
/// position `pos` among its siblings: same tag, attributes and family; the
/// number `id`; the family data of its attributes; its children indexed in
/// turn, numbered from `id + 1` on; and its identity hashed from its tag,
/// attributes, children's identities and position.
pub open spec fn elem_ok(r: RawElement, x: IndexedElement, id: int, pos: int) -> bool
    decreases r,
{
    &&& x.tag@ == r.tag@
    &&& x.attrs@ == r.attrs@
    &&& x.ext.family() == r.ext.family()
    &&& x.ext.data().node_id.0 == id
    &&& family_data_ok(x.ext.data().family_data, r.ext.family(), r.tag@, r.attrs@)
    &&& x.children@.len() == r.children@.len()
    &&& forall|j: int|
        0 <= j < r.children@.len() ==> node_ok(
            #[trigger] r.children@[j],
            x.children@[j],
            id + 1 + prefix_tally(r.children@, id + 1, j).ids,
            j,
        )
    &&& x.ext.data().stable_id@ == element_id(
        encode_utf8(r.tag@),
        attrs_bytes(r.attrs@),
        child_sids(x.children@),
        pos as nat,
    )
}

/// An indexed element carries the identity that `StableId::for_element`
/// computes from its own tag, attributes, children's identities and
/// position, whatever its family.
pub proof fn law_indexed_identity(r: RawElement, x: IndexedElement, id: int, pos: int)
    requires
        elem_ok(r, x, id, pos),
    ensures
        x.ext.data().stable_id@ == element_id(
            encode_utf8(x.tag@),
            attrs_bytes(x.attrs@),
            child_sids(x.children@),
            pos as nat,
        ),
{
}

/// Whether `x` is the indexed form of the raw node `r` whose first number is
/// `id`, at position `pos`: elements as above; a text keeps its content and
/// gets the identity of its content and position; a frame gets the number
/// `id` and the identity of that number and its position.
pub open spec fn node_ok(r: RawNode, x: IndexedNode, id: int, pos: int) -> bool
    decreases r,
{
    match r {
        Node::Element(b) => x matches Node::Element(c) && elem_ok(*b, *c, id, pos),
        Node::Text(t) => x matches Node::Text(u) && u.content@ == t.content@ && u.ext.stable_id@
            == DefaultHasher::spec_finish(text_writes(t.content@, pos as nat)),
        Node::Frame(_) => x matches Node::Frame(f) && f.ext.node_id.0 == id && f.ext.stable_id@
            == DefaultHasher::spec_finish(frame_writes(id as nat, pos as nat)) && f.ext.frame_id == 0
            && f.ext.estimated_svg_size == 0,
    }
}

/// The raw numbers of a list of node numbers.
pub open spec fn numbers(v: Seq<NodeId>) -> Seq<u32> {
    v.map_values(|n: NodeId| n.0)
}

proof fn lemma_prefix_mono(cs: Seq<RawNode>, id: int, i: int, j: int)
    requires
        0 <= i <= j <= cs.len(),
    ensures
        prefix_tally(cs, id, i).ids <= prefix_tally(cs, id, j).ids,
        prefix_tally(cs, id, i).elements <= prefix_tally(cs, id, j).elements,
        prefix_tally(cs, id, i).texts <= prefix_tally(cs, id, j).texts,
        prefix_tally(cs, id, i).frames <= prefix_tally(cs, id, j).frames,
    decreases j - i,
{
    if i < j {
        lemma_prefix_mono(cs, id, i, j - 1);
    }
}

/// The raw-to-indexed transform: numbers the nodes and counts them.
pub struct Indexer {
    next_id: u32,
    svg_nodes: Vec<NodeId>,
    link_nodes: Vec<NodeId>,
    heading_nodes: Vec<NodeId>,
    media_nodes: Vec<NodeId>,
    frame_nodes: Vec<NodeId>,
    element_count: usize,
    text_count: usize,
    frame_count: usize,
}

impl Indexer {
    /// The node number the indexer hands out next.
    pub closed spec fn next_number(&self) -> u32 {
        self.next_id
    }

    /// Whether nothing has been indexed yet.
    pub closed spec fn is_fresh(&self) -> bool {
        &&& self.next_id == 0
        &&& self.svg_nodes@.len() == 0
        &&& self.link_nodes@.len() == 0
        &&& self.heading_nodes@.len() == 0
        &&& self.media_nodes@.len() == 0
        &&& self.frame_nodes@.len() == 0
        &&& self.element_count == 0
        &&& self.text_count == 0
        &&& self.frame_count == 0
    }

    /// An indexer that has indexed nothing.
    pub fn new() -> (r: Indexer)
        ensures
            r.is_fresh(),
            r.next_number() == 0,
    {
        Indexer {
            next_id: 0,
            svg_nodes: Vec::new(),
            link_nodes: Vec::new(),
            heading_nodes: Vec::new(),
            media_nodes: Vec::new(),
            frame_nodes: Vec::new(),
            element_count: 0,
            text_count: 0,
            frame_count: 0,
        }
    }

    /// Whether the counters leave room for the tally `t`.
    spec fn fits(&self, t: Tally) -> bool {
        &&& self.next_id + t.ids <= u32::MAX
        &&& self.element_count + t.elements <= usize::MAX
        &&& self.text_count + t.texts <= usize::MAX
        &&& self.frame_count + t.frames <= usize::MAX
    }

    /// Whether `later` is this indexer after the work of the tally `t`.
    spec fn advanced(&self, later: Indexer, t: Tally) -> bool {
        &&& later.next_id == self.next_id + t.ids
        &&& later.element_count == self.element_count + t.elements
        &&& later.text_count == self.text_count + t.texts
        &&& later.frame_count == self.frame_count + t.frames
        &&& numbers(later.svg_nodes@) == numbers(self.svg_nodes@) + t.svg
        &&& numbers(later.link_nodes@) == numbers(self.link_nodes@) + t.link
        &&& numbers(later.heading_nodes@) == numbers(self.heading_nodes@) + t.heading
        &&& numbers(later.media_nodes@) == numbers(self.media_nodes@) + t.media
        &&& numbers(later.frame_nodes@) == numbers(self.frame_nodes@) + t.frame_ids
    }

    fn extract_svg_data(&self, tag: &str, attrs: &[(String, String)]) -> (d: SvgIndexedData)
        ensures
            d.is_root == (tag@ == "svg"@),
            opt_view(d.viewbox) == attr_lookup(attrs@, "viewBox"@),
    {
        SvgIndexedData { is_root: str_eq(tag, "svg"), viewbox: owned(get_attr(attrs, "viewBox")) }
    }

    fn extract_link_data(&self, attrs: &[(String, String)]) -> (d: LinkIndexedData)
        ensures
            opt_view(d.original_href) == attr_lookup(attrs@, "href"@),
            d.link_type == match attr_lookup(attrs@, "href"@) {
                Some(h) => Some(link_type_of(h)),
                None => None,
            },
    {
        let href = get_attr(attrs, "href");
        let link_type = match href {
            Some(h) => Some(classify_link(h)),
            None => None,
        };
        LinkIndexedData { link_type, original_href: owned(href) }
    }

    fn extract_heading_data(&self, attrs: &[(String, String)]) -> (d: HeadingIndexedData)
        ensures
            opt_view(d.original_id) == attr_lookup(attrs@, "id"@),
    {
        HeadingIndexedData { original_id: owned(get_attr(attrs, "id")) }
    }

    fn extract_media_data(&self, attrs: &[(String, String)]) -> (d: MediaIndexedData)
        ensures
            opt_view(d.src) == attr_lookup(attrs@, "src"@),
            d.is_svg_image == match attr_lookup(attrs@, "src"@) {
                Some(v) => has_suffix(lowercased(v), ".svg"@),
                None => false,
            },
    {
        let src = get_attr(attrs, "src");
        let is_svg_image = match src {
            Some(v) => {
                let lower = to_chars(to_lowercase(v).as_str());
                ends_with(&lower, &to_chars(".svg"))
            },
            None => false,
        };
        MediaIndexedData { src: owned(src), is_svg_image }
    }

    /// The indexed element data of an element of family `kind`: its number,
    /// its identity and the family data extracted from its attributes.
    fn create_indexed_ext(
        &self,
        node_id: NodeId,
        stable_id: StableId,
        kind: FamilyKind,
        tag: &str,
        attrs: &[(String, String)],
    ) -> (r: FamilyExt<IndexedElemExt>)
        ensures
            r.family() == kind,
            r.data().node_id == node_id,
            r.data().stable_id == stable_id,
            family_data_ok(r.data().family_data, kind, tag@, attrs@),
    {
        match kind {
            FamilyKind::Svg => FamilyExt::Svg(
                IndexedElemExt {
                    stable_id,
                    node_id,
                    family_data: FamilyData::Svg(self.extract_svg_data(tag, attrs)),
                },
            ),
            FamilyKind::Link => FamilyExt::Link(
                IndexedElemExt {
                    stable_id,
                    node_id,
                    family_data: FamilyData::Link(self.extract_link_data(attrs)),
                },
            ),
            FamilyKind::Heading => FamilyExt::Heading(
                IndexedElemExt {
                    stable_id,
                    node_id,
                    family_data: FamilyData::Heading(self.extract_heading_data(attrs)),
                },
            ),
            FamilyKind::Media => FamilyExt::Media(
                IndexedElemExt {
                    stable_id,
                    node_id,
                    family_data: FamilyData::Media(self.extract_media_data(attrs)),
                },
            ),
            FamilyKind::Other => FamilyExt::Other(
                IndexedElemExt { stable_id, node_id, family_data: FamilyData::Other },
            ),
        }
    }

    fn next_node_id(&mut self) -> (r: NodeId)
        requires
            old(self).next_id < u32::MAX,
        ensures
            r.0 == old(self).next_id,
            final(self).next_id == old(self).next_id + 1,
            final(self).svg_nodes == old(self).svg_nodes,
            final(self).link_nodes == old(self).link_nodes,
            final(self).heading_nodes == old(self).heading_nodes,
            final(self).media_nodes == old(self).media_nodes,
            final(self).frame_nodes == old(self).frame_nodes,
            final(self).element_count == old(self).element_count,
            final(self).text_count == old(self).text_count,
            final(self).frame_count == old(self).frame_count,
    {
        let id = NodeId::new(self.next_id);
        self.next_id = self.next_id + 1;
        id
    }
}

proof fn lemma_elem_ok_intro(r: RawElement, x: IndexedElement, id: int, pos: int)
    requires
        x.tag@ == r.tag@,
        x.attrs@ == r.attrs@,
        x.ext.family() == r.ext.family(),
        x.ext.data().node_id.0 == id,
        family_data_ok(x.ext.data().family_data, r.ext.family(), r.tag@, r.attrs@),
        x.children@.len() == r.children@.len(),
        forall|j: int|
            0 <= j < r.children@.len() ==> node_ok(
                #[trigger] r.children@[j],
                x.children@[j],
                id + 1 + prefix_tally(r.children@, id + 1, j).ids,
                j,
            ),
        x.ext.data().stable_id@ == element_id(
            encode_utf8(r.tag@),
            attrs_bytes(r.attrs@),
            child_sids(x.children@),
            pos as nat,
        ),
    ensures
        elem_ok(r, x, id, pos),
{
}

/// The tally of an element is its own count, its children's tally, then its
/// own family number.
proof fn lemma_elem_tally_split(r: RawElement, id: int)
    ensures
        elem_tally(r, id) == join_tally(
            join_tally(
                Tally { ids: 1, elements: 1, ..empty_tally() },
                prefix_tally(r.children@, id + 1, r.children@.len() as int),
            ),
            Tally {
                svg: own_number(r.ext.family(), FamilyKind::Svg, id),
                link: own_number(r.ext.family(), FamilyKind::Link, id),
                heading: own_number(r.ext.family(), FamilyKind::Heading, id),
                media: own_number(r.ext.family(), FamilyKind::Media, id),
                ..empty_tally()
            },
        ),
{
    let e = elem_tally(r, id);
    let j = join_tally(
        join_tally(
            Tally { ids: 1, elements: 1, ..empty_tally() },
            prefix_tally(r.children@, id + 1, r.children@.len() as int),
        ),
        Tally {
            svg: own_number(r.ext.family(), FamilyKind::Svg, id),
            link: own_number(r.ext.family(), FamilyKind::Link, id),
            heading: own_number(r.ext.family(), FamilyKind::Heading, id),
            media: own_number(r.ext.family(), FamilyKind::Media, id),
            ..empty_tally()
        },
    );
    assert(e.svg =~= j.svg);
    assert(e.link =~= j.link);
    assert(e.heading =~= j.heading);
    assert(e.media =~= j.media);
    assert(e.frame_ids =~= j.frame_ids);
}

proof fn lemma_advanced_join(a: Indexer, b: Indexer, c: Indexer, t1: Tally, t2: Tally)
    requires
        a.advanced(b, t1),
        b.advanced(c, t2),
    ensures
        a.advanced(c, join_tally(t1, t2)),
{
    assert(numbers(c.svg_nodes@) =~= numbers(a.svg_nodes@) + (t1.svg + t2.svg));
    assert(numbers(c.link_nodes@) =~= numbers(a.link_nodes@) + (t1.link + t2.link));
    assert(numbers(c.heading_nodes@) =~= numbers(a.heading_nodes@) + (t1.heading + t2.heading));
    assert(numbers(c.media_nodes@) =~= numbers(a.media_nodes@) + (t1.media + t2.media));
    assert(numbers(c.frame_nodes@) =~= numbers(a.frame_nodes@) + (t1.frame_ids + t2.frame_ids));
}

proof fn lemma_advanced_push(a: Indexer, b: Indexer, t: Tally)
    requires
        b.next_id == a.next_id + t.ids,
        b.element_count == a.element_count + t.elements,
        b.text_count == a.text_count + t.texts,
        b.frame_count == a.frame_count + t.frames,
        b.svg_nodes@ == a.svg_nodes@ + t.svg.map_values(|n: u32| NodeId(n)),
        b.link_nodes@ == a.link_nodes@ + t.link.map_values(|n: u32| NodeId(n)),
        b.heading_nodes@ == a.heading_nodes@ + t.heading.map_values(|n: u32| NodeId(n)),
        b.media_nodes@ == a.media_nodes@ + t.media.map_values(|n: u32| NodeId(n)),
        b.frame_nodes@ == a.frame_nodes@ + t.frame_ids.map_values(|n: u32| NodeId(n)),
    ensures
        a.advanced(b, t),
{
    assert(numbers(b.svg_nodes@) =~= numbers(a.svg_nodes@) + t.svg);
    assert(numbers(b.link_nodes@) =~= numbers(a.link_nodes@) + t.link);
    assert(numbers(b.heading_nodes@) =~= numbers(a.heading_nodes@) + t.heading);
    assert(numbers(b.media_nodes@) =~= numbers(a.media_nodes@) + t.media);
    assert(numbers(b.frame_nodes@) =~= numbers(a.frame_nodes@) + t.frame_ids);
}

fn clone_attrs(attrs: &Vec<(String, String)>) -> (r: Vec<(String, String)>)
    ensures
        r@ == attrs@,
{
    let mut r: Vec<(String, String)> = Vec::new();
    let mut i: usize = 0;
    while i < attrs.len()
        invariant
            i <= attrs@.len(),
            r@ == attrs@.subrange(0, i as int),
        decreases attrs@.len() - i,
    {
        let k = attrs[i].0.clone();
        let v = attrs[i].1.clone();
        r.push((k, v));
        assert(r@ =~= attrs@.subrange(0, i + 1));
        i = i + 1;
    }
    assert(attrs@.subrange(0, attrs@.len() as int) =~= attrs@);
    r
}

impl Indexer {
    /// Indexes one child at position `pos` whose first number is
    /// `self.next_id`; hands back the indexed node and its identity.
    fn index_node(&mut self, child: &RawNode, pos: usize) -> (r: (IndexedNode, StableId))
        requires
            old(self).fits(node_tally(*child, old(self).next_id as int)),
        ensures
            node_ok(*child, r.0, old(self).next_id as int, pos as int),
            r.1@ == node_sid(r.0),
            old(self).advanced(*final(self), node_tally(*child, old(self).next_id as int)),
        decreases child, 1int,
    {
        let ghost id = self.next_id as int;
        match child {
            Node::Element(b) => {
                let e = self.index_element(b, pos);
                let sid = e.ext.stable_id();
                (Node::Element(Box::new(e)), sid)
            },
            Node::Text(t) => {
                let ghost before = *self;
                self.text_count = self.text_count + 1;
                let content = t.content.clone();
                let sid = StableId::for_text(content.as_str(), pos);
                proof {
                    let tt = Tally { texts: 1, ..empty_tally() };
                    assert(self.svg_nodes@ =~= before.svg_nodes@ + tt.svg.map_values(|n: u32| NodeId(n)));
                    assert(self.link_nodes@ =~= before.link_nodes@ + tt.link.map_values(|n: u32| NodeId(n)));
                    assert(self.heading_nodes@ =~= before.heading_nodes@ + tt.heading.map_values(|n: u32| NodeId(n)));
                    assert(self.media_nodes@ =~= before.media_nodes@ + tt.media.map_values(|n: u32| NodeId(n)));
                    assert(self.frame_nodes@ =~= before.frame_nodes@ + tt.frame_ids.map_values(|n: u32| NodeId(n)));
                    lemma_advanced_push(before, *self, tt);
                }
                (Node::Text(Text { content, ext: IndexedTextExt { stable_id: sid } }), sid)
            },
            Node::Frame(_) => {
                let ghost before = *self;
                self.frame_count = self.frame_count + 1;
                let fid = self.next_node_id();
                self.frame_nodes.push(fid);
                let sid = StableId::for_frame(fid.0 as usize, pos);
                proof {
                    let tt = Tally { ids: 1, frames: 1, frame_ids: seq![id as u32], ..empty_tally() };
                    assert(self.svg_nodes@ =~= before.svg_nodes@ + tt.svg.map_values(|n: u32| NodeId(n)));
                    assert(self.link_nodes@ =~= before.link_nodes@ + tt.link.map_values(|n: u32| NodeId(n)));
                    assert(self.heading_nodes@ =~= before.heading_nodes@ + tt.heading.map_values(|n: u32| NodeId(n)));
                    assert(self.media_nodes@ =~= before.media_nodes@ + tt.media.map_values(|n: u32| NodeId(n)));
                    assert(self.frame_nodes@ =~= before.frame_nodes@ + tt.frame_ids.map_values(|n: u32| NodeId(n)));
                    lemma_advanced_push(before, *self, tt);
                }
                let f = Frame {
                    ext: IndexedFrameExt { stable_id: sid, node_id: fid, frame_id: 0, estimated_svg_size: 0 },
                };
                (Node::Frame(Box::new(f)), sid)
            },
        }
    }

    /// Indexes the children of `elem`, numbered from `self.next_id` on.
    fn index_children(&mut self, elem: &RawElement) -> (r: (Vec<IndexedNode>, Vec<StableId>))
        requires
            old(self).fits(prefix_tally(elem.children@, old(self).next_id as int, elem.children@.len() as int)),
        ensures
            r.0@.len() == elem.children@.len(),
            forall|j: int|
                0 <= j < elem.children@.len() ==> node_ok(
                    #[trigger] elem.children@[j],
                    r.0@[j],
                    old(self).next_id + prefix_tally(elem.children@, old(self).next_id as int, j).ids,
                    j,
                ),
            ids_view(r.1@) == child_sids(r.0@),
            old(self).advanced(
                *final(self),
                prefix_tally(elem.children@, old(self).next_id as int, elem.children@.len() as int),
            ),
        decreases elem, 0int,
    {
        let ghost rs = elem.children@;
        let ghost first = self.next_id as int;
        let ghost s0 = *self;
        let ghost total = prefix_tally(rs, first, rs.len() as int);
        proof {
            lemma_prefix_mono(rs, first, 0, rs.len() as int);
            lemma_advanced_push(s0, s0, empty_tally());
        }
        let mut out: Vec<IndexedNode> = Vec::new();
        let mut ids: Vec<StableId> = Vec::new();
        let mut pos: usize = 0;
        while pos < elem.children.len()
            invariant
                rs == elem.children@,
                pos <= rs.len(),
                first == s0.next_id,
                s0.fits(total),
                total == prefix_tally(rs, first, rs.len() as int),
                s0.advanced(*self, prefix_tally(rs, first, pos as int)),
                out@.len() == pos,
                ids@.len() == pos,
                forall|j: int|
                    0 <= j < pos ==> node_ok(#[trigger] rs[j], out@[j], first + prefix_tally(rs, first, j).ids, j),
                forall|j: int| 0 <= j < pos ==> (#[trigger] ids@[j])@ == node_sid(out@[j]),
            decreases rs.len() - pos,
        {
            let ghost before = *self;
            let ghost p = prefix_tally(rs, first, pos as int);
            proof {
                lemma_prefix_mono(rs, first, pos + 1, rs.len() as int);
                assert(prefix_tally(rs, first, pos + 1) == join_tally(p, node_tally(rs[pos as int], first + p.ids)));
            }
            let (indexed, sid) = self.index_node(&elem.children[pos], pos);
            proof {
                lemma_advanced_join(s0, before, *self, p, node_tally(rs[pos as int], first + p.ids));
            }
            out.push(indexed);
            ids.push(sid);
            pos = pos + 1;
        }
        assert(ids_view(ids@) =~= child_sids(out@));
        (out, ids)
    }

    /// Indexes a raw element numbered `self.next_id` at position `position`
    /// among its siblings: its children first (so that their identities go
    /// into its own), then the element itself.
    fn index_element(&mut self, elem: &RawElement, position: usize) -> (x: IndexedElement)
        requires
            old(self).fits(elem_tally(*elem, old(self).next_id as int)),
        ensures
            elem_ok(*elem, x, old(self).next_id as int, position as int),
            old(self).advanced(*final(self), elem_tally(*elem, old(self).next_id as int)),
        decreases elem, 1int,
    {
        let ghost id = self.next_id as int;
        let ghost total = prefix_tally(elem.children@, id + 1, elem.children@.len() as int);
        let ghost start = *self;
        self.element_count = self.element_count + 1;
        let node_id = self.next_node_id();
        let ghost s0 = *self;
        let ghost t0 = Tally { ids: 1, elements: 1, ..empty_tally() };
        proof {
            assert(self.svg_nodes@ =~= start.svg_nodes@ + t0.svg.map_values(|n: u32| NodeId(n)));
            assert(self.link_nodes@ =~= start.link_nodes@ + t0.link.map_values(|n: u32| NodeId(n)));
            assert(self.heading_nodes@ =~= start.heading_nodes@ + t0.heading.map_values(|n: u32| NodeId(n)));
            assert(self.media_nodes@ =~= start.media_nodes@ + t0.media.map_values(|n: u32| NodeId(n)));
            assert(self.frame_nodes@ =~= start.frame_nodes@ + t0.frame_ids.map_values(|n: u32| NodeId(n)));
            lemma_advanced_push(start, s0, t0);
        }
        let (children, child_ids) = self.index_children(elem);
        let kind = elem.ext.kind();
        let stable_id = StableId::for_element(elem.tag.as_str(), elem.attrs.as_slice(), child_ids.as_slice(), position);
        let new_ext = self.create_indexed_ext(node_id, stable_id, kind, elem.tag.as_str(), elem.attrs.as_slice());
        let ghost after_children = *self;
        match kind {
            FamilyKind::Svg => self.svg_nodes.push(node_id),
            FamilyKind::Link => self.link_nodes.push(node_id),
            FamilyKind::Heading => self.heading_nodes.push(node_id),
            FamilyKind::Media => self.media_nodes.push(node_id),
            FamilyKind::Other => {},
        }
        proof {
            let t3 = Tally {
                svg: own_number(kind, FamilyKind::Svg, id),
                link: own_number(kind, FamilyKind::Link, id),
                heading: own_number(kind, FamilyKind::Heading, id),
                media: own_number(kind, FamilyKind::Media, id),
                ..empty_tally()
            };
            assert(self.svg_nodes@ =~= after_children.svg_nodes@ + t3.svg.map_values(|n: u32| NodeId(n)));
            assert(self.link_nodes@ =~= after_children.link_nodes@ + t3.link.map_values(|n: u32| NodeId(n)));
            assert(self.heading_nodes@ =~= after_children.heading_nodes@ + t3.heading.map_values(|n: u32| NodeId(n)));
            assert(self.media_nodes@ =~= after_children.media_nodes@ + t3.media.map_values(|n: u32| NodeId(n)));
            assert(self.frame_nodes@ =~= after_children.frame_nodes@ + t3.frame_ids.map_values(|n: u32| NodeId(n)));
            lemma_advanced_push(after_children, *self, t3);
            lemma_advanced_join(start, s0, after_children, t0, total);
            lemma_advanced_join(start, after_children, *self, join_tally(t0, total), t3);
            lemma_elem_tally_split(*elem, id);
        }
        let tag = elem.tag.clone();
        let attrs = clone_attrs(&elem.attrs);
        let x = Element { tag, attrs, children, ext: new_ext };
        proof {
            lemma_elem_ok_intro(*elem, x, id, position as int);
        }
        x
    }
}

impl Transform<RawDocument> for Indexer {
    type To = IndexedDocument;

    /// A fresh indexer, and a document whose numbers and counts fit.
    open spec fn accepts(&self, doc: RawDocument) -> bool {
        &&& self.is_fresh()
        &&& elem_tally(doc.root, 0).ids <= u32::MAX
        &&& elem_tally(doc.root, 0).elements <= usize::MAX
        &&& elem_tally(doc.root, 0).texts <= usize::MAX
        &&& elem_tally(doc.root, 0).frames <= usize::MAX
    }

    /// Every element and frame gets a number, counting from 0 in document
    /// order (an element before its children), every node its identity,
    /// every element its family data; the document data holds the counts and
    /// the numbers of each family's elements and of the frames.
    open spec fn produces(&self, doc: RawDocument, r: IndexedDocument) -> bool {
        &&& elem_ok(doc.root, r.root, 0, 0)
        &&& r.ext.node_count == elem_tally(doc.root, 0).ids
        &&& r.ext.element_count == elem_tally(doc.root, 0).elements
        &&& r.ext.text_count == elem_tally(doc.root, 0).texts
        &&& r.ext.frame_count == elem_tally(doc.root, 0).frames
        &&& numbers(r.ext.svg_nodes@) == elem_tally(doc.root, 0).svg
        &&& numbers(r.ext.link_nodes@) == elem_tally(doc.root, 0).link
        &&& numbers(r.ext.heading_nodes@) == elem_tally(doc.root, 0).heading
        &&& numbers(r.ext.media_nodes@) == elem_tally(doc.root, 0).media
        &&& numbers(r.ext.frame_nodes@) == elem_tally(doc.root, 0).frame_ids
    }

    /// Indexes a raw document with a fresh indexer.
    fn transform(self, doc: RawDocument) -> (r: IndexedDocument) {
        let mut me = self;
        let ghost start = me;
        let root = me.index_element(&doc.root, 0);
        proof {
            assert(numbers(start.svg_nodes@) =~= Seq::<u32>::empty());
            assert(numbers(start.link_nodes@) =~= Seq::<u32>::empty());
            assert(numbers(start.heading_nodes@) =~= Seq::<u32>::empty());
            assert(numbers(start.media_nodes@) =~= Seq::<u32>::empty());
            assert(numbers(start.frame_nodes@) =~= Seq::<u32>::empty());
            let t = elem_tally(doc.root, 0);
            assert(Seq::<u32>::empty() + t.svg =~= t.svg);
            assert(Seq::<u32>::empty() + t.link =~= t.link);
            assert(Seq::<u32>::empty() + t.heading =~= t.heading);
            assert(Seq::<u32>::empty() + t.media =~= t.media);
            assert(Seq::<u32>::empty() + t.frame_ids =~= t.frame_ids);
        }
        let ext = IndexedDocExt {
            node_count: me.next_id,
            element_count: me.element_count,
            text_count: me.text_count,
            frame_count: me.frame_count,
            svg_nodes: me.svg_nodes,
            link_nodes: me.link_nodes,
            heading_nodes: me.heading_nodes,
            media_nodes: me.media_nodes,
            frame_nodes: me.frame_nodes,
        };
        Document { root, ext }
    }
}

proof fn lemma_prefix_ids(cs: Seq<RawNode>, id: int, j: int)
    ensures
        prefix_tally(cs, id, j).ids == prefix_tally(cs, id, j).elements + prefix_tally(cs, id, j).frames,
    decreases cs, j,
{
    if 0 < j <= cs.len() {
        let p = prefix_tally(cs, id, j - 1);
        lemma_prefix_ids(cs, id, j - 1);
        let t = node_tally(cs[j - 1], id + p.ids);
        assert(prefix_tally(cs, id, j) == join_tally(p, t));
        match cs[j - 1] {
            Node::Element(b) => {
                assert(decreases_to!(cs => cs[j - 1]));
                law_node_count(*b, id + p.ids);
                assert(t == elem_tally(*b, id + p.ids));
            },
            Node::Text(_) => {
                assert(t.ids == 0 && t.elements == 0 && t.frames == 0);
            },
            Node::Frame(_) => {
                assert(t.ids == 1 && t.elements == 0 && t.frames == 1);
            },
        }
    }
}

/// An indexed tree uses one node number per element and per frame: the
/// node count is the element count plus the frame count.
pub proof fn law_node_count(r: RawElement, id: int)
    ensures
        elem_tally(r, id).ids == elem_tally(r, id).elements + elem_tally(r, id).frames,
    decreases r,
{
    lemma_prefix_ids(r.children@, id + 1, r.children@.len() as int);
}

} // verus!
