//! Phase transformations: node numbering and the indexed-to-processed step.

use vstd::prelude::*;
use crate::vdom::id::StableId;
use crate::vdom::transform::Transform;
use crate::vdom::node::{
    children_items, elem_items, Document, Element, FamilyExt, FamilyKind, IndexedElemExt, Item,
    Node, NodeId, ProcessedElemExt, Text,
};
use crate::vdom::transforms::indexer::{IndexedDocExt, IndexedDocument, IndexedElement, IndexedNode};

verus! {

// =============================================================================
// NodeIdGenerator
// =============================================================================

/// Hands out node numbers 0, 1, 2, ... in turn.
pub struct NodeIdGenerator {
    next: u32,
}

impl View for NodeIdGenerator {
    type V = u32;

    /// The number the generator hands out next.
    closed spec fn view(&self) -> u32 {
        self.next
    }
}

impl NodeIdGenerator {
    /// A generator that starts at zero.
    pub fn new() -> (r: NodeIdGenerator)
        ensures
            r@ == 0,
    {
        NodeIdGenerator { next: 0 }
    }

    /// The next number; the generator moves on by one.
    pub fn next(&mut self) -> (r: NodeId)
        requires
            old(self)@ < u32::MAX,
        ensures
            r.0 == old(self)@,
            final(self)@ == old(self)@ + 1,
    {
        let id = NodeId::new(self.next);
        self.next = self.next + 1;
        id
    }

    /// The number the generator hands out next (the count handed out so far).
    pub fn current(&self) -> (r: u32)
        ensures
            r == self@,
    {
        self.next
    }
}

/// Node numbers handed out by one generator never repeat: a number handed
/// out at one point is below every number the generator holds later.
pub proof fn law_node_ids_increase(earlier: NodeIdGenerator, later: NodeIdGenerator, id: NodeId)
    requires
        id.0 < earlier@,
        earlier@ <= later@,
    ensures
        id.0 < later@,
{
}

// =============================================================================
// Indexed -> Processed
// =============================================================================

/// The processed data of an element: its identity kept, not modified.
pub open spec fn processed_data(e: IndexedElemExt) -> ProcessedElemExt {
    ProcessedElemExt { stable_id: e.stable_id, modified: false }
}

fn processed_ext_of(ext: &FamilyExt<IndexedElemExt>) -> (r: FamilyExt<ProcessedElemExt>)
    ensures
        r == ext.with_data(processed_data(ext.data())),
{
    let sid = match ext {
        FamilyExt::Svg(e) => e.stable_id,
        FamilyExt::Link(e) => e.stable_id,
        FamilyExt::Heading(e) => e.stable_id,
        FamilyExt::Media(e) => e.stable_id,
        FamilyExt::Other(e) => e.stable_id,
    };
    let p = ProcessedElemExt { stable_id: sid, modified: false };
    match ext {
        FamilyExt::Svg(_) => FamilyExt::Svg(p),
        FamilyExt::Link(_) => FamilyExt::Link(p),
        FamilyExt::Heading(_) => FamilyExt::Heading(p),
        FamilyExt::Media(_) => FamilyExt::Media(p),
        FamilyExt::Other(_) => FamilyExt::Other(p),
    }
}

/// Moves an element's family data from the indexed to the processed phase:
/// the family and the identity are kept, and the element is not modified.
pub fn process_family_ext(ext: FamilyExt<IndexedElemExt>) -> (r: FamilyExt<ProcessedElemExt>)
    ensures
        r == ext.with_data(processed_data(ext.data())),
        r.family() == ext.family(),
{
    processed_ext_of(&ext)
}

/// Statistics of the indexed-to-processed step.
#[derive(Clone, Debug, Default, PartialEq, Eq)]
pub struct ProcessedDocExt {
    pub svg_count: usize,
    pub links_resolved: usize,
    pub headings_anchored: usize,
    pub frames_expanded: usize,
}

/// The indexed-to-processed transformation, with its statistics.
pub struct ProcessFolder {
    stats: ProcessedDocExt,
}

impl ProcessFolder {
    /// A folder with all counts zero.
    pub fn new() -> (r: ProcessFolder)
        ensures
            r.stats_view() == (ProcessedDocExt {
                svg_count: 0,
                links_resolved: 0,
                headings_anchored: 0,
                frames_expanded: 0,
            }),
    {
        ProcessFolder {
            stats: ProcessedDocExt {
                svg_count: 0,
                links_resolved: 0,
                headings_anchored: 0,
                frames_expanded: 0,
            },
        }
    }

    /// The statistics gathered so far.
    pub closed spec fn stats_view(&self) -> ProcessedDocExt {
        self.stats
    }

    /// The statistics gathered so far.
    pub fn stats(&self) -> (r: &ProcessedDocExt)
        ensures
            *r == self.stats_view(),
    {
        &self.stats
    }
}

// =============================================================================
// Folding a document
// =============================================================================

/// An element of the processed phase.
pub type ProcessedElement = Element<ProcessedElemExt, (), ()>;

/// A node of the processed phase.
pub type ProcessedNode = Node<ProcessedElemExt, (), ()>;

/// A document of the processed phase.
pub type ProcessedDocument = Document<ProcessedElemExt, (), (), ProcessedDocExt>;

/// Whether the attributes are exactly `class="typst-frame"`.
pub open spec fn is_frame_class(attrs: Seq<(String, String)>) -> bool {
    attrs.len() == 1 && attrs[0].0@ == "class"@ && attrs[0].1@ == "typst-frame"@
}

/// Whether `y` is the processed form of the indexed element `x`: same tag
/// and attributes, family and identity kept and not modified, children
/// processed in turn.
pub open spec fn proc_elem_ok(x: IndexedElement, y: ProcessedElement) -> bool
    decreases x,
{
    &&& y.tag@ == x.tag@
    &&& y.attrs@ == x.attrs@
    &&& y.ext == x.ext.with_data(processed_data(x.ext.data()))
    &&& y.children@.len() == x.children@.len()
    &&& forall|j: int| 0 <= j < x.children@.len() ==> proc_node_ok(#[trigger] x.children@[j], y.children@[j])
}

/// Whether `y` is the processed form of the indexed node `x`: a text keeps
/// its content; a frame becomes an empty `svg` element of class
/// `typst-frame` with the placeholder identity.
pub open spec fn proc_node_ok(x: IndexedNode, y: ProcessedNode) -> bool
    decreases x,
{
    match x {
        Node::Element(b) => y matches Node::Element(c) && proc_elem_ok(*b, *c),
        Node::Text(t) => y matches Node::Text(u) && u.content@ == t.content@,
        Node::Frame(_) => y matches Node::Element(c) && c.tag@ == "svg"@ && is_frame_class(c.attrs@)
            && c.children@.len() == 0 && c.ext == FamilyExt::<ProcessedElemExt>::Svg(
            ProcessedElemExt { stable_id: c.ext.data().stable_id, modified: false },
        ) && c.ext.data().stable_id@ == 0,
    }
}

/// The statistics `s` with the nodes `items` counted in: svg elements,
/// links, headings and frames.
pub open spec fn proc_add(s: ProcessedDocExt, items: Seq<Item>) -> ProcessedDocExt
    decreases items.len(),
{
    if items.len() == 0 {
        s
    } else {
        let t = proc_add(s, items.drop_last());
        match items.last() {
            Item::Elem(FamilyKind::Svg) => ProcessedDocExt { svg_count: (t.svg_count + 1) as usize, ..t },
            Item::Elem(FamilyKind::Link) => ProcessedDocExt {
                links_resolved: (t.links_resolved + 1) as usize,
                ..t
            },
            Item::Elem(FamilyKind::Heading) => ProcessedDocExt {
                headings_anchored: (t.headings_anchored + 1) as usize,
                ..t
            },
            Item::Frm => ProcessedDocExt { frames_expanded: (t.frames_expanded + 1) as usize, ..t },
            _ => t,
        }
    }
}

/// Every count of `s` leaves room for `n` more.
pub open spec fn proc_room(s: ProcessedDocExt, n: nat) -> bool {
    &&& s.svg_count + n <= usize::MAX
    &&& s.links_resolved + n <= usize::MAX
    &&& s.headings_anchored + n <= usize::MAX
    &&& s.frames_expanded + n <= usize::MAX
}

proof fn lemma_proc_add_concat(s: ProcessedDocExt, a: Seq<Item>, b: Seq<Item>)
    ensures
        proc_add(s, a + b) == proc_add(proc_add(s, a), b),
    decreases b.len(),
{
    if b.len() == 0 {
        assert(a + b =~= a);
    } else {
        lemma_proc_add_concat(s, a, b.drop_last());
        assert((a + b).drop_last() =~= a + b.drop_last());
    }
}

proof fn lemma_proc_add_room(s: ProcessedDocExt, items: Seq<Item>, n: nat)
    requires
        proc_room(s, n + items.len()),
    ensures
        proc_room(proc_add(s, items), n),
    decreases items.len(),
{
    if items.len() > 0 {
        lemma_proc_add_room(s, items.drop_last(), n + 1);
    }
}

fn clone_attrs(attrs: &Vec<(String, String)>) -> (r: Vec<(String, String)>)
    ensures
        r@ == attrs@,
{
    let mut r: Vec<(String, String)> = Vec::new();
    let mut i: usize = 0;
    while i < attrs.len()
        invariant
            i <= attrs@.len(),
            r@ == attrs@.subrange(0, i as int),
        decreases attrs@.len() - i,
    {
        let k = attrs[i].0.clone();
        let v = attrs[i].1.clone();
        r.push((k, v));
        assert(r@ =~= attrs@.subrange(0, i + 1));
        i = i + 1;
    }
    assert(attrs@.subrange(0, attrs@.len() as int) =~= attrs@);
    r
}

impl ProcessFolder {
    fn count(&mut self, it: Item)
        requires
            proc_room(old(self).stats, 1),
        ensures
            final(self).stats == proc_add(old(self).stats, seq![it]),
    {
        assert(seq![it].drop_last() =~= Seq::<Item>::empty());
        assert(proc_add(old(self).stats, Seq::<Item>::empty()) == old(self).stats);
        match it {
            Item::Elem(FamilyKind::Svg) => self.stats.svg_count = self.stats.svg_count + 1,
            Item::Elem(FamilyKind::Link) => self.stats.links_resolved = self.stats.links_resolved + 1,
            Item::Elem(FamilyKind::Heading) => self.stats.headings_anchored = self.stats.headings_anchored
                + 1,
            Item::Frm => self.stats.frames_expanded = self.stats.frames_expanded + 1,
            _ => {},
        }
    }

    /// Processes one node; a frame becomes its placeholder `svg` element.
    fn fold_node(&mut self, node: &IndexedNode) -> (y: ProcessedNode)
        requires
            proc_room(old(self).stats, children_items(seq![*node], 0).len()),
        ensures
            proc_node_ok(*node, y),
            final(self).stats == proc_add(old(self).stats, children_items(seq![*node], 0)),
        decreases node, 1int,
    {
        let ghost one = seq![*node];
        assert(children_items(one, 1) =~= Seq::<Item>::empty());
        match node {
            Node::Element(b) => {
                let e = self.fold_element(b);
                assert(children_items(one, 0) =~= elem_items(**b));
                Node::Element(Box::new(e))
            },
            Node::Text(t) => {
                assert(children_items(one, 0) =~= seq![Item::Txt]);
                assert(seq![Item::Txt].drop_last() =~= Seq::<Item>::empty());
                assert(proc_add(old(self).stats, Seq::<Item>::empty()) == old(self).stats);
                assert(proc_add(old(self).stats, seq![Item::Txt]) == old(self).stats);
                Node::Text(Text { content: t.content.clone(), ext: () })
            },
            Node::Frame(_) => {
                assert(children_items(one, 0) =~= seq![Item::Frm]);
                self.count(Item::Frm);
                let mut attrs: Vec<(String, String)> = Vec::new();
                attrs.push(("class".to_string(), "typst-frame".to_string()));
                let e = Element {
                    tag: "svg".to_string(),
                    attrs,
                    children: Vec::new(),
                    ext: FamilyExt::Svg(ProcessedElemExt { stable_id: StableId::detached(), modified: false }),
                };
                Node::Element(Box::new(e))
            },
        }
    }

    /// Processes an element and its children, counting svg elements, links,
    /// headings and frames.
    fn fold_element(&mut self, elem: &IndexedElement) -> (y: ProcessedElement)
        requires
            proc_room(old(self).stats, elem_items(*elem).len()),
        ensures
            proc_elem_ok(*elem, y),
            final(self).stats == proc_add(old(self).stats, elem_items(*elem)),
        decreases elem, 0int,
    {
        let k = elem.ext.kind();
        let ghost cs = elem.children@;
        assert(elem_items(*elem) == seq![Item::Elem(k)] + children_items(cs, 0));
        self.count(Item::Elem(k));
        proof {
            lemma_proc_add_room(old(self).stats, seq![Item::Elem(k)], children_items(cs, 0).len());
        }
        let ghost start = self.stats;
        let mut out: Vec<ProcessedNode> = Vec::new();
        let mut i: usize = 0;
        while i < elem.children.len()
            invariant
                i <= cs.len(),
                cs == elem.children@,
                out@.len() == i,
                forall|j: int| 0 <= j < i ==> proc_node_ok(#[trigger] cs[j], out@[j]),
                self.stats == proc_add(start, children_items(cs, 0).subrange(
                    0,
                    children_items(cs, 0).len() - children_items(cs, i as int).len(),
                )),
                children_items(cs, 0) == children_items(cs, 0).subrange(
                    0,
                    children_items(cs, 0).len() - children_items(cs, i as int).len(),
                ) + children_items(cs, i as int),
                proc_room(start, children_items(cs, 0).len()),
                start == proc_add(old(self).stats, seq![Item::Elem(k)]),
            decreases cs.len() - i,
        {
            let ghost all = children_items(cs, 0);
            let ghost rest = children_items(cs, i as int);
            let ghost done = all.subrange(0, all.len() - rest.len());
            let ghost here = children_items(seq![cs[i as int]], 0);
            let ghost next = children_items(cs, i + 1);
            proof {
                let one = seq![cs[i as int]];
                assert(children_items(one, 1) =~= Seq::<Item>::empty());
                assert(rest == here + next);
                assert(all == done + here + next);
                lemma_proc_add_concat(start, done, here);
                lemma_proc_add_room(start, done, here.len() + next.len());
            }
            let y = self.fold_node(&elem.children[i]);
            out.push(y);
            assert(all.subrange(0, all.len() - next.len()) =~= done + here);
            i = i + 1;
        }
        proof {
            let all = children_items(cs, 0);
            assert(children_items(cs, i as int) =~= Seq::<Item>::empty());
            assert(all.subrange(0, all.len() as int) =~= all);
            lemma_proc_add_concat(old(self).stats, seq![Item::Elem(k)], all);
        }
        let ext = processed_ext_of(&elem.ext);
        Element { tag: elem.tag.clone(), attrs: clone_attrs(&elem.attrs), children: out, ext }
    }

    /// Processes an indexed document; the document data is the statistics
    /// gathered, which the folder hands over (its own counts start again at
    /// zero).
    pub fn fold(&mut self, doc: IndexedDocument) -> (r: ProcessedDocument)
        requires
            proc_room(old(self).stats_view(), elem_items(doc.root).len()),
        ensures
            proc_elem_ok(doc.root, r.root),
            r.ext == proc_add(old(self).stats_view(), elem_items(doc.root)),
            final(self).stats_view() == (ProcessedDocExt {
                svg_count: 0,
                links_resolved: 0,
                headings_anchored: 0,
                frames_expanded: 0,
            }),
    {
        let root = self.fold_element(&doc.root);
        let ext = ProcessedDocExt {
            svg_count: self.stats.svg_count,
            links_resolved: self.stats.links_resolved,
            headings_anchored: self.stats.headings_anchored,
            frames_expanded: self.stats.frames_expanded,
        };
        self.stats = ProcessedDocExt { svg_count: 0, links_resolved: 0, headings_anchored: 0, frames_expanded: 0 };
        Document { root, ext }
    }
}

impl Transform<IndexedDocument> for ProcessFolder {
    type To = ProcessedDocument;

    /// A document whose counts fit beside the folder's.
    open spec fn accepts(&self, doc: IndexedDocument) -> bool {
        proc_room(self.stats_view(), elem_items(doc.root).len())
    }

    /// The processed tree, with the statistics of the folder and the
    /// document as document data.
    open spec fn produces(&self, doc: IndexedDocument, r: ProcessedDocument) -> bool {
        &&& proc_elem_ok(doc.root, r.root)
        &&& r.ext == proc_add(self.stats_view(), elem_items(doc.root))
    }

    /// Processes an indexed document with this folder.
    fn transform(self, doc: IndexedDocument) -> (r: ProcessedDocument) {
        let mut me = self;
        me.fold(doc)
    }
}

} // verus!
