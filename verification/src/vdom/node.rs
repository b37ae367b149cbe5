//! VDOM node types.
//!
//! - `NodeId`: number of a node within one document
//! - `FamilyKind` / `FamilyExt<E>`: the family of an element (svg, link,
//!   heading, media, other) with the extension data `E` of the current phase
//! - `Text<X>`, `Frame<X>`: text and embedded-frame nodes with phase data `X`
//! - `Stats`: document statistics

use vstd::prelude::*;
use vstd::string::StringSliceAdditionalSpecFns;
use vstd::utf8::encode_utf8;
use crate::utils::rss::{decimal, decimal_chars};
use crate::utils::text::{from_chars, push_all, to_chars, trim, trim_chars};
use crate::vdom::id::StableId;
use crate::vdom::transforms::indexer::{attr_lookup, attr_lookup_from, get_attr, opt_str_view, LinkType};

verus! {

// =============================================================================
// NodeId
// =============================================================================

/// Number of a node within one document.
#[derive(Clone, Copy, PartialEq, Eq, Structural, Hash, Debug, Default)]
pub struct NodeId(pub u32);

impl NodeId {
    /// The node number `id`.
    pub fn new(id: u32) -> (r: NodeId)
        ensures
            r.0 == id,
    {
        NodeId(id)
    }

    /// The raw number.
    pub fn as_u32(&self) -> (r: u32)
        ensures
            r == self.0,
    {
        self.0
    }

    /// The number for display: `#` and the number in decimal.
    pub fn to_display_string(&self) -> (r: String)
        ensures
            r@ == seq!['#'] + decimal(self.0 as nat),
    {
        let mut out: Vec<char> = Vec::new();
        out.push('#');
        let d = decimal_chars(self.0 as u64);
        let mut i: usize = 0;
        while i < d.len()
            invariant
                i <= d@.len(),
                out@ == seq!['#'] + d@.subrange(0, i as int),
            decreases d@.len() - i,
        {
            out.push(d[i]);
            assert(out@ =~= seq!['#'] + d@.subrange(0, i + 1));
            i = i + 1;
        }
        assert(d@.subrange(0, d@.len() as int) =~= d@);
        from_chars(&out)
    }
}

// =============================================================================
// Families
// =============================================================================

/// The family of an element.
#[derive(Clone, Copy, PartialEq, Eq, Structural, Hash, Debug)]
pub enum FamilyKind {
    Svg,
    Link,
    Heading,
    Media,
    Other,
}

/// The name of a family.
pub open spec fn family_name_of(k: FamilyKind) -> Seq<char> {
    match k {
        FamilyKind::Svg => "svg"@,
        FamilyKind::Link => "link"@,
        FamilyKind::Heading => "heading"@,
        FamilyKind::Media => "media"@,
        FamilyKind::Other => "other"@,
    }
}

impl FamilyKind {
    /// The name of this family.
    pub fn name(&self) -> (r: &'static str)
        ensures
            r@ == family_name_of(*self),
    {
        match self {
            FamilyKind::Svg => "svg",
            FamilyKind::Link => "link",
            FamilyKind::Heading => "heading",
            FamilyKind::Media => "media",
            FamilyKind::Other => "other",
        }
    }
}

/// An element's family with the extension data of the current phase.
#[derive(Clone, Debug)]
pub enum FamilyExt<E> {
    Svg(E),
    Link(E),
    Heading(E),
    Media(E),
    Other(E),
}

impl<E> FamilyExt<E> {
    /// The family.
    pub open spec fn family(self) -> FamilyKind {
        match self {
            FamilyExt::Svg(_) => FamilyKind::Svg,
            FamilyExt::Link(_) => FamilyKind::Link,
            FamilyExt::Heading(_) => FamilyKind::Heading,
            FamilyExt::Media(_) => FamilyKind::Media,
            FamilyExt::Other(_) => FamilyKind::Other,
        }
    }

    /// The extension data, whatever the family.
    pub open spec fn data(self) -> E {
        match self {
            FamilyExt::Svg(e) => e,
            FamilyExt::Link(e) => e,
            FamilyExt::Heading(e) => e,
            FamilyExt::Media(e) => e,
            FamilyExt::Other(e) => e,
        }
    }

    /// The same family holding `e`.
    pub open spec fn with_data<F>(self, e: F) -> FamilyExt<F> {
        match self {
            FamilyExt::Svg(_) => FamilyExt::Svg(e),
            FamilyExt::Link(_) => FamilyExt::Link(e),
            FamilyExt::Heading(_) => FamilyExt::Heading(e),
            FamilyExt::Media(_) => FamilyExt::Media(e),
            FamilyExt::Other(_) => FamilyExt::Other(e),
        }
    }

    /// The family of this extension.
    pub fn kind(&self) -> (k: FamilyKind)
        ensures
            k == self.family(),
    {
        match self {
            FamilyExt::Svg(_) => FamilyKind::Svg,
            FamilyExt::Link(_) => FamilyKind::Link,
            FamilyExt::Heading(_) => FamilyKind::Heading,
            FamilyExt::Media(_) => FamilyKind::Media,
            FamilyExt::Other(_) => FamilyKind::Other,
        }
    }

    /// The name of the family of this extension.
    pub fn family_name(&self) -> (r: &'static str)
        ensures
            r@ == family_name_of(self.family()),
    {
        let k = self.kind();
        k.name()
    }

    /// Whether the element is of the svg family.
    pub fn is_svg(&self) -> (b: bool)
        ensures
            b == (self.family() == FamilyKind::Svg),
    {
        matches!(self, FamilyExt::Svg(_))
    }

    /// Whether the element is of the link family.
    pub fn is_link(&self) -> (b: bool)
        ensures
            b == (self.family() == FamilyKind::Link),
    {
        matches!(self, FamilyExt::Link(_))
    }

    /// Whether the element is of the heading family.
    pub fn is_heading(&self) -> (b: bool)
        ensures
            b == (self.family() == FamilyKind::Heading),
    {
        matches!(self, FamilyExt::Heading(_))
    }

    /// Whether the element is of the media family.
    pub fn is_media(&self) -> (b: bool)
        ensures
            b == (self.family() == FamilyKind::Media),
    {
        matches!(self, FamilyExt::Media(_))
    }

    /// Whether the element is of no particular family.
    pub fn is_other(&self) -> (b: bool)
        ensures
            b == (self.family() == FamilyKind::Other),
    {
        matches!(self, FamilyExt::Other(_))
    }
}

// =============================================================================
// Phase data
// =============================================================================

/// A source span of the typesetting engine: detached (pointing nowhere), or
/// pointing at a source location, identified by its number.
#[derive(Clone, Copy, PartialEq, Eq, Structural, Debug)]
pub enum Span {
    Detached,
    At(u64),
}

/// Element data of the raw phase: the source span the element came from.
#[derive(Clone, Copy, PartialEq, Eq, Structural, Debug)]
pub struct RawElemExt {
    pub span: Option<Span>,
}

impl RawElemExt {
    /// Element data with a detached span.
    pub fn detached() -> (r: RawElemExt)
        ensures
            r.span == Some(Span::Detached),
    {
        RawElemExt { span: Some(Span::Detached) }
    }
}

/// Data the indexed phase extracts from an svg element.
#[derive(Clone, Debug, PartialEq, Eq)]
pub struct SvgIndexedData {
    /// Whether the element is the `<svg>` root itself.
    pub is_root: bool,
    /// Its `viewBox` attribute.
    pub viewbox: Option<String>,
}

/// Data the indexed phase extracts from a link.
#[derive(Clone, Debug, PartialEq, Eq)]
pub struct LinkIndexedData {
    /// The kind of target, when the link has an `href`.
    pub link_type: Option<LinkType>,
    /// Its `href` attribute.
    pub original_href: Option<String>,
}

/// Data the indexed phase extracts from a heading.
#[derive(Clone, Debug, PartialEq, Eq)]
pub struct HeadingIndexedData {
    /// Its `id` attribute.
    pub original_id: Option<String>,
}

/// Data the indexed phase extracts from a media element.
#[derive(Clone, Debug, PartialEq, Eq)]
pub struct MediaIndexedData {
    /// Its `src` attribute.
    pub src: Option<String>,
    /// Whether the source is an SVG image (ends in `.svg`, ignoring case).
    pub is_svg_image: bool,
}

/// The family-specific data of an indexed element.
#[derive(Clone, Debug, PartialEq, Eq)]
pub enum FamilyData {
    Svg(SvgIndexedData),
    Link(LinkIndexedData),
    Heading(HeadingIndexedData),
    Media(MediaIndexedData),
    Other,
}

/// Element data of the indexed phase.
#[derive(Clone, Debug)]
pub struct IndexedElemExt {
    pub stable_id: StableId,
    pub node_id: NodeId,
    pub family_data: FamilyData,
}

impl IndexedElemExt {
    /// Element data with the placeholder identity, node number zero and no
    /// family data.
    pub fn placeholder() -> (r: IndexedElemExt)
        ensures
            r.stable_id@ == 0,
            r.node_id.0 == 0,
            r.family_data == FamilyData::Other,
    {
        IndexedElemExt { stable_id: StableId::detached(), node_id: NodeId(0), family_data: FamilyData::Other }
    }
}

impl Default for IndexedElemExt {
    /// The placeholder element data.
    fn default() -> (r: IndexedElemExt)
        ensures
            r.stable_id@ == 0,
            r.node_id.0 == 0,
            r.family_data == FamilyData::Other,
    {
        IndexedElemExt::placeholder()
    }
}

/// Text data of the indexed phase.
#[derive(Clone, Copy, Debug, PartialEq, Eq, Structural)]
pub struct IndexedTextExt {
    pub stable_id: StableId,
}

/// Frame data of the indexed phase.
#[derive(Clone, Copy, Debug, PartialEq, Eq, Structural)]
pub struct IndexedFrameExt {
    pub stable_id: StableId,
    pub node_id: NodeId,
    pub frame_id: usize,
    pub estimated_svg_size: usize,
}

/// Element data of the processed phase.
#[derive(Clone, Copy, PartialEq, Eq, Structural, Debug)]
pub struct ProcessedElemExt {
    pub stable_id: StableId,
    pub modified: bool,
}

impl FamilyExt<RawElemExt> {
    /// The source span of the element.
    pub fn span(&self) -> (r: Option<Span>)
        ensures
            r == self.data().span,
    {
        match self {
            FamilyExt::Svg(e) => e.span,
            FamilyExt::Link(e) => e.span,
            FamilyExt::Heading(e) => e.span,
            FamilyExt::Media(e) => e.span,
            FamilyExt::Other(e) => e.span,
        }
    }

    /// Sets the source span, keeping the family.
    pub fn set_span(&mut self, span: Span)
        ensures
            *final(self) == old(self).with_data(RawElemExt { span: Some(span) }),
    {
        match self {
            FamilyExt::Svg(e) => e.span = Some(span),
            FamilyExt::Link(e) => e.span = Some(span),
            FamilyExt::Heading(e) => e.span = Some(span),
            FamilyExt::Media(e) => e.span = Some(span),
            FamilyExt::Other(e) => e.span = Some(span),
        }
    }

    /// Whether the element has a span that is not detached.
    pub fn has_span(&self) -> (b: bool)
        ensures
            b == (self.data().span matches Some(Span::At(_))),
    {
        match self.span() {
            Some(Span::At(_)) => true,
            _ => false,
        }
    }
}

impl FamilyExt<IndexedElemExt> {
    /// The identity of the element.
    pub fn stable_id(&self) -> (r: StableId)
        ensures
            r == self.data().stable_id,
    {
        match self {
            FamilyExt::Svg(e) => e.stable_id,
            FamilyExt::Link(e) => e.stable_id,
            FamilyExt::Heading(e) => e.stable_id,
            FamilyExt::Media(e) => e.stable_id,
            FamilyExt::Other(e) => e.stable_id,
        }
    }

    /// The node number of the element.
    pub fn node_id(&self) -> (r: NodeId)
        ensures
            r == self.data().node_id,
    {
        match self {
            FamilyExt::Svg(e) => e.node_id,
            FamilyExt::Link(e) => e.node_id,
            FamilyExt::Heading(e) => e.node_id,
            FamilyExt::Media(e) => e.node_id,
            FamilyExt::Other(e) => e.node_id,
        }
    }
}

impl FamilyExt<ProcessedElemExt> {
    /// The identity of the element, kept from the indexed phase.
    pub fn stable_id(&self) -> (r: StableId)
        ensures
            r == self.data().stable_id,
    {
        match self {
            FamilyExt::Svg(e) => e.stable_id,
            FamilyExt::Link(e) => e.stable_id,
            FamilyExt::Heading(e) => e.stable_id,
            FamilyExt::Media(e) => e.stable_id,
            FamilyExt::Other(e) => e.stable_id,
        }
    }

    /// Whether a transform changed the element.
    pub fn is_modified(&self) -> (r: bool)
        ensures
            r == self.data().modified,
    {
        match self {
            FamilyExt::Svg(e) => e.modified,
            FamilyExt::Link(e) => e.modified,
            FamilyExt::Heading(e) => e.modified,
            FamilyExt::Media(e) => e.modified,
            FamilyExt::Other(e) => e.modified,
        }
    }

    /// Marks the element as changed or not, keeping the family and identity.
    pub fn set_modified(&mut self, value: bool)
        ensures
            *final(self) == old(self).with_data(
                ProcessedElemExt { stable_id: old(self).data().stable_id, modified: value },
            ),
    {
        match self {
            FamilyExt::Svg(e) => e.modified = value,
            FamilyExt::Link(e) => e.modified = value,
            FamilyExt::Heading(e) => e.modified = value,
            FamilyExt::Media(e) => e.modified = value,
            FamilyExt::Other(e) => e.modified = value,
        }
    }
}

// =============================================================================
// Family data access
// =============================================================================

/// Marker of the svg family.
pub struct SvgFamily;

/// Marker of the link family.
pub struct LinkFamily;

/// Marker of the heading family.
pub struct HeadingFamily;

/// Marker of the media family.
pub struct MediaFamily;

/// Access to the data that indexing extracted for one family `T`, without
/// matching on the family by hand.
pub trait HasFamilyData<T> {
    /// The data of that family.
    type Data;

    /// The element's data of the family, when it belongs to it.
    spec fn family_data_of(&self) -> Option<Self::Data>;

    /// The element's data, when the element belongs to the family.
    fn family_data(&self) -> (r: Option<&Self::Data>)
        ensures
            r matches Some(d) ==> self.family_data_of() == Some(*d),
            r is None <==> self.family_data_of() is None,
    ;
}

impl<X, F> HasFamilyData<SvgFamily> for Element<IndexedElemExt, X, F> {
    type Data = SvgIndexedData;

    open spec fn family_data_of(&self) -> Option<SvgIndexedData> {
        match self.ext {
            FamilyExt::Svg(e) => match e.family_data {
                FamilyData::Svg(d) => Some(d),
                _ => None,
            },
            _ => None,
        }
    }

    fn family_data(&self) -> (r: Option<&SvgIndexedData>) {
        match &self.ext {
            FamilyExt::Svg(e) => match &e.family_data {
                FamilyData::Svg(d) => Some(d),
                _ => None,
            },
            _ => None,
        }
    }
}

impl<X, F> HasFamilyData<LinkFamily> for Element<IndexedElemExt, X, F> {
    type Data = LinkIndexedData;

    open spec fn family_data_of(&self) -> Option<LinkIndexedData> {
        match self.ext {
            FamilyExt::Link(e) => match e.family_data {
                FamilyData::Link(d) => Some(d),
                _ => None,
            },
            _ => None,
        }
    }

    fn family_data(&self) -> (r: Option<&LinkIndexedData>) {
        match &self.ext {
            FamilyExt::Link(e) => match &e.family_data {
                FamilyData::Link(d) => Some(d),
                _ => None,
            },
            _ => None,
        }
    }
}

impl<X, F> HasFamilyData<HeadingFamily> for Element<IndexedElemExt, X, F> {
    type Data = HeadingIndexedData;

    open spec fn family_data_of(&self) -> Option<HeadingIndexedData> {
        match self.ext {
            FamilyExt::Heading(e) => match e.family_data {
                FamilyData::Heading(d) => Some(d),
                _ => None,
            },
            _ => None,
        }
    }

    fn family_data(&self) -> (r: Option<&HeadingIndexedData>) {
        match &self.ext {
            FamilyExt::Heading(e) => match &e.family_data {
                FamilyData::Heading(d) => Some(d),
                _ => None,
            },
            _ => None,
        }
    }
}

impl<X, F> HasFamilyData<MediaFamily> for Element<IndexedElemExt, X, F> {
    type Data = MediaIndexedData;

    open spec fn family_data_of(&self) -> Option<MediaIndexedData> {
        match self.ext {
            FamilyExt::Media(e) => match e.family_data {
                FamilyData::Media(d) => Some(d),
                _ => None,
            },
            _ => None,
        }
    }

    fn family_data(&self) -> (r: Option<&MediaIndexedData>) {
        match &self.ext {
            FamilyExt::Media(e) => match &e.family_data {
                FamilyData::Media(d) => Some(d),
                _ => None,
            },
            _ => None,
        }
    }
}

// =============================================================================
// Text and Frame
// =============================================================================

/// A text node with the phase data `X`.
#[derive(Clone, Debug)]
pub struct Text<X> {
    pub content: String,
    pub ext: X,
}

impl<X: Default> Text<X> {
    /// A text node with this content and default phase data.
    pub fn new(content: &str) -> (r: Text<X>)
        ensures
            r.content@ == content@,
    {
        Text { content: content.to_string(), ext: X::default() }
    }
}

impl<X> Text<X> {
    /// Whether the content is empty.
    pub fn is_empty(&self) -> (b: bool)
        ensures
            b == (self.content@.len() == 0),
    {
        self.content.as_str().as_bytes().len() == 0
    }

    /// The length of the content in bytes.
    pub fn len(&self) -> (r: usize)
        ensures
            r == encode_utf8(self.content@).len(),
    {
        self.content.as_str().as_bytes().len()
    }

    /// Whether the content is whitespace only.
    pub fn is_whitespace(&self) -> (b: bool)
        ensures
            b == (trim(self.content@).len() == 0),
    {
        let t = trim_chars(&to_chars(self.content.as_str()));
        t.len() == 0
    }

    /// The content without leading and trailing whitespace.
    pub fn trimmed(&self) -> (r: String)
        ensures
            r@ == trim(self.content@),
    {
        from_chars(&trim_chars(&to_chars(self.content.as_str())))
    }
}

/// An embedded frame of the typesetting engine with the phase data `X`.
#[derive(Clone, Debug)]
pub struct Frame<X> {
    pub ext: X,
}

impl<X> Frame<X> {
    /// A frame with this data.
    pub fn new(ext: X) -> (r: Frame<X>)
        ensures
            r.ext == ext,
    {
        Frame { ext }
    }
}

// =============================================================================
// Trees
// =============================================================================

/// An HTML element with its attributes, its children and the family data of
/// its phase (`E` for elements, `X` for text nodes, `F` for frames).
#[derive(Debug)]
pub struct Element<E, X, F> {
    pub tag: String,
    pub attrs: Vec<(String, String)>,
    pub children: Vec<Node<E, X, F>>,
    pub ext: FamilyExt<E>,
}

/// A node of the tree.
#[derive(Debug)]
pub enum Node<E, X, F> {
    Element(Box<Element<E, X, F>>),
    Text(Text<X>),
    Frame(Box<Frame<F>>),
}

impl<E, X, F> Element<E, X, F> {
    /// An element of the general family, with no attributes or children.
    pub fn new(tag: &str, ext: E) -> (r: Element<E, X, F>)
        ensures
            r.tag@ == tag@,
            r.attrs@.len() == 0,
            r.children@.len() == 0,
            r.ext == FamilyExt::Other(ext),
    {
        Element { tag: tag.to_owned(), attrs: Vec::new(), children: Vec::new(), ext: FamilyExt::Other(ext) }
    }

    /// An element of the given family, with no attributes or children.
    pub fn with_ext(tag: &str, ext: FamilyExt<E>) -> (r: Element<E, X, F>)
        ensures
            r.tag@ == tag@,
            r.attrs@.len() == 0,
            r.children@.len() == 0,
            r.ext == ext,
    {
        Element { tag: tag.to_owned(), attrs: Vec::new(), children: Vec::new(), ext }
    }

    /// An element of the svg family.
    pub fn svg(tag: &str, ext: E) -> (r: Element<E, X, F>)
        ensures
            r.tag@ == tag@,
            r.attrs@.len() == 0,
            r.children@.len() == 0,
            r.ext == FamilyExt::Svg(ext),
    {
        Self::with_ext(tag, FamilyExt::Svg(ext))
    }

    /// An element of the link family.
    pub fn link(tag: &str, ext: E) -> (r: Element<E, X, F>)
        ensures
            r.tag@ == tag@,
            r.attrs@.len() == 0,
            r.children@.len() == 0,
            r.ext == FamilyExt::Link(ext),
    {
        Self::with_ext(tag, FamilyExt::Link(ext))
    }

    /// An element of the heading family.
    pub fn heading(tag: &str, ext: E) -> (r: Element<E, X, F>)
        ensures
            r.tag@ == tag@,
            r.attrs@.len() == 0,
            r.children@.len() == 0,
            r.ext == FamilyExt::Heading(ext),
    {
        Self::with_ext(tag, FamilyExt::Heading(ext))
    }

    /// An element of the media family.
    pub fn media(tag: &str, ext: E) -> (r: Element<E, X, F>)
        ensures
            r.tag@ == tag@,
            r.attrs@.len() == 0,
            r.children@.len() == 0,
            r.ext == FamilyExt::Media(ext),
    {
        Self::with_ext(tag, FamilyExt::Media(ext))
    }

    /// An element of no particular family (as `new`).
    pub fn other(tag: &str, ext: E) -> (r: Element<E, X, F>)
        ensures
            r.tag@ == tag@,
            r.attrs@.len() == 0,
            r.children@.len() == 0,
            r.ext == FamilyExt::Other(ext),
    {
        Self::with_ext(tag, FamilyExt::Other(ext))
    }

    /// Whether the element has no children.
    pub fn is_empty(&self) -> (r: bool)
        ensures
            r == (self.children@.len() == 0),
    {
        self.children.len() == 0
    }

    /// Whether the element has children.
    pub fn has_children(&self) -> (r: bool)
        ensures
            r == (self.children@.len() > 0),
    {
        self.children.len() > 0
    }

    /// The number of children.
    pub fn child_count(&self) -> (r: usize)
        ensures
            r == self.children@.len(),
    {
        self.children.len()
    }

    /// The value of the first attribute with this name.
    pub fn get_attr(&self, name: &str) -> (r: Option<&str>)
        ensures
            opt_str_view(r) == attr_lookup(self.attrs@, name@),
    {
        get_attr(self.attrs.as_slice(), name)
    }

    /// Sets an attribute: the first attribute with this name gets the
    /// value, or the attribute is added when there is none. Afterwards the
    /// attribute reads as the value and every other attribute reads as
    /// before.
    pub fn set_attr(&mut self, name: &str, value: &str)
        ensures
            final(self).tag == old(self).tag,
            final(self).children == old(self).children,
            final(self).ext == old(self).ext,
            attr_lookup(final(self).attrs@, name@) == Some(value@),
            forall|n: Seq<char>| n != name@ ==> attr_lookup(final(self).attrs@, n) == attr_lookup(old(self).attrs@, n),
    {
        let ghost before = self.attrs@;
        let mut i: usize = 0;
        while i < self.attrs.len()
            invariant
                i <= self.attrs@.len(),
                self.attrs@ == before,
                self.tag == old(self).tag,
                self.children == old(self).children,
                self.ext == old(self).ext,
                before == old(self).attrs@,
                forall|j: int| 0 <= j < i ==> (#[trigger] before[j]).0@ != name@,
            decreases self.attrs.len() - i,
        {
            if crate::utils::text::str_eq(self.attrs[i].0.as_str(), name) {
                let mut attrs: Vec<(String, String)> = Vec::new();
                std::mem::swap(&mut attrs, &mut self.attrs);
                let (k, _) = attrs.remove(i);
                attrs.insert(i, (k, value.to_owned()));
                proof {
                    let x = attrs@[i as int];
                    assert(attrs@ =~= before.update(i as int, x));
                    assert forall|n: Seq<char>| #![auto] true implies attr_lookup(attrs@, n) == (if n == name@ {
                        Some(value@)
                    } else {
                        attr_lookup(before, n)
                    }) by {
                        lemma_lookup_update(before, i as int, x, n, 0);
                    }
                }
                self.attrs = attrs;
                return;
            }
            i = i + 1;
        }
        self.attrs.push((name.to_owned(), value.to_owned()));
        proof {
            let x = self.attrs@[before.len() as int];
            assert(self.attrs@ =~= before.push(x));
            assert forall|n: Seq<char>| #![auto] true implies attr_lookup(self.attrs@, n) == (if n == name@ {
                Some(value@)
            } else {
                attr_lookup(before, n)
            }) by {
                lemma_lookup_push(before, x, n, 0);
                if n == name@ {
                    lemma_lookup_absent(before, n, 0);
                }
            }
        }
    }
}

impl<E, X, F> Element<E, X, F> {
    /// Removes the first attribute with this name and hands back its value,
    /// or `None` when there is none. Every other attribute name reads as
    /// before.
    pub fn remove_attr(&mut self, name: &str) -> (r: Option<String>)
        ensures
            final(self).tag == old(self).tag,
            final(self).children == old(self).children,
            final(self).ext == old(self).ext,
            opt_string_view(r) == attr_lookup(old(self).attrs@, name@),
            r is None ==> final(self).attrs@ == old(self).attrs@,
            r is Some ==> final(self).attrs@ == old(self).attrs@.remove(
                attr_index_from(old(self).attrs@, name@, 0),
            ),
            forall|n: Seq<char>| n != name@ ==> attr_lookup(final(self).attrs@, n) == attr_lookup(old(self).attrs@, n),
    {
        let ghost before = self.attrs@;
        let mut i: usize = 0;
        while i < self.attrs.len()
            invariant
                i <= self.attrs@.len(),
                self.attrs@ == before,
                self.tag == old(self).tag,
                self.children == old(self).children,
                self.ext == old(self).ext,
                before == old(self).attrs@,
                attr_lookup(before, name@) == attr_lookup_from(before, name@, i as int),
                attr_index_from(before, name@, 0) == attr_index_from(before, name@, i as int),
            decreases self.attrs.len() - i,
        {
            if crate::utils::text::str_eq(self.attrs[i].0.as_str(), name) {
                let mut attrs: Vec<(String, String)> = Vec::new();
                std::mem::swap(&mut attrs, &mut self.attrs);
                let (_, v) = attrs.remove(i);
                proof {
                    assert forall|n: Seq<char>| n != name@ implies attr_lookup(attrs@, n) == attr_lookup(before, n) by {
                        lemma_lookup_remove(before, i as int, n, 0);
                    }
                }
                self.attrs = attrs;
                return Some(v);
            }
            i = i + 1;
        }
        None
    }

    /// Whether the element has an attribute with this name.
    pub fn has_attr(&self, name: &str) -> (r: bool)
        ensures
            r == (attr_lookup(self.attrs@, name@) is Some),
    {
        get_attr(self.attrs.as_slice(), name).is_some()
    }

    /// The name of the element's family.
    pub fn family(&self) -> (r: &'static str)
        ensures
            r@ == family_name_of(self.ext.family()),
    {
        self.ext.family_name()
    }

    /// Whether no child is an element (text and frames may be there).
    pub fn is_leaf(&self) -> (r: bool)
        ensures
            r == (forall|j: int| 0 <= j < self.children@.len() ==> !(#[trigger] self.children@[j] is Element)),
    {
        let mut i: usize = 0;
        while i < self.children.len()
            invariant
                i <= self.children@.len(),
                forall|j: int| 0 <= j < i ==> !(#[trigger] self.children@[j] is Element),
            decreases self.children@.len() - i,
        {
            if self.children[i].is_element() {
                return false;
            }
            i = i + 1;
        }
        true
    }

    /// The number of children that are elements (text and frames left out).
    pub fn element_count(&self) -> (r: usize)
        ensures
            r == child_element_count(self.children@, self.children@.len() as int),
    {
        let mut n: usize = 0;
        let mut i: usize = 0;
        while i < self.children.len()
            invariant
                i <= self.children@.len(),
                n == child_element_count(self.children@, i as int),
                n <= i,
            decreases self.children@.len() - i,
        {
            if self.children[i].is_element() {
                n = n + 1;
            }
            i = i + 1;
        }
        n
    }

    /// The children that are elements, in order.
    pub fn children_elements(&self) -> (r: Vec<&Element<E, X, F>>)
        ensures
            refs_to(r@, child_elements_prefix(self.children@, self.children@.len() as int)),
    {
        let mut out: Vec<&Element<E, X, F>> = Vec::new();
        let mut i: usize = 0;
        while i < self.children.len()
            invariant
                i <= self.children@.len(),
                refs_to(out@, child_elements_prefix(self.children@, i as int)),
            decreases self.children@.len() - i,
        {
            match &self.children[i] {
                Node::Element(b) => {
                    out.push(&**b);
                },
                _ => {},
            }
            i = i + 1;
        }
        out
    }

    /// The text of the element: the content of its text nodes, in document
    /// order, at any depth.
    pub fn text_content(&self) -> (r: String)
        ensures
            r@ == elem_text(*self),
    {
        let mut buf: Vec<char> = Vec::new();
        collect_text(self, &mut buf);
        from_chars(&buf)
    }
}

/// Appends the text of the element to `buf`.
fn collect_text<E, X, F>(elem: &Element<E, X, F>, buf: &mut Vec<char>)
    ensures
        final(buf)@ == old(buf)@ + elem_text(*elem),
    decreases elem,
{
    let ghost cs = elem.children@;
    let ghost start = buf@;
    let mut i: usize = 0;
    while i < elem.children.len()
        invariant
            i <= cs.len(),
            cs == elem.children@,
            start + children_text(cs, 0) == buf@ + children_text(cs, i as int),
            elem_text(*elem) == children_text(cs, 0),
        decreases cs.len() - i,
    {
        let ghost before = buf@;
        match &elem.children[i] {
            Node::Text(t) => {
                let c = to_chars(t.content.as_str());
                push_all(buf, &c);
            },
            Node::Element(b) => collect_text(b, buf),
            Node::Frame(_) => {},
        }
        proof {
            let here = node_text(cs[i as int]);
            assert(children_text(cs, i as int) == here + children_text(cs, i + 1));
            assert(buf@ == before + here);
            assert(before + (here + children_text(cs, i + 1)) =~= (before + here) + children_text(cs, i + 1));
        }
        i = i + 1;
    }
    assert(children_text(cs, i as int) =~= Seq::<char>::empty());
    assert(buf@ + Seq::<char>::empty() =~= buf@);
}

/// The view of an optional string.
pub open spec fn opt_string_view(o: Option<String>) -> Option<Seq<char>> {
    match o {
        Some(s) => Some(s@),
        None => None,
    }
}

/// The position of the first attribute named `name` from position `i` on,
/// or the number of attributes when there is none.
pub open spec fn attr_index_from(attrs: Seq<(String, String)>, name: Seq<char>, i: int) -> int
    decreases attrs.len() - i,
{
    if i < 0 || i >= attrs.len() {
        attrs.len() as int
    } else if attrs[i].0@ == name {
        i
    } else {
        attr_index_from(attrs, name, i + 1)
    }
}

/// The number of elements among the first `n` children.
pub open spec fn child_element_count<E, X, F>(cs: Seq<Node<E, X, F>>, n: int) -> nat
    decreases n,
{
    if n <= 0 {
        0
    } else {
        child_element_count(cs, n - 1) + if cs[n - 1] is Element { 1nat } else { 0nat }
    }
}

/// The text of an element's subtree: the content of its text nodes in
/// document order.
pub open spec fn elem_text<E, X, F>(e: Element<E, X, F>) -> Seq<char>
    decreases e,
{
    children_text(e.children@, 0)
}

/// The text of the children from position `i` on.
pub open spec fn children_text<E, X, F>(cs: Seq<Node<E, X, F>>, i: int) -> Seq<char>
    decreases cs, cs.len() - i,
{
    if i < 0 || i >= cs.len() {
        seq![]
    } else {
        (match cs[i] {
            Node::Element(b) => elem_text(*b),
            Node::Text(t) => t.content@,
            Node::Frame(_) => seq![],
        }) + children_text(cs, i + 1)
    }
}

/// The text that one node contributes.
pub open spec fn node_text<E, X, F>(n: Node<E, X, F>) -> Seq<char> {
    match n {
        Node::Element(b) => elem_text(*b),
        Node::Text(t) => t.content@,
        Node::Frame(_) => seq![],
    }
}

proof fn lemma_lookup_remove(attrs: Seq<(String, String)>, p: int, n: Seq<char>, i: int)
    requires
        0 <= i <= p < attrs.len(),
        attrs[p].0@ != n,
    ensures
        attr_lookup_from(attrs.remove(p), n, i) == attr_lookup_from(attrs, n, i),
    decreases attrs.len() - i,
{
    let r = attrs.remove(p);
    if i < p {
        assert(r[i] == attrs[i]);
        lemma_lookup_remove(attrs, p, n, i + 1);
    } else {
        lemma_lookup_shift(attrs, p, n, p);
    }
}

proof fn lemma_lookup_shift(attrs: Seq<(String, String)>, p: int, n: Seq<char>, j: int)
    requires
        0 <= p <= j < attrs.len(),
    ensures
        attr_lookup_from(attrs.remove(p), n, j) == attr_lookup_from(attrs, n, j + 1),
    decreases attrs.len() - j,
{
    let r = attrs.remove(p);
    if j + 1 < attrs.len() {
        assert(r[j] == attrs[j + 1]);
        lemma_lookup_shift(attrs, p, n, j + 1);
    }
}

proof fn lemma_lookup_absent(attrs: Seq<(String, String)>, n: Seq<char>, i: int)
    requires
        0 <= i,
        forall|j: int| i <= j < attrs.len() ==> (#[trigger] attrs[j]).0@ != n,
    ensures
        attr_lookup_from(attrs, n, i) is None,
    decreases attrs.len() - i,
{
    if i < attrs.len() {
        lemma_lookup_absent(attrs, n, i + 1);
    }
}

proof fn lemma_lookup_push(attrs: Seq<(String, String)>, x: (String, String), n: Seq<char>, i: int)
    requires
        0 <= i <= attrs.len(),
    ensures
        attr_lookup_from(attrs.push(x), n, i) == match attr_lookup_from(attrs, n, i) {
            Some(v) => Some(v),
            None => if x.0@ == n {
                Some(x.1@)
            } else {
                None
            },
        },
    decreases attrs.len() - i,
{
    if i < attrs.len() {
        assert(attrs.push(x)[i] == attrs[i]);
        lemma_lookup_push(attrs, x, n, i + 1);
    } else {
        assert(attrs.push(x)[i] == x);
        assert(attr_lookup_from(attrs.push(x), n, i + 1) is None);
    }
}

proof fn lemma_lookup_update(attrs: Seq<(String, String)>, k: int, x: (String, String), n: Seq<char>, i: int)
    requires
        0 <= i <= k < attrs.len(),
        attrs[k].0@ == x.0@,
        forall|j: int| 0 <= j < k ==> (#[trigger] attrs[j]).0@ != x.0@,
    ensures
        attr_lookup_from(attrs.update(k, x), n, i) == if n == x.0@ {
            Some(x.1@)
        } else {
            attr_lookup_from(attrs, n, i)
        },
    decreases attrs.len() - i,
{
    let u = attrs.update(k, x);
    if i < k {
        assert(u[i] == attrs[i]);
        lemma_lookup_update(attrs, k, x, n, i + 1);
    } else {
        assert(u[k] == x);
        if n != x.0@ {
            lemma_lookup_same_after(attrs, u, n, k + 1);
        }
    }
}

proof fn lemma_lookup_same_after(a: Seq<(String, String)>, b: Seq<(String, String)>, n: Seq<char>, i: int)
    requires
        0 <= i,
        a.len() == b.len(),
        forall|j: int| i <= j < a.len() ==> #[trigger] a[j] == b[j],
    ensures
        attr_lookup_from(a, n, i) == attr_lookup_from(b, n, i),
    decreases a.len() - i,
{
    if i < a.len() {
        lemma_lookup_same_after(a, b, n, i + 1);
    }
}

impl<E, X, F> Node<E, X, F> {
    /// Whether the node is an element.
    pub fn is_element(&self) -> (r: bool)
        ensures
            r == (self is Element),
    {
        matches!(self, Node::Element(_))
    }

    /// Whether the node is text.
    pub fn is_text(&self) -> (r: bool)
        ensures
            r == (self is Text),
    {
        matches!(self, Node::Text(_))
    }

    /// Whether the node is a frame.
    pub fn is_frame(&self) -> (r: bool)
        ensures
            r == (self is Frame),
    {
        matches!(self, Node::Frame(_))
    }

    /// The node as an element, when it is one.
    pub fn as_element(&self) -> (r: Option<&Element<E, X, F>>)
        ensures
            self matches Node::Element(e) ==> r == Some(&**e),
            !(self is Element) ==> r is None,
    {
        match self {
            Node::Element(e) => Some(&**e),
            _ => None,
        }
    }
}

/// A document: its root element and document data `D`.
#[derive(Debug)]
pub struct Document<E, X, F, D> {
    pub root: Element<E, X, F>,
    pub ext: D,
}

impl<E, X, F, D> Document<E, X, F, D> {
    /// A document with this root and this document data.
    pub fn new(root: Element<E, X, F>, ext: D) -> (r: Document<E, X, F, D>)
        ensures
            r.root == root,
            r.ext == ext,
    {
        Document { root, ext }
    }
}

/// What a node is, as statistics count it.
#[derive(Clone, Copy, PartialEq, Eq, Structural, Debug)]
pub enum Item {
    Elem(FamilyKind),
    Txt,
    Frm,
}

/// The nodes of an element's subtree in document order (depth first, the
/// element before its children).
pub open spec fn elem_items<E, X, F>(e: Element<E, X, F>) -> Seq<Item>
    decreases e,
{
    seq![Item::Elem(e.ext.family())] + children_items(e.children@, 0)
}

/// The nodes of the children from position `i` on, in document order.
pub open spec fn children_items<E, X, F>(cs: Seq<Node<E, X, F>>, i: int) -> Seq<Item>
    decreases cs, cs.len() - i,
{
    if i < 0 || i >= cs.len() {
        seq![]
    } else {
        (match cs[i] {
            Node::Element(b) => elem_items(*b),
            Node::Text(_) => seq![Item::Txt],
            Node::Frame(_) => seq![Item::Frm],
        }) + children_items(cs, i + 1)
    }
}

// =============================================================================
// Stats
// =============================================================================

/// Document statistics collected from traversal.
#[derive(Clone, Debug, Default, PartialEq, Eq)]
pub struct Stats {
    pub svg_count: usize,
    pub link_count: usize,
    pub heading_count: usize,
    pub media_count: usize,
    pub frame_count: usize,
    pub text_count: usize,
    pub element_count: usize,
}

/// Statistics `s` with the nodes `items` counted in.
pub open spec fn stats_add(s: Stats, items: Seq<Item>) -> Stats
    decreases items.len(),
{
    if items.len() == 0 {
        s
    } else {
        let t = stats_add(s, items.drop_last());
        match items.last() {
            Item::Elem(k) => Stats {
                element_count: (t.element_count + 1) as usize,
                svg_count: if k == FamilyKind::Svg { (t.svg_count + 1) as usize } else { t.svg_count },
                link_count: if k == FamilyKind::Link { (t.link_count + 1) as usize } else { t.link_count },
                heading_count: if k == FamilyKind::Heading {
                    (t.heading_count + 1) as usize
                } else {
                    t.heading_count
                },
                media_count: if k == FamilyKind::Media { (t.media_count + 1) as usize } else { t.media_count },
                ..t
            },
            Item::Txt => Stats { text_count: (t.text_count + 1) as usize, ..t },
            Item::Frm => Stats { frame_count: (t.frame_count + 1) as usize, ..t },
        }
    }
}

/// Every count of `s` leaves room for `n` more.
pub open spec fn room_for(s: Stats, n: nat) -> bool {
    &&& s.svg_count + n <= usize::MAX
    &&& s.link_count + n <= usize::MAX
    &&& s.heading_count + n <= usize::MAX
    &&& s.media_count + n <= usize::MAX
    &&& s.frame_count + n <= usize::MAX
    &&& s.text_count + n <= usize::MAX
    &&& s.element_count + n <= usize::MAX
}

/// Statistics with every count zero.
pub open spec fn zero_stats() -> Stats {
    Stats {
        svg_count: 0,
        link_count: 0,
        heading_count: 0,
        media_count: 0,
        frame_count: 0,
        text_count: 0,
        element_count: 0,
    }
}

proof fn lemma_stats_add_concat(s: Stats, a: Seq<Item>, b: Seq<Item>)
    ensures
        stats_add(s, a + b) == stats_add(stats_add(s, a), b),
    decreases b.len(),
{
    if b.len() == 0 {
        assert(a + b =~= a);
    } else {
        lemma_stats_add_concat(s, a, b.drop_last());
        assert((a + b).drop_last() =~= a + b.drop_last());
        assert((a + b).last() == b.last());
    }
}

proof fn lemma_stats_add_room(s: Stats, items: Seq<Item>, n: nat)
    requires
        room_for(s, n + items.len()),
    ensures
        room_for(stats_add(s, items), n),
    decreases items.len(),
{
    if items.len() > 0 {
        lemma_stats_add_room(s, items.drop_last(), n + 1);
    }
}

fn count_item(stats: &mut Stats, it: Item)
    requires
        room_for(*old(stats), 1),
    ensures
        *final(stats) == stats_add(*old(stats), seq![it]),
{
    assert(seq![it].drop_last() =~= Seq::<Item>::empty());
    assert(stats_add(*old(stats), Seq::<Item>::empty()) == *old(stats));
    match it {
        Item::Elem(k) => {
            stats.element_count = stats.element_count + 1;
            match k {
                FamilyKind::Svg => stats.svg_count = stats.svg_count + 1,
                FamilyKind::Link => stats.link_count = stats.link_count + 1,
                FamilyKind::Heading => stats.heading_count = stats.heading_count + 1,
                FamilyKind::Media => stats.media_count = stats.media_count + 1,
                FamilyKind::Other => {},
            }
        },
        Item::Txt => stats.text_count = stats.text_count + 1,
        Item::Frm => stats.frame_count = stats.frame_count + 1,
    }
}

fn collect_stats_recursive<E, X, F>(elem: &Element<E, X, F>, stats: &mut Stats)
    requires
        room_for(*old(stats), elem_items(*elem).len()),
    ensures
        *final(stats) == stats_add(*old(stats), elem_items(*elem)),
    decreases elem,
{
    let k = elem.ext.kind();
    let ghost cs = elem.children@;
    assert(elem_items(*elem) == seq![Item::Elem(k)] + children_items(cs, 0));
    count_item(stats, Item::Elem(k));
    proof {
        lemma_stats_add_room(*old(stats), seq![Item::Elem(k)], children_items(cs, 0).len());
    }
    let ghost start = *stats;
    let mut i: usize = 0;
    assert(children_items(cs, 0) =~= elem_items(*elem).drop_first());
    while i < elem.children.len()
        invariant
            i <= cs.len(),
            cs == elem.children@,
            *stats == stats_add(start, children_items(cs, 0).subrange(
                0,
                children_items(cs, 0).len() - children_items(cs, i as int).len(),
            )),
            children_items(cs, 0) == children_items(cs, 0).subrange(
                0,
                children_items(cs, 0).len() - children_items(cs, i as int).len(),
            ) + children_items(cs, i as int),
            room_for(start, children_items(cs, 0).len()),
            start == stats_add(*old(stats), seq![Item::Elem(k)]),
            elem_items(*elem) == seq![Item::Elem(k)] + children_items(cs, 0),
        decreases cs.len() - i,
    {
        let ghost all = children_items(cs, 0);
        let ghost rest = children_items(cs, i as int);
        let ghost done = all.subrange(0, all.len() - rest.len());
        let ghost here = match cs[i as int] {
            Node::Element(b) => elem_items(*b),
            Node::Text(_) => seq![Item::Txt],
            Node::Frame(_) => seq![Item::Frm],
        };
        let ghost next = children_items(cs, i + 1);
        assert(rest == here + next);
        assert(all == done + here + next);
        proof {
            lemma_stats_add_concat(start, done, here);
            lemma_stats_add_room(start, done, here.len() + next.len());
        }
        match &elem.children[i] {
            Node::Element(b) => collect_stats_recursive(b, stats),
            Node::Text(_) => count_item(stats, Item::Txt),
            Node::Frame(_) => count_item(stats, Item::Frm),
        }
        assert(all.subrange(0, all.len() - next.len()) =~= done + here);
        i = i + 1;
    }
    proof {
        let all = children_items(cs, 0);
        assert(children_items(cs, i as int) =~= Seq::<Item>::empty());
        assert(all.subrange(0, all.len() as int) =~= all);
        lemma_stats_add_concat(*old(stats), seq![Item::Elem(k)], all);
    }
}

impl<E, X, F, D> Document<E, X, F, D> {
    /// Statistics of the document: the number of elements, of each family,
    /// of text nodes and of frames.
    pub fn collect_stats(&self) -> (r: Stats)
        requires
            elem_items(self.root).len() <= usize::MAX,
        ensures
            r == stats_add(zero_stats(), elem_items(self.root)),
    {
        let mut stats = Stats {
            svg_count: 0,
            link_count: 0,
            heading_count: 0,
            media_count: 0,
            frame_count: 0,
            text_count: 0,
            element_count: 0,
        };
        collect_stats_recursive(&self.root, &mut stats);
        stats
    }
}

/// The nodes that one node contributes to its parent's document order.
pub open spec fn node_items<E, X, F>(n: Node<E, X, F>) -> Seq<Item> {
    match n {
        Node::Element(b) => elem_items(*b),
        Node::Text(_) => seq![Item::Txt],
        Node::Frame(_) => seq![Item::Frm],
    }
}

/// Whether the element's subtree holds a frame.
fn check_frames<E, X, F>(elem: &Element<E, X, F>) -> (r: bool)
    ensures
        r == elem_items(*elem).contains(Item::Frm),
    decreases elem,
{
    broadcast use vstd::seq_lib::group_seq_properties;
    let ghost cs = elem.children@;
    let ghost k = elem.ext.family();
    assert(elem_items(*elem) == seq![Item::Elem(k)] + children_items(cs, 0));
    assert(!seq![Item::Elem(k)].contains(Item::Frm)) by {
        if seq![Item::Elem(k)].contains(Item::Frm) {
            assert(seq![Item::Elem(k)][0] == Item::Elem(k));
        }
    }
    let mut i: usize = 0;
    while i < elem.children.len()
        invariant
            i <= cs.len(),
            cs == elem.children@,
            elem_items(*elem).contains(Item::Frm) == children_items(cs, i as int).contains(Item::Frm),
        decreases cs.len() - i,
    {
        let ghost here = node_items(cs[i as int]);
        let ghost next = children_items(cs, i + 1);
        assert(children_items(cs, i as int) == here + next);
        proof {
            vstd::seq_lib::lemma_seq_concat_contains_all_elements(here, next, Item::Frm);
        }
        match &elem.children[i] {
            Node::Frame(_) => {
                assert(here == seq![Item::Frm]);
                assert(here[0] == Item::Frm);
                assert(here.contains(Item::Frm));
                return true;
            },
            Node::Element(b) => {
                assert(here == elem_items(**b));
                if check_frames(b) {
                    return true;
                }
            },
            Node::Text(_) => {
                assert(here == seq![Item::Txt]);
                assert(!here.contains(Item::Frm)) by {
                    if here.contains(Item::Frm) {
                        let j = choose|j: int| 0 <= j < here.len() && here[j] == Item::Frm;
                        assert(here[j] == Item::Txt);
                    }
                }
            },
        }
        i = i + 1;
    }
    assert(children_items(cs, i as int) =~= Seq::<Item>::empty());
    false
}

impl<E, X, F, D> Document<E, X, F, D> {
    /// Whether the document holds a frame, at any depth.
    pub fn has_frames(&self) -> (r: bool)
        ensures
            r == elem_items(self.root).contains(Item::Frm),
    {
        check_frames(&self.root)
    }

    /// The number of elements of the document, the root included.
    pub fn element_count(&self) -> (r: usize)
        requires
            elem_items(self.root).len() <= usize::MAX,
        ensures
            r == stats_add(zero_stats(), elem_items(self.root)).element_count,
    {
        let stats = self.collect_stats();
        stats.element_count
    }
}

/// The elements of an element's subtree in document order (depth first, the
/// element before its descendants).
pub open spec fn elem_elements<E, X, F>(e: Element<E, X, F>) -> Seq<Element<E, X, F>>
    decreases e,
{
    seq![e] + descendants_from(e.children@, 0)
}

/// The elements of the subtrees of the children from position `i` on, in
/// document order.
pub open spec fn descendants_from<E, X, F>(cs: Seq<Node<E, X, F>>, i: int) -> Seq<Element<E, X, F>>
    decreases cs, cs.len() - i,
{
    if i < 0 || i >= cs.len() {
        seq![]
    } else {
        (match cs[i] {
            Node::Element(b) => elem_elements(*b),
            _ => seq![],
        }) + descendants_from(cs, i + 1)
    }
}

/// The elements that one node contributes, in document order.
pub open spec fn node_elements<E, X, F>(n: Node<E, X, F>) -> Seq<Element<E, X, F>> {
    match n {
        Node::Element(b) => elem_elements(*b),
        _ => seq![],
    }
}

/// `bs` are answers that `pred` may give, in turn, for the first elements
/// of `es`.
pub open spec fn answers<E, X, F, P: Fn(&Element<E, X, F>) -> bool>(
    pred: P,
    es: Seq<Element<E, X, F>>,
    bs: Seq<bool>,
) -> bool {
    &&& bs.len() <= es.len()
    &&& forall|k: int| 0 <= k < bs.len() ==> call_ensures(pred, (&es[k],), #[trigger] bs[k])
}

/// The answers end with the first `true`: every answer but the last is
/// `false`, and the search stopped at a `true` or went through all of `es`.
pub open spec fn first_hit(es_len: nat, bs: Seq<bool>) -> bool {
    &&& forall|k: int| 0 <= k < bs.len() - 1 ==> !#[trigger] bs[k]
    &&& (bs.len() > 0 && bs.last()) || (bs.len() == es_len && (bs.len() == 0 || !bs.last()))
}

/// Searches the subtree of `elem` in document order for the first element
/// that `pred` accepts.
fn find_in_element<'a, E, X, F, P: Fn(&Element<E, X, F>) -> bool>(elem: &'a Element<E, X, F>, pred: &P) -> (r: (
    Option<&'a Element<E, X, F>>,
    Ghost<Seq<bool>>,
))
    requires
        forall|e: &Element<E, X, F>| pred.requires((e,)),
    ensures
        answers(*pred, elem_elements(*elem), r.1@),
        first_hit(elem_elements(*elem).len(), r.1@),
        r.0 matches Some(e) ==> r.1@.len() > 0 && r.1@.last() && *e == elem_elements(*elem)[r.1@.len() - 1],
        r.0 is None ==> !(r.1@.len() > 0 && r.1@.last()),
    decreases elem,
{
    let ghost all_s = elem_elements(*elem);
    let all: Ghost<Seq<Element<E, X, F>>> = Ghost(all_s);
    let ghost cs = elem.children@;
    assert(all@ == seq![*elem] + descendants_from(cs, 0));
    assert(all@[0] == *elem);
    let hit = pred(elem);
    if hit {
        let ghost one: Seq<bool> = seq![true];
        return (Some(elem), Ghost(one));
    }
    let ghost mut bs: Seq<bool> = seq![false];
    assert(all@.subrange(0, 1) =~= seq![*elem]);
    let mut i: usize = 0;
    while i < elem.children.len()
        invariant
            i <= cs.len(),
            cs == elem.children@,
            forall|e: &Element<E, X, F>| pred.requires((e,)),
            all@ == seq![*elem] + descendants_from(cs, 0),
            all@ == all@.subrange(0, bs.len() as int) + descendants_from(cs, i as int),
            answers(*pred, all@, bs),
            bs.len() >= 1,
            forall|k: int| 0 <= k < bs.len() ==> !#[trigger] bs[k],
        decreases cs.len() - i,
    {
        let ghost here = node_elements(cs[i as int]);
        let ghost next = descendants_from(cs, i + 1);
        assert(descendants_from(cs, i as int) == here + next);
        match &elem.children[i] {
            Node::Element(b) => {
                let (found, sub) = find_in_element(b, pred);
                proof {
                    assert(here == elem_elements(**b));
                    let start = bs.len() as int;
                    assert(all@ == all@.subrange(0, start) + (here + next));
                    assert forall|k: int| 0 <= k < sub@.len() implies all@[start + k] == here[k] by {
                        assert(all@[start + k] == (here + next)[k]);
                    }
                    let nb = bs + sub@;
                    assert forall|k: int| 0 <= k < nb.len() implies call_ensures(*pred, (&all@[k],), #[trigger] nb[k]) by {
                        if k >= start {
                            assert(nb[k] == sub@[k - start]);
                            assert(call_ensures(*pred, (&here[k - start],), sub@[k - start]));
                        } else {
                            assert(nb[k] == bs[k]);
                        }
                    }
                    bs = nb;
                }
                match found {
                    Some(e) => {
                        proof {
                            assert(bs.last() == sub@.last());
                            assert forall|k: int| 0 <= k < bs.len() - 1 implies !#[trigger] bs[k] by {
                                if k >= bs.len() - sub@.len() {
                                    assert(bs[k] == sub@[k - (bs.len() - sub@.len())]);
                                }
                            }
                            assert(all@[bs.len() - 1] == here[sub@.len() - 1]);
                        }
                        return (Some(e), Ghost(bs));
                    },
                    None => {
                        proof {
                            assert(sub@.len() == here.len());
                            assert forall|k: int| 0 <= k < bs.len() implies !#[trigger] bs[k] by {
                                if k >= bs.len() - sub@.len() {
                                    assert(bs[k] == sub@[k - (bs.len() - sub@.len())]);
                                }
                            }
                            assert(all@.subrange(0, bs.len() as int) =~= all@.subrange(0, bs.len() - sub@.len()) + here);
                            assert(all@ =~= all@.subrange(0, bs.len() as int) + next);
                        }
                    },
                }
            },
            _ => {
                assert(here =~= Seq::<Element<E, X, F>>::empty());
                assert(all@ =~= all@.subrange(0, bs.len() as int) + next);
            },
        }
        i = i + 1;
    }
    proof {
        assert(descendants_from(cs, i as int) =~= Seq::<Element<E, X, F>>::empty());
        assert(all@.subrange(0, bs.len() as int) =~= all@);
    }
    (None, Ghost(bs))
}

/// The elements of `es` whose answer in `bs` is `true`, in order.
pub open spec fn picked<T>(es: Seq<T>, bs: Seq<bool>) -> Seq<T>
    decreases bs.len(),
{
    if bs.len() == 0 || es.len() == 0 {
        seq![]
    } else if bs.last() {
        picked(es.drop_last(), bs.drop_last()).push(es.last())
    } else {
        picked(es.drop_last(), bs.drop_last())
    }
}

proof fn lemma_picked_concat<T>(a: Seq<T>, ba: Seq<bool>, b: Seq<T>, bb: Seq<bool>)
    requires
        a.len() == ba.len(),
        b.len() == bb.len(),
    ensures
        picked(a + b, ba + bb) == picked(a, ba) + picked(b, bb),
    decreases b.len(),
{
    if b.len() == 0 {
        assert(a + b =~= a);
        assert(ba + bb =~= ba);
        assert(picked(b, bb) =~= Seq::<T>::empty());
        assert(picked(a, ba) + picked(b, bb) =~= picked(a, ba));
    } else {
        lemma_picked_concat(a, ba, b.drop_last(), bb.drop_last());
        assert((a + b).drop_last() =~= a + b.drop_last());
        assert((ba + bb).drop_last() =~= ba + bb.drop_last());
        assert((a + b).last() == b.last());
        assert((ba + bb).last() == bb.last());
        if bb.last() {
            assert(picked(a, ba) + picked(b.drop_last(), bb.drop_last()).push(b.last()) =~= (picked(a, ba)
                + picked(b.drop_last(), bb.drop_last())).push(b.last()));
        }
    }
}

proof fn lemma_picked_all<T>(es: Seq<T>, bs: Seq<bool>)
    requires
        es.len() == bs.len(),
        forall|k: int| 0 <= k < bs.len() ==> #[trigger] bs[k],
    ensures
        picked(es, bs) == es,
    decreases bs.len(),
{
    if bs.len() > 0 {
        lemma_picked_all(es.drop_last(), bs.drop_last());
        assert(bs.last() == bs[bs.len() - 1]);
        assert(es.drop_last().push(es.last()) =~= es);
    } else {
        assert(es =~= Seq::<T>::empty());
    }
}

/// The elements among the first `n` children.
pub open spec fn child_elements_prefix<E, X, F>(cs: Seq<Node<E, X, F>>, n: int) -> Seq<Element<E, X, F>>
    decreases n,
{
    if n <= 0 {
        seq![]
    } else {
        match cs[n - 1] {
            Node::Element(b) => child_elements_prefix(cs, n - 1).push(*b),
            _ => child_elements_prefix(cs, n - 1),
        }
    }
}

/// The references in `r` point at the elements of `s`, in order.
pub open spec fn refs_to<T>(r: Seq<&T>, s: Seq<T>) -> bool {
    &&& r.len() == s.len()
    &&& forall|k: int| 0 <= k < r.len() ==> *#[trigger] r[k] == s[k]
}

/// Appends the elements of the subtree of `elem` that `pred` accepts to
/// `results`, in document order.
fn collect_elements<'a, E, X, F, P: Fn(&Element<E, X, F>) -> bool>(
    elem: &'a Element<E, X, F>,
    pred: &P,
    results: &mut Vec<&'a Element<E, X, F>>,
) -> (bs: Ghost<Seq<bool>>)
    requires
        forall|e: &Element<E, X, F>| pred.requires((e,)),
    ensures
        bs@.len() == elem_elements(*elem).len(),
        answers(*pred, elem_elements(*elem), bs@),
        final(results)@.len() == old(results)@.len() + picked(elem_elements(*elem), bs@).len(),
        forall|k: int| 0 <= k < old(results)@.len() ==> #[trigger] final(results)@[k] == old(results)@[k],
        refs_to(
            final(results)@.subrange(old(results)@.len() as int, final(results)@.len() as int),
            picked(elem_elements(*elem), bs@),
        ),
    decreases elem,
{
    let ghost all = elem_elements(*elem);
    let ghost cs = elem.children@;
    let ghost start_len = results@.len();
    let ghost start = results@;
    assert(all == seq![*elem] + descendants_from(cs, 0));
    assert(all[0] == *elem);
    let hit = pred(elem);
    if hit {
        results.push(elem);
    }
    let ghost mut bs: Seq<bool> = seq![hit];
    proof {
        assert(all.subrange(0, 1) =~= seq![*elem]);
        assert(bs.drop_last() =~= Seq::<bool>::empty());
        assert(all.subrange(0, 1).drop_last() =~= Seq::<Element<E, X, F>>::empty());
        let e1 = all.subrange(0, 1);
        assert(e1.last() == *elem);
        assert(picked(e1.drop_last(), bs.drop_last()) =~= Seq::<Element<E, X, F>>::empty());
        if hit {
            assert(picked(e1, bs) =~= seq![*elem]);
        } else {
            assert(picked(e1, bs) =~= Seq::<Element<E, X, F>>::empty());
        }
        assert(refs_to(results@.subrange(start_len as int, results@.len() as int), picked(all.subrange(0, 1), bs)));
    }
    let mut i: usize = 0;
    while i < elem.children.len()
        invariant
            i <= cs.len(),
            cs == elem.children@,
            forall|e: &Element<E, X, F>| pred.requires((e,)),
            all == seq![*elem] + descendants_from(cs, 0),
            all == all.subrange(0, bs.len() as int) + descendants_from(cs, i as int),
            answers(*pred, all, bs),
            1 <= bs.len() <= all.len(),
            results@.len() == start_len + picked(all.subrange(0, bs.len() as int), bs).len(),
            start.len() == start_len,
            forall|k: int| 0 <= k < start_len ==> #[trigger] results@[k] == start[k],
            refs_to(results@.subrange(start_len as int, results@.len() as int), picked(all.subrange(0, bs.len() as int), bs)),
        decreases cs.len() - i,
    {
        let ghost here = node_elements(cs[i as int]);
        let ghost next = descendants_from(cs, i + 1);
        let ghost before = results@;
        let ghost done = all.subrange(0, bs.len() as int);
        assert(descendants_from(cs, i as int) == here + next);
        assert(all == done + (here + next));
        match &elem.children[i] {
            Node::Element(b) => {
                let sub = collect_elements(b, pred, results);
                proof {
                    assert(here == elem_elements(**b));
                    let blen = bs.len() as int;
                    let nb = bs + sub@;
                    assert forall|k: int| 0 <= k < nb.len() implies call_ensures(*pred, (&all[k],), #[trigger] nb[k]) by {
                        if k >= blen {
                            assert(nb[k] == sub@[k - blen]);
                            assert(all[k] == (here + next)[k - blen]);
                            assert(call_ensures(*pred, (&here[k - blen],), sub@[k - blen]));
                        } else {
                            assert(nb[k] == bs[k]);
                        }
                    }
                    assert(all.subrange(0, nb.len() as int) =~= done + here);
                    lemma_picked_concat(done, bs, here, sub@);
                    let pd = picked(done, bs);
                    let ph = picked(here, sub@);
                    let mid = before.len() as int;
                    assert forall|k: int| 0 <= k < start_len implies #[trigger] results@[k] == start[k] by {
                        assert(results@[k] == before[k]);
                    }
                    let seg = results@.subrange(start_len as int, results@.len() as int);
                    assert forall|k: int| 0 <= k < seg.len() implies *#[trigger] seg[k] == (pd + ph)[k] by {
                        if k < pd.len() {
                            assert(seg[k] == before[start_len + k]);
                            assert(before.subrange(start_len as int, mid)[k] == before[start_len + k]);
                        } else {
                            let tail = results@.subrange(mid, results@.len() as int);
                            assert(seg[k] == tail[k - pd.len()]);
                        }
                    }
                    assert(all == all.subrange(0, nb.len() as int) + next);
                    bs = nb;
                }
            },
            _ => {
                assert(here =~= Seq::<Element<E, X, F>>::empty());
                assert(all == all.subrange(0, bs.len() as int) + next);
            },
        }
        i = i + 1;
    }
    proof {
        assert(descendants_from(cs, i as int) =~= Seq::<Element<E, X, F>>::empty());
        assert(all.subrange(0, bs.len() as int) =~= all);
    }
    Ghost(bs)
}

impl<E, X, F, D> Document<E, X, F, D> {
    /// The first element, in document order, that the predicate accepts.
    pub fn find_element<P: Fn(&Element<E, X, F>) -> bool>(&self, predicate: P) -> (r: Option<&Element<E, X, F>>)
        requires
            forall|e: &Element<E, X, F>| predicate.requires((e,)),
        ensures
            exists|bs: Seq<bool>|
                {
                    &&& answers(predicate, elem_elements(self.root), bs)
                    &&& first_hit(elem_elements(self.root).len(), bs)
                    &&& (r matches Some(e) ==> bs.len() > 0 && bs.last() && *e == elem_elements(self.root)[bs.len() - 1])
                    &&& (r is None ==> !(bs.len() > 0 && bs.last()))
                },
    {
        let (r, bs) = find_in_element(&self.root, &predicate);
        r
    }

    /// The elements, in document order, that the predicate accepts.
    pub fn find_all<P: Fn(&Element<E, X, F>) -> bool>(&self, predicate: P) -> (r: Vec<&Element<E, X, F>>)
        requires
            forall|e: &Element<E, X, F>| predicate.requires((e,)),
        ensures
            exists|bs: Seq<bool>|
                {
                    &&& bs.len() == elem_elements(self.root).len()
                    &&& answers(predicate, elem_elements(self.root), bs)
                    &&& refs_to(r@, picked(elem_elements(self.root), bs))
                },
    {
        let mut results: Vec<&Element<E, X, F>> = Vec::new();
        let bs = collect_elements(&self.root, &predicate, &mut results);
        assert(results@.subrange(0, results@.len() as int) =~= results@);
        results
    }

    /// Every element of the document, in document order (an element before
    /// its descendants).
    pub fn iter_elements(&self) -> (r: Vec<&Element<E, X, F>>)
        ensures
            refs_to(r@, elem_elements(self.root)),
    {
        let every = |e: &Element<E, X, F>| -> (b: bool)
            ensures
                b,
            { true };
        let r = self.find_all(every);
        proof {
            let es = elem_elements(self.root);
            let bs = choose|bs: Seq<bool>|
                {
                    &&& bs.len() == es.len()
                    &&& answers(every, es, bs)
                    &&& refs_to(r@, picked(es, bs))
                };
            assert forall|k: int| 0 <= k < bs.len() implies #[trigger] bs[k] by {
                assert(call_ensures(every, (&es[k],), bs[k]));
            }
            lemma_picked_all(es, bs);
        }
        r
    }

    /// Whether the predicate accepts some element of the document.
    pub fn has_element<P: Fn(&Element<E, X, F>) -> bool>(&self, predicate: P) -> (r: bool)
        requires
            forall|e: &Element<E, X, F>| predicate.requires((e,)),
        ensures
            exists|bs: Seq<bool>|
                {
                    &&& answers(predicate, elem_elements(self.root), bs)
                    &&& first_hit(elem_elements(self.root).len(), bs)
                    &&& r == (bs.len() > 0 && bs.last())
                },
    {
        let (r, bs) = find_in_element(&self.root, &predicate);
        r.is_some()
    }
}

impl Stats {
    /// Whether the document has an svg element.
    pub fn has_svg(&self) -> (b: bool)
        ensures
            b == (self.svg_count > 0),
    {
        self.svg_count > 0
    }

    /// Whether the document has a link.
    pub fn has_links(&self) -> (b: bool)
        ensures
            b == (self.link_count > 0),
    {
        self.link_count > 0
    }

    /// Whether the document has a heading.
    pub fn has_headings(&self) -> (b: bool)
        ensures
            b == (self.heading_count > 0),
    {
        self.heading_count > 0
    }

    /// Whether the document has a frame.
    pub fn has_frames(&self) -> (b: bool)
        ensures
            b == (self.frame_count > 0),
    {
        self.frame_count > 0
    }

    /// Number of elements of a particular family (svg, link, heading, media).
    pub fn family_element_count(&self) -> (r: usize)
        requires
            self.svg_count + self.link_count + self.heading_count + self.media_count
                <= usize::MAX,
        ensures
            r == self.svg_count + self.link_count + self.heading_count + self.media_count,
    {
        self.svg_count + self.link_count + self.heading_count + self.media_count
    }
}

} // verus!
