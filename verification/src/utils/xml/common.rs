//! XML events: reading them with quick-xml, and writing them back as text.
//!
//! Parsing is quick-xml's: a reader yields events, and a tag's attribute
//! text is split into attributes by quick-xml. Writing an event is the
//! library's own: with quick-xml's default writer settings an event is
//! written as its content between fixed delimiters, which `event_text`
//! states and `XmlWriter` does.

use vstd::prelude::*;
use vstd::utf8::encode_utf8;

use crate::utils::text::{push_all, string_bytes, to_chars};
use quick_xml::events::{BytesStart, Event};
use quick_xml::{Reader, Writer};

verus! {

/// A start or empty tag: its name, and the text after the name up to `>`
/// or `/>` (the attributes as written, with the whitespace before them).
#[derive(Clone, Debug)]
pub struct XmlTag {
    pub name: String,
    pub attrs: String,
}

/// An XML event. Tags and references are taken apart; any other event
/// (text, CDATA, comment, declaration, processing instruction, doctype) is
/// kept as the text that quick-xml's writer writes for it.
#[derive(Clone, Debug)]
pub enum XmlEvent {
    Start(XmlTag),
    End(String),
    Empty(XmlTag),
    /// An entity or character reference `&name;`, by its name.
    GeneralRef(String),
    Other(String),
    Eof,
}

/// The text between `<` and `>` of a tag.
pub open spec fn tag_text(t: XmlTag) -> Seq<char> {
    t.name@ + t.attrs@
}

/// The text of an event as quick-xml's writer (default settings) writes it.
pub open spec fn event_text(ev: XmlEvent) -> Seq<char> {
    match ev {
        XmlEvent::Start(t) => seq!['<'] + tag_text(t) + seq!['>'],
        XmlEvent::End(n) => seq!['<', '/'] + n@ + seq!['>'],
        XmlEvent::Empty(t) => seq!['<'] + tag_text(t) + seq!['/', '>'],
        XmlEvent::GeneralRef(s) => seq!['&'] + s@ + seq![';'],
        XmlEvent::Other(s) => s@,
        XmlEvent::Eof => seq![],
    }
}

/// The replacement of one character when escaping: `<`, `>`, `&`, `'`, `"`
/// and carriage return always, and in attribute values also line feed and
/// tab.
pub open spec fn escaped_char(c: char, in_attribute: bool) -> Seq<char> {
    if c == '<' {
        seq!['&', 'l', 't', ';']
    } else if c == '>' {
        seq!['&', 'g', 't', ';']
    } else if c == '&' {
        seq!['&', 'a', 'm', 'p', ';']
    } else if c == '\'' {
        seq!['&', 'a', 'p', 'o', 's', ';']
    } else if c == '"' {
        seq!['&', 'q', 'u', 'o', 't', ';']
    } else if c == '\r' {
        seq!['&', '#', '1', '3', ';']
    } else if in_attribute && c == '\n' {
        seq!['&', '#', '1', '0', ';']
    } else if in_attribute && c == '\t' {
        seq!['&', '#', '9', ';']
    } else {
        seq![c]
    }
}

/// A text with each character escaped.
pub open spec fn escaped(s: Seq<char>, in_attribute: bool) -> Seq<char>
    decreases s.len(),
{
    if s.len() == 0 {
        seq![]
    } else {
        escaped(s.drop_last(), in_attribute) + escaped_char(s.last(), in_attribute)
    }
}

/// An escaped attribute value cannot end the attribute or start markup: it
/// holds no `"`, `'`, `<` or `>`.
pub proof fn law_escaped_attribute_is_inert(s: Seq<char>)
    ensures
        forall|i: int|
            0 <= i < escaped(s, true).len() ==> {
                let c = #[trigger] escaped(s, true)[i];
                c != '"' && c != '\'' && c != '<' && c != '>'
            },
    decreases s.len(),
{
    if s.len() > 0 {
        law_escaped_attribute_is_inert(s.drop_last());
        let head = escaped(s.drop_last(), true);
        let tail = escaped_char(s.last(), true);
        assert forall|i: int| 0 <= i < escaped(s, true).len() implies {
            let c = #[trigger] escaped(s, true)[i];
            c != '"' && c != '\'' && c != '<' && c != '>'
        } by {
            if i >= head.len() {
                assert(escaped(s, true)[i] == tail[i - head.len()]);
            } else {
                assert(escaped(s, true)[i] == head[i]);
            }
        }
    }
}

/// ` key="value"`: an attribute as a tag's text holds it.
pub open spec fn attribute_text(key: Seq<char>, value: Seq<char>) -> Seq<char> {
    seq![' '] + key + seq!['=', '"'] + value + seq!['"']
}

/// Writes XML events into a text buffer.
pub struct XmlWriter {
    text: String,
}

impl View for XmlWriter {
    type V = Seq<char>;

    closed spec fn view(&self) -> Seq<char> {
        self.text@
    }
}

fn append_chars(s: &mut String, v: &[char])
    ensures
        final(s)@ == old(s)@ + v@,
{
    let mut chars = to_chars(s.as_str());
    push_all(&mut chars, v);
    *s = crate::utils::text::from_chars(&chars);
}

impl XmlWriter {
    /// An empty writer.
    pub fn new() -> (w: XmlWriter)
        ensures
            w@ == Seq::<char>::empty(),
    {
        XmlWriter { text: String::new() }
    }

    /// Appends text as it is.
    pub fn write_str(&mut self, s: &str)
        ensures
            final(self)@ == old(self)@ + s@,
    {
        self.text.append(s);
    }

    fn write_chars(&mut self, v: &[char])
        ensures
            final(self)@ == old(self)@ + v@,
    {
        append_chars(&mut self.text, v);
    }

    /// Writes an event.
    pub fn write_event(&mut self, ev: &XmlEvent)
        ensures
            final(self)@ == old(self)@ + event_text(*ev),
    {
        let ghost start = self@;
        match ev {
            XmlEvent::Start(t) => {
                self.write_chars(&['<']);
                self.write_str(t.name.as_str());
                self.write_str(t.attrs.as_str());
                self.write_chars(&['>']);
            },
            XmlEvent::End(n) => {
                self.write_chars(&['<', '/']);
                self.write_str(n.as_str());
                self.write_chars(&['>']);
            },
            XmlEvent::Empty(t) => {
                self.write_chars(&['<']);
                self.write_str(t.name.as_str());
                self.write_str(t.attrs.as_str());
                self.write_chars(&['/', '>']);
            },
            XmlEvent::GeneralRef(s) => {
                self.write_chars(&['&']);
                self.write_str(s.as_str());
                self.write_chars(&[';']);
            },
            XmlEvent::Other(s) => {
                self.write_str(s.as_str());
            },
            XmlEvent::Eof => {},
        }
        assert(self@ =~= start + event_text(*ev));
    }

    /// The written text.
    pub fn into_text(self) -> (r: String)
        ensures
            r@ == self@,
    {
        self.text
    }

    /// The written text as UTF-8 bytes.
    pub fn into_inner(self) -> (r: Vec<u8>)
        ensures
            r@ == encode_utf8(self@),
    {
        string_bytes(self.text.as_str())
    }
}

/// Escapes an attribute value.
pub fn escape_attribute(s: &str) -> (r: String)
    ensures
        r@ == escaped(s@, true),
{
    let v = to_chars(s);
    let mut out: Vec<char> = Vec::new();
    let mut i: usize = 0;
    while i < v.len()
        invariant
            i <= v@.len(),
            v@ == s@,
            out@ == escaped(v@.subrange(0, i as int), true),
        decreases v.len() - i,
    {
        let c = v[i];
        let ghost before = out@;
        if c == '<' {
            push_all(&mut out, &['&', 'l', 't', ';']);
        } else if c == '>' {
            push_all(&mut out, &['&', 'g', 't', ';']);
        } else if c == '&' {
            push_all(&mut out, &['&', 'a', 'm', 'p', ';']);
        } else if c == '\'' {
            push_all(&mut out, &['&', 'a', 'p', 'o', 's', ';']);
        } else if c == '"' {
            push_all(&mut out, &['&', 'q', 'u', 'o', 't', ';']);
        } else if c == '\r' {
            push_all(&mut out, &['&', '#', '1', '3', ';']);
        } else if c == '\n' {
            push_all(&mut out, &['&', '#', '1', '0', ';']);
        } else if c == '\t' {
            push_all(&mut out, &['&', '#', '9', ';']);
        } else {
            out.push(c);
        }
        assert(v@.subrange(0, i + 1).drop_last() =~= v@.subrange(0, i as int));
        assert(out@ =~= before + escaped_char(c, true));
        i = i + 1;
    }
    assert(v@.subrange(0, v@.len() as int) =~= v@);
    crate::utils::text::from_chars(&out)
}

impl XmlTag {
    /// A tag with a name and no attributes.
    pub fn new(name: &str) -> (t: XmlTag)
        ensures
            t.name@ == name@,
            t.attrs@ == Seq::<char>::empty(),
    {
        XmlTag { name: name.to_owned(), attrs: String::new() }
    }

    /// Adds an attribute whose value is escaped.
    pub fn push_attribute(&mut self, key: &str, value: &str)
        ensures
            final(self).name == old(self).name,
            final(self).attrs@ == old(self).attrs@ + attribute_text(key@, escaped(value@, true)),
    {
        let escaped_value = escape_attribute(value);
        self.push_raw_attribute(key, escaped_value.as_str());
    }

    /// Adds an attribute whose value is already written as XML wants it.
    pub fn push_raw_attribute(&mut self, key: &str, raw: &str)
        ensures
            final(self).name == old(self).name,
            final(self).attrs@ == old(self).attrs@ + attribute_text(key@, raw@),
    {
        let ghost start = self.attrs@;
        append_chars(&mut self.attrs, &[' ']);
        self.attrs.append(key);
        append_chars(&mut self.attrs, &['=', '"']);
        self.attrs.append(raw);
        append_chars(&mut self.attrs, &['"']);
        assert(self.attrs@ =~= start + attribute_text(key@, raw@));
    }
}


/// Attributes as a tag's text holds them, each value escaped.
pub open spec fn escaped_attributes(attrs: Seq<(Seq<char>, Seq<char>)>) -> Seq<char>
    decreases attrs.len(),
{
    if attrs.len() == 0 {
        seq![]
    } else {
        escaped_attributes(attrs.drop_last()) + attribute_text(attrs.last().0, escaped(attrs.last().1, true))
    }
}

/// Attribute pairs as plain sequences.
pub open spec fn pair_views(attrs: Seq<(&str, &str)>) -> Seq<(Seq<char>, Seq<char>)> {
    attrs.map_values(|p: (&str, &str)| (p.0@, p.1@))
}

/// `<tag>text</tag>`, the text escaped.
pub open spec fn text_element_text(tag: Seq<char>, text: Seq<char>) -> Seq<char> {
    seq!['<'] + tag + seq!['>'] + escaped(text, false) + seq!['<', '/'] + tag + seq!['>']
}

/// `<tag k="v" .../>`, the values escaped.
pub open spec fn empty_elem_text(tag: Seq<char>, attrs: Seq<(Seq<char>, Seq<char>)>) -> Seq<char> {
    seq!['<'] + tag + escaped_attributes(attrs) + seq!['/', '>']
}

/// `<script src="..." [defer] [async]> </script>`.
pub open spec fn script_text(src: Seq<char>, defer: bool, async_attr: bool) -> Seq<char> {
    let name = seq!['s', 'c', 'r', 'i', 'p', 't'];
    seq!['<'] + name + script_attributes(src, defer, async_attr) + seq!['>', ' ', '<', '/'] + name + seq!['>']
}

/// Writes a text element: `<tag>text</tag>`.
pub fn write_text_element(writer: &mut XmlWriter, tag: &str, text: &str)
    ensures
        final(writer)@ == old(writer)@ + text_element_text(tag@, text@),
{
    let ghost start = writer@;
    writer.write_event(&XmlEvent::Start(XmlTag::new(tag)));
    writer.write_event(&XmlEvent::Other(escape_text(text)));
    writer.write_event(&XmlEvent::End(tag.to_owned()));
    assert(writer@ =~= start + text_element_text(tag@, text@));
}

/// Writes an empty element with attributes: `<tag attr1="val1" .../>`.
pub fn write_empty_elem(writer: &mut XmlWriter, tag: &str, attrs: &[(&str, &str)])
    ensures
        final(writer)@ == old(writer)@ + empty_elem_text(tag@, pair_views(attrs@)),
{
    let mut elem = XmlTag::new(tag);
    let mut i: usize = 0;
    while i < attrs.len()
        invariant
            i <= attrs@.len(),
            elem.name@ == tag@,
            elem.attrs@ == escaped_attributes(pair_views(attrs@.subrange(0, i as int))),
        decreases attrs.len() - i,
    {
        let (k, v) = attrs[i];
        elem.push_attribute(k, v);
        assert(pair_views(attrs@.subrange(0, i + 1)).drop_last() =~= pair_views(attrs@.subrange(0, i as int)));
        i = i + 1;
    }
    assert(attrs@.subrange(0, attrs@.len() as int) =~= attrs@);
    let ghost start = writer@;
    writer.write_event(&XmlEvent::Empty(elem));
    assert(writer@ =~= start + empty_elem_text(tag@, pair_views(attrs@)));
}

/// The attribute text of a script tag.
pub open spec fn script_attributes(src: Seq<char>, defer: bool, async_attr: bool) -> Seq<char> {
    attribute_text(seq!['s', 'r', 'c'], escaped(src, true)) + (if defer {
        attribute_text(seq!['d', 'e', 'f', 'e', 'r'], seq![])
    } else {
        seq![]
    }) + (if async_attr {
        attribute_text(seq!['a', 's', 'y', 'n', 'c'], seq![])
    } else {
        seq![]
    })
}

#[verifier::spinoff_prover]
fn script_tag(src: &str, defer: bool, async_attr: bool) -> (t: XmlTag)
    ensures
        t.name@ == seq!['s', 'c', 'r', 'i', 'p', 't'],
        t.attrs@ == script_attributes(src@, defer, async_attr),
{
    proof {
        reveal_strlit("script");
        reveal_strlit("src");
        reveal_strlit("defer");
        reveal_strlit("async");
        reveal_strlit("");
    }
    assert(escaped(Seq::<char>::empty(), true) =~= Seq::<char>::empty());
    let mut elem = XmlTag::new("script");
    elem.push_attribute("src", src);
    let ghost a0 = elem.attrs@;
    if defer {
        elem.push_attribute("defer", "");
    }
    let ghost a1 = elem.attrs@;
    if async_attr {
        elem.push_attribute("async", "");
    }
    assert(elem.attrs@ =~= script_attributes(src@, defer, async_attr));
    elem
}

/// Writes a script element with optional `defer` and `async`; a space is
/// its content, so that HTML parsers see a closed script element.
#[verifier::spinoff_prover]
pub fn write_script(writer: &mut XmlWriter, src: &str, defer: bool, async_attr: bool)
    ensures
        final(writer)@ == old(writer)@ + script_text(src@, defer, async_attr),
{
    let elem = script_tag(src, defer, async_attr);
    let ghost start = writer@;
    writer.write_event(&XmlEvent::Start(elem));
    let space = escape_text(" ");
    assert(space@ =~= seq![' ']) by {
        reveal_strlit(" ");
        assert(" "@ =~= seq![' ']);
        assert(seq![' '].drop_last() =~= Seq::<char>::empty());
        assert(escaped(Seq::<char>::empty(), false) =~= Seq::<char>::empty());
        assert(escaped(seq![' '], false) =~= seq![' ']);
    }
    writer.write_event(&XmlEvent::Other(space));
    proof {
        reveal_strlit("script");
    }
    writer.write_event(&XmlEvent::End("script".to_owned()));
    assert(writer@ =~= start + script_text(src@, defer, async_attr));
}

/// quick-xml's pull parser.
#[verifier::external_type_specification]
#[verifier::external_body]
#[verifier::reject_recursive_types(R)]
pub struct ExXmlReader<R>(Reader<R>);

/// The results that a quick-xml reader over `content` yields, one per
/// `read_event` call, up to and including the first end of input (`Eof`) or
/// parse error (`None`).
pub uninterp spec fn xml_events(content: Seq<u8>) -> Seq<Option<XmlEvent>>;

/// The results that a reader has still to yield, in the same form.
pub uninterp spec fn pending_events(r: Reader<&[u8]>) -> Seq<Option<XmlEvent>>;

/// What quick-xml's attribute iterator yields for a tag: each attribute's key
/// and value as written, or `None` for a malformed attribute.
pub uninterp spec fn parsed_attributes(name: Seq<char>, attrs: Seq<char>) -> Seq<Option<(Seq<char>, Seq<char>)>>;

/// A sequence of read results that ends at the first end of input or error.
pub open spec fn is_event_stream(s: Seq<Option<XmlEvent>>) -> bool {
    &&& s.len() > 0
    &&& forall|i: int| 0 <= i < s.len() - 1 ==> (#[trigger] s[i] matches Some(e) && !(e is Eof))
    &&& (s.last() is None || s.last() == Some(XmlEvent::Eof))
}

/// Parsed attributes as plain sequences.
pub open spec fn attribute_views(v: Seq<Option<(String, String)>>) -> Seq<Option<(Seq<char>, Seq<char>)>> {
    v.map_values(
        |a: Option<(String, String)>|
            match a {
                Some((k, v)) => Some((k@, v@)),
                None => None,
            },
    )
}

/// Creates a quick-xml reader over `content` that keeps text as it is and
/// skips its well-formedness checks (`Reader::from_reader`, `trim_text(false)`,
/// `enable_all_checks(false)`). The reader yields `xml_events(content)`.
#[verifier::external_body]
pub fn create_xml_reader<'a>(content: &'a [u8]) -> (r: Reader<&'a [u8]>)
    ensures
        pending_events(r) == xml_events(content@),
        is_event_stream(pending_events(r)),
{
    let mut reader = Reader::from_reader(content);
    reader.config_mut().trim_text(false);
    reader.config_mut().enable_all_checks(false);
    reader
}

/// quick-xml's XML event.
#[verifier::external_type_specification]
#[verifier::external_body]
pub struct ExQuickEvent<'a>(Event<'a>);

/// Takes an event other than a tag or the end of input: a reference by its
/// name, anything else as the text that quick-xml's `Writer::write_event`
/// writes for it, copied through as it is. The write goes into a byte
/// buffer, so it does not fail; the event's content is a `str`, so what is
/// written is text.
#[verifier::external_body]
fn other_event(e: Event<'_>) -> Option<XmlEvent> {
    if let Event::GeneralRef(g) = e {
        return Some(XmlEvent::GeneralRef((*g).to_owned()));
    }
    let mut w = Writer::new(Vec::new());
    w.write_event(e).ok()?;
    Some(XmlEvent::Other(String::from_utf8_lossy(&w.into_inner()).into_owned()))
}

/// Reads the next event with quick-xml's `Reader::read_event`, in the form
/// of `XmlEvent`; `None` on a parse error. The result is the first pending
/// one, and an event other than `Eof` is consumed.
#[verifier::external_body]
pub(crate) fn read_event<'a>(r: &mut Reader<&'a [u8]>) -> (e: Option<XmlEvent>)
    ensures
        pending_events(*old(r)).len() > 0 ==> e == pending_events(*old(r))[0],
        e matches Some(ev) && !(ev is Eof) ==> pending_events(*final(r)) == pending_events(*old(r)).drop_first(),
        e == Some(XmlEvent::Eof) ==> pending_events(*final(r)) == pending_events(*old(r)),
{
    let tag = |e: &BytesStart| XmlTag { name: e.name().0.to_owned(), attrs: e.attributes_raw().to_owned() };
    match r.read_event() {
        Ok(Event::Start(e)) => Some(XmlEvent::Start(tag(&e))),
        Ok(Event::Empty(e)) => Some(XmlEvent::Empty(tag(&e))),
        Ok(Event::End(e)) => Some(XmlEvent::End(e.name().0.to_owned())),
        Ok(Event::Eof) => Some(XmlEvent::Eof),
        Ok(e) => other_event(e),
        Err(_) => None,
    }
}

/// Splits a tag's attribute text into attributes with quick-xml's
/// `BytesStart::attributes` iterator.
#[verifier::external_body]
pub(crate) fn tag_attributes(tag: &XmlTag) -> (r: Vec<Option<(String, String)>>)
    ensures
        attribute_views(r@) == parsed_attributes(tag.name@, tag.attrs@),
{
    let e = BytesStart::from_content(format!("{}{}", tag.name, tag.attrs), tag.name.len());
    e.attributes().map(|a| a.ok().map(|a| (a.key.0.to_owned(), a.value.into_owned()))).collect()
}

/// Escapes text content with `quick_xml::escape::escape`, which replaces
/// `<`, `>`, `&`, `'`, `"` and carriage return by references.
#[verifier::external_body]
pub(crate) fn escape_text(s: &str) -> (r: String)
    ensures
        r@ == escaped(s@, false),
{
    quick_xml::escape::escape(s).into_owned()
}

} // verus!
