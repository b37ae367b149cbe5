//! Capturing an inline `<svg>` element from the page's XML events.

use vstd::prelude::*;
use vstd::utf8::encode_utf8;
use crate::error::Error;
use crate::utils::text::{from_chars, push_all, string_bytes, to_chars};
use crate::utils::xml::common::{
    attribute_text, attribute_views, create_xml_reader, event_text, is_event_stream, parsed_attributes, pending_events,
    read_event, tag_attributes, xml_events, XmlEvent, XmlTag,
};
use crate::utils::xml::processor::{raw_attributes, string_pairs};
use quick_xml::Reader;

verus! {

/// Attributes re-serialized as ` key="value"` each; `None` when one of them
/// is malformed.
pub open spec fn serialized_attributes(attrs: Seq<Option<(Seq<char>, Seq<char>)>>) -> Option<Seq<char>>
    decreases attrs.len(),
{
    if attrs.len() == 0 {
        Some(seq![])
    } else {
        match (serialized_attributes(attrs.drop_last()), attrs.last()) {
            (Some(t), Some(p)) => Some(t + attribute_text(p.0, p.1)),
            _ => None,
        }
    }
}

/// The text that one event adds to a captured SVG, and the nesting depth
/// after it; `None` for the end of input, a parse error or malformed
/// attributes, and for nesting that goes below the SVG element or beyond
/// `u32::MAX`.
pub open spec fn captured_event(ev: Option<XmlEvent>, depth: nat) -> Option<(Seq<char>, nat)> {
    match ev {
        None => None,
        Some(e) => match e {
            XmlEvent::Start(t) => if depth >= u32::MAX {
                None
            } else {
                match serialized_attributes(parsed_attributes(t.name@, t.attrs@)) {
                    Some(a) => Some((seq!['<'] + t.name@ + a + seq!['>'], depth + 1)),
                    None => None,
                }
            },
            XmlEvent::Empty(t) => match serialized_attributes(parsed_attributes(t.name@, t.attrs@)) {
                Some(a) => Some((seq!['<'] + t.name@ + a + seq!['/', '>'], depth)),
                None => None,
            },
            XmlEvent::End(n) => if depth == 0 {
                None
            } else {
                Some((event_text(XmlEvent::End(n)), (depth - 1) as nat))
            },
            XmlEvent::GeneralRef(_) => Some((seq![], depth)),
            XmlEvent::Eof => None,
            other => Some((event_text(other), depth)),
        },
    }
}

/// Whether an event closes the SVG element being captured: `</svg>` that
/// brings the depth to zero.
pub open spec fn closes_svg(ev: Option<XmlEvent>, depth: nat) -> bool {
    ev matches Some(XmlEvent::End(n)) && n@ == "svg"@ && depth == 1
}

/// The SVG content captured from events at a nesting depth, up to and
/// including the `</svg>` that closes it, with the number of events read;
/// `None` when the events fail first.
pub open spec fn captured(events: Seq<Option<XmlEvent>>, depth: nat) -> Option<(Seq<char>, nat)>
    decreases events.len(),
{
    if events.len() == 0 {
        None
    } else if closes_svg(events[0], depth) {
        Some(("</svg>"@, 1))
    } else {
        match captured_event(events[0], depth) {
            None => None,
            Some((t, d)) => match captured(events.drop_first(), d) {
                Some((c, n)) => Some((t + c, n + 1)),
                None => None,
            },
        }
    }
}

/// The SVG element whose start tag has the given attributes: `<svg`, the
/// attributes, `>` and the captured content.
pub open spec fn svg_text(attrs: Seq<(Seq<char>, Seq<char>)>, body: Seq<char>) -> Seq<char> {
    "<svg"@ + raw_attributes(attrs) + seq!['>'] + body
}

/// A capture reads at least one event and no more than there are.
pub proof fn lemma_captured_len(events: Seq<Option<XmlEvent>>, depth: nat)
    ensures
        captured(events, depth) matches Some((c, n)) ==> 1 <= n <= events.len(),
    decreases events.len(),
{
    if events.len() > 0 && !closes_svg(events[0], depth) {
        match captured_event(events[0], depth) {
            Some((t, d)) => lemma_captured_len(events.drop_first(), d),
            None => {},
        }
    }
}

fn serialize_attributes(tag: &XmlTag) -> (r: Option<Vec<char>>)
    ensures
        serialized_attributes(parsed_attributes(tag.name@, tag.attrs@)) matches Some(a) ==> r matches Some(v) && v@
            == a,
        serialized_attributes(parsed_attributes(tag.name@, tag.attrs@)) is None ==> r is None,
{
    let parsed = tag_attributes(tag);
    let ghost views = attribute_views(parsed@);
    let mut out: Vec<char> = Vec::new();
    let mut i: usize = 0;
    while i < parsed.len()
        invariant
            i <= parsed@.len(),
            views == attribute_views(parsed@),
            views == parsed_attributes(tag.name@, tag.attrs@),
            views.len() == parsed@.len(),
            serialized_attributes(views.subrange(0, i as int)) matches Some(a) && out@ == a,
        decreases parsed.len() - i,
    {
        assert(views.subrange(0, i + 1).drop_last() =~= views.subrange(0, i as int));
        match &parsed[i] {
            Some((k, v)) => {
                let ghost before = out@;
                out.push(' ');
                push_all(&mut out, &to_chars(k.as_str()));
                out.push('=');
                out.push('"');
                push_all(&mut out, &to_chars(v.as_str()));
                out.push('"');
                assert(out@ =~= before + attribute_text(k@, v@));
            },
            None => {
                proof {
                    assert(views[i as int] is None);
                    assert(serialized_attributes(views.subrange(0, i + 1)) is None);
                    lemma_serialized_prefix(views, i as int + 1);
                    assert(serialized_attributes(parsed_attributes(tag.name@, tag.attrs@)) is None);
                }
                return None;
            },
        }
        i = i + 1;
    }
    assert(views.subrange(0, views.len() as int) =~= views);
    Some(out)
}

proof fn lemma_serialized_prefix(attrs: Seq<Option<(Seq<char>, Seq<char>)>>, n: int)
    requires
        0 <= n <= attrs.len(),
        serialized_attributes(attrs.subrange(0, n)) is None,
    ensures
        serialized_attributes(attrs) is None,
    decreases attrs.len() - n,
{
    if n < attrs.len() {
        assert(attrs.subrange(0, n + 1).drop_last() =~= attrs.subrange(0, n));
        lemma_serialized_prefix(attrs, n + 1);
    } else {
        assert(attrs.subrange(0, n) =~= attrs);
    }
}

/// Reads events up to and including the `</svg>` that closes an SVG
/// element whose start tag has just been read, and returns their text:
/// tags with their attributes re-serialized, other content as written,
/// entity references left out.
pub fn capture_svg_body<'a>(reader: &mut Reader<&'a [u8]>) -> (r: Result<String, Error>)
    requires
        is_event_stream(pending_events(*old(reader))),
    ensures
        captured(pending_events(*old(reader)), 1) is None ==> r is Err,
        captured(pending_events(*old(reader)), 1) matches Some((c, n)) ==> {
            &&& r matches Ok(s) && s@ == c
            &&& pending_events(*final(reader)) == pending_events(*old(reader)).subrange(
                n as int,
                pending_events(*old(reader)).len() as int,
            )
            &&& is_event_stream(pending_events(*final(reader)))
        },
{
    let ghost all = pending_events(*reader);
    let mut content: Vec<char> = Vec::new();
    let mut depth: u32 = 1;
    let ghost mut read: nat = 0;
    loop
        invariant
            all == pending_events(*old(reader)),
            is_event_stream(pending_events(*reader)),
            read <= all.len(),
            pending_events(*reader) == all.subrange(read as int, all.len() as int),
            captured(pending_events(*reader), depth as nat) is None ==> captured(all, 1) is None,
            captured(pending_events(*reader), depth as nat) matches Some((c, n)) ==> captured(all, 1) == Some(
                (content@ + c, n + read),
            ),
        decreases pending_events(*reader).len(),
    {
        let ghost pending = pending_events(*reader);
        let ev = read_event(reader);
        proof {
            lemma_captured_len(pending.drop_first(), depth as nat);
        }
        assert(ev == pending[0]);
        match ev {
            None => {
                assert(captured(pending, depth as nat) is None);
                return Err(Error::XmlParse);
            },
            Some(XmlEvent::Eof) => {
                assert(captured(pending, depth as nat) is None);
                return Err(Error::UnexpectedEof);
            },
            Some(XmlEvent::Start(t)) => {
                if depth == u32::MAX {
                    assert(captured(pending, depth as nat) is None);
                    return Err(Error::UnbalancedTags);
                }
                let attrs = match serialize_attributes(&t) {
                    Some(a) => a,
                    None => {
                        assert(captured(pending, depth as nat) is None);
                        return Err(Error::XmlAttribute);
                    },
                };
                content.push('<');
                push_all(&mut content, &to_chars(t.name.as_str()));
                push_all(&mut content, &attrs);
                content.push('>');
                depth = depth + 1;
            },
            Some(XmlEvent::End(n)) => {
                let nv = to_chars(n.as_str());
                if depth == 0 {
                    assert(captured(pending, depth as nat) is None);
                    return Err(Error::UnbalancedTags);
                }
                depth = depth - 1;
                if depth == 0 && crate::utils::text::str_eq(n.as_str(), "svg") {
                    push_all(&mut content, &['<', '/', 's', 'v', 'g', '>']);
                    proof {
                        read = read + 1;
                        reveal_strlit("</svg>");
                        assert(all.subrange(read as int, all.len() as int) =~= pending.drop_first());
                    }
                    return Ok(from_chars(&content));
                }
                content.push('<');
                content.push('/');
                push_all(&mut content, &nv);
                content.push('>');
            },
            Some(XmlEvent::Empty(t)) => {
                let attrs = match serialize_attributes(&t) {
                    Some(a) => a,
                    None => {
                        assert(captured(pending, depth as nat) is None);
                        return Err(Error::XmlAttribute);
                    },
                };
                content.push('<');
                push_all(&mut content, &to_chars(t.name.as_str()));
                push_all(&mut content, &attrs);
                content.push('/');
                content.push('>');
            },
            Some(XmlEvent::GeneralRef(_)) => {},
            Some(other) => {
                let mut w = crate::utils::xml::common::XmlWriter::new();
                w.write_event(&other);
                push_all(&mut content, &to_chars(w.into_text().as_str()));
            },
        }
        proof {
            read = read + 1;
            assert(all.subrange(read as int, all.len() as int) =~= pending.drop_first());
        }
    }
}

/// The text of an SVG element from its start tag's attributes and its
/// captured content, as UTF-8 bytes.
pub fn svg_bytes(attrs: &[(String, String)], body: &str) -> (r: Vec<u8>)
    ensures
        r@ == encode_utf8(svg_text(string_pairs(attrs@), body@)),
{
    let mut out = to_chars("<svg");
    let mut i: usize = 0;
    while i < attrs.len()
        invariant
            i <= attrs@.len(),
            out@ == "<svg"@ + raw_attributes(string_pairs(attrs@.subrange(0, i as int))),
        decreases attrs.len() - i,
    {
        assert(string_pairs(attrs@.subrange(0, i + 1)).drop_last() =~= string_pairs(attrs@.subrange(0, i as int)));
        let ghost before = out@;
        out.push(' ');
        push_all(&mut out, &to_chars(attrs[i].0.as_str()));
        out.push('=');
        out.push('"');
        push_all(&mut out, &to_chars(attrs[i].1.as_str()));
        out.push('"');
        assert(out@ =~= before + attribute_text(attrs@[i as int].0@, attrs@[i as int].1@));
        i = i + 1;
    }
    assert(attrs@.subrange(0, attrs@.len() as int) =~= attrs@);
    out.push('>');
    push_all(&mut out, &to_chars(body));
    let text = from_chars(&out);
    assert(text@ =~= svg_text(string_pairs(attrs@), body@));
    string_bytes(text.as_str())
}

/// Captures a complete SVG element whose start tag has just been read: the
/// start tag rebuilt from the given attributes, then the element's content
/// up to its closing tag.
pub fn capture_svg_content<'a>(reader: &mut Reader<&'a [u8]>, attrs: &[(String, String)]) -> (r: Result<
    Vec<u8>,
    Error,
>)
    requires
        is_event_stream(pending_events(*old(reader))),
    ensures
        captured(pending_events(*old(reader)), 1) is None ==> r is Err,
        captured(pending_events(*old(reader)), 1) matches Some((c, n)) ==> {
            &&& r matches Ok(b) && b@ == encode_utf8(svg_text(string_pairs(attrs@), c))
            &&& pending_events(*final(reader)) == pending_events(*old(reader)).subrange(
                n as int,
                pending_events(*old(reader)).len() as int,
            )
        },
{
    match capture_svg_body(reader) {
        Ok(body) => Ok(svg_bytes(attrs, body.as_str())),
        Err(e) => Err(e),
    }
}

/// Captures the SVG element whose start tag opens `content`: the start tag
/// rebuilt from the given attributes, then the element's content up to its
/// closing tag. Content that does not open with a start tag gives
/// `XmlParse` (unreadable), `UnexpectedEof` (empty) or `UnbalancedTags`.
pub fn capture_svg_element(content: &[u8], attrs: &[(String, String)]) -> (r: Result<Vec<u8>, Error>)
    ensures
        xml_events(content@)[0] is None ==> r == Err::<Vec<u8>, Error>(Error::XmlParse),
        xml_events(content@)[0] == Some(XmlEvent::Eof) ==> r == Err::<Vec<u8>, Error>(Error::UnexpectedEof),
        xml_events(content@)[0] matches Some(e) && !(e is Eof) && !(e is Start) ==> r
            == Err::<Vec<u8>, Error>(Error::UnbalancedTags),
        xml_events(content@)[0] matches Some(XmlEvent::Start(_)) ==> {
            &&& captured(xml_events(content@).drop_first(), 1) is None ==> r is Err
            &&& captured(xml_events(content@).drop_first(), 1) matches Some((c, n)) ==> r matches Ok(b) && b@
                == encode_utf8(svg_text(string_pairs(attrs@), c))
        },
{
    let mut reader = create_xml_reader(content);
    let ghost s = xml_events(content@);
    match read_event(&mut reader) {
        None => Err(Error::XmlParse),
        Some(XmlEvent::Eof) => Err(Error::UnexpectedEof),
        Some(XmlEvent::Start(_)) => {
            proof {
                assert(s.len() > 1) by {
                    if s.len() == 1 {
                        assert(s.last() == s[0]);
                    }
                }
                let d = s.drop_first();
                assert forall|i: int| 0 <= i < d.len() - 1 implies (#[trigger] d[i] matches Some(e) && !(e is Eof)) by {
                    assert(d[i] == s[i + 1]);
                }
                assert(d.last() == s.last());
            }
            capture_svg_content(&mut reader, attrs)
        },
        Some(_) => Err(Error::UnbalancedTags),
    }
}

} // verus!
