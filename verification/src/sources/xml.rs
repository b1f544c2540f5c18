//! XML as a list of events, read by quick-xml. The catalog and the news feed
//! decide what they hold from these events.

use quick_xml::events::Event::{End, Eof, Start, Text};
use quick_xml::Reader;
use vstd::prelude::*;

use crate::text::to_chars;

verus! {

pub open spec fn opt_view(o: Option<String>) -> Option<Seq<char>> {
    match o {
        Some(s) => Some(s@),
        None => None,
    }
}

/// One piece of an XML document.
pub enum XmlEvent {
    /// An opening tag: its name, and its attributes as name and unescaped
    /// value (none where the value does not unescape). Names are the bytes
    /// of the document.
    Start(Vec<u8>, Vec<(Vec<u8>, Option<String>)>),
    /// Text between tags, unescaped (none where it does not unescape).
    Text(Option<String>),
    /// A closing tag.
    End(Vec<u8>),
    /// Anything else: declarations, comments, self-closing tags.
    Other,
}

/// An XML event as values.
pub enum XmlView {
    Start(Seq<u8>, Seq<(Seq<u8>, Option<Seq<char>>)>),
    Text(Option<Seq<char>>),
    End(Seq<u8>),
    Other,
}

pub open spec fn attr_views(a: Seq<(Vec<u8>, Option<String>)>) -> Seq<(Seq<u8>, Option<Seq<char>>)> {
    Seq::new(a.len(), |i: int| (a[i].0@, opt_view(a[i].1)))
}

impl View for XmlEvent {
    type V = XmlView;

    open spec fn view(&self) -> XmlView {
        match self {
            XmlEvent::Start(n, a) => XmlView::Start(n@, attr_views(a@)),
            XmlEvent::Text(t) => XmlView::Text(opt_view(*t)),
            XmlEvent::End(n) => XmlView::End(n@),
            XmlEvent::Other => XmlView::Other,
        }
    }
}

pub open spec fn xml_views(v: Seq<XmlEvent>) -> Seq<XmlView> {
    Seq::new(v.len(), |i: int| v[i]@)
}

/// A quick-xml reader over a document in memory.
#[verifier::external_type_specification]
#[verifier::external_body]
#[verifier::reject_recursive_types(R)]
pub struct ExReader<R>(Reader<R>);

/// The events quick-xml reads from a document, text trimmed, up to its end
/// or the first error.
pub uninterp spec fn xml_events_of(xml: Seq<char>) -> Seq<XmlView>;

/// The events a reader has still to give, up to the end of its document or
/// the first error.
pub uninterp spec fn events_left(r: Reader<&[u8]>) -> Seq<XmlView>;

/// quick-xml's `Reader::from_str`, set to trim text (`trim_text(true)`), as
/// this library reads every document: the reader stands before all the
/// events of `xml`.
#[verifier::external_body]
fn xml_reader<'a>(xml: &'a str) -> (r: Reader<&'a [u8]>)
    ensures
        events_left(r) == xml_events_of(xml@),
{
    let mut reader = Reader::from_str(xml);
    reader.config_mut().trim_text(true);
    reader
}

/// quick-xml's `Reader::read_event`: the next event of the document, as an
/// `XmlEvent` (names kept as bytes, attributes that do not parse skipped,
/// values and text unescaped); nothing at the end of the document or on an
/// error. The reader moves past the event it gave.
#[verifier::external_body]
fn next_event(reader: &mut Reader<&[u8]>) -> (r: Option<XmlEvent>)
    ensures
        match r {
            Some(e) => events_left(*old(reader)).len() > 0 && e@ == events_left(*old(reader))[0]
                && events_left(*final(reader)) == events_left(*old(reader)).drop_first(),
            None => events_left(*old(reader)).len() == 0,
        },
{
    match reader.read_event() {
        Ok(Start(e)) => Some(XmlEvent::Start(e.name().0.to_vec(), e.attributes().flatten().map(|a| (a.key.0.to_vec(), a.unescape_value().ok().map(String::from))).collect())),
        Ok(Text(t)) => Some(XmlEvent::Text(t.unescape().ok().map(String::from))),
        Ok(End(e)) => Some(XmlEvent::End(e.name().0.to_vec())),
        Ok(Eof) | Err(_) => None,
        Ok(_) => Some(XmlEvent::Other),
    }
}

/// Every event of a document, in order.
pub(crate) fn xml_events(xml: &str) -> (r: Vec<XmlEvent>)
    ensures
        xml_views(r@) == xml_events_of(xml@),
{
    let mut reader = xml_reader(xml);
    let mut out: Vec<XmlEvent> = Vec::new();
    loop
        invariant_except_break
            xml_views(out@) + events_left(reader) == xml_events_of(xml@),
        ensures
            xml_views(out@) == xml_events_of(xml@),
        decreases events_left(reader).len(),
    {
        let ghost before = events_left(reader);
        match next_event(&mut reader) {
            Some(e) => {
                out.push(e);
                assert(xml_views(out@) + events_left(reader) =~= xml_events_of(xml@)) by {
                    assert(xml_views(out@) =~= xml_views(out@.drop_last()).push(before[0]));
                    assert(before =~= seq![before[0]] + before.drop_first());
                }
            },
            None => {
                assert(xml_views(out@) =~= xml_events_of(xml@));
                break;
            },
        }
    }
    out
}

/// The bytes `tag` spell the (ASCII) name `name`.
pub open spec fn is_name(tag: Seq<u8>, name: Seq<char>) -> bool {
    tag.len() == name.len() && forall|i: int| 0 <= i < tag.len() ==> tag[i] as u32 == name[i] as u32
}

pub fn name_is(tag: &Vec<u8>, name: &str) -> (r: bool)
    ensures
        r == is_name(tag@, name@),
{
    let nv = to_chars(name);
    if tag.len() != nv.len() {
        return false;
    }
    let mut i: usize = 0;
    while i < tag.len()
        invariant
            tag@.len() == nv@.len(),
            nv@ == name@,
            i <= tag@.len(),
            forall|j: int| 0 <= j < i ==> tag@[j] as u32 == nv@[j] as u32,
        decreases tag@.len() - i,
    {
        if tag[i] as u32 != nv[i] as u32 {
            return false;
        }
        i = i + 1;
    }
    true
}

} // verus!
