//! Timed-transcript reader: streams the start-tag events of a well-formed-XML
//! silence report.
//!
//! The tokenizing itself is delegated to the `xml` crate behind a trusted
//! wrapper; everything downstream works on the plain name/value pairs the
//! wrapper hands back.

use vstd::prelude::*;

verus! {

/// One start tag of the document: its local name and its attribute
/// name/value pairs, in tokenizer-reported order.
pub struct RawTag {
    pub name: String,
    pub attrs: Vec<(String, String)>,
}

/// The mathematical content of a start tag: the local name and the attribute
/// name/value pairs as character sequences.
pub type TagView = (Seq<char>, Seq<(Seq<char>, Seq<char>)>);

impl View for RawTag {
    type V = TagView;

    open spec fn view(&self) -> TagView {
        (self.name@, self.attrs@.map_values(|p: (String, String)| (p.0@, p.1@)))
    }
}

/// The content of a sequence of start tags.
pub open spec fn tags_view(ts: Seq<RawTag>) -> Seq<TagView> {
    ts.map_values(|t: RawTag| t@)
}

/// What tokenizing a document yields: its start tags in document order, and,
/// where the tokenizer stops at malformed content, the error text — the tags
/// before that point are still yielded.
pub uninterp spec fn xml_scan(doc: Seq<u8>) -> (Seq<TagView>, Option<Seq<char>>);

/// Relies on `xml::reader::EventReader`: streams the events of an XML
/// document; start-tag events carry the element's qualified name and its
/// attributes, and on malformed content an error event ends the stream. The
/// events depend on the document bytes alone.
#[verifier::external_body]
pub(crate) fn scan_start_tags(doc: &[u8]) -> (r: (Vec<RawTag>, Option<String>))
    ensures
        tags_view(r.0@) == xml_scan(doc@).0,
        (match r.1 {
            Some(e) => xml_scan(doc@).1 == Some(e@),
            None => xml_scan(doc@).1 is None,
        }),
{
    let mut tags: Vec<RawTag> = Vec::new();
    for event in xml::reader::EventReader::new(doc) {
        match event {
            Ok(xml::reader::XmlEvent::StartElement { name, attributes, .. }) => tags.push(RawTag {
                name: name.local_name,
                attrs: attributes.into_iter().map(|a| (a.name.local_name, a.value)).collect(),
            }),
            Err(e) => return (tags, Some(e.to_string())),
            _ => {},
        }
    }
    (tags, None)
}

} // verus!
