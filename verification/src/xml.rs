//! XML events as plain values, and the tokenizer that produces them.
use vstd::prelude::*;
use quick_xml::events::Event;
use quick_xml::Reader;

verus! {

/// One attribute of a start tag, as raw bytes.
#[derive(Debug)]
pub struct XmlAttribute {
    pub key: Vec<u8>,
    pub value: Vec<u8>,
}

/// The events of an XML document that the metadata reader looks at.
///
/// A start tag carries its attributes in document order, each read or, where
/// the tokenizer could not read it, an `Err` holding the tokenizer's message.
/// Events that the reader never inspects
/// (self-closing tags, comments, CDATA, declarations, processing instructions,
/// doctypes) are `Other`.
#[derive(Debug)]
pub enum XmlEvent {
    Start { name: Vec<u8>, attributes: Vec<Result<XmlAttribute, String>> },
    End { name: Vec<u8> },
    Text { content: Vec<u8> },
    Eof,
    Other,
}

/// Mathematical model of an attribute.
pub struct XmlAttributeView {
    pub key: Seq<u8>,
    pub value: Seq<u8>,
}

/// Mathematical model of an event.
pub enum XmlEventView {
    Start { name: Seq<u8>, attributes: Seq<Result<XmlAttributeView, Seq<char>>> },
    End { name: Seq<u8> },
    Text { content: Seq<u8> },
    Eof,
    Other,
}

impl View for XmlAttribute {
    type V = XmlAttributeView;

    open spec fn view(&self) -> XmlAttributeView {
        XmlAttributeView { key: self.key@, value: self.value@ }
    }
}

pub open spec fn attribute_view(a: Result<XmlAttribute, String>) -> Result<XmlAttributeView, Seq<char>> {
    match a {
        Ok(attribute) => Ok(attribute@),
        Err(message) => Err(message@),
    }
}

pub open spec fn attributes_view(attributes: Seq<Result<XmlAttribute, String>>) -> Seq<Result<XmlAttributeView, Seq<char>>> {
    attributes.map_values(|a: Result<XmlAttribute, String>| attribute_view(a))
}

impl View for XmlEvent {
    type V = XmlEventView;

    open spec fn view(&self) -> XmlEventView {
        match self {
            XmlEvent::Start { name, attributes } => XmlEventView::Start {
                name: name@,
                attributes: attributes_view(attributes@),
            },
            XmlEvent::End { name } => XmlEventView::End { name: name@ },
            XmlEvent::Text { content } => XmlEventView::Text { content: content@ },
            XmlEvent::Eof => XmlEventView::Eof,
            XmlEvent::Other => XmlEventView::Other,
        }
    }
}

pub open spec fn events_view(events: Seq<XmlEvent>) -> Seq<XmlEventView> {
    events.map_values(|e: XmlEvent| e@)
}

/// A tokenized document: the events read before the end of the input, and,
/// when the tokenizer stopped on malformed input, its message.
#[derive(Debug)]
pub struct XmlDocument {
    pub events: Vec<XmlEvent>,
    pub failure: Option<String>,
}

/// Mathematical model of a tokenized document.
pub struct DocumentView {
    pub events: Seq<XmlEventView>,
    pub failure: Option<Seq<char>>,
}

impl View for XmlDocument {
    type V = DocumentView;

    open spec fn view(&self) -> DocumentView {
        DocumentView {
            events: events_view(self.events@),
            failure: match self.failure {
                Some(message) => Some(message@),
                None => None,
            },
        }
    }
}

/// quick-xml's event reader, opaque to the proofs.
#[verifier::external_type_specification]
#[verifier::external_body]
#[verifier::reject_recursive_types(R)]
pub struct ExReader<R>(Reader<R>);

/// What quick-xml makes of `input`: the events that `Reader::read_event`
/// yields one by one on a reader over `input`, up to the end of the input
/// (excluded), and, when reading stops on an error instead, the error's
/// message (its `Display` text).
pub uninterp spec fn xml_scan(input: Seq<u8>) -> (Seq<XmlEventView>, Option<Seq<char>>);

/// What a quick-xml reader still holds: the events that its next calls of
/// `read_event` yield before the end of its input, and, when it then stops
/// on an error, the error's message.
pub uninterp spec fn pending_events(reader: Reader<&[u8]>) -> (Seq<XmlEventView>, Option<Seq<char>>);

/// Calls `quick_xml::Reader::from_reader` with its default configuration:
/// the new reader holds all the events of `input`.
#[verifier::external_body]
fn open_reader<'a>(input: &'a [u8]) -> (reader: Reader<&'a [u8]>)
    ensures
        pending_events(reader) == xml_scan(input@),
{
    Reader::from_reader(input)
}

/// Calls `quick_xml::Reader::read_event` and converts the event, one for one,
/// into an `XmlEvent`; the attributes of a start tag are those that
/// `BytesStart::attributes` yields, in order; an error is converted to its
/// `Display` text. While events are pending, the first one is returned and
/// removed; after them comes `Eof`, or the error that ends the input.
#[verifier::external_body]
fn next_event<'a>(reader: &mut Reader<&'a [u8]>) -> (res: Result<XmlEvent, String>)
    ensures
        pending_events(*old(reader)).0.len() > 0 ==> {
            &&& res matches Ok(e) && e@ == pending_events(*old(reader)).0[0] && !(e is Eof)
            &&& pending_events(*final(reader)).0 == pending_events(*old(reader)).0.drop_first()
            &&& pending_events(*final(reader)).1 == pending_events(*old(reader)).1
        },
        pending_events(*old(reader)).0.len() == 0 ==> {
            &&& (res is Err <==> pending_events(*old(reader)).1 is Some)
            &&& (res matches Err(message) ==> pending_events(*old(reader)).1 == Some(message@))
            &&& (res matches Ok(e) ==> e is Eof)
        },
{
    Ok(match reader.read_event().map_err(|e| e.to_string())? {
        Event::Start(e) => {
            let mut attributes = Vec::new();
            for a in e.attributes() {
                attributes.push(match a {
                    Ok(a) => Ok(XmlAttribute { key: a.key.0.to_vec(), value: a.value.into_owned() }),
                    Err(x) => Err(x.to_string()) });
            }
            XmlEvent::Start { name: e.name().0.to_vec(), attributes }
        },
        Event::End(e) => XmlEvent::End { name: e.name().0.to_vec() },
        Event::Text(e) => XmlEvent::Text { content: e.into_inner().into_owned() },
        Event::Eof => XmlEvent::Eof,
        _ => XmlEvent::Other,
    })
}

/// Tokenizes `input` with quick-xml, keeping every event up to the end of the
/// input or the first error.
pub fn scan(input: &[u8]) -> (document: XmlDocument)
    ensures
        document@.events == xml_scan(input@).0,
        document@.failure == xml_scan(input@).1,
        forall|i: int| 0 <= i < document@.events.len() ==> !(#[trigger] document@.events[i] is Eof),
{
    let mut reader = open_reader(input);
    let mut events: Vec<XmlEvent> = Vec::new();
    let ghost all = xml_scan(input@);
    loop
        invariant
            all == xml_scan(input@),
            pending_events(reader).1 == all.1,
            all.0 == events_view(events@) + pending_events(reader).0,
            forall|i: int| 0 <= i < events@.len() ==> !(#[trigger] events@[i] is Eof),
        decreases pending_events(reader).0.len(),
    {
        let ghost before = events@;
        match next_event(&mut reader) {
            Ok(XmlEvent::Eof) => {
                assert(all.0 =~= events_view(events@));
                return XmlDocument { events, failure: None };
            },
            Ok(e) => {
                events.push(e);
                assert(events_view(events@) =~= events_view(before).push(e@));
            },
            Err(message) => {
                assert(all.0 =~= events_view(events@));
                return XmlDocument { events, failure: Some(message) };
            },
        }
    }
}

} // verus!
