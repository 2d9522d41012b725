//! The events of an XML document, as `quick-xml`'s reader reports them, in
//! plain values.
use vstd::prelude::*;
use quick_xml::events::Event;

verus! {

/// One event of the reader.
pub enum XmlEvent {
    /// An opening tag, with its name.
    Start(Vec<u8>),
    /// A closing tag, with its name.
    End(Vec<u8>),
    /// Character data, decoded; `None` when the decoder rejected it.
    Text(Option<String>),
    /// Anything else (declarations, comments, entity references, ...).
    Other,
}

/// The events that `quick_xml::Reader` reads from `xml`, with text trimmed
/// (white-space-only text is no event), up to the end of the document or
/// the first error; and whether an error stopped it.
pub uninterp spec fn xml_events(xml: Seq<u8>) -> (Seq<XmlEvent>, bool);

/// Runs `quick_xml::Reader::read_event` over the document with text
/// trimming on, and carries each event over into an `XmlEvent`; text is
/// decoded with the reader's decoder. The reader is a function of the bytes,
/// so the result is named by `xml_events`.
#[verifier::external_body]
pub(crate) fn read_events(xml: &[u8]) -> (r: (Vec<XmlEvent>, bool))
    ensures
        (r.0@, r.1) == xml_events(xml@),
{
    let mut reader = quick_xml::Reader::from_reader(xml);
    reader.config_mut().trim_text(true);
    let mut events = Vec::new();
    loop {
        let event = match reader.read_event() {
            Ok(Event::Start(e)) => XmlEvent::Start(e.name().as_ref().to_vec()),
            Ok(Event::End(e)) => XmlEvent::End(e.name().as_ref().to_vec()),
            Ok(Event::Text(e)) => XmlEvent::Text(reader.decoder().decode(&e).ok().map(|t| t.into_owned())),
            Ok(Event::Eof) => return (events, false),
            Err(_) => return (events, true),
            Ok(_) => XmlEvent::Other,
        };
        events.push(event);
    }
}

} // verus!
