use vstd::prelude::*;
use xml::reader::{EventReader, XmlEvent};
use xml::ParserConfig;

verus! {

/// An attribute of an element: its local name and its value.
#[derive(Debug)]
pub struct Attribute {
    pub name: String,
    pub value: String,
}

/// One event of the markup tokenizer, reduced to what the parser reads.
#[derive(Debug)]
pub enum MarkupEvent {
    StartDocument,
    EndDocument,
    StartElement { name: String, attributes: Vec<Attribute> },
    EndElement { name: String },
    Characters(String),
    /// An event that carries nothing the parser reads (a comment, a
    /// processing instruction, a CDATA section).
    Other,
    /// The tokenizer found the text ill-formed; the message says where.
    SyntaxError(String),
}

/// The mathematical model of a [`MarkupEvent`].
pub enum EventModel {
    StartDocument,
    EndDocument,
    StartElement { name: Seq<char>, attributes: Seq<(Seq<char>, Seq<char>)> },
    EndElement { name: Seq<char> },
    Characters(Seq<char>),
    Other,
    SyntaxError(Seq<char>),
}

impl Attribute {
    pub open spec fn model(self) -> (Seq<char>, Seq<char>) {
        (self.name@, self.value@)
    }
}

impl MarkupEvent {
    pub open spec fn model(self) -> EventModel {
        match self {
            MarkupEvent::StartDocument => EventModel::StartDocument,
            MarkupEvent::EndDocument => EventModel::EndDocument,
            MarkupEvent::StartElement { name, attributes } => EventModel::StartElement {
                name: name@,
                attributes: attributes@.map_values(|a: Attribute| a.model()),
            },
            MarkupEvent::EndElement { name } => EventModel::EndElement { name: name@ },
            MarkupEvent::Characters(t) => EventModel::Characters(t@),
            MarkupEvent::Other => EventModel::Other,
            MarkupEvent::SyntaxError(m) => EventModel::SyntaxError(m@),
        }
    }
}

/// The models of a sequence of events, element by element.
pub open spec fn events_model(s: Seq<MarkupEvent>) -> Seq<EventModel> {
    s.map_values(|e: MarkupEvent| e.model())
}

/// The events that xml-rs, set to trim whitespace, makes of a text.
pub uninterp spec fn markup_events(text: Seq<char>) -> Seq<EventModel>;

/// Relies on xml-rs's `EventReader` with `trim_whitespace(true)`, read
/// through its event iterator: the events of the text in order, which
/// depend on the text alone.
#[verifier::external_body]
pub(crate) fn read_markup(text: &str) -> (r: Vec<MarkupEvent>)
    ensures
        events_model(r@) == markup_events(text@),
{
    let config = ParserConfig::new().trim_whitespace(true);
    let reader = EventReader::new_with_config(text.as_bytes(), config);
    reader.into_iter().map(|e| match e {
        Ok(XmlEvent::StartDocument { .. }) => MarkupEvent::StartDocument,
        Ok(XmlEvent::EndDocument) => MarkupEvent::EndDocument,
        Ok(XmlEvent::StartElement { name, attributes, .. }) => MarkupEvent::StartElement {
            name: name.local_name,
            attributes: attributes.into_iter().map(|a| Attribute { name: a.name.local_name, value: a.value }).collect(),
        },
        Ok(XmlEvent::EndElement { name }) => MarkupEvent::EndElement { name: name.local_name },
        Ok(XmlEvent::Characters(t)) => MarkupEvent::Characters(t),
        Ok(_) => MarkupEvent::Other,
        Err(err) => MarkupEvent::SyntaxError(err.to_string()),
    }).collect()
}

} // verus!
