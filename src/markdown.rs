//! Markdown seen as a flat stream of parser events.
use vstd::prelude::*;
use pulldown_cmark::{Event as E, Tag, TagEnd};

verus! {

/// The parser events that this library reads; every other event is `Other`.
/// Soft and hard line breaks are both `LineBreak`.
pub enum MdEvent {
    CodeBlockStart,
    CodeBlockEnd,
    HeadingStart(u8),
    HeadingEnd,
    ParagraphEnd,
    LineBreak,
    Text(String),
    Code(String),
    Other,
}

/// The model of an event: texts as their characters.
pub enum MdItem {
    CodeBlockStart,
    CodeBlockEnd,
    HeadingStart(u8),
    HeadingEnd,
    ParagraphEnd,
    LineBreak,
    Text(Seq<char>),
    Code(Seq<char>),
    Other,
}

impl View for MdEvent {
    type V = MdItem;

    open spec fn view(&self) -> MdItem {
        match self {
            MdEvent::CodeBlockStart => MdItem::CodeBlockStart,
            MdEvent::CodeBlockEnd => MdItem::CodeBlockEnd,
            MdEvent::HeadingStart(l) => MdItem::HeadingStart(*l),
            MdEvent::HeadingEnd => MdItem::HeadingEnd,
            MdEvent::ParagraphEnd => MdItem::ParagraphEnd,
            MdEvent::LineBreak => MdItem::LineBreak,
            MdEvent::Text(t) => MdItem::Text(t@),
            MdEvent::Code(c) => MdItem::Code(c@),
            MdEvent::Other => MdItem::Other,
        }
    }
}

pub open spec fn events_view(v: Seq<MdEvent>) -> Seq<MdItem> {
    v.map_values(|e: MdEvent| e@)
}

/// The events that `pulldown_cmark::Parser` yields for a text, as items.
pub uninterp spec fn markdown_items(text: Seq<char>) -> Seq<MdItem>;

/// Relies on `pulldown_cmark::Parser::new`: the event stream of a text depends
/// on the text alone.
#[verifier::external_body]
pub(crate) fn markdown_events(text: &str) -> (r: Vec<MdEvent>)
    ensures
        events_view(r@) == markdown_items(text@),
{
    pulldown_cmark::Parser::new(text).map(|e| match e {
        E::Start(Tag::CodeBlock(_)) => MdEvent::CodeBlockStart,
        E::End(TagEnd::CodeBlock) => MdEvent::CodeBlockEnd,
        E::Start(Tag::Heading { level, .. }) => MdEvent::HeadingStart(level as u8),
        E::End(TagEnd::Heading(_)) => MdEvent::HeadingEnd,
        E::End(TagEnd::Paragraph) => MdEvent::ParagraphEnd,
        E::SoftBreak | E::HardBreak => MdEvent::LineBreak,
        E::Text(t) => MdEvent::Text(t.to_string()),
        E::Code(c) => MdEvent::Code(c.to_string()),
        _ => MdEvent::Other,
    }).collect()
}

} // verus!
