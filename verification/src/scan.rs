use vstd::prelude::*;

use crate::ast::AstNode;
use crate::events::Construct;
use crate::events::EventModel;
use crate::events::MdEvent;
use crate::events::events_model;
use crate::events::well_nested;
use crate::parser::parse_events;
use crate::parser::parse_model;
use pulldown_cmark::CodeBlockKind;
use pulldown_cmark::Event;
use pulldown_cmark::Tag;

verus! {

/// Declares `pulldown_cmark::Tag`, the producer's start-tag type, so that a
/// value of it can be carried through; it stays opaque here.
#[verifier::external_type_specification]
#[verifier::external_body]
pub struct ExTag<'a>(Tag<'a>);

/// The event sequence the outside producer yields for a Markdown string,
/// classified into the reducer's vocabulary. It is a function of the string
/// alone: the producer reads nothing else.
pub uninterp spec fn events_of(s: Seq<char>) -> Seq<EventModel>;

/// Relies on `pulldown_cmark::Tag`: reads which construct a start tag names
/// and copies the fields this library keeps (heading level, ordered marker,
/// link destination, fence language); every other tag kind becomes `Other`.
#[verifier::external_body]
fn classify_tag(t: Tag<'_>) -> (c: Construct)
{
    match t {
        Tag::Heading { level, .. } => Construct::Heading { level: level as u8 },
        Tag::Paragraph => Construct::Paragraph,
        Tag::Emphasis => Construct::Emphasis,
        Tag::Strong => Construct::Strong,
        Tag::BlockQuote(_) => Construct::BlockQuote,
        Tag::List(Some(_)) => Construct::List { ordered: true },
        Tag::List(None) => Construct::List { ordered: false },
        Tag::Item => Construct::ListItem,
        Tag::Link { dest_url, .. } => Construct::Link { url: dest_url.to_string() },
        Tag::CodeBlock(CodeBlockKind::Fenced(l)) => Construct::CodeBlock { language: Some(l.to_string()) },
        Tag::CodeBlock(CodeBlockKind::Indented) => Construct::CodeBlock { language: None },
        _ => Construct::Other,
    }
}

/// Relies on `pulldown_cmark::Parser::new` and its `Iterator` impl: the
/// event stream of a Markdown string depends on that string alone, named
/// here `events_of`; its start and end events are documented to be balanced,
/// and the mapping into the reducer's vocabulary keeps each event's place.
#[verifier::external_body]
fn scan_events(input: &str) -> (r: Vec<MdEvent>)
    ensures
        events_model(r@) == events_of(input@),
        well_nested(events_model(r@)),
{
    let mut out = Vec::new();
    for e in pulldown_cmark::Parser::new(input) {
        out.push(match e {
            Event::Start(t) => MdEvent::Start(classify_tag(t)),
            Event::End(_) => MdEvent::End,
            Event::Text(s) => MdEvent::Text(s.to_string()),
            Event::Code(s) => MdEvent::InlineCode(s.to_string()),
            _ => MdEvent::Other,
        });
    }
    out
}

/// Parses Markdown source text into its fully built document tree.
///
/// The outside producer turns the text into the flat event sequence
/// `events_of(input@)`, which it documents to be well nested; the verified
/// reducer then builds the tree. The result is always a single `Document`
/// node: the exact reduction of that sequence, so equal inputs parse to
/// trees with equal models.
pub fn parse_markdown(input: &str) -> (r: AstNode)
    ensures
        r matches AstNode::Document { .. },
        well_nested(events_of(input@)),
        r@ == parse_model(events_of(input@)),
{
    let events = scan_events(input);
    parse_events(&events)
}

} // verus!
