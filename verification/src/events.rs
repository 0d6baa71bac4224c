use vstd::prelude::*;

verus! {

/// The construct named by a start event: the open-ended vocabulary of the
/// event producer, reduced to the kinds this library builds nodes for.
/// Anything else arrives as `Other`.
#[derive(Debug, PartialEq, Eq)]
pub enum Construct {
    Heading { level: u8 },
    Paragraph,
    Emphasis,
    Strong,
    BlockQuote,
    List { ordered: bool },
    ListItem,
    Link { url: String },
    CodeBlock { language: Option<String> },
    Other,
}

/// Model of a construct: strings as character sequences.
pub enum ConstructModel {
    Heading { level: u8 },
    Paragraph,
    Emphasis,
    Strong,
    BlockQuote,
    List { ordered: bool },
    ListItem,
    Link { url: Seq<char> },
    CodeBlock { language: Option<Seq<char>> },
    Other,
}

impl View for Construct {
    type V = ConstructModel;

    open spec fn view(&self) -> ConstructModel {
        match *self {
            Construct::Heading { level } => ConstructModel::Heading { level },
            Construct::Paragraph => ConstructModel::Paragraph,
            Construct::Emphasis => ConstructModel::Emphasis,
            Construct::Strong => ConstructModel::Strong,
            Construct::BlockQuote => ConstructModel::BlockQuote,
            Construct::List { ordered } => ConstructModel::List { ordered },
            Construct::ListItem => ConstructModel::ListItem,
            Construct::Link { url } => ConstructModel::Link { url: url@ },
            Construct::CodeBlock { language } => ConstructModel::CodeBlock {
                language: crate::ast::lang_model(language),
            },
            Construct::Other => ConstructModel::Other,
        }
    }
}

/// One item of the flat input sequence that the reducer consumes.
///
/// `Start`/`End` delimit a construct; `Text` and `InlineCode` are leaves;
/// `Other` stands for any event the reducer ignores.
#[derive(Debug, PartialEq, Eq)]
pub enum MdEvent {
    Start(Construct),
    End,
    Text(String),
    InlineCode(String),
    Other,
}

/// Model of an event.
pub enum EventModel {
    Start(ConstructModel),
    End,
    Text(Seq<char>),
    InlineCode(Seq<char>),
    Other,
}

impl View for MdEvent {
    type V = EventModel;

    open spec fn view(&self) -> EventModel {
        match *self {
            MdEvent::Start(c) => EventModel::Start(c@),
            MdEvent::End => EventModel::End,
            MdEvent::Text(s) => EventModel::Text(s@),
            MdEvent::InlineCode(s) => EventModel::InlineCode(s@),
            MdEvent::Other => EventModel::Other,
        }
    }
}

/// Model of an event sequence, element by element.
pub open spec fn events_model(s: Seq<MdEvent>) -> Seq<EventModel> {
    s.map_values(|e: MdEvent| e@)
}

/// How one event changes the number of open constructs.
pub open spec fn event_delta(e: EventModel) -> int {
    match e {
        EventModel::Start(_) => 1,
        EventModel::End => -1,
        _ => 0,
    }
}

/// Net nesting depth of a whole event sequence: starts minus ends.
pub open spec fn net_depth(s: Seq<EventModel>) -> int
    decreases s,
{
    if s.len() == 0 {
        0
    } else {
        net_depth(s.drop_last()) + event_delta(s.last())
    }
}

/// A sequence is well nested when no prefix closes more constructs than it
/// has opened, and every opened construct is closed by the end.
pub open spec fn well_nested(s: Seq<EventModel>) -> bool {
    net_depth(s) == 0 && forall|i: int| 0 <= i <= s.len() ==> net_depth(#[trigger] s.take(i)) >= 0
}

pub proof fn lemma_net_depth_take_step(s: Seq<EventModel>, i: int)
    requires
        0 <= i < s.len(),
    ensures
        net_depth(s.take(i + 1)) == net_depth(s.take(i)) + event_delta(s[i]),
{
    assert(s.take(i + 1).drop_last() =~= s.take(i));
    assert(s.take(i + 1).last() == s[i]);
}

} // verus!
