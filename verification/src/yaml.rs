//! The boundary to the YAML parser.
//!
//! The parser is the crate `yaml_rust`. The library asks it for one event
//! after the other and works on its own copies of them. Two things are taken
//! on trust, and nothing else: that what the parser gives out depends on the
//! characters it was made over alone, and that it comes to an end, with the
//! event that ends the stream or with a failure.

use std::vec::IntoIter;
use vstd::prelude::*;
use yaml_rust::parser::Parser;
use yaml_rust::ScanError;

verus! {

/// One event of a YAML stream.
#[derive(Clone, Debug, PartialEq, Eq)]
pub enum Event {
    /// No event; the parser keeps this one to itself.
    Nothing,
    /// The stream begins.
    StreamStart,
    /// The stream ends.
    StreamEnd,
    /// A document begins.
    DocumentStart,
    /// A document ends.
    DocumentEnd,
    /// A reference to the node with this anchor.
    Alias(usize),
    /// A scalar: its text, and its anchor (0 where it has none).
    Scalar(String, usize),
    /// A list begins; its anchor.
    SequenceStart(usize),
    /// A list ends.
    SequenceEnd,
    /// A mapping begins; its anchor.
    MappingStart(usize),
    /// A mapping ends.
    MappingEnd,
}

/// What an `Event` holds, as a mathematical value.
pub enum EventView {
    Nothing,
    StreamStart,
    StreamEnd,
    DocumentStart,
    DocumentEnd,
    Alias(usize),
    Scalar(Seq<char>, usize),
    SequenceStart(usize),
    SequenceEnd,
    MappingStart(usize),
    MappingEnd,
}

impl View for Event {
    type V = EventView;

    open spec fn view(&self) -> EventView {
        match *self {
            Event::Nothing => EventView::Nothing,
            Event::StreamStart => EventView::StreamStart,
            Event::StreamEnd => EventView::StreamEnd,
            Event::DocumentStart => EventView::DocumentStart,
            Event::DocumentEnd => EventView::DocumentEnd,
            Event::Alias(anchor) => EventView::Alias(anchor),
            Event::Scalar(text, anchor) => EventView::Scalar(text@, anchor),
            Event::SequenceStart(anchor) => EventView::SequenceStart(anchor),
            Event::SequenceEnd => EventView::SequenceEnd,
            Event::MappingStart(anchor) => EventView::MappingStart(anchor),
            Event::MappingEnd => EventView::MappingEnd,
        }
    }
}

/// The views of `events`, in order.
pub open spec fn views_of(events: Seq<Event>) -> Seq<EventView> {
    Seq::new(events.len(), |i: int| events[i]@)
}

/// `yaml_rust::parser::Parser`, taken as it is: nothing is said of what is
/// inside it.
#[verifier::external_type_specification]
#[verifier::external_body]
#[verifier::reject_recursive_types(T)]
pub struct ExParser<T>(Parser<T>);

/// `yaml_rust::ScanError`, taken as it is: nothing is said of what is
/// inside it.
#[verifier::external_type_specification]
#[verifier::external_body]
pub struct ExScanError(ScanError);

/// What the YAML parser gives out over the characters `source`, call by
/// call: an event, or `None` where it fails. The sequence ends with the
/// first event that ends the stream, or with the first failure.
pub uninterp spec fn yaml_outcomes(source: Seq<char>) -> Seq<Option<EventView>>;

/// What a parser has yet to give out, in the same terms.
pub uninterp spec fn pending(parser: Parser<IntoIter<char>>) -> Seq<Option<EventView>>;

/// The events that the YAML parser reads from `source`, from the one that
/// begins the stream to the one that ends it; `None` where it fails on the way.
pub open spec fn events_of(source: Seq<char>) -> Option<Seq<EventView>> {
    let outcomes = yaml_outcomes(source);
    if forall|i: int| 0 <= i < outcomes.len() ==> outcomes[i] is Some {
        Some(Seq::new(outcomes.len(), |i: int| outcomes[i]->Some_0))
    } else {
        None
    }
}

/// Calls `yaml_rust::parser::Parser::new` over the characters of `source`.
/// The parser reads nothing else, so what it will give out is a function of
/// these characters: the contract gives that function a name. It also says
/// that there is something to give out: the first call of `next` on a new
/// parser returns the event that begins the stream, or a failure.
#[verifier::external_body]
pub(crate) fn parser_over(source: Vec<char>) -> (parser: Parser<IntoIter<char>>)
    ensures
        pending(parser) == yaml_outcomes(source@),
        pending(parser).len() > 0,
{
    Parser::new(source.into_iter())
}

/// Calls `yaml_rust::parser::Parser::next` and copies the event it returns:
/// each variant into the variant of the same name, leaving out the position
/// and, of a scalar, the style and the tag. The contract says that the call
/// gives out the first of what was pending and leaves the rest, and that
/// nothing is left exactly after the event that ends the stream and after a
/// failure.
#[verifier::external_body]
pub(crate) fn next_event(parser: &mut Parser<IntoIter<char>>) -> (event: Result<Event, ScanError>)
    requires
        pending(*old(parser)).len() > 0,
    ensures
        pending(*final(parser)) == pending(*old(parser)).drop_first(),
        match event {
            Ok(found) => pending(*old(parser))[0] == Some(found@),
            Err(_) => pending(*old(parser))[0] is None,
        },
        pending(*final(parser)).len() == 0 <==> (event is Err || event matches Ok(
            Event::StreamEnd,
        )),
{
    let (event, _) = parser.next()?;
    Ok(match event {
        yaml_rust::Event::Nothing => Event::Nothing,
        yaml_rust::Event::StreamStart => Event::StreamStart,
        yaml_rust::Event::StreamEnd => Event::StreamEnd,
        yaml_rust::Event::DocumentStart => Event::DocumentStart,
        yaml_rust::Event::DocumentEnd => Event::DocumentEnd,
        yaml_rust::Event::Alias(anchor) => Event::Alias(anchor),
        yaml_rust::Event::Scalar(text, _, anchor, _) => Event::Scalar(text, anchor),
        yaml_rust::Event::SequenceStart(anchor) => Event::SequenceStart(anchor),
        yaml_rust::Event::SequenceEnd => Event::SequenceEnd,
        yaml_rust::Event::MappingStart(anchor) => Event::MappingStart(anchor),
        yaml_rust::Event::MappingEnd => Event::MappingEnd,
    })
}

} // verus!
