use pulldown_cmark::{CodeBlockKind, Event, Parser, Tag, TagEnd};
use vstd::prelude::*;

verus! {

/// Declares pulldown_cmark's event type so that values of it can be carried
/// through this library opaquely.
#[verifier::external_type_specification]
#[verifier::external_body]
pub struct ExEvent<'a>(Event<'a>);

/// The structural events of a parsed markdown document, as far as this
/// library reads them. Everything the pipeline never inspects is carried
/// through opaquely in `Other`, so that re-serialization stays faithful.
pub enum MdEvent {
    /// Start of a code block; `Some(language)` for a fenced block,
    /// `None` for an indented one.
    CodeBlockStart(Option<String>),
    /// End of a code block.
    CodeBlockEnd,
    /// A text run.
    Text(String),
    /// An inline HTML run.
    InlineHtml(String),
    /// Any other markdown event, untouched.
    Other(pulldown_cmark::Event<'static>),
}

/// The mathematical model of an `MdEvent`: the text it carries, as a
/// character sequence. Opaque events keep their value.
pub enum EvModel {
    CodeBlockStart(Option<Seq<char>>),
    CodeBlockEnd,
    Text(Seq<char>),
    InlineHtml(Seq<char>),
    Other(pulldown_cmark::Event<'static>),
}

impl View for MdEvent {
    type V = EvModel;

    open spec fn view(&self) -> EvModel {
        match self {
            MdEvent::CodeBlockStart(l) => EvModel::CodeBlockStart(
                match l {
                    Some(s) => Some(s@),
                    None => None,
                },
            ),
            MdEvent::CodeBlockEnd => EvModel::CodeBlockEnd,
            MdEvent::Text(s) => EvModel::Text(s@),
            MdEvent::InlineHtml(s) => EvModel::InlineHtml(s@),
            MdEvent::Other(e) => EvModel::Other(*e),
        }
    }
}

/// The models of a sequence of events.
pub open spec fn models(s: Seq<MdEvent>) -> Seq<EvModel> {
    s.map_values(|e: MdEvent| e@)
}

/// What pulldown_cmark's parser produces on a document, under the model
/// above; a function of the document text alone.
pub uninterp spec fn events_of(s: Seq<char>) -> Seq<EvModel>;

/// What pulldown_cmark_to_cmark's serializer produces on an event sequence;
/// a function of the events alone.
pub uninterp spec fn render_of(es: Seq<EvModel>) -> Seq<char>;

/// Whether pulldown_cmark_to_cmark's serializer accepts an event sequence;
/// with fixed options this too is a function of the events alone.
pub uninterp spec fn render_ok(es: Seq<EvModel>) -> bool;

/// Relies on pulldown_cmark::Parser::new: parses markdown into its event
/// sequence, deterministically in the text. Code-block boundaries, text and
/// inline-HTML runs are read by this library; all other events are carried
/// opaquely.
#[verifier::external_body]
pub fn parse_events(s: &str) -> (r: Vec<MdEvent>)
    ensures
        models(r@) == events_of(s@),
{
    Parser::new(s).map(
        |e| match e {
            Event::Start(Tag::CodeBlock(CodeBlockKind::Fenced(l))) => MdEvent::CodeBlockStart(
                Some(l.to_string()),
            ),
            Event::Start(Tag::CodeBlock(CodeBlockKind::Indented)) => MdEvent::CodeBlockStart(None),
            Event::End(TagEnd::CodeBlock) => MdEvent::CodeBlockEnd,
            Event::Text(t) => MdEvent::Text(t.to_string()),
            Event::InlineHtml(h) => MdEvent::InlineHtml(h.to_string()),
            other => MdEvent::Other(other.into_static()),
        },
    ).collect()
}

/// Relies on pulldown_cmark_to_cmark::cmark: re-serializes an event sequence
/// to markdown, deterministically in the events; returns an error on event
/// sequences that valid markdown cannot produce, and whether it does is
/// determined by the events.
#[verifier::external_body]
pub fn render_events(events: &Vec<MdEvent>) -> (r: Option<String>)
    ensures
        r is Some <==> render_ok(models(events@)),
        r matches Some(s) ==> s@ == render_of(models(events@)),
{
    let it = events.iter().map(|e| match e {
        MdEvent::CodeBlockStart(Some(l)) => Event::Start(
            Tag::CodeBlock(CodeBlockKind::Fenced(l.clone().into())),
        ),
        MdEvent::CodeBlockStart(None) => Event::Start(Tag::CodeBlock(CodeBlockKind::Indented)),
        MdEvent::CodeBlockEnd => Event::End(TagEnd::CodeBlock),
        MdEvent::Text(t) => Event::Text(t.clone().into()),
        MdEvent::InlineHtml(h) => Event::InlineHtml(h.clone().into()),
        MdEvent::Other(e) => e.clone(),
    });
    let mut buf = String::new();
    match pulldown_cmark_to_cmark::cmark(it, &mut buf, pulldown_cmark::Options::empty()) {
        Ok(_) => Some(buf),
        Err(_) => None,
    }
}

} // verus!
