//! The event stream of a Markdown document, as the tokenizer hands it over.

use pulldown_cmark::{CodeBlockKind as K, Event as E, Tag as T};
use vstd::prelude::*;

verus! {

/// The kind of a container element, as far as the parsers of this library tell them apart.
#[derive(Clone, Debug)]
pub enum TagKind {
    Paragraph,
    /// A heading of level 1 to 6.
    Heading(u8),
    BlockQuote,
    /// A code block: the info string of a fenced block, `None` for an indented one.
    CodeBlock(Option<String>),
    /// A list; ordered lists carry the number of their first item.
    List(Option<u64>),
    Item,
    Emphasis,
    Strong,
    /// A link, with its destination.
    Link(String),
    Image,
    /// Elements that the tokenizer only emits with extensions switched on.
    Other,
}

/// What an event is.
#[derive(Clone, Debug)]
pub enum EventKind {
    Start(TagKind),
    End(TagKind),
    Text(String),
    Code(String),
    Html(String),
    SoftBreak,
    HardBreak,
    Rule,
    Other,
}

#[verifier::external_type_specification]
#[verifier::external_body]
pub struct ExCmarkEvent<'a>(pulldown_cmark::Event<'a>);

#[verifier::external_type_specification]
#[verifier::external_body]
pub struct ExCmarkTag<'a>(pulldown_cmark::Tag<'a>);

/// One event of a tokenized document: what it is, the byte offset in the source
/// where it starts, and the tokenizer's own value, which rendering writes back out.
pub struct MarkdownEvent<'a> {
    pub kind: EventKind,
    pub start: usize,
    pub raw: pulldown_cmark::Event<'a>,
}

/// Every heading event has a level from one to six.
pub open spec fn levels_ok(events: Seq<MarkdownEvent<'_>>) -> bool {
    forall|k: int|
        0 <= k < events.len() ==> match #[trigger] events[k].kind {
            EventKind::Start(TagKind::Heading(l)) => 1 <= l <= 6,
            EventKind::End(TagKind::Heading(l)) => 1 <= l <= 6,
            _ => true,
        }
}

/// The events that the tokenizer produces for a source text.
pub uninterp spec fn tokens_of(source: Seq<char>) -> Seq<MarkdownEvent<'static>>;

/// The Markdown text that the renderer writes for a sequence of events.
pub uninterp spec fn cmark_text(events: Seq<MarkdownEvent<'_>>) -> Seq<char>;

/// Relies on `pulldown_cmark::Parser` (no extensions), walked with byte offsets: the
/// events depend on the source text alone, and a heading's level is one of the six
/// variants of `pulldown_cmark::HeadingLevel`, numbered one to six.
#[verifier::external_body]
pub(crate) fn tokenize<'a>(source: &'a str) -> (r: Vec<MarkdownEvent<'a>>)
    ensures
        r@ == tokens_of(source@),
        levels_ok(r@),
{
    let mut events = Vec::new();
    for (raw, range) in pulldown_cmark::Parser::new(source).into_offset_iter() {
        events.push(MarkdownEvent { kind: kind_of(&raw), start: range.start, raw });
    }
    events
}

/// Relies on `pulldown_cmark_to_cmark::cmark_with_options`, with fences of three
/// backticks. Writing into a `String` cannot fail, so its result carries nothing.
#[verifier::external_body]
pub(crate) fn render(events: &[MarkdownEvent<'_>]) -> (r: String)
    ensures
        r@ == cmark_text(events@),
{
    let mut text = String::new();
    let options = pulldown_cmark_to_cmark::Options { code_block_token_count: 3, ..Default::default() };
    let _ = pulldown_cmark_to_cmark::cmark_with_options(events.iter().map(|e| &e.raw), &mut text, options);
    text
}

/// The text event that holds `text` and starts at byte `start`.
pub uninterp spec fn text_event_of(text: Seq<char>, start: usize) -> MarkdownEvent<'static>;

/// Relies on `pulldown_cmark::Event::Text`: a text event that holds `text`; the
/// event depends on `text` and `start` alone.
#[verifier::external_body]
pub(crate) fn text_event(text: &str, start: usize) -> (r: MarkdownEvent<'static>)
    ensures
        r == text_event_of(text@, start),
        r.kind is Text,
        r.kind->Text_0@ == text@,
        r.start == start,
{
    MarkdownEvent {
        kind: EventKind::Text(text.to_string()),
        start,
        raw: E::Text(text.to_string().into()),
    }
}

/// Relies on `Clone` of `pulldown_cmark::Event`, which is derived: the copy equals
/// the event it copies.
#[verifier::external_body]
pub(crate) fn copy_event<'a>(event: &MarkdownEvent<'a>) -> (r: MarkdownEvent<'a>)
    ensures
        r == *event,
{
    MarkdownEvent { kind: event.kind.clone(), start: event.start, raw: event.raw.clone() }
}

/// Tells the tokenizer's events apart, one arm for each kind.
#[verifier::external_body]
fn kind_of(event: &pulldown_cmark::Event<'_>) -> EventKind {
    match event {
        E::Start(tag) => EventKind::Start(tag_of(tag)),
        E::End(tag) => EventKind::End(tag_of(tag)),
        E::Text(text) => EventKind::Text(text.to_string()),
        E::Code(text) => EventKind::Code(text.to_string()),
        E::Html(text) => EventKind::Html(text.to_string()),
        E::SoftBreak => EventKind::SoftBreak,
        E::HardBreak => EventKind::HardBreak,
        E::Rule => EventKind::Rule,
        _ => EventKind::Other,
    }
}

/// Tells the tokenizer's tags apart, one arm for each kind that it emits without extensions.
#[verifier::external_body]
fn tag_of(tag: &pulldown_cmark::Tag<'_>) -> TagKind {
    match tag {
        T::Paragraph => TagKind::Paragraph,
        T::Heading(level, _, _) => TagKind::Heading(*level as u8),
        T::BlockQuote => TagKind::BlockQuote,
        T::CodeBlock(K::Fenced(info)) => TagKind::CodeBlock(Some(info.to_string())),
        T::CodeBlock(K::Indented) => TagKind::CodeBlock(None),
        T::List(first) => TagKind::List(*first),
        T::Item => TagKind::Item,
        T::Emphasis => TagKind::Emphasis,
        T::Strong => TagKind::Strong,
        T::Link(_, destination, _) => TagKind::Link(destination.to_string()),
        T::Image(..) => TagKind::Image,
        _ => TagKind::Other,
    }
}

} // verus!
