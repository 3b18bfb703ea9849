//! Walking an event stream: looking for the next event of a kind, and telling
//! where in the source an event stands.

use vstd::prelude::*;
use vstd::string::StringSliceAdditionalSpecFns;

use crate::markdown::{EventKind, MarkdownEvent, TagKind};
use crate::metadata::{is_metadata_block, is_metadata_info};

verus! {

/// A kind of event that ends a run of events.
#[derive(Clone, Copy)]
pub enum Boundary {
    /// The start of a heading of any level.
    HeadingStart,
    /// The end of a heading of any level.
    HeadingEnd,
    /// The end of a level-one heading.
    TitleEnd,
    /// The end of a link.
    LinkEnd,
    /// The end of a fenced code block.
    FenceEnd,
    /// The start of a fenced code block whose info string marks it as metadata.
    MetadataStart,
}

/// Whether event `e` is of the kind `b`.
pub open spec fn at_boundary(b: Boundary, e: MarkdownEvent<'_>) -> bool {
    match b {
        Boundary::HeadingStart => e.kind matches EventKind::Start(TagKind::Heading(_)),
        Boundary::HeadingEnd => e.kind matches EventKind::End(TagKind::Heading(_)),
        Boundary::TitleEnd => e.kind == EventKind::End(TagKind::Heading(1)),
        Boundary::LinkEnd => e.kind matches EventKind::End(TagKind::Link(_)),
        Boundary::FenceEnd => e.kind matches EventKind::End(TagKind::CodeBlock(Some(_))),
        Boundary::MetadataStart => e.kind matches EventKind::Start(TagKind::CodeBlock(Some(info)))
            && is_metadata_info(info@),
    }
}

/// The index of the first event at or after `from` of the kind `b`, or the length
/// of the stream where there is none.
pub open spec fn scan(events: Seq<MarkdownEvent<'_>>, from: int, b: Boundary) -> int
    decreases events.len() - from,
{
    if from >= events.len() {
        events.len() as int
    } else if from >= 0 && at_boundary(b, events[from]) {
        from
    } else {
        scan(events, from + 1, b)
    }
}

/// A scan ends at or after where it starts, and within the stream.
pub proof fn lemma_scan_bounds(events: Seq<MarkdownEvent<'_>>, from: int, b: Boundary)
    requires
        0 <= from <= events.len(),
    ensures
        from <= scan(events, from, b) <= events.len(),
        scan(events, from, b) < events.len() ==> at_boundary(b, events[scan(events, from, b)]),
        forall|k: int| from <= k < scan(events, from, b) ==> !at_boundary(b, #[trigger] events[k]),
    decreases events.len() - from,
{
    if from < events.len() && !at_boundary(b, events[from]) {
        lemma_scan_bounds(events, from + 1, b);
    }
}

/// Whether event `e` is of the kind `b`.
pub fn is_at_boundary(b: Boundary, e: &MarkdownEvent<'_>) -> (r: bool)
    ensures
        r == at_boundary(b, *e),
{
    match b {
        Boundary::HeadingStart => matches!(e.kind, EventKind::Start(TagKind::Heading(_))),
        Boundary::HeadingEnd => matches!(e.kind, EventKind::End(TagKind::Heading(_))),
        Boundary::TitleEnd => match &e.kind {
            EventKind::End(TagKind::Heading(level)) => *level == 1,
            _ => false,
        },
        Boundary::LinkEnd => matches!(e.kind, EventKind::End(TagKind::Link(_))),
        Boundary::FenceEnd => matches!(e.kind, EventKind::End(TagKind::CodeBlock(Some(_)))),
        Boundary::MetadataStart => match &e.kind {
            EventKind::Start(TagKind::CodeBlock(Some(info))) => is_metadata_block(info.as_str()),
            _ => false,
        },
    }
}

/// The index of the first event at or after `from` of the kind `b`, or the length
/// of the stream where there is none.
pub fn find_boundary(events: &[MarkdownEvent<'_>], from: usize, b: Boundary) -> (r: usize)
    requires
        from <= events@.len(),
    ensures
        r == scan(events@, from as int, b),
        from <= r <= events@.len(),
{
    proof {
        lemma_scan_bounds(events@, from as int, b);
    }
    let mut k = from;
    while k < events.len() && !is_at_boundary(b, &events[k])
        invariant
            from <= k <= events@.len(),
            scan(events@, k as int, b) == scan(events@, from as int, b),
        decreases events@.len() - k,
    {
        k = k + 1;
    }
    k
}

/// A line and a column in a source text, both counted from one for the line and
/// from zero for the column.
#[derive(Debug, Clone, Copy, PartialEq, Eq, Structural)]
pub struct Position {
    pub line: usize,
    pub column: usize,
}

/// The number of newline bytes in `b`.
pub open spec fn newlines(b: Seq<u8>) -> nat
    decreases b.len(),
{
    if b.len() == 0 {
        0
    } else {
        newlines(b.drop_last()) + if b.last() == 10u8 { 1nat } else { 0nat }
    }
}

/// The number of characters after the last newline in `b` (all of them where there
/// is none): the bytes that do not continue a multi-byte character.
pub open spec fn column_of(b: Seq<u8>) -> nat
    decreases b.len(),
{
    if b.len() == 0 {
        0
    } else if b.last() == 10u8 {
        0
    } else {
        column_of(b.drop_last()) + if b.last() & 0xC0u8 == 0x80u8 { 0nat } else { 1nat }
    }
}

/// The position of byte `offset` in `source` (of its end, where `offset` lies past it):
/// one more than the newlines before it, and the characters since the last of them.
/// A line count past `usize::MAX` stays there.
pub open spec fn position_of(source: Seq<u8>, offset: int) -> Position {
    let b = source.subrange(0, if offset < source.len() { offset } else { source.len() as int });
    Position {
        line: if newlines(b) + 1 > usize::MAX { usize::MAX } else { (newlines(b) + 1) as usize },
        column: column_of(b) as usize,
    }
}

/// The byte offset at which the last consumed event starts, where `index` events
/// have been consumed.
pub open spec fn consumed_offset(events: Seq<MarkdownEvent<'_>>, index: int) -> int {
    if 0 < index <= events.len() {
        events[index - 1].start as int
    } else {
        0
    }
}

/// The position of byte `offset` in `source`.
pub fn position(source: &str, offset: usize) -> (r: Position)
    ensures
        r == position_of(source.spec_bytes(), offset as int),
{
    let bytes = source.as_bytes();
    let end = if offset < bytes.len() { offset } else { bytes.len() };
    let mut line: usize = 1;
    let mut column: usize = 0;
    let mut k: usize = 0;
    while k < end
        invariant
            k <= end <= bytes@.len(),
            bytes@ == source.spec_bytes(),
            end as int == if offset < bytes@.len() { offset as int } else { bytes@.len() as int },
            line == if newlines(bytes@.subrange(0, k as int)) + 1 > usize::MAX { usize::MAX } else {
                (newlines(bytes@.subrange(0, k as int)) + 1) as usize
            },
            column == column_of(bytes@.subrange(0, k as int)),
            column <= k,
        decreases end - k,
    {
        let b = bytes[k];
        let ghost prefix = bytes@.subrange(0, k as int);
        assert(bytes@.subrange(0, k + 1).drop_last() =~= prefix);
        if b == 10u8 {
            line = line.saturating_add(1);
            column = 0;
        } else if b & 0xC0u8 != 0x80u8 {
            column = column + 1;
        }
        k = k + 1;
    }
    Position { line, column }
}

} // verus!
