//! Directives of the form `{{#keyword ...}}` in an entry's raw text, expanded
//! before the text is parsed.

use vstd::prelude::*;

use crate::entry::JournalEntry;
use crate::text::{chars_of, find_chars, find_from, occurs_at, starts_with_at, string_of, trim, trimmed};

verus! {

/// A piece of an entry's text once its directives are found.
#[derive(Debug, PartialEq, Eq)]
pub enum Segment {
    /// Text that stands as it is.
    Text(String),
    /// The contents of the file at this path, relative to the entry's directory.
    Include(String),
}

/// A segment as a mathematical value.
pub enum SegmentView {
    Text(Seq<char>),
    Include(Seq<char>),
}

/// The value of a segment.
pub open spec fn segment_view(s: Segment) -> SegmentView {
    match s {
        Segment::Text(t) => SegmentView::Text(t@),
        Segment::Include(p) => SegmentView::Include(p@),
    }
}

/// An entry's text with its directives found: the pieces in order, and the title
/// that the last title directive gives, if any.
#[derive(Debug, PartialEq, Eq)]
pub struct Expansion {
    pub segments: Vec<Segment>,
    pub title: Option<String>,
}

/// Why directives could not be expanded.
#[derive(Debug, Clone, Copy, PartialEq, Eq, Structural)]
pub enum DirectiveError {
    /// An opening marker has no closing marker after it.
    Unclosed,
    /// A closing marker stands before the next opening marker.
    CloseBeforeOpen,
}

/// The opening marker.
pub open spec fn open_marker() -> Seq<char> {
    seq!['{', '{', '#']
}

/// The closing marker.
pub open spec fn close_marker() -> Seq<char> {
    seq!['}', '}']
}

/// The keyword of a title directive.
pub open spec fn title_word() -> Seq<char> {
    seq!['t', 'i', 't', 'l', 'e']
}

/// The keyword of an include directive.
pub open spec fn include_word() -> Seq<char> {
    seq!['i', 'n', 'c', 'l', 'u', 'd', 'e']
}

/// The values of the segments of `v`.
pub open spec fn segments_view(v: Seq<Segment>) -> Seq<SegmentView> {
    v.map_values(|s: Segment| segment_view(s))
}

/// The value of an optional string.
pub open spec fn opt_chars(s: Option<String>) -> Option<Seq<char>> {
    match s {
        Some(t) => Some(t@),
        None => None,
    }
}

/// Expands the directives of `s` from index `at` on, after the segments `acc` and
/// with the title so far `title`. Each opening marker needs a closing marker, found
/// by a search from `at` that does not wait for the opening one; where that comes
/// first, the scan fails. The text between the markers starting with `title` sets
/// the title (the rest, trimmed) and leaves nothing; starting with `include`, it
/// stands for the file named by the rest, trimmed; anything else stays as written.
pub open spec fn expand_from(
    s: Seq<char>,
    at: int,
    acc: Seq<SegmentView>,
    title: Option<Seq<char>>,
) -> Result<(Seq<SegmentView>, Option<Seq<char>>), DirectiveError>
    decreases s.len() - at,
{
    if at < 0 || at > s.len() {
        Ok((acc, title))
    } else {
        match find_from(s, open_marker(), at) {
            None => Ok((acc.push(SegmentView::Text(s.subrange(at, s.len() as int))), title)),
            Some(start) => match find_from(s, close_marker(), at) {
                None => Err(DirectiveError::Unclosed),
                Some(close) => if start >= close + 2 {
                    Err(DirectiveError::CloseBeforeOpen)
                } else if start < at || close < start + 3 || close + 2 > s.len() {
                    Ok((acc, title))
                } else {
                    let end = close + 2;
                    let inner = s.subrange(start + 3, close);
                    let before = acc.push(SegmentView::Text(s.subrange(at, start)));
                    if occurs_at(inner, title_word(), 0) {
                        expand_from(s, end, before, Some(trim(inner.subrange(5, inner.len() as int))))
                    } else if occurs_at(inner, include_word(), 0) {
                        expand_from(
                            s,
                            end,
                            before.push(SegmentView::Include(trim(inner.subrange(7, inner.len() as int)))),
                            title,
                        )
                    } else {
                        expand_from(s, end, before.push(SegmentView::Text(s.subrange(start, end))), title)
                    }
                },
            },
        }
    }
}

/// Expands the directives of an entry's raw text.
pub open spec fn expansion_of(s: Seq<char>) -> Result<(Seq<SegmentView>, Option<Seq<char>>), DirectiveError> {
    expand_from(s, 0, Seq::empty(), None)
}

/// Finds the directives of an entry's raw text: the text between them, the files
/// they include, and the title that the last title directive gives.
pub fn expand_directives(body: &str) -> (r: Result<Expansion, DirectiveError>)
    ensures
        match expansion_of(body@) {
            Ok((segments, title)) => r is Ok && segments_view(r->Ok_0.segments@) == segments
                && opt_chars(r->Ok_0.title) == title,
            Err(e) => r == Err::<Expansion, DirectiveError>(e),
        },
{
    let s = chars_of(body);
    let n = s.len();
    let open = chars_of("{{#");
    let close = chars_of("}}");
    let title_kw = chars_of("title");
    let include_kw = chars_of("include");
    proof {
        reveal_strlit("{{#");
        reveal_strlit("}}");
        reveal_strlit("title");
        reveal_strlit("include");
        assert(open@ =~= open_marker());
        assert(close@ =~= close_marker());
        assert(title_kw@ =~= title_word());
        assert(include_kw@ =~= include_word());
    }
    let mut segments: Vec<Segment> = Vec::new();
    let mut title: Option<String> = None;
    let mut at: usize = 0;
    assert(segments_view(segments@) =~= Seq::empty());
    loop
        invariant
            n == s@.len(),
            s@ == body@,
            at <= n,
            open@ == open_marker(),
            close@ == close_marker(),
            title_kw@ == title_word(),
            include_kw@ == include_word(),
            expand_from(s@, at as int, segments_view(segments@), opt_chars(title)) == expansion_of(body@),
        decreases n - at,
    {
        let ghost acc = segments@;
        let start = match find_chars(s.as_slice(), open.as_slice(), at) {
            None => {
                segments.push(Segment::Text(string_of(&s.as_slice()[at..n])));
                assert(segments_view(segments@) =~= segments_view(acc).push(
                    SegmentView::Text(s@.subrange(at as int, n as int)),
                ));
                return Ok(Expansion { segments, title });
            },
            Some(start) => start,
        };
        let end_mark = match find_chars(s.as_slice(), close.as_slice(), at) {
            None => {
                return Err(DirectiveError::Unclosed);
            },
            Some(c) => c,
        };
        if start >= end_mark + 2 {
            return Err(DirectiveError::CloseBeforeOpen);
        }
        if end_mark < start + 3 {
            return Ok(Expansion { segments, title });
        }
        let end = end_mark + 2;
        let inner_chars = &s.as_slice()[start + 3..end_mark];
        let ghost inner = s@.subrange(start + 3, end_mark as int);
        assert(inner_chars@ == inner);
        segments.push(Segment::Text(string_of(&s.as_slice()[at..start])));
        let ghost before = segments@;
        assert(segments_view(before) =~= segments_view(acc).push(
            SegmentView::Text(s@.subrange(at as int, start as int)),
        ));
        if starts_with_at(inner_chars, title_kw.as_slice(), 0) {
            let t = trimmed(&inner_chars[5..inner_chars.len()]);
            title = Some(string_of(t.as_slice()));
        } else if starts_with_at(inner_chars, include_kw.as_slice(), 0) {
            let p = trimmed(&inner_chars[7..inner_chars.len()]);
            segments.push(Segment::Include(string_of(p.as_slice())));
            assert(segments_view(segments@) =~= segments_view(before).push(
                SegmentView::Include(trim(inner.subrange(7, inner.len() as int))),
            ));
        } else {
            segments.push(Segment::Text(string_of(&s.as_slice()[start..end])));
            assert(segments_view(segments@) =~= segments_view(before).push(
                SegmentView::Text(s@.subrange(start as int, end as int)),
            ));
        }
        at = end;
    }
}

/// The text made of the segments in order, each include replaced by the next of
/// `contents` (by nothing, where they have run out).
pub open spec fn joined(segments: Seq<SegmentView>, contents: Seq<Seq<char>>) -> Seq<char>
    decreases segments.len(),
{
    if segments.len() == 0 {
        Seq::empty()
    } else {
        match segments[0] {
            SegmentView::Text(t) => t + joined(segments.drop_first(), contents),
            SegmentView::Include(_) => if contents.len() > 0 {
                contents[0] + joined(segments.drop_first(), contents.drop_first())
            } else {
                joined(segments.drop_first(), contents)
            },
        }
    }
}

/// The values of some strings.
pub open spec fn strings_view(v: Seq<String>) -> Seq<Seq<char>> {
    v.map_values(|s: String| s@)
}

impl Expansion {
    /// The text of the expansion, with the contents of the included files, in the
    /// order in which they are included, put in place of the include directives.
    pub fn assemble(&self, contents: &[String]) -> (r: String)
        ensures
            r@ == joined(segments_view(self.segments@), strings_view(contents@)),
    {
        let ghost segs = segments_view(self.segments@);
        let ghost all = strings_view(contents@);
        let mut out: Vec<char> = Vec::new();
        let mut k: usize = 0;
        let mut j: usize = 0;
        assert(segs.subrange(0, segs.len() as int) =~= segs);
        assert(all.subrange(0, all.len() as int) =~= all);
        while k < self.segments.len()
            invariant
                segs == segments_view(self.segments@),
                all == strings_view(contents@),
                k <= segs.len(),
                j <= all.len(),
                out@ + joined(segs.subrange(k as int, segs.len() as int), all.subrange(j as int, all.len() as int))
                    == joined(segs, all),
            decreases segs.len() - k,
        {
            let ghost rest = segs.subrange(k as int, segs.len() as int);
            let ghost more = all.subrange(j as int, all.len() as int);
            assert(rest.drop_first() =~= segs.subrange(k + 1, segs.len() as int));
            assert(rest[0] == segment_view(self.segments@[k as int]));
            match &self.segments[k] {
                Segment::Text(t) => {
                    let mut c = chars_of(t.as_str());
                    out.append(&mut c);
                },
                Segment::Include(_) => {
                    if j < contents.len() {
                        assert(more[0] == contents@[j as int]@);
                        assert(more.drop_first() =~= all.subrange(j + 1, all.len() as int));
                        let mut c = chars_of(contents[j].as_str());
                        out.append(&mut c);
                        j = j + 1;
                    }
                },
            }
            k = k + 1;
            assert(out@ + joined(segs.subrange(k as int, segs.len() as int), all.subrange(j as int, all.len() as int))
                =~= joined(segs, all));
        }
        assert(out@ =~= out@ + joined(segs.subrange(k as int, segs.len() as int), all.subrange(j as int, all.len() as int)));
        string_of(out.as_slice())
    }
}

impl JournalEntry {
    /// Applies an expansion of the entry's body: the body becomes the assembled text,
    /// and a title directive, where there was one, gives the entry its title.
    pub fn apply_expansion(&mut self, expansion: &Expansion, contents: &[String])
        ensures
            final(self).body is Some,
            final(self).body->Some_0@ == joined(segments_view(expansion.segments@), strings_view(contents@)),
            final(self).title@ == match expansion.title {
                Some(t) => t@,
                None => old(self).title@,
            },
            final(self).sections == old(self).sections,
            final(self).path == old(self).path,
            final(self).level == old(self).level,
    {
        self.body = Some(expansion.assemble(contents));
        match &expansion.title {
            Some(t) => {
                self.title = t.clone();
            },
            None => {},
        }
    }
}

} // verus!
