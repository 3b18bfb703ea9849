//! Journal entries and the tree of sections that their headings make.

use vstd::prelude::*;

use crate::cursor::{find_boundary, lemma_scan_bounds, scan, Boundary};
use crate::markdown::{cmark_text, levels_ok, render, tokenize, tokens_of, EventKind, MarkdownEvent, TagKind};

verus! {

broadcast use vstd::std_specs::vec::axiom_vec_index_decreases;

/// The level of a heading, from one to six.
#[derive(Debug, Clone, Copy, PartialEq, Eq, Structural)]
pub enum SectionLevel {
    H1,
    H2,
    H3,
    H4,
    H5,
    H6,
}

/// The number of a heading level.
pub open spec fn level_number(level: SectionLevel) -> u8 {
    match level {
        SectionLevel::H1 => 1,
        SectionLevel::H2 => 2,
        SectionLevel::H3 => 3,
        SectionLevel::H4 => 4,
        SectionLevel::H5 => 5,
        SectionLevel::H6 => 6,
    }
}

impl SectionLevel {
    /// The level of a heading of the given number; numbers past six count as six.
    pub fn from_number(n: u8) -> (r: SectionLevel)
        requires
            1 <= n,
        ensures
            n <= 6 ==> level_number(r) == n,
            n > 6 ==> r == SectionLevel::H6,
    {
        if n <= 1 {
            SectionLevel::H1
        } else if n == 2 {
            SectionLevel::H2
        } else if n == 3 {
            SectionLevel::H3
        } else if n == 4 {
            SectionLevel::H4
        } else if n == 5 {
            SectionLevel::H5
        } else {
            SectionLevel::H6
        }
    }
}

/// The language and the text of one metadata block.
#[derive(Debug, PartialEq, Eq)]
pub struct SectionMetadata {
    pub lang: String,
    pub data: String,
}

/// The text under one heading: its own body and the sections nested below it.
#[derive(Debug, PartialEq, Eq)]
pub struct Section {
    /// The title given by the heading.
    pub title: String,
    /// The heading level.
    pub level: SectionLevel,
    /// The text that follows the heading, without that of nested or following sections.
    pub body: String,
    /// The metadata blocks lifted out of the body, by key; keys are unique.
    pub metadata: Vec<(String, SectionMetadata)>,
    /// The sections nested below this one.
    pub sections: Vec<Section>,
}

impl Default for SectionLevel {
    /// The first level.
    fn default() -> (r: SectionLevel)
        ensures
            r == SectionLevel::H1,
    {
        SectionLevel::H1
    }
}

impl Default for Section {
    /// An empty level-one section.
    fn default() -> (r: Section)
        ensures
            r.title@.len() == 0,
            r.level == SectionLevel::H1,
            r.body@.len() == 0,
            r.metadata@.len() == 0,
            r.sections@.len() == 0,
    {
        Section {
            title: String::new(),
            level: SectionLevel::H1,
            body: String::new(),
            metadata: Vec::new(),
            sections: Vec::new(),
        }
    }
}

/// A section as a mathematical value.
pub struct SectionView {
    pub title: Seq<char>,
    pub level: u8,
    pub body: Seq<char>,
    pub metadata: Seq<(Seq<char>, Seq<char>, Seq<char>)>,
    pub sections: Seq<SectionView>,
}

/// The metadata entries as key, language and data.
pub open spec fn metadata_view(m: Seq<(String, SectionMetadata)>) -> Seq<(Seq<char>, Seq<char>, Seq<char>)> {
    m.map_values(|e: (String, SectionMetadata)| (e.0@, e.1.lang@, e.1.data@))
}

/// The value of a section.
pub open spec fn section_view(s: Section) -> SectionView
    decreases s, 1int,
{
    SectionView {
        title: s.title@,
        level: level_number(s.level),
        body: s.body@,
        metadata: metadata_view(s.metadata@),
        sections: sections_view(s.sections, s.sections.len() as int),
    }
}

/// The values of the first `n` sections of `v`.
pub open spec fn sections_view(v: Vec<Section>, n: int) -> Seq<SectionView>
    decreases v, n,
{
    if n <= 0 || n > v.len() {
        Seq::empty()
    } else {
        sections_view(v, n - 1).push(section_view(v[n - 1]))
    }
}

/// The values of all sections of `v`.
pub open spec fn all_sections(v: Vec<Section>) -> Seq<SectionView> {
    sections_view(v, v.len() as int)
}

/// A journal entry: one source file, and once parsed, its sections.
#[derive(Debug, PartialEq, Eq)]
pub struct JournalEntry {
    /// The title of the entry.
    pub title: String,
    /// Before parsing, the whole text of the file; after, the text that precedes
    /// the first heading, or `None` where that is empty.
    pub body: Option<String>,
    /// The top-level sections of the entry.
    pub sections: Vec<Section>,
    /// Where the entry's file lies, relative to the journal's source directory.
    pub path: Option<String>,
    /// How deep the entry stands in the table of contents.
    pub level: u8,
}

impl Default for JournalEntry {
    /// An entry with an empty title and nothing else.
    fn default() -> (r: JournalEntry)
        ensures
            r.title@.len() == 0,
            r.body is None,
            r.sections@.len() == 0,
            r.path is None,
            r.level == 0,
    {
        JournalEntry { title: String::new(), body: None, sections: Vec::new(), path: None, level: 0 }
    }
}

/// Why an entry could not be parsed.
#[derive(Debug)]
pub enum ParseError {
    /// The entry has no file path, and one of its directives needs it.
    NoPath,
}

/// The level of the heading that starts at index `k`, if one does.
pub open spec fn heading_at(events: Seq<MarkdownEvent<'_>>, k: int) -> Option<u8> {
    if 0 <= k < events.len() {
        match events[k].kind {
            EventKind::Start(TagKind::Heading(l)) => Some(l),
            _ => None,
        }
    } else {
        None
    }
}

/// The section of level `level` whose heading starts just before index `i`, and the
/// index where the events after it begin. The title runs to the heading's end; the
/// body runs from there to the next heading; then every heading of a greater level
/// begins a nested section, until one of a level not greater, or the end.
pub open spec fn section_from(events: Seq<MarkdownEvent<'_>>, level: u8, i: int) -> (SectionView, int)
    decreases events.len() - i, 1int,
{
    let title_end = scan(events, i, Boundary::HeadingEnd);
    let body_start = if title_end < events.len() { title_end + 1 } else { title_end };
    let body_end = scan(events, body_start, Boundary::HeadingStart);
    let (children, next) = if i < 0 || body_end < i || body_end > events.len() {
        (Seq::empty(), body_end)
    } else {
        children_from(events, level, body_end)
    };
    (
        SectionView {
            title: cmark_text(events.subrange(i, title_end)),
            level,
            body: cmark_text(events.subrange(body_start, body_end)),
            metadata: Seq::empty(),
            sections: children,
        },
        next,
    )
}

/// The sections nested below a section of level `level`, from index `k` on, and the
/// index where the events after them begin.
pub open spec fn children_from(events: Seq<MarkdownEvent<'_>>, level: u8, k: int) -> (Seq<SectionView>, int)
    decreases events.len() - k, 0int,
{
    match heading_at(events, k) {
        Some(l) => if l > level {
            let (child, next) = section_from(events, l, k + 1);
            if next <= k || next > events.len() {
                (seq![child], next)
            } else {
                let (rest, end) = children_from(events, level, next);
                (seq![child] + rest, end)
            }
        } else {
            (Seq::empty(), k)
        },
        None => (Seq::empty(), k),
    }
}

/// The top-level sections from index `k` on: each heading starts one; other events
/// at this scope are passed over.
pub open spec fn top_sections(events: Seq<MarkdownEvent<'_>>, k: int) -> Seq<SectionView>
    decreases events.len() - k,
{
    if k < 0 || k >= events.len() {
        Seq::empty()
    } else {
        match heading_at(events, k) {
            Some(l) => {
                let (section, next) = section_from(events, l, k + 1);
                if next <= k || next > events.len() {
                    seq![section]
                } else {
                    seq![section] + top_sections(events, next)
                }
            },
            None => top_sections(events, k + 1),
        }
    }
}

/// Where the text before the first heading ends.
pub open spec fn preamble_end(events: Seq<MarkdownEvent<'_>>) -> int {
    scan(events, 0, Boundary::HeadingStart)
}

/// The text before the first heading, or `None` where it is empty.
pub open spec fn preamble(events: Seq<MarkdownEvent<'_>>) -> Option<Seq<char>> {
    let text = cmark_text(events.subrange(0, preamble_end(events)));
    if text.len() == 0 {
        None
    } else {
        Some(text)
    }
}

/// The value of an optional string.
pub open spec fn opt_view(s: Option<String>) -> Option<Seq<char>> {
    match s {
        Some(t) => Some(t@),
        None => None,
    }
}

/// Each section of the run has a level no greater than the one before it.
pub open spec fn non_increasing(sections: Seq<SectionView>) -> bool {
    forall|j: int| 0 < j < sections.len() ==> #[trigger] sections[j].level <= sections[j - 1].level
}

/// Every section below `s` has a level strictly greater than its parent's, and the
/// children of each section follow one another with levels that never increase.
pub open spec fn well_nested(s: SectionView) -> bool
    decreases s,
{
    &&& non_increasing(s.sections)
    &&& forall|j: int|
        0 <= j < s.sections.len() ==> #[trigger] s.sections[j].level > s.level && well_nested(s.sections[j])
}

/// A run of sections that follow one another at one scope, each well nested, with
/// levels that never increase.
pub open spec fn well_nested_run(sections: Seq<SectionView>) -> bool {
    &&& non_increasing(sections)
    &&& forall|j: int| 0 <= j < sections.len() ==> well_nested(#[trigger] sections[j])
}

/// Index `k` is the end of the stream or the start of a heading.
pub open spec fn at_heading_or_end(events: Seq<MarkdownEvent<'_>>, k: int) -> bool {
    k == events.len() || heading_at(events, k) is Some
}

proof fn lemma_section_from(events: Seq<MarkdownEvent<'_>>, level: u8, i: int)
    requires
        0 <= i <= events.len(),
    ensures
        section_from(events, level, i).0.level == level,
        well_nested(section_from(events, level, i).0),
        i <= section_from(events, level, i).1 <= events.len(),
        at_heading_or_end(events, section_from(events, level, i).1),
        section_from(events, level, i).1 < events.len()
            ==> heading_at(events, section_from(events, level, i).1)->Some_0 <= level,
    decreases events.len() - i, 1int,
{
    let title_end = scan(events, i, Boundary::HeadingEnd);
    lemma_scan_bounds(events, i, Boundary::HeadingEnd);
    let body_start = if title_end < events.len() { title_end + 1 } else { title_end };
    let body_end = scan(events, body_start, Boundary::HeadingStart);
    lemma_scan_bounds(events, body_start, Boundary::HeadingStart);
    lemma_children_from(events, level, body_end);
}

proof fn lemma_children_from(events: Seq<MarkdownEvent<'_>>, level: u8, k: int)
    requires
        0 <= k <= events.len(),
        at_heading_or_end(events, k),
    ensures
        ({
            let (children, end) = children_from(events, level, k);
            &&& well_nested_run(children)
            &&& forall|j: int| 0 <= j < children.len() ==> #[trigger] children[j].level > level
            &&& k <= end <= events.len()
            &&& at_heading_or_end(events, end)
            &&& end < events.len() ==> heading_at(events, end)->Some_0 <= level
            &&& children.len() > 0 ==> k < events.len() && children[0].level == heading_at(events, k)->Some_0
        }),
    decreases events.len() - k, 0int,
{
    if let Some(l) = heading_at(events, k) {
        if l > level {
            lemma_section_from(events, l, k + 1);
            let (child, next) = section_from(events, l, k + 1);
            if next > k && next <= events.len() {
                lemma_children_from(events, level, next);
                let (rest, end) = children_from(events, level, next);
                let all = seq![child] + rest;
                assert forall|j: int| 0 < j < all.len() implies #[trigger] all[j].level <= all[j - 1].level by {
                    if j > 1 {
                        assert(all[j] == rest[j - 1] && all[j - 1] == rest[j - 2]);
                    } else {
                        assert(all[1] == rest[0] && all[0] == child);
                    }
                }
                assert forall|j: int| 0 <= j < all.len() implies #[trigger] all[j].level > level && well_nested(all[j]) by {
                    if j > 0 {
                        assert(all[j] == rest[j - 1]);
                    }
                }
            }
        }
    }
}

proof fn lemma_top_sections(events: Seq<MarkdownEvent<'_>>, k: int)
    requires
        0 <= k <= events.len(),
        at_heading_or_end(events, k),
    ensures
        well_nested_run(top_sections(events, k)),
        top_sections(events, k).len() > 0 ==> k < events.len() && top_sections(events, k)[0].level
            == heading_at(events, k)->Some_0,
    decreases events.len() - k,
{
    if k < events.len() {
        let l = heading_at(events, k)->Some_0;
        lemma_section_from(events, l, k + 1);
        let (section, next) = section_from(events, l, k + 1);
        if next > k && next <= events.len() {
            lemma_top_sections(events, next);
            let rest = top_sections(events, next);
            let all = seq![section] + rest;
            assert forall|j: int| 0 < j < all.len() implies #[trigger] all[j].level <= all[j - 1].level by {
                if j > 1 {
                    assert(all[j] == rest[j - 1] && all[j - 1] == rest[j - 2]);
                } else {
                    assert(all[1] == rest[0] && all[0] == section);
                }
            }
            assert forall|j: int| 0 <= j < all.len() implies well_nested(#[trigger] all[j]) by {
                if j > 0 {
                    assert(all[j] == rest[j - 1]);
                }
            }
        } else {
            assert(non_increasing(seq![section]));
        }
    }
}

/// However the heading levels of a document run, each section's subsections have
/// levels strictly greater than its own, and sections that follow one another at one
/// scope (the top level, or the children of one section) never increase in level:
/// a later, shallower heading is never placed under an earlier, deeper one.
pub proof fn lemma_sections_nest(events: Seq<MarkdownEvent<'_>>)
    ensures
        well_nested_run(top_sections(events, preamble_end(events))),
{
    lemma_scan_bounds(events, 0, Boundary::HeadingStart);
    lemma_top_sections(events, preamble_end(events));
}

/// The values of the first `n` sections depend on those sections alone.
pub(crate) proof fn lemma_sections_view_prefix(a: Vec<Section>, b: Vec<Section>, n: int)
    requires
        0 <= n <= a.len(),
        n <= b.len(),
        forall|j: int| 0 <= j < n ==> a[j] == b[j],
    ensures
        sections_view(a, n) == sections_view(b, n),
    decreases n,
{
    if n > 0 {
        lemma_sections_view_prefix(a, b, n - 1);
    }
}

/// The values after a push are those before, and the value of what was pushed.
proof fn lemma_all_sections_push(old_v: Vec<Section>, new_v: Vec<Section>, s: Section)
    requires
        new_v@ == old_v@.push(s),
    ensures
        all_sections(new_v) == all_sections(old_v).push(section_view(s)),
{
    lemma_sections_view_prefix(old_v, new_v, old_v.len() as int);
}

/// The values of the first `n` sections are, one by one, the values of those sections.
proof fn lemma_sections_view_index(v: Vec<Section>, n: int)
    requires
        0 <= n <= v.len(),
    ensures
        sections_view(v, n).len() == n,
        forall|j: int| 0 <= j < n ==> #[trigger] sections_view(v, n)[j] == section_view(v[j]),
    decreases n,
{
    if n > 0 {
        lemma_sections_view_index(v, n - 1);
    }
}

/// The values of two runs of sections joined are the values of each, joined.
proof fn lemma_all_sections_concat(a: Vec<Section>, b: Vec<Section>, c: Vec<Section>)
    requires
        c@ == a@ + b@,
    ensures
        all_sections(c) == all_sections(a) + all_sections(b),
{
    lemma_sections_view_index(a, a.len() as int);
    lemma_sections_view_index(b, b.len() as int);
    lemma_sections_view_index(c, c.len() as int);
    assert forall|j: int| 0 <= j < c.len() implies all_sections(c)[j] == (all_sections(a) + all_sections(b))[j] by {
        if j < a.len() {
            assert(c@[j] == a@[j]);
        } else {
            assert(c@[j] == b@[j - a.len()]);
        }
    }
    assert(all_sections(c) =~= all_sections(a) + all_sections(b));
}

/// The level of the heading that starts at index `k`, if one does.
fn heading_level(events: &[MarkdownEvent<'_>], k: usize) -> (r: Option<u8>)
    ensures
        r == heading_at(events@, k as int),
        r is Some ==> k < events@.len(),
{
    if k < events.len() {
        match &events[k].kind {
            EventKind::Start(TagKind::Heading(l)) => Some(*l),
            _ => None,
        }
    } else {
        None
    }
}

/// Parses the section of level `level` whose heading starts just before index `i`.
fn parse_section(events: &[MarkdownEvent<'_>], level: u8, i: usize) -> (r: (Section, usize))
    requires
        i <= events@.len(),
        1 <= level <= 6,
        levels_ok(events@),
    ensures
        section_view(r.0) == section_from(events@, level, i as int).0,
        r.1 == section_from(events@, level, i as int).1,
        i <= r.1 <= events@.len(),
    decreases events@.len() - i, 1int,
{
    let title_end = find_boundary(events, i, Boundary::HeadingEnd);
    let title = render(&events[i..title_end]);
    let body_start = if title_end < events.len() { title_end + 1 } else { title_end };
    let body_end = find_boundary(events, body_start, Boundary::HeadingStart);
    let body = render(&events[body_start..body_end]);
    let (sections, next) = parse_children(events, level, body_end);
    let section = Section {
        title,
        level: SectionLevel::from_number(level),
        body,
        metadata: Vec::new(),
        sections,
    };
    assert(metadata_view(section.metadata@) =~= Seq::empty());
    (section, next)
}

/// Parses the sections nested below a section of level `level`, from index `k` on.
fn parse_children(events: &[MarkdownEvent<'_>], level: u8, k: usize) -> (r: (Vec<Section>, usize))
    requires
        k <= events@.len(),
        1 <= level <= 6,
        levels_ok(events@),
    ensures
        all_sections(r.0) == children_from(events@, level, k as int).0,
        r.1 == children_from(events@, level, k as int).1,
        k <= r.1 <= events@.len(),
    decreases events@.len() - k, 0int,
{
    let mut sections: Vec<Section> = Vec::new();
    let mut at = k;
    let n = events.len();
    assert(all_sections(sections) =~= Seq::empty());
    loop
        invariant
            n == events@.len(),
            k <= at <= events@.len(),
            1 <= level <= 6,
            levels_ok(events@),
            all_sections(sections) + children_from(events@, level, at as int).0
                == children_from(events@, level, k as int).0,
            children_from(events@, level, at as int).1 == children_from(events@, level, k as int).1,
        ensures
            k <= at <= events@.len(),
            all_sections(sections) + children_from(events@, level, at as int).0
                == children_from(events@, level, k as int).0,
            children_from(events@, level, at as int).1 == children_from(events@, level, k as int).1,
            match heading_at(events@, at as int) {
                Some(l) => l <= level,
                None => true,
            },
        decreases events@.len() - at,
    {
        let h = heading_level(events, at);
        if h.is_none() {
            break;
        }
        let l = h.unwrap();
        assert(at < events@.len());
        if l <= level {
            break;
        }
        assert(1 <= l <= 6) by {
            assert(events@[at as int].kind matches EventKind::Start(TagKind::Heading(_)));
        }
        let (section, next) = parse_section(events, l, at + 1);
        let ghost before = sections;
        sections.push(section);
        proof {
            lemma_all_sections_push(before, sections, section);
            assert(seq![section_view(section)] + children_from(events@, level, next as int).0
                == children_from(events@, level, at as int).0);
            assert(all_sections(sections) + children_from(events@, level, next as int).0
                =~= all_sections(before) + children_from(events@, level, at as int).0);
        }
        at = next;
    }
    assert(children_from(events@, level, at as int).0 =~= Seq::empty());
    assert(all_sections(sections) =~= all_sections(sections) + Seq::<SectionView>::empty());
    (sections, at)
}

/// Parses a document's events: the text before the first heading, and the
/// top-level sections.
pub fn parse_document(events: &[MarkdownEvent<'_>]) -> (r: (Option<String>, Vec<Section>))
    requires
        levels_ok(events@),
    ensures
        opt_view(r.0) == preamble(events@),
        all_sections(r.1) == top_sections(events@, preamble_end(events@)),
        well_nested_run(all_sections(r.1)),
{
    proof {
        lemma_sections_nest(events@);
    }
    let n = events.len();
    let body_end = find_boundary(events, 0, Boundary::HeadingStart);
    let text = render(&events[0..body_end]);
    let body = if text.as_str().is_empty() { None } else { Some(text) };
    let mut sections: Vec<Section> = Vec::new();
    let mut at = body_end;
    assert(all_sections(sections) =~= Seq::empty());
    while at < n
        invariant
            n == events@.len(),
            body_end <= at <= n,
            levels_ok(events@),
            all_sections(sections) + top_sections(events@, at as int)
                == top_sections(events@, body_end as int),
        decreases n - at,
    {
        let ghost before = sections;
        match heading_level(events, at) {
            Some(l) => {
                assert(1 <= l <= 6) by {
                    assert(events@[at as int].kind matches EventKind::Start(TagKind::Heading(_)));
                }
                let (section, next) = parse_section(events, l, at + 1);
                sections.push(section);
                proof {
                    lemma_all_sections_push(before, sections, section);
                    assert(all_sections(sections) + top_sections(events@, next as int)
                        =~= all_sections(before) + top_sections(events@, at as int));
                }
                at = next;
            },
            None => {
                at = at + 1;
            },
        }
    }
    assert(all_sections(sections) =~= all_sections(sections) + top_sections(events@, at as int));
    (body, sections)
}

impl JournalEntry {
    /// Splits the entry's body into the text before its first heading and the tree
    /// of sections, appended to those it already has. An entry without a body is
    /// returned as it is.
    pub fn parse(self) -> (r: Result<JournalEntry, ParseError>)
        ensures
            r is Ok,
            r->Ok_0.title == self.title,
            r->Ok_0.path == self.path,
            r->Ok_0.level == self.level,
            match self.body {
                None => r->Ok_0.body is None && all_sections(r->Ok_0.sections) == all_sections(self.sections),
                Some(text) => {
                    let events = tokens_of(text@);
                    &&& opt_view(r->Ok_0.body) == preamble(events)
                    &&& all_sections(r->Ok_0.sections) == all_sections(self.sections)
                        + top_sections(events, preamble_end(events))
                },
            },
    {
        let JournalEntry { title, body, sections, path, level } = self;
        match body {
            None => Ok(JournalEntry { title, body: None, sections, path, level }),
            Some(text) => {
                let events = tokenize(text.as_str());
                let (preamble, parsed) = parse_document(events.as_slice());
                let mut all = sections;
                let mut parsed = parsed;
                let ghost (before, added) = (all, parsed);
                all.append(&mut parsed);
                proof {
                    lemma_all_sections_concat(before, added, all);
                }
                Ok(JournalEntry { title, body: preamble, sections: all, path, level })
            },
        }
    }
}

/// `s` with `sections` in place of its subsections.
pub open spec fn with_sections(s: Section, sections: Vec<Section>) -> Section {
    Section { title: s.title, level: s.level, body: s.body, metadata: s.metadata, sections }
}

/// Section `r` is what visiting `s` with `f` gives: each of its subsections visited
/// first, in order, then `f` applied to the section that holds the results.
pub open spec fn visited<F: Fn(Section) -> Section>(f: F, s: Section, r: Section) -> bool
    decreases s, 1int,
{
    exists|kids: Vec<Section>|
        #![trigger with_sections(s, kids)]
        all_visited(f, s.sections, kids) && call_ensures(f, (with_sections(s, kids),), r)
}

/// `news` are what visiting each of `olds` with `f` gives, in order.
pub open spec fn all_visited<F: Fn(Section) -> Section>(f: F, olds: Vec<Section>, news: Vec<Section>) -> bool
    decreases olds, 0int,
{
    &&& news.len() == olds.len()
    &&& forall|j: int| 0 <= j < olds.len() ==> visited(f, #[trigger] olds[j], news[j])
}

/// Section `r` is what visiting `s` with `f` gives, each call succeeding.
pub open spec fn try_visited<E, F: Fn(Section) -> Result<Section, E>>(f: F, s: Section, r: Section) -> bool
    decreases s, 1int,
{
    exists|kids: Vec<Section>|
        #![trigger with_sections(s, kids)]
        all_try_visited(f, s.sections, kids) && call_ensures(f, (with_sections(s, kids),), Ok::<Section, E>(r))
}

/// `news` are what visiting each of `olds` with `f` gives, each call succeeding.
pub open spec fn all_try_visited<E, F: Fn(Section) -> Result<Section, E>>(f: F, olds: Vec<Section>, news: Vec<Section>) -> bool
    decreases olds, 0int,
{
    &&& news.len() == olds.len()
    &&& forall|j: int| 0 <= j < olds.len() ==> try_visited(f, #[trigger] olds[j], news[j])
}

fn visit_all<F: Fn(Section) -> Section>(sections: Vec<Section>, f: &F) -> (r: Vec<Section>)
    requires
        forall|s: Section| call_requires(*f, (s,)),
    ensures
        all_visited(*f, sections, r),
    decreases sections, 0int,
{
    let ghost orig = sections;
    let n = sections.len();
    let mut rest = sections;
    let mut done: Vec<Section> = Vec::new();
    let mut k: usize = 0;
    assert(rest@ =~= orig@.subrange(0, n as int));
    while rest.len() > 0
        invariant
            orig == sections,
            n == orig@.len(),
            k + rest@.len() == n,
            rest@ == orig@.subrange(k as int, n as int),
            done@.len() == k,
            forall|s: Section| call_requires(*f, (s,)),
            forall|j: int| 0 <= j < k ==> visited(*f, orig[j], #[trigger] done@[j]),
        decreases rest@.len(),
    {
        let child = rest.remove(0);
        assert(child == orig@[k as int]);
        assert(decreases_to!(orig => child));
        let child = visit_one(child, f);
        done.push(child);
        k = k + 1;
        assert(rest@ =~= orig@.subrange(k as int, n as int));
    }
    assert(forall|j: int| 0 <= j < orig.len() ==> visited(*f, #[trigger] orig[j], done[j]));
    done
}

fn visit_one<F: Fn(Section) -> Section>(s: Section, f: &F) -> (r: Section)
    requires
        forall|s: Section| call_requires(*f, (s,)),
    ensures
        visited(*f, s, r),
    decreases s, 1int,
{
    let Section { title, level, body, metadata, sections } = s;
    assert(decreases_to!(s => sections));
    let kids = visit_all(sections, f);
    let holder = Section { title, level, body, metadata, sections: kids };
    assert(holder == with_sections(s, kids));
    let r = f(holder);
    assert(all_visited(*f, s.sections, kids) && call_ensures(*f, (with_sections(s, kids),), r));
    r
}

/// Some call of `f` fails with `e`.
pub open spec fn failed_on<E, F: Fn(Section) -> Result<Section, E>>(f: F, e: E) -> bool {
    exists|x: Section| #[trigger] call_ensures(f, (x,), Err::<Section, E>(e))
}

fn try_visit_all<E, F: Fn(Section) -> Result<Section, E>>(sections: Vec<Section>, f: &F) -> (r: Result<Vec<Section>, E>)
    requires
        forall|s: Section| call_requires(*f, (s,)),
    ensures
        match r {
            Ok(news) => all_try_visited(*f, sections, news),
            Err(e) => failed_on(*f, e),
        },
    decreases sections, 0int,
{
    let ghost orig = sections;
    let n = sections.len();
    let mut rest = sections;
    let mut done: Vec<Section> = Vec::new();
    let mut k: usize = 0;
    assert(rest@ =~= orig@.subrange(0, n as int));
    while rest.len() > 0
        invariant
            orig == sections,
            n == orig@.len(),
            k + rest@.len() == n,
            rest@ == orig@.subrange(k as int, n as int),
            done@.len() == k,
            forall|s: Section| call_requires(*f, (s,)),
            forall|j: int| 0 <= j < k ==> try_visited(*f, orig[j], #[trigger] done@[j]),
        decreases rest@.len(),
    {
        let child = rest.remove(0);
        assert(child == orig@[k as int]);
        assert(decreases_to!(orig => child));
        match try_visit_one(child, f) {
            Ok(child) => {
                done.push(child);
            },
            Err(e) => {
                return Err(e);
            },
        }
        k = k + 1;
        assert(rest@ =~= orig@.subrange(k as int, n as int));
    }
    assert(forall|j: int| 0 <= j < orig.len() ==> try_visited(*f, #[trigger] orig[j], done[j]));
    Ok(done)
}

fn try_visit_one<E, F: Fn(Section) -> Result<Section, E>>(s: Section, f: &F) -> (r: Result<Section, E>)
    requires
        forall|s: Section| call_requires(*f, (s,)),
    ensures
        match r {
            Ok(v) => try_visited(*f, s, v),
            Err(e) => failed_on(*f, e),
        },
    decreases s, 1int,
{
    let Section { title, level, body, metadata, sections } = s;
    assert(decreases_to!(s => sections));
    let kids = match try_visit_all(sections, f) {
        Ok(kids) => kids,
        Err(e) => {
            return Err(e);
        },
    };
    let holder = Section { title, level, body, metadata, sections: kids };
    assert(holder == with_sections(s, kids));
    let r = f(holder);
    match r {
        Ok(v) => {
            assert(all_try_visited(*f, s.sections, kids) && call_ensures(*f, (with_sections(s, kids),), Ok::<Section, E>(v)));
            Ok(v)
        },
        Err(e) => {
            assert(call_ensures(*f, (with_sections(s, kids),), Err::<Section, E>(e)));
            assert(failed_on(*f, e));
            Err(e)
        },
    }
}

impl JournalEntry {
    /// Visits every section of the entry, each section's subsections before the
    /// section itself, and puts in its place what `func` returns for it.
    pub fn for_each_mut<F: Fn(Section) -> Section>(self, func: F) -> (r: JournalEntry)
        requires
            forall|s: Section| call_requires(func, (s,)),
        ensures
            all_visited(func, self.sections, r.sections),
            r.title == self.title,
            r.body == self.body,
            r.path == self.path,
            r.level == self.level,
    {
        let JournalEntry { title, body, sections, path, level } = self;
        let sections = visit_all(sections, &func);
        JournalEntry { title, body, sections, path, level }
    }

    /// Visits every section of the entry as `for_each_mut` does, and stops at the
    /// first call of `func` that fails, returning its error.
    pub fn try_for_each_mut<E, F: Fn(Section) -> Result<Section, E>>(self, func: F) -> (r: Result<JournalEntry, E>)
        requires
            forall|s: Section| call_requires(func, (s,)),
        ensures
            match r {
                Ok(entry) => all_try_visited(func, self.sections, entry.sections) && entry.title == self.title
                    && entry.body == self.body && entry.path == self.path && entry.level == self.level,
                Err(e) => failed_on(func, e),
            },
    {
        let JournalEntry { title, body, sections, path, level } = self;
        match try_visit_all(sections, &func) {
            Ok(sections) => Ok(JournalEntry { title, body, sections, path, level }),
            Err(e) => Err(e),
        }
    }
}

} // verus!
