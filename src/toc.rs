//! The table of contents: a Markdown list of links to the journal's entries,
//! divided by level-one headings and rules.

use vstd::prelude::*;
use vstd::string::StringSliceAdditionalSpecFns;

use crate::cursor::{
    consumed_offset, find_boundary, position, position_of, scan, Boundary,
    Position,
};
use crate::entry::opt_view;
use crate::markdown::{
    cmark_text, copy_event, render, text_event, text_event_of, tokenize, tokens_of, EventKind,
    MarkdownEvent, TagKind,
};
use crate::text::{chars_of, string_of};

verus! {

broadcast use vstd::std_specs::vec::axiom_vec_index_decreases;

/// A link to a journal entry, with the entries nested below it.
#[derive(Debug, PartialEq, Eq)]
pub struct Link {
    /// The name of the entry the link points to.
    pub name: String,
    /// The path of the entry's file, relative to the journal's source directory.
    pub location: Option<String>,
    /// The items nested below this link.
    pub nested_items: Vec<TOCItem>,
}

/// The title of a part of the table of contents, given by a level-one heading.
#[derive(Debug, PartialEq, Eq)]
pub struct SectionTitle {
    pub title: String,
}

/// One item of the table of contents.
#[derive(Debug, PartialEq, Eq)]
pub enum TOCItem {
    Link(Link),
    SectionTitle(SectionTitle),
    Separator,
}

/// The parsed table of contents.
#[derive(Debug, PartialEq, Eq)]
pub struct TableOfContents {
    /// The title given by a level-one heading before any other content.
    pub title: Option<String>,
    /// The items, in the order of the document.
    pub items: Vec<TOCItem>,
}

/// Why a table of contents could not be parsed.
#[derive(Debug, Clone, Copy, PartialEq, Eq, Structural)]
pub enum TocError {
    /// A list item holds something other than a link, at the given position.
    NotALink(Position),
}

/// A table-of-contents item as a mathematical value.
pub enum TocView {
    Link(Seq<char>, Option<Seq<char>>, Seq<TocView>),
    Title(Seq<char>),
    Separator,
}

/// The value of an item.
pub open spec fn item_view(item: TOCItem) -> TocView
    decreases item, 1int,
{
    match item {
        TOCItem::Link(link) => TocView::Link(
            link.name@,
            opt_view(link.location),
            items_view(link.nested_items, link.nested_items.len() as int),
        ),
        TOCItem::SectionTitle(t) => TocView::Title(t.title@),
        TOCItem::Separator => TocView::Separator,
    }
}

/// The values of the first `n` items of `v`.
pub open spec fn items_view(v: Vec<TOCItem>, n: int) -> Seq<TocView>
    decreases v, n,
{
    if n <= 0 || n > v.len() {
        Seq::empty()
    } else {
        items_view(v, n - 1).push(item_view(v[n - 1]))
    }
}

/// The values of all items of `v`.
pub open spec fn all_items(v: Vec<TOCItem>) -> Seq<TocView> {
    items_view(v, v.len() as int)
}

impl TOCItem {
    /// The link, where the item is one.
    pub fn maybe_link(&self) -> (r: Option<&Link>)
        ensures
            match self {
                TOCItem::Link(l) => r == Some(l),
                _ => r is None,
            },
    {
        match self {
            TOCItem::Link(l) => Some(l),
            _ => None,
        }
    }

    /// The link, where the item is one, to change.
    pub fn maybe_link_mut(&mut self) -> (r: Option<&mut Link>)
        ensures
            match *old(self) {
                TOCItem::Link(l) => r is Some && *r->Some_0 == l,
                _ => r is None,
            },
    {
        match self {
            TOCItem::Link(l) => Some(l),
            _ => None,
        }
    }

    /// The section title, where the item is one.
    pub fn maybe_section_title(&self) -> (r: Option<&SectionTitle>)
        ensures
            match self {
                TOCItem::SectionTitle(t) => r == Some(t),
                _ => r is None,
            },
    {
        match self {
            TOCItem::SectionTitle(t) => Some(t),
            _ => None,
        }
    }

    /// The section title, where the item is one, to change.
    pub fn maybe_section_title_mut(&mut self) -> (r: Option<&mut SectionTitle>)
        ensures
            match *old(self) {
                TOCItem::SectionTitle(t) => r is Some && *r->Some_0 == t,
                _ => r is None,
            },
    {
        match self {
            TOCItem::SectionTitle(t) => Some(t),
            _ => None,
        }
    }

    /// Whether the item is a link.
    pub fn is_link(&self) -> (r: bool)
        ensures
            r == (self is Link),
    {
        matches!(self, TOCItem::Link(_))
    }

    /// Whether the item is a separator.
    pub fn is_separator(&self) -> (r: bool)
        ensures
            r == (self is Separator),
    {
        matches!(self, TOCItem::Separator)
    }
}

/// A tag, reduced to what tells two tags apart.
pub open spec fn tag_key(t: TagKind) -> (u8, Option<Seq<char>>, Option<u64>) {
    match t {
        TagKind::Paragraph => (0, None, None),
        TagKind::Heading(l) => (1, None, Some(l as u64)),
        TagKind::BlockQuote => (2, None, None),
        TagKind::CodeBlock(info) => (3, opt_view(info), None),
        TagKind::List(first) => (4, None, first),
        TagKind::Item => (5, None, None),
        TagKind::Emphasis => (6, None, None),
        TagKind::Strong => (7, None, None),
        TagKind::Link(d) => (8, Some(d@), None),
        TagKind::Image => (9, None, None),
        TagKind::Other => (10, None, None),
    }
}

/// Whether two tags are the same.
fn same_tag(a: &TagKind, b: &TagKind) -> (r: bool)
    ensures
        r == (tag_key(*a) == tag_key(*b)),
{
    match (a, b) {
        (TagKind::Paragraph, TagKind::Paragraph) => true,
        (TagKind::Heading(x), TagKind::Heading(y)) => *x == *y,
        (TagKind::BlockQuote, TagKind::BlockQuote) => true,
        (TagKind::CodeBlock(None), TagKind::CodeBlock(None)) => true,
        (TagKind::CodeBlock(Some(x)), TagKind::CodeBlock(Some(y))) => *x == *y,
        (TagKind::List(None), TagKind::List(None)) => true,
        (TagKind::List(Some(x)), TagKind::List(Some(y))) => *x == *y,
        (TagKind::Item, TagKind::Item) => true,
        (TagKind::Emphasis, TagKind::Emphasis) => true,
        (TagKind::Strong, TagKind::Strong) => true,
        (TagKind::Link(x), TagKind::Link(y)) => *x == *y,
        (TagKind::Image, TagKind::Image) => true,
        (TagKind::Other, TagKind::Other) => true,
        _ => false,
    }
}

/// The index of the first end of a tag equal to `tag` at or after `from`, or the
/// length of the stream where there is none.
pub open spec fn scan_end(events: Seq<MarkdownEvent<'_>>, from: int, tag: TagKind) -> int
    decreases events.len() - from,
{
    if from < 0 || from >= events.len() {
        events.len() as int
    } else if events[from].kind matches EventKind::End(t) && tag_key(t) == tag_key(tag) {
        from
    } else {
        scan_end(events, from + 1, tag)
    }
}

fn find_end(events: &[MarkdownEvent<'_>], from: usize, tag: &TagKind) -> (r: usize)
    requires
        from <= events@.len(),
    ensures
        r == scan_end(events@, from as int, *tag),
        from <= r <= events@.len(),
    decreases events@.len() - from,
{
    if from >= events.len() {
        return events.len();
    }
    let hit = match &events[from].kind {
        EventKind::End(t) => same_tag(t, tag),
        _ => false,
    };
    if hit {
        from
    } else {
        find_end(events, from + 1, tag)
    }
}

/// `s` with each `%20` read as a space, from left to right.
pub open spec fn unescape_spaces(s: Seq<char>) -> Seq<char>
    decreases s.len(),
{
    if s.len() >= 3 && s[0] == '%' && s[1] == '2' && s[2] == '0' {
        seq![' '] + unescape_spaces(s.subrange(3, s.len() as int))
    } else if s.len() == 0 {
        s
    } else {
        seq![s[0]] + unescape_spaces(s.drop_first())
    }
}

/// A link destination with each `%20` read as a space.
pub fn unescape_href(href: &str) -> (r: String)
    ensures
        r@ == unescape_spaces(href@),
{
    let s = chars_of(href);
    let n = s.len();
    let mut out: Vec<char> = Vec::new();
    let mut k: usize = 0;
    assert(s@.subrange(0, n as int) =~= s@);
    assert(out@ + unescape_spaces(s@) =~= unescape_spaces(s@));
    while k < n
        invariant
            k <= n == s@.len(),
            out@ + unescape_spaces(s@.subrange(k as int, n as int)) == unescape_spaces(s@),
        decreases n - k,
    {
        let ghost rest = s@.subrange(k as int, n as int);
        if n - k >= 3 && s[k] == '%' && s[k + 1] == '2' && s[k + 2] == '0' {
            assert(rest.subrange(3, rest.len() as int) =~= s@.subrange(k + 3, n as int));
            out.push(' ');
            k = k + 3;
        } else {
            assert(rest.drop_first() =~= s@.subrange(k + 1, n as int));
            out.push(s[k]);
            k = k + 1;
        }
        assert(out@ + unescape_spaces(s@.subrange(k as int, n as int)) =~= unescape_spaces(s@));
    }
    assert(s@.subrange(0, n as int) =~= s@);
    assert(s@.subrange(n as int, n as int) =~= Seq::<char>::empty());
    assert(out@ =~= out@ + unescape_spaces(Seq::<char>::empty()));
    string_of(out.as_slice())
}

/// The events of a link's text, with each soft break turned into a space.
pub open spec fn spaced<'a>(events: Seq<MarkdownEvent<'a>>) -> Seq<MarkdownEvent<'a>> {
    events.map_values(
        |e: MarkdownEvent<'a>|
            if e.kind is SoftBreak {
                text_event_of(seq![' '], e.start)
            } else {
                e
            },
    )
}

/// The text of a level-one heading whose start precedes index `i`, and the index
/// after its end.
pub open spec fn heading_text(events: Seq<MarkdownEvent<'_>>, i: int) -> (Seq<char>, int) {
    let end = scan(events, i, Boundary::TitleEnd);
    (cmark_text(events.subrange(i, end)), if end < events.len() { end + 1 } else { end })
}

/// The link whose start precedes index `i`, with destination `href`, and the index
/// after its end.
pub open spec fn link_at(events: Seq<MarkdownEvent<'_>>, href: Seq<char>, i: int) -> (TocView, int) {
    let end = scan(events, i, Boundary::LinkEnd);
    let location = unescape_spaces(href);
    (
        TocView::Link(
            cmark_text(spaced(events.subrange(i, end))),
            if location.len() == 0 { None } else { Some(location) },
            Seq::empty(),
        ),
        if end < events.len() { end + 1 } else { end },
    )
}

/// The list item whose start precedes index `i`: after any paragraph starts, a link
/// must follow. On failure, the number of events consumed by then.
pub open spec fn item_at(events: Seq<MarkdownEvent<'_>>, i: int) -> Result<(TocView, int), int>
    decreases events.len() - i,
{
    if i < 0 || i >= events.len() {
        Err(i)
    } else {
        match events[i].kind {
            EventKind::Start(TagKind::Paragraph) => item_at(events, i + 1),
            EventKind::Start(TagKind::Link(href)) => Ok(link_at(events, href@, i + 1)),
            _ => Err(i + 1),
        }
    }
}

/// `item` with the nested items `nested`, where it is a link.
pub open spec fn with_nested(item: TocView, nested: Seq<TocView>) -> TocView {
    match item {
        TocView::Link(name, location, _) => TocView::Link(name, location, nested),
        other => other,
    }
}

/// The items of a run that starts at index `i`, after those in `acc`, and the index
/// where the run ends: at a level-one heading (not consumed), after the end of a
/// list, or at the end of the stream. A list item holds a link; a list that follows
/// a link gives that link its nested items; a rule is a separator; any other element
/// is passed over to its end, and any other event is passed over.
pub open spec fn items_from(events: Seq<MarkdownEvent<'_>>, i: int, acc: Seq<TocView>) -> Result<(Seq<TocView>, int), int>
    decreases events.len() - i,
{
    if i < 0 || i >= events.len() {
        Ok((acc, i))
    } else {
        match events[i].kind {
            EventKind::Start(TagKind::Heading(1)) => Ok((acc, i)),
            EventKind::Start(TagKind::Item) => match item_at(events, i + 1) {
                Err(e) => Err(e),
                Ok((item, next)) => if next <= i || next > events.len() {
                    Ok((acc.push(item), next))
                } else {
                    items_from(events, next, acc.push(item))
                },
            },
            EventKind::Start(TagKind::List(_)) => if acc.len() > 0 && acc.last() is Link {
                match items_from(events, i + 1, Seq::empty()) {
                    Err(e) => Err(e),
                    Ok((nested, next)) => {
                        let acc2 = acc.drop_last().push(with_nested(acc.last(), nested));
                        if next <= i || next > events.len() {
                            Ok((acc2, next))
                        } else {
                            items_from(events, next, acc2)
                        }
                    },
                }
            } else {
                items_from(events, i + 1, acc)
            },
            EventKind::End(TagKind::List(_)) => Ok((acc, i + 1)),
            EventKind::Start(tag) => {
                let end = scan_end(events, i + 1, tag);
                let next = if end < events.len() { end + 1 } else { end };
                if next <= i || next > events.len() {
                    Ok((acc, next))
                } else {
                    items_from(events, next, acc)
                }
            },
            EventKind::Rule => items_from(events, i + 1, acc.push(TocView::Separator)),
            _ => items_from(events, i + 1, acc),
        }
    }
}

/// The items from index `i` on, after those in `acc`: a level-one heading gives a
/// section title; each run of items follows.
pub open spec fn toc_from(events: Seq<MarkdownEvent<'_>>, i: int, acc: Seq<TocView>) -> Result<Seq<TocView>, int>
    decreases events.len() - i,
{
    if i < 0 || i >= events.len() {
        Ok(acc)
    } else {
        let (acc2, j) = if events[i].kind == EventKind::Start(TagKind::Heading(1)) {
            let (t, n) = heading_text(events, i + 1);
            (acc.push(TocView::Title(t)), n)
        } else {
            (acc, i)
        };
        match items_from(events, j, Seq::empty()) {
            Err(e) => Err(e),
            Ok((items, m)) => if m <= i || m > events.len() {
                Ok(acc2 + items)
            } else {
                toc_from(events, m, acc2 + items)
            },
        }
    }
}

/// The title: a level-one heading, after any raw HTML such as comments; and the index
/// where the items begin.
pub open spec fn toc_title(events: Seq<MarkdownEvent<'_>>, i: int) -> (Option<Seq<char>>, int)
    decreases events.len() - i,
{
    if i < 0 || i >= events.len() {
        (None, i)
    } else {
        match events[i].kind {
            EventKind::Start(TagKind::Heading(1)) => {
                let (t, n) = heading_text(events, i + 1);
                (Some(t), n)
            },
            EventKind::Html(_) => toc_title(events, i + 1),
            _ => (None, i),
        }
    }
}

/// The title and the items of a table of contents; on failure, the number of events
/// consumed by then.
pub open spec fn toc_of(events: Seq<MarkdownEvent<'_>>) -> Result<(Option<Seq<char>>, Seq<TocView>), int> {
    let (title, i) = toc_title(events, 0);
    match toc_from(events, i, Seq::empty()) {
        Ok(items) => Ok((title, items)),
        Err(e) => Err(e),
    }
}

/// Two items are the same but for the items nested below a link.
pub open spec fn same_head(a: TocView, b: TocView) -> bool {
    match (a, b) {
        (TocView::Link(n1, l1, _), TocView::Link(n2, l2, _)) => n1 == n2 && l1 == l2,
        _ => a == b,
    }
}

/// A run of items that ends with `r` keeps the items of `acc` in their order; the
/// last of them may only gain nested items.
pub open spec fn keeps_run(acc: Seq<TocView>, r: Seq<TocView>) -> bool {
    &&& r.len() >= acc.len()
    &&& acc.len() > 0 ==> r.subrange(0, acc.len() - 1) == acc.drop_last() && same_head(
        r[acc.len() - 1],
        acc.last(),
    )
}

proof fn lemma_keeps_run_push(acc: Seq<TocView>, x: TocView, r: Seq<TocView>)
    requires
        keeps_run(acc.push(x), r),
    ensures
        keeps_run(acc, r),
{
    if acc.len() > 0 {
        assert(r.subrange(0, acc.len() as int) == acc.push(x).drop_last());
        assert(acc.push(x).drop_last() =~= acc);
        assert(r.subrange(0, acc.len() - 1) =~= r.subrange(0, acc.len() as int).drop_last());
        assert(r[acc.len() - 1] == r.subrange(0, acc.len() as int)[acc.len() - 1]);
    }
}

/// Reading a run of items never reorders or drops the items read before: they stay
/// first, in their order, and the last of them can only gain nested items.
pub proof fn lemma_items_keep_order(events: Seq<MarkdownEvent<'_>>, i: int, acc: Seq<TocView>)
    ensures
        items_from(events, i, acc) matches Ok((r, _)) ==> keeps_run(acc, r),
    decreases events.len() - i,
{
    if i < 0 || i >= events.len() {
    } else {
        match events[i].kind {
            EventKind::Start(TagKind::Heading(1)) => {},
            EventKind::Start(TagKind::Item) => match item_at(events, i + 1) {
                Err(e) => {},
                Ok((item, next)) => {
                    if next <= i || next > events.len() {
                        if acc.len() > 0 {
                            assert(acc.push(item).subrange(0, acc.len() - 1) =~= acc.drop_last());
                        }
                    } else {
                        lemma_items_keep_order(events, next, acc.push(item));
                        if let Ok((r, _)) = items_from(events, i, acc) {
                            lemma_keeps_run_push(acc, item, r);
                        }
                    }
                },
            },
            EventKind::Start(TagKind::List(_)) => if acc.len() > 0 && acc.last() is Link {
                match items_from(events, i + 1, Seq::empty()) {
                    Err(e) => {},
                    Ok((nested, next)) => {
                        let acc2 = acc.drop_last().push(with_nested(acc.last(), nested));
                        assert(acc2.drop_last() =~= acc.drop_last());
                        if next <= i || next > events.len() {
                            assert(acc2.subrange(0, acc.len() - 1) =~= acc.drop_last());
                        } else {
                            lemma_items_keep_order(events, next, acc2);
                        }
                    },
                }
            } else {
                lemma_items_keep_order(events, i + 1, acc);
            },
            EventKind::End(TagKind::List(_)) => {
                if acc.len() > 0 {
                    assert(acc.subrange(0, acc.len() - 1) =~= acc.drop_last());
                }
            },
            EventKind::Start(tag) => {
                let end = scan_end(events, i + 1, tag);
                let next = if end < events.len() { end + 1 } else { end };
                if next <= i || next > events.len() {
                    if acc.len() > 0 {
                        assert(acc.subrange(0, acc.len() - 1) =~= acc.drop_last());
                    }
                } else {
                    lemma_items_keep_order(events, next, acc);
                }
            },
            EventKind::Rule => {
                lemma_items_keep_order(events, i + 1, acc.push(TocView::Separator));
                if let Ok((r, _)) = items_from(events, i, acc) {
                    lemma_keeps_run_push(acc, TocView::Separator, r);
                }
            },
            _ => {
                lemma_items_keep_order(events, i + 1, acc);
            },
        }
    }
}

/// Reading a table of contents from any point puts, after the items read before it,
/// exactly the items that the events from that point give, in their order: the
/// result is the items of the document's stretches one after another, never
/// reordered.
pub proof fn lemma_toc_appends(events: Seq<MarkdownEvent<'_>>, i: int, acc: Seq<TocView>)
    ensures
        toc_from(events, i, acc) == match toc_from(events, i, Seq::empty()) {
            Ok(r) => Ok(acc + r),
            Err(e) => Err::<Seq<TocView>, int>(e),
        },
    decreases events.len() - i,
{
    if i < 0 || i >= events.len() {
        assert(acc + Seq::<TocView>::empty() =~= acc);
    } else {
        let is_title = events[i].kind == EventKind::Start(TagKind::Heading(1));
        let (t, n) = heading_text(events, i + 1);
        let j = if is_title { n } else { i };
        let front: Seq<TocView> = if is_title { seq![TocView::Title(t)] } else { Seq::empty() };
        let acc2 = if is_title { acc.push(TocView::Title(t)) } else { acc };
        assert(acc2 =~= acc + front);
        assert(front =~= Seq::<TocView>::empty() + front);
        match items_from(events, j, Seq::empty()) {
            Err(e) => {},
            Ok((items, m)) => {
                assert(acc2 + items =~= acc + (front + items));
                if m <= i || m > events.len() {
                } else {
                    lemma_toc_appends(events, m, acc + (front + items));
                    lemma_toc_appends(events, m, front + items);
                    match toc_from(events, m, Seq::empty()) {
                        Ok(r) => {
                            assert(acc + (front + items) + r =~= acc + (front + items + r));
                        },
                        Err(e) => {},
                    }
                }
            },
        }
    }
}

/// The values of the first `n` items depend on those items alone.
proof fn lemma_items_view_prefix(a: Vec<TOCItem>, b: Vec<TOCItem>, n: int)
    requires
        0 <= n <= a.len(),
        n <= b.len(),
        forall|j: int| 0 <= j < n ==> a[j] == b[j],
    ensures
        items_view(a, n) == items_view(b, n),
    decreases n,
{
    if n > 0 {
        lemma_items_view_prefix(a, b, n - 1);
    }
}

/// The values of the first `n` items are, one by one, the values of those items.
pub(crate) proof fn lemma_items_view_index(v: Vec<TOCItem>, n: int)
    requires
        0 <= n <= v.len(),
    ensures
        items_view(v, n).len() == n,
        forall|j: int| 0 <= j < n ==> #[trigger] items_view(v, n)[j] == item_view(v[j]),
    decreases n,
{
    if n > 0 {
        lemma_items_view_index(v, n - 1);
    }
}

proof fn lemma_all_items_push(old_v: Vec<TOCItem>, new_v: Vec<TOCItem>, item: TOCItem)
    requires
        new_v@ == old_v@.push(item),
    ensures
        all_items(new_v) == all_items(old_v).push(item_view(item)),
{
    lemma_items_view_prefix(old_v, new_v, old_v.len() as int);
}

proof fn lemma_all_items_pop(old_v: Vec<TOCItem>, new_v: Vec<TOCItem>)
    requires
        old_v.len() > 0,
        new_v@ == old_v@.drop_last(),
    ensures
        all_items(new_v) == all_items(old_v).drop_last(),
        all_items(old_v).last() == item_view(old_v@.last()),
{
    lemma_items_view_prefix(old_v, new_v, new_v.len() as int);
    lemma_items_view_index(old_v, old_v.len() as int);
    assert(all_items(old_v).drop_last() =~= items_view(old_v, new_v.len() as int));
}

proof fn lemma_all_items_concat(a: Vec<TOCItem>, b: Vec<TOCItem>, c: Vec<TOCItem>)
    requires
        c@ == a@ + b@,
    ensures
        all_items(c) == all_items(a) + all_items(b),
{
    lemma_items_view_index(a, a.len() as int);
    lemma_items_view_index(b, b.len() as int);
    lemma_items_view_index(c, c.len() as int);
    assert forall|j: int| 0 <= j < c.len() implies all_items(c)[j] == (all_items(a) + all_items(b))[j] by {
        if j < a.len() {
            assert(c@[j] == a@[j]);
        } else {
            assert(c@[j] == b@[j - a.len()]);
        }
    }
    assert(all_items(c) =~= all_items(a) + all_items(b));
}

/// Whether an event starts a level-one heading.
fn is_title_start(kind: &EventKind) -> (r: bool)
    ensures
        r == (*kind == EventKind::Start(TagKind::Heading(1))),
{
    match kind {
        EventKind::Start(TagKind::Heading(l)) => *l == 1,
        _ => false,
    }
}

/// Reads the text of a level-one heading whose start precedes index `i`.
fn parse_heading_text(events: &[MarkdownEvent<'_>], i: usize) -> (r: (String, usize))
    requires
        i <= events@.len(),
    ensures
        r.0@ == heading_text(events@, i as int).0,
        r.1 == heading_text(events@, i as int).1,
        i <= r.1 <= events@.len(),
{
    let end = find_boundary(events, i, Boundary::TitleEnd);
    let text = render(&events[i..end]);
    (text, if end < events.len() { end + 1 } else { end })
}

/// Reads the link whose start precedes index `i`, with destination `href`.
fn parse_link(events: &[MarkdownEvent<'_>], href: &String, i: usize) -> (r: (TOCItem, usize))
    requires
        i <= events@.len(),
    ensures
        item_view(r.0) == link_at(events@, href@, i as int).0,
        r.1 == link_at(events@, href@, i as int).1,
        i <= r.1 <= events@.len(),
{
    let end = find_boundary(events, i, Boundary::LinkEnd);
    let mut words: Vec<MarkdownEvent<'_>> = Vec::new();
    let mut k = i;
    proof {
        reveal_strlit(" ");
    }
    assert(" "@ =~= seq![' ']);
    while k < end
        invariant
            i <= k <= end <= events@.len(),
            " "@ == seq![' '],
            words@ == spaced(events@.subrange(i as int, k as int)),
        decreases end - k,
    {
        let e = &events[k];
        if matches!(e.kind, EventKind::SoftBreak) {
            words.push(text_event(" ", e.start));
        } else {
            words.push(copy_event(e));
        }
        k = k + 1;
        assert(words@ =~= spaced(events@.subrange(i as int, k as int)));
    }
    let name = render(words.as_slice());
    let location = unescape_href(href.as_str());
    let location = if location.as_str().is_empty() { None } else { Some(location) };
    let link = Link { name, location, nested_items: Vec::new() };
    assert(all_items(link.nested_items) =~= Seq::empty());
    (TOCItem::Link(link), if end < events.len() { end + 1 } else { end })
}

/// Reads the list item whose start precedes index `i`.
fn parse_item(events: &[MarkdownEvent<'_>], i: usize) -> (r: Result<(TOCItem, usize), usize>)
    requires
        i <= events@.len(),
    ensures
        match r {
            Ok((item, next)) => item_at(events@, i as int) == Ok::<(TocView, int), int>((item_view(item), next as int))
                && i <= next <= events@.len(),
            Err(k) => item_at(events@, i as int) == Err::<(TocView, int), int>(k as int),
        },
{
    let mut at = i;
    while at < events.len()
        invariant
            i <= at <= events@.len(),
            item_at(events@, at as int) == item_at(events@, i as int),
        decreases events@.len() - at,
    {
        match &events[at].kind {
            EventKind::Start(TagKind::Paragraph) => {
                at = at + 1;
            },
            EventKind::Start(TagKind::Link(href)) => {
                let (item, next) = parse_link(events, href, at + 1);
                return Ok((item, next));
            },
            _ => {
                return Err(at + 1);
            },
        }
    }
    Err(at)
}

/// Reads a run of items that starts at index `i`.
fn parse_items(events: &[MarkdownEvent<'_>], i: usize) -> (r: Result<(Vec<TOCItem>, usize), usize>)
    requires
        i <= events@.len(),
    ensures
        match r {
            Ok((items, next)) => items_from(events@, i as int, Seq::empty()) == Ok::<(Seq<TocView>, int), int>(
                (all_items(items), next as int),
            ) && i <= next <= events@.len(),
            Err(k) => items_from(events@, i as int, Seq::empty()) == Err::<(Seq<TocView>, int), int>(k as int),
        },
    decreases events@.len() - i,
{
    let n = events.len();
    let mut acc: Vec<TOCItem> = Vec::new();
    let mut at = i;
    assert(all_items(acc) =~= Seq::empty());
    loop
        invariant
            n == events@.len(),
            i <= at <= n,
            items_from(events@, at as int, all_items(acc)) == items_from(events@, i as int, Seq::empty()),
        decreases n - at,
    {
        if at >= n {
            return Ok((acc, at));
        }
        let ghost before = acc;
        let kind = &events[at].kind;
        if is_title_start(kind) {
            return Ok((acc, at));
        }
        match kind {
            EventKind::Start(TagKind::Item) => {
                match parse_item(events, at + 1) {
                    Err(e) => {
                        return Err(e);
                    },
                    Ok((item, next)) => {
                        acc.push(item);
                        proof {
                            lemma_all_items_push(before, acc, item);
                        }
                        at = next;
                    },
                }
            },
            EventKind::Start(TagKind::List(_)) => {
                let follows_link = acc.len() > 0 && acc[acc.len() - 1].is_link();
                proof {
                    if acc.len() > 0 {
                        lemma_items_view_index(acc, acc.len() as int);
                    }
                }
                if follows_link {
                    match parse_items(events, at + 1) {
                        Err(e) => {
                            return Err(e);
                        },
                        Ok((nested, next)) => {
                            let last = acc.pop().unwrap();
                            let ghost popped = acc;
                            proof {
                                lemma_all_items_pop(before, popped);
                            }
                            match last {
                                TOCItem::Link(link) => {
                                    let item = TOCItem::Link(
                                        Link { name: link.name, location: link.location, nested_items: nested },
                                    );
                                    acc.push(item);
                                    proof {
                                        lemma_all_items_push(popped, acc, item);
                                    }
                                },
                                other => {
                                    acc.push(other);
                                },
                            }
                            at = next;
                        },
                    }
                } else {
                    at = at + 1;
                }
            },
            EventKind::End(TagKind::List(_)) => {
                return Ok((acc, at + 1));
            },
            EventKind::Start(tag) => {
                let end = find_end(events, at + 1, tag);
                at = if end < n { end + 1 } else { end };
            },
            EventKind::Rule => {
                acc.push(TOCItem::Separator);
                proof {
                    lemma_all_items_push(before, acc, TOCItem::Separator);
                }
                at = at + 1;
            },
            _ => {
                at = at + 1;
            },
        }
    }
}

/// Reads the items from index `i` on.
fn parse_toc(events: &[MarkdownEvent<'_>], i: usize) -> (r: Result<Vec<TOCItem>, usize>)
    requires
        i <= events@.len(),
    ensures
        match r {
            Ok(items) => toc_from(events@, i as int, Seq::empty()) == Ok::<Seq<TocView>, int>(all_items(items)),
            Err(k) => toc_from(events@, i as int, Seq::empty()) == Err::<Seq<TocView>, int>(k as int),
        },
{
    let n = events.len();
    let mut acc: Vec<TOCItem> = Vec::new();
    let mut at = i;
    assert(all_items(acc) =~= Seq::empty());
    while at < n
        invariant
            n == events@.len(),
            i <= at <= n,
            toc_from(events@, at as int, all_items(acc)) == toc_from(events@, i as int, Seq::empty()),
        decreases n - at,
    {
        let ghost before = acc;
        let mut from = at;
        if is_title_start(&events[at].kind) {
            let (title, next) = parse_heading_text(events, at + 1);
            let item = TOCItem::SectionTitle(SectionTitle { title });
            acc.push(item);
            proof {
                lemma_all_items_push(before, acc, item);
            }
            from = next;
        }
        let ghost titled = acc;
        match parse_items(events, from) {
            Err(e) => {
                return Err(e);
            },
            Ok((items, next)) => {
                let mut items = items;
                let ghost run = items;
                acc.append(&mut items);
                proof {
                    lemma_all_items_concat(titled, run, acc);
                }
                if next <= at {
                    return Ok(acc);
                }
                at = next;
            },
        }
    }
    Ok(acc)
}

/// Reads the title: a level-one heading, after any raw HTML such as comments.
fn parse_title(events: &[MarkdownEvent<'_>]) -> (r: (Option<String>, usize))
    ensures
        opt_view(r.0) == toc_title(events@, 0).0,
        r.1 == toc_title(events@, 0).1,
        r.1 <= events@.len(),
{
    let mut at: usize = 0;
    while at < events.len()
        invariant
            at <= events@.len(),
            toc_title(events@, at as int) == toc_title(events@, 0),
        decreases events@.len() - at,
    {
        if is_title_start(&events[at].kind) {
            let (title, next) = parse_heading_text(events, at + 1);
            return (Some(title), next);
        }
        match &events[at].kind {
            EventKind::Html(_) => {
                at = at + 1;
            },
            _ => {
                return (None, at);
            },
        }
    }
    (None, at)
}

impl TableOfContents {
    /// Builds the table of contents from the events of its source text `source`.
    /// Fails, with the position of the offending event, where a list item holds
    /// anything but a link.
    pub fn from_events(source: &str, events: &[MarkdownEvent<'_>]) -> (r: Result<TableOfContents, TocError>)
        ensures
            match toc_of(events@) {
                Ok((title, items)) => r is Ok && opt_view(r->Ok_0.title) == title && all_items(r->Ok_0.items)
                    == items,
                Err(k) => r == Err::<TableOfContents, TocError>(
                    TocError::NotALink(position_of(source.spec_bytes(), consumed_offset(events@, k))),
                ),
            },
    {
        let (title, at) = parse_title(events);
        match parse_toc(events, at) {
            Ok(items) => Ok(TableOfContents { title, items }),
            Err(k) => {
                let offset = if k > 0 && k <= events.len() { events[k - 1].start } else { 0 };
                Err(TocError::NotALink(position(source, offset)))
            },
        }
    }

    /// Parses the source text of a table of contents.
    pub fn parse(source: &str) -> (r: Result<TableOfContents, TocError>)
        ensures
            match toc_of(tokens_of(source@)) {
                Ok((title, items)) => r is Ok && opt_view(r->Ok_0.title) == title && all_items(r->Ok_0.items)
                    == items,
                Err(k) => r == Err::<TableOfContents, TocError>(
                    TocError::NotALink(position_of(source.spec_bytes(), consumed_offset(tokens_of(source@), k))),
                ),
            },
    {
        let events = tokenize(source);
        TableOfContents::from_events(source, events.as_slice())
    }
}

} // verus!
