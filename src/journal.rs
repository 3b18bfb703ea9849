//! The journal: the entries that the table of contents names, in its order, with
//! the chapter titles and separators between them.

use vstd::prelude::*;

use crate::entry::{
    all_sections, opt_view, preamble, preamble_end, top_sections, JournalEntry, ParseError,
    SectionView,
};
use crate::markdown::tokens_of;
use crate::metadata::extracted_views;
use crate::toc::{all_items, item_view, lemma_items_view_index, TOCItem, TableOfContents, TocView};

verus! {

broadcast use vstd::std_specs::vec::axiom_vec_index_decreases;

/// The title of a chapter of the journal.
#[derive(Debug, PartialEq, Eq)]
pub struct ChapterTitle {
    pub title: String,
}

/// One slot of the journal.
#[derive(Debug, PartialEq, Eq)]
pub enum JournalItem {
    Entry(JournalEntry),
    ChapterTitle(ChapterTitle),
    Separator,
}

/// The whole compendium.
#[derive(Debug, PartialEq, Eq)]
pub struct Journal {
    pub title: Option<String>,
    pub items: Vec<JournalItem>,
}

/// A journal item as a mathematical value; an entry as its title, path, depth,
/// body and sections.
pub enum ItemView {
    Entry(Seq<char>, Option<Seq<char>>, u8, Option<Seq<char>>, Seq<SectionView>),
    Chapter(Seq<char>),
    Separator,
}

/// The value of a journal item.
pub open spec fn journal_item_view(item: JournalItem) -> ItemView {
    match item {
        JournalItem::Entry(e) => ItemView::Entry(
            e.title@,
            opt_view(e.path),
            e.level,
            opt_view(e.body),
            all_sections(e.sections),
        ),
        JournalItem::ChapterTitle(c) => ItemView::Chapter(c.title@),
        JournalItem::Separator => ItemView::Separator,
    }
}

/// The values of some journal items.
pub open spec fn journal_items_view(items: Seq<JournalItem>) -> Seq<ItemView> {
    items.map_values(|i: JournalItem| journal_item_view(i))
}

/// The depth below `depth`, which stays at the largest depth there is.
pub open spec fn deeper(depth: u8) -> u8 {
    if depth == u8::MAX { depth } else { (depth + 1) as u8 }
}

/// The journal items that the table-of-contents items stand for, at nesting depth
/// `depth`: a link with a location is an entry (not yet read), followed by the items
/// nested below it one level deeper; a link without one is left out together with
/// what is nested below it; a section title is a chapter title; a separator stays.
pub open spec fn walk(items: Seq<TocView>, depth: u8) -> Seq<ItemView>
    decreases items,
{
    if items.len() == 0 {
        Seq::empty()
    } else {
        let head = match items[0] {
            TocView::Link(name, location, nested) => match location {
                Some(path) => seq![ItemView::Entry(name, Some(path), depth, None, Seq::empty())] + walk(
                    nested,
                    deeper(depth),
                ),
                None => Seq::empty(),
            },
            TocView::Title(t) => seq![ItemView::Chapter(t)],
            TocView::Separator => seq![ItemView::Separator],
        };
        head + walk(items.drop_first(), depth)
    }
}

/// The journal items that the table-of-contents items stand for, at nesting depth
/// `depth`.
fn walk_items(items: &Vec<TOCItem>, depth: u8) -> (r: Vec<JournalItem>)
    ensures
        journal_items_view(r@) == walk(all_items(*items), depth),
    decreases items,
{
    let ghost all = all_items(*items);
    let n = items.len();
    proof {
        lemma_items_view_index(*items, n as int);
    }
    let mut out: Vec<JournalItem> = Vec::new();
    let mut k: usize = 0;
    assert(all.subrange(0, n as int) =~= all);
    assert(journal_items_view(out@) =~= Seq::empty());
    while k < n
        invariant
            n == items@.len() == all.len(),
            all == all_items(*items),
            k <= n,
            forall|j: int| 0 <= j < n ==> #[trigger] all[j] == item_view(items@[j]),
            journal_items_view(out@) + walk(all.subrange(k as int, n as int), depth) == walk(all, depth),
        decreases n - k,
    {
        let ghost rest = all.subrange(k as int, n as int);
        assert(rest.drop_first() =~= all.subrange(k + 1, n as int));
        assert(rest[0] == item_view(items@[k as int]));
        let ghost before = journal_items_view(out@);
        match &items[k] {
            TOCItem::Link(link) => {
                match &link.location {
                    Some(path) => {
                        let entry = JournalEntry {
                            title: link.name.clone(),
                            body: None,
                            sections: Vec::new(),
                            path: Some(path.clone()),
                            level: depth,
                        };
                        assert(all_sections(entry.sections) =~= Seq::empty());
                        out.push(JournalItem::Entry(entry));
                        assert(decreases_to!(items => link.nested_items));
                        let next_depth = if depth == u8::MAX { depth } else { depth + 1 };
                        let mut nested = walk_items(&link.nested_items, next_depth);
                        let ghost pushed = out@;
                        out.append(&mut nested);
                        assert(journal_items_view(out@) =~= journal_items_view(pushed) + walk(
                            all_items(link.nested_items),
                            deeper(depth),
                        ));
                        assert(journal_items_view(pushed) =~= before + seq![
                            ItemView::Entry(link.name@, Some(path@), depth, None, Seq::empty()),
                        ]);
                    },
                    None => {},
                }
            },
            TOCItem::SectionTitle(t) => {
                out.push(JournalItem::ChapterTitle(ChapterTitle { title: t.title.clone() }));
                assert(journal_items_view(out@) =~= before + seq![ItemView::Chapter(t.title@)]);
            },
            TOCItem::Separator => {
                out.push(JournalItem::Separator);
                assert(journal_items_view(out@) =~= before + seq![ItemView::Separator]);
            },
        }
        k = k + 1;
        assert(journal_items_view(out@) + walk(all.subrange(k as int, n as int), depth) =~= walk(all, depth));
    }
    assert(all.subrange(n as int, n as int) =~= Seq::<TocView>::empty());
    assert(journal_items_view(out@) =~= journal_items_view(out@) + walk(Seq::<TocView>::empty(), depth));
    out
}

impl Journal {
    /// The journal that a table of contents describes: its title, and for each link
    /// with a location an entry whose file is yet to be read, top-level links at
    /// depth one.
    pub fn load(toc: &TableOfContents) -> (r: Journal)
        ensures
            opt_view(r.title) == opt_view(toc.title),
            journal_items_view(r.items@) == walk(all_items(toc.items), 1),
    {
        let title = match &toc.title {
            Some(t) => Some(t.clone()),
            None => None,
        };
        Journal { title, items: walk_items(&toc.items, 1) }
    }
}

/// An item once its entry, where it is one, is parsed.
pub open spec fn parsed_item(v: ItemView) -> ItemView {
    match v {
        ItemView::Entry(title, path, depth, body, sections) => match body {
            Some(text) => ItemView::Entry(
                title,
                path,
                depth,
                preamble(tokens_of(text)),
                sections + top_sections(tokens_of(text), preamble_end(tokens_of(text))),
            ),
            None => v,
        },
        other => other,
    }
}

/// An item once the metadata of its entry, where it is one, is lifted out.
pub open spec fn extracted_item(item: JournalItem) -> ItemView {
    match item {
        JournalItem::Entry(e) => ItemView::Entry(
            e.title@,
            opt_view(e.path),
            e.level,
            opt_view(e.body),
            extracted_views(e.sections, e.sections.len() as int),
        ),
        other => journal_item_view(other),
    }
}

impl Journal {
    /// Parses the body of every entry into its preamble and sections, in order.
    pub fn parse_entries(self) -> (r: Result<Journal, ParseError>)
        ensures
            r is Ok,
            r->Ok_0.title == self.title,
            journal_items_view(r->Ok_0.items@) == journal_items_view(self.items@).map_values(
                |v: ItemView| parsed_item(v),
            ),
    {
        let Journal { title, items } = self;
        let ghost orig = items@;
        let n = items.len();
        let mut rest = items;
        let mut done: Vec<JournalItem> = Vec::new();
        let mut k: usize = 0;
        assert(rest@ =~= orig.subrange(0, orig.len() as int));
        while rest.len() > 0
            invariant
                n == orig.len(),
                k + rest@.len() == orig.len(),
                rest@ == orig.subrange(k as int, orig.len() as int),
                done@.len() == k,
                forall|j: int| 0 <= j < k ==> journal_item_view(#[trigger] done@[j]) == parsed_item(
                    journal_item_view(orig[j]),
                ),
            decreases rest@.len(),
        {
            let item = rest.remove(0);
            let ghost g = item;
            assert(g == orig[k as int]);
            let next = match item {
                JournalItem::Entry(entry) => match entry.parse() {
                    Ok(parsed) => JournalItem::Entry(parsed),
                    Err(e) => {
                        return Err(e);
                    },
                },
                other => other,
            };
            assert(journal_item_view(next) == parsed_item(journal_item_view(g)));
            done.push(next);
            k = k + 1;
            assert(rest@ =~= orig.subrange(k as int, orig.len() as int));
        }
        assert(journal_items_view(done@) =~= journal_items_view(orig).map_values(|v: ItemView| parsed_item(v)));
        Ok(Journal { title, items: done })
    }

    /// Lifts the metadata blocks out of every section of every entry.
    pub fn extract_metadata(self) -> (r: Journal)
        ensures
            r.title == self.title,
            journal_items_view(r.items@) == self.items@.map_values(|i: JournalItem| extracted_item(i)),
    {
        let Journal { title, items } = self;
        let ghost orig = items@;
        let n = items.len();
        let mut rest = items;
        let mut done: Vec<JournalItem> = Vec::new();
        let mut k: usize = 0;
        assert(rest@ =~= orig.subrange(0, orig.len() as int));
        while rest.len() > 0
            invariant
                n == orig.len(),
                k + rest@.len() == orig.len(),
                rest@ == orig.subrange(k as int, orig.len() as int),
                done@.len() == k,
                forall|j: int| 0 <= j < k ==> journal_item_view(#[trigger] done@[j]) == extracted_item(orig[j]),
            decreases rest@.len(),
        {
            let item = rest.remove(0);
            let ghost g = item;
            assert(g == orig[k as int]);
            let next = match item {
                JournalItem::Entry(entry) => JournalItem::Entry(entry.extract_metadata()),
                other => other,
            };
            assert(journal_item_view(next) == extracted_item(g));
            done.push(next);
            k = k + 1;
            assert(rest@ =~= orig.subrange(k as int, orig.len() as int));
        }
        assert(journal_items_view(done@) =~= orig.map_values(|i: JournalItem| extracted_item(i)));
        Journal { title, items: done }
    }
}

impl Journal {
    /// Puts in place of every item, in order, what `func` returns for it.
    pub fn for_each_mut<F: Fn(JournalItem) -> JournalItem>(self, func: F) -> (r: Journal)
        requires
            forall|i: JournalItem| call_requires(func, (i,)),
        ensures
            r.title == self.title,
            r.items@.len() == self.items@.len(),
            forall|j: int| 0 <= j < self.items@.len() ==> call_ensures(func, (self.items@[j],), #[trigger] r.items@[j]),
    {
        let Journal { title, items } = self;
        let ghost orig = items@;
        let n = items.len();
        let mut rest = items;
        let mut done: Vec<JournalItem> = Vec::new();
        let mut k: usize = 0;
        assert(rest@ =~= orig.subrange(0, n as int));
        while rest.len() > 0
            invariant
                n == orig.len(),
                k + rest@.len() == n,
                rest@ == orig.subrange(k as int, n as int),
                done@.len() == k,
                forall|i: JournalItem| call_requires(func, (i,)),
                forall|j: int| 0 <= j < k ==> call_ensures(func, (orig[j],), #[trigger] done@[j]),
            decreases rest@.len(),
        {
            let item = rest.remove(0);
            assert(item == orig[k as int]);
            let next = func(item);
            done.push(next);
            k = k + 1;
            assert(rest@ =~= orig.subrange(k as int, n as int));
        }
        Journal { title, items: done }
    }
}

/// The stage that lifts metadata blocks out of every section of a journal.
#[derive(Debug)]
pub struct MetadataTransformer;

impl MetadataTransformer {
    /// The metadata stage.
    pub fn new() -> (r: MetadataTransformer) {
        MetadataTransformer
    }

    /// The name of the stage.
    pub fn name(&self) -> (r: &'static str)
        ensures
            r@ == seq!['m', 'e', 't', 'a', 'd', 'a', 't', 'a'],
    {
        proof {
            reveal_strlit("metadata");
        }
        "metadata"
    }

    /// Lifts the metadata blocks out of every section of every entry of `journal`.
    pub fn run(&self, journal: Journal) -> (r: Journal)
        ensures
            r.title == journal.title,
            journal_items_view(r.items@) == journal.items@.map_values(|i: JournalItem| extracted_item(i)),
    {
        journal.extract_metadata()
    }
}

} // verus!
