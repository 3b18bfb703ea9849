//! Lifting fenced code blocks tagged as metadata out of section bodies.

use vstd::prelude::*;

use crate::cursor::{at_boundary, find_boundary, is_at_boundary, lemma_scan_bounds, scan, Boundary};
use crate::entry::{
    all_sections, lemma_sections_view_prefix, level_number, metadata_view, section_view,
    JournalEntry, Section, SectionMetadata, SectionView,
};
use crate::markdown::{cmark_text, render, tokenize, tokens_of, EventKind, MarkdownEvent, TagKind};
use crate::text::{chars_of, find_char, find_from, same_chars, string_of, trim, trimmed};

verus! {

broadcast use vstd::std_specs::vec::axiom_vec_index_decreases;

/// The word that marks a code block as metadata.
pub open spec fn metadata_word() -> Seq<char> {
    seq!['m', 'e', 't', 'a', 'd', 'a', 't', 'a']
}

/// The three fields of an info string made of exactly three comma-separated
/// fields, each trimmed; `None` for any other number of fields.
pub open spec fn info_fields(info: Seq<char>) -> Option<(Seq<char>, Seq<char>, Seq<char>)> {
    match find_from(info, seq![','], 0) {
        Some(p) => match find_from(info, seq![','], p + 1) {
            Some(q) => if find_from(info, seq![','], q + 1) is None {
                Some(
                    (
                        trim(info.subrange(0, p)),
                        trim(info.subrange(p + 1, q)),
                        trim(info.subrange(q + 1, info.len() as int)),
                    ),
                )
            } else {
                None
            },
            None => None,
        },
        None => None,
    }
}

/// The first field of a metadata block's info string: the language of its data.
pub open spec fn metadata_lang(info: Seq<char>) -> Seq<char> {
    match info_fields(info) {
        Some(f) => f.0,
        None => Seq::empty(),
    }
}

/// The third field of a metadata block's info string: the key of its data.
pub open spec fn metadata_key(info: Seq<char>) -> Seq<char> {
    match info_fields(info) {
        Some(f) => f.2,
        None => Seq::empty(),
    }
}

/// Whether a fenced code block's info string reads `lang, metadata, key`.
pub open spec fn is_metadata_info(info: Seq<char>) -> bool {
    info_fields(info) matches Some(f) && f.1 == metadata_word()
}

/// Whether a fenced code block's info string reads `lang, metadata, key`.
pub fn is_metadata_block(tag: &str) -> (r: bool)
    ensures
        r == is_metadata_info(tag@),
{
    let info = chars_of(tag);
    let n = info.len();
    let p = match find_char(info.as_slice(), ',', 0) {
        Some(p) => p,
        None => return false,
    };
    let q = match find_char(info.as_slice(), ',', p + 1) {
        Some(q) => q,
        None => return false,
    };
    if find_char(info.as_slice(), ',', q + 1).is_some() {
        return false;
    }
    let middle = trimmed(&info.as_slice()[p + 1..q]);
    let word = chars_of("metadata");
    proof {
        reveal_strlit("metadata");
        assert(word@ =~= metadata_word());
    }
    same_chars(middle.as_slice(), word.as_slice())
}

/// The language and the key of a metadata block's info string.
pub fn parse_metadata_tag(tag: &str) -> (r: (String, String))
    requires
        is_metadata_info(tag@),
    ensures
        r.0@ == metadata_lang(tag@),
        r.1@ == metadata_key(tag@),
{
    let info = chars_of(tag);
    let n = info.len();
    let p = find_char(info.as_slice(), ',', 0).unwrap();
    let q = find_char(info.as_slice(), ',', p + 1).unwrap();
    let lang = trimmed(&info.as_slice()[0..p]);
    let key = trimmed(&info.as_slice()[q + 1..n]);
    (string_of(lang.as_slice()), string_of(key.as_slice()))
}

/// A metadata entry as key, language and data.
pub type MetaView = (Seq<char>, Seq<char>, Seq<char>);

/// The index of the entry with key `key`, if there is one.
pub open spec fn key_index(meta: Seq<MetaView>, key: Seq<char>) -> Option<int>
    decreases meta.len(),
{
    if meta.len() == 0 {
        None
    } else if meta.last().0 == key {
        Some(meta.len() - 1)
    } else {
        key_index(meta.drop_last(), key)
    }
}

/// `meta` with the entry for `key` set to `lang` and `data`: the entry with that key
/// is replaced where there is one; otherwise the new one is added at the end.
pub open spec fn meta_insert(meta: Seq<MetaView>, key: Seq<char>, lang: Seq<char>, data: Seq<char>) -> Seq<MetaView> {
    match key_index(meta, key) {
        Some(i) => meta.update(i, (key, lang, data)),
        None => meta.push((key, lang, data)),
    }
}

/// No two entries have the same key.
pub open spec fn keys_unique(meta: Seq<MetaView>) -> bool {
    forall|i: int, j: int| 0 <= i < j < meta.len() ==> #[trigger] meta[i].0 != #[trigger] meta[j].0
}

/// The info string of the code block that an event starts.
pub open spec fn info_of(e: MarkdownEvent<'_>) -> Seq<char> {
    match e.kind {
        EventKind::Start(TagKind::CodeBlock(Some(info))) => info@,
        _ => Seq::empty(),
    }
}

/// The text between blocks of a section's events from index `at` on, after the text
/// `body` and the entries `meta`, with each metadata block lifted into the entries
/// (its data being the text of its contents) and replaced by a blank line.
pub open spec fn extract_from(events: Seq<MarkdownEvent<'_>>, at: int, body: Seq<char>, meta: Seq<MetaView>) -> (Seq<char>, Seq<MetaView>)
    decreases events.len() - at,
{
    if at < 0 || at >= events.len() {
        (body, meta)
    } else if at_boundary(Boundary::MetadataStart, events[at]) {
        let info = info_of(events[at]);
        let end = scan(events, at + 1, Boundary::FenceEnd);
        let next = if end < events.len() { end + 1 } else { end };
        let data = cmark_text(events.subrange(at + 1, end));
        let meta2 = meta_insert(meta, metadata_key(info), metadata_lang(info), data);
        if next <= at || next > events.len() {
            (body, meta2)
        } else {
            extract_from(events, next, body + seq!['\n', '\n'], meta2)
        }
    } else {
        let end = scan(events, at, Boundary::MetadataStart);
        if end <= at || end > events.len() {
            (body, meta)
        } else {
            extract_from(events, end, body + cmark_text(events.subrange(at, end)), meta)
        }
    }
}

/// A section's body and metadata once the metadata blocks of its events are lifted
/// out, after the entries it had.
pub open spec fn extracted(events: Seq<MarkdownEvent<'_>>, meta: Seq<MetaView>) -> (Seq<char>, Seq<MetaView>) {
    extract_from(events, 0, Seq::empty(), meta)
}

proof fn lemma_key_index(meta: Seq<MetaView>, key: Seq<char>)
    ensures
        match key_index(meta, key) {
            Some(i) => 0 <= i < meta.len() && meta[i].0 == key,
            None => forall|j: int| 0 <= j < meta.len() ==> meta[j].0 != key,
        },
    decreases meta.len(),
{
    if meta.len() > 0 && meta.last().0 != key {
        lemma_key_index(meta.drop_last(), key);
        assert(forall|j: int| 0 <= j < meta.len() - 1 ==> meta.drop_last()[j] == meta[j]);
    }
}

/// Setting an entry keeps the keys unique.
pub proof fn lemma_insert_keeps_keys_unique(meta: Seq<MetaView>, key: Seq<char>, lang: Seq<char>, data: Seq<char>)
    requires
        keys_unique(meta),
    ensures
        keys_unique(meta_insert(meta, key, lang, data)),
{
    lemma_key_index(meta, key);
}

/// Sets the entry for `key`, in place of one with the same key.
fn insert_entry(meta: &mut Vec<(String, SectionMetadata)>, key: String, value: SectionMetadata)
    ensures
        metadata_view(final(meta)@) == meta_insert(metadata_view(old(meta)@), key@, value.lang@, value.data@),
{
    let ghost m = metadata_view(meta@);
    let mut i: usize = meta.len();
    assert(m.subrange(0, i as int) =~= m);
    while i > 0
        invariant
            i <= meta@.len(),
            meta@ == old(meta)@,
            m == metadata_view(meta@),
            key_index(m, key@) == key_index(m.subrange(0, i as int), key@),
        decreases i,
    {
        assert(m.subrange(0, i as int).drop_last() =~= m.subrange(0, i - 1));
        if meta[i - 1].0 == key {
            assert(m.subrange(0, i as int).last() == m[i - 1]);
            assert(key_index(m.subrange(0, i as int), key@) == Some(i - 1));
            meta.set(i - 1, (key, value));
            assert(metadata_view(meta@) =~= m.update(i - 1, (key@, value.lang@, value.data@)));
            assert(key_index(m, key@) == Some(i - 1));
            assert(meta_insert(m, key@, value.lang@, value.data@) == m.update(i - 1, (key@, value.lang@, value.data@)));
            return;
        }
        i = i - 1;
    }
    assert(m.subrange(0, 0) =~= Seq::<MetaView>::empty());
    meta.push((key, value));
    assert(metadata_view(meta@) =~= m.push((key@, value.lang@, value.data@)));
}

/// Lifts the metadata blocks out of a section's events, after the entries in `meta`:
/// returns the text that remains.
pub fn extract_events(events: &[MarkdownEvent<'_>], meta: &mut Vec<(String, SectionMetadata)>) -> (r: String)
    ensures
        r@ == extracted(events@, metadata_view(old(meta)@)).0,
        metadata_view(final(meta)@) == extracted(events@, metadata_view(old(meta)@)).1,
{
    let n = events.len();
    let mut body: Vec<char> = Vec::new();
    let mut at: usize = 0;
    let ghost m0 = metadata_view(meta@);
    while at < n
        invariant
            n == events@.len(),
            at <= n,
            extract_from(events@, at as int, body@, metadata_view(meta@)) == extract_from(events@, 0, Seq::empty(), m0),
        decreases n - at,
    {
        if is_at_boundary(Boundary::MetadataStart, &events[at]) {
            let (lang, key) = match &events[at].kind {
                EventKind::Start(TagKind::CodeBlock(Some(info))) => parse_metadata_tag(info.as_str()),
                _ => (String::new(), String::new()),
            };
            let end = find_boundary(events, at + 1, Boundary::FenceEnd);
            let data = render(&events[at + 1..end]);
            insert_entry(meta, key, SectionMetadata { lang, data });
            let ghost b0 = body@;
            body.push('\n');
            body.push('\n');
            assert(body@ =~= b0 + seq!['\n', '\n']);
            at = if end < n { end + 1 } else { end };
        } else {
            let end = find_boundary(events, at, Boundary::MetadataStart);
            proof {
                lemma_scan_bounds(events@, at + 1, Boundary::MetadataStart);
            }
            assert(end > at);
            let text = render(&events[at..end]);
            let mut c = chars_of(text.as_str());
            let ghost b0 = body@;
            body.append(&mut c);
            assert(body@ == b0 + text@);
            at = end;
        }
    }
    string_of(body.as_slice())
}

/// Lifting metadata out of a body keeps the keys of the entries unique.
pub proof fn lemma_extract_keeps_keys_unique(
    events: Seq<MarkdownEvent<'_>>,
    at: int,
    body: Seq<char>,
    meta: Seq<MetaView>,
)
    requires
        keys_unique(meta),
    ensures
        keys_unique(extract_from(events, at, body, meta).1),
    decreases events.len() - at,
{
    if at < 0 || at >= events.len() {
    } else if at_boundary(Boundary::MetadataStart, events[at]) {
        let info = info_of(events[at]);
        let end = scan(events, at + 1, Boundary::FenceEnd);
        let next = if end < events.len() { end + 1 } else { end };
        let data = cmark_text(events.subrange(at + 1, end));
        lemma_insert_keeps_keys_unique(meta, metadata_key(info), metadata_lang(info), data);
        let meta2 = meta_insert(meta, metadata_key(info), metadata_lang(info), data);
        if !(next <= at || next > events.len()) {
            lemma_extract_keeps_keys_unique(events, next, body + seq!['\n', '\n'], meta2);
        }
    } else {
        let end = scan(events, at, Boundary::MetadataStart);
        if !(end <= at || end > events.len()) {
            lemma_extract_keeps_keys_unique(events, end, body + cmark_text(events.subrange(at, end)), meta);
        }
    }
}

/// A body with no metadata block comes back as the renderer writes its events, with
/// its metadata entries as they were: lifting the metadata out of it changes nothing
/// but the renderer's own normalisation.
pub proof fn lemma_no_metadata_unchanged(events: Seq<MarkdownEvent<'_>>, meta: Seq<MetaView>)
    requires
        events.len() > 0,
        forall|k: int| 0 <= k < events.len() ==> !at_boundary(Boundary::MetadataStart, #[trigger] events[k]),
    ensures
        extracted(events, meta) == (cmark_text(events), meta),
{
    lemma_scan_bounds(events, 0, Boundary::MetadataStart);
    let end = scan(events, 0, Boundary::MetadataStart);
    assert(end == events.len());
    assert(events.subrange(0, end) =~= events);
    assert(Seq::<char>::empty() + cmark_text(events) =~= cmark_text(events));
    assert(!at_boundary(Boundary::MetadataStart, events[0]));
    assert(extract_from(events, end, cmark_text(events), meta) == (cmark_text(events), meta));
    assert(extract_from(events, 0, Seq::empty(), meta) == extract_from(
        events,
        end,
        Seq::<char>::empty() + cmark_text(events.subrange(0, end)),
        meta,
    ));
}

/// A section once the metadata blocks of its body, and those of every section below
/// it, are lifted out.
pub open spec fn extracted_view(s: Section) -> SectionView
    decreases s, 1int,
{
    let (body, meta) = extracted(tokens_of(s.body@), metadata_view(s.metadata@));
    SectionView {
        title: s.title@,
        level: level_number(s.level),
        body,
        metadata: meta,
        sections: extracted_views(s.sections, s.sections.len() as int),
    }
}

/// The first `n` sections of `v` once their metadata is lifted out.
pub open spec fn extracted_views(v: Vec<Section>, n: int) -> Seq<SectionView>
    decreases v, n,
{
    if n <= 0 || n > v.len() {
        Seq::empty()
    } else {
        extracted_views(v, n - 1).push(extracted_view(v[n - 1]))
    }
}

/// Lifts the metadata out of every section of a run, each section's children first.
fn extract_all(sections: Vec<Section>) -> (r: Vec<Section>)
    ensures
        all_sections(r) == extracted_views(sections, sections.len() as int),
    decreases sections, 0int,
{
    let ghost orig = sections;
    let mut rest = sections;
    let mut done: Vec<Section> = Vec::new();
    let mut k: usize = 0;
    assert(all_sections(done) =~= Seq::empty());
    assert(rest@ =~= orig@.subrange(0, orig.len() as int));
    while rest.len() > 0
        invariant
            orig == sections,
            k + rest@.len() == orig@.len(),
            rest@ == orig@.subrange(k as int, orig.len() as int),
            all_sections(done) == extracted_views(orig, k as int),
            done@.len() == k,
        decreases rest@.len(),
    {
        let child = rest.remove(0);
        assert(child == orig@[k as int]);
        assert(decreases_to!(orig => child));
        let child = extract_section(child);
        let ghost before = done;
        done.push(child);
        proof {
            lemma_sections_view_prefix(before, done, before.len() as int);
        }
        k = k + 1;
        assert(rest@ =~= orig@.subrange(k as int, orig.len() as int));
    }
    done
}

/// Lifts the metadata out of a section and every section below it.
fn extract_section(s: Section) -> (r: Section)
    ensures
        section_view(r) == extracted_view(s),
    decreases s, 1int,
{
    let Section { title, level, body, metadata, sections } = s;
    assert(decreases_to!(s => sections));
    let sections = extract_all(sections);
    let mut metadata = metadata;
    let events = tokenize(body.as_str());
    let body = extract_events(events.as_slice(), &mut metadata);
    Section { title, level, body, metadata, sections }
}

impl Section {
    /// Lifts the metadata blocks out of this section's body, and out of those of
    /// every section below it: each block tagged `lang, metadata, key` becomes the
    /// entry `key` with its language and data, and leaves a blank line in its place.
    pub fn extract_metadata(self) -> (r: Section)
        ensures
            section_view(r) == extracted_view(self),
    {
        extract_section(self)
    }
}

impl JournalEntry {
    /// Lifts the metadata blocks out of every section of the entry.
    pub fn extract_metadata(self) -> (r: JournalEntry)
        ensures
            all_sections(r.sections) == extracted_views(self.sections, self.sections.len() as int),
            r.title == self.title,
            r.body == self.body,
            r.path == self.path,
            r.level == self.level,
    {
        let JournalEntry { title, body, sections, path, level } = self;
        let sections = extract_all(sections);
        JournalEntry { title, body, sections, path, level }
    }
}

} // verus!
