use dungeon_mark::entry::{JournalEntry, Section, SectionLevel};
use dungeon_mark::journal::{ChapterTitle, Journal, JournalItem, MetadataTransformer};
use dungeon_mark::toc::TableOfContents;

#[test]
fn journal_load_walks_the_table_of_contents() {
    let toc = TableOfContents::parse("# Book\n* [Entry 1](./entry_1.md)\n  * [Sub](sub.md)\n* [Draft]()\n  * [Hidden](hidden.md)\n# Part\n---\n")
        .expect("should parse");
    let journal = Journal::load(&toc);
    assert_eq!(journal.title, Some(String::from("Book")));
    assert_eq!(
        journal.items,
        vec![
            JournalItem::Entry(JournalEntry {
                title: String::from("Entry 1"),
                path: Some(String::from("./entry_1.md")),
                level: 1,
                ..Default::default()
            }),
            JournalItem::Entry(JournalEntry {
                title: String::from("Sub"),
                path: Some(String::from("sub.md")),
                level: 2,
                ..Default::default()
            }),
            JournalItem::ChapterTitle(ChapterTitle {
                title: String::from("Part"),
            }),
            JournalItem::Separator,
        ]
    );
}

#[test]
fn journal_loads_and_parses_entries() {
    let toc = TableOfContents::parse("* [Entry 1](./entry_1.md)").expect("should parse");
    let mut journal = Journal::load(&toc);
    for item in journal.items.iter_mut() {
        if let JournalItem::Entry(entry) = item {
            entry.body = Some(String::from("# Test Entry\nThis is a test entry!"));
        }
    }
    let journal = journal.parse_entries().expect("failed to build journal");
    let expected = vec![JournalItem::Entry(JournalEntry {
        title: String::from("Entry 1"),
        body: None,
        sections: vec![Section {
            title: String::from("Test Entry"),
            level: SectionLevel::H1,
            body: String::from("This is a test entry!"),
            metadata: Vec::new(),
            sections: Vec::new(),
        }],
        path: Some(String::from("./entry_1.md")),
        level: 1,
    })];
    assert_eq!(expected, journal.items);
}

#[test]
fn journal_for_each_mut_maps_every_item() {
    let journal = Journal {
        title: None,
        items: vec![JournalItem::Separator, JournalItem::Separator],
    };
    let journal = journal.for_each_mut(|_item| JournalItem::ChapterTitle(ChapterTitle { title: String::from("X") }));
    assert_eq!(
        journal.items,
        vec![
            JournalItem::ChapterTitle(ChapterTitle { title: String::from("X") }),
            JournalItem::ChapterTitle(ChapterTitle { title: String::from("X") }),
        ]
    );
}

#[test]
fn journal_metadata_transformer_runs_over_entries() {
    let journal = Journal {
        title: Some(String::from("T")),
        items: vec![JournalItem::Entry(JournalEntry {
            sections: vec![Section {
                body: String::from("```toml,metadata,k\nv = 1\n```"),
                ..Default::default()
            }],
            ..Default::default()
        })],
    };
    let transformer = MetadataTransformer::new();
    assert_eq!(transformer.name(), "metadata");
    let journal = transformer.run(journal);
    let JournalItem::Entry(entry) = &journal.items[0] else {
        panic!("first item was not an entry")
    };
    assert_eq!(entry.sections[0].metadata.len(), 1);
    assert_eq!(entry.sections[0].metadata[0].0, "k");
    assert_eq!(entry.sections[0].metadata[0].1.data, "v = 1\n");
}
