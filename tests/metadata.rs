use dungeon_mark::entry::{JournalEntry, Section, SectionMetadata};
use dungeon_mark::journal::{Journal, JournalItem};
use dungeon_mark::metadata::{is_metadata_block, parse_metadata_tag};

fn journal_with_body(section_body: &str) -> Journal {
    Journal {
        title: None,
        items: vec![JournalItem::Entry(JournalEntry {
            title: String::from("test"),
            body: None,
            sections: vec![Section {
                title: String::from("test"),
                body: String::from(section_body),
                ..Default::default()
            }],
            level: 1,
            path: None,
        })],
    }
}

#[test]
fn metadata_extracts_metadata_as_expected() {
    let section_body = r#"Test section
```toml,metadata,test
This is test data
```
Following text"#;

    let input_journal = journal_with_body(section_body);
    let actual_journal = input_journal.extract_metadata();

    let metadata = vec![(
        String::from("test"),
        SectionMetadata {
            lang: String::from("toml"),
            data: String::from("This is test data\n"),
        },
    )];

    let expected_journal = Journal {
        title: None,
        items: vec![JournalItem::Entry(JournalEntry {
            title: String::from("test"),
            body: None,
            sections: vec![Section {
                title: String::from("test"),
                body: String::from("Test section\n\nFollowing text"),
                metadata,
                ..Default::default()
            }],
            path: None,
            level: 1,
        })],
    };

    assert_eq!(expected_journal, actual_journal);
}

#[test]
fn metadata_leaves_code_blocks_not_tagged_as_metdata_alone() {
    let section_body = r#"Test section

```toml
This is test data
```

Following text"#;

    let input_journal = journal_with_body(section_body);
    let actual_journal = input_journal.extract_metadata();
    let expected_journal = journal_with_body(section_body);

    assert_eq!(expected_journal, actual_journal);
}

#[test]
fn metadata_scenario_short_body() {
    let section = Section {
        body: String::from("S\n```toml,metadata,test\nDATA\n```\nT"),
        ..Default::default()
    };
    let section = section.extract_metadata();
    assert_eq!(section.body, "S\n\nT");
    assert_eq!(
        section.metadata,
        vec![(
            String::from("test"),
            SectionMetadata {
                lang: String::from("toml"),
                data: String::from("DATA\n"),
            },
        )]
    );
}

#[test]
fn metadata_nested_sections_are_extracted_too() {
    let section = Section {
        body: String::from("Top"),
        sections: vec![Section {
            body: String::from("```yaml, metadata, inner\nx: 1\n```"),
            ..Default::default()
        }],
        ..Default::default()
    };
    let section = section.extract_metadata();
    assert_eq!(section.body, "Top");
    assert!(section.metadata.is_empty());
    assert_eq!(
        section.sections[0].metadata,
        vec![(
            String::from("inner"),
            SectionMetadata {
                lang: String::from("yaml"),
                data: String::from("x: 1\n"),
            },
        )]
    );
}

#[test]
fn metadata_same_key_keeps_the_last_block() {
    let section = Section {
        body: String::from("```a,metadata,k\none\n```\n\n```b,metadata,k\ntwo\n```"),
        ..Default::default()
    };
    let section = section.extract_metadata();
    assert_eq!(
        section.metadata,
        vec![(
            String::from("k"),
            SectionMetadata {
                lang: String::from("b"),
                data: String::from("two\n"),
            },
        )]
    );
}

#[test]
fn metadata_extraction_twice_changes_nothing_more() {
    let section = Section {
        body: String::from("S\n```toml,metadata,test\nDATA\n```\nT"),
        ..Default::default()
    };
    let once = section.extract_metadata();
    let body = once.body.clone();
    let metadata_len = once.metadata.len();
    let twice = once.extract_metadata();
    assert_eq!(twice.body, body);
    assert_eq!(twice.metadata.len(), metadata_len);
}

#[test]
fn metadata_info_strings_are_recognised() {
    assert!(is_metadata_block("toml,metadata,test"));
    assert!(is_metadata_block(" toml , metadata , test "));
    assert!(!is_metadata_block("toml"));
    assert!(!is_metadata_block("toml,metadata"));
    assert!(!is_metadata_block("toml,data,test"));
    assert!(!is_metadata_block("a,metadata,b,c"));
    assert_eq!(
        parse_metadata_tag(" toml , metadata , test "),
        (String::from("toml"), String::from("test"))
    );
}
