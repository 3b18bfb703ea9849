use dungeon_mark::cursor::Position;
use dungeon_mark::toc::{Link, SectionTitle, TOCItem, TableOfContents, TocError};

fn parse(source: &str) -> (Option<String>, Vec<TOCItem>) {
    let toc = TableOfContents::parse(source).expect("TOC failed to parse");
    (toc.title, toc.items)
}

fn link(name: &str, location: &str, nested_items: Vec<TOCItem>) -> TOCItem {
    TOCItem::Link(Link {
        name: String::from(name),
        location: Some(String::from(location)),
        nested_items,
    })
}

#[test]
fn toc_parses_title() {
    let input = "# Journal Title";
    let (title, _) = parse(input);

    assert_eq!("Journal Title", title.expect("toc title was empty"))
}

#[test]
fn toc_skips_comments_and_parses_title() {
    let input = r"<!-- # Journal Title -->
# Actual Title
";
    let (title, _) = parse(input);

    assert_eq!("Actual Title", title.expect("toc title was empty"))
}

#[test]
fn journal_parses_title() {
    let toc = TableOfContents::parse("# Journal Title").expect("journal did not parse");
    assert_eq!("Journal Title", toc.title.expect("journal title was empty"));
}

#[test]
fn journal_skips_comments_and_parses_title() {
    let toc = TableOfContents::parse("<!-- # Journal Title -->\n# Actual Title\n").expect("journal did not parse");
    assert_eq!("Actual Title", toc.title.expect("journal title was empty"));
}

#[test]
fn toc_lists_all_top_level_links() {
    let input = r#"
* [Entry 1](entry1.md)
* [Entry 2](entry2.md)
"#;
    let (_, items) = parse(input);
    let expected = vec![link("Entry 1", "entry1.md", Vec::new()), link("Entry 2", "entry2.md", Vec::new())];

    assert_eq!(items, expected);
}

#[test]
fn toc_lists_all_top_level_links_separated_by_comments() {
    let input = r#"
* [Entry 1](entry1.md)
<!-- comment -->
* [Entry 2](entry2.md)
"#;
    let (_, items) = parse(input);
    let expected = vec![link("Entry 1", "entry1.md", Vec::new()), link("Entry 2", "entry2.md", Vec::new())];

    assert_eq!(items, expected);
}

#[test]
fn toc_lists_all_top_level_links_separated_by_separator() {
    let input = r#"
* [Entry 1](entry1.md)
---
* [Entry 2](entry2.md)
"#;
    let (_, items) = parse(input);
    let expected = vec![
        link("Entry 1", "entry1.md", Vec::new()),
        TOCItem::Separator,
        link("Entry 2", "entry2.md", Vec::new()),
    ];

    assert_eq!(items, expected);
}

#[test]
fn toc_lists_all_top_level_links_separated_by_heading() {
    let input = r#"
* [Entry 1](entry1.md)
# Next Section
* [Entry 2](entry2.md)
"#;
    let (_, items) = parse(input);
    let expected = vec![
        link("Entry 1", "entry1.md", Vec::new()),
        TOCItem::SectionTitle(SectionTitle {
            title: String::from("Next Section"),
        }),
        link("Entry 2", "entry2.md", Vec::new()),
    ];

    assert_eq!(items, expected);
}

#[test]
fn toc_lists_all_top_level_links_separated_by_second_level_heading() {
    let input = r#"
* [Entry 1](entry1.md)
## Next Section
* [Entry 2](entry2.md)
"#;
    let (_, items) = parse(input);
    let expected = vec![link("Entry 1", "entry1.md", Vec::new()), link("Entry 2", "entry2.md", Vec::new())];

    assert_eq!(items, expected);
}

#[test]
fn toc_lists_all_top_level_links_with_nested_links_separated_by_second_level_heading() {
    let input = r#"
* [Entry 1](entry1.md)
  * [Subentry 1](sub_entry1.md)
## Next Section
* [Entry 2](entry2.md)
"#;
    let (_, items) = parse(input);
    let expected = vec![
        link("Entry 1", "entry1.md", vec![link("Subentry 1", "sub_entry1.md", Vec::new())]),
        link("Entry 2", "entry2.md", Vec::new()),
    ];

    assert_eq!(items, expected);
}

#[test]
fn toc_lists_all_top_level_links_separated_by_heading_and_paragraph() {
    let input = r#"
* [Entry 1](entry1.md)
# Next Section
This is a paragraph.
* [Entry 2](entry2.md)
"#;
    let (_, items) = parse(input);
    let expected = vec![
        link("Entry 1", "entry1.md", Vec::new()),
        TOCItem::SectionTitle(SectionTitle {
            title: String::from("Next Section"),
        }),
        link("Entry 2", "entry2.md", Vec::new()),
    ];

    assert_eq!(items, expected);
}

#[test]
fn toc_lists_links_with_nested_links() {
    let input = r#"
* [Entry 1](entry1.md)
  1. [Entry 2](entry2.md)
"#;
    let (_, items) = parse(input);
    let expected = vec![link("Entry 1", "entry1.md", vec![link("Entry 2", "entry2.md", Vec::new())])];

    assert_eq!(items, expected);
}

#[test]
fn toc_link_titles_with_breaks_are_converted_to_spaces() {
    let input = "* [Entry\n1](entry1.md)";
    let (_, items) = parse(input);
    let expected = vec![link("Entry 1", "entry1.md", Vec::new())];

    assert_eq!(items, expected);
}

#[test]
fn toc_nested_list_scenario() {
    let (_, items) = parse("* [E1](e1.md)\n  1. [E2](e2.md)");
    assert_eq!(items, vec![link("E1", "e1.md", vec![link("E2", "e2.md", Vec::new())])]);
}

#[test]
fn toc_item_without_link_fails_with_position() {
    let result = TableOfContents::parse("* [Entry 1](entry1.md)\n* plain text\n");
    match result {
        Err(TocError::NotALink(Position { line, .. })) => assert_eq!(line, 2),
        other => panic!("expected an error, got {:?}", other),
    }
}

#[test]
fn toc_escaped_spaces_in_locations_are_unescaped() {
    let (_, items) = parse("* [Entry](my%20entry.md)");
    assert_eq!(items, vec![link("Entry", "my entry.md", Vec::new())]);
}

#[test]
fn toc_link_without_location_has_none() {
    let (_, items) = parse("* [Draft]()");
    assert_eq!(
        items,
        vec![TOCItem::Link(Link {
            name: String::from("Draft"),
            location: None,
            nested_items: Vec::new(),
        })]
    );
}

#[test]
fn toc_list_without_preceding_link_is_read_at_the_same_level() {
    let (_, items) = parse("---\n\n* [A](a.md)");
    assert_eq!(items, vec![TOCItem::Separator, link("A", "a.md", Vec::new())]);
}

#[test]
fn toc_document_order_is_kept() {
    let (title, items) = parse("# T\n* [A](a.md)\n# Part\n* [B](b.md)\n---\n* [C](c.md)");
    assert_eq!(title, Some(String::from("T")));
    assert_eq!(
        items,
        vec![
            link("A", "a.md", Vec::new()),
            TOCItem::SectionTitle(SectionTitle {
                title: String::from("Part"),
            }),
            link("B", "b.md", Vec::new()),
            TOCItem::Separator,
            link("C", "c.md", Vec::new()),
        ]
    );
}

#[test]
fn toc_item_accessors() {
    let mut item = link("A", "a.md", Vec::new());
    assert!(item.maybe_link().is_some());
    assert!(item.maybe_section_title().is_none());
    assert!(!item.is_separator());
    item.maybe_link_mut().expect("is a link").name = String::from("B");
    assert_eq!(item.maybe_link().expect("is a link").name, "B");
    let mut title = TOCItem::SectionTitle(SectionTitle {
        title: String::from("T"),
    });
    assert!(title.maybe_link_mut().is_none());
    title.maybe_section_title_mut().expect("is a title").title = String::from("U");
    assert_eq!(title.maybe_section_title().expect("is a title").title, "U");
    assert!(TOCItem::Separator.is_separator());
}
