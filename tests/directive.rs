use dungeon_mark::directive::{expand_directives, DirectiveError, Segment};
use dungeon_mark::entry::JournalEntry;

fn new_entry(input: &str) -> JournalEntry {
    JournalEntry {
        title: String::from("Test"),
        body: Some(String::from(input)),
        ..Default::default()
    }
}

fn preprocess(entry: &mut JournalEntry) -> Result<(), DirectiveError> {
    let body = entry.body.clone().unwrap_or_default();
    let expansion = expand_directives(&body)?;
    entry.apply_expansion(&expansion, &[]);
    Ok(())
}

#[test]
fn succeeds_with_balanced_braces() {
    let mut entry = new_entry("{{#title test}} {{#title test}}");
    preprocess(&mut entry).expect("failed to unwrap balanced braces");
}

#[test]
fn updates_title_with_directive() {
    let mut entry = new_entry("{{#title Test Title}}");
    preprocess(&mut entry).expect("failed to unwrap balanced braces");

    assert_eq!("Test Title", entry.title)
}

#[test]
#[should_panic]
fn fails_with_unbalanced_braces() {
    let mut entry = new_entry("}}test{{#");
    preprocess(&mut entry).unwrap();
}

#[test]
#[should_panic]
fn fails_with_no_directive_closure() {
    let mut entry = new_entry("{{#include");
    preprocess(&mut entry).unwrap();
}

#[test]
fn directive_last_title_wins_and_spans_vanish() {
    let mut entry = new_entry("{{#title A}} {{#title B}}");
    preprocess(&mut entry).expect("should expand");
    assert_eq!(entry.title, "B");
    assert_eq!(entry.body, Some(String::from(" ")));
}

#[test]
fn directive_errors_name_their_cause() {
    assert_eq!(expand_directives("}}test{{#"), Err(DirectiveError::CloseBeforeOpen));
    assert_eq!(expand_directives("{{#include"), Err(DirectiveError::Unclosed));
}

#[test]
fn directive_text_without_directives_is_kept() {
    let expansion = expand_directives("plain text").expect("should expand");
    assert_eq!(expansion.segments, vec![Segment::Text(String::from("plain text"))]);
    assert_eq!(expansion.title, None);
}

#[test]
fn directive_unknown_keyword_is_left_verbatim() {
    let mut entry = new_entry("a {{#other x}} b");
    preprocess(&mut entry).expect("should expand");
    assert_eq!(entry.body, Some(String::from("a {{#other x}} b")));
    assert_eq!(entry.title, "Test");
}

#[test]
fn directive_include_is_replaced_by_contents() {
    let expansion = expand_directives("before {{#include  part.md }} after").expect("should expand");
    assert_eq!(
        expansion.segments,
        vec![
            Segment::Text(String::from("before ")),
            Segment::Include(String::from("part.md")),
            Segment::Text(String::from(" after")),
        ]
    );
    let text = expansion.assemble(&[String::from("INCLUDED")]);
    assert_eq!(text, "before INCLUDED after");
}
