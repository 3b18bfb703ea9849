use dungeon_mark::config::{JournalConfig, RendererConfig};
use dungeon_mark::render::{CommandRenderer, RenderError};

#[test]
fn render_command_line_is_split_into_program_and_arguments() {
    let renderer = CommandRenderer::new(String::from("html"), String::from("mdrender --out 'my dir' -v"));
    let invocation = renderer.invocation().expect("should split");
    assert_eq!(invocation.program, "mdrender");
    assert!(invocation.in_search_path);
    assert_eq!(invocation.args, vec![String::from("--out"), String::from("my dir"), String::from("-v")]);
}

#[test]
fn render_program_with_separator_is_relative_to_root() {
    let renderer = CommandRenderer::new(String::from("local"), String::from("./bin/render"));
    let invocation = renderer.invocation().expect("should split");
    assert_eq!(invocation.program, "./bin/render");
    assert!(!invocation.in_search_path);
    assert!(invocation.args.is_empty());
}

#[test]
fn render_empty_command_fails() {
    let renderer = CommandRenderer::new(String::from("none"), String::from("   "));
    assert_eq!(renderer.invocation().err(), Some(RenderError::EmptyCommand));
}

#[test]
fn render_config_falls_back_to_name() {
    let with = RendererConfig {
        name: String::from("pdf"),
        command: Some(String::from("make-pdf")),
    };
    let without = RendererConfig {
        name: String::from("pdf"),
        command: None,
    };
    assert_eq!(with.command_line(), "make-pdf");
    assert_eq!(without.command_line(), "pdf");
}

#[test]
fn config_journal_defaults() {
    let config = JournalConfig::default();
    assert_eq!(config.title, None);
    assert!(config.authors.is_empty());
    assert_eq!(config.description, None);
    assert_eq!(config.source, "./src");
}
