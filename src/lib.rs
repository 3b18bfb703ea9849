//! A document-model compiler for multi-file Markdown compendiums.
//!
//! A table of contents written as a Markdown list names the entries of a journal;
//! each entry's body is split into a tree of sections by its headings, directives
//! of the form `{{#...}}` are expanded before that, and fenced code blocks tagged
//! as metadata are lifted out of the section bodies afterwards.

pub mod markdown;
pub mod text;
pub mod cursor;
pub mod metadata;
pub mod entry;
pub mod toc;
pub mod directive;
pub mod journal;
pub mod config;
pub mod render;
