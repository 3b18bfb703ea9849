//! The typed parts of a journal's configuration.

use vstd::prelude::*;

verus! {

/// Settings of the journal itself.
#[derive(Debug, Clone)]
pub struct JournalConfig {
    /// The title of the compendium.
    pub title: Option<String>,
    /// Its authors.
    pub authors: Vec<String>,
    /// A description of it.
    pub description: Option<String>,
    /// Where its sources lie, relative to the root of the journal.
    pub source: String,
}

impl Default for JournalConfig {
    /// No title, authors or description, and sources under `./src`.
    fn default() -> (r: JournalConfig)
        ensures
            r.title is None,
            r.authors@.len() == 0,
            r.description is None,
            r.source@ == seq!['.', '/', 's', 'r', 'c'],
    {
        let source = String::from_str("./src");
        proof {
            reveal_strlit("./src");
        }
        JournalConfig { title: None, authors: Vec::new(), description: None, source }
    }
}

/// One renderer: a name, and the command that runs it.
#[derive(Debug, Clone)]
pub struct RendererConfig {
    pub name: String,
    /// The command line; where it is not set, the name serves as the command.
    pub command: Option<String>,
}

impl RendererConfig {
    /// The command line that runs the renderer: its command, or else its name.
    pub fn command_line(&self) -> (r: String)
        ensures
            r@ == match self.command {
                Some(c) => c@,
                None => self.name@,
            },
    {
        match &self.command {
            Some(c) => c.clone(),
            None => self.name.clone(),
        }
    }
}

/// Settings of the build.
#[derive(Debug, Clone)]
pub struct BuildConfig {
    /// The renderers, in the order in which they run.
    pub renderers: Vec<RendererConfig>,
}

} // verus!
