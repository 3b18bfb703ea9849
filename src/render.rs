//! Renderers that run as outside programs: how their command line is read.

use vstd::prelude::*;

use crate::directive::strings_view;
use crate::text::{chars_of, find_char};

verus! {

/// The words of a command line, split as a POSIX shell splits them.
pub uninterp spec fn shell_words(command: Seq<char>) -> Seq<Seq<char>>;

/// Relies on `shlex::Shlex`, collected: the words of `command` split with the quoting
/// rules of a POSIX shell, up to the first malformed part; they depend on `command`
/// alone.
#[verifier::external_body]
fn split_words(command: &str) -> (r: Vec<String>)
    ensures
        strings_view(r@) == shell_words(command@),
{
    shlex::Shlex::new(command).collect()
}

/// A renderer that runs a program, named by a command line.
#[derive(Debug)]
pub struct CommandRenderer {
    pub name: String,
    pub command: String,
}

/// How to start a renderer's program.
#[derive(Debug)]
pub struct Invocation {
    /// The program: a bare name to look up in the search path, or a path.
    pub program: String,
    /// Whether the program is looked up in the search path; where not, it is a path
    /// relative to the root of the journal.
    pub in_search_path: bool,
    /// The arguments.
    pub args: Vec<String>,
}

/// Why a renderer could not be started.
#[derive(Debug, Clone, Copy, PartialEq, Eq, Structural)]
pub enum RenderError {
    /// The command line holds no words.
    EmptyCommand,
}

impl CommandRenderer {
    /// A renderer with this name, run by this command line.
    pub fn new(name: String, command: String) -> (r: CommandRenderer)
        ensures
            r.name == name,
            r.command == command,
    {
        CommandRenderer { name, command }
    }

    /// How to start the renderer: the first word of its command line is the program,
    /// looked up in the search path where it holds no `/`; the other words are its
    /// arguments. Fails where the command line holds no words.
    pub fn invocation(&self) -> (r: Result<Invocation, RenderError>)
        ensures
            match r {
                Ok(inv) => {
                    let words = shell_words(self.command@);
                    &&& words.len() > 0
                    &&& inv.program@ == words[0]
                    &&& inv.in_search_path == !words[0].contains('/')
                    &&& strings_view(inv.args@) == words.drop_first()
                },
                Err(e) => e == RenderError::EmptyCommand && shell_words(self.command@).len() == 0,
            },
    {
        let mut words = split_words(self.command.as_str());
        if words.len() == 0 {
            return Err(RenderError::EmptyCommand);
        }
        let ghost all = words@;
        let program = words.remove(0);
        assert(strings_view(words@) =~= strings_view(all).drop_first());
        let chars = chars_of(program.as_str());
        let slash = find_char(chars.as_slice(), '/', 0);
        proof {
            if slash is None {
                assert forall|i: int| 0 <= i < chars@.len() implies chars@[i] != '/' by {
                    lemma_no_char(chars@, '/', i);
                }
            } else {
                let i = slash->Some_0 as int;
                assert(chars@[i] == '/');
            }
        }
        Ok(Invocation { program, in_search_path: slash.is_none(), args: words })
    }
}

/// Where a search from the start finds no `c`, no character is `c`.
proof fn lemma_no_char(s: Seq<char>, c: char, i: int)
    requires
        0 <= i < s.len(),
        crate::text::find_from(s, seq![c], 0) is None,
    ensures
        s[i] != c,
{
    lemma_no_char_from(s, c, 0, i);
}

proof fn lemma_no_char_from(s: Seq<char>, c: char, from: int, i: int)
    requires
        0 <= from <= i < s.len(),
        crate::text::find_from(s, seq![c], from) is None,
    ensures
        s[i] != c,
    decreases i - from,
{
    if s[from] == c {
        assert(s.subrange(from, from + 1) =~= seq![c]);
    }
    if from < i {
        lemma_no_char_from(s, c, from + 1, i);
    }
}

} // verus!
