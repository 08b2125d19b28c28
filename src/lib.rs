//! Interactive command prompt engine: an edit buffer whose every change
//! recomputes hints, completions, suggestions and a ready-to-run command from
//! a table of declared commands.

pub mod arg_parser;
pub mod command_parser;
pub mod commands;
pub mod history;
pub mod input;
pub mod text;

pub use commands::table::CommandsTable;
pub use input::{Input, Prompt};
pub use text::{common_prefix, str_byte_pos};

use vstd::prelude::*;

verus! {

/// Where commands write their output, one line at a time.
pub trait TerminalContentRef {
    /// The lines written so far.
    spec fn lines(&self) -> Seq<Seq<char>>;

    /// Appends `line`.
    fn push(&mut self, line: String)
        ensures
            final(self).lines() == old(self).lines().push(line@),
    ;

    /// Appends `lines`, in order.
    fn extend(&mut self, lines: Vec<String>)
        ensures
            final(self).lines() == old(self).lines() + text::views(lines@),
    ;
}

impl TerminalContentRef for Vec<String> {
    open spec fn lines(&self) -> Seq<Seq<char>> {
        text::views(self@)
    }

    fn push(&mut self, line: String) {
        Vec::push(self, line);
        assert(text::views(self@) =~= text::views(old(self)@).push(line@));
    }

    fn extend(&mut self, lines: Vec<String>) {
        let mut lines = lines;
        let ghost added = lines@;
        self.append(&mut lines);
        assert(text::views(self@) =~= text::views(old(self)@) + text::views(added));
    }
}

} // verus!
