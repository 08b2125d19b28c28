//! Commands, the table of all the commands, and the built-in `help`
//! command.
//!
//! The first word of the input selects a command by its keyword; the rest
//! is handed to the command's argument grammar.  While the first word is
//! still being typed, it is compared with the keywords of all commands.

use vstd::prelude::*;
use vstd::string::*;

use crate::command_parser::{
    alt_parse, alt_res_view, csugg_view, opt_nat, values_view, AlternativesCommandParser, ArgSpec, ArgValue,
    ArgValueView, CommandParseRes, CommandSuggestions, FormMatch,
};
use crate::text::views;

pub mod help;
pub mod table;

verus! {

/// What an end of line hint refers to: the whole input, or the bytes
/// `[from, to)` of it.
#[derive(PartialEq, Eq, Clone, Debug)]
pub enum EndOfLineHintTarget {
    WholeLine,
    Substring { from: usize, to: usize },
}

/// Whether a hint informs or reports an error.
#[derive(PartialEq, Eq, Clone, Copy, Debug)]
pub enum HintType {
    Info,
    Error,
}

/// A one line hint shown after the input.
#[derive(PartialEq, Eq, Clone, Debug)]
pub struct EndOfLineHint {
    pub target: EndOfLineHintTarget,
    pub type_: HintType,
    pub text: String,
}

/// The content of an [`EndOfLineHintTarget`].
pub enum TargetView {
    WholeLine,
    Substring { from: nat, to: nat },
}

/// The content of an [`EndOfLineHint`].
pub struct HintView {
    pub target: TargetView,
    pub type_: HintType,
    pub text: Seq<char>,
}

impl View for EndOfLineHint {
    type V = HintView;

    open spec fn view(&self) -> HintView {
        HintView {
            target: match self.target {
                EndOfLineHintTarget::WholeLine => TargetView::WholeLine,
                EndOfLineHintTarget::Substring { from, to } => TargetView::Substring {
                    from: from as nat,
                    to: to as nat,
                },
            },
            type_: self.type_,
            text: self.text@,
        }
    }
}

/// A parsed command, ready to run: the command's keyword, the form its
/// arguments took, and their values.
#[derive(PartialEq, Eq, Clone, Debug)]
pub struct Invocation {
    pub keyword: String,
    pub form: usize,
    pub args: Vec<ArgValue>,
}

/// The content of an [`Invocation`].
pub struct InvocationView {
    pub keyword: Seq<char>,
    pub form: nat,
    pub args: Seq<ArgValueView>,
}

impl View for Invocation {
    type V = InvocationView;

    open spec fn view(&self) -> InvocationView {
        InvocationView { keyword: self.keyword@, form: self.form as nat, args: values_view(self.args@) }
    }
}

/// The advisories derived from the input: what the renderer shows, and the
/// command that pressing Enter runs.
#[derive(PartialEq, Eq, Clone, Debug)]
pub struct ParseRes {
    pub inline_hint: Option<String>,
    pub completion: Option<String>,
    pub end_of_line_hint: Option<EndOfLineHint>,
    pub suggestions: Vec<String>,
    pub usage: Option<String>,
    pub command: Option<Invocation>,
}

/// The content of a [`ParseRes`].
pub struct Advisory {
    pub inline_hint: Option<Seq<char>>,
    pub completion: Option<Seq<char>>,
    pub end_of_line_hint: Option<HintView>,
    pub suggestions: Seq<Seq<char>>,
    pub usage: Option<Seq<char>>,
    pub command: Option<InvocationView>,
}

/// The text of an optional string.
pub open spec fn opt_view(s: Option<String>) -> Option<Seq<char>> {
    match s {
        Some(v) => Some(v@),
        None => None,
    }
}

impl View for ParseRes {
    type V = Advisory;

    open spec fn view(&self) -> Advisory {
        Advisory {
            inline_hint: opt_view(self.inline_hint),
            completion: opt_view(self.completion),
            end_of_line_hint: match self.end_of_line_hint {
                Some(h) => Some(h@),
                None => None,
            },
            suggestions: views(self.suggestions@),
            usage: opt_view(self.usage),
            command: match self.command {
                Some(c) => Some(c@),
                None => None,
            },
        }
    }
}

/// A command: its keyword, its help texts and the grammar of its arguments.
#[derive(PartialEq, Clone, Debug)]
pub struct Command {
    keyword: String,
    short_usage: String,
    long_usage: String,
    parser: AlternativesCommandParser,
}

/// The content of a [`Command`].
pub struct CommandView {
    pub keyword: Seq<char>,
    pub short_usage: Seq<char>,
    pub long_usage: Seq<char>,
    pub forms: Seq<Seq<ArgSpec>>,
}

impl View for Command {
    type V = CommandView;

    closed spec fn view(&self) -> CommandView {
        CommandView {
            keyword: self.keyword@,
            short_usage: self.short_usage@,
            long_usage: self.long_usage@,
            forms: self.parser.forms(),
        }
    }
}

impl Command {
    pub closed spec fn wf(&self) -> bool {
        self.parser.wf()
    }

    /// A command selected by `keyword`, described by a one line
    /// `short_usage` and a multi line `long_usage`, whose arguments follow
    /// `parser`.
    pub fn new(keyword: &str, short_usage: &str, long_usage: &str, parser: AlternativesCommandParser) -> (r: Self)
        requires
            parser.wf(),
        ensures
            r.wf(),
            r@.keyword == keyword@,
            r@.short_usage == short_usage@,
            r@.long_usage == long_usage@,
            r@.forms == parser.forms(),
    {
        Command {
            keyword: keyword.to_owned(),
            short_usage: short_usage.to_owned(),
            long_usage: long_usage.to_owned(),
            parser,
        }
    }

    /// The word that selects this command.
    pub fn keyword(&self) -> (r: &str)
        ensures
            r@ == self@.keyword,
    {
        self.keyword.as_str()
    }

    /// One line of help.
    pub fn short_usage(&self) -> (r: &str)
        ensures
            r@ == self@.short_usage,
    {
        self.short_usage.as_str()
    }

    /// Several lines of help.
    pub fn long_usage(&self) -> (r: &str)
        ensures
            r@ == self@.long_usage,
    {
        self.long_usage.as_str()
    }

    /// Parses the command's arguments; `pos` is the cursor position in them,
    /// when the cursor is there.
    pub fn parse(&self, input: &str, pos: Option<usize>) -> (r: (CommandParseRes<FormMatch>, Option<CommandSuggestions>))
        requires
            self.wf(),
        ensures
            (alt_res_view(r.0), csugg_view(r.1)) == alt_parse(self@.forms, input@, opt_nat(pos)),
    {
        self.parser.parse(input, pos)
    }
}

} // verus!
