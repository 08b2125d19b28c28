//! The `help` command, which every table holds.

use vstd::prelude::*;
use vstd::string::*;

use super::table::{find_command, CommandsTable};
use super::InvocationView;
use crate::command_parser::ArgValueView;
use super::{Command, CommandView};
use crate::arg_parser::KeywordSetArgParser;
use crate::command_parser::{alternatives_cmd, command_1arg, command_no_args, form_wf, ArgSpec};
use crate::text::{str_chars, views};

verus! {

/// Keyword of the help command.
pub const HELP_KEYWORD: &'static str = "help";

/// One line of help for the help command.
pub const HELP_SHORT_USAGE: &'static str = "All the commands and their descriptions.";

/// Help text of the help command.
pub const HELP_LONG_USAGE: &'static str = "help

    Shows the list of all the supported commands along with their
    descriptions.

help <command>

    Show detailed description of the specified command.
";

/// Hint for the argument of `help <command>`.
pub const COMMAND_NAME_HINT: &'static str = "<command name>";

/// `c` is the help command of a table whose keywords are `all`: without
/// arguments, or with one of `all` as its argument.
pub open spec fn is_help_command(c: CommandView, all: Seq<Seq<char>>) -> bool {
    &&& c.keyword == HELP_KEYWORD@
    &&& c.short_usage == HELP_SHORT_USAGE@
    &&& c.long_usage == HELP_LONG_USAGE@
    &&& c.forms.len() == 2
    &&& c.forms[0].len() == 0
    &&& c.forms[1].len() == 1
    &&& c.forms[1][0] matches ArgSpec::Keyword(k) && k.keywords() == all && k.hint_texts() == seq![
        COMMAND_NAME_HINT@,
    ]
}

/// The help command for a table whose keywords are `keywords`, of which
/// there must be at least one.
pub fn command(keywords: Vec<String>) -> (r: Command)
    requires
        keywords@.len() > 0,
    ensures
        r.wf(),
        is_help_command(r@, views(keywords@)),
{
    let hints = vec![COMMAND_NAME_HINT.to_owned()];
    assert(views(hints@) =~= seq![COMMAND_NAME_HINT@]);
    let names = KeywordSetArgParser::new(keywords, hints);
    let arg = ArgSpec::Keyword(names);
    let forms = vec![command_no_args(), command_1arg(arg)];
    assert(form_wf(forms@[0].args@));
    assert(form_wf(forms@[1].args@));
    let parser = alternatives_cmd(forms);
    let r = Command::new(HELP_KEYWORD, HELP_SHORT_USAGE, HELP_LONG_USAGE, parser);
    assert(r@.forms[0] == forms@[0].args@);
    assert(r@.forms[1] == forms@[1].args@);
    r
}

/// Length of the longest keyword.
pub open spec fn max_keyword_len(cmds: Seq<CommandView>) -> nat
    decreases cmds.len(),
{
    if cmds.len() == 0 {
        0
    } else {
        let m = max_keyword_len(cmds.drop_last());
        if cmds.last().keyword.len() > m {
            cmds.last().keyword.len()
        } else {
            m
        }
    }
}

proof fn lemma_max_keyword_len(cmds: Seq<CommandView>)
    ensures
        forall|j: int| 0 <= j < cmds.len() ==> (#[trigger] cmds[j]).keyword.len() <= max_keyword_len(cmds),
    decreases cmds.len(),
{
    if cmds.len() > 0 {
        lemma_max_keyword_len(cmds.drop_last());
        assert forall|j: int| 0 <= j < cmds.len() implies (#[trigger] cmds[j]).keyword.len() <= max_keyword_len(cmds) by {
            if j < cmds.len() - 1 {
                assert(cmds.drop_last()[j] == cmds[j]);
            }
        }
    }
}

/// `n` spaces.
pub open spec fn spaces(n: nat) -> Seq<char> {
    Seq::new(n, |i: int| ' ')
}

/// A command's line in the list of all commands: indented by two spaces,
/// the keyword padded to `width`, four spaces, the one line help.
pub open spec fn usage_line(c: CommandView, width: nat) -> Seq<char> {
    "  "@ + c.keyword + spaces((width - c.keyword.len()) as nat) + "    "@ + c.short_usage
}

/// One line per command, keywords padded to the longest.
pub open spec fn usage_lines(cmds: Seq<CommandView>) -> Seq<Seq<char>> {
    Seq::new(cmds.len(), |i: int| usage_line(cmds[i], max_keyword_len(cmds)))
}

/// The state of splitting `s` into lines: the finished lines, and the
/// current one.
pub open spec fn lines_state(s: Seq<char>) -> (Seq<Seq<char>>, Seq<char>)
    decreases s.len(),
{
    if s.len() == 0 {
        (Seq::empty(), Seq::empty())
    } else {
        let st = lines_state(s.drop_last());
        if s.last() == '\n' {
            (st.0.push(strip_cr(st.1)), Seq::empty())
        } else {
            (st.0, st.1.push(s.last()))
        }
    }
}

/// A line without the `\r` of a `\r\n` ending.
pub open spec fn strip_cr(l: Seq<char>) -> Seq<char> {
    if l.len() > 0 && l.last() == '\r' {
        l.drop_last()
    } else {
        l
    }
}

/// The lines of `s`, as std's `str::lines` splits them: at `\n` or
/// `\r\n`, with no empty line after a final line ending.
pub open spec fn lines_of(s: Seq<char>) -> Seq<Seq<char>> {
    let st = lines_state(s);
    if st.1.len() > 0 {
        st.0.push(st.1)
    } else {
        st.0
    }
}

/// What running `inv` as a help command prints, for a table holding
/// `cmds`; `None` when `inv` is not a help invocation.
pub open spec fn help_output(cmds: Seq<CommandView>, inv: InvocationView) -> Option<Seq<Seq<char>>> {
    if inv.keyword != HELP_KEYWORD@ {
        None
    } else if inv.form == 0 && inv.args.len() == 0 {
        Some(usage_lines(cmds))
    } else if inv.form == 1 && inv.args.len() == 1 {
        match inv.args[0] {
            ArgValueView::Keyword(k) => match find_command(cmds, k, 0) {
                Some(i) => Some(lines_of(cmds[i as int].long_usage)),
                None => None,
            },
            _ => None,
        }
    } else {
        None
    }
}

/// `inv` does not ask for the help of a keyword missing from `cmds`, which
/// no parse of a table holding `cmds` gives.
pub open spec fn help_request_ok(cmds: Seq<CommandView>, inv: InvocationView) -> bool {
    (inv.keyword == HELP_KEYWORD@ && inv.form == 1 && inv.args.len() == 1) ==> match inv.args[0] {
        ArgValueView::Keyword(k) => find_command(cmds, k, 0) is Some,
        _ => true,
    }
}

/// The lines of `s`, see [`lines_of`].
pub fn split_lines(s: &str) -> (r: Vec<String>)
    ensures
        views(r@) == lines_of(s@),
{
    let chars = str_chars(s);
    let mut out: Vec<String> = Vec::new();
    let mut cur: Vec<char> = Vec::new();
    let mut i: usize = 0;
    while i < chars.len()
        invariant
            chars@ == s@,
            i <= chars@.len(),
            lines_state(s@.take(i as int)) == (views(out@), cur@),
        decreases chars@.len() - i,
    {
        let c = chars[i];
        proof {
            let q = s@.take(i as int + 1);
            assert(q.drop_last() =~= s@.take(i as int));
            assert(q.last() == c);
        }
        if c == '\n' {
            if cur.len() > 0 && cur[cur.len() - 1] == '\r' {
                cur.pop();
            }
            let ghost before = out@;
            let line = crate::text::string_from_chars(&cur);
            out.push(line);
            assert(views(out@) =~= views(before).push(line@));
            cur = Vec::new();
            assert(cur@ =~= Seq::<char>::empty());
        } else {
            cur.push(c);
        }
        i += 1;
    }
    assert(s@.take(i as int) =~= s@);
    if cur.len() > 0 {
        let ghost before = out@;
        let line = crate::text::string_from_chars(&cur);
        out.push(line);
        assert(views(out@) =~= views(before).push(line@));
    }
    out
}

/// The line of each command in the list of all commands, see
/// [`usage_line`].
pub fn all_commands_usage(table: &CommandsTable) -> (r: Vec<String>)
    ensures
        views(r@) == usage_lines(table@),
{
    let ghost cmds = table@;
    let n = table.len();
    let mut width: usize = 0;
    let mut i: usize = 0;
    while i < n
        invariant
            n == cmds.len(),
            cmds == table@,
            i <= n,
            width == max_keyword_len(cmds.take(i as int)),
        decreases n - i,
    {
        let k = table.get(i).keyword().unicode_len();
        proof {
            let q = cmds.take(i as int + 1);
            assert(q.drop_last() =~= cmds.take(i as int));
            assert(q.last() == cmds[i as int]);
        }
        if k > width {
            width = k;
        }
        i += 1;
    }
    assert(cmds.take(i as int) =~= cmds);
    proof {
        lemma_max_keyword_len(cmds);
    }
    let mut r: Vec<String> = Vec::new();
    let mut i: usize = 0;
    while i < n
        invariant
            n == cmds.len(),
            cmds == table@,
            i <= n,
            width == max_keyword_len(cmds),
            forall|j: int| 0 <= j < cmds.len() ==> (#[trigger] cmds[j]).keyword.len() <= width,
            views(r@) == usage_lines(cmds).take(i as int),
        decreases n - i,
    {
        let c = table.get(i);
        let mut line = "  ".to_owned();
        line.append(c.keyword());
        let k = c.keyword().unicode_len();
        assert(k <= width);
        let mut pad: usize = k;
        while pad < width
            invariant
                i < cmds.len(),
                k <= pad <= width,
                line@ == "  "@ + cmds[i as int].keyword + spaces((pad - k) as nat),
            decreases width - pad,
        {
            line.append(" ");
            proof {
                reveal_strlit(" ");
                assert(line@ =~= "  "@ + cmds[i as int].keyword + spaces((pad + 1 - k) as nat));
            }
            pad += 1;
        }
        line.append("    ");
        line.append(c.short_usage());
        let ghost before = r@;
        r.push(line);
        proof {
            assert(views(r@) =~= views(before).push(line@));
            assert(usage_lines(cmds).take(i as int + 1) =~= usage_lines(cmds).take(i as int).push(
                usage_line(cmds[i as int], width as nat),
            ));
        }
        i += 1;
    }
    assert(usage_lines(cmds).take(i as int) =~= usage_lines(cmds));
    r
}

} // verus!
