//! The table of all the commands, and how it turns the input into
//! advisories.

use vstd::prelude::*;
use vstd::string::*;

use super::{
    opt_view, Advisory, Command, CommandView, EndOfLineHint, EndOfLineHintTarget, HintType, HintView,
    Invocation, InvocationView, ParseRes, TargetView,
};
use crate::command_parser::{
    alt_parse, alt_res_view, csugg_view, failure_in_bounds, lemma_alt_parse_bounds, opt_nat, CmdOutcome,
    CommandParseFailure, CommandParseRes, CommandSuggestions, FailureView, FormMatch, FormMatchView,
};
use crate::text::{
    byte_pos, char_index_of_byte, chars_byte_pos, chars_eq, common_prefix, common_prefix_of, is_prefix,
    lemma_match_len_bounds, lemma_match_len_prefix, str_byte_len, str_chars, utf8_len,
    views, white_space,
};

use super::help::{
    all_commands_usage, help_output, help_request_ok, is_help_command, split_lines, usage_lines,
    HELP_KEYWORD,
};
use super::help;
use crate::command_parser::ArgValue;

verus! {

/// End of the run of `\s` from `i`.
pub open spec fn space_run(s: Seq<char>, i: nat) -> nat
    decreases s.len() - i,
{
    if i < s.len() && white_space(s[i as int]) {
        space_run(s, i + 1)
    } else {
        i
    }
}

/// End of the run of `\S` from `i`.
pub open spec fn word_run(s: Seq<char>, i: nat) -> nat
    decreases s.len() - i,
{
    if i < s.len() && !white_space(s[i as int]) {
        word_run(s, i + 1)
    } else {
        i
    }
}

/// End of the line that holds `i`: the next `\n`, or the end of `s`.
pub open spec fn line_run(s: Seq<char>, i: nat) -> nat
    decreases s.len() - i,
{
    if i < s.len() && s[i as int] != '\n' {
        line_run(s, i + 1)
    } else {
        i
    }
}

/// The match of `\s*(\S+)\s*(.*)` in `s`, as code point positions: the
/// command word `[ws, we)` and its arguments `[as, ae)`; `None` when `s`
/// holds only whitespace.
pub open spec fn command_spans(s: Seq<char>) -> Option<(nat, nat, nat, nat)> {
    let ws = space_run(s, 0);
    if ws >= s.len() {
        None
    } else {
        let we = word_run(s, ws);
        let a = space_run(s, we);
        Some((ws, we, a, line_run(s, a)))
    }
}

/// `[ws, we)` and `[a, e)` are the groups of the match of
/// `\s*(\S+)\s*(.*)` in `s`.
pub open spec fn spans_at(s: Seq<char>, ws: int, we: int, a: int, e: int) -> bool {
    &&& 0 <= ws < we <= a <= e <= s.len()
    &&& forall|j: int| 0 <= j < ws ==> white_space(#[trigger] s[j])
    &&& forall|j: int| ws <= j < we ==> !white_space(#[trigger] s[j])
    &&& (we == s.len() || white_space(s[we]))
    &&& forall|j: int| we <= j < a ==> white_space(#[trigger] s[j])
    &&& (a == s.len() || !white_space(s[a]))
    &&& forall|j: int| a <= j < e ==> #[trigger] s[j] != '\n'
    &&& (e == s.len() || s[e] == '\n')
}

/// Byte offsets of the groups of `\s*(\S+)\s*(.*)` in `input`.
///
/// Relies on `regex::Regex::captures`, whose `\s` is `\p{White_Space}`
/// (see [`white_space`]): `\s*` and `\S+` are greedy and
/// `.` stops at `\n`, so the first group is the first run of
/// non-whitespace and the second runs from the next non-whitespace to the
/// end of that line.  There is no match when `input` is all whitespace.
#[verifier::external_body]
fn split_command(input: &str) -> (r: Option<(usize, usize, usize, usize)>)
    ensures
        r is None <==> forall|j: int| 0 <= j < input@.len() ==> white_space(#[trigger] input@[j]),
        r matches Some((b1, b2, b3, b4)) ==> exists|ws: int, we: int, a: int, e: int|
            #![trigger spans_at(input@, ws, we, a, e)]
            {
                &&& spans_at(input@, ws, we, a, e)
                &&& b1 == byte_pos(input@, ws)
                &&& b2 == byte_pos(input@, we)
                &&& b3 == byte_pos(input@, a)
                &&& b4 == byte_pos(input@, e)
            },
{
    let caps = regex::Regex::new(r"\s*(\S+)\s*(.*)").unwrap().captures(input)?;
    let word = caps.get(1).unwrap();
    let args = caps.get(2).unwrap();
    Some((word.start(), word.end(), args.start(), args.end()))
}

proof fn lemma_space_run(s: Seq<char>, i: nat, k: nat)
    requires
        i <= k <= s.len(),
        forall|j: int| i <= j < k ==> white_space(#[trigger] s[j]),
        k == s.len() || !white_space(s[k as int]),
    ensures
        space_run(s, i) == k,
    decreases k - i,
{
    if i < k {
        lemma_space_run(s, i + 1, k);
    }
}

proof fn lemma_word_run(s: Seq<char>, i: nat, k: nat)
    requires
        i <= k <= s.len(),
        forall|j: int| i <= j < k ==> !white_space(#[trigger] s[j]),
        k == s.len() || white_space(s[k as int]),
    ensures
        word_run(s, i) == k,
    decreases k - i,
{
    if i < k {
        lemma_word_run(s, i + 1, k);
    }
}

proof fn lemma_line_run(s: Seq<char>, i: nat, k: nat)
    requires
        i <= k <= s.len(),
        forall|j: int| i <= j < k ==> #[trigger] s[j] != '\n',
        k == s.len() || s[k as int] == '\n',
    ensures
        line_run(s, i) == k,
    decreases k - i,
{
    if i < k {
        lemma_line_run(s, i + 1, k);
    }
}

proof fn lemma_spans(s: Seq<char>, ws: int, we: int, a: int, e: int)
    requires
        spans_at(s, ws, we, a, e),
    ensures
        command_spans(s) == Some((ws as nat, we as nat, a as nat, e as nat)),
{
    lemma_space_run(s, 0, ws as nat);
    lemma_word_run(s, ws as nat, we as nat);
    lemma_space_run(s, we as nat, a as nat);
    lemma_line_run(s, a as nat, e as nat);
}

proof fn lemma_no_spans(s: Seq<char>)
    requires
        forall|j: int| 0 <= j < s.len() ==> white_space(#[trigger] s[j]),
    ensures
        command_spans(s) is None,
{
    lemma_space_run(s, 0, s.len());
}

/// The keyword of each command.
pub open spec fn keywords_of(cmds: Seq<CommandView>) -> Seq<Seq<char>> {
    cmds.map_values(|c: CommandView| c.keyword)
}

/// Index of the first command from `i` on whose keyword is `word`.
pub open spec fn find_command(cmds: Seq<CommandView>, word: Seq<char>, i: nat) -> Option<nat>
    decreases cmds.len() - i,
{
    if i >= cmds.len() {
        None
    } else if cmds[i as int].keyword == word {
        Some(i)
    } else {
        find_command(cmds, word, i + 1)
    }
}

/// The keywords that start with `word`, in table order.
pub open spec fn matching_keywords(cmds: Seq<CommandView>, word: Seq<char>) -> Seq<Seq<char>>
    decreases cmds.len(),
{
    if cmds.len() == 0 {
        Seq::empty()
    } else {
        let r = matching_keywords(cmds.drop_last(), word);
        if is_prefix(word, cmds.last().keyword) {
            r.push(cmds.last().keyword)
        } else {
            r
        }
    }
}

/// `parts` with `sep` between each two.
pub open spec fn join_with(parts: Seq<Seq<char>>, sep: Seq<char>) -> Seq<char>
    decreases parts.len(),
{
    if parts.len() == 0 {
        Seq::empty()
    } else if parts.len() == 1 {
        parts[0]
    } else {
        join_with(parts.drop_last(), sep) + sep + parts.last()
    }
}

/// No command word yet: every keyword is a suggestion.
pub open spec fn empty_input_advisory(cmds: Seq<CommandView>) -> Advisory {
    Advisory {
        inline_hint: Some("<command>"@),
        completion: None,
        end_of_line_hint: None,
        suggestions: keywords_of(cmds),
        usage: Some("Waiting for a command"@),
        command: None,
    }
}

/// The command word matches no keyword.
pub open spec fn no_match_advisory() -> Advisory {
    Advisory {
        inline_hint: None,
        completion: None,
        end_of_line_hint: Some(
            HintView { target: TargetView::WholeLine, type_: HintType::Error, text: "Unknown command"@ },
        ),
        suggestions: Seq::empty(),
        usage: None,
        command: None,
    }
}

/// The command word starts some keywords, but the cursor is elsewhere.
pub open spec fn prefix_outside_advisory() -> Advisory {
    Advisory {
        inline_hint: None,
        completion: None,
        end_of_line_hint: Some(
            HintView { target: TargetView::WholeLine, type_: HintType::Info, text: "<command>"@ },
        ),
        suggestions: Seq::empty(),
        usage: None,
        command: None,
    }
}

/// Inline hint and completion for the typed `prefix` of a command word
/// that the keywords `ks` extend: what their common prefix adds; a single
/// match also completes the separating space.
pub open spec fn hint_and_completion(prefix: Seq<char>, ks: Seq<Seq<char>>) -> (Option<Seq<char>>, Option<Seq<char>>) {
    let c = common_prefix_of(ks);
    if c.len() == 0 || c.len() == prefix.len() {
        (None, None)
    } else if ks.len() == 1 {
        (Some(c.skip(prefix.len() as int)), Some(c.skip(prefix.len() as int).push(' ')))
    } else {
        (Some(c.skip(prefix.len() as int)), Some(c.skip(prefix.len() as int)))
    }
}

/// The cursor is in a command word that starts the keywords `ks`; `prefix`
/// is the part of the word before the cursor.
pub open spec fn prefix_advisory(prefix: Seq<char>, ks: Seq<Seq<char>>) -> Advisory {
    let hc = hint_and_completion(prefix, ks);
    Advisory {
        inline_hint: hc.0,
        completion: hc.1,
        end_of_line_hint: Some(
            HintView { target: TargetView::WholeLine, type_: HintType::Info, text: "<command>"@ },
        ),
        suggestions: ks,
        usage: None,
        command: None,
    }
}

/// Suggestions, none when absent.
pub open spec fn sugg_or_empty(sugg: Option<Seq<Seq<char>>>) -> Seq<Seq<char>> {
    match sugg {
        Some(v) => v,
        None => Seq::empty(),
    }
}

/// The advisory for the arguments `s[a..e]` of the command `cmd`, given
/// what its grammar made of them.  Positions of a failure are turned into
/// byte offsets in `s`.
pub open spec fn args_advisory(
    cmd: CommandView,
    res: CmdOutcome<FormMatchView>,
    sugg: Option<Seq<Seq<char>>>,
    s: Seq<char>,
    a: nat,
    e: nat,
) -> Advisory {
    let hint = match res {
        CmdOutcome::Parsed(_) => None,
        CmdOutcome::Failed { reason, .. } => Some(
            match reason {
                FailureView::ArgumentParseFailed { from, to, reason } => HintView {
                    target: TargetView::Substring { from: byte_pos(s, a as int) + from, to: byte_pos(s, a as int) + to },
                    type_: HintType::Error,
                    text: join_with(reason, " | "@),
                },
                FailureView::ExpectedArg { hint, .. } => HintView {
                    target: TargetView::WholeLine,
                    type_: HintType::Error,
                    text: join_with(hint, " | "@),
                },
                FailureView::UnexpectedArgument { from } => HintView {
                    target: TargetView::Substring { from: byte_pos(s, a as int) + from, to: byte_pos(s, e as int) },
                    type_: HintType::Error,
                    text: "Unexpected argument"@,
                },
            },
        ),
    };
    Advisory {
        inline_hint: None,
        completion: None,
        end_of_line_hint: hint,
        suggestions: sugg_or_empty(sugg),
        usage: Some(cmd.long_usage),
        command: match res {
            CmdOutcome::Parsed(m) => Some(InvocationView { keyword: cmd.keyword, form: m.form, args: m.args }),
            CmdOutcome::Failed { .. } => None,
        },
    }
}

/// The advisories for input `s` with the cursor at code point `pos`.
pub open spec fn table_parse(cmds: Seq<CommandView>, s: Seq<char>, pos: nat) -> Advisory {
    match command_spans(s) {
        None => empty_input_advisory(cmds),
        Some((ws, we, a, e)) => {
            let word = s.subrange(ws as int, we as int);
            match find_command(cmds, word, 0) {
                Some(i) => {
                    let inner = if a <= pos <= e { Some((pos - a) as nat) } else { None };
                    let r = alt_parse(cmds[i as int].forms, s.subrange(a as int, e as int), inner);
                    args_advisory(cmds[i as int], r.0, r.1, s, a, e)
                },
                None => {
                    let ks = matching_keywords(cmds, word);
                    if ks.len() == 0 {
                        no_match_advisory()
                    } else if pos < ws || pos > we {
                        prefix_outside_advisory()
                    } else {
                        prefix_advisory(word.take(pos - ws), ks)
                    }
                },
            }
        },
    }
}

/// Shown above the list of commands.
pub const USAGE_BANNER: &'static str = "Chip Debugging Tool

Function key shortcuts are along the bottom of the screen.

Commands:
";

proof fn lemma_runs(s: Seq<char>, i: nat)
    requires
        i <= s.len(),
    ensures
        i <= space_run(s, i) <= s.len(),
        i <= word_run(s, i) <= s.len(),
        i <= line_run(s, i) <= s.len(),
        space_run(s, i) < s.len() ==> !white_space(s[space_run(s, i) as int]),
    decreases s.len() - i,
{
    if i < s.len() {
        lemma_runs(s, i + 1);
    }
}

/// The word and arguments found lie in order within the input.
pub proof fn lemma_command_spans(s: Seq<char>)
    ensures
        command_spans(s) matches Some((ws, we, a, e)) ==> ws < we <= a <= e <= s.len(),
{
    lemma_runs(s, 0);
    let ws = space_run(s, 0);
    if ws < s.len() {
        lemma_runs(s, ws);
        let we = word_run(s, ws);
        assert(!white_space(s[ws as int]));
        assert(we == word_run(s, ws + 1));
        lemma_runs(s, ws + 1);
        lemma_runs(s, we);
        lemma_runs(s, space_run(s, we));
    }
}

/// Byte offsets within the arguments `s[a..e]`, shifted by the offset of
/// `a`, are byte offsets in `s`.
pub proof fn lemma_offset(s: Seq<char>, a: int, e: int, k: int)
    requires
        0 <= a <= e <= s.len(),
        0 <= k <= e - a,
    ensures
        byte_pos(s, a) + utf8_len(s.subrange(a, e).take(k)) == utf8_len(s.take(a + k)),
        utf8_len(s.take(a + k)) <= utf8_len(s),
{
    assert(s.take(a + k) =~= s.take(a) + s.subrange(a, e).take(k));
    crate::text::lemma_utf8_len_concat(s.take(a), s.subrange(a, e).take(k));
    lemma_byte_pos_boundary(s, a);
    lemma_byte_pos_boundary(s, a + k);
}

proof fn lemma_byte_pos_boundary(s: Seq<char>, k: int)
    requires
        0 <= k <= s.len(),
    ensures
        byte_pos(s, k) == utf8_len(s.take(k)),
        byte_pos(s, k) <= utf8_len(s),
{
    assert(s.take(s.len() as int) =~= s);
    crate::text::lemma_utf8_len_take_mono(s, k, s.len() as int);
}

/// Every substring an end of line hint points at runs forward, lies within
/// the input's bytes, and starts and ends on code point boundaries.
pub proof fn lemma_hint_target_bounds(cmds: Seq<CommandView>, s: Seq<char>, pos: nat)
    ensures
        table_parse(cmds, s, pos).end_of_line_hint matches Some(h) ==> (h.target matches TargetView::Substring {
            from,
            to,
        } ==> {
            &&& from <= to <= utf8_len(s)
            &&& exists|k1: int, k2: int|
                0 <= k1 <= k2 <= s.len() && from == #[trigger] utf8_len(s.take(k1)) && to
                    == #[trigger] utf8_len(s.take(k2))
        }),
{
    lemma_command_spans(s);
    match command_spans(s) {
        None => {},
        Some((ws, we, a, e)) => {
            let word = s.subrange(ws as int, we as int);
            match find_command(cmds, word, 0) {
                Some(i) => {
                    let inner = if a <= pos <= e { Some((pos - a) as nat) } else { None };
                    let args = s.subrange(a as int, e as int);
                    lemma_alt_parse_bounds(cmds[i as int].forms, args, inner);
                    let r = alt_parse(cmds[i as int].forms, args, inner);
                    match r.0 {
                        CmdOutcome::Failed { reason, .. } => match reason {
                            FailureView::ArgumentParseFailed { from, to, .. } => {
                                let (k1, k2) = choose|k1: int, k2: int|
                                    0 <= k1 <= k2 <= args.len() && from == #[trigger] utf8_len(args.take(k1))
                                        && to == #[trigger] utf8_len(args.take(k2));
                                lemma_offset(s, a as int, e as int, k1);
                                lemma_offset(s, a as int, e as int, k2);
                                crate::text::lemma_utf8_len_take_mono(s, a + k1, a + k2);
                            },
                            FailureView::UnexpectedArgument { from } => {
                                let k = choose|k: int| 0 <= k <= args.len() && from == #[trigger] utf8_len(args.take(k));
                                lemma_offset(s, a as int, e as int, k);
                                lemma_byte_pos_boundary(s, e as int);
                                crate::text::lemma_utf8_len_take_mono(s, a + k, e as int);
                            },
                            _ => {},
                        },
                        _ => {},
                    }
                },
                None => {},
            }
        },
    }
}

/// The completion is the inline hint, or, when a single keyword matches,
/// the inline hint followed by a space; there is no completion without an
/// inline hint.
pub proof fn lemma_completion_and_hint(cmds: Seq<CommandView>, s: Seq<char>, pos: nat)
    ensures
        ({
            let adv = table_parse(cmds, s, pos);
            adv.completion matches Some(c) ==> adv.inline_hint matches Some(h) && (c == h || c == h.push(
                ' ',
            ))
        }),
{
}

/// All the commands the user can run, `help` included.
#[derive(Clone, Debug)]
pub struct CommandsTable {
    commands: Vec<Command>,
}

/// No two commands share a keyword.
pub open spec fn distinct_keywords(cmds: Seq<CommandView>) -> bool {
    forall|i: int, j: int| 0 <= i < j < cmds.len() ==> cmds[i].keyword != cmds[j].keyword
}

impl View for CommandsTable {
    type V = Seq<CommandView>;

    closed spec fn view(&self) -> Seq<CommandView> {
        self.commands@.map_values(|c: Command| c@)
    }
}

fn join(parts: &Vec<String>, sep: &str) -> (r: String)
    ensures
        r@ == join_with(views(parts@), sep@),
{
    let mut r = String::new();
    let mut i: usize = 0;
    let ghost ps = views(parts@);
    while i < parts.len()
        invariant
            ps == views(parts@),
            i <= ps.len(),
            r@ == join_with(ps.take(i as int), sep@),
        decreases ps.len() - i,
    {
        proof {
            let q = ps.take(i as int + 1);
            assert(q.drop_last() =~= ps.take(i as int));
            assert(q.last() == ps[i as int]);
            if i == 0 {
                assert(q[0] == ps[0]);
                assert(ps.take(0) =~= Seq::<Seq<char>>::empty());
            }
        }
        if i > 0 {
            r.append(sep);
        }
        r.append(parts[i].as_str());
        proof {
            if i == 0 {
                assert(r@ =~= parts@[0]@);
            }
        }
        i += 1;
    }
    assert(ps.take(i as int) =~= ps);
    r
}

fn text_of(s: &str) -> (r: Option<String>)
    ensures
        r matches Some(t) && t@ == s@,
{
    Some(s.to_owned())
}

impl CommandsTable {
    pub closed spec fn wf(&self) -> bool {
        &&& forall|i: int| 0 <= i < self.commands@.len() ==> (#[trigger] self.commands@[i]).wf()
        &&& distinct_keywords(self@)
    }

    /// A table of `commands` followed by the help command.  Keywords must be
    /// distinct, and `help` is taken.
    pub fn new(commands: Vec<Command>) -> (r: Self)
        requires
            forall|i: int| 0 <= i < commands@.len() ==> (#[trigger] commands@[i]).wf(),
            distinct_keywords(commands@.map_values(|c: Command| c@)),
            forall|i: int| 0 <= i < commands@.len() ==> (#[trigger] commands@[i])@.keyword != HELP_KEYWORD@,
        ensures
            r.wf(),
            r@.len() == commands@.len() + 1,
            r@.drop_last() == commands@.map_values(|c: Command| c@),
            is_help_command(r@.last(), keywords_of(r@)),
    {
        let user = CommandsTable { commands };
        let mut keywords = user.keywords();
        let ghost before = keywords@;
        let help_kw = HELP_KEYWORD.to_owned();
        keywords.push(help_kw);
        let ghost all = views(keywords@);
        assert(all =~= views(before).push(HELP_KEYWORD@));
        let help = help::command(keywords);
        let mut commands = user.commands;
        let ghost cv = commands@.map_values(|c: Command| c@);
        commands.push(help);
        let r = CommandsTable { commands };
        proof {
            assert(r@ =~= cv.push(help@));
            assert(r@.drop_last() =~= cv);
            assert(keywords_of(r@) =~= views(before).push(HELP_KEYWORD@));
            assert(r@.last() == help@);
            assert(keywords_of(r@) == all);
            assert forall|i: int, j: int| 0 <= i < j < r@.len() implies r@[i].keyword != r@[j].keyword by {
                if j < r@.len() - 1 {
                    assert(r@[i] == cv[i]);
                    assert(r@[j] == cv[j]);
                } else {
                    assert(r@[i] == commands@[i]@);
                }
            }
            assert forall|i: int| 0 <= i < r.commands@.len() implies (#[trigger] r.commands@[i]).wf() by {
                if i < r.commands@.len() - 1 {
                    assert(r.commands@[i] == commands@[i]);
                }
            }
        }
        r
    }

    /// A banner followed by one line per command.
    pub fn default_usage(&self) -> (r: String)
        ensures
            r@ == USAGE_BANNER@ + join_with(usage_lines(self@), "\n"@),
    {
        let mut r = USAGE_BANNER.to_owned();
        let lines = all_commands_usage(self);
        let body = join(&lines, "\n");
        r.append(body.as_str());
        r
    }

    /// Whether `inv` asks only for the help of keywords of this table; a
    /// help invocation naming any other keyword is a programming error.
    pub fn help_request_known(&self, inv: &Invocation) -> (r: bool)
        ensures
            r == help_request_ok(self@, inv@),
    {
        if inv.form == 1 && inv.args.len() == 1 {
            match &inv.args[0] {
                ArgValue::Keyword(k) => {
                    let kw = str_chars(inv.keyword.as_str());
                    let help_kw = str_chars(HELP_KEYWORD);
                    if chars_eq(&kw, &help_kw) {
                        let word = str_chars(k.as_str());
                        return self.find(&word).is_some();
                    }
                    true
                },
                _ => true,
            }
        } else {
            true
        }
    }

    /// Runs `inv` if it is a help invocation: returns the lines it prints,
    /// or `None` for any other invocation.
    pub fn help_lines(&self, inv: &Invocation) -> (r: Option<Vec<String>>)
        requires
            help_request_ok(self@, inv@),
        ensures
            match r {
                Some(v) => help_output(self@, inv@) == Some(views(v@)),
                None => help_output(self@, inv@) is None,
            },
    {
        let kw = str_chars(inv.keyword.as_str());
        let help_kw = str_chars(HELP_KEYWORD);
        if !chars_eq(&kw, &help_kw) {
            return None;
        }
        if inv.form == 0 && inv.args.len() == 0 {
            return Some(all_commands_usage(self));
        }
        if inv.form == 1 && inv.args.len() == 1 {
            match &inv.args[0] {
                ArgValue::Keyword(k) => {
                    let word = str_chars(k.as_str());
                    match self.find(&word) {
                        Some(i) => {
                            return Some(split_lines(self.commands[i].long_usage()));
                        },
                        None => {
                            return None;
                        },
                    }
                },
                _ => {
                    return None;
                },
            }
        }
        None
    }

    /// Runs `inv` if it is a help invocation, writing what it prints to
    /// `terminal`; returns whether it was one.
    pub fn run_help<T: crate::TerminalContentRef>(&self, inv: &Invocation, terminal: &mut T) -> (r: bool)
        requires
            help_request_ok(self@, inv@),
        ensures
            r == (help_output(self@, inv@) is Some),
            r ==> final(terminal).lines() == old(terminal).lines() + help_output(self@, inv@)->0,
            !r ==> *final(terminal) == *old(terminal),
    {
        match self.help_lines(inv) {
            Some(lines) => {
                terminal.extend(lines);
                true
            },
            None => false,
        }
    }

    /// Number of commands.
    pub fn len(&self) -> (r: usize)
        ensures
            r == self@.len(),
    {
        self.commands.len()
    }

    /// The command with index `i`.
    pub fn get(&self, i: usize) -> (r: &Command)
        requires
            i < self@.len(),
        ensures
            r@ == self@[i as int],
    {
        &self.commands[i]
    }

    /// The keyword of every command, in table order.
    pub fn keywords(&self) -> (r: Vec<String>)
        ensures
            views(r@) == keywords_of(self@),
    {
        let mut r: Vec<String> = Vec::new();
        let mut i: usize = 0;
        while i < self.commands.len()
            invariant
                i <= self@.len(),
                self@ == self.commands@.map_values(|c: Command| c@),
                views(r@) == keywords_of(self@.take(i as int)),
            decreases self@.len() - i,
        {
            let ghost before = r@;
            r.push(self.commands[i].keyword().to_owned());
            proof {
                assert(views(r@) =~= views(before).push(self@[i as int].keyword));
                assert(keywords_of(self@.take(i as int + 1)) =~= keywords_of(self@.take(i as int)).push(
                    self@[i as int].keyword,
                ));
            }
            i += 1;
        }
        assert(self@.take(i as int) =~= self@);
        r
    }

    fn find(&self, word: &Vec<char>) -> (r: Option<usize>)
        ensures
            opt_nat(r) == find_command(self@, word@, 0),
            r matches Some(i) ==> i < self@.len(),
    {
        let mut i: usize = 0;
        while i < self.commands.len()
            invariant
                i <= self@.len(),
                self@ == self.commands@.map_values(|c: Command| c@),
                find_command(self@, word@, 0) == find_command(self@, word@, i as nat),
            decreases self@.len() - i,
        {
            let k = str_chars(self.commands[i].keyword());
            if chars_eq(&k, word) {
                return Some(i);
            }
            i += 1;
        }
        None
    }

    fn matching(&self, word: &Vec<char>) -> (r: Vec<String>)
        ensures
            views(r@) == matching_keywords(self@, word@),
    {
        let mut r: Vec<String> = Vec::new();
        let mut i: usize = 0;
        while i < self.commands.len()
            invariant
                i <= self@.len(),
                self@ == self.commands@.map_values(|c: Command| c@),
                views(r@) == matching_keywords(self@.take(i as int), word@),
            decreases self@.len() - i,
        {
            let k = str_chars(self.commands[i].keyword());
            let m = crate::text::common_prefix_len(word, &k);
            proof {
                let q = self@.take(i as int + 1);
                assert(q.drop_last() =~= self@.take(i as int));
                assert(q.last() == self@[i as int]);
                lemma_match_len_bounds(word@, k@, 0);
                if is_prefix(word@, k@) {
                    lemma_match_len_prefix(word@, k@);
                }
            }
            if m == word.len() {
                let ghost before = r@;
                r.push(self.commands[i].keyword().to_owned());
                proof {
                    assert(word@ =~= k@.take(m as int));
                    assert(views(r@) =~= views(before).push(k@));
                }
            }
            i += 1;
        }
        assert(self@.take(i as int) =~= self@);
        r
    }

    /// Parses `input`, with the cursor at code point `pos`, into the
    /// advisories the prompt shows.
    pub fn parse(&self, input: &str, pos: usize) -> (r: ParseRes)
        requires
            self.wf(),
        ensures
            r@ == table_parse(self@, input@, pos as nat),
    {
        let ghost s = input@;
        let chars = str_chars(input);
        let total = str_byte_len(input);
        match split_command(input) {
            None => {
                proof {
                    lemma_no_spans(s);
                }
                let r = ParseRes {
                    inline_hint: text_of("<command>"),
                    completion: None,
                    end_of_line_hint: None,
                    suggestions: self.keywords(),
                    usage: text_of("Waiting for a command"),
                    command: None,
                };
                r
            },
            Some((b1, b2, b3, b4)) => {
                let ghost (gws, gwe, ga, ge) = choose|ws: int, we: int, a: int, e: int|
                    #![trigger spans_at(s, ws, we, a, e)]
                    {
                        &&& spans_at(s, ws, we, a, e)
                        &&& b1 == byte_pos(s, ws)
                        &&& b2 == byte_pos(s, we)
                        &&& b3 == byte_pos(s, a)
                        &&& b4 == byte_pos(s, e)
                    };
                proof {
                    lemma_spans(s, gws, gwe, ga, ge);
                    assert(s.take(s.len() as int) =~= s);
                    assert(b1 == utf8_len(s.take(gws)));
                    assert(b2 == utf8_len(s.take(gwe)));
                    assert(b3 == utf8_len(s.take(ga)));
                    assert(b4 == utf8_len(s.take(ge)));
                }
                let ws = char_index_of_byte(&chars, b1);
                let we = char_index_of_byte(&chars, b2);
                let a = char_index_of_byte(&chars, b3);
                let e = char_index_of_byte(&chars, b4);
                self.dispatch(input, &chars, total, pos, ws, we, a, e)
            },
        }
    }

    fn dispatch(
        &self,
        input: &str,
        chars: &Vec<char>,
        total: usize,
        pos: usize,
        ws: usize,
        we: usize,
        a: usize,
        e: usize,
    ) -> (r: ParseRes)
        requires
            self.wf(),
            chars@ == input@,
            total == utf8_len(input@),
            command_spans(input@) == Some((ws as nat, we as nat, a as nat, e as nat)),
            ws < we <= a <= e <= input@.len(),
        ensures
            r@ == table_parse(self@, input@, pos as nat),
    {
        let word_str = input.substring_char(ws, we);
        let word = str_chars(word_str);
        match self.find(&word) {
            Some(i) => {
                let inner = if a <= pos && pos <= e {
                    Some(pos - a)
                } else {
                    None
                };
                let args = input.substring_char(a, e);
                let cmd = &self.commands[i];
                assert(cmd.wf());
                assert(cmd@ == self@[i as int]);
                let (res, sugg) = cmd.parse(args, inner);
                proof {
                    lemma_alt_parse_bounds(cmd@.forms, args@, opt_nat(inner));
                }
                self.args_advisory(cmd, res, sugg, chars, total, a, e)
            },
            None => {
                let ks = self.matching(&word);
                if ks.len() == 0 {
                    no_match()
                } else if pos < ws || pos > we {
                    prefix_outside()
                } else {
                    let prefix = word_str.substring_char(0, pos - ws);
                    proof {
                        lemma_matching_keywords(self@, word@);
                        assert(prefix@ =~= word@.take(pos - ws));
                        assert forall|k: int| 0 <= k < ks@.len() implies is_prefix(word@, #[trigger] ks@[k]@) by {
                            assert(views(ks@)[k] == ks@[k]@);
                        }
                    }
                    let (inline_hint, completion) = hint_and_completion_exec(prefix, &ks, word_str);
                    ParseRes {
                        inline_hint,
                        completion,
                        end_of_line_hint: Some(
                            EndOfLineHint {
                                target: EndOfLineHintTarget::WholeLine,
                                type_: HintType::Info,
                                text: "<command>".to_owned(),
                            },
                        ),
                        suggestions: ks,
                        usage: None,
                        command: None,
                    }
                }
            },
        }
    }

    fn args_advisory(
        &self,
        cmd: &Command,
        res: CommandParseRes<FormMatch>,
        sugg: Option<CommandSuggestions>,
        chars: &Vec<char>,
        total: usize,
        a: usize,
        e: usize,
    ) -> (r: ParseRes)
        requires
            total == utf8_len(chars@),
            a <= e <= chars@.len(),
            failure_in_bounds(alt_res_view(res), chars@.subrange(a as int, e as int)),
        ensures
            r@ == args_advisory(cmd@, alt_res_view(res), csugg_view(sugg), chars@, a as nat, e as nat),
    {
        let suggestions = match sugg {
            Some(v) => v.0,
            None => {
                let v: Vec<String> = Vec::new();
                assert(views(v@) =~= Seq::<Seq<char>>::empty());
                v
            },
        };
        let usage = Some(cmd.long_usage().to_owned());
        match res {
            CommandParseRes::Parsed(m) => ParseRes {
                inline_hint: None,
                completion: None,
                end_of_line_hint: None,
                suggestions,
                usage,
                command: Some(Invocation { keyword: cmd.keyword().to_owned(), form: m.form, args: m.args }),
            },
            CommandParseRes::Failed { parsed_up_to, reason } => {
                let start = chars_byte_pos(chars, a);
                let ghost s = chars@;
                let ghost args = s.subrange(a as int, e as int);
                let hint = match reason {
                    CommandParseFailure::ArgumentParseFailed { from, to, reason } => EndOfLineHint {
                        target: EndOfLineHintTarget::Substring {
                            from: {
                                proof {
                                    let (k1, k2) = choose|k1: int, k2: int|
                                        0 <= k1 <= k2 <= args.len() && from == #[trigger] utf8_len(args.take(k1))
                                            && to == #[trigger] utf8_len(args.take(k2));
                                    lemma_offset(s, a as int, e as int, k1);
                                    lemma_offset(s, a as int, e as int, k2);
                                }
                                start + from
                            },
                            to: start + to,
                        },
                        type_: HintType::Error,
                        text: join(&reason, " | "),
                    },
                    CommandParseFailure::ExpectedArg { hint, .. } => EndOfLineHint {
                        target: EndOfLineHintTarget::WholeLine,
                        type_: HintType::Error,
                        text: join(&hint, " | "),
                    },
                    CommandParseFailure::UnexpectedArgument { from } => EndOfLineHint {
                        target: EndOfLineHintTarget::Substring {
                            from: {
                                proof {
                                    let k = choose|k: int| 0 <= k <= args.len() && from == #[trigger] utf8_len(args.take(k));
                                    lemma_offset(s, a as int, e as int, k);
                                }
                                start + from
                            },
                            to: chars_byte_pos(chars, e),
                        },
                        type_: HintType::Error,
                        text: "Unexpected argument".to_owned(),
                    },
                };
                ParseRes {
                    inline_hint: None,
                    completion: None,
                    end_of_line_hint: Some(hint),
                    suggestions,
                    usage,
                    command: None,
                }
            },
        }
    }
}

fn no_match() -> (r: ParseRes)
    ensures
        r@ == no_match_advisory(),
{
    let r = ParseRes {
        inline_hint: None,
        completion: None,
        end_of_line_hint: Some(
            EndOfLineHint {
                target: EndOfLineHintTarget::WholeLine,
                type_: HintType::Error,
                text: "Unknown command".to_owned(),
            },
        ),
        suggestions: Vec::new(),
        usage: None,
        command: None,
    };
    assert(views(r.suggestions@) =~= Seq::<Seq<char>>::empty());
    r
}

fn prefix_outside() -> (r: ParseRes)
    ensures
        r@ == prefix_outside_advisory(),
{
    let r = ParseRes {
        inline_hint: None,
        completion: None,
        end_of_line_hint: Some(
            EndOfLineHint {
                target: EndOfLineHintTarget::WholeLine,
                type_: HintType::Info,
                text: "<command>".to_owned(),
            },
        ),
        suggestions: Vec::new(),
        usage: None,
        command: None,
    };
    assert(views(r.suggestions@) =~= Seq::<Seq<char>>::empty());
    r
}

/// Every matching keyword starts with the word.
pub proof fn lemma_matching_keywords(cmds: Seq<CommandView>, word: Seq<char>)
    ensures
        forall|k: int| 0 <= k < matching_keywords(cmds, word).len() ==> is_prefix(word, #[trigger] matching_keywords(cmds, word)[k]),
    decreases cmds.len(),
{
    if cmds.len() > 0 {
        lemma_matching_keywords(cmds.drop_last(), word);
        let r = matching_keywords(cmds.drop_last(), word);
        if is_prefix(word, cmds.last().keyword) {
            assert forall|k: int| 0 <= k < r.push(cmds.last().keyword).len() implies is_prefix(
                word,
                #[trigger] r.push(cmds.last().keyword)[k],
            ) by {
                if k < r.len() {
                    assert(r.push(cmds.last().keyword)[k] == r[k]);
                }
            }
        }
    }
}

/// See [`hint_and_completion`]; `word` starts every keyword of `ks`, and
/// `prefix` is a prefix of `word`.
fn hint_and_completion_exec(prefix: &str, ks: &Vec<String>, word: &str) -> (r: (Option<String>, Option<String>))
    requires
        ks@.len() > 0,
        is_prefix(prefix@, word@),
        forall|k: int| 0 <= k < ks@.len() ==> is_prefix(word@, #[trigger] ks@[k]@),
    ensures
        (opt_view(r.0), opt_view(r.1)) == hint_and_completion(prefix@, views(ks@)),
{
    let common = common_prefix(ks);
    let ghost c = common_prefix_of(views(ks@));
    proof {
        assert forall|k: int| 0 <= k < views(ks@).len() implies is_prefix(prefix@, #[trigger] views(ks@)[k]) by {
            assert(views(ks@)[k] == ks@[k]@);
            assert(ks@[k]@.take(word@.len() as int).take(prefix@.len() as int) =~= ks@[k]@.take(
                prefix@.len() as int,
            ));
            assert(word@.take(prefix@.len() as int) == prefix@);
        }
        crate::text::lemma_prefix_of_common(views(ks@), prefix@);
    }
    let clen = common.as_str().unicode_len();
    let plen = prefix.unicode_len();
    if clen == 0 || clen == plen {
        return (None, None);
    }
    let rest = common.as_str().substring_char(plen, clen).to_owned();
    assert(rest@ =~= c.skip(plen as int));
    if ks.len() == 1 {
        let mut completion = rest.clone();
        completion.append(" ");
        proof {
            reveal_strlit(" ");
            assert(completion@ =~= c.skip(plen as int).push(' '));
        }
        (Some(rest), Some(completion))
    } else {
        let completion = rest.clone();
        (Some(rest), Some(completion))
    }
}

} // verus!
