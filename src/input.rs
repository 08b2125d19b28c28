//! The edit buffer: the text typed so far, the cursor, and the advisories
//! derived from them, recomputed after every change.

use vstd::prelude::*;
use vstd::string::*;

use crate::commands::help::usage_lines;
use crate::commands::table::{join_with, table_parse, CommandsTable, USAGE_BANNER};
use crate::commands::{Advisory, CommandView, EndOfLineHint, Invocation, ParseRes};
use crate::history::{lemma_scratch_iff_browsing, next_step, prev_step, History};
use crate::text::{control_char, is_control, str_chars, string_from_chars};

verus! {

/// The prompt shown before the input, depending on the state of the input.
#[derive(PartialEq, Eq, Clone, Debug)]
pub struct Prompt {
    /// Nothing has been typed.
    pub empty: String,
    /// No command is bound, but there are suggestions to extend the input.
    pub incomplete: String,
    /// No command is bound and nothing is suggested.
    pub invalid: String,
    /// Pressing Enter runs a command.
    pub complete: String,
}

/// Where the cursor ends up after inserting `c` at `pos` in `text`, and the
/// new text.  Control code points are not inserted.
pub open spec fn insert_effect(text: Seq<char>, pos: nat, c: char) -> (Seq<char>, nat) {
    if control_char(c) {
        (text, pos)
    } else {
        (text.insert(pos as int, c), pos + 1)
    }
}

/// Removing the code point before the cursor.
pub open spec fn backspace_effect(text: Seq<char>, pos: nat) -> (Seq<char>, nat) {
    if pos == 0 || text.len() == 0 {
        (text, pos)
    } else {
        (text.remove(pos - 1), (pos - 1) as nat)
    }
}

/// Removing the code point under the cursor.
pub open spec fn delete_effect(text: Seq<char>, pos: nat) -> (Seq<char>, nat) {
    if pos >= text.len() {
        (text, pos)
    } else {
        (text.remove(pos as int), pos)
    }
}

/// Removing everything before the cursor.
pub open spec fn erase_to_start_effect(text: Seq<char>, pos: nat) -> (Seq<char>, nat) {
    if pos == 0 {
        (text, pos)
    } else {
        (text.skip(pos as int), 0)
    }
}

/// Moving the cursor one code point left.
pub open spec fn left_effect(pos: nat) -> nat {
    if pos == 0 {
        0
    } else {
        (pos - 1) as nat
    }
}

/// Moving the cursor one code point right, within text of length `len`.
pub open spec fn right_effect(len: nat, pos: nat) -> nat {
    if pos >= len {
        pos
    } else {
        pos + 1
    }
}

/// Inserting `completion` at the cursor; the cursor moves past it.
pub open spec fn complete_effect(text: Seq<char>, pos: nat, completion: Option<Seq<char>>) -> (Seq<char>, nat) {
    match completion {
        Some(t) => (text.take(pos as int) + t + text.skip(pos as int), pos + t.len()),
        None => (text, pos),
    }
}

/// Where the cursor goes when the text is replaced by `new_text` from the
/// history: to the end if it was at the end, else where it was, within the
/// new text.
pub open spec fn history_cursor(old_text: Seq<char>, pos: nat, new_text: Seq<char>) -> nat {
    if pos >= old_text.len() || pos > new_text.len() {
        new_text.len()
    } else {
        pos
    }
}

/// What a new buffer shows: the usage of all the commands, and nothing
/// else.
pub open spec fn initial_advisory(cmds: Seq<CommandView>) -> Advisory {
    Advisory {
        inline_hint: None,
        completion: None,
        end_of_line_hint: None,
        suggestions: Seq::empty(),
        usage: Some(USAGE_BANNER@ + join_with(usage_lines(cmds), "\n"@)),
        command: None,
    }
}

/// `b` has the commands, prompts and history of `a`.
pub open spec fn same_setup(a: Input, b: Input) -> bool {
    &&& b.table() == a.table()
    &&& b.prompts() == a.prompts()
    &&& b.hist() == a.hist()
}

/// The edit buffer.
pub struct Input {
    commands: CommandsTable,
    prompt: Prompt,
    input: String,
    pos: usize,
    advisory: ParseRes,
    history: History,
}

impl Input {
    /// The cursor stays within the text, the advisories are those of the
    /// text and cursor, and the table and history are well formed.
    pub closed spec fn wf(&self) -> bool {
        &&& self.commands.wf()
        &&& self.history.wf()
        &&& self.pos <= self.input@.len()
        &&& (self.synced() || self.fresh())
    }

    /// The advisories are those of the text and cursor: the state after
    /// any edit.
    pub closed spec fn synced(&self) -> bool {
        self.advisory@ == table_parse(self.commands@, self.input@, self.pos as nat)
    }

    /// The state of a new buffer, before its first edit: no text, and the
    /// usage of all the commands as the only advisory.
    pub closed spec fn fresh(&self) -> bool {
        &&& self.input@.len() == 0
        &&& self.pos == 0
        &&& self.advisory@ == initial_advisory(self.commands@)
    }

    /// The text typed so far.
    pub closed spec fn text(&self) -> Seq<char> {
        self.input@
    }

    /// The cursor, in code points.
    pub closed spec fn cursor(&self) -> nat {
        self.pos as nat
    }

    /// The advisories currently shown.
    pub closed spec fn advisories(&self) -> Advisory {
        self.advisory@
    }

    /// The commands.
    pub closed spec fn table(&self) -> Seq<CommandView> {
        self.commands@
    }

    /// The history of committed inputs.
    pub closed spec fn hist(&self) -> History {
        self.history
    }

    pub closed spec fn prompts(&self) -> Prompt {
        self.prompt
    }

    /// The cursor stays within the text.  The advisories are those of the
    /// text and cursor, except in a new buffer before its first edit, which
    /// shows only the usage of all the commands.
    pub proof fn lemma_wf(&self)
        requires
            self.wf(),
        ensures
            self.cursor() <= self.text().len(),
            self.hist().wf(),
            self.synced() <==> self.advisories() == table_parse(self.table(), self.text(), self.cursor()),
            self.synced() || {
                &&& self.text().len() == 0
                &&& self.cursor() == 0
                &&& self.advisories() == initial_advisory(self.table())
            },
    {
    }

    fn update(&mut self)
        requires
            old(self).commands.wf(),
            old(self).history.wf(),
            old(self).pos <= old(self).input@.len(),
        ensures
            final(self).wf(),
            final(self).synced(),
            final(self).input == old(self).input,
            final(self).pos == old(self).pos,
            final(self).history == old(self).history,
            final(self).commands == old(self).commands,
            final(self).prompt == old(self).prompt,
    {
        self.advisory = self.commands.parse(self.input.as_str(), self.pos);
    }

    fn set_text(&mut self, chars: &Vec<char>, pos: usize)
        requires
            old(self).wf(),
            pos <= chars@.len(),
        ensures
            final(self).wf(),
            final(self).synced(),
            same_setup(*old(self), *final(self)),
            final(self).text() == chars@,
            final(self).cursor() == pos,
    {
        self.input = string_from_chars(chars);
        self.pos = pos;
        self.update();
    }

    /// Moves the cursor one code point left, if it can.
    pub fn cursor_left(&mut self)
        requires
            old(self).wf(),
        ensures
            final(self).wf(),
            final(self).synced(),
            same_setup(*old(self), *final(self)),
            final(self).text() == old(self).text(),
            final(self).cursor() == left_effect(old(self).cursor()),
    {
        if self.pos == 0 {
            self.update();
            return;
        }
        self.pos -= 1;
        self.update();
    }

    /// Moves the cursor one code point right, if it can.
    pub fn cursor_right(&mut self)
        requires
            old(self).wf(),
        ensures
            final(self).wf(),
            final(self).synced(),
            same_setup(*old(self), *final(self)),
            final(self).text() == old(self).text(),
            final(self).cursor() == right_effect(old(self).text().len(), old(self).cursor()),
    {
        let len = self.input.as_str().unicode_len();
        if self.pos >= len {
            self.update();
            return;
        }
        self.pos += 1;
        self.update();
    }

    /// Moves the cursor to the end of the text.
    pub fn cursor_end(&mut self)
        requires
            old(self).wf(),
        ensures
            final(self).wf(),
            final(self).synced(),
            same_setup(*old(self), *final(self)),
            final(self).text() == old(self).text(),
            final(self).cursor() == old(self).text().len(),
    {
        let len = self.input.as_str().unicode_len();
        if self.pos >= len {
            self.update();
            return;
        }
        self.pos = len;
        self.update();
    }

    /// Moves the cursor to the start of the text.
    pub fn cursor_start(&mut self)
        requires
            old(self).wf(),
        ensures
            final(self).wf(),
            final(self).synced(),
            same_setup(*old(self), *final(self)),
            final(self).text() == old(self).text(),
            final(self).cursor() == 0,
    {
        if self.pos == 0 {
            self.update();
            return;
        }
        self.pos = 0;
        self.update();
    }

    /// Inserts `c` at the cursor and moves the cursor past it.  Control
    /// code points are ignored.
    pub fn insert_char(&mut self, c: char)
        requires
            old(self).wf(),
        ensures
            final(self).wf(),
            final(self).synced(),
            same_setup(*old(self), *final(self)),
            (final(self).text(), final(self).cursor()) == insert_effect(old(self).text(), old(self).cursor(), c),
    {
        if is_control(c) {
            self.update();
            return;
        }
        let mut chars = str_chars(self.input.as_str());
        chars.insert(self.pos, c);
        let n = chars.len();
        assert(self.pos < n);
        let pos = self.pos + 1;
        self.set_text(&chars, pos);
    }

    /// Removes the code point under the cursor, if any.
    pub fn erase_char(&mut self)
        requires
            old(self).wf(),
        ensures
            final(self).wf(),
            final(self).synced(),
            same_setup(*old(self), *final(self)),
            (final(self).text(), final(self).cursor()) == delete_effect(old(self).text(), old(self).cursor()),
    {
        let mut chars = str_chars(self.input.as_str());
        if self.pos >= chars.len() {
            self.update();
            return;
        }
        chars.remove(self.pos);
        let pos = self.pos;
        self.set_text(&chars, pos);
    }

    /// Removes the code point before the cursor, if any.
    pub fn backward_erase_char(&mut self)
        requires
            old(self).wf(),
        ensures
            final(self).wf(),
            final(self).synced(),
            same_setup(*old(self), *final(self)),
            (final(self).text(), final(self).cursor()) == backspace_effect(old(self).text(), old(self).cursor()),
    {
        let mut chars = str_chars(self.input.as_str());
        if chars.len() == 0 || self.pos == 0 {
            self.update();
            return;
        }
        chars.remove(self.pos - 1);
        let pos = self.pos - 1;
        self.set_text(&chars, pos);
    }

    /// Removes everything before the cursor.
    pub fn backward_erase_line(&mut self)
        requires
            old(self).wf(),
        ensures
            final(self).wf(),
            final(self).synced(),
            same_setup(*old(self), *final(self)),
            (final(self).text(), final(self).cursor()) == erase_to_start_effect(old(self).text(), old(self).cursor()),
    {
        if self.pos == 0 {
            self.update();
            return;
        }
        let rest = self.input.as_str().substring_char(self.pos, self.input.as_str().unicode_len());
        let chars = str_chars(rest);
        self.set_text(&chars, 0);
    }

    /// Inserts the completion, if there is one, at the cursor, and moves the
    /// cursor past it.
    pub fn complete(&mut self)
        requires
            old(self).wf(),
        ensures
            final(self).wf(),
            final(self).synced(),
            same_setup(*old(self), *final(self)),
            (final(self).text(), final(self).cursor()) == complete_effect(
                old(self).text(),
                old(self).cursor(),
                old(self).advisories().completion,
            ),
    {
        match &self.advisory.completion {
            None => {
                self.update();
            },
            Some(t) => {
                let text = self.input.as_str();
                let len = text.unicode_len();
                let before = text.substring_char(0, self.pos);
                let after = text.substring_char(self.pos, len);
                let mut chars = str_chars(before);
                let added = str_chars(t.as_str());
                let tail = str_chars(after);
                let mut i: usize = 0;
                let ghost start = chars@;
                while i < added.len()
                    invariant
                        i <= added@.len(),
                        chars@ == start + added@.take(i as int),
                    decreases added@.len() - i,
                {
                    chars.push(added[i]);
                    i += 1;
                    assert(chars@ =~= start + added@.take(i as int));
                }
                let pos = chars.len();
                let mut j: usize = 0;
                let ghost mid = chars@;
                while j < tail.len()
                    invariant
                        j <= tail@.len(),
                        chars@ == mid + tail@.take(j as int),
                    decreases tail@.len() - j,
                {
                    chars.push(tail[j]);
                    j += 1;
                    assert(chars@ =~= mid + tail@.take(j as int));
                }
                assert(added@.take(i as int) =~= added@);
                assert(tail@.take(j as int) =~= tail@);
                self.set_text(&chars, pos);
            },
        }
    }

    /// Replaces the text with an older history entry.  A cursor at the end
    /// stays at the end.
    pub fn history_prev(&mut self)
        requires
            old(self).wf(),
        ensures
            final(self).wf(),
            final(self).synced(),
            final(self).table() == old(self).table(),
            final(self).prompts() == old(self).prompts(),
            prev_step(old(self).hist(), old(self).text(), final(self).hist(), final(self).text()),
            final(self).cursor() == history_cursor(old(self).text(), old(self).cursor(), final(self).text()),
    {
        let old_len = self.input.as_str().unicode_len();
        let current = self.input.clone();
        let text = self.history.prev(current);
        self.set_from_history(text, old_len);
    }

    /// Replaces the text with a newer history entry, or with the text that
    /// was being edited when browsing started.  A cursor at the end stays at
    /// the end.
    pub fn history_next(&mut self)
        requires
            old(self).wf(),
        ensures
            final(self).wf(),
            final(self).synced(),
            final(self).table() == old(self).table(),
            final(self).prompts() == old(self).prompts(),
            next_step(old(self).hist(), old(self).text(), final(self).hist(), final(self).text()),
            final(self).cursor() == history_cursor(old(self).text(), old(self).cursor(), final(self).text()),
    {
        let old_len = self.input.as_str().unicode_len();
        let current = self.input.clone();
        let text = self.history.next(current);
        self.set_from_history(text, old_len);
    }

    fn set_from_history(&mut self, text: String, old_len: usize)
        requires
            old(self).commands.wf(),
            old(self).history.wf(),
            old_len == old(self).input@.len(),
            old(self).pos <= old_len,
        ensures
            final(self).wf(),
            final(self).synced(),
            final(self).commands == old(self).commands,
            final(self).prompt == old(self).prompt,
            final(self).history == old(self).history,
            final(self).input@ == text@,
            final(self).pos == history_cursor(old(self).input@, old(self).pos as nat, text@),
    {
        let new_len = text.as_str().unicode_len();
        if self.pos >= old_len || self.pos > new_len {
            self.pos = new_len;
        }
        self.input = text;
        self.update();
    }

    /// Runs the bound command, if there is one: the text goes to the
    /// history, the buffer is cleared, and the command is handed back to be
    /// run.  Without a bound command nothing changes.
    pub fn execute(&mut self) -> (r: Option<Invocation>)
        requires
            old(self).wf(),
        ensures
            final(self).wf(),
            final(self).table() == old(self).table(),
            final(self).prompts() == old(self).prompts(),
            match old(self).advisories().command {
                None => r is None && *final(self) == *old(self),
                Some(c) => {
                    &&& final(self).synced()
                    &&& r matches Some(inv) && inv@ == c
                    &&& final(self).text().len() == 0
                    &&& final(self).cursor() == 0
                    &&& final(self).hist().current() == 0
                    &&& final(self).hist().committed() == seq![old(self).text()] + old(self).hist().committed()
                },
            },
    {
        if self.advisory.command.is_none() {
            return None;
        }
        match self.advisory.command.take() {
            None => None,
            Some(command) => {
                let text = self.input.clone();
                self.history.append(text);
                self.input = String::new();
                self.pos = 0;
                self.update();
                Some(command)
            },
        }
    }

    /// An empty edit buffer over `commands`.  Until its first edit it
    /// shows the usage of all the commands and no other advisory.
    pub fn new(prompt: Prompt, commands: CommandsTable) -> (r: Self)
        requires
            commands.wf(),
        ensures
            r.wf(),
            r.text().len() == 0,
            r.cursor() == 0,
            r.advisories() == initial_advisory(commands@),
            r.table() == commands@,
            r.prompts() == prompt,
            r.hist().current() == 0,
            r.hist().committed().len() == 0,
    {
        let usage = Some(commands.default_usage());
        let suggestions: Vec<String> = Vec::new();
        let advisory = ParseRes {
            inline_hint: None,
            completion: None,
            end_of_line_hint: None,
            suggestions,
            usage,
            command: None,
        };
        let r = Input { commands, prompt, input: String::new(), pos: 0, advisory, history: History::new() };
        assert(crate::text::views(r.advisory.suggestions@) =~= Seq::<Seq<char>>::empty());
        r
    }

    /// The prompt bundle.
    pub fn prompt(&self) -> (r: &Prompt)
        ensures
            *r == self.prompts(),
    {
        &self.prompt
    }

    /// The prompt to show: `empty` for no input, `complete` when a command is
    /// bound, `incomplete` when there are suggestions, else `invalid`.
    pub fn current_prompt(&self) -> (r: &str)
        ensures
            r@ == (if self.text().len() == 0 {
                self.prompts().empty@
            } else if self.advisories().command is Some {
                self.prompts().complete@
            } else if self.advisories().suggestions.len() > 0 {
                self.prompts().incomplete@
            } else {
                self.prompts().invalid@
            }),
    {
        if self.input.as_str().unicode_len() == 0 {
            self.prompt.empty.as_str()
        } else if self.advisory.command.is_some() {
            self.prompt.complete.as_str()
        } else if self.advisory.suggestions.len() > 0 {
            self.prompt.incomplete.as_str()
        } else {
            self.prompt.invalid.as_str()
        }
    }

    /// The text typed so far.
    pub fn input(&self) -> (r: &str)
        ensures
            r@ == self.text(),
    {
        self.input.as_str()
    }

    /// The cursor, in code points.
    pub fn pos(&self) -> (r: usize)
        ensures
            r == self.cursor(),
    {
        self.pos
    }

    /// Text to show right of the cursor.
    pub fn inline_hint(&self) -> (r: Option<&str>)
        ensures
            r matches Some(t) ==> self.advisories().inline_hint == Some(t@),
            r is None ==> self.advisories().inline_hint is None,
    {
        match &self.advisory.inline_hint {
            Some(t) => Some(t.as_str()),
            None => None,
        }
    }

    /// Text that the completion key inserts.
    pub fn completion(&self) -> (r: Option<&str>)
        ensures
            r matches Some(t) ==> self.advisories().completion == Some(t@),
            r is None ==> self.advisories().completion is None,
    {
        match &self.advisory.completion {
            Some(t) => Some(t.as_str()),
            None => None,
        }
    }

    /// Hint shown after the input.
    pub fn end_of_line_hint(&self) -> (r: Option<&EndOfLineHint>)
        ensures
            r matches Some(h) ==> self.advisories().end_of_line_hint == Some(h@),
            r is None ==> self.advisories().end_of_line_hint is None,
    {
        match &self.advisory.end_of_line_hint {
            Some(h) => Some(h),
            None => None,
        }
    }

    /// Ways to extend the input.
    pub fn suggestions(&self) -> (r: &Vec<String>)
        ensures
            crate::text::views(r@) == self.advisories().suggestions,
    {
        &self.advisory.suggestions
    }

    /// Help on the command being typed.
    pub fn usage(&self) -> (r: Option<&str>)
        ensures
            r matches Some(t) ==> self.advisories().usage == Some(t@),
            r is None ==> self.advisories().usage is None,
    {
        match &self.advisory.usage {
            Some(t) => Some(t.as_str()),
            None => None,
        }
    }

    /// The command that pressing Enter runs.
    pub fn command(&self) -> (r: Option<&Invocation>)
        ensures
            r matches Some(c) ==> self.advisories().command == Some(c@),
            r is None ==> self.advisories().command is None,
    {
        match &self.advisory.command {
            Some(c) => Some(c),
            None => None,
        }
    }
}

/// Backspace right after inserting a character that is not a control code
/// point restores the text and the cursor, and so the advisories.
pub proof fn lemma_backspace_undoes_insert(cmds: Seq<CommandView>, text: Seq<char>, pos: nat, c: char)
    requires
        pos <= text.len(),
        !control_char(c),
    ensures
        backspace_effect(insert_effect(text, pos, c).0, insert_effect(text, pos, c).1) == (text, pos),
        ({
            let (t, p) = backspace_effect(insert_effect(text, pos, c).0, insert_effect(text, pos, c).1);
            table_parse(cmds, t, p) == table_parse(cmds, text, pos)
        }),
{
    assert(text.insert(pos as int, c).remove(pos as int) =~= text);
}

/// Moving left and then right, when both move, leaves the cursor where it
/// was.
pub proof fn lemma_left_then_right(len: nat, pos: nat)
    requires
        0 < pos <= len,
    ensures
        right_effect(len, left_effect(pos)) == pos,
{
}

/// The steps of browsing: `hs[j]`, `texts[j]` and `poss[j]` are the
/// history, text and cursor after `j` steps; the first `k` steps go back,
/// each to an older entry, and the next `k` go forward.
pub open spec fn browsing_steps(
    hs: Seq<History>,
    texts: Seq<Seq<char>>,
    poss: Seq<nat>,
    k: nat,
) -> bool {
    &&& hs.len() == 2 * k + 1
    &&& texts.len() == 2 * k + 1
    &&& poss.len() == 2 * k + 1
    &&& forall|j: int|
        0 <= j < k ==> {
            &&& prev_step(#[trigger] hs[j], texts[j], hs[j + 1], texts[j + 1])
            &&& hs[j + 1].current() == j + 1
            &&& poss[j + 1] == history_cursor(texts[j], poss[j], texts[j + 1])
        }
    &&& forall|j: int|
        k <= j < 2 * k ==> {
            &&& next_step(#[trigger] hs[j], texts[j], hs[j + 1], texts[j + 1])
            &&& poss[j + 1] == history_cursor(texts[j], poss[j], texts[j + 1])
        }
}

proof fn lemma_browsing_back(hs: Seq<History>, texts: Seq<Seq<char>>, poss: Seq<nat>, k: nat, j: nat)
    requires
        browsing_steps(hs, texts, poss, k),
        hs[0].wf(),
        hs[0].current() == 0,
        poss[0] == texts[0].len(),
        j <= k,
    ensures
        hs[j as int].wf(),
        hs[j as int].current() == j,
        hs[j as int].committed() == hs[0].committed(),
        j > 0 ==> hs[j as int].scratch() == Some(texts[0]),
        poss[j as int] == texts[j as int].len(),
    decreases j,
{
    if j > 0 {
        lemma_browsing_back(hs, texts, poss, k, (j - 1) as nat);
        let i = j - 1;
        assert(prev_step(hs[i], texts[i], hs[i + 1], texts[i + 1]));
        lemma_scratch_iff_browsing(hs[i]);
    }
}

proof fn lemma_browsing_forward(hs: Seq<History>, texts: Seq<Seq<char>>, poss: Seq<nat>, k: nat, j: nat)
    requires
        browsing_steps(hs, texts, poss, k),
        hs[0].wf(),
        hs[0].current() == 0,
        poss[0] == texts[0].len(),
        k >= 1,
        k <= j < 2 * k,
    ensures
        hs[j as int].wf(),
        hs[j as int].current() == 2 * k - j,
        hs[j as int].committed() == hs[0].committed(),
        hs[j as int].scratch() == Some(texts[0]),
        poss[j as int] == texts[j as int].len(),
    decreases j,
{
    if j == k {
        lemma_browsing_back(hs, texts, poss, k, k);
    } else {
        lemma_browsing_forward(hs, texts, poss, k, (j - 1) as nat);
        let i = j - 1;
        assert(next_step(hs[i], texts[i], hs[i + 1], texts[i + 1]));
    }
}

/// Browsing back `k` times, each time to an older entry, and then forward
/// `k` times, starting outside browsing with the cursor at the end, returns
/// to the text that was being edited, with the cursor at its end, outside
/// browsing and with the same committed entries.
pub proof fn lemma_history_round_trip(hs: Seq<History>, texts: Seq<Seq<char>>, poss: Seq<nat>, k: nat)
    requires
        k >= 1,
        browsing_steps(hs, texts, poss, k),
        hs[0].wf(),
        hs[0].current() == 0,
        poss[0] == texts[0].len(),
    ensures
        texts[2 * k as int] == texts[0],
        poss[2 * k as int] == texts[2 * k as int].len(),
        hs[2 * k as int].current() == 0,
        hs[2 * k as int].committed() == hs[0].committed(),
{
    let i: int = 2 * k - 1;
    lemma_browsing_forward(hs, texts, poss, k, i as nat);
    assert(k <= i < 2 * k);
    let h = hs[i];
    assert(next_step(h, texts[i], hs[i + 1], texts[i + 1]));
    assert(h.current() == 1);
    assert(i + 1 == 2 * k);
}

} // verus!
