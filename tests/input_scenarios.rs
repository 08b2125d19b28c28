use icp::arg_parser::prim_int_for_range;
use icp::command_parser::{alternatives_cmd, command_1arg, command_no_args, ArgSpec, ArgValue};
use icp::commands::{Command, EndOfLineHint, EndOfLineHintTarget, HintType, Invocation};
use icp::{common_prefix, str_byte_pos, CommandsTable, Input, Prompt, TerminalContentRef};

fn strings(items: &[&str]) -> Vec<String> {
    items.iter().map(|s| s.to_string()).collect()
}

const EAST_LONG: &str = "east <x>\n\n    Moves east by <x> steps.\n";

fn table() -> CommandsTable {
    let side = |keyword: &str, long: &str| {
        Command::new(
            keyword,
            "Moves along one axis.",
            long,
            alternatives_cmd(vec![command_1arg(ArgSpec::Int(prim_int_for_range(0i64, 63)))]),
        )
    };
    let reset = Command::new("reset", "Starts over.", "reset\n", alternatives_cmd(vec![command_no_args()]));
    CommandsTable::new(vec![side("east", EAST_LONG), side("west", "west <x>\n"), reset])
}

fn prompt() -> Prompt {
    Prompt {
        empty: "empty> ".to_string(),
        incomplete: "more> ".to_string(),
        invalid: "bad> ".to_string(),
        complete: "ok> ".to_string(),
    }
}

fn typed(text: &str) -> Input {
    let mut input = Input::new(prompt(), table());
    for c in text.chars() {
        input.insert_char(c);
    }
    input
}

fn error_at(from: usize, to: usize, text: &str) -> EndOfLineHint {
    EndOfLineHint {
        target: EndOfLineHintTarget::Substring { from, to },
        type_: HintType::Error,
        text: text.to_string(),
    }
}

#[test]
fn new_input_shows_usage() {
    let input = Input::new(prompt(), table());
    assert_eq!(input.input(), "");
    assert_eq!(input.pos(), 0);
    assert_eq!(input.inline_hint(), None);
    assert_eq!(input.completion(), None);
    assert_eq!(input.end_of_line_hint(), None);
    assert!(input.suggestions().is_empty());
    assert_eq!(input.command(), None);
    assert_eq!(input.usage(), Some(table().default_usage().as_str()));
}

#[test]
fn empty_input_lists_all_commands() {
    let mut input = Input::new(prompt(), table());
    input.cursor_left();
    assert_eq!(input.input(), "");
    assert_eq!(input.pos(), 0);
    assert_eq!(input.suggestions(), &strings(&["east", "west", "reset", "help"]));
    assert_eq!(input.inline_hint(), Some("<command>"));
    assert_eq!(input.usage(), Some("Waiting for a command"));
    assert_eq!(input.command(), None);
    assert_eq!(input.current_prompt(), "empty> ");
}

#[test]
fn keyword_prefix_hints_and_completes() {
    let mut input = typed("e");
    assert_eq!(input.suggestions(), &strings(&["east"]));
    assert_eq!(input.inline_hint(), Some("ast"));
    assert_eq!(input.completion(), Some("ast "));
    assert_eq!(
        input.end_of_line_hint(),
        Some(&EndOfLineHint {
            target: EndOfLineHintTarget::WholeLine,
            type_: HintType::Info,
            text: "<command>".to_string(),
        })
    );
    assert_eq!(input.current_prompt(), "more> ");
    input.complete();
    assert_eq!(input.input(), "east ");
    assert_eq!(input.pos(), 5);
}

#[test]
fn shared_prefix_hint_without_space() {
    let table = CommandsTable::new(vec![
        Command::new("step", "s", "s\n", alternatives_cmd(vec![command_no_args()])),
        Command::new("stop", "s", "s\n", alternatives_cmd(vec![command_no_args()])),
    ]);
    let res = table.parse("s", 1);
    assert_eq!(res.inline_hint, Some("t".to_string()));
    assert_eq!(res.completion, Some("t".to_string()));
    assert_eq!(res.suggestions, strings(&["step", "stop"]));
}

#[test]
fn complete_command_binds() {
    let input = typed("east 7");
    assert_eq!(input.pos(), 6);
    assert_eq!(
        input.command(),
        Some(&Invocation { keyword: "east".to_string(), form: 0, args: vec![ArgValue::Int(7)] })
    );
    assert_eq!(input.suggestions(), &Vec::<String>::new());
    assert_eq!(input.end_of_line_hint(), None);
    assert_eq!(input.current_prompt(), "ok> ");
}

#[test]
fn out_of_range_argument_is_marked() {
    let input = typed("east 99");
    assert_eq!(input.command(), None);
    assert_eq!(input.end_of_line_hint(), Some(&error_at(5, 7, "max: 63")));
    assert_eq!(input.current_prompt(), "bad> ");
}

#[test]
fn unexpected_argument_is_marked() {
    let input = typed("east 7 x");
    assert_eq!(input.command(), None);
    assert_eq!(input.end_of_line_hint(), Some(&error_at(7, 8, "Unexpected argument")));
}

#[test]
fn missing_argument_is_reported() {
    let input = typed("east ");
    assert_eq!(
        input.end_of_line_hint(),
        Some(&EndOfLineHint {
            target: EndOfLineHintTarget::WholeLine,
            type_: HintType::Error,
            text: "<0-63>".to_string(),
        })
    );
}

#[test]
fn unknown_command() {
    let input = typed("zz");
    assert_eq!(
        input.end_of_line_hint(),
        Some(&EndOfLineHint {
            target: EndOfLineHintTarget::WholeLine,
            type_: HintType::Error,
            text: "Unknown command".to_string(),
        })
    );
    assert_eq!(input.suggestions(), &Vec::<String>::new());
}

#[test]
fn prefix_with_cursor_outside_the_word() {
    let table = table();
    let res = table.parse("  ea", 0);
    assert_eq!(
        res.end_of_line_hint,
        Some(EndOfLineHint { target: EndOfLineHintTarget::WholeLine, type_: HintType::Info, text: "<command>".to_string() })
    );
    assert_eq!(res.suggestions, Vec::<String>::new());
    assert_eq!(res.inline_hint, None);
}

#[test]
fn help_prints_long_usage() {
    let mut input = typed("help east");
    assert_eq!(input.pos(), 9);
    let inv = input.execute().expect("help east is a complete command");
    assert_eq!(input.input(), "");
    let table = table();
    let mut terminal: Vec<String> = Vec::new();
    assert!(table.run_help(&inv, &mut terminal));
    assert_eq!(terminal, strings(&["east <x>", "", "    Moves east by <x> steps."]));
}

#[test]
fn help_lists_all_commands() {
    let table = table();
    let inv = Invocation { keyword: "help".to_string(), form: 0, args: vec![] };
    let lines = table.help_lines(&inv).expect("help runs");
    assert_eq!(
        lines,
        strings(&[
            "  east     Moves along one axis.",
            "  west     Moves along one axis.",
            "  reset    Starts over.",
            "  help     All the commands and their descriptions.",
        ])
    );
    assert!(table.default_usage().ends_with("  help     All the commands and their descriptions."));
    assert!(table.default_usage().starts_with("Chip Debugging Tool\n"));
}

#[test]
fn help_on_unknown_keyword_runs_nothing() {
    let table = table();
    let inv = Invocation {
        keyword: "help".to_string(),
        form: 1,
        args: vec![ArgValue::Keyword("nope".to_string())],
    };
    assert!(!table.help_request_known(&inv));
    let known = Invocation {
        keyword: "help".to_string(),
        form: 1,
        args: vec![ArgValue::Keyword("reset".to_string())],
    };
    assert!(table.help_request_known(&known));
    assert_eq!(table.help_lines(&known), Some(strings(&["reset"])));
    let other = Invocation { keyword: "east".to_string(), form: 0, args: vec![ArgValue::Int(1)] };
    let mut terminal: Vec<String> = Vec::new();
    assert!(!table.run_help(&other, &mut terminal));
    assert!(terminal.is_empty());
}

#[test]
fn execute_moves_input_to_history() {
    let mut input = typed("east 7");
    let inv = input.execute();
    assert_eq!(inv, Some(Invocation { keyword: "east".to_string(), form: 0, args: vec![ArgValue::Int(7)] }));
    assert_eq!(input.input(), "");
    assert_eq!(input.pos(), 0);
    // Nothing is bound now, so executing again does nothing.
    assert_eq!(input.execute(), None);
    input.history_prev();
    assert_eq!(input.input(), "east 7");
    assert_eq!(input.pos(), 6);
    input.history_next();
    assert_eq!(input.input(), "");
    assert_eq!(input.pos(), 0);
}

#[test]
fn history_browsing_keeps_scratch() {
    let mut input = Input::new(prompt(), table());
    for text in ["reset", "east 1", "west 2"] {
        for c in text.chars() {
            input.insert_char(c);
        }
        assert!(input.execute().is_some());
    }
    for c in "we".chars() {
        input.insert_char(c);
    }
    input.history_prev();
    assert_eq!(input.input(), "west 2");
    input.history_prev();
    assert_eq!(input.input(), "east 1");
    // `current` stops at the last but one entry.
    input.history_prev();
    assert_eq!(input.input(), "reset");
    input.history_prev();
    assert_eq!(input.input(), "reset");
    input.history_next();
    assert_eq!(input.input(), "east 1");
    input.history_next();
    assert_eq!(input.input(), "west 2");
    input.history_next();
    assert_eq!(input.input(), "we");
    assert_eq!(input.pos(), 2);
    input.history_next();
    assert_eq!(input.input(), "we");
}

#[test]
fn history_prev_without_history_is_a_no_op() {
    let mut input = typed("ea");
    input.history_prev();
    assert_eq!(input.input(), "ea");
    assert_eq!(input.pos(), 2);
}

#[test]
fn editing_operations() {
    let mut input = typed("abc");
    input.cursor_left();
    assert_eq!(input.pos(), 2);
    input.cursor_right();
    assert_eq!(input.pos(), 3);
    input.cursor_right();
    assert_eq!(input.pos(), 3);
    input.cursor_start();
    assert_eq!(input.pos(), 0);
    input.cursor_left();
    assert_eq!(input.pos(), 0);
    input.erase_char();
    assert_eq!(input.input(), "bc");
    input.cursor_end();
    assert_eq!(input.pos(), 2);
    input.erase_char();
    assert_eq!(input.input(), "bc");
    input.backward_erase_char();
    assert_eq!(input.input(), "b");
    assert_eq!(input.pos(), 1);
    input.insert_char('x');
    input.cursor_left();
    input.backward_erase_line();
    assert_eq!(input.input(), "x");
    assert_eq!(input.pos(), 0);
    input.backward_erase_char();
    assert_eq!(input.input(), "x");
    input.insert_char('\u{7}');
    input.insert_char('\n');
    assert_eq!(input.input(), "x");
    assert_eq!(input.pos(), 0);
}

#[test]
fn backspace_undoes_insert() {
    let mut input = typed("east 1");
    input.cursor_left();
    let before_hint = input.end_of_line_hint().cloned();
    let before_command = input.command().cloned();
    input.insert_char('2');
    assert_eq!(input.input(), "east 21");
    input.backward_erase_char();
    assert_eq!(input.input(), "east 1");
    assert_eq!(input.pos(), 5);
    assert_eq!(input.end_of_line_hint().cloned(), before_hint);
    assert_eq!(input.command().cloned(), before_command);
}

#[test]
fn left_then_right_is_identity() {
    let mut input = typed("east");
    input.cursor_left();
    input.cursor_left();
    let pos = input.pos();
    input.cursor_left();
    input.cursor_right();
    assert_eq!(input.pos(), pos);
}

#[test]
fn multi_byte_code_points() {
    let mut input = typed("é🙂");
    assert_eq!(input.pos(), 2);
    input.cursor_left();
    assert_eq!(input.pos(), 1);
    input.insert_char('x');
    assert_eq!(input.input(), "éx🙂");
    assert_eq!(input.pos(), 2);
    input.backward_erase_char();
    assert_eq!(input.input(), "é🙂");
    input.erase_char();
    assert_eq!(input.input(), "é");
    input.backward_erase_char();
    assert_eq!(input.input(), "");
}

#[test]
fn multi_byte_argument_is_marked_on_boundaries() {
    let input = typed("east é");
    // `é` takes the bytes 5 and 6.
    assert_eq!(input.end_of_line_hint(), Some(&error_at(5, 7, "<0-63>")));
    let input = typed("east 🙂 1");
    assert_eq!(input.end_of_line_hint(), Some(&error_at(5, 9, "<0-63>")));
    let input = typed("east 1 🙂");
    assert_eq!(input.end_of_line_hint(), Some(&error_at(7, 11, "Unexpected argument")));
}

#[test]
fn multi_byte_completion_moves_by_code_points() {
    let table = CommandsTable::new(vec![Command::new(
        "été",
        "s",
        "s\n",
        alternatives_cmd(vec![command_no_args()]),
    )]);
    let mut input = Input::new(prompt(), table);
    input.insert_char('é');
    assert_eq!(input.completion(), Some("té "));
    input.complete();
    assert_eq!(input.input(), "été ");
    assert_eq!(input.pos(), 4);
}

#[test]
fn common_prefix_basic() {
    assert_eq!(common_prefix(&vec![]), "".to_string());

    assert_eq!(common_prefix(&strings(&["abc", "def"])), "");
    assert_eq!(common_prefix(&strings(&["abc", "axy"])), "a");
    assert_eq!(common_prefix(&strings(&["abc", "axy", "def"])), "");
    assert_eq!(common_prefix(&strings(&["abc", "aby", "abef"])), "ab");
}

#[test]
fn common_prefix_singleton_and_growth() {
    assert_eq!(common_prefix(&strings(&["héllo"])), "héllo");
    assert_eq!(common_prefix(&strings(&["héllo", "hé"])), "hé");
    assert_eq!(common_prefix(&strings(&["héllo", "hé", "hx"])), "h");
}

#[test]
fn byte_positions() {
    assert_eq!(str_byte_pos("abc", 1), 1);
    assert_eq!(str_byte_pos("é🙂x", 1), 2);
    assert_eq!(str_byte_pos("é🙂x", 2), 6);
    assert_eq!(str_byte_pos("é🙂x", 3), 7);
    assert_eq!(str_byte_pos("é🙂x", 10), 7);
    assert_eq!(str_byte_pos("", 0), 0);
}

#[test]
fn terminal_sink_appends() {
    let mut terminal: Vec<String> = vec!["a".to_string()];
    TerminalContentRef::push(&mut terminal, "b".to_string());
    TerminalContentRef::extend(&mut terminal, strings(&["c", "d"]));
    assert_eq!(terminal, strings(&["a", "b", "c", "d"]));
}
