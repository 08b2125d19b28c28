use icp::arg_parser::{keyword_set, keyword_set_with_hint, prim_int_for_range};
use icp::command_parser::{
    alternatives_cmd, command_1arg, command_2args, command_no_args, AlternativesCommandParser, ArgSpec,
    ArgValue, CommandParseFailure, CommandParseRes, CommandSuggestions, FormMatch,
};

fn strings(items: &[&str]) -> Vec<String> {
    items.iter().map(|s| s.to_string()).collect()
}

fn east_west_reset() -> AlternativesCommandParser {
    let opt1 = command_2args(
        ArgSpec::Keyword(keyword_set_with_hint(&["east", "west"], &["<side>"])),
        ArgSpec::Int(prim_int_for_range(0i64, 63)),
    );
    let opt2 = command_1arg(ArgSpec::Keyword(keyword_set(&["reset"])));
    alternatives_cmd(vec![opt1, opt2])
}

fn east(x: i64) -> FormMatch {
    FormMatch { form: 0, args: vec![ArgValue::Keyword("east".to_string()), ArgValue::Int(x)] }
}

fn check_parse(
    parser: &AlternativesCommandParser,
    input: &str,
    pos: Option<usize>,
    expected: FormMatch,
    suggestions: Option<CommandSuggestions>,
) {
    assert_eq!(
        parser.parse(input, pos),
        (CommandParseRes::Parsed(expected), suggestions),
        "input: '{}', pos: {:?}",
        input,
        pos
    );
}

fn check_failure(
    parser: &AlternativesCommandParser,
    input: &str,
    pos: Option<usize>,
    parsed_up_to: usize,
    reason: CommandParseFailure,
    suggestions: Option<CommandSuggestions>,
) {
    assert_eq!(
        parser.parse(input, pos),
        (CommandParseRes::Failed { parsed_up_to, reason }, suggestions),
        "input: '{}', pos: {:?}",
        input,
        pos
    );
}

#[test]
fn simple_alternatives_parser() {
    let parser = east_west_reset();

    // == ExpectedArg ==
    check_failure(
        &parser,
        "",
        Some(0),
        0,
        CommandParseFailure::ExpectedArg { index: 0, hint: strings(&["<side>", "reset"]) },
        Some(CommandSuggestions(strings(&["east", "west", "reset"]))),
    );

    // == Parsed ==
    for cur in 1..3 {
        check_parse(&parser, "east 7", Some(cur), east(7), Some(CommandSuggestions(strings(&["east"]))));
    }
    check_parse(&parser, "east 7", Some(4), east(7), Some(CommandSuggestions(vec![])));
    check_parse(&parser, "east 7", Some(5), east(7), Some(CommandSuggestions(vec![])));

    // == UnexpectedArgument ==
    check_failure(
        &parser,
        "east 7 more",
        Some(6),
        6,
        CommandParseFailure::UnexpectedArgument { from: 7 },
        Some(CommandSuggestions(vec![])),
    );
    for cur in 7..11 {
        check_failure(
            &parser,
            "east 7 more",
            Some(cur),
            6,
            CommandParseFailure::UnexpectedArgument { from: 7 },
            None,
        );
    }

    // == ArgumentParseFailed ==
    check_failure(
        &parser,
        "ea",
        Some(0),
        2,
        CommandParseFailure::ArgumentParseFailed { from: 0, to: 2, reason: strings(&["<side>"]) },
        Some(CommandSuggestions(strings(&["east", "west", "reset"]))),
    );
    for cur in 1..2 {
        check_failure(
            &parser,
            "ea",
            Some(cur),
            2,
            CommandParseFailure::ArgumentParseFailed { from: 0, to: 2, reason: strings(&["<side>"]) },
            Some(CommandSuggestions(strings(&["east"]))),
        );
    }
    check_failure(
        &parser,
        "ea",
        Some(3),
        2,
        CommandParseFailure::ArgumentParseFailed { from: 0, to: 2, reason: strings(&["<side>"]) },
        None,
    );
}

#[test]
fn reset_form_is_second() {
    let parser = east_west_reset();
    assert_eq!(
        parser.parse("  reset  ", None),
        (CommandParseRes::Parsed(FormMatch { form: 1, args: vec![ArgValue::Keyword("reset".to_string())] }), None)
    );
}

#[test]
fn missing_second_argument() {
    let parser = east_west_reset();
    // The cursor after the first word asks for the second argument.
    assert_eq!(
        parser.parse("east ", Some(5)),
        (
            CommandParseRes::Failed {
                parsed_up_to: 4,
                reason: CommandParseFailure::ExpectedArg { index: 1, hint: strings(&["<0-63>"]) },
            },
            Some(CommandSuggestions(vec![])),
        )
    );
}

#[test]
fn no_args_form() {
    let parser = alternatives_cmd(vec![command_no_args()]);
    assert_eq!(parser.parse("   ", Some(1)), (CommandParseRes::Parsed(FormMatch { form: 0, args: vec![] }), None));
    assert_eq!(
        parser.parse("  x y", None),
        (
            CommandParseRes::Failed { parsed_up_to: 0, reason: CommandParseFailure::UnexpectedArgument { from: 2 } },
            None,
        )
    );
}

#[test]
fn out_of_range_argument() {
    let parser = east_west_reset();
    assert_eq!(
        parser.parse("west 99", Some(7)),
        (
            CommandParseRes::Failed {
                parsed_up_to: 7,
                reason: CommandParseFailure::ArgumentParseFailed { from: 5, to: 7, reason: strings(&["max: 63"]) },
            },
            Some(CommandSuggestions(vec![])),
        )
    );
}

#[test]
fn failure_bounds_are_bytes() {
    let parser = east_west_reset();
    // `é` takes two bytes; `parsed_up_to` counts code points.
    assert_eq!(
        parser.parse("é 1", None),
        (
            CommandParseRes::Failed {
                parsed_up_to: 0,
                reason: CommandParseFailure::ArgumentParseFailed { from: 0, to: 2, reason: strings(&["<side>", "reset"]) },
            },
            None,
        )
    );
    assert_eq!(
        parser.parse("east 1 é", None),
        (
            CommandParseRes::Failed { parsed_up_to: 6, reason: CommandParseFailure::UnexpectedArgument { from: 7 } },
            None,
        )
    );
}

#[test]
fn missing_argument_away_from_cursor_suggests_nothing() {
    let parser = east_west_reset();
    assert_eq!(
        parser.parse("east", Some(2)),
        (
            CommandParseRes::Failed {
                parsed_up_to: 4,
                reason: CommandParseFailure::ExpectedArg { index: 1, hint: strings(&["<0-63>"]) },
            },
            Some(CommandSuggestions(vec![])),
        )
    );
}

use icp::arg_parser::prim_int;
use icp::command_parser::BaseArg;

fn move_or_mode() -> AlternativesCommandParser {
    // The second argument depends on the first: a distance after `move`, a
    // mode name after `mode`, any unsigned number otherwise.
    let second = ArgSpec::Dependent {
        arg: 0,
        cases: vec![
            ("move".to_string(), BaseArg::Int(prim_int_for_range(-10i64, 10))),
            ("mode".to_string(), BaseArg::Keyword(keyword_set(&["fast", "slow"]))),
        ],
        default: BaseArg::UInt(prim_int::<u64>()),
    };
    alternatives_cmd(vec![command_2args(ArgSpec::Keyword(keyword_set(&["move", "mode", "seed"])), second)])
}

#[test]
fn dependent_argument_follows_the_first() {
    let parser = move_or_mode();
    assert_eq!(
        parser.parse("move -3", None).0,
        CommandParseRes::Parsed(FormMatch {
            form: 0,
            args: vec![ArgValue::Keyword("move".to_string()), ArgValue::Int(-3)],
        })
    );
    assert_eq!(
        parser.parse("mode slow", None).0,
        CommandParseRes::Parsed(FormMatch {
            form: 0,
            args: vec![ArgValue::Keyword("mode".to_string()), ArgValue::Keyword("slow".to_string())],
        })
    );
    assert_eq!(
        parser.parse("seed 18446744073709551615", None).0,
        CommandParseRes::Parsed(FormMatch {
            form: 0,
            args: vec![ArgValue::Keyword("seed".to_string()), ArgValue::UInt(u64::MAX)],
        })
    );
    assert_eq!(
        parser.parse("move 11", None).0,
        CommandParseRes::Failed {
            parsed_up_to: 7,
            reason: CommandParseFailure::ArgumentParseFailed { from: 5, to: 7, reason: strings(&["max: 10"]) },
        }
    );
    // Suggestions and hints come from the parser chosen by the first value.
    assert_eq!(parser.parse("mode f", Some(6)).1, Some(CommandSuggestions(strings(&["fast"]))));
    assert_eq!(
        parser.parse("mode ", Some(5)),
        (
            CommandParseRes::Failed {
                parsed_up_to: 4,
                reason: CommandParseFailure::ExpectedArg { index: 1, hint: strings(&["fast", "slow"]) },
            },
            Some(CommandSuggestions(strings(&["fast", "slow"]))),
        )
    );
}

#[test]
fn alternative_argument_parsers() {
    let arg = ArgSpec::Alternatives(vec![
        BaseArg::Keyword(keyword_set_with_hint(&["all"], &["all"])),
        BaseArg::UInt(prim_int_for_range(1u64, 8)),
    ]);
    let parser = alternatives_cmd(vec![command_1arg(arg)]);
    assert_eq!(
        parser.parse("all", None).0,
        CommandParseRes::Parsed(FormMatch { form: 0, args: vec![ArgValue::Keyword("all".to_string())] })
    );
    assert_eq!(
        parser.parse("3", None).0,
        CommandParseRes::Parsed(FormMatch { form: 0, args: vec![ArgValue::UInt(3)] })
    );
    // Both fail at the start: the reasons are pooled.
    assert_eq!(
        parser.parse("x", None).0,
        CommandParseRes::Failed {
            parsed_up_to: 0,
            reason: CommandParseFailure::ArgumentParseFailed { from: 0, to: 1, reason: strings(&["all", "<1-8>"]) },
        }
    );
    // The number got further.
    assert_eq!(
        parser.parse("9", None).0,
        CommandParseRes::Failed {
            parsed_up_to: 1,
            reason: CommandParseFailure::ArgumentParseFailed { from: 0, to: 1, reason: strings(&["max: 8"]) },
        }
    );
    assert_eq!(
        parser.parse("", Some(0)),
        (
            CommandParseRes::Failed {
                parsed_up_to: 0,
                reason: CommandParseFailure::ExpectedArg { index: 0, hint: strings(&["all", "<1-8>"]) },
            },
            Some(CommandSuggestions(strings(&["all"]))),
        )
    );
}
