use icp::arg_parser::{prim_int_for_range, Arg2Map, Arg2Parser, ArgParseRes, ContextFreeArgParser};

fn strings(items: &[&str]) -> Vec<String> {
    items.iter().map(|s| s.to_string()).collect()
}

#[derive(PartialEq, Clone, Debug)]
enum LeftOrRight {
    Left(u8, u8),
    Right(String, u8),
}

#[test]
fn simple_arg_2_parser_adapter() {
    let int_parser = prim_int_for_range(0u8, 99);
    let parser = Arg2Map::new(int_parser.adapt(), |arg1: &u8, v: u8| {
        if v < 50 {
            LeftOrRight::Left(*arg1, v)
        } else {
            LeftOrRight::Right(arg1.to_string(), v - 50)
        }
    });

    let expected_hint = &["<0-99>"];
    let expected_above_hint = &["max: 99"];

    let check_hint = |arg1: &u8, hints: &[&str]| assert_eq!(parser.hint(arg1), strings(hints));
    let check_suggestions =
        |arg1: &u8, prefix: &str, expected: &[&str]| assert_eq!(parser.suggestion(arg1, prefix), strings(expected));
    let check_parse =
        |arg1: &u8, input: &str, expected: LeftOrRight| assert_eq!(parser.parse(arg1, input), ArgParseRes::Parsed(expected));
    let check_failure = |arg1: &u8, input: &str, parsed_up_to: usize, reason: &[&str]| {
        assert_eq!(parser.parse(arg1, input), ArgParseRes::Failed { parsed_up_to, reason: strings(reason) })
    };

    check_hint(&0, expected_hint);

    check_parse(&11, "0", LeftOrRight::Left(11, 0));
    check_parse(&7, "17", LeftOrRight::Left(7, 17));
    check_parse(&0, "49", LeftOrRight::Left(0, 49));
    check_parse(&8, "50", LeftOrRight::Right("8".to_string(), 0));
    check_parse(&34, "51", LeftOrRight::Right("34".to_string(), 1));
    check_parse(&255, "99", LeftOrRight::Right("255".to_string(), 49));

    check_failure(&0, "-1", 2, expected_hint);
    check_failure(&0, "", 0, expected_hint);
    check_failure(&10, "a", 0, expected_hint);
    check_failure(&4, "test", 0, expected_hint);
    check_failure(&0, "*", 0, expected_hint);
    check_failure(&100, "100", 3, expected_above_hint);
    check_failure(&255, "255", 3, expected_above_hint);

    check_suggestions(&0, "", &[]);
    check_suggestions(&3, "1", &[]);
    check_suggestions(&10, "0", &[]);
    check_suggestions(&7, "a", &[]);
}
