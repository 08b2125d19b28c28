use std::fmt::Debug;

use icp::arg_parser::{
    cut_last_component, file_parse, keyword_set, keyword_set_with_hint, prim_int, prim_int_for_range,
    prim_int_for_range_and_name, prim_int_with_name, ArgParseRes, ContextFreeArgParser, ContextFreeMap,
    PathKind,
};

fn strings(items: &[&str]) -> Vec<String> {
    items.iter().map(|s| s.to_string()).collect()
}

fn check_hint<R, P: ContextFreeArgParser<R>>(parser: &P, expected: &[&str]) {
    assert_eq!(parser.hint(), strings(expected));
}

fn check_suggestions<R, P: ContextFreeArgParser<R>>(parser: &P, prefix: &str, expected: &[&str]) {
    assert_eq!(parser.suggestion(prefix), strings(expected), "prefix: '{}'", prefix);
}

fn check_parse<R: PartialEq + Debug, P: ContextFreeArgParser<R>>(parser: &P, input: &str, expected: R) {
    assert_eq!(parser.parse(input), ArgParseRes::Parsed(expected), "input: '{}'", input);
}

fn check_failure<R: PartialEq + Debug, P: ContextFreeArgParser<R>>(
    parser: &P,
    input: &str,
    parsed_up_to: usize,
    reason: &[&str],
) {
    assert_eq!(
        parser.parse(input),
        ArgParseRes::Failed { parsed_up_to, reason: strings(reason) },
        "input: '{}'",
        input
    );
}

#[test]
fn simple_set() {
    let ks = &["full", "half", "halt", "hallo"];
    let expected_hint = ks;

    let parser = keyword_set(ks);

    check_hint(&parser, expected_hint);

    check_parse(&parser, "full", "full".to_string());
    check_parse(&parser, "half", "half".to_string());
    check_parse(&parser, "halt", "halt".to_string());
    check_parse(&parser, "hallo", "hallo".to_string());

    check_failure(&parser, "ful", 3, expected_hint);
    check_failure(&parser, "fulll", 4, expected_hint);
    check_failure(&parser, "abc", 0, expected_hint);
    check_failure(&parser, "334", 0, expected_hint);
    check_failure(&parser, "", 0, expected_hint);
    check_failure(&parser, "h", 1, expected_hint);
    check_failure(&parser, "hal", 3, expected_hint);

    check_suggestions(&parser, "", &["full", "half", "halt", "hallo"]);
    check_suggestions(&parser, "f", &["full"]);
    check_suggestions(&parser, "fu", &["full"]);
    check_suggestions(&parser, "ful", &["full"]);
    check_suggestions(&parser, "full", &[]);
    check_suggestions(&parser, "h", &["half", "halt", "hallo"]);
    check_suggestions(&parser, "ha", &["half", "halt", "hallo"]);
    check_suggestions(&parser, "hal", &["half", "halt", "hallo"]);
    check_suggestions(&parser, "half", &[]);
    check_suggestions(&parser, "halt", &[]);
    check_suggestions(&parser, "hall", &["hallo"]);
    check_suggestions(&parser, "hallo", &[]);
    check_suggestions(&parser, "a", &[]);
}

#[test]
fn wth_hint() {
    let ks = &["full", "half", "halt", "hallo"];
    let hints = &["several", "hints"];

    let parser = keyword_set_with_hint(ks, hints);

    check_hint(&parser, hints);

    check_parse(&parser, "full", "full".to_string());
    check_parse(&parser, "half", "half".to_string());
    check_parse(&parser, "halt", "halt".to_string());
    check_parse(&parser, "hallo", "hallo".to_string());

    check_failure(&parser, "ful", 3, hints);
    check_failure(&parser, "fulll", 4, hints);
    check_failure(&parser, "abc", 0, hints);
    check_failure(&parser, "334", 0, hints);
    check_failure(&parser, "", 0, hints);
    check_failure(&parser, "h", 1, hints);
    check_failure(&parser, "hal", 3, hints);

    check_suggestions(&parser, "", &["full", "half", "halt", "hallo"]);
    check_suggestions(&parser, "f", &["full"]);
    check_suggestions(&parser, "fu", &["full"]);
    check_suggestions(&parser, "ful", &["full"]);
    check_suggestions(&parser, "full", &[]);
    check_suggestions(&parser, "h", &["half", "halt", "hallo"]);
    check_suggestions(&parser, "ha", &["half", "halt", "hallo"]);
    check_suggestions(&parser, "hal", &["half", "halt", "hallo"]);
    check_suggestions(&parser, "half", &[]);
    check_suggestions(&parser, "halt", &[]);
    check_suggestions(&parser, "hall", &["hallo"]);
    check_suggestions(&parser, "hallo", &[]);
    check_suggestions(&parser, "a", &[]);
}

#[derive(PartialEq, Clone, Debug)]
enum HalfOrFull {
    Half,
    Full,
}

#[test]
fn keyword_set_map() {
    let ks = &["full", "half"];
    let expected_hint = ks;
    let keyword_arg = keyword_set(ks);

    let typed_arg = keyword_arg.map(|s: String| match s.as_str() {
        "half" => HalfOrFull::Half,
        "full" => HalfOrFull::Full,
        _ => panic!("Unexpected keyword"),
    });

    check_hint(&typed_arg, expected_hint);

    check_parse(&typed_arg, "full", HalfOrFull::Full);
    check_parse(&typed_arg, "half", HalfOrFull::Half);

    check_failure(&typed_arg, "ful", 3, expected_hint);
    check_failure(&typed_arg, "fulll", 4, expected_hint);
    check_failure(&typed_arg, "abc", 0, expected_hint);
    check_failure(&typed_arg, "334", 0, expected_hint);
    check_failure(&typed_arg, "", 0, expected_hint);
    check_failure(&typed_arg, "h", 1, expected_hint);
    check_failure(&typed_arg, "hal", 3, expected_hint);

    check_suggestions(&typed_arg, "", expected_hint);
    check_suggestions(&typed_arg, "h", &["half"]);
    check_suggestions(&typed_arg, "he", &[]);
    check_suggestions(&typed_arg, "f", &["full"]);
    check_suggestions(&typed_arg, "full", &[]);
    check_suggestions(&typed_arg, "fulle", &[]);
    check_suggestions(&typed_arg, "z", &[]);
}

#[test]
fn u8_parsing() {
    let parser = prim_int::<u8>();
    let expected_hint = &["<0-255>"];

    check_hint(&parser, expected_hint);

    check_parse(&parser, "0", 0);
    check_parse(&parser, "1", 1);
    check_parse(&parser, "255", 255);

    check_failure(&parser, "-1", 2, expected_hint);
    check_failure(&parser, "", 0, expected_hint);
    check_failure(&parser, "a", 0, expected_hint);
    check_failure(&parser, "z", 0, expected_hint);
    check_failure(&parser, "*", 0, expected_hint);
    check_failure(&parser, "256", 3, expected_hint);

    check_suggestions(&parser, "", &[]);
    check_suggestions(&parser, "1", &[]);
    check_suggestions(&parser, "0", &[]);
    check_suggestions(&parser, "a", &[]);
}

#[test]
fn u8_with_hint() {
    let parser = prim_int_with_name::<u8>("width");
    let expected_hint = &["<width: 0-255>"];

    check_hint(&parser, expected_hint);

    check_parse(&parser, "0", 0);
    check_parse(&parser, "1", 1);
    check_parse(&parser, "255", 255);

    check_failure(&parser, "-1", 2, expected_hint);
    check_failure(&parser, "", 0, expected_hint);
    check_failure(&parser, "a", 0, expected_hint);
    check_failure(&parser, "z", 0, expected_hint);
    check_failure(&parser, "*", 0, expected_hint);
    check_failure(&parser, "256", 3, expected_hint);

    check_suggestions(&parser, "", &[]);
    check_suggestions(&parser, "1", &[]);
    check_suggestions(&parser, "0", &[]);
    check_suggestions(&parser, "a", &[]);
}

#[test]
fn i64_with_range() {
    let i64_arg = prim_int_for_range(-10i64, 1700);
    let expected_below_hint = &["min: -10"];
    let expected_above_hint = &["max: 1700"];
    let expected_hint = &["<-10 - 1700>"];

    check_hint(&i64_arg, expected_hint);

    check_parse(&i64_arg, "-10", -10);
    check_parse(&i64_arg, "-7", -7);
    check_parse(&i64_arg, "0", 0);
    check_parse(&i64_arg, "1", 1);
    check_parse(&i64_arg, "1000", 1000);
    check_parse(&i64_arg, "1700", 1700);

    check_failure(&i64_arg, "-100", 4, expected_below_hint);
    check_failure(&i64_arg, "-11", 3, expected_below_hint);
    check_failure(&i64_arg, "", 0, expected_hint);
    check_failure(&i64_arg, "a", 0, expected_hint);
    check_failure(&i64_arg, "z", 0, expected_hint);
    check_failure(&i64_arg, "*", 0, expected_hint);
    check_failure(&i64_arg, "1701", 4, expected_above_hint);
    check_failure(&i64_arg, "100000", 6, expected_above_hint);

    check_suggestions(&i64_arg, "", &[]);
    check_suggestions(&i64_arg, "1", &[]);
    check_suggestions(&i64_arg, "0", &[]);
    check_suggestions(&i64_arg, "a", &[]);
}

#[test]
fn u64_with_range_and_hint() {
    let u64_arg = prim_int_for_range_and_name(10u64, 100, "height");
    let expected_below_hint = &["min height: 10"];
    let expected_above_hint = &["max height: 100"];
    let expected_hint = &["<height: 10-100>"];

    check_hint(&u64_arg, expected_hint);

    check_parse(&u64_arg, "10", 10);
    check_parse(&u64_arg, "17", 17);
    check_parse(&u64_arg, "100", 100);

    check_failure(&u64_arg, "-7", 2, expected_hint);
    check_failure(&u64_arg, "0", 1, expected_below_hint);
    check_failure(&u64_arg, "3", 1, expected_below_hint);
    check_failure(&u64_arg, "", 0, expected_hint);
    check_failure(&u64_arg, "a", 0, expected_hint);
    check_failure(&u64_arg, "z", 0, expected_hint);
    check_failure(&u64_arg, "*", 0, expected_hint);
    check_failure(&u64_arg, "101", 3, expected_above_hint);
    check_failure(&u64_arg, "100000", 6, expected_above_hint);

    check_suggestions(&u64_arg, "", &[]);
    check_suggestions(&u64_arg, "1", &[]);
    check_suggestions(&u64_arg, "0", &[]);
    check_suggestions(&u64_arg, "a", &[]);
}

#[test]
fn prim_int_map() {
    let i8_arg = prim_int::<i8>();

    let saturated_arg = i8_arg.map(|v: i8| if v < 0 { 0 } else { v });

    // The value set shrinks, but the accepted input is still that of `i8`.
    let expected_hint = &["<-128 - 127>"];

    check_hint(&saturated_arg, expected_hint);

    check_parse(&saturated_arg, "-10", 0);
    check_parse(&saturated_arg, "0", 0);
    check_parse(&saturated_arg, "33", 33);

    check_failure(&saturated_arg, "-1000", 5, expected_hint);
    check_failure(&saturated_arg, "", 0, expected_hint);
    check_failure(&saturated_arg, "a", 0, expected_hint);
    check_failure(&saturated_arg, "200", 3, expected_hint);

    check_suggestions(&saturated_arg, "", &[]);
    check_suggestions(&saturated_arg, "1", &[]);
    check_suggestions(&saturated_arg, "0", &[]);
    check_suggestions(&saturated_arg, "a", &[]);
}

#[derive(PartialEq, Clone, Debug)]
enum LeftOrRight {
    Left(u8),
    Right(u8),
}

#[test]
fn simple_context_free_parser_adapter() {
    let int_parser = prim_int_for_range(0u8, 99);
    let parser = ContextFreeMap::new(int_parser, |v: u8| {
        if v < 50 {
            LeftOrRight::Left(v)
        } else {
            LeftOrRight::Right(v - 50)
        }
    });

    let expected_hint = &["<0-99>"];
    let expected_above_hint = &["max: 99"];

    check_hint(&parser, expected_hint);

    check_parse(&parser, "0", LeftOrRight::Left(0));
    check_parse(&parser, "17", LeftOrRight::Left(17));
    check_parse(&parser, "49", LeftOrRight::Left(49));
    check_parse(&parser, "50", LeftOrRight::Right(0));
    check_parse(&parser, "51", LeftOrRight::Right(1));
    check_parse(&parser, "99", LeftOrRight::Right(49));

    check_failure(&parser, "-1", 2, expected_hint);
    check_failure(&parser, "", 0, expected_hint);
    check_failure(&parser, "a", 0, expected_hint);
    check_failure(&parser, "test", 0, expected_hint);
    check_failure(&parser, "*", 0, expected_hint);
    check_failure(&parser, "100", 3, expected_above_hint);
    check_failure(&parser, "255", 3, expected_above_hint);

    check_suggestions(&parser, "", &[]);
    check_suggestions(&parser, "1", &[]);
    check_suggestions(&parser, "0", &[]);
    check_suggestions(&parser, "a", &[]);
}

#[test]
fn adapted_parser_forwards() {
    let parser = keyword_set(&["on", "off"]).adapt();
    check_parse(&parser, "on", "on".to_string());
    check_failure(&parser, "o", 1, &["on", "off"]);
    check_suggestions(&parser, "o", &["on", "off"]);
}

#[test]
fn int_with_multi_byte_digits_is_rejected_in_full() {
    // `\u{661}` is ARABIC-INDIC DIGIT ONE: a digit to the pattern, not to
    // the integer reader.
    let parser = prim_int::<u8>();
    check_failure(&parser, "\u{661}\u{662}", 2, &["<0-255>"]);
    check_failure(&parser, "1x", 1, &["<0-255>"]);
    check_failure(&parser, "-", 0, &["<0-255>"]);
}

#[test]
fn signed_bounds_and_extremes() {
    let parser = prim_int::<i64>();
    check_hint(&parser, &["<-9223372036854775808 - 9223372036854775807>"]);
    check_parse(&parser, "-9223372036854775808", i64::MIN);
    check_parse(&parser, "9223372036854775807", i64::MAX);
    check_failure(&parser, "9223372036854775808", 19, &["<-9223372036854775808 - 9223372036854775807>"]);
    check_failure(&parser, "123456789012345678901234567890", 30, &["<-9223372036854775808 - 9223372036854775807>"]);
    let parser = prim_int::<u64>();
    check_parse(&parser, "18446744073709551615", u64::MAX);
    check_failure(&parser, "-0", 2, &["<0-18446744073709551615>"]);
}

#[test]
fn merge_prefers_parsed_and_furthest() {
    let parsed: ArgParseRes<u8> = ArgParseRes::Parsed(1);
    let f1: ArgParseRes<u8> = ArgParseRes::Failed { parsed_up_to: 1, reason: strings(&["a"]) };
    let f2: ArgParseRes<u8> = ArgParseRes::Failed { parsed_up_to: 2, reason: strings(&["b"]) };
    let f3: ArgParseRes<u8> = ArgParseRes::Failed { parsed_up_to: 2, reason: strings(&["c"]) };
    assert_eq!(f1.clone().merge(parsed.clone()), parsed);
    assert_eq!(parsed.clone().merge(ArgParseRes::Parsed(2)), parsed);
    assert_eq!(f1.clone().merge(f2.clone()), f2);
    assert_eq!(f2.clone().merge(f1.clone()), f2);
    assert_eq!(
        f2.clone().merge(f3.clone()),
        ArgParseRes::Failed { parsed_up_to: 2, reason: strings(&["b", "c"]) }
    );
    // Associativity on a concrete triple.
    assert_eq!(
        f2.clone().merge(f3.clone()).merge(f1.clone()),
        f2.clone().merge(f3.clone().merge(f1.clone()))
    );
}

#[test]
fn basic_cut_last_component() {
    assert_eq!(cut_last_component(""), "");
    assert_eq!(cut_last_component("name"), "");
    assert_eq!(cut_last_component("/in-root"), "/");
    assert_eq!(cut_last_component("dir1/dir2"), "dir1/");
    assert_eq!(cut_last_component("dir1/dir2/"), "dir1/");
    assert_eq!(cut_last_component("dir1/dir2///"), "dir1/");
}

#[test]
fn file_decisions() {
    let failed = |parsed_up_to: usize, reason: &[&str]| ArgParseRes::<()>::Failed {
        parsed_up_to,
        reason: strings(reason),
    };
    assert_eq!(file_parse("dir1/file1.isv", PathKind::File, true, "e"), ArgParseRes::Parsed(()));
    assert_eq!(file_parse("dir1/.", PathKind::Directory, true, "e"), failed(5, &[]));
    assert_eq!(file_parse("dir1/./", PathKind::Directory, true, "e"), failed(7, &[]));
    assert_eq!(file_parse("dir1/..", PathKind::Directory, true, "e"), failed(5, &[]));
    assert_eq!(file_parse("dir1", PathKind::Directory, true, "e"), failed(0, &[]));
    assert_eq!(file_parse("dir1/f", PathKind::Missing, true, "e"), failed(5, &[]));
    assert_eq!(file_parse("nope", PathKind::Missing, true, "e"), failed(0, &[]));
    assert_eq!(file_parse("dir3/", PathKind::Missing, true, "gone"), failed(5, &["gone"]));
    assert_eq!(file_parse("a/b/c", PathKind::Missing, false, "gone"), failed(5, &["gone"]));
}
