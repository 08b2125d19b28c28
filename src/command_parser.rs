//! Grammars of whole commands: a command takes its arguments in one of
//! several forms, and each form is a fixed list of argument parsers.
//!
//! The arguments are the whitespace separated words of the text after the
//! command's keyword.  The cursor and `parsed_up_to` count code points of
//! that text; the bounds of a rejected or unexpected word are byte offsets.
//!
//! An argument's parser may depend on the values of the arguments before
//! it: see [`ArgSpec::Dependent`].

use vstd::prelude::*;
use vstd::string::*;

use crate::arg_parser::keyword_set::{longest_match, strict_extensions};
use crate::arg_parser::prim_int::{int_hint, int_outcome};
use crate::arg_parser::{
    merge_outcomes, ArgInt, ArgOutcome, ArgParseRes, ContextFreeArgParser, KeywordSetArgParser,
    PrimIntArgParser,
};
use crate::text::chars_eq;
use crate::text::{chars_byte_pos, is_whitespace, str_byte_len, str_chars, utf8_len, views, white_space};

verus! {

/// A parser of one argument that depends on nothing else.
#[derive(PartialEq, Clone, Debug)]
pub enum BaseArg {
    Int(PrimIntArgParser<i64>),
    UInt(PrimIntArgParser<u64>),
    Keyword(KeywordSetArgParser),
}

/// The parser of one argument.
#[derive(PartialEq, Clone, Debug)]
pub enum ArgSpec {
    Int(PrimIntArgParser<i64>),
    UInt(PrimIntArgParser<u64>),
    Keyword(KeywordSetArgParser),
    /// Tries each parser; the results are merged as [`ArgParseRes::merge`]
    /// does, and the suggestions and hints of all are concatenated.
    Alternatives(Vec<BaseArg>),
    /// Parses with the parser of the first case whose keyword is the value
    /// of the earlier argument with index `arg`; with `default` when there is
    /// no such case.
    Dependent { arg: usize, cases: Vec<(String, BaseArg)>, default: BaseArg },
}

/// A parsed argument.
#[derive(PartialEq, Eq, Clone, Debug)]
pub enum ArgValue {
    Int(i64),
    UInt(u64),
    Keyword(String),
}

/// The content of an [`ArgValue`].
pub enum ArgValueView {
    Int(int),
    UInt(int),
    Keyword(Seq<char>),
}

impl View for ArgValue {
    type V = ArgValueView;

    open spec fn view(&self) -> ArgValueView {
        match self {
            ArgValue::Int(v) => ArgValueView::Int(*v as int),
            ArgValue::UInt(v) => ArgValueView::UInt(*v as int),
            ArgValue::Keyword(k) => ArgValueView::Keyword(k@),
        }
    }
}

/// The contents of each value.
pub open spec fn values_view(v: Seq<ArgValue>) -> Seq<ArgValueView> {
    v.map_values(|a: ArgValue| a@)
}

pub open spec fn base_wf(b: BaseArg) -> bool {
    match b {
        BaseArg::Keyword(k) => k.keywords().len() > 0,
        _ => true,
    }
}

/// The cases of a dependent argument, keywords as text.
pub open spec fn cases_view(cases: Seq<(String, BaseArg)>) -> Seq<(Seq<char>, BaseArg)> {
    cases.map_values(|c: (String, BaseArg)| (c.0@, c.1))
}

pub open spec fn arg_wf(a: ArgSpec) -> bool {
    match a {
        ArgSpec::Keyword(k) => k.keywords().len() > 0,
        ArgSpec::Alternatives(bs) => bs@.len() > 0 && forall|i: int| 0 <= i < bs@.len() ==> base_wf(#[trigger] bs@[i]),
        ArgSpec::Dependent { cases, default, .. } => base_wf(default) && forall|i: int|
            0 <= i < cases@.len() ==> base_wf(#[trigger] cases@[i].1),
        _ => true,
    }
}

/// An integer outcome with the value wrapped by `wrap`.
pub open spec fn wrap_int(r: ArgOutcome<int>, unsigned: bool) -> ArgOutcome<ArgValueView> {
    match r {
        ArgOutcome::Parsed(v) => ArgOutcome::Parsed(
            if unsigned {
                ArgValueView::UInt(v)
            } else {
                ArgValueView::Int(v)
            },
        ),
        ArgOutcome::Failed { parsed_up_to, reason } => ArgOutcome::Failed { parsed_up_to, reason },
    }
}

/// What the parser `b` gives for `input`.
pub open spec fn base_outcome(b: BaseArg, input: Seq<char>) -> ArgOutcome<ArgValueView> {
    match b {
        BaseArg::Int(p) => wrap_int(
            int_outcome(input, <i64 as ArgInt>::lo(), <i64 as ArgInt>::hi(), p.min(), p.max(), p.name()),
            false,
        ),
        BaseArg::UInt(p) => wrap_int(
            int_outcome(input, <u64 as ArgInt>::lo(), <u64 as ArgInt>::hi(), p.min(), p.max(), p.name()),
            true,
        ),
        BaseArg::Keyword(k) => if k.keywords().contains(input) {
            ArgOutcome::Parsed(ArgValueView::Keyword(input))
        } else {
            ArgOutcome::Failed { parsed_up_to: longest_match(k.keywords(), input), reason: k.hint_texts() }
        },
    }
}

/// What the parser `b` suggests for `prefix`.
pub open spec fn base_suggestions(b: BaseArg, prefix: Seq<char>) -> Seq<Seq<char>> {
    match b {
        BaseArg::Keyword(k) => strict_extensions(k.keywords(), prefix),
        _ => Seq::empty(),
    }
}

/// The hints of the parser `b`.
pub open spec fn base_hints(b: BaseArg) -> Seq<Seq<char>> {
    match b {
        BaseArg::Int(p) => seq![int_hint(p.min(), p.max(), p.name())],
        BaseArg::UInt(p) => seq![int_hint(p.min(), p.max(), p.name())],
        BaseArg::Keyword(k) => k.hint_texts(),
    }
}

/// Parsing `input` with each of `bs`, merged first to last.
pub open spec fn alternatives_outcome(bs: Seq<BaseArg>, input: Seq<char>) -> ArgOutcome<ArgValueView>
    decreases bs.len(),
{
    if bs.len() <= 1 {
        base_outcome(bs[0], input)
    } else {
        merge_outcomes(alternatives_outcome(bs.drop_last(), input), base_outcome(bs.last(), input))
    }
}

/// The suggestions of each of `bs`, concatenated.
pub open spec fn alternatives_suggestions(bs: Seq<BaseArg>, prefix: Seq<char>) -> Seq<Seq<char>>
    decreases bs.len(),
{
    if bs.len() == 0 {
        Seq::empty()
    } else {
        alternatives_suggestions(bs.drop_last(), prefix) + base_suggestions(bs.last(), prefix)
    }
}

/// The hints of each of `bs`, concatenated.
pub open spec fn alternatives_hints(bs: Seq<BaseArg>) -> Seq<Seq<char>>
    decreases bs.len(),
{
    if bs.len() == 0 {
        Seq::empty()
    } else {
        alternatives_hints(bs.drop_last()) + base_hints(bs.last())
    }
}

/// Index of the first case from `i` on whose keyword is `k`.
pub open spec fn find_case(cases: Seq<(Seq<char>, BaseArg)>, k: Seq<char>, i: nat) -> Option<nat>
    decreases cases.len() - i,
{
    if i >= cases.len() {
        None
    } else if cases[i as int].0 == k {
        Some(i)
    } else {
        find_case(cases, k, i + 1)
    }
}

/// The parser a dependent argument uses after the values `values`.
pub open spec fn chosen(arg: nat, cases: Seq<(Seq<char>, BaseArg)>, default: BaseArg, values: Seq<ArgValueView>) -> BaseArg {
    if arg < values.len() {
        match values[arg as int] {
            ArgValueView::Keyword(k) => match find_case(cases, k, 0) {
                Some(i) => cases[i as int].1,
                None => default,
            },
            _ => default,
        }
    } else {
        default
    }
}

/// What the argument parser `a` gives for `input`, after the arguments
/// `values`.
pub open spec fn arg_outcome(a: ArgSpec, values: Seq<ArgValueView>, input: Seq<char>) -> ArgOutcome<ArgValueView> {
    match a {
        ArgSpec::Int(p) => base_outcome(BaseArg::Int(p), input),
        ArgSpec::UInt(p) => base_outcome(BaseArg::UInt(p), input),
        ArgSpec::Keyword(k) => base_outcome(BaseArg::Keyword(k), input),
        ArgSpec::Alternatives(bs) => alternatives_outcome(bs@, input),
        ArgSpec::Dependent { arg, cases, default } => base_outcome(
            chosen(arg as nat, cases_view(cases@), default, values),
            input,
        ),
    }
}

/// What the argument parser `a` suggests for `prefix`, after the arguments
/// `values`.
pub open spec fn arg_suggestions(a: ArgSpec, values: Seq<ArgValueView>, prefix: Seq<char>) -> Seq<Seq<char>> {
    match a {
        ArgSpec::Int(p) => base_suggestions(BaseArg::Int(p), prefix),
        ArgSpec::UInt(p) => base_suggestions(BaseArg::UInt(p), prefix),
        ArgSpec::Keyword(k) => base_suggestions(BaseArg::Keyword(k), prefix),
        ArgSpec::Alternatives(bs) => alternatives_suggestions(bs@, prefix),
        ArgSpec::Dependent { arg, cases, default } => base_suggestions(
            chosen(arg as nat, cases_view(cases@), default, values),
            prefix,
        ),
    }
}

/// The hints of the argument parser `a`, after the arguments `values`.
pub open spec fn arg_hints(a: ArgSpec, values: Seq<ArgValueView>) -> Seq<Seq<char>> {
    match a {
        ArgSpec::Int(p) => base_hints(BaseArg::Int(p)),
        ArgSpec::UInt(p) => base_hints(BaseArg::UInt(p)),
        ArgSpec::Keyword(k) => base_hints(BaseArg::Keyword(k)),
        ArgSpec::Alternatives(bs) => alternatives_hints(bs@),
        ArgSpec::Dependent { arg, cases, default } => base_hints(
            chosen(arg as nat, cases_view(cases@), default, values),
        ),
    }
}

/// The content of an argument parse result.
pub open spec fn view_outcome(r: ArgOutcome<ArgValue>) -> ArgOutcome<ArgValueView> {
    match r {
        ArgOutcome::Parsed(v) => ArgOutcome::Parsed(v@),
        ArgOutcome::Failed { parsed_up_to, reason } => ArgOutcome::Failed { parsed_up_to, reason },
    }
}

/// The content of an argument parse result.
pub open spec fn arg_res_view(r: ArgParseRes<ArgValue>) -> ArgOutcome<ArgValueView> {
    view_outcome(r.outcome())
}

proof fn lemma_view_merge(a: ArgOutcome<ArgValue>, b: ArgOutcome<ArgValue>)
    ensures
        view_outcome(merge_outcomes(a, b)) == merge_outcomes(view_outcome(a), view_outcome(b)),
{
}

proof fn lemma_match_len_le(a: Seq<char>, b: Seq<char>, i: nat)
    requires
        i <= a.len(),
    ensures
        crate::text::match_len(a, b, i) <= a.len(),
    decreases a.len() - i,
{
    if i < a.len() && i < b.len() && a[i as int] == b[i as int] {
        lemma_match_len_le(a, b, i + 1);
    }
}

proof fn lemma_longest_match_le(keywords: Seq<Seq<char>>, input: Seq<char>)
    ensures
        longest_match(keywords, input) <= input.len(),
    decreases keywords.len(),
{
    if keywords.len() > 0 {
        lemma_longest_match_le(keywords.drop_last(), input);
        lemma_match_len_le(input, keywords.last(), 0);
    }
}

/// A failure of `o` claims no more than `len` code points.
pub open spec fn failure_within(o: ArgOutcome<ArgValueView>, len: nat) -> bool {
    o matches ArgOutcome::Failed { parsed_up_to, .. } ==> parsed_up_to <= len
}

proof fn lemma_base_outcome_bound(b: BaseArg, input: Seq<char>)
    ensures
        failure_within(base_outcome(b, input), input.len()),
{
    match b {
        BaseArg::Keyword(k) => lemma_longest_match_le(k.keywords(), input),
        _ => {},
    }
}

proof fn lemma_alternatives_outcome_bound(bs: Seq<BaseArg>, input: Seq<char>)
    ensures
        failure_within(alternatives_outcome(bs, input), input.len()),
    decreases bs.len(),
{
    if bs.len() <= 1 {
        lemma_base_outcome_bound(bs[0], input);
    } else {
        lemma_alternatives_outcome_bound(bs.drop_last(), input);
        lemma_base_outcome_bound(bs.last(), input);
    }
}

/// A failed argument never claims more than its own text.
pub proof fn lemma_arg_outcome_bound(a: ArgSpec, values: Seq<ArgValueView>, input: Seq<char>)
    ensures
        failure_within(arg_outcome(a, values, input), input.len()),
{
    match a {
        ArgSpec::Int(p) => lemma_base_outcome_bound(BaseArg::Int(p), input),
        ArgSpec::UInt(p) => lemma_base_outcome_bound(BaseArg::UInt(p), input),
        ArgSpec::Keyword(k) => lemma_base_outcome_bound(BaseArg::Keyword(k), input),
        ArgSpec::Alternatives(bs) => lemma_alternatives_outcome_bound(bs@, input),
        ArgSpec::Dependent { arg, cases, default } => lemma_base_outcome_bound(
            chosen(arg as nat, cases_view(cases@), default, values),
            input,
        ),
    }
}

fn parse_int<T: ArgInt>(p: &PrimIntArgParser<T>, input: &str) -> (r: ArgParseRes<T>)
    ensures
        crate::arg_parser::prim_int::int_of_outcome(r.outcome()) == int_outcome(
            input@,
            T::lo(),
            T::hi(),
            p.min(),
            p.max(),
            p.name(),
        ),
{
    p.parse(input)
}

fn parse_i64(p: &PrimIntArgParser<i64>, input: &str) -> (r: ArgParseRes<ArgValue>)
    ensures
        arg_res_view(r) == base_outcome(BaseArg::Int(*p), input@),
{
    match parse_int(p, input) {
        ArgParseRes::Parsed(v) => ArgParseRes::Parsed(ArgValue::Int(v)),
        ArgParseRes::Failed { parsed_up_to, reason } => ArgParseRes::Failed { parsed_up_to, reason },
    }
}

fn parse_u64(p: &PrimIntArgParser<u64>, input: &str) -> (r: ArgParseRes<ArgValue>)
    ensures
        arg_res_view(r) == base_outcome(BaseArg::UInt(*p), input@),
{
    match parse_int(p, input) {
        ArgParseRes::Parsed(v) => ArgParseRes::Parsed(ArgValue::UInt(v)),
        ArgParseRes::Failed { parsed_up_to, reason } => ArgParseRes::Failed { parsed_up_to, reason },
    }
}

fn parse_keyword(k: &KeywordSetArgParser, input: &str) -> (r: ArgParseRes<ArgValue>)
    requires
        k.keywords().len() > 0,
    ensures
        arg_res_view(r) == base_outcome(BaseArg::Keyword(*k), input@),
{
    match k.parse(input) {
        ArgParseRes::Parsed(v) => ArgParseRes::Parsed(ArgValue::Keyword(v)),
        ArgParseRes::Failed { parsed_up_to, reason } => ArgParseRes::Failed { parsed_up_to, reason },
    }
}

/// Parses one argument with a parser that depends on nothing else.
pub fn parse_base(b: &BaseArg, input: &str) -> (r: ArgParseRes<ArgValue>)
    requires
        base_wf(*b),
    ensures
        arg_res_view(r) == base_outcome(*b, input@),
{
    match b {
        BaseArg::Int(p) => parse_i64(p, input),
        BaseArg::UInt(p) => parse_u64(p, input),
        BaseArg::Keyword(k) => parse_keyword(k, input),
    }
}

/// Completions of `prefix` that the parser `b` offers.
pub fn base_suggestion(b: &BaseArg, prefix: &str) -> (r: Vec<String>)
    requires
        base_wf(*b),
    ensures
        views(r@) == base_suggestions(*b, prefix@),
{
    match b {
        BaseArg::Int(p) => p.suggestion(prefix),
        BaseArg::UInt(p) => p.suggestion(prefix),
        BaseArg::Keyword(k) => k.suggestion(prefix),
    }
}

/// Hints of the parser `b`.
pub fn base_hint(b: &BaseArg) -> (r: Vec<String>)
    requires
        base_wf(*b),
    ensures
        views(r@) == base_hints(*b),
{
    match b {
        BaseArg::Int(p) => p.hint(),
        BaseArg::UInt(p) => p.hint(),
        BaseArg::Keyword(k) => k.hint(),
    }
}

fn chosen_exec<'a>(arg: usize, cases: &'a Vec<(String, BaseArg)>, default: &'a BaseArg, values: &Vec<ArgValue>) -> (r: &'a BaseArg)
    ensures
        *r == chosen(arg as nat, cases_view(cases@), *default, values_view(values@)),
        *r == *default || exists|i: int| 0 <= i < cases@.len() && *r == #[trigger] cases@[i].1,
{
    if arg >= values.len() {
        return default;
    }
    assert(values_view(values@)[arg as int] == values@[arg as int]@);
    match &values[arg] {
        ArgValue::Keyword(k) => {
            let word = str_chars(k.as_str());
            let ghost cv = cases_view(cases@);
            let mut i: usize = 0;
            assert(values_view(values@)[arg as int] == ArgValueView::Keyword(k@));
            while i < cases.len()
                invariant
                    i <= cases@.len(),
                    arg < values@.len(),
                    values_view(values@)[arg as int] == ArgValueView::Keyword(k@),
                    cv == cases_view(cases@),
                    word@ == k@,
                    find_case(cv, k@, 0) == find_case(cv, k@, i as nat),
                decreases cases@.len() - i,
            {
                let key = str_chars(cases[i].0.as_str());
                assert(cv[i as int] == (cases@[i as int].0@, cases@[i as int].1));
                if chars_eq(&key, &word) {
                    assert(cv[i as int].0 == k@);
                    assert(find_case(cv, k@, i as nat) == Some(i as nat));
                    return &cases[i].1;
                }
                i += 1;
            }
            default
        },
        _ => default,
    }
}

/// Parses one argument, after the arguments `values`.
pub fn parse_arg(a: &ArgSpec, values: &Vec<ArgValue>, input: &str) -> (r: ArgParseRes<ArgValue>)
    requires
        arg_wf(*a),
    ensures
        arg_res_view(r) == arg_outcome(*a, values_view(values@), input@),
        r matches ArgParseRes::Failed { parsed_up_to, .. } ==> parsed_up_to <= input@.len(),
{
    proof {
        lemma_arg_outcome_bound(*a, values_view(values@), input@);
    }
    match a {
        ArgSpec::Int(p) => parse_i64(p, input),
        ArgSpec::UInt(p) => parse_u64(p, input),
        ArgSpec::Keyword(k) => parse_keyword(k, input),
        ArgSpec::Alternatives(bs) => {
            let ghost s = bs@;
            assert(base_wf(s[0]));
            let mut r = parse_base(&bs[0], input);
            let mut i: usize = 1;
            assert(s.take(1).drop_last() =~= Seq::<BaseArg>::empty());
            assert(s.take(1)[0] == s[0]);
            while i < bs.len()
                invariant
                    s == bs@,
                    1 <= i <= s.len(),
                    forall|j: int| 0 <= j < s.len() ==> base_wf(#[trigger] s[j]),
                    arg_res_view(r) == alternatives_outcome(s.take(i as int), input@),
                decreases s.len() - i,
            {
                assert(base_wf(s[i as int]));
                let next = parse_base(&bs[i], input);
                let ghost (o1, o2) = (r.outcome(), next.outcome());
                r = r.merge(next);
                proof {
                    lemma_view_merge(o1, o2);
                    let q = s.take(i as int + 1);
                    assert(q.drop_last() =~= s.take(i as int));
                    assert(q.last() == s[i as int]);
                }
                i += 1;
            }
            assert(s.take(i as int) =~= s);
            r
        },
        ArgSpec::Dependent { arg, cases, default } => {
            let b = chosen_exec(*arg, cases, default, values);
            parse_base(b, input)
        },
    }
}

/// Completions of `prefix` that the argument parser offers, after the
/// arguments `values`.
pub fn arg_suggestion(a: &ArgSpec, values: &Vec<ArgValue>, prefix: &str) -> (r: Vec<String>)
    requires
        arg_wf(*a),
    ensures
        views(r@) == arg_suggestions(*a, values_view(values@), prefix@),
{
    match a {
        ArgSpec::Int(p) => p.suggestion(prefix),
        ArgSpec::UInt(p) => p.suggestion(prefix),
        ArgSpec::Keyword(k) => k.suggestion(prefix),
        ArgSpec::Alternatives(bs) => {
            let ghost s = bs@;
            let mut r: Vec<String> = Vec::new();
            let mut i: usize = 0;
            assert(views(r@) =~= alternatives_suggestions(s.take(0), prefix@));
            while i < bs.len()
                invariant
                    s == bs@,
                    i <= s.len(),
                    forall|j: int| 0 <= j < s.len() ==> base_wf(#[trigger] s[j]),
                    views(r@) == alternatives_suggestions(s.take(i as int), prefix@),
                decreases s.len() - i,
            {
                assert(base_wf(s[i as int]));
                let mut more = base_suggestion(&bs[i], prefix);
                let ghost (x, y) = (r@, more@);
                r.append(&mut more);
                proof {
                    assert(views(r@) =~= views(x) + views(y));
                    let q = s.take(i as int + 1);
                    assert(q.drop_last() =~= s.take(i as int));
                    assert(q.last() == s[i as int]);
                }
                i += 1;
            }
            assert(s.take(i as int) =~= s);
            r
        },
        ArgSpec::Dependent { arg, cases, default } => {
            let b = chosen_exec(*arg, cases, default, values);
            base_suggestion(b, prefix)
        },
    }
}

/// Hints of the argument parser, after the arguments `values`.
pub fn arg_hint(a: &ArgSpec, values: &Vec<ArgValue>) -> (r: Vec<String>)
    requires
        arg_wf(*a),
    ensures
        views(r@) == arg_hints(*a, values_view(values@)),
{
    match a {
        ArgSpec::Int(p) => p.hint(),
        ArgSpec::UInt(p) => p.hint(),
        ArgSpec::Keyword(k) => k.hint(),
        ArgSpec::Alternatives(bs) => {
            let ghost s = bs@;
            let mut r: Vec<String> = Vec::new();
            let mut i: usize = 0;
            assert(views(r@) =~= alternatives_hints(s.take(0)));
            while i < bs.len()
                invariant
                    s == bs@,
                    i <= s.len(),
                    forall|j: int| 0 <= j < s.len() ==> base_wf(#[trigger] s[j]),
                    views(r@) == alternatives_hints(s.take(i as int)),
                decreases s.len() - i,
            {
                assert(base_wf(s[i as int]));
                let mut more = base_hint(&bs[i]);
                let ghost (x, y) = (r@, more@);
                r.append(&mut more);
                proof {
                    assert(views(r@) =~= views(x) + views(y));
                    let q = s.take(i as int + 1);
                    assert(q.drop_last() =~= s.take(i as int));
                    assert(q.last() == s[i as int]);
                }
                i += 1;
            }
            assert(s.take(i as int) =~= s);
            r
        },
        ArgSpec::Dependent { arg, cases, default } => {
            let b = chosen_exec(*arg, cases, default, values);
            base_hint(b)
        },
    }
}

/// The words of `s`: maximal runs of non-whitespace, as code point ranges
/// `[from, to)`, in order.
pub open spec fn tokens(s: Seq<char>) -> Seq<(nat, nat)>
    decreases s.len(),
{
    if s.len() == 0 {
        Seq::empty()
    } else {
        let t = tokens(s.drop_last());
        let n = (s.len() - 1) as nat;
        if white_space(s.last()) {
            t
        } else if n > 0 && !white_space(s[n - 1]) && t.len() > 0 {
            t.update(t.len() - 1, (t.last().0, n + 1))
        } else {
            t.push((n, n + 1))
        }
    }
}

/// Tokens are non-empty, ordered, apart, and within `s`.
pub open spec fn tokens_wf(s: Seq<char>, t: Seq<(nat, nat)>) -> bool {
    &&& forall|k: int| 0 <= k < t.len() ==> #[trigger] t[k].0 < t[k].1 <= s.len()
    &&& forall|k: int| 0 < k < t.len() ==> t[k - 1].1 < #[trigger] t[k].0
}

pub proof fn lemma_tokens(s: Seq<char>)
    ensures
        tokens_wf(s, tokens(s)),
        s.len() > 0 && !white_space(s.last()) ==> tokens(s).len() > 0 && tokens(s).last().1 == s.len(),
        tokens(s).len() > 0 ==> tokens(s).last().1 <= s.len(),
        tokens(s).len() > 0 && tokens(s).last().1 == s.len() ==> s.len() > 0 && !white_space(s.last()),
    decreases s.len(),
{
    if s.len() > 0 {
        let p = s.drop_last();
        lemma_tokens(p);
        let t = tokens(p);
        let n = (s.len() - 1) as nat;
        if n > 0 {
            assert(p.last() == s[n - 1]);
        }
        if white_space(s.last()) {
        } else if n > 0 && !white_space(s[n - 1]) && t.len() > 0 {
            let u = t.update(t.len() - 1, (t.last().0, n + 1));
            assert(tokens(s) == u);
            assert forall|k: int| 0 <= k < u.len() implies #[trigger] u[k].0 < u[k].1 <= s.len() by {
                if k < u.len() - 1 {
                    assert(u[k] == t[k]);
                }
            }
            assert forall|k: int| 0 < k < u.len() implies u[k - 1].1 < #[trigger] u[k].0 by {
                assert(u[k - 1] == t[k - 1]);
                if k < u.len() - 1 {
                    assert(u[k] == t[k]);
                }
            }
        } else {
            let u = t.push((n, n + 1));
            assert(tokens(s) == u);
            if t.len() > 0 {
                if t.last().1 == n {
                    assert(!white_space(p.last()));
                    assert(false);
                }
            }
            assert forall|k: int| 0 <= k < u.len() implies #[trigger] u[k].0 < u[k].1 <= s.len() by {
                if k < u.len() - 1 {
                    assert(u[k] == t[k]);
                }
            }
            assert forall|k: int| 0 < k < u.len() implies u[k - 1].1 < #[trigger] u[k].0 by {
                assert(u[k - 1] == t[k - 1]);
                if k < u.len() - 1 {
                    assert(u[k] == t[k]);
                }
            }
        }
    }
}

/// Positions of the failure a command parser reports.
pub enum FailureView {
    ArgumentParseFailed { from: nat, to: nat, reason: Seq<Seq<char>> },
    ExpectedArg { index: nat, hint: Seq<Seq<char>> },
    UnexpectedArgument { from: nat },
}

/// The content of a command parse result.
pub enum CmdOutcome<V> {
    Parsed(V),
    Failed { parsed_up_to: nat, reason: FailureView },
}

/// Why a command did not parse.
#[derive(PartialEq, Eq, Clone, Debug)]
pub enum CommandParseFailure {
    /// The argument in the bytes `[from, to)` was rejected.
    ArgumentParseFailed { from: usize, to: usize, reason: Vec<String> },
    /// The argument with this index is missing.
    ExpectedArg { index: usize, hint: Vec<String> },
    /// The text from byte `from` on is not expected.
    UnexpectedArgument { from: usize },
}

impl View for CommandParseFailure {
    type V = FailureView;

    open spec fn view(&self) -> FailureView {
        match self {
            CommandParseFailure::ArgumentParseFailed { from, to, reason } => FailureView::ArgumentParseFailed {
                from: *from as nat,
                to: *to as nat,
                reason: views(reason@),
            },
            CommandParseFailure::ExpectedArg { index, hint } => FailureView::ExpectedArg {
                index: *index as nat,
                hint: views(hint@),
            },
            CommandParseFailure::UnexpectedArgument { from } => FailureView::UnexpectedArgument {
                from: *from as nat,
            },
        }
    }
}

/// Result of parsing a command's arguments.
#[derive(PartialEq, Eq, Clone, Debug)]
pub enum CommandParseRes<Res> {
    Parsed(Res),
    Failed {
        /// Code points of the text that could be consumed.
        parsed_up_to: usize,
        reason: CommandParseFailure,
    },
}

/// Ways to complete the argument under the cursor.
#[derive(PartialEq, Eq, Clone, Debug)]
pub struct CommandSuggestions(pub Vec<String>);

/// Suggestions as text.
pub open spec fn sugg_view(s: Option<Vec<String>>) -> Option<Seq<Seq<char>>> {
    match s {
        Some(v) => Some(views(v@)),
        None => None,
    }
}

/// One form of a command: the parsers of its arguments, in order.
#[derive(PartialEq, Clone, Debug)]
pub struct CommandForm {
    pub args: Vec<ArgSpec>,
}

/// A form without arguments.
pub fn command_no_args() -> (r: CommandForm)
    ensures
        r.args@.len() == 0,
{
    CommandForm { args: Vec::new() }
}

/// A form with one argument.
pub fn command_1arg(arg1: ArgSpec) -> (r: CommandForm)
    ensures
        r.args@ == seq![arg1],
{
    CommandForm { args: vec![arg1] }
}

/// A form with two arguments.
pub fn command_2args(arg1: ArgSpec, arg2: ArgSpec) -> (r: CommandForm)
    ensures
        r.args@ == seq![arg1, arg2],
{
    CommandForm { args: vec![arg1, arg2] }
}

pub open spec fn form_wf(args: Seq<ArgSpec>) -> bool {
    forall|i: int| 0 <= i < args.len() ==> arg_wf(#[trigger] args[i])
}

/// `p` lies in the region where the argument with index `i` is expected
/// but missing: after the end of the previous word.
pub open spec fn in_missing_region(t: Seq<(nat, nat)>, i: nat, pos: Option<nat>) -> bool {
    match pos {
        Some(p) => i == 0 || p > t[i - 1].1,
        None => false,
    }
}

/// Parsing the arguments of one form from the argument with index `i` on,
/// with `sugg` the suggestions so far and `values` the values so far.
///
/// Suggestions come from the argument whose word holds the cursor (the part
/// of the word before the cursor is completed).  When an argument is
/// missing, they come from it if the cursor is in its place, and there are
/// none otherwise.
pub open spec fn form_parse(
    args: Seq<ArgSpec>,
    s: Seq<char>,
    t: Seq<(nat, nat)>,
    pos: Option<nat>,
    i: nat,
    sugg: Option<Seq<Seq<char>>>,
    values: Seq<ArgValueView>,
) -> (CmdOutcome<Seq<ArgValueView>>, Option<Seq<Seq<char>>>)
    decreases args.len() - i,
{
    if i >= args.len() {
        if t.len() > args.len() {
            (
                CmdOutcome::Failed {
                    parsed_up_to: if args.len() == 0 { 0 } else { t[args.len() - 1].1 },
                    reason: FailureView::UnexpectedArgument { from: utf8_len(s.take(t[args.len() as int].0 as int)) },
                },
                sugg,
            )
        } else {
            (CmdOutcome::Parsed(values), sugg)
        }
    } else if i >= t.len() {
        let sugg2 = if in_missing_region(t, i, pos) {
            Some(arg_suggestions(args[i as int], values, Seq::empty()))
        } else {
            None
        };
        (
            CmdOutcome::Failed {
                parsed_up_to: if i == 0 { 0 } else { t[i - 1].1 },
                reason: FailureView::ExpectedArg { index: i, hint: arg_hints(args[i as int], values) },
            },
            sugg2,
        )
    } else {
        let from = t[i as int].0;
        let to = t[i as int].1;
        let sugg2 = match pos {
            Some(p) => if from <= p <= to {
                Some(arg_suggestions(args[i as int], values, s.subrange(from as int, p as int)))
            } else {
                sugg
            },
            None => sugg,
        };
        match arg_outcome(args[i as int], values, s.subrange(from as int, to as int)) {
            ArgOutcome::Failed { parsed_up_to, reason } => (
                CmdOutcome::Failed {
                    parsed_up_to: from + parsed_up_to,
                    reason: FailureView::ArgumentParseFailed {
                        from: utf8_len(s.take(from as int)),
                        to: utf8_len(s.take(to as int)),
                        reason,
                    },
                },
                sugg2,
            ),
            ArgOutcome::Parsed(v) => form_parse(args, s, t, pos, i + 1, sugg2, values.push(v)),
        }
    }
}

/// Tokens as code point ranges.
pub open spec fn toks_view(v: Seq<(usize, usize)>) -> Seq<(nat, nat)> {
    v.map_values(|p: (usize, usize)| (p.0 as nat, p.1 as nat))
}

/// The words of `s`, see [`tokens`].
pub fn tokenize(s: &Vec<char>) -> (r: Vec<(usize, usize)>)
    ensures
        toks_view(r@) == tokens(s@),
{
    let mut r: Vec<(usize, usize)> = Vec::new();
    let mut i: usize = 0;
    assert(toks_view(r@) =~= tokens(s@.take(0)));
    while i < s.len()
        invariant
            i <= s@.len(),
            toks_view(r@) == tokens(s@.take(i as int)),
        decreases s@.len() - i,
    {
        let c = s[i];
        proof {
            let q = s@.take(i as int + 1);
            assert(q.drop_last() =~= s@.take(i as int));
            assert(q.last() == c);
            lemma_tokens(s@.take(i as int));
            if i > 0 {
                assert(s@.take(i as int).last() == s@[i - 1]);
                assert(q[i - 1] == s@[i - 1]);
            }
        }
        if is_whitespace(c) {
        } else if i > 0 && !is_whitespace(s[i - 1]) && r.len() > 0 {
            let last = r.len() - 1;
            let from = r[last].0;
            r.set(last, (from, i + 1));
            assert(toks_view(r@) =~= tokens(s@.take(i as int + 1)));
        } else {
            r.push((i, i + 1));
            assert(toks_view(r@) =~= tokens(s@.take(i as int + 1)));
        }
        i += 1;
    }
    assert(s@.take(i as int) =~= s@);
    r
}

/// The content of a form's parse result.
pub open spec fn form_res_view(r: CommandParseRes<Vec<ArgValue>>) -> CmdOutcome<Seq<ArgValueView>> {
    match r {
        CommandParseRes::Parsed(v) => CmdOutcome::Parsed(values_view(v@)),
        CommandParseRes::Failed { parsed_up_to, reason } => CmdOutcome::Failed {
            parsed_up_to: parsed_up_to as nat,
            reason: reason@,
        },
    }
}

/// Parses the arguments `input` (whose words are `toks`) in one form; `pos`
/// is the cursor position in `input`, if the cursor is there.
pub fn parse_form(
    form: &CommandForm,
    input: &str,
    chars: &Vec<char>,
    toks: &Vec<(usize, usize)>,
    pos: Option<usize>,
) -> (r: (CommandParseRes<Vec<ArgValue>>, Option<Vec<String>>))
    requires
        form_wf(form.args@),
        chars@ == input@,
        utf8_len(input@) <= usize::MAX,
        toks_view(toks@) == tokens(input@),
    ensures
        (form_res_view(r.0), sugg_view(r.1)) == form_parse(
            form.args@,
            input@,
            tokens(input@),
            opt_nat(pos),
            0,
            None,
            Seq::empty(),
        ),
{
    let ghost s = input@;
    let ghost t = tokens(input@);
    let ghost a = form.args@;
    proof {
        lemma_tokens(s);
    }
    let mut sugg: Option<Vec<String>> = None;
    let mut values: Vec<ArgValue> = Vec::new();
    let mut i: usize = 0;
    assert(values_view(values@) =~= Seq::<ArgValueView>::empty());
    while i < form.args.len()
        invariant
            a == form.args@,
            form_wf(a),
            toks_view(toks@) == t,
            t == tokens(s),
            s == input@,
            chars@ == s,
            utf8_len(s) <= usize::MAX,
            tokens_wf(s, t),
            i <= a.len(),
            i <= toks@.len(),
            form_parse(a, s, t, opt_nat(pos), 0, None, Seq::empty()) == form_parse(
                a,
                s,
                t,
                opt_nat(pos),
                i as nat,
                sugg_view(sugg),
                values_view(values@),
            ),
        decreases a.len() - i,
    {
        let arg = &form.args[i];
        assert(arg_wf(a[i as int]));
        if i >= toks.len() {
            let in_region = match pos {
                Some(p) => i == 0 || p > toks[i - 1].1,
                None => false,
            };
            if in_region {
                sugg = Some(arg_suggestion(arg, &values, ""));
                proof {
                    reveal_strlit("");
                    assert(""@ =~= Seq::<char>::empty());
                }
            } else {
                sugg = None;
            }
            let up_to = if i == 0 { 0 } else { toks[i - 1].1 };
            let hint = arg_hint(arg, &values);
            let r = CommandParseRes::Failed {
                parsed_up_to: up_to,
                reason: CommandParseFailure::ExpectedArg { index: i, hint },
            };
            return (r, sugg);
        }
        let from = toks[i].0;
        let to = toks[i].1;
        assert(t[i as int] == (from as nat, to as nat));
        match pos {
            Some(p) => {
                if from <= p && p <= to {
                    let prefix = input.substring_char(from, p);
                    sugg = Some(arg_suggestion(arg, &values, prefix));
                }
            },
            None => {},
        }
        let word = input.substring_char(from, to);
        match parse_arg(arg, &values, word) {
            ArgParseRes::Failed { parsed_up_to, reason } => {
                let from_byte = chars_byte_pos(chars, from);
                let to_byte = chars_byte_pos(chars, to);
                proof {
                    assert(s.take(s.len() as int) =~= s);
                }
                let r = CommandParseRes::Failed {
                    parsed_up_to: from + parsed_up_to,
                    reason: CommandParseFailure::ArgumentParseFailed { from: from_byte, to: to_byte, reason },
                };
                return (r, sugg);
            },
            ArgParseRes::Parsed(v) => {
                let ghost before = values@;
                values.push(v);
                assert(values_view(values@) =~= values_view(before).push(v@));
            },
        }
        i += 1;
    }
    if toks.len() > form.args.len() {
        let n = form.args.len();
        let up_to = if n == 0 { 0 } else { toks[n - 1].1 };
        let from_byte = chars_byte_pos(chars, toks[n].0);
        proof {
            assert(t[n as int].0 < t[n as int].1 <= s.len());
            assert(s.take(s.len() as int) =~= s);
        }
        let r = CommandParseRes::Failed {
            parsed_up_to: up_to,
            reason: CommandParseFailure::UnexpectedArgument { from: from_byte },
        };
        return (r, sugg);
    }
    (CommandParseRes::Parsed(values), sugg)
}

/// The cursor position as a number.
pub open spec fn opt_nat(pos: Option<usize>) -> Option<nat> {
    match pos {
        Some(p) => Some(p as nat),
        None => None,
    }
}

/// The form a command was given in, and its arguments.
#[derive(PartialEq, Eq, Clone, Debug)]
pub struct FormMatch {
    pub form: usize,
    pub args: Vec<ArgValue>,
}

/// The content of a [`FormMatch`].
pub struct FormMatchView {
    pub form: nat,
    pub args: Seq<ArgValueView>,
}

impl View for FormMatch {
    type V = FormMatchView;

    open spec fn view(&self) -> FormMatchView {
        FormMatchView { form: self.form as nat, args: values_view(self.args@) }
    }
}

/// Two failures at the same position pool their explanations when they are
/// of the same kind; otherwise the first stands.
pub open spec fn merge_reasons(a: FailureView, b: FailureView) -> FailureView {
    match (a, b) {
        (
            FailureView::ArgumentParseFailed { from, to, reason: ra },
            FailureView::ArgumentParseFailed { reason: rb, .. },
        ) => FailureView::ArgumentParseFailed { from, to, reason: ra + rb },
        (FailureView::ExpectedArg { index, hint: ha }, FailureView::ExpectedArg { hint: hb, .. }) => {
            FailureView::ExpectedArg { index, hint: ha + hb }
        },
        _ => a,
    }
}

/// Combines the results of two forms, preferring the first when they are
/// equally good: a parse wins over any failure, and of two failures the one
/// that got further wins.
pub open spec fn merge_cmd<V>(a: CmdOutcome<V>, b: CmdOutcome<V>) -> CmdOutcome<V> {
    match (a, b) {
        (CmdOutcome::Parsed(_), _) => a,
        (_, CmdOutcome::Parsed(_)) => b,
        (
            CmdOutcome::Failed { parsed_up_to: pa, reason: ra },
            CmdOutcome::Failed { parsed_up_to: pb, reason: rb },
        ) => if pa < pb {
            b
        } else if pa > pb {
            a
        } else {
            CmdOutcome::Failed { parsed_up_to: pa, reason: merge_reasons(ra, rb) }
        },
    }
}

/// Suggestions of two forms, concatenated.
pub open spec fn merge_sugg(a: Option<Seq<Seq<char>>>, b: Option<Seq<Seq<char>>>) -> Option<Seq<Seq<char>>> {
    match (a, b) {
        (None, _) => b,
        (Some(_), None) => a,
        (Some(x), Some(y)) => Some(x + y),
    }
}

/// A form's result, with the form's index attached to a parse.
pub open spec fn tag_form(r: CmdOutcome<Seq<ArgValueView>>, k: nat) -> CmdOutcome<FormMatchView> {
    match r {
        CmdOutcome::Parsed(v) => CmdOutcome::Parsed(FormMatchView { form: k, args: v }),
        CmdOutcome::Failed { parsed_up_to, reason } => CmdOutcome::Failed { parsed_up_to, reason },
    }
}

/// Parsing `s` in each of `forms` and merging, first to last.
pub open spec fn alt_parse(forms: Seq<Seq<ArgSpec>>, s: Seq<char>, pos: Option<nat>) -> (
    CmdOutcome<FormMatchView>,
    Option<Seq<Seq<char>>>,
)
    decreases forms.len(),
{
    let n = forms.len();
    if n == 0 {
        (CmdOutcome::Failed { parsed_up_to: 0, reason: FailureView::UnexpectedArgument { from: 0 } }, None)
    } else {
        let last = form_parse(forms[n - 1], s, tokens(s), pos, 0, None, Seq::empty());
        let tagged = tag_form(last.0, (n - 1) as nat);
        if n == 1 {
            (tagged, last.1)
        } else {
            let prev = alt_parse(forms.drop_last(), s, pos);
            (merge_cmd(prev.0, tagged), merge_sugg(prev.1, last.1))
        }
    }
}

/// The content of an alternatives parse result.
pub open spec fn alt_res_view(r: CommandParseRes<FormMatch>) -> CmdOutcome<FormMatchView> {
    match r {
        CommandParseRes::Parsed(v) => CmdOutcome::Parsed(v@),
        CommandParseRes::Failed { parsed_up_to, reason } => CmdOutcome::Failed {
            parsed_up_to: parsed_up_to as nat,
            reason: reason@,
        },
    }
}

/// The suggestions as text.
pub open spec fn csugg_view(s: Option<CommandSuggestions>) -> Option<Seq<Seq<char>>> {
    match s {
        Some(v) => Some(views(v.0@)),
        None => None,
    }
}

fn tag_form_exec(r: CommandParseRes<Vec<ArgValue>>, k: usize) -> (t: CommandParseRes<FormMatch>)
    ensures
        alt_res_view(t) == tag_form(form_res_view(r), k as nat),
{
    match r {
        CommandParseRes::Parsed(args) => CommandParseRes::Parsed(FormMatch { form: k, args }),
        CommandParseRes::Failed { parsed_up_to, reason } => CommandParseRes::Failed { parsed_up_to, reason },
    }
}

fn merge_reasons_exec(a: CommandParseFailure, b: CommandParseFailure) -> (r: CommandParseFailure)
    ensures
        r@ == merge_reasons(a@, b@),
{
    match a {
        CommandParseFailure::ArgumentParseFailed { from, to, reason: mut ra } => match b {
            CommandParseFailure::ArgumentParseFailed { reason: mut rb, .. } => {
                let ghost x = ra@;
                let ghost y = rb@;
                ra.append(&mut rb);
                assert(views(ra@) =~= views(x) + views(y));
                CommandParseFailure::ArgumentParseFailed { from, to, reason: ra }
            },
            _ => CommandParseFailure::ArgumentParseFailed { from, to, reason: ra },
        },
        CommandParseFailure::ExpectedArg { index, hint: mut ha } => match b {
            CommandParseFailure::ExpectedArg { hint: mut hb, .. } => {
                let ghost x = ha@;
                let ghost y = hb@;
                ha.append(&mut hb);
                assert(views(ha@) =~= views(x) + views(y));
                CommandParseFailure::ExpectedArg { index, hint: ha }
            },
            _ => CommandParseFailure::ExpectedArg { index, hint: ha },
        },
        CommandParseFailure::UnexpectedArgument { from } => CommandParseFailure::UnexpectedArgument { from },
    }
}

impl CommandParseRes<FormMatch> {
    /// Combines two results, see [`merge_cmd`].
    pub fn merge(self, other: CommandParseRes<FormMatch>) -> (r: CommandParseRes<FormMatch>)
        ensures
            alt_res_view(r) == merge_cmd(alt_res_view(self), alt_res_view(other)),
    {
        match self {
            CommandParseRes::Parsed(_) => self,
            CommandParseRes::Failed { parsed_up_to: pa, reason: ra } => match other {
                CommandParseRes::Parsed(_) => other,
                CommandParseRes::Failed { parsed_up_to: pb, reason: rb } => {
                    if pa < pb {
                        CommandParseRes::Failed { parsed_up_to: pb, reason: rb }
                    } else if pa > pb {
                        CommandParseRes::Failed { parsed_up_to: pa, reason: ra }
                    } else {
                        CommandParseRes::Failed { parsed_up_to: pa, reason: merge_reasons_exec(ra, rb) }
                    }
                },
            },
        }
    }
}

fn merge_sugg_exec(a: Option<Vec<String>>, b: Option<Vec<String>>) -> (r: Option<Vec<String>>)
    ensures
        sugg_view(r) == merge_sugg(sugg_view(a), sugg_view(b)),
{
    match a {
        None => b,
        Some(mut x) => match b {
            None => Some(x),
            Some(mut y) => {
                let ghost xv = x@;
                let ghost yv = y@;
                x.append(&mut y);
                assert(views(x@) =~= views(xv) + views(yv));
                Some(x)
            },
        },
    }
}

/// Tries several forms of a command, in order.  The first form that parses
/// is the result; when none does, the failure that got furthest.
/// Suggestions of all the forms are combined.
#[derive(PartialEq, Clone, Debug)]
pub struct AlternativesCommandParser {
    forms: Vec<CommandForm>,
}

/// The argument parsers of each form.
pub open spec fn forms_view(forms: Seq<CommandForm>) -> Seq<Seq<ArgSpec>> {
    forms.map_values(|f: CommandForm| f.args@)
}

/// A parser over `forms`, of which there must be at least one.
pub fn alternatives_cmd(forms: Vec<CommandForm>) -> (r: AlternativesCommandParser)
    requires
        forms@.len() > 0,
        forall|i: int| 0 <= i < forms@.len() ==> form_wf(#[trigger] forms@[i].args@),
    ensures
        r.wf(),
        r.forms() == forms_view(forms@),
{
    AlternativesCommandParser { forms }
}

impl AlternativesCommandParser {
    pub closed spec fn forms(&self) -> Seq<Seq<ArgSpec>> {
        forms_view(self.forms@)
    }

    pub open spec fn wf(&self) -> bool {
        &&& self.forms().len() > 0
        &&& forall|i: int| 0 <= i < self.forms().len() ==> form_wf(#[trigger] self.forms()[i])
    }

    /// Parses the arguments `input`; `pos` is the cursor position in
    /// `input`, when the cursor is there.
    pub fn parse(&self, input: &str, pos: Option<usize>) -> (r: (CommandParseRes<FormMatch>, Option<CommandSuggestions>))
        requires
            self.wf(),
        ensures
            (alt_res_view(r.0), csugg_view(r.1)) == alt_parse(self.forms(), input@, opt_nat(pos)),
    {
        let chars = str_chars(input);
        let total = str_byte_len(input);
        let toks = tokenize(&chars);
        let ghost fs = self.forms();
        assert(form_wf(fs[0]));
        let (r0, s0) = parse_form(&self.forms[0], input, &chars, &toks, pos);
        let mut res = tag_form_exec(r0, 0);
        let mut sugg = s0;
        let mut k: usize = 1;
        assert(fs.take(1).drop_last() =~= Seq::<Seq<ArgSpec>>::empty());
        assert(alt_parse(fs.take(1), input@, opt_nat(pos)) == (alt_res_view(res), sugg_view(sugg)));
        while k < self.forms.len()
            invariant
                fs == self.forms(),
                self.wf(),
                toks_view(toks@) == tokens(input@),
                chars@ == input@,
                utf8_len(input@) <= usize::MAX,
                1 <= k <= fs.len(),
                alt_parse(fs.take(k as int), input@, opt_nat(pos)) == (alt_res_view(res), sugg_view(sugg)),
            decreases fs.len() - k,
        {
            assert(form_wf(fs[k as int]));
            let (rk, sk) = parse_form(&self.forms[k], input, &chars, &toks, pos);
            let tk = tag_form_exec(rk, k);
            res = res.merge(tk);
            sugg = merge_sugg_exec(sugg, sk);
            proof {
                let q = fs.take(k as int + 1);
                assert(q.drop_last() =~= fs.take(k as int));
                assert(q[k as int] == fs[k as int]);
            }
            k += 1;
        }
        assert(fs.take(k as int) =~= fs);
        let out = match sugg {
            Some(v) => Some(CommandSuggestions(v)),
            None => None,
        };
        (res, out)
    }
}

/// `b` is the byte offset of a code point boundary of `s`.
pub open spec fn is_boundary(s: Seq<char>, b: nat) -> bool {
    exists|k: int| 0 <= k <= s.len() && b == #[trigger] utf8_len(s.take(k))
}

/// A failure points within the text `s`: `parsed_up_to` within its code
/// points, byte bounds in order and on code point boundaries.
pub open spec fn failure_in_bounds<V>(r: CmdOutcome<V>, s: Seq<char>) -> bool {
    match r {
        CmdOutcome::Failed { parsed_up_to, reason } => {
            &&& parsed_up_to <= s.len()
            &&& match reason {
                FailureView::ArgumentParseFailed { from, to, .. } => exists|k1: int, k2: int|
                    0 <= k1 <= k2 <= s.len() && from == #[trigger] utf8_len(s.take(k1)) && to
                        == #[trigger] utf8_len(s.take(k2)),
                FailureView::UnexpectedArgument { from } => is_boundary(s, from),
                FailureView::ExpectedArg { .. } => true,
            }
        },
        CmdOutcome::Parsed(_) => true,
    }
}

pub proof fn lemma_form_parse_bounds(
    args: Seq<ArgSpec>,
    s: Seq<char>,
    t: Seq<(nat, nat)>,
    pos: Option<nat>,
    i: nat,
    sugg: Option<Seq<Seq<char>>>,
    values: Seq<ArgValueView>,
)
    requires
        tokens_wf(s, t),
        i <= t.len(),
    ensures
        failure_in_bounds(form_parse(args, s, t, pos, i, sugg, values).0, s),
    decreases args.len() - i,
{
    if i < args.len() && i < t.len() {
        let from = t[i as int].0;
        let to = t[i as int].1;
        lemma_arg_outcome_bound(args[i as int], values, s.subrange(from as int, to as int));
        let sugg2 = match pos {
            Some(p) => if from <= p <= to {
                Some(arg_suggestions(args[i as int], values, s.subrange(from as int, p as int)))
            } else {
                sugg
            },
            None => sugg,
        };
        match arg_outcome(args[i as int], values, s.subrange(from as int, to as int)) {
            ArgOutcome::Parsed(v) => lemma_form_parse_bounds(args, s, t, pos, i + 1, sugg2, values.push(v)),
            _ => {
                assert(0 <= from <= to <= s.len());
                assert(utf8_len(s.take(from as int)) == utf8_len(s.take(from as int)));
                assert(utf8_len(s.take(to as int)) == utf8_len(s.take(to as int)));
            },
        }
    } else if i < args.len() {
        if i > 0 {
            assert(t[i - 1].0 < t[i - 1].1 <= s.len());
        }
    } else if t.len() > args.len() {
        assert(t[args.len() as int].0 < t[args.len() as int].1 <= s.len());
        let k = t[args.len() as int].0 as int;
        assert(utf8_len(s.take(k)) == utf8_len(s.take(k)));
        if args.len() > 0 {
            assert(t[args.len() - 1].0 < t[args.len() - 1].1 <= s.len());
        }
    }
}

/// Failures of a command's forms point within its text.
pub proof fn lemma_alt_parse_bounds(forms: Seq<Seq<ArgSpec>>, s: Seq<char>, pos: Option<nat>)
    ensures
        failure_in_bounds(alt_parse(forms, s, pos).0, s),
    decreases forms.len(),
{
    lemma_tokens(s);
    let n = forms.len();
    if n > 0 {
        lemma_form_parse_bounds(forms[n - 1], s, tokens(s), pos, 0, None, Seq::empty());
        if n > 1 {
            lemma_alt_parse_bounds(forms.drop_last(), s, pos);
            let prev = alt_parse(forms.drop_last(), s, pos).0;
            let last = tag_form(form_parse(forms[n - 1], s, tokens(s), pos, 0, None, Seq::empty()).0, (n - 1) as nat);
            assert(failure_in_bounds(last, s));
            assert(failure_in_bounds(merge_cmd(prev, last), s));
        }
    } else {
        assert(utf8_len(s.take(0)) == 0) by {
            assert(s.take(0) =~= Seq::<char>::empty());
        }
        assert(is_boundary(s, 0));
    }
}

} // verus!
