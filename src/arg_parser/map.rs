//! A parser that converts the value another parser produces.

use vstd::prelude::*;

use std::marker::PhantomData;

use super::{Arg2Parser, ArgOutcome, ArgParseRes, ContextFreeArgParser};
use crate::text::views;

verus! {

/// A failure at `parsed_up_to` for `reason`.
pub open spec fn failure_of<A>(parsed_up_to: nat, reason: Seq<Seq<char>>) -> ArgOutcome<A> {
    ArgOutcome::Failed { parsed_up_to, reason }
}

/// Runs another parser and applies a function to the value it produces.
/// Failures, suggestions and hints pass through unchanged.
pub struct ContextFreeMap<A, B, Parser, F> {
    parser: Parser,
    f: F,
    _a: PhantomData<A>,
    _b: PhantomData<B>,
}

impl<A, B, Parser, F> ContextFreeMap<A, B, Parser, F> {
    pub fn new(parser: Parser, f: F) -> (r: Self)
        ensures
            r.inner() == parser,
            r.func() == f,
    {
        ContextFreeMap { parser, f, _a: PhantomData, _b: PhantomData }
    }

    pub closed spec fn inner(&self) -> Parser {
        self.parser
    }

    pub closed spec fn func(&self) -> F {
        self.f
    }
}

impl<A, B, Parser: ContextFreeArgParser<A>, F: Fn(A) -> B> ContextFreeArgParser<B> for ContextFreeMap<
    A,
    B,
    Parser,
    F,
> {
    open spec fn wf(&self) -> bool {
        &&& self.inner().wf()
        &&& forall|a: A| #[trigger] self.func().requires((a,))
    }

    open spec fn parses_to(&self, input: Seq<char>, r: ArgOutcome<B>) -> bool {
        &&& r is Failed ==> self.inner().parses_to(
            input,
            failure_of::<A>(r->parsed_up_to, r->reason),
        )
        &&& r is Parsed ==> exists|a: A|
            self.inner().parses_to(input, ArgOutcome::Parsed(a)) && #[trigger] self.func().ensures(
                (a,),
                r->Parsed_0,
            )
    }

    open spec fn suggestions_for(&self, prefix: Seq<char>) -> Seq<Seq<char>> {
        self.inner().suggestions_for(prefix)
    }

    open spec fn hints(&self) -> Seq<Seq<char>> {
        self.inner().hints()
    }

    fn parse(&self, input: &str) -> (r: ArgParseRes<B>) {
        let res = self.parser.parse(input);
        let ghost out = res.outcome();
        if let ArgParseRes::Parsed(a) = res {
            let ghost a0 = a;
            assert(self.func().requires((a,)));
            let b = (self.f)(a);
            assert(self.inner().parses_to(input@, ArgOutcome::Parsed(a0)));
            assert(self.func().ensures((a0,), b));
            let r = ArgParseRes::Parsed(b);
            assert(r.outcome() == ArgOutcome::Parsed(b));
            assert(exists|x: A|
                self.inner().parses_to(input@, ArgOutcome::Parsed(x)) && #[trigger] self.func().ensures(
                    (x,),
                    b,
                ));
            assert(r.outcome() is Parsed);
            assert(r.outcome()->Parsed_0 == b);
            assert(self.parses_to(input@, r.outcome()));
            r
        } else {
            let r = res.map_failure();
            assert(out == failure_of::<A>(r->parsed_up_to as nat, views(r->reason@)));
            assert(self.parses_to(input@, r.outcome()));
            r
        }
    }

    fn suggestion(&self, prefix: &str) -> (r: Vec<String>) {
        self.parser.suggestion(prefix)
    }

    fn hint(&self) -> (r: Vec<String>) {
        self.parser.hint()
    }
}

/// Runs a parser of a second argument and applies a function to the value
/// of the first argument and the value it produces.
pub struct Arg2Map<Res1, A, B, Parser, F> {
    parser: Parser,
    f: F,
    _res1: PhantomData<Res1>,
    _a: PhantomData<A>,
    _b: PhantomData<B>,
}

impl<Res1, A, B, Parser, F> Arg2Map<Res1, A, B, Parser, F> {
    pub fn new(parser: Parser, f: F) -> (r: Self)
        ensures
            r.inner() == parser,
            r.func() == f,
    {
        Arg2Map { parser, f, _res1: PhantomData, _a: PhantomData, _b: PhantomData }
    }

    pub closed spec fn inner(&self) -> Parser {
        self.parser
    }

    pub closed spec fn func(&self) -> F {
        self.f
    }
}

impl<Res1, A, B, Parser: Arg2Parser<Res1, A>, F: Fn(&Res1, A) -> B> Arg2Parser<Res1, B> for Arg2Map<
    Res1,
    A,
    B,
    Parser,
    F,
> {
    open spec fn wf(&self) -> bool {
        &&& self.inner().wf()
        &&& forall|r1: &Res1, a: A| #[trigger] self.func().requires((r1, a))
    }

    open spec fn parses_to(&self, res1: Res1, input: Seq<char>, r: ArgOutcome<B>) -> bool {
        &&& r is Failed ==> self.inner().parses_to(res1, input, failure_of::<A>(r->parsed_up_to, r->reason))
        &&& r is Parsed ==> exists|a: A|
            self.inner().parses_to(res1, input, ArgOutcome::Parsed(a)) && #[trigger] self.func().ensures(
                (&res1, a),
                r->Parsed_0,
            )
    }

    open spec fn suggestions_for(&self, res1: Res1, prefix: Seq<char>) -> Seq<Seq<char>> {
        self.inner().suggestions_for(res1, prefix)
    }

    open spec fn hints(&self, res1: Res1) -> Seq<Seq<char>> {
        self.inner().hints(res1)
    }

    fn parse(&self, res1: &Res1, input: &str) -> (r: ArgParseRes<B>) {
        let res = self.parser.parse(res1, input);
        let ghost out = res.outcome();
        if let ArgParseRes::Parsed(a) = res {
            let ghost a0 = a;
            assert(self.func().requires((res1, a)));
            let b = (self.f)(res1, a);
            assert(self.inner().parses_to(*res1, input@, ArgOutcome::Parsed(a0)));
            assert(self.func().ensures((res1, a0), b));
            let r = ArgParseRes::Parsed(b);
            assert(exists|x: A|
                self.inner().parses_to(*res1, input@, ArgOutcome::Parsed(x)) && #[trigger] self.func().ensures(
                    (res1, x),
                    b,
                ));
            assert(r.outcome() is Parsed);
            assert(r.outcome()->Parsed_0 == b);
            r
        } else {
            let r = res.map_failure();
            assert(out == failure_of::<A>(r->parsed_up_to as nat, views(r->reason@)));
            r
        }
    }

    fn suggestion(&self, res1: &Res1, prefix: &str) -> (r: Vec<String>) {
        self.parser.suggestion(res1, prefix)
    }

    fn hint(&self, res1: &Res1) -> (r: Vec<String>) {
        self.parser.hint(res1)
    }
}

} // verus!
