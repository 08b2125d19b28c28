//! Parsers for single command arguments.
//!
//! An argument parser turns the text of one argument into a value, or says
//! how far the text matched and what was expected.  It also offers ways to
//! complete a partially typed argument, and hints on the argument's shape.

pub mod file;
pub mod keyword_set;
pub mod map;
pub mod prim_int;

use vstd::prelude::*;

use crate::text::views;

pub use file::{cut_last_component, file_parse, matching_entries, PathKind};
pub use map::{Arg2Map, ContextFreeMap};
pub use keyword_set::{keyword_set, keyword_set_with_hint, KeywordSetArgParser};
pub use prim_int::{
    prim_int, prim_int_for_range, prim_int_for_range_and_name, prim_int_with_name, ArgInt,
    PrimIntArgParser,
};





verus! {

/// Result of parsing an argument.
#[derive(PartialEq, Clone, Debug)]
pub enum ArgParseRes<Res> {
    Failed {
        /// Number of code points of the input that could be consumed.  `0`
        /// means that the argument failed at the syntactic level; a value
        /// that has the right shape but is rejected (out of bounds, say)
        /// points past its last code point.
        parsed_up_to: usize,
        /// What was expected.  There may be several explanations, when
        /// several parsers failed at the same position.
        reason: Vec<String>,
    },
    Parsed(Res),
}

/// The mathematical content of an [`ArgParseRes`].
pub enum ArgOutcome<Res> {
    Failed { parsed_up_to: nat, reason: Seq<Seq<char>> },
    Parsed(Res),
}

impl<Res> ArgParseRes<Res> {
    pub open spec fn outcome(&self) -> ArgOutcome<Res> {
        match self {
            ArgParseRes::Failed { parsed_up_to, reason } => ArgOutcome::Failed {
                parsed_up_to: *parsed_up_to as nat,
                reason: views(reason@),
            },
            ArgParseRes::Parsed(v) => ArgOutcome::Parsed(*v),
        }
    }

    /// Combines two results, preferring `self` when they are equally good.
    /// `Parsed` wins over any failure; of two failures the one that got
    /// further wins, and failures at the same position pool their reasons.
    pub fn merge(self, other: ArgParseRes<Res>) -> (r: ArgParseRes<Res>)
        ensures
            r.outcome() == merge_outcomes(self.outcome(), other.outcome()),
    {
        match self {
            ArgParseRes::Parsed(_) => self,
            ArgParseRes::Failed { parsed_up_to: me_up_to, reason: mut me_reason } => {
                match other {
                    ArgParseRes::Parsed(_) => other,
                    ArgParseRes::Failed { parsed_up_to: other_up_to, reason: mut other_reason } => {
                        if me_up_to < other_up_to {
                            ArgParseRes::Failed { parsed_up_to: other_up_to, reason: other_reason }
                        } else if me_up_to > other_up_to {
                            ArgParseRes::Failed { parsed_up_to: me_up_to, reason: me_reason }
                        } else {
                            let ghost a = me_reason@;
                            let ghost b = other_reason@;
                            me_reason.append(&mut other_reason);
                            assert(views(me_reason@) =~= views(a) + views(b));
                            ArgParseRes::Failed { parsed_up_to: me_up_to, reason: me_reason }
                        }
                    },
                }
            },
        }
    }
}

impl<Res> ArgParseRes<Res> {
    /// The same failure, for a parser of another result type.
    pub fn map_failure<B>(self) -> (r: ArgParseRes<B>)
        requires
            self is Failed,
        ensures
            r is Failed,
            r->parsed_up_to == self->parsed_up_to,
            r->reason == self->reason,
            r.outcome() == (ArgOutcome::<B>::Failed {
                parsed_up_to: self->parsed_up_to as nat,
                reason: views(self->reason@),
            }),
    {
        match self {
            ArgParseRes::Failed { parsed_up_to, reason } => ArgParseRes::Failed { parsed_up_to, reason },
            ArgParseRes::Parsed(_) => {
                assert(false);
                ArgParseRes::Failed { parsed_up_to: 0, reason: Vec::new() }
            },
        }
    }
}

/// See [`ArgParseRes::merge`].
pub open spec fn merge_outcomes<Res>(a: ArgOutcome<Res>, b: ArgOutcome<Res>) -> ArgOutcome<Res> {
    match (a, b) {
        (ArgOutcome::Parsed(_), _) => a,
        (_, ArgOutcome::Parsed(_)) => b,
        (
            ArgOutcome::Failed { parsed_up_to: pa, reason: ra },
            ArgOutcome::Failed { parsed_up_to: pb, reason: rb },
        ) => if pa < pb {
            b
        } else if pa > pb {
            a
        } else {
            ArgOutcome::Failed { parsed_up_to: pa, reason: ra + rb }
        },
    }
}

/// Merging is associative.
pub proof fn lemma_merge_associative<Res>(a: ArgOutcome<Res>, b: ArgOutcome<Res>, c: ArgOutcome<Res>)
    ensures
        merge_outcomes(merge_outcomes(a, b), c) == merge_outcomes(a, merge_outcomes(b, c)),
{
    match (a, b, c) {
        (
            ArgOutcome::Failed { parsed_up_to: pa, reason: ra },
            ArgOutcome::Failed { parsed_up_to: pb, reason: rb },
            ArgOutcome::Failed { parsed_up_to: pc, reason: rc },
        ) => {
            assert(ra + rb + rc =~= ra + (rb + rc));
        },
        _ => {},
    }
}

/// Two failures at the same position merge to the same position and the same
/// set of reasons in either order.
pub proof fn lemma_merge_commutative_on_ties<Res>(
    p: nat,
    ra: Seq<Seq<char>>,
    rb: Seq<Seq<char>>,
)
    ensures
        merge_outcomes(
            ArgOutcome::<Res>::Failed { parsed_up_to: p, reason: ra },
            ArgOutcome::<Res>::Failed { parsed_up_to: p, reason: rb },
        ) matches ArgOutcome::Failed { parsed_up_to: p1, reason: r1 } && merge_outcomes(
            ArgOutcome::<Res>::Failed { parsed_up_to: p, reason: rb },
            ArgOutcome::<Res>::Failed { parsed_up_to: p, reason: ra },
        ) matches ArgOutcome::Failed { parsed_up_to: p2, reason: r2 } && p1 == p2 && r1.to_set()
            == r2.to_set(),
{
    let r1 = ra + rb;
    let r2 = rb + ra;
    assert forall|x: Seq<char>| r1.contains(x) <==> r2.contains(x) by {
        if r1.contains(x) {
            let i = choose|i: int| 0 <= i < r1.len() && r1[i] == x;
            if i < ra.len() {
                assert(r2[rb.len() + i] == x);
            } else {
                assert(r2[i - ra.len()] == x);
            }
        }
        if r2.contains(x) {
            let i = choose|i: int| 0 <= i < r2.len() && r2[i] == x;
            if i < rb.len() {
                assert(r1[ra.len() + i] == x);
            } else {
                assert(r1[i - rb.len()] == x);
            }
        }
    }
    assert(r1.to_set() =~= r2.to_set());
}

/// A parser that only sees its own argument.
pub trait ContextFreeArgParser<Res> {
    /// The parser's own invariant.
    spec fn wf(&self) -> bool;

    /// `r` is what parsing `input` gives.
    spec fn parses_to(&self, input: Seq<char>, r: ArgOutcome<Res>) -> bool;

    /// What [`Self::suggestion`] returns for `prefix`.
    spec fn suggestions_for(&self, prefix: Seq<char>) -> Seq<Seq<char>>;

    /// What [`Self::hint`] returns.
    spec fn hints(&self) -> Seq<Seq<char>>;

    /// Parses the input as a command argument: either a value, or how far it
    /// matched and what was expected.
    fn parse(&self, input: &str) -> (r: ArgParseRes<Res>)
        requires
            self.wf(),
        ensures
            self.parses_to(input@, r.outcome()),
    ;

    /// Ways to complete `prefix` into something that [`Self::parse`] accepts.
    fn suggestion(&self, prefix: &str) -> (r: Vec<String>)
        requires
            self.wf(),
        ensures
            views(r@) == self.suggestions_for(prefix@),
    ;

    /// What the argument is expected to look like, one element per form.
    fn hint(&self) -> (r: Vec<String>)
        requires
            self.wf(),
        ensures
            views(r@) == self.hints(),
    ;

    /// A parser that applies `f` to the values this one produces.
    fn map<B, F: Fn(Res) -> B>(self, f: F) -> (r: ContextFreeMap<Res, B, Self, F>) where
        Self: Sized,

        ensures
            r.inner() == self,
            r.func() == f,
    {
        ContextFreeMap::new(self, f)
    }

    /// This parser, to be used where the values of the preceding arguments
    /// are passed along.
    fn adapt(self) -> (r: ContextFreeAdapter<Self>) where Self: Sized
        ensures
            r.inner() == self,
    {
        ContextFreeAdapter::new(self)
    }
}

/// A parser of a second argument that is given the value of the first.
pub trait Arg2Parser<Res1, Res2> {
    spec fn wf(&self) -> bool;

    /// `r` is what parsing `input` gives, after a first argument `res1`.
    spec fn parses_to(&self, res1: Res1, input: Seq<char>, r: ArgOutcome<Res2>) -> bool;

    spec fn suggestions_for(&self, res1: Res1, prefix: Seq<char>) -> Seq<Seq<char>>;

    spec fn hints(&self, res1: Res1) -> Seq<Seq<char>>;

    fn parse(&self, res1: &Res1, input: &str) -> (r: ArgParseRes<Res2>)
        requires
            self.wf(),
        ensures
            self.parses_to(*res1, input@, r.outcome()),
    ;

    fn suggestion(&self, res1: &Res1, prefix: &str) -> (r: Vec<String>)
        requires
            self.wf(),
        ensures
            views(r@) == self.suggestions_for(*res1, prefix@),
    ;

    fn hint(&self, res1: &Res1) -> (r: Vec<String>)
        requires
            self.wf(),
        ensures
            views(r@) == self.hints(*res1),
    ;
}

impl<Res1, Res, Parser: ContextFreeArgParser<Res>> Arg2Parser<Res1, Res> for ContextFreeAdapter<Parser> {
    open spec fn wf(&self) -> bool {
        self.inner().wf()
    }

    open spec fn parses_to(&self, res1: Res1, input: Seq<char>, r: ArgOutcome<Res>) -> bool {
        self.inner().parses_to(input, r)
    }

    open spec fn suggestions_for(&self, res1: Res1, prefix: Seq<char>) -> Seq<Seq<char>> {
        self.inner().suggestions_for(prefix)
    }

    open spec fn hints(&self, res1: Res1) -> Seq<Seq<char>> {
        self.inner().hints()
    }

    fn parse(&self, res1: &Res1, input: &str) -> (r: ArgParseRes<Res>) {
        self.parser.parse(input)
    }

    fn suggestion(&self, res1: &Res1, prefix: &str) -> (r: Vec<String>) {
        self.parser.suggestion(prefix)
    }

    fn hint(&self, res1: &Res1) -> (r: Vec<String>) {
        self.parser.hint()
    }
}

/// Lets a context-free parser stand where a parser that is given the values
/// of the preceding arguments is expected; the context is ignored.
pub struct ContextFreeAdapter<Parser> {
    parser: Parser,
}

impl<Parser> ContextFreeAdapter<Parser> {
    pub fn new(parser: Parser) -> (r: Self)
        ensures
            r.inner() == parser,
    {
        ContextFreeAdapter { parser }
    }

    pub closed spec fn inner(&self) -> Parser {
        self.parser
    }
}

impl<Res, Parser: ContextFreeArgParser<Res>> ContextFreeArgParser<Res> for ContextFreeAdapter<Parser> {
    open spec fn wf(&self) -> bool {
        self.inner().wf()
    }

    open spec fn parses_to(&self, input: Seq<char>, r: ArgOutcome<Res>) -> bool {
        self.inner().parses_to(input, r)
    }

    open spec fn suggestions_for(&self, prefix: Seq<char>) -> Seq<Seq<char>> {
        self.inner().suggestions_for(prefix)
    }

    open spec fn hints(&self) -> Seq<Seq<char>> {
        self.inner().hints()
    }

    fn parse(&self, input: &str) -> (r: ArgParseRes<Res>) {
        self.parser.parse(input)
    }

    fn suggestion(&self, prefix: &str) -> (r: Vec<String>) {
        self.parser.suggestion(prefix)
    }

    fn hint(&self) -> (r: Vec<String>) {
        self.parser.hint()
    }
}

} // verus!
