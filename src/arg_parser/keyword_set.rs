//! An argument that is one of a fixed set of keywords.

use vstd::prelude::*;

use super::{ArgOutcome, ArgParseRes, ContextFreeArgParser};
use crate::text::{chars_eq, common_prefix_len, is_prefix, match_len, str_chars, views};

verus! {

/// Accepts exactly one of its keywords.
#[derive(PartialEq, Clone, Debug)]
pub struct KeywordSetArgParser {
    keywords: Vec<String>,
    hints: Vec<String>,
}

/// Longest run of leading code points that `input` shares with any of
/// `keywords`.
pub open spec fn longest_match(keywords: Seq<Seq<char>>, input: Seq<char>) -> nat
    decreases keywords.len(),
{
    if keywords.len() == 0 {
        0
    } else {
        let rest = longest_match(keywords.drop_last(), input);
        let m = match_len(input, keywords.last(), 0);
        if m > rest {
            m
        } else {
            rest
        }
    }
}

/// The keywords that strictly extend `prefix`, in order.
pub open spec fn strict_extensions(keywords: Seq<Seq<char>>, prefix: Seq<char>) -> Seq<Seq<char>>
    decreases keywords.len(),
{
    if keywords.len() == 0 {
        Seq::empty()
    } else {
        let rest = strict_extensions(keywords.drop_last(), prefix);
        let k = keywords.last();
        if is_prefix(prefix, k) && k.len() > prefix.len() {
            rest.push(k)
        } else {
            rest
        }
    }
}

/// What parsing `input` against `keywords` gives.
pub open spec fn keyword_outcome(
    keywords: Seq<Seq<char>>,
    hints: Seq<Seq<char>>,
    input: Seq<char>,
    r: ArgOutcome<String>,
) -> bool {
    match r {
        ArgOutcome::Parsed(s) => keywords.contains(input) && s@ == input,
        ArgOutcome::Failed { parsed_up_to, reason } => {
            &&& !keywords.contains(input)
            &&& parsed_up_to == longest_match(keywords, input)
            &&& reason == hints
        },
    }
}

impl KeywordSetArgParser {
    /// Builds a parser over `keywords`, with `hints` describing it.  There
    /// must be at least one keyword.
    pub fn new(keywords: Vec<String>, hints: Vec<String>) -> (r: Self)
        requires
            keywords@.len() > 0,
        ensures
            r.keywords() == views(keywords@),
            r.hint_texts() == views(hints@),
            r.wf(),
    {
        KeywordSetArgParser { keywords, hints }
    }

    pub closed spec fn keywords(&self) -> Seq<Seq<char>> {
        views(self.keywords@)
    }

    pub closed spec fn hint_texts(&self) -> Seq<Seq<char>> {
        views(self.hints@)
    }
}

/// Owned copies of `items`.
pub fn to_strings(items: &[&str]) -> (r: Vec<String>)
    ensures
        views(r@) == items@.map_values(|s: &str| s@),
        r@.len() == items@.len(),
{
    let mut r: Vec<String> = Vec::new();
    let mut i: usize = 0;
    while i < items.len()
        invariant
            i <= items@.len(),
            views(r@) == items@.take(i as int).map_values(|s: &str| s@),
        decreases items@.len() - i,
    {
        let ghost before = r@;
        let owned = items[i].to_owned();
        r.push(owned);
        proof {
            assert(r@ == before.push(owned));
            assert(views(r@) =~= views(before).push(owned@));
            assert(items@.take(i as int + 1) =~= items@.take(i as int).push(items@[i as int]));
        }
        i += 1;
        assert(views(r@) =~= items@.take(i as int).map_values(|s: &str| s@));
    }
    assert(items@.take(i as int) =~= items@);
    r
}

/// A parser that accepts any of `keywords`, with the keywords themselves as
/// hints.  There must be at least one keyword.
pub fn keyword_set(keywords: &[&str]) -> (r: KeywordSetArgParser)
    requires
        keywords@.len() > 0,
    ensures
        r.wf(),
        r.keywords() == keywords@.map_values(|s: &str| s@),
        r.hint_texts() == keywords@.map_values(|s: &str| s@),
{
    let keywords = to_strings(keywords);
    let hints = keywords.clone();
    assert(views(hints@) == views(keywords@));
    KeywordSetArgParser::new(keywords, hints)
}

/// A parser that accepts any of `keywords`, described by `hints`.  There must
/// be at least one keyword.
pub fn keyword_set_with_hint(keywords: &[&str], hints: &[&str]) -> (r: KeywordSetArgParser)
    requires
        keywords@.len() > 0,
    ensures
        r.wf(),
        r.keywords() == keywords@.map_values(|s: &str| s@),
        r.hint_texts() == hints@.map_values(|s: &str| s@),
{
    KeywordSetArgParser::new(to_strings(keywords), to_strings(hints))
}

impl ContextFreeArgParser<String> for KeywordSetArgParser {
    open spec fn wf(&self) -> bool {
        self.keywords().len() > 0
    }

    open spec fn parses_to(&self, input: Seq<char>, r: ArgOutcome<String>) -> bool {
        keyword_outcome(self.keywords(), self.hint_texts(), input, r)
    }

    open spec fn suggestions_for(&self, prefix: Seq<char>) -> Seq<Seq<char>> {
        strict_extensions(self.keywords(), prefix)
    }

    open spec fn hints(&self) -> Seq<Seq<char>> {
        self.hint_texts()
    }

    fn parse(&self, input: &str) -> (r: ArgParseRes<String>) {
        let input_chars = str_chars(input);
        let ghost kws = self.keywords();
        let mut longest: usize = 0;
        let mut i: usize = 0;
        while i < self.keywords.len()
            invariant
                kws == views(self.keywords@),
                input_chars@ == input@,
                i <= kws.len(),
                longest == longest_match(kws.take(i as int), input@),
                forall|j: int| 0 <= j < i ==> kws[j] != input@,
            decreases kws.len() - i,
        {
            let k = &self.keywords[i];
            let k_chars = str_chars(k.as_str());
            if chars_eq(&k_chars, &input_chars) {
                proof {
                    assert(kws[i as int] == input@);
                    assert(kws.contains(input@));
                }
                return ArgParseRes::Parsed(k.clone());
            }
            let m = common_prefix_len(&input_chars, &k_chars);
            proof {
                assert(kws.take(i as int + 1).drop_last() =~= kws.take(i as int));
            }
            if m > longest {
                longest = m;
            }
            i += 1;
        }
        proof {
            assert(kws.take(i as int) =~= kws);
        }
        ArgParseRes::Failed { parsed_up_to: longest, reason: self.hints.clone() }
    }

    fn suggestion(&self, prefix: &str) -> (r: Vec<String>) {
        let prefix_chars = str_chars(prefix);
        let ghost kws = self.keywords();
        let mut r: Vec<String> = Vec::new();
        let mut i: usize = 0;
        while i < self.keywords.len()
            invariant
                kws == views(self.keywords@),
                prefix_chars@ == prefix@,
                i <= kws.len(),
                views(r@) == strict_extensions(kws.take(i as int), prefix@),
            decreases kws.len() - i,
        {
            let k_chars = str_chars(self.keywords[i].as_str());
            let m = common_prefix_len(&prefix_chars, &k_chars);
            proof {
                assert(kws.take(i as int + 1).drop_last() =~= kws.take(i as int));
                crate::text::lemma_match_len_bounds(prefix@, k_chars@, 0);
                if is_prefix(prefix@, k_chars@) {
                    crate::text::lemma_match_len_prefix(prefix@, k_chars@);
                }
            }
            if m == prefix_chars.len() && k_chars.len() > prefix_chars.len() {
                let ghost before = r@;
                r.push(self.keywords[i].clone());
                proof {
                    assert(prefix@ =~= k_chars@.take(m as int));
                    assert(views(r@) =~= views(before).push(kws[i as int]));
                }
            }
            i += 1;
        }
        proof {
            assert(kws.take(i as int) =~= kws);
        }
        r
    }

    fn hint(&self) -> (r: Vec<String>) {
        self.hints.clone()
    }
}

} // verus!
