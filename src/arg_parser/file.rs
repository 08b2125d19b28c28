//! The decisions of the file path argument.  Looking at the file system is
//! left to the caller, who reports what it found; the rules that turn that
//! into a parse result live here.

use vstd::prelude::*;
use vstd::string::*;

use super::{ArgOutcome, ArgParseRes};
use crate::text::{common_prefix_len, is_prefix, lemma_match_len_bounds, lemma_match_len_prefix, str_chars, string_from_chars, views};
use vstd::relations::{sorted_by, total_ordering};
use vstd::seq_lib::{lemma_sorted_unique, to_multiset_insert};

verus! {

/// Index of the last code point of `s` that is not `/`.
pub open spec fn last_non_slash(s: Seq<char>) -> Option<nat>
    decreases s.len(),
{
    if s.len() == 0 {
        None
    } else if s.last() != '/' {
        Some((s.len() - 1) as nat)
    } else {
        last_non_slash(s.drop_last())
    }
}

/// Index of the last `/` of `s`.
pub open spec fn last_slash(s: Seq<char>) -> Option<nat>
    decreases s.len(),
{
    if s.len() == 0 {
        None
    } else if s.last() == '/' {
        Some((s.len() - 1) as nat)
    } else {
        last_slash(s.drop_last())
    }
}

/// `s` without its last path component: trailing `/`s are dropped, then
/// everything after the last remaining `/`.  Empty when no `/` is left.
pub open spec fn without_last_component(s: Seq<char>) -> Seq<char> {
    let t = match last_non_slash(s) {
        Some(i) => s.take((i + 1) as int),
        None => s,
    };
    match last_slash(t) {
        Some(j) => t.take((j + 1) as int),
        None => Seq::empty(),
    }
}

fn find_last(s: &Vec<char>, slash: bool) -> (r: Option<usize>)
    ensures
        slash ==> opt(r) == last_slash(s@),
        !slash ==> opt(r) == last_non_slash(s@),
        r matches Some(i) ==> i < s@.len(),
{
    let mut i: usize = s.len();
    assert(s@.take(i as int) =~= s@);
    while i > 0
        invariant
            i <= s@.len(),
            slash ==> last_slash(s@) == last_slash(s@.take(i as int)),
            !slash ==> last_non_slash(s@) == last_non_slash(s@.take(i as int)),
        decreases i,
    {
        let c = s[i - 1];
        proof {
            let q = s@.take(i as int);
            assert(q.drop_last() =~= s@.take(i - 1));
            assert(q.last() == c);
        }
        if (c == '/') == slash {
            return Some(i - 1);
        }
        i -= 1;
    }
    assert(s@.take(0) =~= Seq::<char>::empty());
    None
}

/// An optional index as a number.
pub open spec fn opt(r: Option<usize>) -> Option<nat> {
    match r {
        Some(i) => Some(i as nat),
        None => None,
    }
}

/// Removes the last component from a path given as text, without
/// normalizing it.
pub fn cut_last_component(input: &str) -> (r: String)
    ensures
        r@ == without_last_component(input@),
{
    let s = str_chars(input);
    let mut t = str_chars(input);
    match find_last(&s, false) {
        Some(i) => {
            let n = s.len();
            assert(i < n);
            t.truncate(i + 1);
        },
        None => {},
    }
    assert(t@ == match last_non_slash(s@) {
        Some(i) => s@.take((i + 1) as int),
        None => s@,
    });
    match find_last(&t, true) {
        Some(j) => {
            let n = t.len();
            assert(j < n);
            t.truncate(j + 1);
            string_from_chars(&t)
        },
        None => String::new(),
    }
}

/// What a path names on the file system.
#[derive(PartialEq, Eq, Clone, Copy, Debug)]
pub enum PathKind {
    Missing,
    File,
    Directory,
}

/// `s` ends with `/.`, which names the entry `.` rather than the directory.
pub open spec fn ends_with_slash_dot(s: Seq<char>) -> bool {
    s.len() >= 2 && s[s.len() - 2] == '/' && s[s.len() - 1] == '.'
}

/// What parsing the path `input` gives, where `target` is what the path
/// names, `parent_is_dir` whether its parent is a directory, and `error`
/// the system's message about the path.
///
/// A file parses.  Otherwise the parse fails: a trailing `/.` or a
/// directory named with a trailing `/` (or the empty path) has been read
/// in full, and its entries are what comes next; a path whose parent
/// directory exists has been read up to its last component; anything else
/// is an error.
pub open spec fn file_outcome(input: Seq<char>, target: PathKind, parent_is_dir: bool, error: Seq<char>) -> ArgOutcome<()> {
    let n = input.len();
    let show_dir = n == 0 || input[n - 1] == '/';
    if ends_with_slash_dot(input) {
        ArgOutcome::Failed { parsed_up_to: (n - 1) as nat, reason: Seq::empty() }
    } else if target == PathKind::File {
        ArgOutcome::Parsed(())
    } else if target == PathKind::Directory && show_dir {
        ArgOutcome::Failed { parsed_up_to: n, reason: Seq::empty() }
    } else if target == PathKind::Missing && show_dir {
        ArgOutcome::Failed { parsed_up_to: n, reason: seq![error] }
    } else if parent_is_dir {
        ArgOutcome::Failed { parsed_up_to: without_last_component(input).len(), reason: Seq::empty() }
    } else {
        ArgOutcome::Failed { parsed_up_to: n, reason: seq![error] }
    }
}

/// See [`file_outcome`].
pub fn file_parse(input: &str, target: PathKind, parent_is_dir: bool, error: &str) -> (r: ArgParseRes<()>)
    ensures
        r.outcome() == file_outcome(input@, target, parent_is_dir, error@),
{
    let s = str_chars(input);
    let n = s.len();
    let show_dir = n == 0 || s[n - 1] == '/';
    if n >= 2 && s[n - 2] == '/' && s[n - 1] == '.' {
        let none: Vec<String> = Vec::new();
        assert(views(none@) =~= Seq::<Seq<char>>::empty());
        return ArgParseRes::Failed { parsed_up_to: n - 1, reason: none };
    }
    let empty: Vec<String> = Vec::new();
    assert(views(empty@) =~= Seq::<Seq<char>>::empty());
    match target {
        PathKind::File => ArgParseRes::Parsed(()),
        PathKind::Directory if show_dir => ArgParseRes::Failed { parsed_up_to: n, reason: empty },
        PathKind::Missing if show_dir => {
            let reason = vec![error.to_owned()];
            assert(views(reason@) =~= seq![error@]);
            ArgParseRes::Failed { parsed_up_to: n, reason }
        },
        _ => if parent_is_dir {
            let cut = cut_last_component(input);
            ArgParseRes::Failed { parsed_up_to: cut.as_str().unicode_len(), reason: empty }
        } else {
            let reason = vec![error.to_owned()];
            assert(views(reason@) =~= seq![error@]);
            ArgParseRes::Failed { parsed_up_to: n, reason }
        },
    }
}

/// `a` comes before `b`, or equals it, comparing code point by code point.
pub open spec fn lex_le(a: Seq<char>, b: Seq<char>) -> bool
    decreases a.len(),
{
    if a.len() == 0 {
        true
    } else if b.len() == 0 {
        false
    } else if a[0] != b[0] {
        (a[0] as u32) < (b[0] as u32)
    } else {
        lex_le(a.drop_first(), b.drop_first())
    }
}

/// [`lex_le`] as a relation.
pub open spec fn lex_order() -> spec_fn(Seq<char>, Seq<char>) -> bool {
    |a: Seq<char>, b: Seq<char>| lex_le(a, b)
}

proof fn lemma_lex_total(a: Seq<char>, b: Seq<char>)
    ensures
        lex_le(a, b) || lex_le(b, a),
    decreases a.len(),
{
    if a.len() > 0 && b.len() > 0 && a[0] == b[0] {
        lemma_lex_total(a.drop_first(), b.drop_first());
    } else if a.len() > 0 && b.len() > 0 {
        vstd::utf8::char_u32_cast(a[0], a[0] as u32);
        vstd::utf8::char_u32_cast(b[0], b[0] as u32);
    }
}

proof fn lemma_lex_antisym(a: Seq<char>, b: Seq<char>)
    requires
        lex_le(a, b),
        lex_le(b, a),
    ensures
        a == b,
    decreases a.len(),
{
    if a.len() > 0 && b.len() > 0 {
        lemma_lex_antisym(a.drop_first(), b.drop_first());
        assert(a =~= seq![a[0]] + a.drop_first());
        assert(b =~= seq![b[0]] + b.drop_first());
    } else {
        assert(a =~= b);
    }
}

proof fn lemma_lex_trans(a: Seq<char>, b: Seq<char>, c: Seq<char>)
    requires
        lex_le(a, b),
        lex_le(b, c),
    ensures
        lex_le(a, c),
    decreases a.len(),
{
    if a.len() > 0 && b.len() > 0 && c.len() > 0 && a[0] == b[0] && b[0] == c[0] {
        lemma_lex_trans(a.drop_first(), b.drop_first(), c.drop_first());
    }
}

proof fn lemma_lex_refl(a: Seq<char>)
    ensures
        lex_le(a, a),
    decreases a.len(),
{
    if a.len() > 0 {
        lemma_lex_refl(a.drop_first());
    }
}

/// Code point order on strings is a total order.
pub proof fn lemma_lex_total_ordering()
    ensures
        total_ordering(lex_order()),
{
    let r = lex_order();
    assert forall|x: Seq<char>| #[trigger] r(x, x) by {
        lemma_lex_refl(x);
    }
    assert forall|x: Seq<char>, y: Seq<char>| #[trigger] r(x, y) && #[trigger] r(y, x) implies x == y by {
        lemma_lex_antisym(x, y);
    }
    assert forall|x: Seq<char>, y: Seq<char>, z: Seq<char>| #[trigger] r(x, y) && #[trigger] r(y, z) implies r(x, z) by {
        lemma_lex_trans(x, y, z);
    }
    assert forall|x: Seq<char>, y: Seq<char>| #[trigger] r(x, y) || #[trigger] r(y, x) by {
        lemma_lex_total(x, y);
    }
}

fn lex_le_exec(a: &Vec<char>, b: &Vec<char>) -> (r: bool)
    ensures
        r == lex_le(a@, b@),
{
    let mut i: usize = 0;
    assert(a@.skip(0) =~= a@);
    assert(b@.skip(0) =~= b@);
    while i < a.len() && i < b.len() && a[i] == b[i]
        invariant
            i <= a@.len(),
            i <= b@.len(),
            lex_le(a@, b@) == lex_le(a@.skip(i as int), b@.skip(i as int)),
        decreases a@.len() - i,
    {
        proof {
            assert(a@.skip(i as int).drop_first() =~= a@.skip(i as int + 1));
            assert(b@.skip(i as int).drop_first() =~= b@.skip(i as int + 1));
        }
        i += 1;
    }
    if i == a.len() {
        true
    } else if i == b.len() {
        false
    } else {
        (a[i] as u32) < (b[i] as u32)
    }
}

/// The name a directory entry is suggested as: directories get a trailing
/// `/`.
pub open spec fn entry_text(e: (Seq<char>, bool)) -> Seq<char> {
    if e.1 {
        e.0.push('/')
    } else {
        e.0
    }
}

/// Entries as text.
pub open spec fn entries_view(v: Seq<(String, bool)>) -> Seq<(Seq<char>, bool)> {
    v.map_values(|e: (String, bool)| (e.0@, e.1))
}

/// The entries whose name starts with `prefix`, as suggested, in the order
/// given.
pub open spec fn entries_matching(entries: Seq<(Seq<char>, bool)>, prefix: Seq<char>) -> Seq<Seq<char>>
    decreases entries.len(),
{
    if entries.len() == 0 {
        Seq::empty()
    } else {
        let r = entries_matching(entries.drop_last(), prefix);
        if is_prefix(prefix, entries.last().0) {
            r.push(entry_text(entries.last()))
        } else {
            r
        }
    }
}

/// The suggestions for a path component starting with `prefix`, given the
/// entries of its directory as names and whether each is a directory: the
/// entries whose name starts with `prefix`, directories with a trailing
/// `/`, sorted by code point.
pub fn matching_entries(entries: &Vec<(String, bool)>, prefix: &str) -> (r: Vec<String>)
    ensures
        views(r@) == entries_matching(entries_view(entries@), prefix@).sort_by(lex_order()),
{
    let ghost ev = entries_view(entries@);
    let p = str_chars(prefix);
    let mut r: Vec<String> = Vec::new();
    let mut i: usize = 0;
    proof {
        lemma_lex_total_ordering();
        assert(ev.take(0) =~= Seq::<(Seq<char>, bool)>::empty());
        assert(views(r@) =~= Seq::<Seq<char>>::empty());
    }
    while i < entries.len()
        invariant
            ev == entries_view(entries@),
            p@ == prefix@,
            i <= entries@.len(),
            total_ordering(lex_order()),
            sorted_by(views(r@), lex_order()),
            views(r@).to_multiset() == entries_matching(ev.take(i as int), prefix@).to_multiset(),
        decreases entries@.len() - i,
    {
        let name = str_chars(entries[i].0.as_str());
        let m = common_prefix_len(&p, &name);
        proof {
            let q = ev.take(i as int + 1);
            assert(q.drop_last() =~= ev.take(i as int));
            assert(q.last() == ev[i as int]);
            lemma_match_len_bounds(p@, name@, 0);
            if is_prefix(p@, name@) {
                lemma_match_len_prefix(p@, name@);
            }
        }
        if m == p.len() {
            proof {
                assert(p@ =~= name@.take(m as int));
            }
            let mut text = entries[i].0.clone();
            if entries[i].1 {
                text.append("/");
                proof {
                    reveal_strlit("/");
                }
            }
            assert(text@ == entry_text(ev[i as int]));
            let t = str_chars(text.as_str());
            let mut k: usize = 0;
            while k < r.len()
                invariant
                    k <= r@.len(),
                    t@ == text@,
                    forall|j: int| 0 <= j < k ==> lex_le(#[trigger] views(r@)[j], text@),
                ensures
                    k <= r@.len(),
                    forall|j: int| 0 <= j < k ==> lex_le(#[trigger] views(r@)[j], text@),
                    k < r@.len() ==> !lex_le(views(r@)[k as int], text@),
                decreases r@.len() - k,
            {
                let y = str_chars(r[k].as_str());
                assert(y@ == views(r@)[k as int]);
                if !lex_le_exec(&y, &t) {
                    break;
                }
                k += 1;
            }
            let ghost before = views(r@);
            proof {
                if k < before.len() {
                    lemma_lex_total(before[k as int], text@);
                }
                assert forall|j: int| k <= j < before.len() implies lex_le(text@, #[trigger] before[j]) by {
                    if j > k {
                        assert(lex_order()(before[k as int], before[j]));
                        lemma_lex_trans(text@, before[k as int], before[j]);
                    }
                }
            }
            r.insert(k, text);
            proof {
                let after = views(r@);
                assert(after =~= before.insert(k as int, text@));
                to_multiset_insert(before, k as int, text@);
                assert(entries_matching(ev.take(i as int + 1), prefix@) =~= entries_matching(ev.take(i as int), prefix@).push(text@));
                assert(entries_matching(ev.take(i as int), prefix@).push(text@) =~= entries_matching(ev.take(i as int), prefix@).insert(
                    entries_matching(ev.take(i as int), prefix@).len() as int,
                    text@,
                ));
                to_multiset_insert(entries_matching(ev.take(i as int), prefix@), entries_matching(ev.take(i as int), prefix@).len() as int, text@);
                assert forall|a: int, b: int| 0 <= a < b < after.len() implies #[trigger] lex_order()(after[a], after[b]) by {
                    if b < k {
                        assert(lex_order()(before[a], before[b]));
                    } else if b == k {
                        assert(lex_le(before[a], text@));
                    } else if a < k {
                        assert(lex_le(before[a], text@));
                        assert(lex_le(text@, before[b - 1]));
                        lemma_lex_trans(before[a], text@, before[b - 1]);
                    } else if a == k {
                        assert(lex_le(text@, before[b - 1]));
                    } else {
                        assert(lex_order()(before[a - 1], before[b - 1]));
                    }
                }
            }
        }
        i += 1;
    }
    proof {
        assert(ev.take(i as int) =~= ev);
        let f = entries_matching(ev, prefix@);
        f.lemma_sort_by_ensures(lex_order());
        lemma_sorted_unique(views(r@), f.sort_by(lex_order()), lex_order());
    }
    r
}

} // verus!
