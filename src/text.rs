//! Conversions between code point and byte positions, and common prefixes.

use vstd::prelude::*;
use vstd::string::*;
use vstd::utf8::{char_is_scalar, encode_scalar, encode_utf8};

verus! {

/// Number of bytes in the UTF-8 encoding of `c`.
pub open spec fn char_width(c: char) -> nat {
    if (c as u32) <= 0x7F {
        1
    } else if (c as u32) <= 0x7FF {
        2
    } else if (c as u32) <= 0xFFFF {
        3
    } else {
        4
    }
}

/// Number of bytes in the UTF-8 encoding of `s`.
pub open spec fn utf8_len(s: Seq<char>) -> nat
    decreases s.len(),
{
    if s.len() == 0 {
        0
    } else {
        utf8_len(s.drop_last()) + char_width(s.last())
    }
}

/// Byte offset of the `k`-th code point of `s`; the byte length of `s` when
/// `k` is past its end.
pub open spec fn byte_pos(s: Seq<char>, k: int) -> nat {
    if k < s.len() {
        utf8_len(s.take(k))
    } else {
        utf8_len(s)
    }
}

pub proof fn lemma_utf8_len_push(s: Seq<char>, c: char)
    ensures
        utf8_len(s.push(c)) == utf8_len(s) + char_width(c),
{
    assert(s.push(c).drop_last() =~= s);
}

pub proof fn lemma_utf8_len_take_next(s: Seq<char>, k: int)
    requires
        0 <= k < s.len(),
    ensures
        utf8_len(s.take(k + 1)) == utf8_len(s.take(k)) + char_width(s[k]),
{
    assert(s.take(k + 1).drop_last() =~= s.take(k));
}

pub proof fn lemma_utf8_len_concat(a: Seq<char>, b: Seq<char>)
    ensures
        utf8_len(a + b) == utf8_len(a) + utf8_len(b),
    decreases b.len(),
{
    if b.len() > 0 {
        assert((a + b).drop_last() =~= a + b.drop_last());
        lemma_utf8_len_concat(a, b.drop_last());
    } else {
        assert(a + b =~= a);
    }
}

/// A prefix never takes more bytes than the whole.
pub proof fn lemma_utf8_len_take_mono(s: Seq<char>, i: int, j: int)
    requires
        0 <= i <= j <= s.len(),
    ensures
        utf8_len(s.take(i)) <= utf8_len(s.take(j)),
        i < j ==> utf8_len(s.take(i)) < utf8_len(s.take(j)),
{
    assert(s.take(j) =~= s.take(i) + s.take(j).skip(i));
    lemma_utf8_len_concat(s.take(i), s.take(j).skip(i));
    if i < j {
        let rest = s.take(j).skip(i);
        assert(rest =~= rest.drop_last().push(rest.last()));
        lemma_utf8_len_push(rest.drop_last(), rest.last());
    }
}

proof fn lemma_char_width_encoding(c: char)
    ensures
        encode_scalar(c as u32).len() == char_width(c),
{
    char_is_scalar(c);
}

/// `utf8_len` is the length of the UTF-8 encoding.
pub proof fn lemma_utf8_len_encoding(s: Seq<char>)
    ensures
        encode_utf8(s).len() == utf8_len(s),
    decreases s.len(),
{
    if s.len() > 0 {
        lemma_char_width_encoding(s[0]);
        lemma_utf8_len_encoding(s.drop_first());
        assert(s =~= seq![s[0]] + s.drop_first());
        lemma_utf8_len_concat(seq![s[0]], s.drop_first());
        let one = seq![s[0]];
        assert(one.drop_last() =~= Seq::<char>::empty());
        assert(one.last() == s[0]);
        assert(utf8_len(Seq::<char>::empty()) == 0);
        assert(utf8_len(one) == char_width(s[0]));
        assert(encode_utf8(s) == encode_scalar(s[0] as u32) + encode_utf8(s.drop_first()));
    }
}

/// The byte length of a string slice, which always fits in `usize`.
pub fn str_byte_len(s: &str) -> (r: usize)
    ensures
        r == utf8_len(s@),
{
    let b = s.as_bytes();
    proof {
        lemma_utf8_len_encoding(s@);
    }
    b.len()
}

/// Number of bytes in the UTF-8 encoding of `c`.
pub fn char_len_utf8(c: char) -> (r: usize)
    ensures
        r == char_width(c),
{
    let v = c as u32;
    if v <= 0x7F {
        1
    } else if v <= 0x7FF {
        2
    } else if v <= 0xFFFF {
        3
    } else {
        4
    }
}

/// The code points of `s`.
pub fn str_chars(s: &str) -> (r: Vec<char>)
    ensures
        r@ == s@,
{
    let n = s.unicode_len();
    let mut r: Vec<char> = Vec::new();
    let mut i: usize = 0;
    while i < n
        invariant
            n == s@.len(),
            i <= n,
            r@ == s@.take(i as int),
        decreases n - i,
    {
        r.push(s.get_char(i));
        i += 1;
        assert(r@ =~= s@.take(i as int));
    }
    assert(r@ =~= s@);
    r
}

/// Byte offset of the code point with index `k` in `s`: the offset in bytes
/// at which it starts, or the byte length of `s` when `k` is past the end.
pub fn chars_byte_pos(s: &Vec<char>, k: usize) -> (r: usize)
    requires
        utf8_len(s@) <= usize::MAX,
    ensures
        r == byte_pos(s@, k as int),
{
    let end = if k < s.len() { k } else { s.len() };
    let mut acc: usize = 0;
    let mut i: usize = 0;
    while i < end
        invariant
            end <= s@.len(),
            i <= end,
            acc == utf8_len(s@.take(i as int)),
            utf8_len(s@) <= usize::MAX,
        decreases end - i,
    {
        proof {
            lemma_utf8_len_take_next(s@, i as int);
            lemma_utf8_len_take_mono(s@, i as int + 1, s@.len() as int);
            assert(s@.take(s@.len() as int) =~= s@);
        }
        acc = acc + char_len_utf8(s[i]);
        i += 1;
    }
    proof {
        assert(s@.take(s@.len() as int) =~= s@);
    }
    acc
}

/// Byte offset of the code point with index `pos` in `s`, or the byte length
/// of `s` when there is no such code point.
pub fn str_byte_pos(s: &str, pos: usize) -> (r: usize)
    ensures
        r == byte_pos(s@, pos as int),
{
    let total = str_byte_len(s);
    let chars = str_chars(s);
    chars_byte_pos(&chars, pos)
}

/// The text of a sequence of code points.
///
/// Relies on std's `FromIterator<&char>` for `String`: the string holds the
/// code points in order.
#[verifier::external_body]
pub(crate) fn string_from_chars(v: &Vec<char>) -> (r: String)
    ensures
        r@ == v@,
{
    v.iter().collect()
}

/// `c` has the Unicode `White_Space` property: `U+0009..=U+000D`, space,
/// `U+0085`, `U+00A0`, `U+1680`, `U+2000..=U+200A`, `U+2028`, `U+2029`,
/// `U+202F`, `U+205F` and `U+3000`.
pub open spec fn white_space(c: char) -> bool {
    let v = c as u32;
    ||| 0x9 <= v <= 0xD
    ||| v == 0x20
    ||| v == 0x85
    ||| v == 0xA0
    ||| v == 0x1680
    ||| 0x2000 <= v <= 0x200A
    ||| v == 0x2028
    ||| v == 0x2029
    ||| v == 0x202F
    ||| v == 0x205F
    ||| v == 0x3000
}

/// Whether `c` is whitespace, see [`white_space`].
pub fn is_whitespace(c: char) -> (r: bool)
    ensures
        r == white_space(c),
{
    let v = c as u32;
    (0x9 <= v && v <= 0xD) || v == 0x20 || v == 0x85 || v == 0xA0 || v == 0x1680 || (0x2000 <= v && v
        <= 0x200A) || v == 0x2028 || v == 0x2029 || v == 0x202F || v == 0x205F || v == 0x3000
}

/// Whether `c` is a control code point: general category `Cc`, which is
/// `U+0000..=U+001F` and `U+007F..=U+009F`.
pub open spec fn control_char(c: char) -> bool {
    (c as u32) < 0x20 || (0x7F <= (c as u32) && (c as u32) < 0xA0)
}

/// Whether `c` is a control code point.
pub fn is_control(c: char) -> (r: bool)
    ensures
        r == control_char(c),
{
    let v = c as u32;
    v < 0x20 || (0x7F <= v && v < 0xA0)
}

/// The code points of each string.
pub open spec fn views(v: Seq<String>) -> Seq<Seq<char>> {
    v.map_values(|s: String| s@)
}

/// `p` is a prefix of `s`.
pub open spec fn is_prefix(p: Seq<char>, s: Seq<char>) -> bool {
    p.len() <= s.len() && s.take(p.len() as int) == p
}

/// Length of the longest common prefix of `a` and `b`, counting from index
/// `i` on, where the first `i` code points are known to agree.
pub open spec fn match_len(a: Seq<char>, b: Seq<char>, i: nat) -> nat
    decreases a.len() - i,
{
    if i < a.len() && i < b.len() && a[i as int] == b[i as int] {
        match_len(a, b, i + 1)
    } else {
        i
    }
}

/// Longest string that is a prefix of every element of `ss`; empty when `ss`
/// is empty.
pub open spec fn common_prefix_of(ss: Seq<Seq<char>>) -> Seq<char>
    decreases ss.len(),
{
    if ss.len() == 0 {
        Seq::empty()
    } else if ss.len() == 1 {
        ss[0]
    } else {
        let p = common_prefix_of(ss.drop_last());
        p.take(match_len(p, ss.last(), 0) as int)
    }
}

pub proof fn lemma_match_len_bounds(a: Seq<char>, b: Seq<char>, i: nat)
    requires
        i <= a.len(),
        i <= b.len(),
        forall|j: int| 0 <= j < i ==> a[j] == b[j],
    ensures
        i <= match_len(a, b, i) <= a.len(),
        match_len(a, b, i) <= b.len(),
        forall|j: int| 0 <= j < match_len(a, b, i) ==> a[j] == b[j],
    decreases a.len() - i,
{
    if i < a.len() && i < b.len() && a[i as int] == b[i as int] {
        lemma_match_len_bounds(a, b, i + 1);
    }
}

/// When `a` is a prefix of `b`, they agree on all of `a`.
pub proof fn lemma_match_len_prefix(a: Seq<char>, b: Seq<char>)
    requires
        is_prefix(a, b),
    ensures
        match_len(a, b, 0) == a.len(),
{
    assert forall|i: nat| i <= a.len() implies #[trigger] match_len(a, b, i) == a.len() by {
        lemma_match_len_from(a, b, i);
    }
    assert(match_len(a, b, 0) == a.len());
}

proof fn lemma_match_len_from(a: Seq<char>, b: Seq<char>, i: nat)
    requires
        is_prefix(a, b),
        i <= a.len(),
    ensures
        match_len(a, b, i) == a.len(),
    decreases a.len() - i,
{
    if i < a.len() {
        assert(b.take(a.len() as int)[i as int] == b[i as int]);
        lemma_match_len_from(a, b, i + 1);
    }
}

/// The common prefix is a prefix of each element and of the first element.
pub proof fn lemma_common_prefix_is_prefix(ss: Seq<Seq<char>>)
    ensures
        forall|k: int| 0 <= k < ss.len() ==> is_prefix(common_prefix_of(ss), #[trigger] ss[k]),
    decreases ss.len(),
{
    if ss.len() == 1 {
        assert(ss[0].take(ss[0].len() as int) =~= ss[0]);
    } else if ss.len() > 1 {
        let p = common_prefix_of(ss.drop_last());
        lemma_common_prefix_is_prefix(ss.drop_last());
        lemma_match_len_bounds(p, ss.last(), 0);
        let m = match_len(p, ss.last(), 0);
        assert forall|k: int| 0 <= k < ss.len() implies is_prefix(common_prefix_of(ss), #[trigger] ss[k]) by {
            if k < ss.len() - 1 {
                assert(ss.drop_last()[k] == ss[k]);
                assert(ss[k].take(m as int) =~= p.take(m as int));
            } else {
                assert(ss[k].take(m as int) =~= p.take(m as int));
            }
        }
    }
}

proof fn lemma_match_len_at_least(a: Seq<char>, b: Seq<char>, i: nat, n: nat)
    requires
        i <= n <= a.len(),
        n <= b.len(),
        forall|j: int| 0 <= j < n ==> a[j] == b[j],
    ensures
        match_len(a, b, i) >= n,
    decreases n - i,
{
    if i < n {
        lemma_match_len_at_least(a, b, i + 1, n);
    } else {
        lemma_match_len_bounds(a, b, i);
    }
}

/// A prefix shared by all strings of a non-empty list is a prefix of their
/// common prefix.
pub proof fn lemma_prefix_of_common(ss: Seq<Seq<char>>, w: Seq<char>)
    requires
        ss.len() > 0,
        forall|k: int| 0 <= k < ss.len() ==> is_prefix(w, #[trigger] ss[k]),
    ensures
        is_prefix(w, common_prefix_of(ss)),
    decreases ss.len(),
{
    if ss.len() > 1 {
        let p = common_prefix_of(ss.drop_last());
        assert forall|k: int| 0 <= k < ss.drop_last().len() implies is_prefix(w, #[trigger] ss.drop_last()[k]) by {
            assert(ss.drop_last()[k] == ss[k]);
        }
        lemma_prefix_of_common(ss.drop_last(), w);
        let l = ss.last();
        assert(is_prefix(w, ss[ss.len() - 1]));
        assert forall|j: int| 0 <= j < w.len() implies p[j] == l[j] by {
            assert(p.take(w.len() as int)[j] == w[j]);
            assert(l.take(w.len() as int)[j] == w[j]);
        }
        lemma_match_len_at_least(p, l, 0, w.len());
        lemma_match_len_bounds(p, l, 0);
        let m = match_len(p, l, 0);
        assert(p.take(m as int).take(w.len() as int) =~= p.take(w.len() as int));
    }
}

/// The common prefix of one string is that string.
pub proof fn lemma_common_prefix_singleton(x: Seq<char>)
    ensures
        common_prefix_of(seq![x]) == x,
{
}

/// Adding a string to a non-empty list never lengthens the common prefix.
pub proof fn lemma_common_prefix_push(ss: Seq<Seq<char>>, x: Seq<char>)
    requires
        ss.len() > 0,
    ensures
        common_prefix_of(ss.push(x)).len() <= common_prefix_of(ss).len(),
        is_prefix(common_prefix_of(ss.push(x)), common_prefix_of(ss)),
{
    let p = common_prefix_of(ss);
    assert(ss.push(x).drop_last() =~= ss);
    lemma_match_len_bounds(p, x, 0);
    let m = match_len(p, x, 0);
    assert(p.take(m as int).take(m as int) =~= p.take(m as int));
}

/// Number of leading code points on which `a` and `b` agree.
pub fn common_prefix_len(a: &Vec<char>, b: &Vec<char>) -> (r: usize)
    ensures
        r == match_len(a@, b@, 0),
{
    let mut i: usize = 0;
    while i < a.len() && i < b.len() && a[i] == b[i]
        invariant
            i <= a@.len(),
            i <= b@.len(),
            match_len(a@, b@, i as nat) == match_len(a@, b@, 0),
        decreases a@.len() - i,
    {
        i += 1;
    }
    i
}

/// Whether `a` and `b` hold the same code points.
pub fn chars_eq(a: &Vec<char>, b: &Vec<char>) -> (r: bool)
    ensures
        r == (a@ == b@),
{
    if a.len() != b.len() {
        return false;
    }
    let mut i: usize = 0;
    while i < a.len()
        invariant
            a@.len() == b@.len(),
            i <= a@.len(),
            a@.take(i as int) == b@.take(i as int),
        decreases a@.len() - i,
    {
        if a[i] != b[i] {
            return false;
        }
        assert(a@.take(i as int + 1) =~= a@.take(i as int).push(a@[i as int]));
        assert(b@.take(i as int + 1) =~= b@.take(i as int).push(b@[i as int]));
        i += 1;
    }
    assert(a@.take(i as int) =~= a@);
    assert(b@.take(i as int) =~= b@);
    true
}

/// Longest string that is a prefix of every element of `options`, compared
/// code point by code point; empty when `options` is empty.
pub fn common_prefix(options: &Vec<String>) -> (r: String)
    ensures
        r@ == common_prefix_of(views(options@)),
{
    if options.len() == 0 {
        return String::new();
    }
    let mut res = str_chars(options[0].as_str());
    let mut k: usize = 1;
    assert(views(options@).take(1) =~= seq![options@[0]@]);
    while k < options.len()
        invariant
            1 <= k <= options@.len(),
            res@ == common_prefix_of(views(options@).take(k as int)),
        decreases options@.len() - k,
    {
        let next = str_chars(options[k].as_str());
        let m = common_prefix_len(&res, &next);
        proof {
            lemma_match_len_bounds(res@, next@, 0);
        }
        res.truncate(m);
        proof {
            let ss = views(options@).take(k as int + 1);
            assert(ss.drop_last() =~= views(options@).take(k as int));
            assert(ss.last() == options@[k as int]@);
        }
        k += 1;
    }
    assert(views(options@).take(k as int) =~= views(options@));
    string_from_chars(&res)
}

/// Index of the code point that starts at byte offset `b` of `s`.
pub fn char_index_of_byte(s: &Vec<char>, b: usize) -> (r: usize)
    requires
        exists|k: int| 0 <= k <= s@.len() && b == #[trigger] utf8_len(s@.take(k)),
    ensures
        r <= s@.len(),
        b == utf8_len(s@.take(r as int)),
        forall|k: int| 0 <= k <= s@.len() && b == #[trigger] utf8_len(s@.take(k)) ==> r == k,
{
    let ghost k = choose|k: int| 0 <= k <= s@.len() && b == #[trigger] utf8_len(s@.take(k));
    let n = s.len();
    let mut i: usize = 0;
    let mut acc: usize = 0;
    while acc < b
        invariant
            0 <= k <= s@.len(),
            n == s@.len(),
            b == utf8_len(s@.take(k)),
            i <= k,
            acc == utf8_len(s@.take(i as int)),
        decreases k - i,
    {
        proof {
            if i == k {
                assert(false);
            }
            lemma_utf8_len_take_mono(s@, i as int + 1, k);
            lemma_utf8_len_take_next(s@, i as int);
        }
        acc = acc + char_len_utf8(s[i]);
        i += 1;
    }
    proof {
        if i < k {
            lemma_utf8_len_take_mono(s@, i as int, k);
        }
        assert forall|k2: int| 0 <= k2 <= s@.len() && b == #[trigger] utf8_len(s@.take(k2)) implies i == k2 by {
            if k2 < i {
                lemma_utf8_len_take_mono(s@, k2, i as int);
            } else if i < k2 {
                lemma_utf8_len_take_mono(s@, i as int, k2);
            }
        }
    }
    i
}

/// `text` cut to at most `max_width` code points.  Text that does not fit
/// ends in `" ..."` when there is room for twice that; with less room it is
/// cut without it.
pub open spec fn limit_width(text: Seq<char>, max_width: nat) -> Seq<char> {
    if text.len() <= max_width {
        text
    } else if max_width < 8 {
        text.take(max_width as int)
    } else {
        text.take(max_width - 4) + " ..."@
    }
}

/// See [`limit_width`].
pub fn text_limit_width(text: &str, max_width: usize) -> (r: String)
    ensures
        r@ == limit_width(text@, max_width as nat),
{
    let len = text.unicode_len();
    if len <= max_width {
        text.to_owned()
    } else if max_width < 8 {
        text.substring_char(0, max_width).to_owned()
    } else {
        let mut r = text.substring_char(0, max_width - 4).to_owned();
        r.append(" ...");
        r
    }
}

} // verus!
