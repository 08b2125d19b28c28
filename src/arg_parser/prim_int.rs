//! Integer arguments.

use vstd::prelude::*;

use super::{ArgOutcome, ArgParseRes, ContextFreeArgParser};
use crate::text::{byte_pos, char_index_of_byte, lemma_utf8_len_take_mono, str_chars, string_from_chars, utf8_len, views};

verus! {

/// An integer type that an argument can be parsed into.
pub trait ArgInt: Sized + Copy {
    spec fn to_int(self) -> int;

    /// The type's smallest value.
    spec fn lo() -> int;

    /// The type's largest value.
    spec fn hi() -> int;

    fn lowest() -> (r: Self)
        ensures
            r.to_int() == Self::lo(),
    ;

    fn highest() -> (r: Self)
        ensures
            r.to_int() == Self::hi(),
    ;

    fn to_i128(&self) -> (r: i128)
        ensures
            r == self.to_int(),
    ;

    fn from_i128(v: i128) -> (r: Self)
        requires
            Self::lo() <= v <= Self::hi(),
        ensures
            r.to_int() == v,
    ;

    proof fn lemma_range(x: Self)
        ensures
            Self::lo() <= x.to_int() <= Self::hi(),
            -0x1_0000_0000_0000_0000 <= Self::lo() <= 0,
            0 < Self::hi() <= 0x1_0000_0000_0000_0000,
    ;
}

impl ArgInt for u8 {
    open spec fn to_int(self) -> int {
        self as int
    }

    open spec fn lo() -> int {
        0
    }

    open spec fn hi() -> int {
        255
    }

    fn lowest() -> (r: Self) {
        u8::MIN
    }

    fn highest() -> (r: Self) {
        u8::MAX
    }

    fn to_i128(&self) -> (r: i128) {
        *self as i128
    }

    fn from_i128(v: i128) -> (r: Self) {
        v as u8
    }

    proof fn lemma_range(x: Self) {
    }
}

impl ArgInt for u16 {
    open spec fn to_int(self) -> int {
        self as int
    }

    open spec fn lo() -> int {
        0
    }

    open spec fn hi() -> int {
        65535
    }

    fn lowest() -> (r: Self) {
        u16::MIN
    }

    fn highest() -> (r: Self) {
        u16::MAX
    }

    fn to_i128(&self) -> (r: i128) {
        *self as i128
    }

    fn from_i128(v: i128) -> (r: Self) {
        v as u16
    }

    proof fn lemma_range(x: Self) {
    }
}

impl ArgInt for u32 {
    open spec fn to_int(self) -> int {
        self as int
    }

    open spec fn lo() -> int {
        0
    }

    open spec fn hi() -> int {
        4294967295
    }

    fn lowest() -> (r: Self) {
        u32::MIN
    }

    fn highest() -> (r: Self) {
        u32::MAX
    }

    fn to_i128(&self) -> (r: i128) {
        *self as i128
    }

    fn from_i128(v: i128) -> (r: Self) {
        v as u32
    }

    proof fn lemma_range(x: Self) {
    }
}

impl ArgInt for u64 {
    open spec fn to_int(self) -> int {
        self as int
    }

    open spec fn lo() -> int {
        0
    }

    open spec fn hi() -> int {
        18446744073709551615
    }

    fn lowest() -> (r: Self) {
        u64::MIN
    }

    fn highest() -> (r: Self) {
        u64::MAX
    }

    fn to_i128(&self) -> (r: i128) {
        *self as i128
    }

    fn from_i128(v: i128) -> (r: Self) {
        v as u64
    }

    proof fn lemma_range(x: Self) {
    }
}

impl ArgInt for i8 {
    open spec fn to_int(self) -> int {
        self as int
    }

    open spec fn lo() -> int {
        -128
    }

    open spec fn hi() -> int {
        127
    }

    fn lowest() -> (r: Self) {
        i8::MIN
    }

    fn highest() -> (r: Self) {
        i8::MAX
    }

    fn to_i128(&self) -> (r: i128) {
        *self as i128
    }

    fn from_i128(v: i128) -> (r: Self) {
        v as i8
    }

    proof fn lemma_range(x: Self) {
    }
}

impl ArgInt for i16 {
    open spec fn to_int(self) -> int {
        self as int
    }

    open spec fn lo() -> int {
        -32768
    }

    open spec fn hi() -> int {
        32767
    }

    fn lowest() -> (r: Self) {
        i16::MIN
    }

    fn highest() -> (r: Self) {
        i16::MAX
    }

    fn to_i128(&self) -> (r: i128) {
        *self as i128
    }

    fn from_i128(v: i128) -> (r: Self) {
        v as i16
    }

    proof fn lemma_range(x: Self) {
    }
}

impl ArgInt for i32 {
    open spec fn to_int(self) -> int {
        self as int
    }

    open spec fn lo() -> int {
        -2147483648
    }

    open spec fn hi() -> int {
        2147483647
    }

    fn lowest() -> (r: Self) {
        i32::MIN
    }

    fn highest() -> (r: Self) {
        i32::MAX
    }

    fn to_i128(&self) -> (r: i128) {
        *self as i128
    }

    fn from_i128(v: i128) -> (r: Self) {
        v as i32
    }

    proof fn lemma_range(x: Self) {
    }
}

impl ArgInt for i64 {
    open spec fn to_int(self) -> int {
        self as int
    }

    open spec fn lo() -> int {
        -9223372036854775808
    }

    open spec fn hi() -> int {
        9223372036854775807
    }

    fn lowest() -> (r: Self) {
        i64::MIN
    }

    fn highest() -> (r: Self) {
        i64::MAX
    }

    fn to_i128(&self) -> (r: i128) {
        *self as i128
    }

    fn from_i128(v: i128) -> (r: Self) {
        v as i64
    }

    proof fn lemma_range(x: Self) {
    }
}


/// What `\d` matches in the pattern of [`find_number_prefix`]: a code point
/// of the Unicode general category `Nd`.
pub uninterp spec fn regex_digit(c: char) -> bool;

/// End of the run of `\d` code points of `s` that starts at `i`.
pub open spec fn digit_run_end(s: Seq<char>, i: nat) -> nat
    decreases s.len() - i,
{
    if i < s.len() && regex_digit(s[i as int]) {
        digit_run_end(s, i + 1)
    } else {
        i
    }
}

/// Where the digits of a number would start: after a leading `-`.
pub open spec fn sign_len(s: Seq<char>) -> nat {
    if s.len() > 0 && s[0] == '-' {
        1
    } else {
        0
    }
}

/// Code point length of the longest prefix of `s` of the shape `-?\d+`.
pub open spec fn number_prefix(s: Seq<char>) -> Option<nat> {
    let end = digit_run_end(s, sign_len(s));
    if end > sign_len(s) {
        Some(end)
    } else {
        None
    }
}

/// Byte length of the longest prefix of `input` of the shape `-?\d+`.
///
/// Relies on `regex::Regex::find` with the anchored pattern `^-?\d+`: the
/// match, if any, starts at `0`, takes the `-` if there is one, then the
/// longest run of `\d`, and its end is a byte offset.
#[verifier::external_body]
fn find_number_prefix(input: &str) -> (r: Option<usize>)
    ensures
        match r {
            None => !(sign_len(input@) < input@.len() && regex_digit(input@[sign_len(input@) as int])),
            Some(e) => exists|k: int|
                #![trigger byte_pos(input@, k)]
                {
                    &&& sign_len(input@) < k <= input@.len()
                    &&& e == byte_pos(input@, k)
                    &&& forall|j: int| sign_len(input@) <= j < k ==> regex_digit(#[trigger] input@[j])
                    &&& (k == input@.len() || !regex_digit(input@[k]))
                },
        },
{
    regex::Regex::new(r"^-?\d+").unwrap().find(input).map(|m| m.end())
}

proof fn lemma_digit_run_end(s: Seq<char>, i: nat, k: nat)
    requires
        i <= k <= s.len(),
        forall|j: int| i <= j < k ==> regex_digit(#[trigger] s[j]),
        k == s.len() || !regex_digit(s[k as int]),
    ensures
        digit_run_end(s, i) == k,
    decreases k - i,
{
    if i < k {
        lemma_digit_run_end(s, i + 1, k);
    }
}

/// The value of a digit.
pub open spec fn digit_char(d: nat) -> char {
    if d == 0 {
        '0'
    } else if d == 1 {
        '1'
    } else if d == 2 {
        '2'
    } else if d == 3 {
        '3'
    } else if d == 4 {
        '4'
    } else if d == 5 {
        '5'
    } else if d == 6 {
        '6'
    } else if d == 7 {
        '7'
    } else if d == 8 {
        '8'
    } else {
        '9'
    }
}

fn digit_char_of(d: u128) -> (c: char)
    requires
        d < 10,
    ensures
        c == digit_char(d as nat),
{
    if d == 0 {
        '0'
    } else if d == 1 {
        '1'
    } else if d == 2 {
        '2'
    } else if d == 3 {
        '3'
    } else if d == 4 {
        '4'
    } else if d == 5 {
        '5'
    } else if d == 6 {
        '6'
    } else if d == 7 {
        '7'
    } else if d == 8 {
        '8'
    } else {
        '9'
    }
}

/// Decimal text of `n`.
pub open spec fn nat_text(n: nat) -> Seq<char>
    decreases n,
{
    if n < 10 {
        seq![digit_char(n)]
    } else {
        nat_text(n / 10).push(digit_char(n % 10))
    }
}

/// Decimal text of `v`, with a leading `-` when it is negative.
pub open spec fn int_text(v: int) -> Seq<char> {
    if v < 0 {
        seq!['-'] + nat_text((-v) as nat)
    } else {
        nat_text(v as nat)
    }
}

fn push_nat_text(n: u128, out: &mut Vec<char>)
    ensures
        final(out)@ == old(out)@ + nat_text(n as nat),
    decreases n,
{
    if n >= 10 {
        push_nat_text(n / 10, out);
    }
    out.push(digit_char_of(n % 10));
    proof {
        if n < 10 {
            assert(old(out)@ + nat_text(n as nat) =~= old(out)@.push(digit_char(n as nat)));
        } else {
            assert(final(out)@ =~= old(out)@ + nat_text(n as nat));
        }
    }
}

/// Decimal text of `v`.
pub fn int_to_text(v: i128) -> (r: String)
    ensures
        r@ == int_text(v as int),
{
    let mut out: Vec<char> = Vec::new();
    if v < 0 {
        out.push('-');
        let m: u128 = ((-(v + 1)) as u128) + 1;
        push_nat_text(m, &mut out);
        assert(out@ =~= seq!['-'] + nat_text((-v) as nat));
    } else {
        push_nat_text(v as u128, &mut out);
        assert(out@ =~= nat_text(v as nat));
    }
    string_from_chars(&out)
}

/// `c` is one of `0` to `9`.
pub open spec fn is_ascii_digit(c: char) -> bool {
    '0' <= c <= '9'
}

/// Value of a run of ASCII digits.
pub open spec fn digits_value(s: Seq<char>) -> int
    decreases s.len(),
{
    if s.len() == 0 {
        0
    } else {
        digits_value(s.drop_last()) * 10 + (s.last() as int - '0' as int)
    }
}

/// Every code point of `t` is an ASCII digit.
pub open spec fn all_ascii_digits(t: Seq<char>) -> bool {
    forall|i: int| 0 <= i < t.len() ==> is_ascii_digit(#[trigger] t[i])
}

/// A leading `-` is a sign only for types with negative values.
pub open spec fn is_negative_number(s: Seq<char>, lo: int) -> bool {
    s.len() > 0 && s[0] == '-' && lo < 0
}

/// The digits of a number: what follows its sign.
pub open spec fn number_body(s: Seq<char>, lo: int) -> Seq<char> {
    if is_negative_number(s, lo) {
        s.skip(1)
    } else {
        s
    }
}

/// What std's `FromStr` gives for an integer type whose values are
/// `lo..=hi`: an optional `-` (for signed types only) and at least one ASCII
/// digit, with a value in range.
pub open spec fn from_str_value(s: Seq<char>, lo: int, hi: int) -> Option<int> {
    let body = number_body(s, lo);
    if body.len() > 0 && all_ascii_digits(body) {
        let v = if is_negative_number(s, lo) {
            -digits_value(body)
        } else {
            digits_value(body)
        };
        if lo <= v <= hi {
            Some(v)
        } else {
            None
        }
    } else {
        None
    }
}

proof fn lemma_digits_value_mono(s: Seq<char>, k: int)
    requires
        0 <= k <= s.len(),
        all_ascii_digits(s),
    ensures
        0 <= digits_value(s.take(k)) <= digits_value(s),
    decreases s.len(),
{
    if s.len() > 0 {
        if k == s.len() {
            assert(s.take(k) =~= s);
            lemma_digits_value_mono(s.drop_last(), k - 1);
            assert(s.drop_last().take(k - 1) =~= s.drop_last());
        } else {
            lemma_digits_value_mono(s.drop_last(), k);
            assert(s.drop_last().take(k) =~= s.take(k));
            lemma_digits_value_mono(s.drop_last(), s.len() - 1);
            assert(s.drop_last().take(s.len() - 1) =~= s.drop_last());
        }
    } else {
        assert(s.take(k) =~= s);
    }
}

proof fn lemma_from_str_not_digit(s: Seq<char>, lo: int, hi: int, j: int)
    requires
        0 <= j < number_body(s, lo).len(),
        !is_ascii_digit(number_body(s, lo)[j]),
    ensures
        from_str_value(s, lo, hi) is None,
{
}

proof fn lemma_from_str_too_big(s: Seq<char>, lo: int, hi: int, k: int)
    requires
        -0x1_0000_0000_0000_0000 <= lo <= 0 < hi <= 0x1_0000_0000_0000_0000,
        0 <= k <= number_body(s, lo).len(),
        digits_value(number_body(s, lo).take(k)) > 0x1_0000_0000_0000_0000,
    ensures
        from_str_value(s, lo, hi) is None,
{
    let body = number_body(s, lo);
    if body.len() > 0 && all_ascii_digits(body) {
        lemma_digits_value_mono(body, k);
    }
}

/// The value of `s` as std's `FromStr` reads it for a type whose values are
/// `lo..=hi`, if it is one.
pub fn parse_decimal(s: &Vec<char>, lo: i128, hi: i128) -> (r: Option<i128>)
    requires
        -0x1_0000_0000_0000_0000 <= lo <= 0 < hi <= 0x1_0000_0000_0000_0000,
    ensures
        r == (match from_str_value(s@, lo as int, hi as int) {
            Some(v) => Some(v as i128),
            None => None,
        }),
{
    let neg = s.len() > 0 && s[0] == '-' && lo < 0;
    let start: usize = if neg { 1 } else { 0 };
    let ghost body = number_body(s@, lo as int);
    if start >= s.len() {
        return None;
    }
    let mut acc: u128 = 0;
    let mut i: usize = start;
    while i < s.len()
        invariant
            start <= i <= s@.len(),
            neg == is_negative_number(s@, lo as int),
            start == (if neg { 1usize } else { 0usize }),
            body == number_body(s@, lo as int),
            -0x1_0000_0000_0000_0000 <= lo <= 0 < hi <= 0x1_0000_0000_0000_0000,
            acc == digits_value(body.take(i - start)),
            acc <= 0x1_0000_0000_0000_0000,
            forall|j: int| 0 <= j < i - start ==> is_ascii_digit(#[trigger] body[j]),
        decreases s@.len() - i,
    {
        let c = s[i];
        assert(body[i - start] == c);
        if !('0' <= c && c <= '9') {
            assert(!is_ascii_digit(body[i - start]));
            proof {
                lemma_from_str_not_digit(s@, lo as int, hi as int, i - start);
            }
            return None;
        }
        proof {
            let t = body.take(i - start + 1);
            assert(t.drop_last() =~= body.take(i - start));
            assert(t.last() == c);
        }
        acc = acc * 10 + ((c as u32 - '0' as u32) as u128);
        i += 1;
        assert(acc == digits_value(body.take(i - start)));
        if acc > 0x1_0000_0000_0000_0000 {
            proof {
                lemma_from_str_too_big(s@, lo as int, hi as int, i - start);
            }
            return None;
        }
    }
    proof {
        assert(body.take(i - start) =~= body);
    }
    let v: i128 = if neg { -(acc as i128) } else { acc as i128 };
    if lo <= v && v <= hi {
        Some(v)
    } else {
        None
    }
}

/// `"<word> <name>: <v>"`, or `"<word>: <v>"` for an unnamed argument.
pub open spec fn bound_reason(word: Seq<char>, name: Option<Seq<char>>, v: int) -> Seq<char> {
    match name {
        Some(n) => word + " "@ + n + ": "@ + int_text(v),
        None => word + ": "@ + int_text(v),
    }
}

/// `"<name: min-max>"`, with `" - "` between the bounds when `min` is
/// negative, and without `"name: "` for an unnamed argument.
pub open spec fn int_hint(min: int, max: int, name: Option<Seq<char>>) -> Seq<char> {
    let sep = if min < 0 { " - "@ } else { "-"@ };
    match name {
        Some(n) => "<"@ + n + ": "@ + int_text(min) + sep + int_text(max) + ">"@,
        None => "<"@ + int_text(min) + sep + int_text(max) + ">"@,
    }
}

/// What parsing `input` as an integer of a type with values `lo..=hi`,
/// bounded to `min..=max`, gives.
pub open spec fn int_outcome(
    input: Seq<char>,
    lo: int,
    hi: int,
    min: int,
    max: int,
    name: Option<Seq<char>>,
) -> ArgOutcome<int> {
    let hint = seq![int_hint(min, max, name)];
    match number_prefix(input) {
        None => ArgOutcome::Failed { parsed_up_to: 0, reason: hint },
        Some(e) => if e < input.len() {
            ArgOutcome::Failed { parsed_up_to: e, reason: hint }
        } else {
            match from_str_value(input, lo, hi) {
                None => ArgOutcome::Failed { parsed_up_to: input.len(), reason: hint },
                Some(v) => if v < min {
                    ArgOutcome::Failed {
                        parsed_up_to: input.len(),
                        reason: seq![bound_reason("min"@, name, min)],
                    }
                } else if v > max {
                    ArgOutcome::Failed {
                        parsed_up_to: input.len(),
                        reason: seq![bound_reason("max"@, name, max)],
                    }
                } else {
                    ArgOutcome::Parsed(v)
                },
            }
        },
    }
}

/// The outcome with the parsed value read as an integer.
pub open spec fn int_of_outcome<T: ArgInt>(r: ArgOutcome<T>) -> ArgOutcome<int> {
    match r {
        ArgOutcome::Parsed(v) => ArgOutcome::Parsed(v.to_int()),
        ArgOutcome::Failed { parsed_up_to, reason } => ArgOutcome::Failed { parsed_up_to, reason },
    }
}

/// Accepts a decimal integer within `[min, max]`, both ends included.
#[derive(PartialEq, Clone, Debug)]
pub struct PrimIntArgParser<T> {
    min: T,
    max: T,
    name: Option<String>,
}

impl<T: ArgInt> PrimIntArgParser<T> {
    pub closed spec fn min(&self) -> int {
        self.min.to_int()
    }

    pub closed spec fn max(&self) -> int {
        self.max.to_int()
    }

    pub closed spec fn name(&self) -> Option<Seq<char>> {
        match self.name {
            Some(n) => Some(n@),
            None => None,
        }
    }
}

/// The allowed range is every value of `T`.
pub fn prim_int<T: ArgInt>() -> (r: PrimIntArgParser<T>)
    ensures
        r.min() == T::lo(),
        r.max() == T::hi(),
        r.name() is None,
{
    PrimIntArgParser { min: T::lowest(), max: T::highest(), name: None }
}

/// The allowed range is `[min, max]`, both ends included.
pub fn prim_int_for_range<T: ArgInt>(min: T, max: T) -> (r: PrimIntArgParser<T>)
    ensures
        r.min() == min.to_int(),
        r.max() == max.to_int(),
        r.name() is None,
{
    PrimIntArgParser { min, max, name: None }
}

/// Every value of `T` is allowed; the name appears in hints and errors.
pub fn prim_int_with_name<T: ArgInt>(name: &str) -> (r: PrimIntArgParser<T>)
    ensures
        r.min() == T::lo(),
        r.max() == T::hi(),
        r.name() == Some(name@),
{
    PrimIntArgParser { min: T::lowest(), max: T::highest(), name: Some(name.to_owned()) }
}

/// The allowed range is `[min, max]`, both ends included; the name appears in
/// hints and errors.
pub fn prim_int_for_range_and_name<T: ArgInt>(min: T, max: T, name: &str) -> (r: PrimIntArgParser<T>)
    ensures
        r.min() == min.to_int(),
        r.max() == max.to_int(),
        r.name() == Some(name@),
{
    PrimIntArgParser { min, max, name: Some(name.to_owned()) }
}

fn bound_text(word: &str, name: &Option<String>, v: i128) -> (r: String)
    ensures
        r@ == bound_reason(word@, match name {
            Some(n) => Some(n@),
            None => None,
        }, v as int),
{
    let mut s = word.to_owned();
    match name {
        Some(n) => {
            s.append(" ");
            s.append(n.as_str());
        },
        None => {},
    }
    s.append(": ");
    let t = int_to_text(v);
    s.append(t.as_str());
    s
}

impl<T: ArgInt> PrimIntArgParser<T> {
    fn hint_text(&self) -> (r: String)
        ensures
            r@ == int_hint(self.min(), self.max(), self.name()),
    {
        let min = self.min.to_i128();
        let max = self.max.to_i128();
        let mut s = "<".to_owned();
        match &self.name {
            Some(n) => {
                s.append(n.as_str());
                s.append(": ");
            },
            None => {},
        }
        let t = int_to_text(min);
        s.append(t.as_str());
        if min < 0 {
            s.append(" - ");
        } else {
            s.append("-");
        }
        let t = int_to_text(max);
        s.append(t.as_str());
        s.append(">");
        s
    }
}

impl<T: ArgInt> ContextFreeArgParser<T> for PrimIntArgParser<T> {
    open spec fn wf(&self) -> bool {
        true
    }

    open spec fn parses_to(&self, input: Seq<char>, r: ArgOutcome<T>) -> bool {
        int_of_outcome(r) == int_outcome(input, T::lo(), T::hi(), self.min(), self.max(), self.name())
    }

    open spec fn suggestions_for(&self, prefix: Seq<char>) -> Seq<Seq<char>> {
        Seq::empty()
    }

    open spec fn hints(&self) -> Seq<Seq<char>> {
        seq![int_hint(self.min(), self.max(), self.name())]
    }

    fn parse(&self, input: &str) -> (r: ArgParseRes<T>) {
        let chars = str_chars(input);
        let ghost s = input@;
        let hint = self.hint();
        match find_number_prefix(input) {
            None => {
                ArgParseRes::Failed { parsed_up_to: 0, reason: hint }
            },
            Some(e_bytes) => {
                let ghost k = choose|k: int|
                    #![trigger byte_pos(s, k)]
                    {
                        &&& sign_len(s) < k <= s.len()
                        &&& e_bytes == byte_pos(s, k)
                        &&& forall|j: int| sign_len(s) <= j < k ==> regex_digit(#[trigger] s[j])
                        &&& (k == s.len() || !regex_digit(s[k]))
                    };
                proof {
                    assert(s.take(s.len() as int) =~= s);
                    assert(e_bytes == utf8_len(s.take(k)));
                }
                let e = char_index_of_byte(&chars, e_bytes);
                proof {
                    if e < k {
                        lemma_utf8_len_take_mono(s, e as int, k);
                    } else if k < e {
                        lemma_utf8_len_take_mono(s, k, e as int);
                    }
                    lemma_digit_run_end(s, sign_len(s), k as nat);
                }
                if e < chars.len() {
                    return ArgParseRes::Failed { parsed_up_to: e, reason: hint };
                }
                proof {
                    T::lemma_range(self.min);
                }
                let lo = T::lowest().to_i128();
                let hi = T::highest().to_i128();
                match parse_decimal(&chars, lo, hi) {
                    None => ArgParseRes::Failed { parsed_up_to: chars.len(), reason: hint },
                    Some(v) => {
                        let min = self.min.to_i128();
                        let max = self.max.to_i128();
                        if v < min {
                            let reason = vec![bound_text("min", &self.name, min)];
                            assert(views(reason@) =~= seq![bound_reason("min"@, self.name(), self.min())]);
                            ArgParseRes::Failed { parsed_up_to: chars.len(), reason }
                        } else if v > max {
                            let reason = vec![bound_text("max", &self.name, max)];
                            assert(views(reason@) =~= seq![bound_reason("max"@, self.name(), self.max())]);
                            ArgParseRes::Failed { parsed_up_to: chars.len(), reason }
                        } else {
                            ArgParseRes::Parsed(T::from_i128(v))
                        }
                    },
                }
            },
        }
    }

    fn suggestion(&self, prefix: &str) -> (r: Vec<String>) {
        let r: Vec<String> = Vec::new();
        assert(views(r@) =~= Seq::<Seq<char>>::empty());
        r
    }

    fn hint(&self) -> (r: Vec<String>) {
        let r = vec![self.hint_text()];
        assert(views(r@) =~= seq![int_hint(self.min(), self.max(), self.name())]);
        r
    }
}

} // verus!
