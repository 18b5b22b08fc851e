//! Character classes, trimming, splitting and decimal numbers on sequences of
//! characters.

use crate::scan::{find, lemma_find_is};
use vstd::prelude::*;
use vstd::string::{StrSliceExecFns, StringExecFns};

verus! {

/// Whether `c` is whitespace as Unicode defines it (White_Space).
pub open spec fn is_whitespace(c: char) -> bool {
    let u = c as u32;
    ||| 0x09 <= u <= 0x0D
    ||| u == 0x20
    ||| u == 0x85
    ||| u == 0xA0
    ||| u == 0x1680
    ||| 0x2000 <= u <= 0x200A
    ||| u == 0x2028
    ||| u == 0x2029
    ||| u == 0x202F
    ||| u == 0x205F
    ||| u == 0x3000
}

/// A set of characters that trimming can strip.
#[derive(Debug, Clone, Copy, PartialEq, Eq)]
pub enum CharClass {
    /// Whitespace as Unicode defines it.
    Whitespace,
    /// `(` and `)`.
    Parens,
    /// `"`.
    Quote,
}

impl CharClass {
    /// Whether `c` belongs to the class.
    pub open spec fn has(self, c: char) -> bool {
        match self {
            CharClass::Whitespace => is_whitespace(c),
            CharClass::Parens => c == '(' || c == ')',
            CharClass::Quote => c == '"',
        }
    }

    /// Whether `c` belongs to the class.
    pub fn contains(&self, c: char) -> (out: bool)
        ensures
            out == self.has(c),
    {
        match self {
            CharClass::Whitespace => {
                let u: u32 = c as u32;
                (0x09 <= u && u <= 0x0D) || u == 0x20 || u == 0x85 || u == 0xA0 || u == 0x1680 || (
                0x2000 <= u && u <= 0x200A) || u == 0x2028 || u == 0x2029 || u == 0x202F || u
                    == 0x205F || u == 0x3000
            },
            CharClass::Parens => c == '(' || c == ')',
            CharClass::Quote => c == '"',
        }
    }
}

/// `s` without its longest prefix of characters in `class`.
pub open spec fn trim_start_matches(s: Seq<char>, class: CharClass) -> Seq<char>
    decreases s.len(),
{
    if s.len() > 0 && class.has(s[0]) {
        trim_start_matches(s.drop_first(), class)
    } else {
        s
    }
}

/// `s` without its longest suffix of characters in `class`.
pub open spec fn trim_end_matches(s: Seq<char>, class: CharClass) -> Seq<char>
    decreases s.len(),
{
    if s.len() > 0 && class.has(s.last()) {
        trim_end_matches(s.drop_last(), class)
    } else {
        s
    }
}

/// `s` with the characters in `class` stripped from both ends.
pub open spec fn trim_matches(s: Seq<char>, class: CharClass) -> Seq<char> {
    trim_end_matches(trim_start_matches(s, class), class)
}

/// `s` without leading and trailing whitespace.
pub open spec fn trim(s: Seq<char>) -> Seq<char> {
    trim_matches(s, CharClass::Whitespace)
}

/// `s` without trailing whitespace.
pub open spec fn trim_end(s: Seq<char>) -> Seq<char> {
    trim_end_matches(s, CharClass::Whitespace)
}

/// Where the characters from index `k` on are all in the class and the one
/// before them is not, trimming the end leaves the first `k` characters.
pub proof fn lemma_trim_end_is(s: Seq<char>, class: CharClass, k: int)
    requires
        0 <= k <= s.len(),
        forall|i: int| k <= i < s.len() ==> class.has(#[trigger] s[i]),
        k > 0 ==> !class.has(s[k - 1]),
    ensures
        trim_end_matches(s, class) == s.take(k),
    decreases s.len() - k,
{
    if k < s.len() {
        lemma_trim_end_is(s.drop_last(), class, k);
    }
}

/// The first index at or after `lo` whose character is outside `class`, so
/// that the characters from there to `hi` are those from `lo` to `hi`
/// with the start trimmed.
pub(crate) fn trim_start_at(chars: &[char], lo: usize, hi: usize, class: CharClass) -> (out: usize)
    requires
        lo <= hi <= chars@.len(),
    ensures
        lo <= out <= hi,
        chars@.subrange(out as int, hi as int) == trim_start_matches(
            chars@.subrange(lo as int, hi as int),
            class,
        ),
{
    let mut at: usize = lo;
    while at < hi && class.contains(chars[at])
        invariant
            lo <= at <= hi <= chars@.len(),
            trim_start_matches(chars@.subrange(at as int, hi as int), class) == trim_start_matches(
                chars@.subrange(lo as int, hi as int),
                class,
            ),
        decreases hi - at,
    {
        assert(chars@.subrange(at as int, hi as int).drop_first() =~= chars@.subrange(
            at + 1,
            hi as int,
        ));
        at = at + 1;
    }
    at
}

/// The last index at or before `hi` whose preceding character is outside
/// `class`, so that the characters from `lo` to there are those from `lo` to
/// `hi` with the end trimmed.
pub(crate) fn trim_end_at(chars: &[char], lo: usize, hi: usize, class: CharClass) -> (out: usize)
    requires
        lo <= hi <= chars@.len(),
    ensures
        lo <= out <= hi,
        chars@.subrange(lo as int, out as int) == trim_end_matches(
            chars@.subrange(lo as int, hi as int),
            class,
        ),
{
    let mut at: usize = hi;
    while at > lo && class.contains(chars[at - 1])
        invariant
            lo <= at <= hi <= chars@.len(),
            trim_end_matches(chars@.subrange(lo as int, at as int), class) == trim_end_matches(
                chars@.subrange(lo as int, hi as int),
                class,
            ),
        decreases at - lo,
    {
        assert(chars@.subrange(lo as int, at as int).drop_last() =~= chars@.subrange(
            lo as int,
            at - 1,
        ));
        at = at - 1;
    }
    at
}

/// The pieces of `s` between occurrences of `sep`. There is always at least
/// one piece, and a piece may be empty.
pub open spec fn split(s: Seq<char>, sep: char) -> Seq<Seq<char>>
    decreases s.len(),
{
    let at = find(s, sep, 0);
    if 0 <= at < s.len() {
        seq![s.take(at)] + split(s.skip(at + 1), sep)
    } else {
        seq![s]
    }
}

/// The pieces of `chars` that the index pairs in `ranges` mark out.
pub open spec fn pieces(chars: Seq<char>, ranges: Seq<(usize, usize)>) -> Seq<Seq<char>> {
    ranges.map_values(|r: (usize, usize)| chars.subrange(r.0 as int, r.1 as int))
}

/// Splits the characters from `lo` to `hi` at each `sep` and returns the
/// index pairs of the pieces.
pub(crate) fn split_at(chars: &[char], lo: usize, hi: usize, sep: char) -> (out: Vec<
    (usize, usize),
>)
    requires
        lo <= hi <= chars@.len(),
    ensures
        pieces(chars@, out@) == split(chars@.subrange(lo as int, hi as int), sep),
        forall|i: int| 0 <= i < out@.len() ==> lo <= (#[trigger] out@[i]).0 <= out@[i].1 <= hi,
{
    let mut out: Vec<(usize, usize)> = Vec::new();
    let mut start: usize = lo;
    let mut at: usize = lo;
    while at < hi
        invariant
            lo <= start <= at <= hi <= chars@.len(),
            forall|k: int| start <= k < at ==> chars@[k] != sep,
            split(chars@.subrange(lo as int, hi as int), sep) == pieces(chars@, out@) + split(
                chars@.subrange(start as int, hi as int),
                sep,
            ),
            forall|i: int| 0 <= i < out@.len() ==> lo <= (#[trigger] out@[i]).0 <= out@[i].1 <= hi,
        decreases hi - at,
    {
        if chars[at] == sep {
            proof {
                let rest = chars@.subrange(start as int, hi as int);
                lemma_find_is(rest, sep, 0, at - start);
                assert(rest.take(at - start) =~= chars@.subrange(start as int, at as int));
                assert(rest.skip(at - start + 1) =~= chars@.subrange(at + 1, hi as int));
            }
            out.push((start, at));
            start = at + 1;
        }
        at = at + 1;
    }
    proof {
        let rest = chars@.subrange(start as int, hi as int);
        lemma_find_is(rest, sep, 0, rest.len() as int);
    }
    out.push((start, hi));
    out
}

/// Whether `c` is one of the digits `0` to `9`.
pub open spec fn is_digit(c: char) -> bool {
    0x30 <= c as u32 <= 0x39
}

/// Whether every character of `s` is a digit.
pub open spec fn all_digits(s: Seq<char>) -> bool {
    forall|i: int| 0 <= i < s.len() ==> is_digit(#[trigger] s[i])
}

/// The number that the digits of `s` write in base ten.
pub open spec fn decimal_value(s: Seq<char>) -> int
    decreases s.len(),
{
    if s.len() == 0 {
        0
    } else {
        decimal_value(s.drop_last()) * 10 + (s.last() as u32 - 0x30)
    }
}

/// The number that `s` writes, as the standard parser for unsigned 32-bit
/// integers reads it: an optional `+`, then at least one digit, nothing else,
/// and a value of at most `u32::MAX`.
pub open spec fn parse_u32(s: Seq<char>) -> Option<u32> {
    let digits = if s.len() > 0 && s[0] == '+' {
        s.drop_first()
    } else {
        s
    };
    if digits.len() > 0 && all_digits(digits) && decimal_value(digits) <= u32::MAX {
        Some(decimal_value(digits) as u32)
    } else {
        None
    }
}

/// A longer run of digits never writes a smaller number than its start does.
pub proof fn lemma_decimal_value_grows(s: Seq<char>, k: int)
    requires
        all_digits(s),
        0 <= k <= s.len(),
    ensures
        0 <= decimal_value(s.take(k)) <= decimal_value(s),
    decreases s.len() - k,
{
    if k == s.len() {
        assert(s.take(k) =~= s);
        lemma_decimal_value_nonnegative(s);
    } else {
        lemma_decimal_value_grows(s, k + 1);
        lemma_decimal_value_nonnegative(s.take(k));
        assert(s.take(k + 1).drop_last() =~= s.take(k));
    }
}

/// Digits write a number that is not negative.
pub proof fn lemma_decimal_value_nonnegative(s: Seq<char>)
    requires
        all_digits(s),
    ensures
        0 <= decimal_value(s),
    decreases s.len(),
{
    if s.len() > 0 {
        lemma_decimal_value_nonnegative(s.drop_last());
    }
}

/// Reads the characters from `lo` to `hi` as an unsigned 32-bit integer.
pub(crate) fn parse_u32_at(chars: &[char], lo: usize, hi: usize) -> (out: Option<u32>)
    requires
        lo <= hi <= chars@.len(),
    ensures
        out == parse_u32(chars@.subrange(lo as int, hi as int)),
{
    let ghost whole = chars@.subrange(lo as int, hi as int);
    let mut at: usize = lo;
    if at < hi && chars[at] == '+' {
        at = at + 1;
    }
    let start: usize = at;
    let ghost digits = chars@.subrange(start as int, hi as int);
    if at == hi {
        return None;
    }
    let mut value: u32 = 0;
    while at < hi
        invariant
            lo <= start <= at <= hi <= chars@.len(),
            whole == chars@.subrange(lo as int, hi as int),
            digits == chars@.subrange(start as int, hi as int),
            digits == if whole.len() > 0 && whole[0] == '+' {
                whole.drop_first()
            } else {
                whole
            },
            all_digits(digits.take(at - start)),
            value == decimal_value(digits.take(at - start)),
        decreases hi - at,
    {
        let code: u32 = chars[at] as u32;
        if code < 0x30 || code > 0x39 {
            assert(!is_digit(digits[at - start]));
            return None;
        }
        let next: u64 = value as u64 * 10 + (code - 0x30) as u64;
        proof {
            assert(digits.take(at - start + 1).drop_last() =~= digits.take(at - start));
        }
        if next > u32::MAX as u64 {
            proof {
                if all_digits(digits) {
                    lemma_decimal_value_grows(digits, at - start + 1);
                }
            }
            return None;
        }
        value = next as u32;
        at = at + 1;
    }
    assert(digits.take(at - start) =~= digits);
    Some(value)
}

/// Trims the characters from `lo` to `hi` at both ends and returns the index
/// pair of what is left.
pub(crate) fn trim_at(chars: &[char], lo: usize, hi: usize, class: CharClass) -> (out: (
    usize,
    usize,
))
    requires
        lo <= hi <= chars@.len(),
    ensures
        lo <= out.0 <= out.1 <= hi,
        chars@.subrange(out.0 as int, out.1 as int) == trim_matches(
            chars@.subrange(lo as int, hi as int),
            class,
        ),
{
    let start: usize = trim_start_at(chars, lo, hi, class);
    let end: usize = trim_end_at(chars, start, hi, class);
    (start, end)
}

/// The characters of `s`, one by one.
pub(crate) fn chars_of(s: &str) -> (out: Vec<char>)
    ensures
        out@ == s@,
{
    let mut out: Vec<char> = Vec::new();
    for c in it: s.chars()
        invariant
            it.seq() == s@,
            out@ == s@.take(it.index() as int),
    {
        out.push(c);
    }
    out
}

/// The characters of `s` from index `from` to index `to`, as a string of
/// their own.
pub(crate) fn substring(s: &str, from: usize, to: usize) -> (out: String)
    requires
        from <= to <= s@.len(),
    ensures
        out@ == s@.subrange(from as int, to as int),
{
    String::from_str(s.substring_char(from, to))
}

/// The first index at or after `from` whose character is no whitespace, or
/// `s.len()` when there is none.
pub open spec fn skip_whitespace(s: Seq<char>, from: int) -> int
    decreases s.len() - from,
{
    if 0 <= from < s.len() && is_whitespace(s[from]) {
        skip_whitespace(s, from + 1)
    } else {
        from
    }
}

/// The first index at or after `from` whose character is whitespace, or
/// `s.len()` when there is none.
pub open spec fn word_end(s: Seq<char>, from: int) -> int
    decreases s.len() - from,
{
    if 0 <= from < s.len() && !is_whitespace(s[from]) {
        word_end(s, from + 1)
    } else {
        from
    }
}

/// The words of `s` from index `from` on: the longest runs of characters
/// that are no whitespace, in order.
pub open spec fn words_from(s: Seq<char>, from: int) -> Seq<Seq<char>>
    decreases s.len() - from,
{
    let start = skip_whitespace(s, from);
    let end = word_end(s, start);
    if from <= start < end <= s.len() {
        seq![s.subrange(start, end)] + words_from(s, end)
    } else {
        Seq::empty()
    }
}

/// The words of `s`: the longest runs of characters that are no whitespace,
/// in order. No word is empty.
pub open spec fn split_whitespace(s: Seq<char>) -> Seq<Seq<char>> {
    words_from(s, 0)
}

/// Finds the words of `chars` and returns their index pairs.
pub(crate) fn split_whitespace_at(chars: &[char]) -> (out: Vec<(usize, usize)>)
    ensures
        pieces(chars@, out@) == split_whitespace(chars@),
        forall|i: int| 0 <= i < out@.len() ==> (#[trigger] out@[i]).0 < out@[i].1 <= chars@.len(),
{
    let mut out: Vec<(usize, usize)> = Vec::new();
    let mut at: usize = 0;
    loop
        invariant
            0 <= at <= chars@.len(),
            split_whitespace(chars@) == pieces(chars@, out@) + words_from(chars@, at as int),
            forall|i: int|
                0 <= i < out@.len() ==> (#[trigger] out@[i]).0 < out@[i].1 <= chars@.len(),
        ensures
            split_whitespace(chars@) == pieces(chars@, out@),
            forall|i: int|
                0 <= i < out@.len() ==> (#[trigger] out@[i]).0 < out@[i].1 <= chars@.len(),
        decreases chars@.len() - at,
    {
        let from: usize = at;
        while at < chars.len() && CharClass::Whitespace.contains(chars[at])
            invariant
                from <= at <= chars@.len(),
                skip_whitespace(chars@, at as int) == skip_whitespace(chars@, from as int),
            decreases chars@.len() - at,
        {
            at = at + 1;
        }
        let start: usize = at;
        while at < chars.len() && !CharClass::Whitespace.contains(chars[at])
            invariant
                start <= at <= chars@.len(),
                word_end(chars@, at as int) == word_end(chars@, start as int),
            decreases chars@.len() - at,
        {
            at = at + 1;
        }
        if start == at {
            break ;
        }
        out.push((start, at));
    }
    out
}

} // verus!
