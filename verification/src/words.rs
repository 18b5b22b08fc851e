//! Counting how often each word occurs in a text.
//!
//! A text is first stripped of punctuation and of numbers, as the settings
//! ask, then split into words at whitespace. Words are counted as they stand
//! or, when case does not matter, in lower case.

use crate::chars::{chars_of, pieces, split_whitespace, split_whitespace_at, substring};
use regex::Regex;
use vstd::prelude::*;
use vstd::string::StringExecFns;

verus! {

/// What to do to a text before its words are counted.
#[derive(Debug, Clone, Copy, PartialEq, Eq)]
pub struct Settings {
    /// Count `Word` and `word` as two words.
    pub case_sensitive: bool,
    /// Strip every character that is neither part of a word nor whitespace.
    pub remove_punctuation: bool,
    /// Strip every run of digits.
    pub remove_numbers: bool,
}

impl Default for Settings {
    /// Case does not matter; punctuation and numbers are stripped.
    fn default() -> (out: Self)
        ensures
            !out.case_sensitive,
            out.remove_punctuation,
            out.remove_numbers,
    {
        Settings { case_sensitive: false, remove_punctuation: true, remove_numbers: true }
    }
}

/// A word and the number of times it occurs.
#[derive(Debug, Clone, PartialEq, Eq)]
pub struct WordCount {
    pub word: String,
    pub count: u32,
}

/// A word and the number of times it occurs, as the contracts see them.
pub struct WordCountModel {
    pub word: Seq<char>,
    pub count: int,
}

impl View for WordCount {
    type V = WordCountModel;

    open spec fn view(&self) -> WordCountModel {
        WordCountModel { word: self.word@, count: self.count as int }
    }
}

/// The models of a sequence of counts.
pub open spec fn models(counts: Seq<WordCount>) -> Seq<WordCountModel> {
    counts.map_values(|c: WordCount| c@)
}

/// The texts of a sequence of strings.
pub open spec fn texts(strings: Seq<String>) -> Seq<Seq<char>> {
    strings.map_values(|s: String| s@)
}

/// The number of times that `word` occurs among `words`.
pub open spec fn count_of(words: Seq<Seq<char>>, word: Seq<char>) -> nat
    decreases words.len(),
{
    if words.len() == 0 {
        0
    } else {
        count_of(words.drop_last(), word) + if words.last() == word {
            1nat
        } else {
            0nat
        }
    }
}

/// The words that occur among `words`, each once, in the order in which they
/// first occur.
pub open spec fn distinct(words: Seq<Seq<char>>) -> Seq<Seq<char>>
    decreases words.len(),
{
    if words.len() == 0 {
        Seq::empty()
    } else if distinct(words.drop_last()).contains(words.last()) {
        distinct(words.drop_last())
    } else {
        distinct(words.drop_last()).push(words.last())
    }
}

/// The count that is kept for `word`: the number of times it occurs, or
/// `u32::MAX` when that is more than a count can hold.
pub open spec fn tally_of(words: Seq<Seq<char>>, word: Seq<char>) -> WordCountModel {
    WordCountModel {
        word,
        count: if count_of(words, word) <= u32::MAX {
            count_of(words, word) as int
        } else {
            u32::MAX as int
        },
    }
}

/// Each word that occurs among `words` with its count, in the order in which
/// the words first occur.
pub open spec fn tally(words: Seq<Seq<char>>) -> Seq<WordCountModel> {
    distinct(words).map_values(|word: Seq<char>| tally_of(words, word))
}

/// A word that does not occur has the count zero.
pub proof fn lemma_count_of_absent(words: Seq<Seq<char>>, word: Seq<char>)
    requires
        !words.contains(word),
    ensures
        count_of(words, word) == 0,
    decreases words.len(),
{
    if words.len() > 0 {
        lemma_count_of_absent(words.drop_last(), word);
    }
}

/// `distinct` keeps every word that occurs and adds none.
pub proof fn lemma_distinct_contains(words: Seq<Seq<char>>, word: Seq<char>)
    ensures
        distinct(words).contains(word) <==> words.contains(word),
    decreases words.len(),
{
    if words.len() > 0 {
        let front = words.drop_last();
        let last = words.last();
        lemma_distinct_contains(front, word);
        if distinct(words).contains(word) {
            let i = choose|i: int| 0 <= i < distinct(words).len() && distinct(words)[i] == word;
            if i < distinct(front).len() {
                assert(distinct(front)[i] == word);
                assert(distinct(front).contains(word));
                let j = choose|j: int| 0 <= j < front.len() && front[j] == word;
                assert(words[j] == word);
            } else {
                assert(words[words.len() - 1] == word);
            }
        }
        if words.contains(word) {
            let j = choose|j: int| 0 <= j < words.len() && words[j] == word;
            if j < front.len() {
                assert(front[j] == word);
                assert(front.contains(word));
                let i = choose|i: int| 0 <= i < distinct(front).len() && distinct(front)[i] == word;
                assert(distinct(words)[i] == word);
            } else if !distinct(front).contains(last) {
                assert(distinct(words)[distinct(front).len() as int] == last);
            }
        }
    }
}

/// `distinct` holds no word twice.
pub proof fn lemma_distinct_no_duplicates(words: Seq<Seq<char>>)
    ensures
        distinct(words).no_duplicates(),
    decreases words.len(),
{
    if words.len() > 0 {
        lemma_distinct_no_duplicates(words.drop_last());
    }
}

/// The count of a word is the number of times it occurs in the words taken
/// as a multiset.
pub proof fn lemma_count_of_is_multiset_count(words: Seq<Seq<char>>, word: Seq<char>)
    ensures
        count_of(words, word) == words.to_multiset().count(word),
    decreases words.len(),
{
    if words.len() == 0 {
        words.to_multiset_ensures();
        assert(!words.contains(word));
    } else {
        let front = words.drop_last();
        lemma_count_of_is_multiset_count(front, word);
        front.to_multiset_ensures();
        assert(front.push(words.last()) =~= words);
    }
}

/// The counts do not depend on the order of the words: two lists with the
/// same words, each as often in one as in the other, give every word the same
/// count and give the same set of counts.
pub proof fn lemma_counts_ignore_order(a: Seq<Seq<char>>, b: Seq<Seq<char>>)
    requires
        a.to_multiset() == b.to_multiset(),
    ensures
        forall|word: Seq<char>| tally_of(a, word) == tally_of(b, word),
        tally(a).to_set() == tally(b).to_set(),
{
    assert forall|word: Seq<char>| tally_of(a, word) == tally_of(b, word) by {
        lemma_count_of_is_multiset_count(a, word);
        lemma_count_of_is_multiset_count(b, word);
    }
    assert forall|entry: WordCountModel| tally(a).contains(entry) <==> tally(b).contains(
        entry,
    ) by {
        if tally(a).contains(entry) {
            lemma_entry_moves(a, b, entry);
        }
        if tally(b).contains(entry) {
            lemma_entry_moves(b, a, entry);
        }
    }
    assert(tally(a).to_set() =~= tally(b).to_set());
}

proof fn lemma_entry_moves(a: Seq<Seq<char>>, b: Seq<Seq<char>>, entry: WordCountModel)
    requires
        a.to_multiset() == b.to_multiset(),
        tally(a).contains(entry),
    ensures
        tally(b).contains(entry),
{
    let i = choose|i: int| 0 <= i < tally(a).len() && tally(a)[i] == entry;
    let word = distinct(a)[i];
    assert(distinct(a).contains(word));
    lemma_distinct_contains(a, word);
    lemma_distinct_contains(b, word);
    a.to_multiset_ensures();
    b.to_multiset_ensures();
    assert(a.to_multiset().count(word) > 0);
    assert(b.contains(word));
    lemma_count_of_is_multiset_count(a, word);
    lemma_count_of_is_multiset_count(b, word);
    let j = choose|j: int| 0 <= j < distinct(b).len() && distinct(b)[j] == word;
    assert(tally(b)[j] == entry);
}

/// Counts the words of a list.
///
/// Each word of the list comes out once, with the number of times it occurs
/// in the list, in the order in which the words first occur. A count stops at
/// `u32::MAX`.
pub fn tally_words(words: &Vec<String>) -> (out: Vec<WordCount>)
    ensures
        models(out@) == tally(texts(words@)),
{
    let mut out: Vec<WordCount> = Vec::new();
    let mut i: usize = 0;
    while i < words.len()
        invariant
            0 <= i <= words@.len(),
            models(out@) == tally(texts(words@).take(i as int)),
        decreases words@.len() - i,
    {
        let ghost seen = texts(words@).take(i as int);
        let ghost next = texts(words@).take(i + 1);
        let ghost word = words@[i as int]@;
        proof {
            assert(next.drop_last() =~= seen);
            lemma_distinct_no_duplicates(seen);
            lemma_distinct_contains(seen, word);
            assert(models(out@).len() == distinct(seen).len());
        }
        let mut j: usize = 0;
        while j < out.len() && !out[j].word.eq(&words[i])
            invariant
                0 <= j <= out@.len(),
                0 <= i < words@.len(),
                word == words@[i as int]@,
                models(out@) == tally(seen),
                out@.len() == distinct(seen).len(),
                forall|k: int| 0 <= k < j ==> distinct(seen)[k] != word,
            decreases out@.len() - j,
        {
            assert(models(out@)[j as int] == out@[j as int]@);
            j = j + 1;
        }
        if j < out.len() {
            let count: u32 = out[j].count;
            let bumped: u32 = if count < u32::MAX {
                count + 1
            } else {
                count
            };
            let entry = WordCount { word: words[i].clone(), count: bumped };
            proof {
                assert(models(out@)[j as int] == out@[j as int]@);
                assert(models(out@.update(j as int, entry)) =~= tally(next)) by {
                    assert forall|k: int| 0 <= k < out@.len() implies models(
                        out@.update(j as int, entry),
                    )[k] == tally(next)[k] by {
                        assert(models(out@)[k] == out@[k]@);
                    }
                }
            }
            out.set(j, entry);
        } else {
            let entry = WordCount { word: words[i].clone(), count: 1 };
            proof {
                lemma_count_of_absent(seen, word);
                assert(models(out@.push(entry)) =~= tally(next)) by {
                    assert forall|k: int| 0 <= k < out@.len() + 1 implies models(
                        out@.push(entry),
                    )[k] == tally(next)[k] by {
                        if k < out@.len() {
                            assert(models(out@)[k] == out@[k]@);
                        }
                    }
                }
            }
            out.push(entry);
        }
        i = i + 1;
    }
    assert(texts(words@).take(i as int) =~= texts(words@));
    out
}

/// The error type of the regular expression engine.
#[verifier::external_type_specification]
#[verifier::external_body]
pub struct ExRegexError(regex::Error);

/// What `Regex::replace_all(text, with)` gives for the regular expression
/// that `Regex::new` compiles from `pattern`: `text` with every match
/// replaced by `with`, after `$1`, `$name` and the like in `with` have been
/// filled in with what the groups of the match captured. It says nothing of
/// a pattern that the engine does not accept.
pub uninterp spec fn regex_replace_all(
    pattern: Seq<char>,
    text: Seq<char>,
    with: Seq<char>,
) -> Seq<char>;

/// Compiles `pattern` with `Regex::new` and calls `Regex::replace_all` on
/// `text`.
///
/// Trusted, not proved: where the engine accepts the pattern, what comes out
/// depends on the three arguments alone. Whether it accepts a pattern is not
/// stated: the engine bounds the size of what it compiles, and that size
/// depends on the machine.
#[verifier::external_body]
pub(crate) fn replace_all(pattern: &str, text: &str, with: &str) -> (out: Result<
    String,
    regex::Error,
>)
    ensures
        out matches Ok(replaced) ==> replaced@ == regex_replace_all(pattern@, text@, with@),
{
    match Regex::new(pattern) {
        Ok(re) => Ok(re.replace_all(text, with).into_owned()),
        Err(error) => Err(error),
    }
}

/// What `str::to_lowercase` makes of `text`.
pub uninterp spec fn lowercase(text: Seq<char>) -> Seq<char>;

/// Calls `str::to_lowercase`.
///
/// Trusted, not proved: what comes out depends on the text alone.
#[verifier::external_body]
pub(crate) fn to_lowercase(text: &str) -> (out: String)
    ensures
        out@ == lowercase(text@),
{
    text.to_lowercase()
}

/// The pattern that matches one character of punctuation: one that is neither
/// part of a word nor whitespace.
pub const PUNCTUATION: &'static str = "[^\\w\\s]";

/// The pattern that matches a run of digits.
pub const NUMBERS: &'static str = "\\d+";

/// Why the words of a text could not be counted.
#[derive(Debug, Clone, Copy, PartialEq, Eq)]
pub enum CountError {
    /// The regular expression engine did not accept one of the patterns.
    Pattern,
}

/// `text` without the matches of `pattern`.
pub open spec fn without_matches(pattern: Seq<char>, text: Seq<char>) -> Seq<char> {
    regex_replace_all(pattern, text, Seq::empty())
}

/// Strips every match of the regular expression `pattern` from `text`.
///
/// Fails with `Pattern` when the engine does not accept `pattern`; whether it
/// does is for the engine to say.
pub fn remove_matches(pattern: &str, text: &str) -> (out: Result<String, CountError>)
    ensures
        match out {
            Ok(stripped) => stripped@ == without_matches(pattern@, text@),
            Err(error) => error == CountError::Pattern,
        },
{
    proof {
        reveal_strlit("");
        assert(""@ =~= Seq::<char>::empty());
    }
    match replace_all(pattern, text, "") {
        Ok(stripped) => Ok(stripped),
        Err(_) => Err(CountError::Pattern),
    }
}

/// `text` without what the settings ask to strip: punctuation first, then
/// numbers.
pub open spec fn stripped(settings: Settings, text: Seq<char>) -> Seq<char> {
    let unpunctuated = if settings.remove_punctuation {
        without_matches(PUNCTUATION@, text)
    } else {
        text
    };
    if settings.remove_numbers {
        without_matches(NUMBERS@, unpunctuated)
    } else {
        unpunctuated
    }
}

/// The form in which `word` is counted.
pub open spec fn folded(settings: Settings, word: Seq<char>) -> Seq<char> {
    if settings.case_sensitive {
        word
    } else {
        lowercase(word)
    }
}

/// The words of `text` in the form in which they are counted.
pub open spec fn words_of(settings: Settings, text: Seq<char>) -> Seq<Seq<char>> {
    split_whitespace(text).map_values(|word: Seq<char>| folded(settings, word))
}

/// Counts the words of a text that has been stripped already.
///
/// The text is split at whitespace. Each word comes out once, in lower case
/// unless case matters, with the number of times it occurs, in the order in
/// which the words first occur.
pub fn count_in(settings: &Settings, text: &str) -> (out: Vec<WordCount>)
    ensures
        models(out@) == tally(words_of(*settings, text@)),
{
    let chars = chars_of(text);
    let ranges = split_whitespace_at(chars.as_slice());
    let mut words: Vec<String> = Vec::new();
    let mut i: usize = 0;
    while i < ranges.len()
        invariant
            0 <= i <= ranges@.len(),
            chars@ == text@,
            pieces(chars@, ranges@) == split_whitespace(text@),
            forall|k: int|
                0 <= k < ranges@.len() ==> (#[trigger] ranges@[k]).0 < ranges@[k].1 <= chars@.len(),
            texts(words@) == words_of(*settings, text@).take(i as int),
        decreases ranges@.len() - i,
    {
        let range = ranges[i];
        let word = substring(text, range.0, range.1);
        let word = if settings.case_sensitive {
            word
        } else {
            to_lowercase(word.as_str())
        };
        proof {
            assert(texts(words@.push(word)) =~= texts(words@).push(word@));
        }
        words.push(word);
        i = i + 1;
    }
    assert(words_of(*settings, text@).take(i as int) =~= words_of(*settings, text@));
    tally_words(&words)
}

/// Counts the words of a text.
///
/// Punctuation and numbers are stripped first, as the settings ask. Where
/// nothing is to be stripped the count always succeeds. It fails, with
/// `Pattern`, only when the regular expression engine does not accept a
/// pattern that is needed.
pub fn count_words(settings: &Settings, contents: &str) -> (out: Result<Vec<WordCount>, CountError>)
    ensures
        match out {
            Ok(counts) => models(counts@) == tally(
                words_of(*settings, stripped(*settings, contents@)),
            ),
            Err(error) => error == CountError::Pattern && (settings.remove_punctuation
                || settings.remove_numbers),
        },
{
    let mut text = String::from_str(contents);
    if settings.remove_punctuation {
        text = match remove_matches(PUNCTUATION, text.as_str()) {
            Ok(kept) => kept,
            Err(error) => {
                return Err(error);
            },
        };
    }
    if settings.remove_numbers {
        text = match remove_matches(NUMBERS, text.as_str()) {
            Ok(kept) => kept,
            Err(error) => {
                return Err(error);
            },
        };
    }
    Ok(count_in(settings, text.as_str()))
}

} // verus!
