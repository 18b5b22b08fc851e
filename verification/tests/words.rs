use record_decoder::words::{
    count_in, count_words, remove_matches, tally_words, CountError, Settings, WordCount, NUMBERS,
    PUNCTUATION,
};

fn wc(word: &str, count: u32) -> WordCount {
    WordCount { word: word.to_string(), count }
}

fn plain() -> Settings {
    Settings { case_sensitive: true, remove_punctuation: false, remove_numbers: false }
}

#[test]
fn words_default_settings() {
    let settings = Settings::default();
    assert!(!settings.case_sensitive);
    assert!(settings.remove_punctuation);
    assert!(settings.remove_numbers);
}

#[test]
fn words_patterns() {
    assert_eq!(PUNCTUATION, r"[^\w\s]");
    assert_eq!(NUMBERS, r"\d+");
}

#[test]
fn words_tally_counts_in_order_of_first_occurrence() {
    let words: Vec<String> =
        ["b", "a", "b", "c", "a", "b"].iter().map(|w| w.to_string()).collect();
    assert_eq!(tally_words(&words), vec![wc("b", 3), wc("a", 2), wc("c", 1)]);
    assert_eq!(tally_words(&vec![]), vec![]);
    assert_eq!(tally_words(&vec![String::new(), String::new()]), vec![wc("", 2)]);
}

#[test]
fn words_are_split_at_any_whitespace() {
    let counts = count_in(&plain(), "  one\ttwo\n\nthree\u{3000}one\r\n");
    assert_eq!(counts, vec![wc("one", 2), wc("two", 1), wc("three", 1)]);
    assert_eq!(count_in(&plain(), ""), vec![]);
    assert_eq!(count_in(&plain(), " \n\t "), vec![]);
    assert_eq!(count_in(&plain(), "word"), vec![wc("word", 1)]);
}

#[test]
fn words_split_as_the_standard_library_splits() {
    let text = "\u{85}a b\u{A0}c\u{1680}d\u{2000}e\u{200A}f\u{2028}g\u{2029}h\u{202F}i\u{205F}j\u{200B}k\u{FEFF}l";
    let expected: Vec<WordCount> = text.split_whitespace().map(|w| wc(w, 1)).collect();
    assert_eq!(count_in(&plain(), text), expected);
}

#[test]
fn words_case_matters_only_when_asked() {
    let folding = Settings { case_sensitive: false, ..plain() };
    assert_eq!(count_in(&plain(), "The the THE"), vec![wc("The", 1), wc("the", 1), wc("THE", 1)]);
    assert_eq!(count_in(&folding, "The the THE"), vec![wc("the", 3)]);
    assert_eq!(count_in(&folding, "ÄRGER ärger Ärger"), vec![wc("ärger", 3)]);
}

#[test]
fn words_punctuation_is_stripped_when_asked() {
    let settings = Settings { remove_punctuation: true, ..plain() };
    assert_eq!(
        count_words(&settings, "Hello, world! Hello... (world)"),
        Ok(vec![wc("Hello", 2), wc("world", 2)])
    );
    assert_eq!(count_words(&settings, "don't stop"), Ok(vec![wc("dont", 1), wc("stop", 1)]));
    assert_eq!(count_words(&settings, "snake_case x-y"), Ok(vec![wc("snake_case", 1), wc("xy", 1)]));
    assert_eq!(
        count_words(&plain(), "Hello, world! Hello"),
        Ok(vec![wc("Hello,", 1), wc("world!", 1), wc("Hello", 1)])
    );
}

#[test]
fn words_numbers_are_stripped_when_asked() {
    let settings = Settings { remove_numbers: true, ..plain() };
    assert_eq!(
        count_words(&settings, "route 66 and 7up and a1b2"),
        Ok(vec![wc("route", 1), wc("and", 2), wc("up", 1), wc("ab", 1)])
    );
    assert_eq!(count_words(&settings, "١٢٣ 456"), Ok(vec![]));
    assert_eq!(
        count_words(&plain(), "route 66"),
        Ok(vec![wc("route", 1), wc("66", 1)])
    );
}

#[test]
fn words_with_default_settings() {
    assert_eq!(
        count_words(&Settings::default(), "The cat, the 2 dogs & THE cat's 3rd toy."),
        Ok(vec![wc("the", 3), wc("cat", 1), wc("dogs", 1), wc("cats", 1), wc("rd", 1), wc("toy", 1)])
    );
    assert_eq!(count_words(&Settings::default(), ""), Ok(vec![]));
    assert_eq!(count_words(&Settings::default(), "?! 42 ..."), Ok(vec![]));
}

#[test]
fn words_matches_of_a_pattern_are_removed() {
    assert_eq!(remove_matches("a+", "caaandy bar"), Ok("cndy br".to_string()));
    assert_eq!(remove_matches(PUNCTUATION, "a.b, c!"), Ok("ab c".to_string()));
    assert_eq!(remove_matches(NUMBERS, "a1b22c333"), Ok("abc".to_string()));
    assert_eq!(remove_matches("x", "nothing here"), Ok("nothing here".to_string()));
    assert_eq!(remove_matches("", "kept"), Ok("kept".to_string()));
}

#[test]
fn words_a_pattern_that_is_none_is_an_error() {
    assert_eq!(remove_matches("(", "text"), Err(CountError::Pattern));
    assert_eq!(remove_matches("[a", "text"), Err(CountError::Pattern));
    assert_eq!(remove_matches(r"\w{100000}", "text"), Err(CountError::Pattern));
}

#[test]
fn words_counts_do_not_depend_on_the_order_of_the_words() {
    let one: Vec<String> = ["b", "a", "b", "c", "a", "b"].iter().map(|w| w.to_string()).collect();
    let other: Vec<String> = ["c", "b", "b", "a", "b", "a"].iter().map(|w| w.to_string()).collect();
    let mut first = tally_words(&one);
    let mut second = tally_words(&other);
    assert_eq!(second, vec![wc("c", 1), wc("b", 3), wc("a", 2)]);
    first.sort_by(|x, y| x.word.cmp(&y.word));
    second.sort_by(|x, y| x.word.cmp(&y.word));
    assert_eq!(first, second);
}

#[test]
fn words_with_nothing_to_strip_are_always_counted() {
    assert_eq!(
        count_words(&plain(), "a( b[ a( \\w{100000}"),
        Ok(vec![wc("a(", 2), wc("b[", 1), wc("\\w{100000}", 1)])
    );
}
