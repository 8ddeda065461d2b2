use autoreply::search::fuzzy::{FuzzyMatcher, MatchType};

#[test]
fn test_exact_match() {
    let matcher = FuzzyMatcher::new();
    assert!(matcher.exact_match("hello world", "hello"));
    assert!(matcher.exact_match("hello world", "world"));
    assert!(matcher.exact_match("hello world", "o w"));
    assert!(!matcher.exact_match("hello world", "xyz"));
}

#[test]
fn test_exact_match_case_insensitive() {
    let matcher = FuzzyMatcher::new();
    assert!(matcher.exact_match("Hello World", "hello"));
    assert!(matcher.exact_match("HELLO WORLD", "world"));
}

#[test]
fn test_fuzzy_match_basic() {
    let mut matcher = FuzzyMatcher::new();
    let result = matcher.fuzzy_match("hello world", "hlo");
    assert!(result.is_some());
    let m = result.unwrap();
    assert!(m.score > 0);
}

#[test]
fn test_fuzzy_match_no_match() {
    let mut matcher = FuzzyMatcher::new();
    let result = matcher.fuzzy_match("hello world", "xyz");
    assert!(result.is_none());
}

#[test]
fn test_match_type_full_word() {
    let mut matcher = FuzzyMatcher::new();
    let result = matcher.fuzzy_match("hello world test", "world");
    assert!(result.is_some());
}

#[test]
fn test_unicode_normalization() {
    let mut matcher = FuzzyMatcher::new();
    let result = matcher.fuzzy_match("café", "cafe");
    assert!(result.is_some() || matcher.exact_match("café", "café"));
}

#[test]
fn test_empty_needle() {
    let mut matcher = FuzzyMatcher::new();
    let result = matcher.fuzzy_match("hello", "");
    assert!(result.is_none());
}

#[test]
fn exact_match_never_for_an_empty_needle() {
    let matcher = FuzzyMatcher::new();
    assert!(!matcher.exact_match("anything", ""));
}

#[test]
fn fuzzy_match_reports_positions_and_word_place() {
    let mut matcher = FuzzyMatcher::new();
    let m = matcher.fuzzy_match("hello world test", "world").unwrap();
    assert_eq!(m.positions, vec![6, 7, 8, 9, 10]);
    assert_eq!(m.match_type, MatchType::FullWord);

    let m = matcher.fuzzy_match("hello world", "hlo").unwrap();
    assert!(m.positions.is_empty());
    assert_eq!(m.match_type, MatchType::WordMiddle);
}

#[test]
fn positions_are_bytes_of_the_first_case_blind_occurrence() {
    assert_eq!(FuzzyMatcher::find_match_positions("Say Hello hello", "hello"), vec![4, 5, 6, 7, 8]);
    assert_eq!(FuzzyMatcher::find_match_positions("naïve cat", "cat"), vec![7, 8, 9]);
    assert!(FuzzyMatcher::find_match_positions("abc", "abcd").is_empty());
}

#[test]
fn match_types_by_place_in_the_words() {
    // a word equal to the needle
    assert_eq!(FuzzyMatcher::classify_match_type("say Hello there", "hello", &[4, 5, 6, 7, 8]), MatchType::FullWord);
    // start of a word
    assert_eq!(FuzzyMatcher::classify_match_type("helloworld", "hell", &[0, 1, 2, 3]), MatchType::WordStart);
    // end of a word
    assert_eq!(FuzzyMatcher::classify_match_type("helloworld", "world", &[5, 6, 7, 8, 9]), MatchType::WordEnd);
    // middle of a word
    assert_eq!(FuzzyMatcher::classify_match_type("helloworld", "low", &[3, 4, 5]), MatchType::WordMiddle);
    // across two words
    assert_eq!(FuzzyMatcher::classify_match_type("hello world", "lo wo", &[3, 4, 5, 6, 7]), MatchType::MultiWord);
    // no positions
    assert_eq!(FuzzyMatcher::classify_match_type("hello", "hlo", &[]), MatchType::WordMiddle);
}
