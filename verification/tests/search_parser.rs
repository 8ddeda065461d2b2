use autoreply::search::parser::QueryParser;

#[test]
fn test_basic_parsing() {
    let parsed = QueryParser::parse("hello world");
    assert_eq!(parsed.original, "hello world");
    assert_eq!(parsed.whole_query, "hello world");
    assert_eq!(parsed.individual_words, vec!["hello", "world"]);
    assert!(parsed.quoted_phrases.is_empty());
}

#[test]
fn test_quoted_phrases() {
    let parsed = QueryParser::parse(r#"hello "exact match" world"#);
    assert_eq!(parsed.quoted_phrases, vec!["exact match"]);
    assert_eq!(parsed.individual_words, vec!["hello", "world"]);
}

#[test]
fn test_single_quotes() {
    let parsed = QueryParser::parse("hello 'exact match' world");
    assert_eq!(parsed.quoted_phrases, vec!["exact match"]);
    assert_eq!(parsed.individual_words, vec!["hello", "world"]);
}

#[test]
fn test_stop_words_filtering() {
    let parsed = QueryParser::parse("the cat and the dog");
    assert_eq!(parsed.individual_words, vec!["cat", "dog"]);
}

#[test]
fn test_multiple_quoted_phrases() {
    let parsed = QueryParser::parse(r#""first phrase" and "second phrase""#);
    assert_eq!(parsed.quoted_phrases, vec!["first phrase", "second phrase"]);
    assert!(parsed.individual_words.is_empty());
}

#[test]
fn test_escaped_quotes() {
    let parsed = QueryParser::parse(r#""quote with \" inside""#);
    assert_eq!(parsed.quoted_phrases, vec![r#"quote with " inside"#]);
}

#[test]
fn test_unclosed_quote() {
    let parsed = QueryParser::parse(r#"hello "unclosed world"#);
    assert_eq!(parsed.individual_words, vec!["hello", "unclosed", "world"]);
}

#[test]
fn test_empty_query() {
    let parsed = QueryParser::parse("");
    assert_eq!(parsed.original, "");
    assert!(parsed.individual_words.is_empty());
    assert!(parsed.quoted_phrases.is_empty());
}

#[test]
fn test_only_stop_words() {
    let parsed = QueryParser::parse("the and or");
    assert!(parsed.individual_words.is_empty());
}

#[test]
fn test_unicode_words() {
    let parsed = QueryParser::parse("café résumé");
    assert_eq!(parsed.individual_words, vec!["café", "résumé"]);
}

#[test]
fn words_are_lowercased_and_empty_quotes_dropped() {
    let parsed = QueryParser::parse("Rust '' IS Great");
    assert!(parsed.quoted_phrases.is_empty());
    assert_eq!(parsed.individual_words, vec!["rust", "great"]);
    assert!(QueryParser::is_stop_word("you"));
    assert!(!QueryParser::is_stop_word("You"));
}
