use label_extract::lexicon::{tokenize, Lexicon};

fn lex(words: &[&str]) -> Lexicon {
    Lexicon::new(words.iter().map(|w| w.to_string()).collect())
}

#[test]
fn tokenize_splits_on_whitespace_and_punctuation() {
    assert_eq!(tokenize("hello, world!"), vec!["hello", "world"]);
    assert_eq!(tokenize("a--b  c"), vec!["a", "b", "c"]);
    assert_eq!(tokenize("one\ttwo\nthree"), vec!["one", "two", "three"]);
}

#[test]
fn tokenize_discards_empty_runs() {
    assert_eq!(tokenize("..."), Vec::<String>::new());
    assert_eq!(tokenize(""), Vec::<String>::new());
    assert_eq!(tokenize("  ,  "), Vec::<String>::new());
    assert_eq!(tokenize(" word "), vec!["word"]);
}

#[test]
fn tokenize_treats_unicode_whitespace_as_separator() {
    assert_eq!(tokenize("a\u{a0}b"), vec!["a", "b"]);
    assert_eq!(tokenize("x\u{2003}y"), vec!["x", "y"]);
}

#[test]
fn is_known_folds_case() {
    let l = lex(&["hello"]);
    assert!(l.is_known("hello"));
    assert!(l.is_known("HELLO"));
    assert!(l.is_known("Hello"));
    assert!(!l.is_known("bye"));
}

#[test]
fn word_list_entries_match_verbatim_after_folding() {
    // Entries themselves are not folded: a capitalized entry is never hit,
    // because lookups compare the folded token against entries as given.
    let l = lex(&["London"]);
    assert!(!l.is_known("London"));
    let l2 = lex(&["london"]);
    assert!(l2.is_known("London"));
}

#[test]
fn domain_extra_words_are_known() {
    let l = lex(&[]);
    assert!(l.is_known("handpainted"));
    assert!(l.is_known("Stardust"));
    assert!(!l.is_known("unrelated"));
}

#[test]
fn fully_known_requires_every_token() {
    let l = lex(&["good", "morning"]);
    assert!(l.is_fully_known("Good, morning!"));
    assert!(l.is_fully_known("good good good"));
    assert!(!l.is_fully_known("good zzqx"));
    // A string with no tokens at all is vacuously fully known.
    assert!(l.is_fully_known("..."));
    assert!(l.is_fully_known(""));
}
