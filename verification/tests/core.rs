use memento::distance::levenshtein_distance;
use memento::normalize::normalize;
use memento::numfmt::usize_to_string;
use memento::search::summary_line;
use memento::text::{contains_chars, is_ws_char, tokenize};

#[test]
fn distance_classic_pairs() {
    assert_eq!(levenshtein_distance("kitten", "sitting"), 3);
    assert_eq!(levenshtein_distance("flaw", "lawn"), 2);
    assert_eq!(levenshtein_distance("aple", "apple"), 1);
}

#[test]
fn distance_empty_is_length() {
    assert_eq!(levenshtein_distance("", ""), 0);
    assert_eq!(levenshtein_distance("abc", ""), 3);
    assert_eq!(levenshtein_distance("", "abcd"), 4);
}

#[test]
fn distance_symmetric_examples() {
    assert_eq!(
        levenshtein_distance("banana", "ananas"),
        levenshtein_distance("ananas", "banana")
    );
    assert_eq!(
        levenshtein_distance("aeiou", "xyz"),
        levenshtein_distance("xyz", "aeiou")
    );
}

#[test]
fn distance_self_is_zero() {
    assert_eq!(levenshtein_distance("unchanged", "unchanged"), 0);
}

#[test]
fn distance_counts_scalars_not_bytes() {
    // One multi-byte character differs: a single substitution.
    assert_eq!(levenshtein_distance("étude", "atude"), 1);
}

#[test]
fn normalize_folds_case_and_diacritics() {
    assert_eq!(normalize("Élan Vital", false), "elan vital");
    assert_eq!(normalize("CAFÉ", false), "cafe");
    assert_eq!(normalize("Æneid", false), "aeneid");
}

#[test]
fn normalize_case_sensitive_is_identity() {
    assert_eq!(normalize("Élan Vital", true), "Élan Vital");
}

#[test]
fn normalize_is_idempotent_on_examples() {
    for s in ["Élan Vital", "MIXED case", "déjà vu", ""] {
        let once = normalize(s, false);
        let twice = normalize(&once, false);
        assert_eq!(once, twice);
    }
}

#[test]
fn tokenize_splits_on_whitespace_runs() {
    let chars: Vec<char> = "  apple\tpie  crumble ".chars().collect();
    let toks = tokenize(&chars);
    let words: Vec<String> = toks.iter().map(|t| t.iter().collect()).collect();
    assert_eq!(words, vec!["apple", "pie", "crumble"]);
}

#[test]
fn tokenize_empty_and_blank() {
    let empty: Vec<char> = Vec::new();
    assert_eq!(tokenize(&empty).len(), 0);
    let blank: Vec<char> = "   \t ".chars().collect();
    assert_eq!(tokenize(&blank).len(), 0);
}

#[test]
fn whitespace_classification() {
    assert!(is_ws_char(' '));
    assert!(is_ws_char('\t'));
    assert!(is_ws_char('\n'));
    assert!(is_ws_char('\u{a0}'));
    assert!(!is_ws_char('a'));
    assert!(!is_ws_char('-'));
}

#[test]
fn substring_containment() {
    let hay: Vec<char> = "apple pie".chars().collect();
    let needle: Vec<char> = "le p".chars().collect();
    let missing: Vec<char> = "pier".chars().collect();
    let empty: Vec<char> = Vec::new();
    assert!(contains_chars(&hay, &needle));
    assert!(!contains_chars(&hay, &missing));
    assert!(contains_chars(&hay, &empty));
}

#[test]
fn decimal_rendering() {
    assert_eq!(usize_to_string(0), "0");
    assert_eq!(usize_to_string(7), "7");
    assert_eq!(usize_to_string(10), "10");
    assert_eq!(usize_to_string(120), "120");
    assert_eq!(usize_to_string(98765), "98765");
}

#[test]
fn summary_lines() {
    assert_eq!(summary_line(0), "No matches found.");
    assert_eq!(summary_line(1), "Found 1 matching lines");
    assert_eq!(summary_line(12), "Found 12 matching lines");
}
