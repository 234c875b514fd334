use rs_regex::errors::RegexError;
use rs_regex::regex::Regex;

fn matches(pattern: &str, input: &str) -> bool {
    let compiled = Regex::new(pattern.to_string()).unwrap();
    compiled.matches(input.to_string()).unwrap()
}

#[test]
fn literal_concatenation() {
    assert!(matches("ab", "ab"));
    assert!(!matches("ab", "a"));
    assert!(!matches("ab", "b"));
    assert!(!matches("ab", "abc"));
    assert!(!matches("ab", ""));
}

#[test]
fn kleene_star() {
    assert!(matches("a*", ""));
    assert!(matches("a*", "a"));
    assert!(matches("a*", "aaaa"));
    assert!(!matches("a*", "ab"));
    assert!(!matches("a*", "b"));
}

#[test]
fn union_of_literals() {
    assert!(matches("a|b", "a"));
    assert!(matches("a|b", "b"));
    assert!(!matches("a|b", "ab"));
    assert!(!matches("a|b", ""));
    assert!(!matches("a|b", "c"));
}

#[test]
fn grouping_equivalence() {
    for input in ["abc", "ab", "bc", "abcc", "aabc", ""] {
        let flat = matches("abc", input);
        assert_eq!(matches("(ab)c", input), flat);
        assert_eq!(matches("a(bc)", input), flat);
    }
}

#[test]
fn star_of_union() {
    assert!(matches("(a|bb)*", ""));
    assert!(matches("(a|bb)*", "a"));
    assert!(matches("(a|bb)*", "bba"));
    assert!(matches("(a|bb)*", "abba"));
    assert!(!matches("(a|bb)*", "b"));
    assert!(!matches("(a|bb)*", "ba"));
}

#[test]
fn escaped_star_is_a_literal() {
    assert!(matches("\\*", "*"));
    assert!(!matches("\\*", ""));
    assert!(!matches("\\*", "**"));
    assert!(!matches("\\*", "a"));
}

#[test]
fn same_pattern_compiles_to_same_language() {
    let first = Regex::new("(a|bb)*c".to_string()).unwrap();
    let second = Regex::new("(a|bb)*c".to_string()).unwrap();
    for input in ["", "c", "ac", "bbc", "abbac", "bb", "cb", "abb"] {
        assert_eq!(
            first.matches(input.to_string()).unwrap(),
            second.matches(input.to_string()).unwrap(),
        );
    }
}

#[test]
fn non_ascii_pattern_is_an_encoding_error() {
    assert_eq!(Regex::new("a¥b".to_string()).unwrap_err(), RegexError::EncodingError);
}

#[test]
fn non_ascii_input_is_an_encoding_error() {
    let compiled = Regex::new("a*".to_string()).unwrap();
    assert_eq!(compiled.matches("aä".to_string()).unwrap_err(), RegexError::EncodingError);
}

#[test]
fn malformed_patterns_are_syntax_errors() {
    assert_eq!(Regex::new("(ab".to_string()).unwrap_err(), RegexError::SyntaxError);
    assert_eq!(Regex::new("*a".to_string()).unwrap_err(), RegexError::SyntaxError);
    assert_eq!(Regex::new("ab)".to_string()).unwrap_err(), RegexError::SyntaxError);
    assert_eq!(Regex::new("a\\".to_string()).unwrap_err(), RegexError::SyntaxError);
}

#[test]
fn empty_pattern_matches_empty_string() {
    // The grammar's empty production is a true zero-width epsilon: the
    // empty pattern matches the empty string, not a NUL byte.
    let compiled = Regex::new("".to_string()).unwrap();
    assert!(compiled.matches("".to_string()).unwrap());
    assert!(!compiled.matches("\u{0}".to_string()).unwrap());
    assert!(!compiled.matches("a".to_string()).unwrap());
}

#[test]
fn trailing_union_matches_empty_alternative() {
    // `a|` is grammatical: its right alternative is the empty sequence, so
    // the pattern matches "a" and the empty string (and no NUL byte).
    let compiled = Regex::new("a|".to_string()).unwrap();
    assert!(compiled.matches("a".to_string()).unwrap());
    assert!(compiled.matches("".to_string()).unwrap());
    assert!(!compiled.matches("\u{0}".to_string()).unwrap());
    assert!(!compiled.matches("b".to_string()).unwrap());
}

#[test]
fn error_messages() {
    assert_eq!(RegexError::EncodingError.message(), "input was not ascii");
    assert_eq!(RegexError::SyntaxError.message(), "parsing error: unexpected token");
}
