use fastgrep::matcher::{fits, span_str, Matcher};
use fastgrep::types::SearchError;

#[test]
fn compiled_matcher_remembers_its_text() {
    let m = Matcher::compile(r"foo\w+bar").unwrap();
    assert_eq!(m.pattern(), r"foo\w+bar");
}

#[test]
fn unclosed_group_is_rejected() {
    match Matcher::compile("foo(bar") {
        Err(SearchError::Compile { pattern, message }) => {
            assert_eq!(pattern, "foo(bar");
            assert!(message.contains("unclosed group"));
            assert_eq!(message, regex::Regex::new("foo(bar").unwrap_err().to_string());
        }
        _ => panic!("expected a compile error"),
    }
}

#[test]
fn empty_pattern_is_accepted() {
    let m = Matcher::compile("").unwrap();
    assert_eq!(m.find_first("abc"), Some((0, 0)));
    assert_eq!(m.find_first(""), Some((0, 0)));
}

#[test]
fn find_first_gives_byte_offsets() {
    let m = Matcher::compile(r"\p{Greek}+").unwrap();
    let line = "Greek: αβγδ";
    assert_eq!(m.find_first(line), Some((7, 15)));
    assert_eq!(span_str(line, (7, 15)), "αβγδ");
}

#[test]
fn find_first_gives_the_leftmost_match() {
    let m = Matcher::compile(r"\b\w{13}\b").unwrap();
    let line = "I categorically deny having triskaidekaphobia.";
    assert_eq!(m.find_first(line), Some((2, 15)));
    assert_eq!(span_str(line, (2, 15)), "categorically");
}

#[test]
fn find_first_without_a_match() {
    let m = Matcher::compile("xyz").unwrap();
    assert_eq!(m.find_first("abc"), None);
    assert_eq!(m.find_first(""), None);
}

#[test]
fn is_match_agrees_with_find_first() {
    let m = Matcher::compile(r"\d{3}").unwrap();
    for line in ["", "12", "123", "ab1234cd", "no digits"] {
        assert_eq!(m.is_match(line), m.find_first(line).is_some());
    }
    assert!(m.is_match("x123"));
    assert!(!m.is_match("x12"));
}

#[test]
fn span_str_at_the_ends() {
    assert_eq!(span_str("héllo", (0, 0)), "");
    assert_eq!(span_str("héllo", (0, 6)), "héllo");
    assert_eq!(span_str("héllo", (6, 6)), "");
    assert_eq!(span_str("héllo", (1, 3)), "é");
}

#[test]
fn one_matcher_serves_many_lines() {
    let m = Matcher::compile("a+").unwrap();
    assert_eq!(m.find_first("baab"), Some((1, 3)));
    assert_eq!(m.find_first("aaa"), Some((0, 3)));
    assert_eq!(m.find_first("baab"), Some((1, 3)));
}

#[test]
fn fits_tells_whether_a_span_can_be_cut_out() {
    let line = "aé→z";
    assert!(fits(line, (0, 0)));
    assert!(fits(line, (0, 1)));
    assert!(fits(line, (1, 3)));
    assert!(fits(line, (3, 6)));
    assert!(fits(line, (0, 7)));
    assert!(fits(line, (7, 7)));
    assert!(!fits(line, (1, 2)));
    assert!(!fits(line, (2, 3)));
    assert!(!fits(line, (4, 6)));
    assert!(!fits(line, (3, 1)));
    assert!(!fits(line, (0, 8)));
    assert!(!fits(line, (8, 9)));
}

#[test]
fn from_engine_keeps_the_outcome() {
    let ok = Matcher::from_engine("ignored", regex::Regex::new("a|b"));
    assert_eq!(ok.unwrap().pattern(), "a|b");
    match Matcher::from_engine("x(", regex::Regex::new("x(")) {
        Err(SearchError::Compile { pattern, message }) => {
            assert_eq!(pattern, "x(");
            assert_eq!(message, regex::Regex::new("x(").unwrap_err().to_string());
        }
        _ => panic!("expected a compile error"),
    }
}

#[test]
fn failures_describe_themselves() {
    let e = Matcher::compile("a)").err().unwrap();
    assert_eq!(e.describe(), regex::Regex::new("a)").unwrap_err().to_string());
    assert_eq!(
        SearchError::InvalidWorkerCount.describe(),
        "the number of workers must be at least 1"
    );
    assert_eq!(
        SearchError::RootNotFound.describe(),
        "the root of the search is not an existing directory"
    );
    assert_eq!(SearchError::RootNotReadable.describe(), "the root of the search cannot be read");
}

#[test]
fn oversized_pattern_carries_the_limit() {
    match Matcher::compile(r"\w{1000}") {
        Err(SearchError::Compile { pattern, message }) => {
            assert_eq!(pattern, r"\w{1000}");
            assert!(message.contains("size limit"));
        }
        _ => panic!("expected a compile error"),
    }
}
