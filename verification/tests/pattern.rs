use treescan::pattern::Pattern;
use treescan::pattern::Span;

#[test]
fn compile_accepts_a_valid_pattern() {
    let pattern = Pattern::compile(r"fo+\d").unwrap();
    assert_eq!(pattern.as_str(), r"fo+\d");
}

#[test]
fn compile_refuses_an_unclosed_group() {
    let refused = Pattern::compile("foo(bar");
    assert!(refused.is_err());
    let reason = refused.err().unwrap();
    assert!(!reason.is_empty());
    assert_ne!(reason, "foo(bar");
}

#[test]
fn find_reports_first_match_in_bytes() {
    let pattern = Pattern::compile("o+").unwrap();
    assert_eq!(pattern.find("foo boo"), Some(Span { start: 1, end: 3 }));
    assert_eq!(pattern.find("xyz"), None);
    let greek = Pattern::compile(r"\p{Greek}+").unwrap();
    assert_eq!(greek.find("Greek: αβγδ"), Some(Span { start: 7, end: 15 }));
}

#[test]
fn is_match_agrees_with_find() {
    let pattern = Pattern::compile("^a.c$").unwrap();
    assert!(pattern.is_match("abc"));
    assert!(!pattern.is_match("abcd"));
}

#[test]
fn caseless_pattern_matches_any_case() {
    let pattern = Pattern::compile_caseless("foo").unwrap();
    assert_eq!(pattern.as_str(), "(?i)foo");
    assert_eq!(pattern.find("a FoO"), Some(Span { start: 2, end: 5 }));
    let strict = Pattern::compile("foo").unwrap();
    assert_eq!(strict.find("a FoO"), None);
}

#[test]
fn caseless_compile_refuses_invalid_pattern() {
    assert!(Pattern::compile_caseless("[a").is_err());
}

#[test]
fn replace_all_replaces_every_match() {
    let pattern = Pattern::compile("[^01]+").unwrap();
    assert_eq!(pattern.replace_all("1078910", ""), "1010");
    assert_eq!(pattern.replace_all("0101", "x"), "0101");
}

#[test]
fn replace_all_expands_capture_groups() {
    let pattern = Pattern::compile(r"(\w+)-(\w+)").unwrap();
    assert_eq!(pattern.replace_all("left-right", "$2-$1"), "right-left");
}

#[test]
fn compiling_twice_gives_the_same_answer() {
    for text in ["a+", "(", "[a-z]{2,}", "*", r"\d", "(?i)x", "x{2,1}", ""] {
        let first = Pattern::compile(text).is_ok();
        let second = Pattern::compile(text).is_ok();
        assert_eq!(first, second);
    }
    assert!(Pattern::compile("").is_ok());
    assert!(Pattern::compile("x{2,1}").is_err());
    assert!(Pattern::compile_caseless("a+").is_ok());
    assert!(Pattern::compile_caseless("a)").is_err());
}
