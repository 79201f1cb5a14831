use treescan::entry::Entry;
use treescan::outcome::ActionOutcome;
use treescan::pattern::ConfigError;
use treescan::search::SearchConfig;

fn file(path: &str, name: &str) -> Entry {
    Entry::new(path.to_string(), name.to_string(), false, true)
}

fn dir(path: &str, name: &str) -> Entry {
    Entry::new(path.to_string(), name.to_string(), true, true)
}

fn found(line_index: usize, column: usize, snippet: &str) -> ActionOutcome {
    ActionOutcome::MatchFound { line_index, column, snippet: snippet.to_string() }
}

fn config(pattern: &str) -> SearchConfig {
    SearchConfig::new(pattern, None, false, false, false).ok().unwrap()
}

#[test]
fn line_scan_reports_matching_lines_only() {
    let outcomes = config("foo").scan_content(b"foo\nbar\nfoobar\n");
    assert_eq!(outcomes, vec![found(0, 0, "foo"), found(2, 0, "foobar")]);
    for outcome in &outcomes {
        match outcome {
            ActionOutcome::MatchFound { line_index, .. } => assert_ne!(*line_index, 1),
            _ => panic!("only matches are expected"),
        }
    }
}

#[test]
fn line_scan_reports_first_match_of_a_line_once() {
    let outcomes = config("o").scan_content(b"x foo boo\n");
    assert_eq!(outcomes, vec![found(0, 3, "x foo boo")]);
}

#[test]
fn line_scan_column_is_a_byte_offset() {
    let outcomes = config("x").scan_content("ééx\n".as_bytes());
    assert_eq!(outcomes, vec![found(0, 4, "ééx")]);
}

#[test]
fn line_scan_without_match_is_skipped() {
    assert_eq!(config("zzz").scan_content(b"foo\nbar\n"), vec![ActionOutcome::Skipped]);
    assert_eq!(config("zzz").scan_content(b""), vec![ActionOutcome::Skipped]);
}

#[test]
fn line_scan_stops_at_line_that_is_not_text() {
    let outcomes = config("foo").scan_content(b"foo\n\xff\nfoo\n");
    assert_eq!(outcomes, vec![found(0, 0, "foo")]);
    let binary = config("foo").scan_content(b"\xff\xfe\nfoo\n");
    assert_eq!(binary, vec![ActionOutcome::Skipped]);
}

#[test]
fn line_scan_ignoring_case_lowers_the_line() {
    let search = SearchConfig::new("foo", None, true, false, false).ok().unwrap();
    let outcomes = search.scan_content(b"A FOO b\nnothing\nFoObar\n");
    assert_eq!(outcomes, vec![found(0, 2, "a foo b"), found(2, 0, "foobar")]);
    let strict = config("foo").scan_content(b"A FOO b\n");
    assert_eq!(strict, vec![ActionOutcome::Skipped]);
}

#[test]
fn search_ignoring_case_matches_upper_case_pattern() {
    let search = SearchConfig::new("FOO", None, true, false, false).ok().unwrap();
    assert_eq!(search.pattern.as_str(), "(?i)FOO");
    assert_eq!(search.scan_content(b"a Foo\n"), vec![found(0, 2, "a foo")]);
}

#[test]
fn search_refuses_invalid_pattern_before_scanning() {
    match SearchConfig::new("(", None, false, false, false) {
        Err(ConfigError::InvalidPattern { reason }) => assert!(!reason.is_empty()),
        _ => panic!("an invalid pattern must be refused"),
    }
    match SearchConfig::new("(", None, true, false, false) {
        Err(ConfigError::InvalidPattern { .. }) => {}
        _ => panic!("an invalid pattern must be refused"),
    }
}

#[test]
fn search_refuses_invalid_file_name_pattern() {
    match SearchConfig::new("ok", Some("[z"), false, false, false) {
        Err(ConfigError::InvalidNamePattern { reason }) => assert!(!reason.is_empty()),
        _ => panic!("an invalid file-name pattern must be refused"),
    }
}

#[test]
fn search_reports_the_search_pattern_first() {
    match SearchConfig::new("(", Some("[z"), false, false, false) {
        Err(ConfigError::InvalidPattern { .. }) => {}
        _ => panic!("the search pattern is judged first"),
    }
}

#[test]
fn search_refuses_dirs_only_without_name_only() {
    assert_eq!(
        SearchConfig::new("x", None, false, false, true).err(),
        Some(ConfigError::ConflictingFlags)
    );
    assert_eq!(
        SearchConfig::new("(", None, false, false, true).err(),
        Some(ConfigError::ConflictingFlags)
    );
    assert!(SearchConfig::new("x", None, false, true, true).is_ok());
}

#[test]
fn assemble_judges_what_compilation_gave() {
    let made = SearchConfig::assemble(Err("bad".to_string()), None, false, false, false);
    assert_eq!(made.err(), Some(ConfigError::InvalidPattern { reason: "bad".to_string() }));
    let pattern = treescan::pattern::Pattern::compile("a").unwrap();
    let made =
        SearchConfig::assemble(Ok(pattern), Some(Err("worse".to_string())), false, false, false);
    assert_eq!(made.err(), Some(ConfigError::InvalidNamePattern { reason: "worse".to_string() }));
}

#[test]
fn name_search_takes_files_or_directories() {
    let files = SearchConfig::new("src", None, false, true, false).ok().unwrap();
    let dirs = SearchConfig::new("src", None, false, true, true).ok().unwrap();
    let a_file = file("a/src/main.rs", "main.rs");
    let a_dir = dir("a/src", "src");
    assert_eq!(files.scan_name(&a_file), found(0, 2, "a/src/main.rs"));
    assert_eq!(files.scan_name(&a_dir), ActionOutcome::Skipped);
    assert_eq!(dirs.scan_name(&a_dir), found(0, 2, "a/src"));
    assert_eq!(dirs.scan_name(&a_file), ActionOutcome::Skipped);
    assert_eq!(files.scan_name(&file("a/lib/x.rs", "x.rs")), ActionOutcome::Skipped);
}

#[test]
fn name_search_ignoring_case_reads_the_path_as_it_is() {
    let search = SearchConfig::new("readme", None, true, true, false).ok().unwrap();
    assert_eq!(search.scan_name(&file("d/README.md", "README.md")), found(0, 2, "d/README.md"));
}

#[test]
fn content_is_wanted_for_files_that_the_name_pattern_matches() {
    let any = config("x");
    assert!(any.wants_content(&file("a/b.rs", "b.rs")));
    assert!(!any.wants_content(&dir("a/b", "b")));
    let rust = SearchConfig::new("x", Some(r"\.rs$"), false, false, false).ok().unwrap();
    assert!(rust.wants_content(&file("a/b.rs", "b.rs")));
    assert!(!rust.wants_content(&file("a/b.txt", "b.txt")));
    let by_name = SearchConfig::new("x", None, false, true, false).ok().unwrap();
    assert!(!by_name.wants_content(&file("a/b.rs", "b.rs")));
}

#[test]
fn scan_entry_searches_name_or_content() {
    let by_name = SearchConfig::new("b", None, false, true, false).ok().unwrap();
    assert_eq!(
        by_name.scan_entry(&file("a/b.rs", "b.rs"), Some(b"b\n")),
        vec![found(0, 2, "a/b.rs")]
    );
    let by_content = SearchConfig::new("b", Some(r"\.rs$"), false, false, false).ok().unwrap();
    assert_eq!(
        by_content.scan_entry(&file("a/b.rs", "b.rs"), Some(b"a\nab\n")),
        vec![found(1, 1, "ab")]
    );
    assert_eq!(
        by_content.scan_entry(&file("a/b.txt", "b.txt"), Some(b"a\nab\n")),
        vec![ActionOutcome::Skipped]
    );
    assert_eq!(by_content.scan_entry(&file("a/b.rs", "b.rs"), None), vec![ActionOutcome::Skipped]);
    assert_eq!(by_content.scan_entry(&dir("a/c.rs", "c.rs"), Some(b"b")), vec![
        ActionOutcome::Skipped
    ]);
}
