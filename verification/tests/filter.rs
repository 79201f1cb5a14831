use treescan::entry::readable_entries;
use treescan::entry::Entry;
use treescan::filter::FilterConfig;
use treescan::filter::Kind;
use treescan::filter::Subject;
use treescan::pattern::ConfigError;

fn file(path: &str, name: &str) -> Entry {
    Entry::new(path.to_string(), name.to_string(), false, true)
}

fn dir(path: &str, name: &str) -> Entry {
    Entry::new(path.to_string(), name.to_string(), true, true)
}

#[test]
fn entry_new_keeps_its_parts() {
    let entry = Entry::new("a/b".to_string(), "b".to_string(), true, false);
    assert_eq!(entry.path, "a/b");
    assert_eq!(entry.name, "b");
    assert!(entry.is_dir);
    assert!(!entry.readable);
    assert_eq!(entry.clone(), entry);
}

#[test]
fn readable_entries_drops_unreadable_in_silence() {
    let walked = vec![
        file("r/a", "a"),
        Entry::new("r/locked".to_string(), "locked".to_string(), false, false),
        dir("r/d", "d"),
        Entry::new("r/gone".to_string(), "gone".to_string(), true, false),
    ];
    let kept = readable_entries(walked);
    assert_eq!(kept, vec![file("r/a", "a"), dir("r/d", "d")]);
    assert_eq!(readable_entries(Vec::new()), Vec::new());
}

#[test]
fn venv_filter_takes_directories_named_venv() {
    let filter = FilterConfig::venv_dirs();
    assert!(filter.accepts(&dir("p/.venv", ".venv")));
    assert!(!filter.accepts(&file("p/.venv", ".venv")));
    assert!(!filter.accepts(&dir("p/venv", "venv")));
    assert!(!filter.accepts(&dir("p/.venv2", ".venv2")));
}

#[test]
fn ds_store_filter_takes_any_kind() {
    let filter = FilterConfig::ds_store();
    assert!(filter.accepts(&file("p/.DS_Store", ".DS_Store")));
    assert!(filter.accepts(&dir("p/.DS_Store", ".DS_Store")));
    assert!(!filter.accepts(&file("p/.ds_store", ".ds_store")));
}

#[test]
fn filter_build_refuses_invalid_pattern_before_any_entry() {
    let refused = FilterConfig::build(None, Some("(open"), Subject::Name, Kind::Any, false);
    match refused {
        Err(ConfigError::InvalidNamePattern { reason }) => assert!(!reason.is_empty()),
        _ => panic!("an invalid pattern must be refused"),
    }
}

#[test]
fn filter_without_pattern_is_always_built() {
    let filter = FilterConfig::build(None, None, Subject::Name, Kind::Any, false);
    assert!(filter.is_ok());
    let filter = filter.ok().unwrap();
    assert!(filter.accepts(&file("x", "x")));
    assert!(filter.accepts(&dir(".y", ".y")));
}

#[test]
fn filter_pattern_reads_name_or_path() {
    let by_name =
        FilterConfig::build(None, Some("^src"), Subject::Name, Kind::Any, false).ok().unwrap();
    let by_path =
        FilterConfig::build(None, Some("^src"), Subject::Path, Kind::Any, false).ok().unwrap();
    let entry = file("src/main.rs", "main.rs");
    assert!(!by_name.accepts(&entry));
    assert!(by_path.accepts(&entry));
}

#[test]
fn filter_excludes_hidden_when_asked() {
    let open = FilterConfig::build(None, None, Subject::Name, Kind::File, false).ok().unwrap();
    let shut = FilterConfig::build(None, None, Subject::Name, Kind::File, true).ok().unwrap();
    assert!(open.accepts(&file("d/.hidden", ".hidden")));
    assert!(!shut.accepts(&file("d/.hidden", ".hidden")));
    assert!(shut.accepts(&file("d/a.txt", "a.txt")));
    assert!(!shut.accepts(&dir("d/sub", "sub")));
}

#[test]
fn filter_conditions_all_have_to_hold() {
    let filter = FilterConfig::build(
        Some("notes.txt".to_string()),
        Some("^docs/"),
        Subject::Path,
        Kind::File,
        true,
    )
    .ok()
    .unwrap();
    assert!(filter.accepts(&file("docs/notes.txt", "notes.txt")));
    assert!(!filter.accepts(&file("src/notes.txt", "notes.txt")));
    assert!(!filter.accepts(&file("docs/other.txt", "other.txt")));
    assert!(!filter.accepts(&dir("docs/notes.txt", "notes.txt")));
}

#[test]
fn select_keeps_order_of_the_chosen() {
    let filter = FilterConfig::named("x", Kind::Any);
    let chosen = filter.select(vec![
        file("1/x", "x"),
        file("2/y", "y"),
        dir("3/x", "x"),
        file("4/z", "z"),
    ]);
    assert_eq!(chosen, vec![file("1/x", "x"), dir("3/x", "x")]);
}
