use treescan::entry::Entry;
use treescan::filter::FilterConfig;
use treescan::outcome::ActionOutcome;
use treescan::outcome::FailureCause;
use treescan::removal::plan_removal;
use treescan::removal::removal_outcome;
use treescan::removal::tally_removals;
use treescan::report::ScanError;

fn dir(path: &str, name: &str) -> Entry {
    Entry::new(path.to_string(), name.to_string(), true, true)
}

fn file(path: &str, name: &str) -> Entry {
    Entry::new(path.to_string(), name.to_string(), false, true)
}

fn walked() -> Vec<Entry> {
    vec![
        dir("r", "r"),
        dir("r/a/.venv", ".venv"),
        file("r/a/.venv/pyvenv.cfg", "pyvenv.cfg"),
        file("r/b/.venv", ".venv"),
        Entry::new("r/c/.venv".to_string(), ".venv".to_string(), true, false),
        dir("r/d/.venv", ".venv"),
    ]
}

#[test]
fn plan_removal_takes_readable_matching_entries() {
    let tasks = plan_removal(&walked(), &FilterConfig::venv_dirs(), false);
    assert_eq!(tasks.len(), 2);
    assert_eq!(tasks[0].entry, dir("r/a/.venv", ".venv"));
    assert_eq!(tasks[1].entry, dir("r/d/.venv", ".venv"));
    assert!(tasks[0].remove);
    assert!(tasks[1].remove);
}

#[test]
fn dry_run_plans_no_removal() {
    let tasks = plan_removal(&walked(), &FilterConfig::venv_dirs(), true);
    assert_eq!(tasks.len(), 2);
    for task in &tasks {
        assert!(!task.remove);
    }
}

#[test]
fn removal_outcome_measures_deletes_or_fails() {
    assert_eq!(removal_outcome(10, true, None), ActionOutcome::Measured { bytes: 10 });
    assert_eq!(
        removal_outcome(10, true, Some(FailureCause::Io)),
        ActionOutcome::Measured { bytes: 10 }
    );
    assert_eq!(removal_outcome(10, false, None), ActionOutcome::Deleted { bytes: 10 });
    assert_eq!(
        removal_outcome(10, false, Some(FailureCause::PermissionDenied)),
        ActionOutcome::Failed { cause: FailureCause::PermissionDenied }
    );
}

#[test]
fn dry_run_total_is_the_sum_of_the_sizes() {
    let found = vec![
        (dir("r/a/.venv", ".venv"), 1024, None),
        (dir("r/b/.venv", ".venv"), 0, None),
        (dir("r/c/.venv", ".venv"), 4096, None),
    ];
    let report = tally_removals(found, true).ok().unwrap();
    assert_eq!(report.total_bytes(), 5120);
    assert_eq!(report.total_matches(), 0);
    assert!(report.failures().is_empty());
    assert_eq!(report.outcomes().len(), 3);
    assert_eq!(report.outcomes()[2].1, ActionOutcome::Measured { bytes: 4096 });
}

#[test]
fn dry_run_twice_gives_the_same_report() {
    let found = || {
        vec![(dir("r/a/.venv", ".venv"), 7, None), (dir("r/b/.venv", ".venv"), 8, None)]
    };
    let first = tally_removals(found(), true).ok().unwrap();
    let second = tally_removals(found(), true).ok().unwrap();
    assert_eq!(first.outcomes(), second.outcomes());
    assert_eq!(first.failures(), second.failures());
    assert_eq!(first.total_bytes(), second.total_bytes());
    assert_eq!(first.total_bytes(), 15);
}

#[test]
fn failed_removal_does_not_count_and_does_not_stop_the_others() {
    let found = vec![
        (dir("r/a/.venv", ".venv"), 100, None),
        (dir("r/b/.venv", ".venv"), 200, Some(FailureCause::PermissionDenied)),
        (dir("r/c/.venv", ".venv"), 300, None),
    ];
    let report = tally_removals(found, false).ok().unwrap();
    assert_eq!(report.total_bytes(), 400);
    assert_eq!(report.outcomes().len(), 3);
    assert_eq!(report.outcomes()[0].1, ActionOutcome::Deleted { bytes: 100 });
    assert_eq!(
        report.failures(),
        &vec![(dir("r/b/.venv", ".venv"), FailureCause::PermissionDenied)]
    );
}

#[test]
fn tally_refuses_a_total_beyond_64_bits() {
    let found =
        vec![(dir("r/a", "a"), u64::MAX, None), (dir("r/b", "b"), 1, None)];
    assert_eq!(tally_removals(found, true).err(), Some(ScanError::TotalOverflow));
    let fits = vec![(dir("r/a", "a"), u64::MAX - 1, None), (dir("r/b", "b"), 1, None)];
    assert_eq!(tally_removals(fits, true).ok().unwrap().total_bytes(), u64::MAX);
    let failed = vec![
        (dir("r/a", "a"), u64::MAX, None),
        (dir("r/b", "b"), 1, Some(FailureCause::Io)),
    ];
    assert_eq!(tally_removals(failed, false).ok().unwrap().total_bytes(), u64::MAX);
}

#[test]
fn tally_of_nothing_is_empty() {
    let report = tally_removals(Vec::new(), false).ok().unwrap();
    assert_eq!(report.total_bytes(), 0);
    assert!(report.outcomes().is_empty());
}
