use treescan::entry::Entry;
use treescan::outcome::ActionOutcome;
use treescan::outcome::FailureCause;
use treescan::report::ScanError;
use treescan::report::ScanReport;

fn entry(i: u64) -> Entry {
    Entry::new(format!("root/{}", i), format!("{}", i), i % 2 == 0, true)
}

fn outcome(i: u64) -> ActionOutcome {
    match i % 5 {
        0 => ActionOutcome::Measured { bytes: i * 3 },
        1 => ActionOutcome::Deleted { bytes: i + 7 },
        2 => ActionOutcome::MatchFound {
            line_index: i as usize,
            column: 0,
            snippet: format!("line {}", i),
        },
        3 => ActionOutcome::Failed { cause: FailureCause::Io },
        _ => ActionOutcome::Skipped,
    }
}

#[test]
fn outcome_bytes_and_matches() {
    assert_eq!(ActionOutcome::Measured { bytes: 3 }.bytes(), 3);
    assert_eq!(ActionOutcome::Deleted { bytes: 4 }.bytes(), 4);
    assert_eq!(ActionOutcome::Skipped.bytes(), 0);
    assert_eq!(ActionOutcome::Failed { cause: FailureCause::Io }.bytes(), 0);
    assert!(outcome(2).is_match());
    assert!(!outcome(0).is_match());
    assert_eq!(outcome(3).failure(), Some(FailureCause::Io));
    assert_eq!(outcome(1).failure(), None);
    assert_eq!(outcome(2).clone(), outcome(2));
}

#[test]
fn new_report_is_empty() {
    let report = ScanReport::new();
    assert!(report.outcomes().is_empty());
    assert!(report.failures().is_empty());
    assert_eq!(report.total_bytes(), 0);
    assert_eq!(report.total_matches(), 0);
}

#[test]
fn record_adds_to_outcomes_totals_and_failures() {
    let mut report = ScanReport::new();
    assert_eq!(report.record(entry(1), ActionOutcome::Measured { bytes: 10 }), Ok(()));
    assert_eq!(report.record(entry(2), ActionOutcome::Deleted { bytes: 5 }), Ok(()));
    assert_eq!(
        report.record(entry(3), ActionOutcome::Failed { cause: FailureCause::Collision }),
        Ok(())
    );
    assert_eq!(report.record(entry(4), outcome(2)), Ok(()));
    assert_eq!(report.record(entry(5), ActionOutcome::Skipped), Ok(()));
    assert_eq!(
        report.record(
            entry(6),
            ActionOutcome::Renamed { from: "a".to_string(), to: "b".to_string() }
        ),
        Ok(())
    );
    assert_eq!(report.total_bytes(), 15);
    assert_eq!(report.total_matches(), 1);
    assert_eq!(report.outcomes().len(), 6);
    assert_eq!(report.outcomes()[1], (entry(2), ActionOutcome::Deleted { bytes: 5 }));
    assert_eq!(report.failures(), &vec![(entry(3), FailureCause::Collision)]);
}

#[test]
fn record_refuses_overflow_and_changes_nothing() {
    let mut report = ScanReport::new();
    assert_eq!(report.record(entry(1), ActionOutcome::Measured { bytes: u64::MAX - 1 }), Ok(()));
    assert_eq!(
        report.record(entry(2), ActionOutcome::Deleted { bytes: 2 }),
        Err(ScanError::TotalOverflow)
    );
    assert_eq!(report.outcomes().len(), 1);
    assert_eq!(report.total_bytes(), u64::MAX - 1);
    assert_eq!(report.record(entry(3), ActionOutcome::Deleted { bytes: 1 }), Ok(()));
    assert_eq!(report.total_bytes(), u64::MAX);
    assert_eq!(report.record(entry(4), ActionOutcome::Skipped), Ok(()));
}

#[test]
fn merge_appends_and_adds() {
    let mut left = ScanReport::new();
    left.record(entry(0), ActionOutcome::Measured { bytes: 1 }).unwrap();
    left.record(entry(3), outcome(3)).unwrap();
    let mut right = ScanReport::new();
    right.record(entry(2), outcome(2)).unwrap();
    right.record(entry(8), outcome(3)).unwrap();
    right.record(entry(1), ActionOutcome::Deleted { bytes: 2 }).unwrap();
    assert_eq!(left.merge(right), Ok(()));
    assert_eq!(left.total_bytes(), 3);
    assert_eq!(left.total_matches(), 1);
    assert_eq!(left.outcomes().len(), 5);
    assert_eq!(left.outcomes()[2], (entry(2), outcome(2)));
    assert_eq!(
        left.failures(),
        &vec![(entry(3), FailureCause::Io), (entry(8), FailureCause::Io)]
    );
}

#[test]
fn merge_refuses_overflow_and_changes_nothing() {
    let mut left = ScanReport::new();
    left.record(entry(0), ActionOutcome::Measured { bytes: u64::MAX }).unwrap();
    let mut right = ScanReport::new();
    right.record(entry(1), ActionOutcome::Measured { bytes: 1 }).unwrap();
    assert_eq!(left.merge(right), Err(ScanError::TotalOverflow));
    assert_eq!(left.outcomes().len(), 1);
    assert_eq!(left.total_bytes(), u64::MAX);
}

#[test]
fn concurrent_split_gives_the_totals_of_sequential_run() {
    let count: u64 = 10_000;
    let mut sequential = ScanReport::new();
    let mut i = 0;
    while i < count {
        sequential.record(entry(i), outcome(i)).unwrap();
        i += 1;
    }
    for workers in [1u64, 2, 3, 7, 16, 64, 10_000] {
        let mut shares: Vec<ScanReport> = Vec::new();
        let mut w = 0;
        while w < workers {
            shares.push(ScanReport::new());
            w += 1;
        }
        let mut i = 0;
        while i < count {
            let worker = ((i * 7919) % workers) as usize;
            shares[worker].record(entry(count - 1 - i), outcome(count - 1 - i)).unwrap();
            i += 1;
        }
        let mut whole = ScanReport::new();
        while let Some(share) = shares.pop() {
            whole.merge(share).unwrap();
        }
        assert_eq!(whole.total_bytes(), sequential.total_bytes());
        assert_eq!(whole.total_matches(), sequential.total_matches());
        assert_eq!(whole.outcomes().len(), sequential.outcomes().len());
        assert_eq!(whole.failures().len(), sequential.failures().len());
    }
    assert_eq!(sequential.total_matches(), 2000);
    assert_eq!(sequential.failures().len(), 2000);
}
