use treescan::outcome::ActionOutcome;
use treescan::outcome::FailureCause;
use treescan::rename::Rename;
use treescan::staging::staged_outcome;
use treescan::staging::Progress;
use treescan::staging::Staging;
use treescan::staging::Step;

fn run(batch: &mut Staging, fail_at: Option<(Step, FailureCause)>) -> Vec<Step> {
    let mut steps = Vec::new();
    loop {
        let step = batch.next();
        if step == Step::Finished {
            return steps;
        }
        steps.push(step);
        match fail_at {
            Some((bad, cause)) if bad == step => batch.advance(Some(cause)),
            _ => batch.advance(None),
        }
        assert!(steps.len() <= 64);
    }
}

#[test]
fn staging_stages_all_before_it_removes_any() {
    let mut batch = Staging::new(3);
    let steps = run(&mut batch, None);
    assert_eq!(
        steps,
        vec![
            Step::Stage(0),
            Step::Stage(1),
            Step::Stage(2),
            Step::Remove(0),
            Step::Remove(1),
            Step::Remove(2),
            Step::Commit(0),
            Step::Commit(1),
            Step::Commit(2),
        ]
    );
    assert!(!batch.is_aborted());
    assert_eq!(batch.progress_of(0), Some(Progress::Committed));
    assert_eq!(batch.progress_of(2), Some(Progress::Committed));
    assert_eq!(batch.progress_of(3), None);
}

#[test]
fn staging_of_nothing_is_finished_at_once() {
    let mut batch = Staging::new(0);
    assert_eq!(batch.next(), Step::Finished);
    batch.advance(None);
    assert_eq!(batch.next(), Step::Finished);
    assert!(!batch.is_aborted());
}

#[test]
fn staging_failure_gives_the_batch_up_and_removes_nothing() {
    let mut batch = Staging::new(3);
    let steps = run(&mut batch, Some((Step::Stage(1), FailureCause::WriteFailed)));
    assert_eq!(steps, vec![Step::Stage(0), Step::Stage(1), Step::Discard(0)]);
    assert!(batch.is_aborted());
    assert_eq!(batch.progress_of(0), Some(Progress::Dropped));
    assert_eq!(batch.progress_of(1), Some(Progress::Failed(FailureCause::WriteFailed)));
    assert_eq!(batch.progress_of(2), Some(Progress::Waiting));
}

#[test]
fn removal_failure_leaves_that_file_and_goes_on() {
    let mut batch = Staging::new(2);
    let steps = run(&mut batch, Some((Step::Remove(0), FailureCause::PermissionDenied)));
    assert_eq!(
        steps,
        vec![Step::Stage(0), Step::Stage(1), Step::Remove(0), Step::Remove(1), Step::Commit(1)]
    );
    assert!(!batch.is_aborted());
    assert_eq!(batch.progress_of(0), Some(Progress::Failed(FailureCause::PermissionDenied)));
    assert_eq!(batch.progress_of(1), Some(Progress::Committed));
}

#[test]
fn commit_failure_strands_the_staged_content() {
    let mut batch = Staging::new(1);
    let steps = run(&mut batch, Some((Step::Commit(0), FailureCause::Io)));
    assert_eq!(steps, vec![Step::Stage(0), Step::Remove(0), Step::Commit(0)]);
    assert_eq!(batch.progress_of(0), Some(Progress::Stranded(FailureCause::Io)));
}

#[test]
fn staged_outcome_tells_what_became_of_a_file() {
    let step = || Rename { from: "d/a.txt".to_string(), to: "d/0.txt".to_string() };
    assert_eq!(
        staged_outcome(Progress::Committed, step()),
        ActionOutcome::Renamed { from: "d/a.txt".to_string(), to: "d/0.txt".to_string() }
    );
    assert_eq!(
        staged_outcome(Progress::Failed(FailureCause::NotFound), step()),
        ActionOutcome::Failed { cause: FailureCause::NotFound }
    );
    assert_eq!(
        staged_outcome(Progress::Stranded(FailureCause::WriteFailed), step()),
        ActionOutcome::Failed { cause: FailureCause::WriteFailed }
    );
    assert_eq!(staged_outcome(Progress::Dropped, step()), ActionOutcome::Skipped);
    assert_eq!(staged_outcome(Progress::Waiting, step()), ActionOutcome::Skipped);
}
