//! Measuring and deleting subtrees: which entries are taken, whether they
//! are removed or only measured, and what is reported of them.

use vstd::prelude::*;

use crate::entry::Entry;
use crate::entry::EntryView;
use crate::entry::entry_views;
use crate::filter::FilterConfig;
use crate::filter::FilterView;
use crate::outcome::ActionOutcome;
use crate::outcome::FailureCause;
use crate::outcome::OutcomeView;
use crate::report::Contribution;
use crate::report::ReportView;
use crate::report::ScanError;
use crate::report::ScanReport;
use crate::report::bytes_total;
use crate::report::failures_of;
use crate::report::lemma_totals_concat;
use crate::report::lemma_totals_push;
use crate::report::sum_of;

verus! {

/// One subtree to measure, and whether it is to be removed after that.
pub struct RemovalTask {
    /// The root of the subtree.
    pub entry: Entry,
    /// Whether the caller removes the subtree once it has measured it.
    pub remove: bool,
}

/// The mathematical value of a [`RemovalTask`].
pub struct TaskView {
    pub entry: EntryView,
    pub remove: bool,
}

impl View for RemovalTask {
    type V = TaskView;

    open spec fn view(&self) -> TaskView {
        TaskView { entry: self.entry@, remove: self.remove }
    }
}

/// The entries that a removal takes: those that the walk could read and
/// that the filter selects.
pub open spec fn removal_pick(filter: FilterView) -> spec_fn(EntryView) -> bool {
    |e: EntryView| e.readable && filter.admits(e)
}

/// The views of a run of tasks.
pub open spec fn task_views(tasks: Seq<RemovalTask>) -> Seq<TaskView> {
    tasks.map_values(|t: RemovalTask| t@)
}

/// The task that an entry gives: in a dry run it is measured only,
/// otherwise it is removed as well.
pub open spec fn task_for(dry_run: bool) -> spec_fn(EntryView) -> TaskView {
    |e: EntryView| TaskView { entry: e, remove: !dry_run }
}

/// The tasks of a removal: one for each entry that the removal takes, in
/// the order of the walk.
pub open spec fn removal_tasks(walked: Seq<EntryView>, filter: FilterView, dry_run: bool) -> Seq<
    TaskView,
> {
    walked.filter(removal_pick(filter)).map_values(task_for(dry_run))
}

/// Picks the subtrees to measure from what the walk found. Unreadable
/// entries take no part. In a dry run no task asks for removal; otherwise
/// every task does.
pub fn plan_removal(walked: &Vec<Entry>, filter: &FilterConfig, dry_run: bool) -> (tasks: Vec<
    RemovalTask,
>)
    ensures
        task_views(tasks@) == removal_tasks(entry_views(walked@), filter@, dry_run),
{
    let ghost all = entry_views(walked@);
    let mut tasks: Vec<RemovalTask> = Vec::new();
    let mut at: usize = 0;
    assert(all.subrange(0, 0) =~= Seq::<EntryView>::empty());
    while at < walked.len()
        invariant
            at <= walked.len(),
            all == entry_views(walked@),
            task_views(tasks@) =~= removal_tasks(all.subrange(0, at as int), filter@, dry_run),
        decreases walked.len() - at,
    {
        proof {
            let seen = all.subrange(0, at as int);
            assert(all.subrange(0, at + 1) =~= seen.push(all[at as int]));
            seen.lemma_filter_push(all[at as int], removal_pick(filter@));
        }
        if walked[at].readable && filter.accepts(&walked[at]) {
            let ghost before = tasks@;
            tasks.push(RemovalTask { entry: walked[at].clone(), remove: !dry_run });
            assert(task_views(tasks@) =~= task_views(before).push(task_for(dry_run)(all[at as int])));
            assert(all.subrange(0, at as int).filter(removal_pick(filter@)).push(
                all[at as int],
            ).map_values(task_for(dry_run)) =~= removal_tasks(
                all.subrange(0, at as int),
                filter@,
                dry_run,
            ).push(task_for(dry_run)(all[at as int])));
        }
        at = at + 1;
    }
    assert(all.subrange(0, at as int) =~= all);
    tasks
}

/// What is reported of a subtree of `bytes` bytes: in a dry run it was
/// measured; otherwise it was deleted, or the removal failed for the cause
/// given.
pub open spec fn removal_result(bytes: nat, dry_run: bool, failure: Option<FailureCause>)
    -> OutcomeView {
    if dry_run {
        OutcomeView::Measured { bytes }
    } else {
        match failure {
            Some(cause) => OutcomeView::Failed { cause },
            None => OutcomeView::Deleted { bytes },
        }
    }
}

/// The outcome of measuring a subtree and, outside a dry run, removing it.
/// `failure` is the cause for which the removal failed, if it did.
pub fn removal_outcome(bytes: u64, dry_run: bool, failure: Option<FailureCause>) -> (outcome:
    ActionOutcome)
    ensures
        outcome@ == removal_result(bytes as nat, dry_run, failure),
{
    if dry_run {
        ActionOutcome::Measured { bytes }
    } else {
        match failure {
            Some(cause) => ActionOutcome::Failed { cause },
            None => ActionOutcome::Deleted { bytes },
        }
    }
}

/// What a caller found for one subtree: its root, its size, and the cause
/// for which its removal failed, if it was tried and failed.
pub type Measurement = (EntryView, nat, Option<FailureCause>);

/// The views of a run of findings.
pub open spec fn measurement_views(found: Seq<(Entry, u64, Option<FailureCause>)>) -> Seq<
    Measurement,
> {
    found.map_values(|m: (Entry, u64, Option<FailureCause>)| (m.0@, m.1 as nat, m.2))
}

/// The contributions that a run of findings makes to the report.
pub open spec fn removal_contributions(found: Seq<Measurement>, dry_run: bool) -> Seq<
    Contribution,
> {
    found.map_values(|m: Measurement| (m.0, removal_result(m.1, dry_run, m.2)))
}

/// The sizes of a run of findings.
pub open spec fn sizes_of(found: Seq<Measurement>) -> Seq<nat> {
    found.map_values(|m: Measurement| m.1)
}

/// Builds the report of a removal from what the caller found. The report
/// holds one outcome for each finding, in order. It is refused only where
/// the bytes of the outcomes that did not fail add up to more than 64
/// bits hold.
pub fn tally_removals(found: Vec<(Entry, u64, Option<FailureCause>)>, dry_run: bool) -> (tallied:
    Result<ScanReport, ScanError>)
    ensures
        match tallied {
            Ok(report) => report@ == ReportView::of(
                removal_contributions(measurement_views(found@), dry_run),
            ),
            Err(error) => error == ScanError::TotalOverflow,
        },
        tallied is Ok <==> bytes_total(removal_contributions(measurement_views(found@), dry_run))
            <= u64::MAX,
{
    let ghost all = removal_contributions(measurement_views(found@), dry_run);
    let mut report = ScanReport::new();
    let mut at: usize = 0;
    assert(all.subrange(0, 0) =~= Seq::<Contribution>::empty());
    while at < found.len()
        invariant
            at <= found.len(),
            all == removal_contributions(measurement_views(found@), dry_run),
            report@.wf(),
            report@.outcomes =~= all.subrange(0, at as int),
        decreases found.len() - at,
    {
        let outcome = removal_outcome(found[at].1, dry_run, found[at].2);
        proof {
            let seen = all.subrange(0, at as int);
            let rest = all.subrange(at + 1, all.len() as int);
            assert(all.subrange(0, at + 1) =~= seen.push(all[at as int]));
            assert(all =~= seen.push(all[at as int]) + rest);
            lemma_totals_concat(seen.push(all[at as int]), rest);
            lemma_totals_push(seen, all[at as int]);
        }
        match report.record(found[at].0.clone(), outcome) {
            Ok(_) => {},
            Err(error) => {
                return Err(error);
            },
        }
        at = at + 1;
    }
    assert(all.subrange(0, at as int) =~= all);
    let total = report.total_bytes();
    Ok(report)
}

/// A dry run asks for no removal, and a real run asks for the removal of
/// everything it takes.
pub proof fn lemma_tasks_follow_dry_run(walked: Seq<EntryView>, filter: FilterView, dry_run: bool)
    ensures
        forall|i: int|
            0 <= i < removal_tasks(walked, filter, dry_run).len() ==> (#[trigger] removal_tasks(
                walked,
                filter,
                dry_run,
            )[i]).remove == !dry_run,
{
}

/// What is left of a walk once the entries that are `gone` are no longer
/// there.
pub open spec fn left_after(walked: Seq<EntryView>, gone: spec_fn(EntryView) -> bool) -> Seq<
    EntryView,
> {
    walked.filter(|e: EntryView| !gone(e))
}

/// A second run after a real removal finds nothing to do. Where every
/// entry that the removal takes is gone afterwards, along with whatever
/// else went with it, a walk of what is left gives no task, and the report
/// of no finding holds no outcome and a total of zero.
pub proof fn lemma_nothing_left_to_remove(
    walked: Seq<EntryView>,
    filter: FilterView,
    gone: spec_fn(EntryView) -> bool,
    dry_run: bool,
)
    requires
        forall|i: int|
            0 <= i < walked.len() && removal_pick(filter)(#[trigger] walked[i]) ==> gone(walked[i]),
    ensures
        removal_tasks(left_after(walked, gone), filter, dry_run).len() == 0,
        removal_contributions(Seq::<Measurement>::empty(), dry_run).len() == 0,
        bytes_total(removal_contributions(Seq::<Measurement>::empty(), dry_run)) == 0,
{
    let left = left_after(walked, gone);
    let taken = left.filter(removal_pick(filter));
    if taken.len() > 0 {
        left.lemma_filter_pred(removal_pick(filter), 0);
        assert(taken.contains(taken[0]));
        left.lemma_filter_contains_rev(removal_pick(filter), taken[0]);
        let m = choose|m: int| 0 <= m < left.len() && left[m] == taken[0];
        walked.lemma_filter_pred(|e: EntryView| !gone(e), m);
        assert(left.contains(left[m]));
        walked.lemma_filter_contains_rev(|e: EntryView| !gone(e), left[m]);
        let i = choose|i: int| 0 <= i < walked.len() && walked[i] == left[m];
        assert(removal_pick(filter)(walked[i]));
        assert(false);
    }
}

/// A dry run measures and nothing else: every outcome is `Measured` with
/// the size found, nothing fails, and the total is the sum of the sizes.
pub proof fn lemma_dry_run_reports_sizes(found: Seq<Measurement>)
    ensures
        crate::report::measured_all(removal_contributions(found, true), sizes_of(found)),
        bytes_total(removal_contributions(found, true)) == sum_of(sizes_of(found)),
        failures_of(removal_contributions(found, true)).len() == 0,
{
    crate::report::lemma_measured_total(removal_contributions(found, true), sizes_of(found));
}

} // verus!
