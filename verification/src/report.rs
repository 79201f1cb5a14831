//! The report of a scan: every outcome, the totals, and the failures set
//! apart.

use vstd::prelude::*;
use vstd::seq_lib::*;

use crate::entry::Entry;
use crate::entry::EntryView;
use crate::outcome::ActionOutcome;
use crate::outcome::FailureCause;
use crate::outcome::OutcomeView;

verus! {

/// One entry and what the action on it came to.
pub type Contribution = (EntryView, OutcomeView);

/// Why a report or a run refused what it was asked.
#[derive(Debug, Clone, Copy, PartialEq, Eq, Structural)]
pub enum ScanError {
    /// The total of bytes would no longer fit in 64 bits.
    TotalOverflow,
    /// The run is not in the phase that the request belongs to.
    WrongPhase,
    /// The enumeration has ended: no new work can be dispatched.
    Exhausted,
    /// Work is still in flight, or the enumeration has not ended.
    WorkOutstanding,
    /// No dispatched work is in flight that could be completed.
    NothingInFlight,
    /// More work is in flight than can be counted.
    TooMuchInFlight,
}

/// The bytes that a run of contributions adds up to.
pub open spec fn bytes_total(outcomes: Seq<Contribution>) -> nat
    decreases outcomes.len(),
{
    if outcomes.len() == 0 {
        0
    } else {
        bytes_total(outcomes.drop_last()) + outcomes.last().1.bytes()
    }
}

/// The number of matches among a run of contributions.
pub open spec fn match_total(outcomes: Seq<Contribution>) -> nat
    decreases outcomes.len(),
{
    if outcomes.len() == 0 {
        0
    } else {
        match_total(outcomes.drop_last()) + outcomes.last().1.matches()
    }
}

/// The failures among a run of contributions, in order, each with its
/// entry.
pub open spec fn failures_of(outcomes: Seq<Contribution>) -> Seq<(EntryView, FailureCause)>
    decreases outcomes.len(),
{
    if outcomes.len() == 0 {
        Seq::empty()
    } else {
        match outcomes.last().1.failure() {
            Some(cause) => failures_of(outcomes.drop_last()).push((outcomes.last().0, cause)),
            None => failures_of(outcomes.drop_last()),
        }
    }
}

/// The mathematical value of a [`ScanReport`].
pub struct ReportView {
    pub outcomes: Seq<Contribution>,
    pub total_bytes: nat,
    pub total_matches: nat,
    pub failures: Seq<(EntryView, FailureCause)>,
}

impl ReportView {
    /// The invariant of a report: its totals are the sums over its
    /// outcomes, and its failures mirror the failed outcomes.
    pub open spec fn wf(self) -> bool {
        &&& self.total_bytes == bytes_total(self.outcomes)
        &&& self.total_matches == match_total(self.outcomes)
        &&& self.failures == failures_of(self.outcomes)
    }

    /// The report of the outcomes given.
    pub open spec fn of(outcomes: Seq<Contribution>) -> ReportView {
        ReportView {
            outcomes,
            total_bytes: bytes_total(outcomes),
            total_matches: match_total(outcomes),
            failures: failures_of(outcomes),
        }
    }
}

/// The sums over a run of contributions extended by one.
pub proof fn lemma_totals_push(outcomes: Seq<Contribution>, c: Contribution)
    ensures
        bytes_total(outcomes.push(c)) == bytes_total(outcomes) + c.1.bytes(),
        match_total(outcomes.push(c)) == match_total(outcomes) + c.1.matches(),
        failures_of(outcomes.push(c)) == match c.1.failure() {
            Some(cause) => failures_of(outcomes).push((c.0, cause)),
            None => failures_of(outcomes),
        },
{
    assert(outcomes.push(c).drop_last() =~= outcomes);
}

/// The sums over two runs of contributions, one after the other, are the
/// sums of their sums.
pub proof fn lemma_totals_concat(a: Seq<Contribution>, b: Seq<Contribution>)
    ensures
        bytes_total(a + b) == bytes_total(a) + bytes_total(b),
        match_total(a + b) == match_total(a) + match_total(b),
        failures_of(a + b) == failures_of(a) + failures_of(b),
    decreases b.len(),
{
    if b.len() == 0 {
        assert(a + b =~= a);
        assert(failures_of(a) + failures_of(b) =~= failures_of(a));
    } else {
        lemma_totals_concat(a, b.drop_last());
        assert((a + b).drop_last() =~= a + b.drop_last());
        assert(failures_of(a + b) =~= failures_of(a) + failures_of(b));
    }
}

/// No run of contributions holds more matches or failures than outcomes.
pub proof fn lemma_counts_bounded(outcomes: Seq<Contribution>)
    ensures
        match_total(outcomes) <= outcomes.len(),
        failures_of(outcomes).len() <= outcomes.len(),
    decreases outcomes.len(),
{
    if outcomes.len() > 0 {
        lemma_counts_bounded(outcomes.drop_last());
    }
}

/// Taking one contribution out of a run takes its share out of the sums.
proof fn lemma_totals_remove(outcomes: Seq<Contribution>, at: int)
    requires
        0 <= at < outcomes.len(),
    ensures
        bytes_total(outcomes) == bytes_total(outcomes.remove(at)) + outcomes[at].1.bytes(),
        match_total(outcomes) == match_total(outcomes.remove(at)) + outcomes[at].1.matches(),
{
    let front = outcomes.subrange(0, at);
    let back = outcomes.subrange(at + 1, outcomes.len() as int);
    assert(outcomes =~= front.push(outcomes[at]) + back);
    assert(outcomes.remove(at) =~= front + back);
    lemma_totals_concat(front.push(outcomes[at]), back);
    lemma_totals_concat(front, back);
    lemma_totals_push(front, outcomes[at]);
}

/// The totals do not depend on the order in which the contributions
/// arrived: two runs that hold the same contributions, each as often as the
/// other, add up to the same bytes and the same matches.
pub proof fn lemma_totals_ignore_order(a: Seq<Contribution>, b: Seq<Contribution>)
    requires
        a.to_multiset() == b.to_multiset(),
    ensures
        bytes_total(a) == bytes_total(b),
        match_total(a) == match_total(b),
    decreases a.len(),
{
    broadcast use group_to_multiset_ensures;

    a.to_multiset_ensures();
    b.to_multiset_ensures();
    assert(a.len() == b.len());
    if a.len() > 0 {
        let x = a.last();
        assert(a.to_multiset().count(x) > 0);
        assert(b.to_multiset().count(x) > 0);
        assert(b.contains(x));
        let at = choose|i: int| 0 <= i < b.len() && b[i] == x;
        let shorter = a.drop_last();
        assert(shorter =~= a.remove(a.len() - 1));
        to_multiset_remove(a, a.len() - 1);
        to_multiset_remove(b, at);
        assert(shorter.to_multiset() =~= b.remove(at).to_multiset());
        lemma_totals_ignore_order(shorter, b.remove(at));
        lemma_totals_remove(b, at);
    }
}

/// The bytes that the workers' shares add up to, share by share.
pub open spec fn shares_bytes(shares: Seq<Seq<Contribution>>) -> nat
    decreases shares.len(),
{
    if shares.len() == 0 {
        0
    } else {
        shares_bytes(shares.drop_last()) + bytes_total(shares.last())
    }
}

/// The matches that the workers' shares add up to, share by share.
pub open spec fn shares_matches(shares: Seq<Seq<Contribution>>) -> nat
    decreases shares.len(),
{
    if shares.len() == 0 {
        0
    } else {
        shares_matches(shares.drop_last()) + match_total(shares.last())
    }
}

/// All the shares, one after the other.
pub open spec fn joined(shares: Seq<Seq<Contribution>>) -> Seq<Contribution>
    decreases shares.len(),
{
    if shares.len() == 0 {
        Seq::empty()
    } else {
        joined(shares.drop_last()) + shares.last()
    }
}

proof fn lemma_shares_add_up(shares: Seq<Seq<Contribution>>)
    ensures
        shares_bytes(shares) == bytes_total(joined(shares)),
        shares_matches(shares) == match_total(joined(shares)),
    decreases shares.len(),
{
    if shares.len() > 0 {
        lemma_shares_add_up(shares.drop_last());
        lemma_totals_concat(joined(shares.drop_last()), shares.last());
    }
}

/// However the work is split among workers, and in whatever order each
/// worker's outcomes arrive, the totals are those of one worker doing all
/// of it in turn: adding up the shares of any number of workers gives the
/// totals of the whole, as long as every contribution is in exactly one
/// share.
pub proof fn lemma_split_work_same_totals(
    whole: Seq<Contribution>,
    shares: Seq<Seq<Contribution>>,
)
    requires
        joined(shares).to_multiset() == whole.to_multiset(),
    ensures
        shares_bytes(shares) == bytes_total(whole),
        shares_matches(shares) == match_total(whole),
{
    lemma_shares_add_up(shares);
    lemma_totals_ignore_order(joined(shares), whole);
}

/// A measuring run over subtrees of the sizes given, none of them failed:
/// each outcome is `Measured` with the size of its subtree.
pub open spec fn measured_all(outcomes: Seq<Contribution>, sizes: Seq<nat>) -> bool {
    &&& outcomes.len() == sizes.len()
    &&& forall|i: int|
        0 <= i < outcomes.len() ==> (#[trigger] outcomes[i]).1 == (OutcomeView::Measured {
            bytes: sizes[i],
        })
}

/// The sum of the sizes.
pub open spec fn sum_of(sizes: Seq<nat>) -> nat
    decreases sizes.len(),
{
    if sizes.len() == 0 {
        0
    } else {
        sum_of(sizes.drop_last()) + sizes.last()
    }
}

/// A run that only measures reports the sum of the sizes as its total.
pub proof fn lemma_measured_total(outcomes: Seq<Contribution>, sizes: Seq<nat>)
    requires
        measured_all(outcomes, sizes),
    ensures
        bytes_total(outcomes) == sum_of(sizes),
        failures_of(outcomes).len() == 0,
    decreases outcomes.len(),
{
    if outcomes.len() > 0 {
        assert(measured_all(outcomes.drop_last(), sizes.drop_last())) by {
            assert forall|i: int| 0 <= i < outcomes.drop_last().len() implies (
            #[trigger] outcomes.drop_last()[i]).1 == (OutcomeView::Measured {
                bytes: sizes.drop_last()[i],
            }) by {
                assert(outcomes.drop_last()[i] == outcomes[i]);
            }
        }
        lemma_measured_total(outcomes.drop_last(), sizes.drop_last());
        assert(outcomes.last() == outcomes[outcomes.len() - 1]);
    }
}


/// The views of the outcomes held by a report.
pub open spec fn contribution_views(held: Seq<(Entry, ActionOutcome)>) -> Seq<Contribution> {
    held.map_values(|c: (Entry, ActionOutcome)| (c.0@, c.1@))
}

/// The views of the failures held by a report.
pub open spec fn failure_views(held: Seq<(Entry, FailureCause)>) -> Seq<(EntryView, FailureCause)> {
    held.map_values(|f: (Entry, FailureCause)| (f.0@, f.1))
}

/// The report of a scan. Its totals always agree with its outcomes, and
/// its failures always mirror the failed outcomes.
pub struct ScanReport {
    outcomes: Vec<(Entry, ActionOutcome)>,
    total_bytes: u64,
    total_matches: u64,
    failures: Vec<(Entry, FailureCause)>,
}

impl View for ScanReport {
    type V = ReportView;

    closed spec fn view(&self) -> ReportView {
        ReportView {
            outcomes: contribution_views(self.outcomes@),
            total_bytes: self.total_bytes as nat,
            total_matches: self.total_matches as nat,
            failures: failure_views(self.failures@),
        }
    }
}

impl ScanReport {
    #[verifier::type_invariant]
    spec fn valid(self) -> bool {
        self@.wf()
    }

    /// The report of a scan in which nothing has happened yet.
    pub fn new() -> (report: ScanReport)
        ensures
            report@ == ReportView::of(Seq::empty()),
    {
        let outcomes: Vec<(Entry, ActionOutcome)> = Vec::new();
        let failures: Vec<(Entry, FailureCause)> = Vec::new();
        assert(contribution_views(outcomes@) =~= Seq::<Contribution>::empty());
        assert(failure_views(failures@) =~= Seq::<(EntryView, FailureCause)>::empty());
        ScanReport { outcomes, total_bytes: 0, total_matches: 0, failures }
    }

    /// Adds one outcome to the report: the outcome joins the outcomes, its
    /// bytes and its match join the totals, and a failure is mirrored among
    /// the failures. The report refuses the outcome, and stays as it was,
    /// only where the total of bytes would pass what 64 bits hold.
    pub fn record(&mut self, entry: Entry, outcome: ActionOutcome) -> (done: Result<
        (),
        ScanError,
    >)
        ensures
            old(self)@.wf(),
            final(self)@.wf(),
            match done {
                Ok(_) => final(self)@.outcomes == old(self)@.outcomes.push((entry@, outcome@)),
                Err(error) => {
                    &&& error == ScanError::TotalOverflow
                    &&& final(self)@ == old(self)@
                },
            },
            done is Ok <==> old(self)@.total_bytes + outcome@.bytes() <= u64::MAX,
    {
        proof {
            use_type_invariant(&*self);
        }
        let bytes = outcome.bytes();
        if bytes > u64::MAX - self.total_bytes {
            return Err(ScanError::TotalOverflow);
        }
        let mut taken = ScanReport::new();
        core::mem::swap(self, &mut taken);
        let ScanReport { outcomes, total_bytes, total_matches, failures } = taken;
        let mut outcomes = outcomes;
        let mut failures = failures;
        let ghost before = contribution_views(outcomes@);
        let ghost failed_before = failure_views(failures@);
        proof {
            lemma_totals_push(before, (entry@, outcome@));
            lemma_counts_bounded(before.push((entry@, outcome@)));
        }
        let matched: u64 = if outcome.is_match() {
            1
        } else {
            0
        };
        if let Some(cause) = outcome.failure() {
            failures.push((entry.clone(), cause));
            assert(failure_views(failures@) =~= failed_before.push((entry@, cause)));
        }
        outcomes.push((entry, outcome));
        assert(contribution_views(outcomes@) =~= before.push((entry@, outcome@)));
        let held = outcomes.len();
        *self = ScanReport {
            outcomes,
            total_bytes: total_bytes + bytes,
            total_matches: total_matches + matched,
            failures,
        };
        Ok(())
    }

    /// Takes another report into this one, as a worker's share is taken
    /// into the whole at the end of a run: its outcomes follow those
    /// already here and the totals add up. The merge is refused, and this
    /// report stays as it was, only where the total of bytes would pass
    /// what 64 bits hold.
    pub fn merge(&mut self, other: ScanReport) -> (done: Result<(), ScanError>)
        ensures
            old(self)@.wf(),
            other@.wf(),
            final(self)@.wf(),
            match done {
                Ok(_) => final(self)@.outcomes == old(self)@.outcomes + other@.outcomes,
                Err(error) => {
                    &&& error == ScanError::TotalOverflow
                    &&& final(self)@ == old(self)@
                },
            },
            done is Ok <==> old(self)@.total_bytes + other@.total_bytes <= u64::MAX,
    {
        proof {
            use_type_invariant(&*self);
            use_type_invariant(&other);
        }
        if other.total_bytes > u64::MAX - self.total_bytes {
            return Err(ScanError::TotalOverflow);
        }
        let mut taken = ScanReport::new();
        core::mem::swap(self, &mut taken);
        let ScanReport { outcomes, total_bytes, total_matches, failures } = taken;
        let ScanReport {
            outcomes: more,
            total_bytes: more_bytes,
            total_matches: more_matches,
            failures: more_failures,
        } = other;
        let mut outcomes = outcomes;
        let mut failures = failures;
        let mut more = more;
        let mut more_failures = more_failures;
        let ghost a = contribution_views(outcomes@);
        let ghost b = contribution_views(more@);
        let ghost fa = failure_views(failures@);
        let ghost fb = failure_views(more_failures@);
        outcomes.append(&mut more);
        failures.append(&mut more_failures);
        let held = outcomes.len();
        proof {
            assert(contribution_views(outcomes@) =~= a + b);
            assert(failure_views(failures@) =~= fa + fb);
            lemma_totals_concat(a, b);
            lemma_counts_bounded(a + b);
        }
        *self = ScanReport {
            outcomes,
            total_bytes: total_bytes + more_bytes,
            total_matches: total_matches + more_matches,
            failures,
        };
        Ok(())
    }

    /// Every outcome of the scan with its entry, in the order recorded.
    pub fn outcomes(&self) -> (held: &Vec<(Entry, ActionOutcome)>)
        ensures
            contribution_views(held@) == self@.outcomes,
            self@.wf(),
    {
        proof {
            use_type_invariant(self);
        }
        &self.outcomes
    }

    /// The failed outcomes with their entries, in the order recorded.
    pub fn failures(&self) -> (held: &Vec<(Entry, FailureCause)>)
        ensures
            failure_views(held@) == self@.failures,
            self@.wf(),
    {
        proof {
            use_type_invariant(self);
        }
        &self.failures
    }

    /// The bytes measured or reclaimed by the outcomes that did not fail.
    pub fn total_bytes(&self) -> (total: u64)
        ensures
            total == self@.total_bytes,
            self@.wf(),
    {
        proof {
            use_type_invariant(self);
        }
        self.total_bytes
    }

    /// The number of matching lines found.
    pub fn total_matches(&self) -> (total: u64)
        ensures
            total == self@.total_matches,
            self@.wf(),
    {
        proof {
            use_type_invariant(self);
        }
        self.total_matches
    }
}

} // verus!
