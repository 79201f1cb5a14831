//! The run of a scan as a state machine. Outcomes are taken in while the
//! run is scanning; the report is sealed only behind the barrier, when the
//! enumeration has ended and no dispatched work is in flight; after that
//! nothing changes it.

use vstd::prelude::*;

use crate::entry::Entry;
use crate::outcome::ActionOutcome;
use crate::report::Contribution;
use crate::report::ReportView;
use crate::report::ScanError;
use crate::report::ScanReport;

verus! {

/// The phases of a run, in the order in which a run passes through them.
#[derive(Debug, Clone, Copy, PartialEq, Eq, Structural)]
pub enum Phase {
    /// Nothing has started.
    Idle,
    /// Entries are enumerated, work is dispatched, outcomes come in.
    Scanning,
    /// All work is done; the report is being closed.
    Finalizing,
    /// The report is final.
    Done,
}

/// What can happen to a run.
pub enum Event {
    /// The run starts.
    Begin,
    /// One entry is handed to an executor.
    Dispatch,
    /// An executor delivers one outcome.
    Contribute(Contribution),
    /// A worker delivers the report of its share.
    Absorb(ReportView),
    /// An executor is done with the entry it was handed.
    Complete,
    /// The enumeration has no more entries.
    Exhaust,
    /// The report is to be closed.
    Seal,
    /// The closed report is to be published.
    Finish,
}

/// The mathematical value of an [`Aggregator`].
pub struct AggregatorView {
    pub phase: Phase,
    pub report: ReportView,
    pub in_flight: nat,
    pub exhausted: bool,
}

impl AggregatorView {
    /// The invariant of a run: its report is sound; before the start
    /// nothing has happened; and from the barrier on the enumeration has
    /// ended and nothing is in flight.
    pub open spec fn wf(self) -> bool {
        &&& self.report.wf()
        &&& self.in_flight <= usize::MAX
        &&& (self.phase is Idle ==> self.report.outcomes.len() == 0 && self.in_flight == 0
            && !self.exhausted)
        &&& (self.phase is Finalizing || self.phase is Done ==> self.in_flight == 0
            && self.exhausted)
    }

    /// The barrier: the enumeration has ended and every dispatched
    /// executor has completed.
    pub open spec fn at_barrier(self) -> bool {
        self.exhausted && self.in_flight == 0
    }

    /// The run with another report in place of its own.
    pub open spec fn with_outcomes(self, outcomes: Seq<Contribution>) -> AggregatorView {
        AggregatorView { report: ReportView::of(outcomes), ..self }
    }

    /// The state that an event leads to, or the reason why the run
    /// refuses it. A refused event changes nothing.
    pub open spec fn step(self, event: Event) -> Result<AggregatorView, ScanError> {
        match event {
            Event::Begin => if self.phase is Idle {
                Ok(AggregatorView { phase: Phase::Scanning, ..self })
            } else {
                Err(ScanError::WrongPhase)
            },
            Event::Dispatch => if !(self.phase is Scanning) {
                Err(ScanError::WrongPhase)
            } else if self.exhausted {
                Err(ScanError::Exhausted)
            } else if self.in_flight >= usize::MAX {
                Err(ScanError::TooMuchInFlight)
            } else {
                Ok(AggregatorView { in_flight: self.in_flight + 1, ..self })
            },
            Event::Contribute(c) => if !(self.phase is Scanning) {
                Err(ScanError::WrongPhase)
            } else if self.in_flight == 0 {
                Err(ScanError::NothingInFlight)
            } else if self.report.total_bytes + c.1.bytes() > u64::MAX {
                Err(ScanError::TotalOverflow)
            } else {
                Ok(self.with_outcomes(self.report.outcomes.push(c)))
            },
            Event::Absorb(share) => if !(self.phase is Scanning) {
                Err(ScanError::WrongPhase)
            } else if self.report.total_bytes + share.total_bytes > u64::MAX {
                Err(ScanError::TotalOverflow)
            } else {
                Ok(self.with_outcomes(self.report.outcomes + share.outcomes))
            },
            Event::Complete => if !(self.phase is Scanning) {
                Err(ScanError::WrongPhase)
            } else if self.in_flight == 0 {
                Err(ScanError::NothingInFlight)
            } else {
                Ok(AggregatorView { in_flight: (self.in_flight - 1) as nat, ..self })
            },
            Event::Exhaust => if self.phase is Scanning {
                Ok(AggregatorView { exhausted: true, ..self })
            } else {
                Err(ScanError::WrongPhase)
            },
            Event::Seal => if !(self.phase is Scanning) {
                Err(ScanError::WrongPhase)
            } else if !self.at_barrier() {
                Err(ScanError::WorkOutstanding)
            } else {
                Ok(AggregatorView { phase: Phase::Finalizing, ..self })
            },
            Event::Finish => if self.phase is Finalizing {
                Ok(AggregatorView { phase: Phase::Done, ..self })
            } else {
                Err(ScanError::WrongPhase)
            },
        }
    }

    /// What a method that handles `event` owes: on success the state that
    /// the event leads to, on refusal the reason and the state unchanged.
    pub open spec fn handled(
        self,
        event: Event,
        done: Result<(), ScanError>,
        after: AggregatorView,
    ) -> bool {
        match self.step(event) {
            Ok(next) => done is Ok && after == next,
            Err(error) => done == Err::<(), ScanError>(error) && after == self,
        }
    }
}

/// The place of a phase in the order of a run.
pub open spec fn phase_rank(phase: Phase) -> nat {
    match phase {
        Phase::Idle => 0,
        Phase::Scanning => 1,
        Phase::Finalizing => 2,
        Phase::Done => 3,
    }
}

/// Every event keeps the invariant of the run, a run never goes back to an
/// earlier phase, and what was reported is never taken back.
pub proof fn lemma_step_keeps_invariant(state: AggregatorView, event: Event)
    requires
        state.wf(),
        event matches Event::Absorb(share) ==> share.wf(),
    ensures
        state.step(event) matches Ok(next) ==> {
            &&& next.wf()
            &&& phase_rank(state.phase) <= phase_rank(next.phase) <= phase_rank(state.phase) + 1
            &&& state.report.outcomes.is_prefix_of(next.report.outcomes)
        },
{
    match event {
        Event::Contribute(c) => {
            crate::report::lemma_totals_push(state.report.outcomes, c);
        },
        Event::Absorb(share) => {
            crate::report::lemma_totals_concat(state.report.outcomes, share.outcomes);
        },
        _ => {},
    }
}

/// No contribution is lost and none is counted twice: an outcome that is
/// taken in is in the report exactly once more than before, a share that
/// is absorbed adds each of its outcomes as often as it holds it, and every
/// other event leaves the outcomes as they are.
pub proof fn lemma_nothing_lost_or_doubled(state: AggregatorView, event: Event)
    requires
        state.step(event) is Ok,
    ensures
        state.step(event)->Ok_0.report.outcomes.to_multiset() == match event {
            Event::Contribute(c) => state.report.outcomes.to_multiset().insert(c),
            Event::Absorb(share) => state.report.outcomes.to_multiset().add(
                share.outcomes.to_multiset(),
            ),
            _ => state.report.outcomes.to_multiset(),
        },
{
    broadcast use vstd::seq_lib::group_to_multiset_ensures;

    match event {
        Event::Contribute(c) => {
            state.report.outcomes.to_multiset_ensures();
        },
        Event::Absorb(share) => {
            vstd::seq_lib::lemma_multiset_commutative(state.report.outcomes, share.outcomes);
        },
        _ => {},
    }
}

/// The report is closed only behind the barrier: when the enumeration has
/// ended and nothing dispatched is still in flight.
pub proof fn lemma_seal_waits_for_barrier(state: AggregatorView)
    requires
        state.step(Event::Seal) is Ok,
    ensures
        state.phase is Scanning,
        state.exhausted,
        state.in_flight == 0,
{
}

/// A run that is done refuses every event: its report is final.
pub proof fn lemma_done_is_final(state: AggregatorView, event: Event)
    requires
        state.phase is Done,
    ensures
        state.step(event) == Err::<AggregatorView, ScanError>(ScanError::WrongPhase),
{
}

/// A run that has passed the barrier takes in no further outcome.
pub proof fn lemma_sealed_takes_nothing(state: AggregatorView, event: Event)
    requires
        state.phase is Finalizing || state.phase is Done,
        state.step(event) is Ok,
    ensures
        state.step(event)->Ok_0.report == state.report,
{
}

/// One run of a scan and the report that it builds.
pub struct Aggregator {
    phase: Phase,
    report: ScanReport,
    in_flight: usize,
    exhausted: bool,
}

impl View for Aggregator {
    type V = AggregatorView;

    closed spec fn view(&self) -> AggregatorView {
        AggregatorView {
            phase: self.phase,
            report: self.report@,
            in_flight: self.in_flight as nat,
            exhausted: self.exhausted,
        }
    }
}

impl Aggregator {
    #[verifier::type_invariant]
    spec fn valid(self) -> bool {
        self@.wf()
    }

    /// A run that has not started.
    pub fn new() -> (run: Aggregator)
        ensures
            run@ == (AggregatorView {
                phase: Phase::Idle,
                report: ReportView::of(Seq::empty()),
                in_flight: 0,
                exhausted: false,
            }),
            run@.wf(),
    {
        Aggregator { phase: Phase::Idle, report: ScanReport::new(), in_flight: 0, exhausted: false }
    }

    /// Takes the run apart, leaving a fresh one in its place.
    fn take(&mut self) -> (parts: (Phase, ScanReport, usize, bool))
        ensures
            old(self)@.wf(),
            old(self)@ == (AggregatorView {
                phase: parts.0,
                report: parts.1@,
                in_flight: parts.2 as nat,
                exhausted: parts.3,
            }),
    {
        proof {
            use_type_invariant(&*self);
        }
        let mut taken = Aggregator::new();
        core::mem::swap(self, &mut taken);
        let Aggregator { phase, report, in_flight, exhausted } = taken;
        (phase, report, in_flight, exhausted)
    }

    /// Starts the run.
    pub fn begin(&mut self) -> (done: Result<(), ScanError>)
        ensures
            old(self)@.handled(Event::Begin, done, final(self)@),
    {
        let (phase, report, in_flight, exhausted) = self.take();
        match phase {
            Phase::Idle => {
                *self = Aggregator { phase: Phase::Scanning, report, in_flight, exhausted };
                Ok(())
            },
            _ => {
                *self = Aggregator { phase, report, in_flight, exhausted };
                Err(ScanError::WrongPhase)
            },
        }
    }

    /// Counts one entry as handed to an executor.
    pub fn dispatch(&mut self) -> (done: Result<(), ScanError>)
        ensures
            old(self)@.handled(Event::Dispatch, done, final(self)@),
    {
        let (phase, report, in_flight, exhausted) = self.take();
        let verdict = match phase {
            Phase::Scanning => if exhausted {
                Err(ScanError::Exhausted)
            } else if in_flight == usize::MAX {
                Err(ScanError::TooMuchInFlight)
            } else {
                Ok(())
            },
            _ => Err(ScanError::WrongPhase),
        };
        let in_flight = if verdict.is_ok() {
            in_flight + 1
        } else {
            in_flight
        };
        *self = Aggregator { phase, report, in_flight, exhausted };
        verdict
    }

    /// Takes in one outcome from an executor that is at work.
    pub fn contribute(&mut self, entry: Entry, outcome: ActionOutcome) -> (done: Result<
        (),
        ScanError,
    >)
        ensures
            old(self)@.handled(Event::Contribute((entry@, outcome@)), done, final(self)@),
    {
        let (phase, report, in_flight, exhausted) = self.take();
        let mut report = report;
        let verdict = match phase {
            Phase::Scanning => if in_flight == 0 {
                Err(ScanError::NothingInFlight)
            } else {
                report.record(entry, outcome)
            },
            _ => Err(ScanError::WrongPhase),
        };
        *self = Aggregator { phase, report, in_flight, exhausted };
        verdict
    }

    /// Takes in the report that a worker built of its share of the work.
    pub fn absorb(&mut self, share: ScanReport) -> (done: Result<(), ScanError>)
        ensures
            old(self)@.handled(Event::Absorb(share@), done, final(self)@),
    {
        let (phase, report, in_flight, exhausted) = self.take();
        let mut report = report;
        let verdict = match phase {
            Phase::Scanning => report.merge(share),
            _ => Err(ScanError::WrongPhase),
        };
        *self = Aggregator { phase, report, in_flight, exhausted };
        verdict
    }

    /// Counts one executor as done with its entry.
    pub fn complete(&mut self) -> (done: Result<(), ScanError>)
        ensures
            old(self)@.handled(Event::Complete, done, final(self)@),
    {
        let (phase, report, in_flight, exhausted) = self.take();
        let verdict = match phase {
            Phase::Scanning => if in_flight == 0 {
                Err(ScanError::NothingInFlight)
            } else {
                Ok(())
            },
            _ => Err(ScanError::WrongPhase),
        };
        let in_flight = if verdict.is_ok() {
            in_flight - 1
        } else {
            in_flight
        };
        *self = Aggregator { phase, report, in_flight, exhausted };
        verdict
    }

    /// Notes that the enumeration has ended.
    pub fn exhaust(&mut self) -> (done: Result<(), ScanError>)
        ensures
            old(self)@.handled(Event::Exhaust, done, final(self)@),
    {
        let (phase, report, in_flight, exhausted) = self.take();
        match phase {
            Phase::Scanning => {
                *self = Aggregator { phase, report, in_flight, exhausted: true };
                Ok(())
            },
            _ => {
                *self = Aggregator { phase, report, in_flight, exhausted };
                Err(ScanError::WrongPhase)
            },
        }
    }

    /// Closes the report, if the run stands at the barrier.
    pub fn seal(&mut self) -> (done: Result<(), ScanError>)
        ensures
            old(self)@.handled(Event::Seal, done, final(self)@),
    {
        let (phase, report, in_flight, exhausted) = self.take();
        match phase {
            Phase::Scanning => if exhausted && in_flight == 0 {
                *self = Aggregator { phase: Phase::Finalizing, report, in_flight, exhausted };
                Ok(())
            } else {
                *self = Aggregator { phase, report, in_flight, exhausted };
                Err(ScanError::WorkOutstanding)
            },
            _ => {
                *self = Aggregator { phase, report, in_flight, exhausted };
                Err(ScanError::WrongPhase)
            },
        }
    }

    /// Publishes the closed report.
    pub fn finish(&mut self) -> (done: Result<(), ScanError>)
        ensures
            old(self)@.handled(Event::Finish, done, final(self)@),
    {
        let (phase, report, in_flight, exhausted) = self.take();
        match phase {
            Phase::Finalizing => {
                *self = Aggregator { phase: Phase::Done, report, in_flight, exhausted };
                Ok(())
            },
            _ => {
                *self = Aggregator { phase, report, in_flight, exhausted };
                Err(ScanError::WrongPhase)
            },
        }
    }

    /// The phase the run is in.
    pub fn phase(&self) -> (phase: Phase)
        ensures
            phase == self@.phase,
            self@.wf(),
    {
        proof {
            use_type_invariant(self);
        }
        self.phase
    }

    /// The report, once the run is done.
    pub fn report(&self) -> (published: Option<&ScanReport>)
        ensures
            self@.wf(),
            match published {
                Some(report) => self@.phase is Done && report@ == self@.report,
                None => !(self@.phase is Done),
            },
    {
        proof {
            use_type_invariant(self);
        }
        match self.phase {
            Phase::Done => Some(&self.report),
            _ => None,
        }
    }
}

} // verus!
