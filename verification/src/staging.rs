//! The two-phase protocol by which a batch of files is replaced: every file
//! is staged before any source file is removed, and a replacement is written
//! only from staged content. The protocol decides the next step; the caller
//! performs it and reports how it went.

use vstd::prelude::*;

use crate::outcome::ActionOutcome;
use crate::outcome::FailureCause;
use crate::outcome::OutcomeView;
use crate::rename::Rename;

verus! {

/// How far one file of the batch has come.
#[derive(Debug, Clone, Copy, PartialEq, Eq, Structural)]
pub enum Progress {
    /// Nothing has been done for the file yet.
    Waiting,
    /// Its content is held in staging; the source file is in place.
    Staged,
    /// Its content is held in staging; the source file has been removed.
    Removed,
    /// The replacement has been written from the staged content.
    Committed,
    /// The batch was given up; the staged copy was discarded and the
    /// source file is in place.
    Dropped,
    /// Staging or removing failed; the source file is in place.
    Failed(FailureCause),
    /// Writing the replacement failed after the source file was removed; the
    /// content survives in staging only.
    Stranded(FailureCause),
}

/// What the caller is to do next.
#[derive(Debug, Clone, Copy, PartialEq, Eq, Structural)]
pub enum Step {
    /// Copy the content of the file with this index into staging.
    Stage(usize),
    /// Remove the source file with this index.
    Remove(usize),
    /// Write the replacement of the file with this index from its staged
    /// content.
    Commit(usize),
    /// Discard the staged copy of the file with this index.
    Discard(usize),
    /// Nothing is left to do.
    Finished,
}

/// The state of a batch: the progress of each file, and whether the batch
/// was given up.
pub struct Staging {
    progress: Vec<Progress>,
    aborted: bool,
}

/// The mathematical value of a [`Staging`].
pub struct StagingView {
    pub progress: Seq<Progress>,
    pub aborted: bool,
}

/// No file of the batch is at `what`.
pub open spec fn none_at(progress: Seq<Progress>, what: Progress) -> bool {
    forall|i: int| 0 <= i < progress.len() ==> #[trigger] progress[i] != what
}

/// File `at` is the first of the batch at `what`.
pub open spec fn first_at(progress: Seq<Progress>, what: Progress, at: int) -> bool {
    &&& 0 <= at < progress.len()
    &&& progress[at] == what
    &&& forall|i: int| 0 <= i < at ==> #[trigger] progress[i] != what
}

/// The source file of the file has been removed.
pub open spec fn source_gone(p: Progress) -> bool {
    p is Removed || p is Committed || p is Stranded
}

impl StagingView {
    /// The rule of the protocol. A batch that was given up has removed no
    /// source file, and while a file still waits to be staged no source
    /// file has been removed either.
    pub open spec fn wf(self) -> bool {
        forall|i: int|
            0 <= i < self.progress.len() && source_gone(#[trigger] self.progress[i]) ==> {
                &&& !self.aborted
                &&& none_at(self.progress, Progress::Waiting)
            }
    }

    /// Whether `step` is the step that the protocol issues in this state.
    /// Files are staged first, in order. If that went well for all of them,
    /// the source files are removed, then the replacements written. If the
    /// batch was given up, the staged copies are discarded.
    pub open spec fn issues(self, step: Step) -> bool {
        match step {
            Step::Stage(i) => !self.aborted && first_at(self.progress, Progress::Waiting, i as int),
            Step::Discard(i) => self.aborted && first_at(self.progress, Progress::Staged, i as int),
            Step::Remove(i) => {
                &&& !self.aborted
                &&& none_at(self.progress, Progress::Waiting)
                &&& first_at(self.progress, Progress::Staged, i as int)
            },
            Step::Commit(i) => {
                &&& !self.aborted
                &&& none_at(self.progress, Progress::Waiting)
                &&& none_at(self.progress, Progress::Staged)
                &&& first_at(self.progress, Progress::Removed, i as int)
            },
            Step::Finished => if self.aborted {
                none_at(self.progress, Progress::Staged)
            } else {
                &&& none_at(self.progress, Progress::Waiting)
                &&& none_at(self.progress, Progress::Staged)
                &&& none_at(self.progress, Progress::Removed)
            },
        }
    }

    /// The state after the caller performed `step` and it went as `failure`
    /// says: `None` for success.
    pub open spec fn after(self, step: Step, failure: Option<FailureCause>) -> StagingView {
        match (step, failure) {
            (Step::Stage(i), None) => StagingView {
                progress: self.progress.update(i as int, Progress::Staged),
                aborted: self.aborted,
            },
            (Step::Stage(i), Some(cause)) => StagingView {
                progress: self.progress.update(i as int, Progress::Failed(cause)),
                aborted: true,
            },
            (Step::Remove(i), None) => StagingView {
                progress: self.progress.update(i as int, Progress::Removed),
                aborted: self.aborted,
            },
            (Step::Remove(i), Some(cause)) => StagingView {
                progress: self.progress.update(i as int, Progress::Failed(cause)),
                aborted: self.aborted,
            },
            (Step::Commit(i), None) => StagingView {
                progress: self.progress.update(i as int, Progress::Committed),
                aborted: self.aborted,
            },
            (Step::Commit(i), Some(cause)) => StagingView {
                progress: self.progress.update(i as int, Progress::Stranded(cause)),
                aborted: self.aborted,
            },
            (Step::Discard(i), _) => StagingView {
                progress: self.progress.update(i as int, Progress::Dropped),
                aborted: self.aborted,
            },
            (Step::Finished, _) => self,
        }
    }

    /// The steps still ahead of the batch at most: three for a file that
    /// waits, two for a staged one, one for a removed one.
    pub open spec fn steps_left(self) -> nat {
        steps_ahead(self.progress)
    }
}

/// The steps that the files of `progress` can still take.
pub open spec fn steps_ahead(progress: Seq<Progress>) -> nat
    decreases progress.len(),
{
    if progress.len() == 0 {
        0
    } else {
        steps_ahead(progress.drop_last()) + steps_of(progress.last())
    }
}

/// The steps that one file can still take.
pub open spec fn steps_of(p: Progress) -> nat {
    match p {
        Progress::Waiting => 3,
        Progress::Staged => 2,
        Progress::Removed => 1,
        _ => 0,
    }
}

proof fn lemma_steps_ahead_update(progress: Seq<Progress>, at: int, p: Progress)
    requires
        0 <= at < progress.len(),
    ensures
        steps_ahead(progress.update(at, p)) + steps_of(progress[at]) == steps_ahead(progress)
            + steps_of(p),
    decreases progress.len(),
{
    let updated = progress.update(at, p);
    if at == progress.len() - 1 {
        assert(updated.drop_last() =~= progress.drop_last());
    } else {
        assert(updated.drop_last() =~= progress.drop_last().update(at, p));
        lemma_steps_ahead_update(progress.drop_last(), at, p);
    }
}

/// In every state the protocol issues exactly one step.
pub proof fn lemma_one_step(state: StagingView, a: Step, b: Step)
    requires
        state.issues(a),
        state.issues(b),
    ensures
        a == b,
{
}

/// The protocol keeps its rule, and every step but the last brings the
/// batch nearer to its end.
pub proof fn lemma_step_keeps_rule(state: StagingView, step: Step, failure: Option<FailureCause>)
    requires
        state.wf(),
        state.issues(step),
    ensures
        state.after(step, failure).wf(),
        step != Step::Finished ==> state.after(step, failure).steps_left() < state.steps_left(),
{
    let next = state.after(step, failure);
    match step {
        Step::Stage(i) => {
            lemma_steps_ahead_update(state.progress, i as int, next.progress[i as int]);
            assert forall|k: int|
                0 <= k < next.progress.len() implies !source_gone(#[trigger] next.progress[k]) by {
                if source_gone(next.progress[k]) {
                    assert(state.progress[k] == next.progress[k]);
                    assert(state.progress[i as int] == Progress::Waiting);
                }
            }
        },
        Step::Remove(i) => {
            lemma_steps_ahead_update(state.progress, i as int, next.progress[i as int]);
            assert(none_at(next.progress, Progress::Waiting));
        },
        Step::Commit(i) => {
            lemma_steps_ahead_update(state.progress, i as int, next.progress[i as int]);
            assert(none_at(next.progress, Progress::Waiting));
        },
        Step::Discard(i) => {
            lemma_steps_ahead_update(state.progress, i as int, next.progress[i as int]);
            assert forall|k: int|
                0 <= k < next.progress.len() implies !source_gone(#[trigger] next.progress[k]) by {
                if source_gone(next.progress[k]) {
                    assert(state.progress[k] == next.progress[k]);
                }
            }
        },
        Step::Finished => {},
    }
}

/// A source file is removed only once every file of the batch is staged.
pub proof fn lemma_removal_waits_for_staging(state: StagingView, at: usize)
    requires
        state.issues(Step::Remove(at)),
    ensures
        !state.aborted,
        state.progress[at as int] == Progress::Staged,
        none_at(state.progress, Progress::Waiting),
{
}

/// A replacement is written only for a file whose source file is gone and
/// whose content is staged, and only once no file is left to remove.
pub proof fn lemma_commit_follows_removal(state: StagingView, at: usize)
    requires
        state.issues(Step::Commit(at)),
    ensures
        !state.aborted,
        state.progress[at as int] == Progress::Removed,
        none_at(state.progress, Progress::Waiting),
        none_at(state.progress, Progress::Staged),
{
}

/// A batch that was given up has removed no source file.
pub proof fn lemma_given_up_is_untouched(state: StagingView, at: int)
    requires
        state.wf(),
        state.aborted,
        0 <= at < state.progress.len(),
    ensures
        !source_gone(state.progress[at]),
{
}

impl View for Staging {
    type V = StagingView;

    closed spec fn view(&self) -> StagingView {
        StagingView { progress: self.progress@, aborted: self.aborted }
    }
}

impl Staging {
    #[verifier::type_invariant]
    spec fn valid(self) -> bool {
        self@.wf()
    }

    /// A batch of `files` files, none of them touched.
    pub fn new(files: usize) -> (batch: Staging)
        ensures
            batch@.wf(),
            !batch@.aborted,
            batch@.progress == Seq::new(files as nat, |i: int| Progress::Waiting),
    {
        let mut progress: Vec<Progress> = Vec::new();
        let mut made: usize = 0;
        while made < files
            invariant
                made <= files,
                progress@ =~= Seq::new(made as nat, |i: int| Progress::Waiting),
            decreases files - made,
        {
            progress.push(Progress::Waiting);
            made = made + 1;
        }
        Staging { progress, aborted: false }
    }

    /// The first file at `what`, if there is one.
    fn find_first(&self, what: Progress) -> (found: Option<usize>)
        ensures
            match found {
                Some(at) => first_at(self@.progress, what, at as int),
                None => none_at(self@.progress, what),
            },
    {
        let mut at: usize = 0;
        while at < self.progress.len()
            invariant
                at <= self.progress.len(),
                forall|i: int| 0 <= i < at ==> #[trigger] self.progress@[i] != what,
            decreases self.progress.len() - at,
        {
            if self.progress[at] == what {
                return Some(at);
            }
            at = at + 1;
        }
        None
    }

    /// The step that the caller is to perform now.
    pub fn next(&self) -> (step: Step)
        ensures
            self@.wf(),
            self@.issues(step),
    {
        proof {
            use_type_invariant(self);
        }
        if self.aborted {
            return match self.find_first(Progress::Staged) {
                Some(at) => Step::Discard(at),
                None => Step::Finished,
            };
        }
        if let Some(at) = self.find_first(Progress::Waiting) {
            return Step::Stage(at);
        }
        if let Some(at) = self.find_first(Progress::Staged) {
            return Step::Remove(at);
        }
        match self.find_first(Progress::Removed) {
            Some(at) => Step::Commit(at),
            None => Step::Finished,
        }
    }

    /// Takes note of how the step that [`Staging::next`] issued went:
    /// `None` when the caller performed it, else the cause of its failure.
    pub fn advance(&mut self, failure: Option<FailureCause>)
        ensures
            old(self)@.wf(),
            final(self)@.wf(),
            forall|step: Step|
                old(self)@.issues(step) ==> final(self)@ == #[trigger] old(self)@.after(
                    step,
                    failure,
                ),
    {
        let step = self.next();
        let ghost before = self@;
        proof {
            lemma_step_keeps_rule(before, step, failure);
            assert forall|other: Step| before.issues(other) implies other == step by {
                lemma_one_step(before, other, step);
            }
        }
        let mut taken = Staging::new(0);
        core::mem::swap(self, &mut taken);
        let Staging { progress, aborted } = taken;
        let mut progress = progress;
        let mut aborted = aborted;
        match (step, failure) {
            (Step::Stage(at), None) => {
                progress.set(at, Progress::Staged);
            },
            (Step::Stage(at), Some(cause)) => {
                progress.set(at, Progress::Failed(cause));
                aborted = true;
            },
            (Step::Remove(at), None) => {
                progress.set(at, Progress::Removed);
            },
            (Step::Remove(at), Some(cause)) => {
                progress.set(at, Progress::Failed(cause));
            },
            (Step::Commit(at), None) => {
                progress.set(at, Progress::Committed);
            },
            (Step::Commit(at), Some(cause)) => {
                progress.set(at, Progress::Stranded(cause));
            },
            (Step::Discard(at), _) => {
                progress.set(at, Progress::Dropped);
            },
            (Step::Finished, _) => {},
        }
        assert((StagingView { progress: progress@, aborted }) == before.after(step, failure));
        *self = Staging { progress, aborted };
    }

    /// How far file `at` has come.
    pub fn progress_of(&self, at: usize) -> (p: Option<Progress>)
        ensures
            self@.wf(),
            p == if at < self@.progress.len() {
                Some(self@.progress[at as int])
            } else {
                None
            },
    {
        proof {
            use_type_invariant(self);
        }
        if at < self.progress.len() {
            Some(self.progress[at])
        } else {
            None
        }
    }

    /// Whether the batch was given up.
    pub fn is_aborted(&self) -> (yes: bool)
        ensures
            self@.wf(),
            yes == self@.aborted,
    {
        proof {
            use_type_invariant(self);
        }
        self.aborted
    }
}

/// What a file's progress means for the report once the batch is finished:
/// a committed file was renamed, a failed one failed for its cause, and a
/// file that was never taken from its place was skipped.
pub open spec fn settled(p: Progress, step: crate::rename::RenameView) -> OutcomeView {
    match p {
        Progress::Committed => OutcomeView::Renamed { from: step.from, to: step.to },
        Progress::Failed(cause) => OutcomeView::Failed { cause },
        Progress::Stranded(cause) => OutcomeView::Failed { cause },
        _ => OutcomeView::Skipped,
    }
}

/// The outcome of one move of the batch, from how far its file came.
pub fn staged_outcome(p: Progress, step: Rename) -> (outcome: ActionOutcome)
    ensures
        outcome@ == settled(p, step@),
{
    match p {
        Progress::Committed => ActionOutcome::Renamed { from: step.from, to: step.to },
        Progress::Failed(cause) => ActionOutcome::Failed { cause },
        Progress::Stranded(cause) => ActionOutcome::Failed { cause },
        _ => ActionOutcome::Skipped,
    }
}

} // verus!
