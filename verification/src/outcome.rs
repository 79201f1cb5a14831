//! What applying an action to one entry came to.

use vstd::prelude::*;
use vstd::string::*;

verus! {

/// Why an action on an entry failed.
#[derive(Debug, Clone, Copy, PartialEq, Eq, Structural)]
pub enum FailureCause {
    /// The destination of a rename is already taken.
    Collision,
    /// The file system refused the operation.
    PermissionDenied,
    /// The entry was gone when the action reached it.
    NotFound,
    /// Staging or writing the replacement content failed.
    WriteFailed,
    /// Any other input or output error.
    Io,
}

/// The result of one action on one entry.
#[derive(Debug, PartialEq, Eq)]
pub enum ActionOutcome {
    /// The entry was left alone.
    Skipped,
    /// The subtree was measured and kept.
    Measured { bytes: u64 },
    /// The subtree was measured and removed.
    Deleted { bytes: u64 },
    /// The entry was renamed.
    Renamed { from: String, to: String },
    /// A line of the entry matched: its index, the byte offset of the match
    /// in the line, and the line.
    MatchFound { line_index: usize, column: usize, snippet: String },
    /// The action failed.
    Failed { cause: FailureCause },
}

/// The mathematical value of an [`ActionOutcome`].
pub enum OutcomeView {
    Skipped,
    Measured { bytes: nat },
    Deleted { bytes: nat },
    Renamed { from: Seq<char>, to: Seq<char> },
    MatchFound { line_index: nat, column: nat, snippet: Seq<char> },
    Failed { cause: FailureCause },
}

impl View for ActionOutcome {
    type V = OutcomeView;

    open spec fn view(&self) -> OutcomeView {
        match *self {
            ActionOutcome::Skipped => OutcomeView::Skipped,
            ActionOutcome::Measured { bytes } => OutcomeView::Measured { bytes: bytes as nat },
            ActionOutcome::Deleted { bytes } => OutcomeView::Deleted { bytes: bytes as nat },
            ActionOutcome::Renamed { from, to } => OutcomeView::Renamed { from: from@, to: to@ },
            ActionOutcome::MatchFound { line_index, column, snippet } => OutcomeView::MatchFound {
                line_index: line_index as nat,
                column: column as nat,
                snippet: snippet@,
            },
            ActionOutcome::Failed { cause } => OutcomeView::Failed { cause },
        }
    }
}

impl Clone for ActionOutcome {
    fn clone(&self) -> (copy: Self)
        ensures
            copy == *self,
    {
        match self {
            ActionOutcome::Skipped => ActionOutcome::Skipped,
            ActionOutcome::Measured { bytes } => ActionOutcome::Measured { bytes: *bytes },
            ActionOutcome::Deleted { bytes } => ActionOutcome::Deleted { bytes: *bytes },
            ActionOutcome::Renamed { from, to } => ActionOutcome::Renamed {
                from: from.clone(),
                to: to.clone(),
            },
            ActionOutcome::MatchFound { line_index, column, snippet } => ActionOutcome::MatchFound {
                line_index: *line_index,
                column: *column,
                snippet: snippet.clone(),
            },
            ActionOutcome::Failed { cause } => ActionOutcome::Failed { cause: *cause },
        }
    }
}

impl OutcomeView {
    /// The bytes that the outcome adds to a report's total: the size of a
    /// measured or deleted subtree, nothing otherwise.
    pub open spec fn bytes(self) -> nat {
        match self {
            OutcomeView::Measured { bytes } => bytes,
            OutcomeView::Deleted { bytes } => bytes,
            _ => 0,
        }
    }

    /// The matches that the outcome adds to a report's total.
    pub open spec fn matches(self) -> nat {
        match self {
            OutcomeView::MatchFound { .. } => 1,
            _ => 0,
        }
    }

    /// The cause of the failure, where the outcome is one.
    pub open spec fn failure(self) -> Option<FailureCause> {
        match self {
            OutcomeView::Failed { cause } => Some(cause),
            _ => None,
        }
    }
}

impl ActionOutcome {
    /// The bytes this outcome counts for.
    pub fn bytes(&self) -> (bytes: u64)
        ensures
            bytes == self@.bytes(),
    {
        match self {
            ActionOutcome::Measured { bytes } => *bytes,
            ActionOutcome::Deleted { bytes } => *bytes,
            _ => 0,
        }
    }

    /// Whether this outcome reports a matching line.
    pub fn is_match(&self) -> (yes: bool)
        ensures
            yes == (self@.matches() == 1),
            !yes == (self@.matches() == 0),
    {
        match self {
            ActionOutcome::MatchFound { .. } => true,
            _ => false,
        }
    }

    /// The cause, if this outcome is a failure.
    pub fn failure(&self) -> (cause: Option<FailureCause>)
        ensures
            cause == self@.failure(),
    {
        match self {
            ActionOutcome::Failed { cause } => Some(*cause),
            _ => None,
        }
    }
}

} // verus!
