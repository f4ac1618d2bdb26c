//! The execution of one claimed scan as a sequence of decisions between
//! outside steps. The host performs each stage's storage or filesystem work
//! and hands back what it observed; `step` decides what happens next.
//!
//! The order is: read the lease fence; look up the root's path; traverse the
//! root into the run's staging; read the fence again; publish atomically.
//! Whenever the run cannot be published, it is resolved: the run and its job
//! are read, and the run is either reported as storage already decided it or
//! finished with a terminal outcome that discards its staging.
use vstd::prelude::*;

use super::{resolution_spec, resolve_decision, status_from_state, status_spec, FenceState, Resolution, RunFacts,
    ScanExecutionStatus, ScanRunOutcome, ScanRunState};
use crate::enumeration::Outcome;

verus! {

/// The stage a claimed scan's execution has reached; each names the outside
/// work the host performs next.
#[derive(Clone, Copy, Debug, PartialEq, Eq, Structural)]
pub enum ExecutionStage {
    /// Read the lease fence before traversal.
    FenceBeforeTraversal,
    /// Look up the root's path; a removed root has none.
    RootLookup,
    /// Traverse the root into the run's staging.
    Traversal,
    /// Read the fence again before publishing a traversal that ended with
    /// this outcome.
    FenceBeforePublication(Outcome),
    /// Publish the staged run atomically.
    Publication(Outcome),
    /// Read the run and its job to resolve a run that will not be published.
    ResolutionRead { forced_cancel: bool, outcome: Option<Outcome> },
    /// Finish the run with this terminal outcome, discarding its staging and
    /// recording the diagnostic code of the enumeration outcome.
    Finishing { terminal: ScanRunOutcome, outcome: Option<Outcome> },
}

/// What the outside work of a stage observed.
#[derive(Clone, Copy, Debug, PartialEq, Eq, Structural)]
pub enum ExecutionEvent {
    /// The fence as read from storage.
    Fence(FenceState),
    /// Whether the root still has a path.
    RootFound(bool),
    /// How the traversal ended.
    Traversed { outcome: Outcome, authoritative: bool },
    /// Whether storage committed the publication.
    Published(bool),
    /// The run and job as read for the resolution; `None` when unreadable.
    RunRead(Option<RunFacts>),
    /// The run's state after finishing it; `None` when storage refused.
    Finished(Option<ScanRunState>),
}

/// What the worker does next.
#[derive(Clone, Copy, Debug, PartialEq, Eq, Structural)]
pub enum ExecutionAction {
    /// Perform the outside work of this stage and hand back what it observed.
    Perform(ExecutionStage),
    /// The execution is over: report this status and enumeration outcome;
    /// `storage_refused` records that storage refused to finish the run.
    Report { status: ScanExecutionStatus, outcome: Option<Outcome>, storage_refused: bool },
}

/// Whether `event` is what the outside work of `stage` can observe.
pub open spec fn event_fits(stage: ExecutionStage, event: ExecutionEvent) -> bool {
    match stage {
        ExecutionStage::FenceBeforeTraversal => event is Fence,
        ExecutionStage::FenceBeforePublication(_) => event is Fence,
        ExecutionStage::RootLookup => event is RootFound,
        ExecutionStage::Traversal => event is Traversed,
        ExecutionStage::Publication(_) => event is Published,
        ExecutionStage::ResolutionRead { .. } => event is RunRead,
        ExecutionStage::Finishing { .. } => event is Finished,
    }
}

/// The stage a run enters when it will not be published.
pub open spec fn resolve(forced_cancel: bool, outcome: Option<Outcome>) -> ExecutionAction {
    ExecutionAction::Perform(ExecutionStage::ResolutionRead { forced_cancel, outcome })
}

pub open spec fn report(status: ScanExecutionStatus, outcome: Option<Outcome>) -> ExecutionAction {
    ExecutionAction::Report { status, outcome, storage_refused: false }
}

/// The decision after a fence read: an unreadable fence reports the run as
/// fenced, an invalidated one resolves it, a held one proceeds to `next`.
pub open spec fn after_fence(fence: FenceState, outcome: Option<Outcome>, next: ExecutionStage) -> ExecutionAction {
    match fence {
        FenceState::Unreadable => report(ScanExecutionStatus::Fenced, outcome),
        FenceState::Invalidated => resolve(false, outcome),
        FenceState::Held => ExecutionAction::Perform(next),
    }
}

/// The next step of an execution.
pub open spec fn step_spec(stage: ExecutionStage, event: ExecutionEvent) -> ExecutionAction
    recommends
        event_fits(stage, event),
{
    match stage {
        ExecutionStage::FenceBeforeTraversal => after_fence(event->Fence_0, None, ExecutionStage::RootLookup),
        ExecutionStage::RootLookup => if event->RootFound_0 {
            ExecutionAction::Perform(ExecutionStage::Traversal)
        } else {
            resolve(false, None)
        },
        ExecutionStage::Traversal => {
            let outcome = event->Traversed_outcome;
            if event->Traversed_authoritative {
                ExecutionAction::Perform(ExecutionStage::FenceBeforePublication(outcome))
            } else {
                resolve(outcome == Outcome::Cancelled, Some(outcome))
            }
        },
        ExecutionStage::FenceBeforePublication(o) => after_fence(event->Fence_0, Some(o), ExecutionStage::Publication(o)),
        ExecutionStage::Publication(o) => if event->Published_0 {
            report(ScanExecutionStatus::Published, Some(o))
        } else {
            resolve(false, Some(o))
        },
        ExecutionStage::ResolutionRead { forced_cancel, outcome } => match resolution_spec(event->RunRead_0, forced_cancel) {
            Resolution::Fenced => report(ScanExecutionStatus::Fenced, outcome),
            Resolution::Observed(status) => report(status, outcome),
            Resolution::Finish(terminal) => ExecutionAction::Perform(ExecutionStage::Finishing { terminal, outcome }),
        },
        ExecutionStage::Finishing { outcome, .. } => match event->Finished_0 {
            Some(state) => report(status_spec(state), outcome),
            None => ExecutionAction::Report { status: ScanExecutionStatus::Fenced, outcome, storage_refused: true },
        },
    }
}

fn fence_step(fence: FenceState, outcome: Option<Outcome>, next: ExecutionStage) -> (r: ExecutionAction)
    ensures
        r == after_fence(fence, outcome, next),
{
    match fence {
        FenceState::Unreadable => ExecutionAction::Report { status: ScanExecutionStatus::Fenced, outcome, storage_refused: false },
        FenceState::Invalidated => ExecutionAction::Perform(ExecutionStage::ResolutionRead { forced_cancel: false, outcome }),
        FenceState::Held => ExecutionAction::Perform(next),
    }
}

/// Decides what follows a stage from what its outside work observed.
pub fn step(stage: ExecutionStage, event: ExecutionEvent) -> (r: ExecutionAction)
    requires
        event_fits(stage, event),
    ensures
        r == step_spec(stage, event),
{
    match (stage, event) {
        (ExecutionStage::FenceBeforeTraversal, ExecutionEvent::Fence(fence)) => fence_step(fence, None, ExecutionStage::RootLookup),
        (ExecutionStage::RootLookup, ExecutionEvent::RootFound(found)) => {
            if found {
                ExecutionAction::Perform(ExecutionStage::Traversal)
            } else {
                ExecutionAction::Perform(ExecutionStage::ResolutionRead { forced_cancel: false, outcome: None })
            }
        },
        (ExecutionStage::Traversal, ExecutionEvent::Traversed { outcome, authoritative }) => {
            if authoritative {
                ExecutionAction::Perform(ExecutionStage::FenceBeforePublication(outcome))
            } else {
                let forced_cancel = match outcome {
                    Outcome::Cancelled => true,
                    _ => false,
                };
                ExecutionAction::Perform(ExecutionStage::ResolutionRead { forced_cancel, outcome: Some(outcome) })
            }
        },
        (ExecutionStage::FenceBeforePublication(o), ExecutionEvent::Fence(fence)) => fence_step(fence, Some(o), ExecutionStage::Publication(o)),
        (ExecutionStage::Publication(o), ExecutionEvent::Published(committed)) => {
            if committed {
                ExecutionAction::Report { status: ScanExecutionStatus::Published, outcome: Some(o), storage_refused: false }
            } else {
                ExecutionAction::Perform(ExecutionStage::ResolutionRead { forced_cancel: false, outcome: Some(o) })
            }
        },
        (ExecutionStage::ResolutionRead { forced_cancel, outcome }, ExecutionEvent::RunRead(facts)) => {
            match resolve_decision(facts, forced_cancel) {
                Resolution::Fenced => ExecutionAction::Report { status: ScanExecutionStatus::Fenced, outcome, storage_refused: false },
                Resolution::Observed(status) => ExecutionAction::Report { status, outcome, storage_refused: false },
                Resolution::Finish(terminal) => ExecutionAction::Perform(ExecutionStage::Finishing { terminal, outcome }),
            }
        },
        (ExecutionStage::Finishing { outcome, .. }, ExecutionEvent::Finished(state)) => {
            match state {
                Some(s) => ExecutionAction::Report { status: status_from_state(s), outcome, storage_refused: false },
                None => ExecutionAction::Report { status: ScanExecutionStatus::Fenced, outcome, storage_refused: true },
            }
        },
        (ExecutionStage::FenceBeforeTraversal, _) | (ExecutionStage::RootLookup, _) | (ExecutionStage::Traversal, _)
        | (ExecutionStage::FenceBeforePublication(_), _) | (ExecutionStage::Publication(_), _)
        | (ExecutionStage::ResolutionRead { .. }, _) | (ExecutionStage::Finishing { .. }, _) => {
            // `event_fits` rules these pairs out.
            proof {
                assert(false);
            }
            ExecutionAction::Report { status: ScanExecutionStatus::Fenced, outcome: None, storage_refused: false }
        },
    }
}

/// Publication is guarded: the worker publishes only after the fence held
/// on re-reading it, and re-reads it for publication only after a traversal
/// that was authoritative.
pub proof fn law_publication_is_guarded(stage: ExecutionStage, event: ExecutionEvent, o: Outcome)
    requires
        event_fits(stage, event),
    ensures
        step_spec(stage, event) == ExecutionAction::Perform(ExecutionStage::Publication(o))
            ==> stage == ExecutionStage::FenceBeforePublication(o) && event == ExecutionEvent::Fence(FenceState::Held),
        step_spec(stage, event) == ExecutionAction::Perform(ExecutionStage::FenceBeforePublication(o))
            ==> stage == ExecutionStage::Traversal && event == (ExecutionEvent::Traversed { outcome: o, authoritative: true }),
{
}

/// The worker reports a run as published only when its own publication
/// committed or when storage reports the run completed.
pub proof fn law_published_only_when_committed(stage: ExecutionStage, event: ExecutionEvent)
    requires
        event_fits(stage, event),
        step_spec(stage, event) matches ExecutionAction::Report { status, .. } && status == ScanExecutionStatus::Published,
    ensures
        (stage is Publication && event == ExecutionEvent::Published(true))
            || (event matches ExecutionEvent::RunRead(Some(f)) && f.run_state == ScanRunState::Completed)
            || event == ExecutionEvent::Finished(Some(ScanRunState::Completed)),
{
}

/// A traversal that was not authoritative is always resolved, and a
/// cancelled one is finished as cancelled whenever the run is still running.
pub proof fn law_unpublishable_traversal_is_resolved(outcome: Outcome, facts: RunFacts)
    requires
        facts.run_state == ScanRunState::Running,
    ensures
        step_spec(ExecutionStage::Traversal, ExecutionEvent::Traversed { outcome, authoritative: false })
            == resolve(outcome == Outcome::Cancelled, Some(outcome)),
        outcome == Outcome::Cancelled ==> step_spec(
            ExecutionStage::ResolutionRead { forced_cancel: true, outcome: Some(outcome) },
            ExecutionEvent::RunRead(Some(facts)),
        ) == ExecutionAction::Perform(ExecutionStage::Finishing { terminal: ScanRunOutcome::Cancelled, outcome: Some(outcome) }),
{
}

} // verus!
