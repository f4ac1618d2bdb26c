//! The staging of one batch of a leased run, as decisions between storage
//! steps. Before each batch the lease is renewed when its renewal is due,
//! and the run's fence is re-read: a run that is no longer held stops
//! staging at once, so no further provisional batch is staged and the
//! traversal ends non-authoritative. The host performs each step and hands
//! back what storage answered.
use vstd::prelude::*;

use super::{fence_holds, fence_state, saturate_i64, saturating_add_i64, FenceState, RunFacts};
use crate::enumeration::SinkError;

verus! {

/// The step one batch has reached.
#[derive(Clone, Copy, Debug, PartialEq, Eq, Structural)]
pub enum StagingStage {
    /// Renew the lease at `now`.
    Renewal { now: i64 },
    /// Read the run's fence at `now`.
    FenceRead { now: i64 },
    /// Convert the batch's records into storage's staging form.
    Conversion,
    /// Stage the converted records.
    Staging,
}

/// How storage answered a staging write.
#[derive(Clone, Copy, Debug, PartialEq, Eq, Structural)]
pub enum StageReply {
    Staged,
    /// Storage refused the records themselves.
    Rejected,
    /// Any other failure: the lease, the fence or storage itself.
    Failed,
}

/// What a staging step observed.
#[derive(Clone, Copy, Debug, PartialEq, Eq, Structural)]
pub enum StagingEvent {
    /// Whether storage renewed the lease.
    Renewed(bool),
    /// The run and its job as read for the fence; `None` when unreadable.
    FenceFacts(Option<RunFacts>),
    /// Whether every record converted.
    Converted(bool),
    Staged(StageReply),
}

/// What the adapter does next with the batch.
#[derive(Clone, Copy, Debug, PartialEq, Eq, Structural)]
pub enum StagingAction {
    Perform(StagingStage),
    /// The batch was staged.
    Staged,
    /// The batch was refused with this sink error.
    Refused(SinkError),
}

/// The first step of a batch at `now`: a renewal when one is due.
pub open spec fn first_stage_spec(now: i64, next_renewal_ms: i64) -> StagingStage {
    if now >= next_renewal_ms {
        StagingStage::Renewal { now }
    } else {
        StagingStage::FenceRead { now }
    }
}

pub fn first_stage(now: i64, next_renewal_ms: i64) -> (r: StagingStage)
    ensures
        r == first_stage_spec(now, next_renewal_ms),
{
    if now >= next_renewal_ms {
        StagingStage::Renewal { now }
    } else {
        StagingStage::FenceRead { now }
    }
}

/// When the lease is next renewed after a renewal at `now`.
pub fn next_renewal_after(now: i64, renewal_interval_ms: i64) -> (r: i64)
    ensures
        r == saturate_i64(now + renewal_interval_ms),
{
    saturating_add_i64(now, renewal_interval_ms)
}

pub open spec fn step_fits(stage: StagingStage, event: StagingEvent) -> bool {
    match stage {
        StagingStage::Renewal { .. } => event is Renewed,
        StagingStage::FenceRead { .. } => event is FenceFacts,
        StagingStage::Conversion => event is Converted,
        StagingStage::Staging => event is Staged,
    }
}

pub open spec fn staging_step_spec(stage: StagingStage, event: StagingEvent) -> StagingAction
    recommends
        step_fits(stage, event),
{
    match stage {
        StagingStage::Renewal { now } => if event->Renewed_0 {
            StagingAction::Perform(StagingStage::FenceRead { now })
        } else {
            StagingAction::Refused(SinkError::Unavailable)
        },
        StagingStage::FenceRead { now } => match event->FenceFacts_0 {
            Some(f) => if fence_holds(f, now) {
                StagingAction::Perform(StagingStage::Conversion)
            } else {
                StagingAction::Refused(SinkError::Unavailable)
            },
            None => StagingAction::Refused(SinkError::Unavailable),
        },
        StagingStage::Conversion => if event->Converted_0 {
            StagingAction::Perform(StagingStage::Staging)
        } else {
            StagingAction::Refused(SinkError::Rejected)
        },
        StagingStage::Staging => match event->Staged_0 {
            StageReply::Staged => StagingAction::Staged,
            StageReply::Rejected => StagingAction::Refused(SinkError::Rejected),
            StageReply::Failed => StagingAction::Refused(SinkError::Unavailable),
        },
    }
}

/// Decides what follows a staging step from what storage answered.
pub fn staging_step(stage: StagingStage, event: StagingEvent) -> (r: StagingAction)
    requires
        step_fits(stage, event),
    ensures
        r == staging_step_spec(stage, event),
{
    match (stage, event) {
        (StagingStage::Renewal { now }, StagingEvent::Renewed(renewed)) => {
            if renewed {
                StagingAction::Perform(StagingStage::FenceRead { now })
            } else {
                StagingAction::Refused(SinkError::Unavailable)
            }
        },
        (StagingStage::FenceRead { now }, StagingEvent::FenceFacts(facts)) => {
            match fence_state(facts, now) {
                FenceState::Held => StagingAction::Perform(StagingStage::Conversion),
                _ => StagingAction::Refused(SinkError::Unavailable),
            }
        },
        (StagingStage::Conversion, StagingEvent::Converted(converted)) => {
            if converted {
                StagingAction::Perform(StagingStage::Staging)
            } else {
                StagingAction::Refused(SinkError::Rejected)
            }
        },
        (StagingStage::Staging, StagingEvent::Staged(reply)) => {
            match reply {
                StageReply::Staged => StagingAction::Staged,
                StageReply::Rejected => StagingAction::Refused(SinkError::Rejected),
                StageReply::Failed => StagingAction::Refused(SinkError::Unavailable),
            }
        },
        (StagingStage::Renewal { .. }, _) | (StagingStage::FenceRead { .. }, _) | (StagingStage::Conversion, _)
        | (StagingStage::Staging, _) => {
            // `step_fits` rules these pairs out.
            proof {
                assert(false);
            }
            StagingAction::Refused(SinkError::Unavailable)
        },
    }
}

/// Records reach staging only through a fence read that found the run
/// still held at that moment, followed by a complete conversion.
pub proof fn law_staging_is_fenced(stage: StagingStage, event: StagingEvent)
    requires
        step_fits(stage, event),
    ensures
        staging_step_spec(stage, event) == StagingAction::Perform(StagingStage::Staging)
            ==> stage == StagingStage::Conversion && event == StagingEvent::Converted(true),
        staging_step_spec(stage, event) == StagingAction::Perform(StagingStage::Conversion)
            ==> (stage matches StagingStage::FenceRead { now }
                && event matches StagingEvent::FenceFacts(Some(f)) && fence_holds(f, now)),
{
}

} // verus!
