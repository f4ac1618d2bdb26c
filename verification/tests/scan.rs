use fruitboard_scanner::enumeration::paths::normalize_relative_path;
use fruitboard_scanner::enumeration::{IdentityQualification, Observation, Outcome, QualifiedIdentity};
use fruitboard_scanner::reconciliation::{Identity, Location, Metadata};
use fruitboard_scanner::scan::execution::{step, ExecutionAction, ExecutionEvent, ExecutionStage};
use fruitboard_scanner::scan::staging::{
    first_stage, next_renewal_after, staging_step, StageReply, StagingAction, StagingEvent, StagingStage,
};
use fruitboard_scanner::enumeration::SinkError;
use fruitboard_scanner::scan::followups::{
    EnqueueReply, FollowUpCause, FollowUpOutcome, HintRoute, RootIdMapping, WatcherFollowUpAdapter,
};
use fruitboard_scanner::scan::{
    clamp_clock_reading, durable_error_code, fence_state, jitter_numerator, resolve_decision, status_from_state,
    ChangeSummary, FenceState, PlanBuffer, Resolution, RunFacts, ScanExecutionStatus, ScanJobState, ScanRunOutcome,
    ScanRunState, ScanWorker, WorkerConfig, WorkerConfigError,
};
use fruitboard_scanner::watcher::{HintKind, RootId, WatchHint};

fn running() -> RunFacts {
    RunFacts {
        run_state: ScanRunState::Running,
        job_state: ScanJobState::Running,
        run_cancellation_requested: false,
        job_cancellation_requested: false,
        follow_up_requested: false,
        lease_expires_at_ms: 1_000,
    }
}

#[test]
fn worker_configuration_is_checked() {
    let config = WorkerConfig::default();
    assert_eq!(config.lease_duration_ms, 30_000);
    assert!(ScanWorker::new(config).is_ok());
    assert_eq!(
        ScanWorker::new(WorkerConfig { lease_duration_ms: 0, ..config }).err(),
        Some(WorkerConfigError::LeaseDuration)
    );
    assert_eq!(
        ScanWorker::new(WorkerConfig { lease_renewal_interval_ms: 30_000, ..config }).err(),
        Some(WorkerConfigError::RenewalInterval)
    );
    assert_eq!(
        ScanWorker::new(WorkerConfig { lease_renewal_interval_ms: 0, ..config }).err(),
        Some(WorkerConfigError::RenewalInterval)
    );
}

#[test]
fn the_fence_holds_only_for_a_live_unexpired_lease() {
    assert_eq!(fence_state(Some(running()), 999), FenceState::Held);
    assert_eq!(fence_state(Some(running()), 1_000), FenceState::Invalidated);
    assert_eq!(fence_state(Some(RunFacts { follow_up_requested: true, ..running() }), 0), FenceState::Invalidated);
    assert_eq!(fence_state(Some(RunFacts { job_cancellation_requested: true, ..running() }), 0), FenceState::Invalidated);
    assert_eq!(fence_state(Some(RunFacts { run_state: ScanRunState::Cancelled, ..running() }), 0), FenceState::Invalidated);
    assert_eq!(fence_state(None, 0), FenceState::Unreadable);
}

#[test]
fn unpublished_runs_resolve_by_cancellation_then_follow_up_then_failure() {
    assert_eq!(resolve_decision(None, false), Resolution::Fenced);
    assert_eq!(
        resolve_decision(Some(RunFacts { run_state: ScanRunState::Completed, ..running() }), true),
        Resolution::Observed(ScanExecutionStatus::Published)
    );
    assert_eq!(resolve_decision(Some(running()), true), Resolution::Finish(ScanRunOutcome::Cancelled));
    assert_eq!(
        resolve_decision(Some(RunFacts { run_cancellation_requested: true, follow_up_requested: true, ..running() }), false),
        Resolution::Finish(ScanRunOutcome::Cancelled)
    );
    assert_eq!(
        resolve_decision(Some(RunFacts { follow_up_requested: true, ..running() }), false),
        Resolution::Finish(ScanRunOutcome::Interrupted)
    );
    assert_eq!(resolve_decision(Some(running()), false), Resolution::Finish(ScanRunOutcome::Failed));
    assert_eq!(status_from_state(ScanRunState::Running), ScanExecutionStatus::Fenced);
    assert_eq!(status_from_state(ScanRunState::Interrupted), ScanExecutionStatus::Interrupted);
}

#[test]
fn diagnostic_codes_are_fixed_strings() {
    assert_eq!(durable_error_code(Some(Outcome::Denied)), Some("access_denied"));
    assert_eq!(durable_error_code(Some(Outcome::UnsupportedFilesystem)), Some("unsupported"));
    assert_eq!(durable_error_code(Some(Outcome::ResourceLimit)), Some("resource_limit"));
    assert_eq!(durable_error_code(Some(Outcome::RootUnavailable)), Some("unavailable"));
    assert_eq!(durable_error_code(Some(Outcome::Cancelled)), Some("cancelled"));
    assert_eq!(durable_error_code(Some(Outcome::SinkFailed)), Some("worker_failed"));
    assert_eq!(durable_error_code(Some(Outcome::Complete)), None);
    assert_eq!(durable_error_code(None), None);
}

fn fnv1a(bytes: &[u8]) -> u64 {
    let mut hash: u64 = 0xcbf2_9ce4_8422_2325;
    for byte in bytes {
        hash ^= u64::from(*byte);
        hash = hash.wrapping_mul(0x0000_0100_0000_01b3);
    }
    hash
}

#[test]
fn retry_schedule_is_deterministic_and_bounded() {
    for id in ["", "job-1", "b7c2a0e0-5b7e-4f1e-9d3a-0d2b0c6c1f00"] {
        let jitter = jitter_numerator(id);
        assert_eq!(jitter, (fnv1a(id.as_bytes()) % 201) as i64);
        assert!((0..=200).contains(&jitter));
        assert_eq!(ScanWorker::retry_eligible_at(id, 1, 10_000), 10_000 + 1_000 + 1_000 * jitter / 1_000);
        assert_eq!(ScanWorker::retry_eligible_at(id, 2, 10_000), 10_000 + 2_000 + 2_000 * jitter / 1_000);
        assert_eq!(ScanWorker::retry_eligible_at(id, 7, 10_000), 10_000 + 4_000 + 4_000 * jitter / 1_000);
    }
    assert_eq!(ScanWorker::retry_eligible_at("job-1", 1, i64::MAX), i64::MAX);
    assert_eq!(clamp_clock_reading(Some(5)), 5);
    assert_eq!(clamp_clock_reading(Some(u128::MAX)), i64::MAX);
    assert_eq!(clamp_clock_reading(None), 0);
}

fn observation(path: &str, size: u64, file: u128) -> Observation {
    let (display_path, locator) = normalize_relative_path(path).expect("valid path");
    Observation {
        locator,
        display_path,
        byte_size: size,
        modified_unix_ns: 1,
        identity: Some(QualifiedIdentity { volume_serial: 7, file_id: file, qualification: IdentityQualification::LocalNtfs }),
    }
}

fn location(path: &str, size: u64, file: u128) -> Location {
    Location {
        path: path.to_owned(),
        metadata: Metadata { size, modified_ns: 1, identity: Some(Identity { volume: 7, file }) },
        present: true,
    }
}

#[test]
fn change_summary_counts_the_reconciliation_plan() {
    let mut buffer = PlanBuffer::new();
    buffer.absorb(&[observation("a.flp", 1, 1), observation("b.flp", 2, 2)]);
    buffer.absorb(&[observation("c.flp", 9, 3)]);
    let previous = [location("a.flp", 1, 1), location("b.flp", 3, 2), location("gone.flp", 1, 4)];
    let summary = buffer.change_summary(&previous).expect("comparable");
    assert!(summary.computed);
    assert_eq!(summary.added, 1);
    assert_eq!(summary.modified, 1);
    assert_eq!(summary.missing, 1);
    assert_eq!(summary.renames, 0);
    assert_eq!(summary.identity_uncertain, 0);
    assert_eq!(ChangeSummary::default().computed, false);
}

#[test]
fn an_oversized_mirror_gives_up_for_good() {
    let mut buffer = PlanBuffer::new();
    let many: Vec<Observation> = (0..PlanBuffer::CAPACITY as u128 + 1)
        .map(|i| observation(&format!("f{i}.flp"), 1, i))
        .collect();
    buffer.absorb(&many);
    buffer.absorb(&[observation("late.flp", 1, 0)]);
    assert_eq!(buffer.change_summary(&[]), None);
}

struct Mapping;

impl RootIdMapping for Mapping {
    fn storage_root_id(&self, root: RootId) -> Option<String> {
        if root.0 < 100 { Some(format!("storage-{}", root.0)) } else { None }
    }
}

fn hint(root: u64, generation: u64, kind: HintKind) -> WatchHint {
    WatchHint { root: RootId(root), generation, kind }
}

#[test]
fn follow_ups_fence_generations_and_unseeded_roots() {
    let mut adapter = WatcherFollowUpAdapter::new(Mapping);
    let mut outcome = FollowUpOutcome::default();
    // Unseeded: dropped at bootstrap.
    assert_eq!(adapter.route_hint(hint(1, 5, HintKind::ReconciliationRequested), &mut outcome), HintRoute::Stale);
    adapter.watch_started(RootId(1), 5);
    assert_eq!(
        adapter.route_hint(hint(1, 5, HintKind::ReconciliationRequested), &mut outcome),
        HintRoute::Enqueue("storage-1".to_owned())
    );
    assert_eq!(adapter.route_hint(hint(1, 4, HintKind::ReconciliationRequested), &mut outcome), HintRoute::Stale);
    assert_eq!(
        adapter.route_hint(hint(1, 6, HintKind::CoverageLost), &mut outcome),
        HintRoute::Enqueue("storage-1".to_owned())
    );
    // The newer generation is now current.
    assert_eq!(adapter.route_hint(hint(1, 5, HintKind::ReconciliationRequested), &mut outcome), HintRoute::Stale);
    adapter.watch_ended(RootId(1));
    assert_eq!(adapter.route_hint(hint(1, 6, HintKind::ReconciliationRequested), &mut outcome), HintRoute::Stale);
    assert_eq!(
        adapter.route_hint(hint(1, 7, HintKind::ReconciliationRequested), &mut outcome),
        HintRoute::Enqueue("storage-1".to_owned())
    );
    adapter.watch_started(RootId(200), 1);
    assert_eq!(adapter.route_hint(hint(200, 1, HintKind::ReconciliationRequested), &mut outcome), HintRoute::UnknownRoot);
    assert_eq!(outcome.stale_generation_dropped, 4);
    assert_eq!(outcome.unknown_root_dropped, 1);
    adapter.finish_batch(&outcome);
    assert_eq!(adapter.stale_generation_dropped(), 4);
    assert_eq!(adapter.unknown_root_dropped(), 1);
}

#[test]
fn follow_up_replies_record_requests_overflow_and_suppression() {
    let mut adapter = WatcherFollowUpAdapter::new(Mapping);
    let mut outcome = FollowUpOutcome::default();
    let loss = hint(3, 1, HintKind::CoverageLost);
    let burst = hint(3, 1, HintKind::ReconciliationRequested);
    assert!(adapter.record_reply(loss, "storage-3".to_owned(), EnqueueReply::Queued { job_id: "job-9".to_owned(), coalesced: false }, &mut outcome));
    assert!(adapter.record_reply(burst, "storage-3".to_owned(), EnqueueReply::Queued { job_id: "job-9".to_owned(), coalesced: true }, &mut outcome));
    assert!(adapter.record_reply(burst, "storage-3".to_owned(), EnqueueReply::RootDisabled, &mut outcome));
    assert!(adapter.record_reply(burst, "storage-3".to_owned(), EnqueueReply::RootNotFound, &mut outcome));
    assert!(!adapter.record_reply(burst, "storage-3".to_owned(), EnqueueReply::Failed, &mut outcome));
    assert_eq!(outcome.requests.len(), 2);
    assert_eq!(outcome.requests[0].cause, FollowUpCause::Overflow);
    assert_eq!(outcome.requests[1].cause, FollowUpCause::ActivityBurst);
    assert!(outcome.requests[1].coalesced);
    assert_eq!(outcome.overflow, 1);
    assert_eq!(outcome.suppressed, 1);
    assert_eq!(outcome.unknown_root_dropped, 1);
    assert_eq!(adapter.overflow_follow_ups(RootId(3)), 1);
    assert_eq!(adapter.overflow_follow_ups(RootId(4)), 0);
    adapter.finish_batch(&outcome);
    assert_eq!(adapter.suppressed(), 1);
}

#[test]
fn tests_worker_config_rejects_invalid_lease_settings() {
    let mut config = WorkerConfig::default();
    config.lease_duration_ms = 0;
    assert_eq!(ScanWorker::new(config).err(), Some(WorkerConfigError::LeaseDuration));
    let mut config = WorkerConfig::default();
    config.lease_renewal_interval_ms = config.lease_duration_ms;
    assert_eq!(ScanWorker::new(config).err(), Some(WorkerConfigError::RenewalInterval));
}

/// Drives one execution through `step`, feeding the scripted observations in
/// order, and returns the final report with the stages visited.
fn drive(events: &[ExecutionEvent]) -> (ExecutionAction, Vec<ExecutionStage>) {
    let mut stage = ExecutionStage::FenceBeforeTraversal;
    let mut visited = vec![stage];
    for event in events {
        match step(stage, *event) {
            ExecutionAction::Perform(next) => {
                stage = next;
                visited.push(next);
            }
            report => return (report, visited),
        }
    }
    panic!("the script ended before the execution did");
}

fn held() -> ExecutionEvent {
    ExecutionEvent::Fence(FenceState::Held)
}

#[test]
fn an_authoritative_traversal_under_a_held_fence_is_published() {
    let (report, visited) = drive(&[
        held(),
        ExecutionEvent::RootFound(true),
        ExecutionEvent::Traversed { outcome: Outcome::Complete, authoritative: true },
        held(),
        ExecutionEvent::Published(true),
    ]);
    assert_eq!(
        report,
        ExecutionAction::Report { status: ScanExecutionStatus::Published, outcome: Some(Outcome::Complete), storage_refused: false }
    );
    assert_eq!(
        visited,
        vec![
            ExecutionStage::FenceBeforeTraversal,
            ExecutionStage::RootLookup,
            ExecutionStage::Traversal,
            ExecutionStage::FenceBeforePublication(Outcome::Complete),
            ExecutionStage::Publication(Outcome::Complete),
        ]
    );
}

#[test]
fn a_cancellation_committed_before_apply_prevents_publication() {
    let cancelled = RunFacts { run_cancellation_requested: true, ..running() };
    let (report, visited) = drive(&[
        held(),
        ExecutionEvent::RootFound(true),
        ExecutionEvent::Traversed { outcome: Outcome::Complete, authoritative: true },
        ExecutionEvent::Fence(FenceState::Invalidated),
        ExecutionEvent::RunRead(Some(cancelled)),
        ExecutionEvent::Finished(Some(ScanRunState::Cancelled)),
    ]);
    assert_eq!(
        report,
        ExecutionAction::Report { status: ScanExecutionStatus::Cancelled, outcome: Some(Outcome::Complete), storage_refused: false }
    );
    assert!(!visited.contains(&ExecutionStage::Publication(Outcome::Complete)));
    assert!(visited.contains(&ExecutionStage::Finishing {
        terminal: ScanRunOutcome::Cancelled,
        outcome: Some(Outcome::Complete)
    }));
}

#[test]
fn a_locally_cancelled_traversal_is_finished_as_cancelled() {
    let (report, visited) = drive(&[
        held(),
        ExecutionEvent::RootFound(true),
        ExecutionEvent::Traversed { outcome: Outcome::Cancelled, authoritative: false },
        ExecutionEvent::RunRead(Some(running())),
        ExecutionEvent::Finished(Some(ScanRunState::Cancelled)),
    ]);
    assert_eq!(visited[3], ExecutionStage::ResolutionRead { forced_cancel: true, outcome: Some(Outcome::Cancelled) });
    assert_eq!(visited[4], ExecutionStage::Finishing { terminal: ScanRunOutcome::Cancelled, outcome: Some(Outcome::Cancelled) });
    assert_eq!(
        report,
        ExecutionAction::Report { status: ScanExecutionStatus::Cancelled, outcome: Some(Outcome::Cancelled), storage_refused: false }
    );
}

#[test]
fn a_denied_traversal_fails_and_a_follow_up_interrupts() {
    let (report, visited) = drive(&[
        held(),
        ExecutionEvent::RootFound(true),
        ExecutionEvent::Traversed { outcome: Outcome::Denied, authoritative: false },
        ExecutionEvent::RunRead(Some(running())),
        ExecutionEvent::Finished(Some(ScanRunState::Failed)),
    ]);
    assert_eq!(visited[4], ExecutionStage::Finishing { terminal: ScanRunOutcome::Failed, outcome: Some(Outcome::Denied) });
    assert_eq!(
        report,
        ExecutionAction::Report { status: ScanExecutionStatus::Failed, outcome: Some(Outcome::Denied), storage_refused: false }
    );

    let follow_up = RunFacts { follow_up_requested: true, ..running() };
    let (report, visited) = drive(&[
        held(),
        ExecutionEvent::RootFound(true),
        ExecutionEvent::Traversed { outcome: Outcome::SinkFailed, authoritative: false },
        ExecutionEvent::RunRead(Some(follow_up)),
        ExecutionEvent::Finished(Some(ScanRunState::Interrupted)),
    ]);
    assert_eq!(visited[4], ExecutionStage::Finishing { terminal: ScanRunOutcome::Interrupted, outcome: Some(Outcome::SinkFailed) });
    assert_eq!(
        report,
        ExecutionAction::Report { status: ScanExecutionStatus::Interrupted, outcome: Some(Outcome::SinkFailed), storage_refused: false }
    );
}

#[test]
fn a_removed_root_reports_the_state_storage_decided() {
    let removed = RunFacts { run_state: ScanRunState::Cancelled, ..running() };
    let (report, visited) = drive(&[held(), ExecutionEvent::RootFound(false), ExecutionEvent::RunRead(Some(removed))]);
    assert_eq!(visited.last(), Some(&ExecutionStage::ResolutionRead { forced_cancel: false, outcome: None }));
    assert_eq!(report, ExecutionAction::Report { status: ScanExecutionStatus::Cancelled, outcome: None, storage_refused: false });
}

#[test]
fn unreadable_state_and_refused_finishes_report_the_run_as_fenced() {
    let (report, _) = drive(&[ExecutionEvent::Fence(FenceState::Unreadable)]);
    assert_eq!(report, ExecutionAction::Report { status: ScanExecutionStatus::Fenced, outcome: None, storage_refused: false });

    let (report, _) = drive(&[
        held(),
        ExecutionEvent::RootFound(true),
        ExecutionEvent::Traversed { outcome: Outcome::Complete, authoritative: true },
        ExecutionEvent::Fence(FenceState::Unreadable),
    ]);
    assert_eq!(
        report,
        ExecutionAction::Report { status: ScanExecutionStatus::Fenced, outcome: Some(Outcome::Complete), storage_refused: false }
    );

    let (report, _) = drive(&[
        held(),
        ExecutionEvent::RootFound(true),
        ExecutionEvent::Traversed { outcome: Outcome::Complete, authoritative: true },
        held(),
        ExecutionEvent::Published(false),
        ExecutionEvent::RunRead(Some(running())),
        ExecutionEvent::Finished(None),
    ]);
    assert_eq!(
        report,
        ExecutionAction::Report { status: ScanExecutionStatus::Fenced, outcome: Some(Outcome::Complete), storage_refused: true }
    );

    let (report, _) = drive(&[ExecutionEvent::Fence(FenceState::Invalidated), ExecutionEvent::RunRead(None)]);
    assert_eq!(report, ExecutionAction::Report { status: ScanExecutionStatus::Fenced, outcome: None, storage_refused: false });
}

/// Stages one batch at `now` through `staging_step`, answering each step
/// from the script, and returns how the batch ended.
fn stage_batch(now: i64, next_renewal_ms: i64, events: &[StagingEvent]) -> (StagingAction, Vec<StagingStage>) {
    let mut stage = first_stage(now, next_renewal_ms);
    let mut visited = vec![stage];
    for event in events {
        match staging_step(stage, *event) {
            StagingAction::Perform(next) => {
                stage = next;
                visited.push(next);
            }
            done => return (done, visited),
        }
    }
    panic!("the script ended before the batch did");
}

#[test]
fn a_due_renewal_precedes_the_fence_and_a_held_run_stages() {
    let (done, visited) = stage_batch(
        500,
        400,
        &[
            StagingEvent::Renewed(true),
            StagingEvent::FenceFacts(Some(running())),
            StagingEvent::Converted(true),
            StagingEvent::Staged(StageReply::Staged),
        ],
    );
    assert_eq!(done, StagingAction::Staged);
    assert_eq!(
        visited,
        vec![
            StagingStage::Renewal { now: 500 },
            StagingStage::FenceRead { now: 500 },
            StagingStage::Conversion,
            StagingStage::Staging,
        ]
    );
    assert_eq!(next_renewal_after(500, 5_000), 5_500);
    assert_eq!(next_renewal_after(i64::MAX - 1, 5_000), i64::MAX);

    let (done, visited) = stage_batch(
        300,
        400,
        &[
            StagingEvent::FenceFacts(Some(running())),
            StagingEvent::Converted(true),
            StagingEvent::Staged(StageReply::Staged),
        ],
    );
    assert_eq!(done, StagingAction::Staged);
    assert_eq!(visited[0], StagingStage::FenceRead { now: 300 });
}

#[test]
fn a_fence_violation_or_refusal_stops_staging() {
    let (done, _) = stage_batch(500, 400, &[StagingEvent::Renewed(false)]);
    assert_eq!(done, StagingAction::Refused(SinkError::Unavailable));

    let cancelled = RunFacts { job_cancellation_requested: true, ..running() };
    let (done, visited) = stage_batch(300, 400, &[StagingEvent::FenceFacts(Some(cancelled))]);
    assert_eq!(done, StagingAction::Refused(SinkError::Unavailable));
    assert!(!visited.contains(&StagingStage::Staging));

    // The lease expires at 1_000: a batch at that instant is no longer held.
    let (done, _) = stage_batch(1_000, 5_000, &[StagingEvent::FenceFacts(Some(running()))]);
    assert_eq!(done, StagingAction::Refused(SinkError::Unavailable));

    let (done, _) = stage_batch(300, 400, &[StagingEvent::FenceFacts(None)]);
    assert_eq!(done, StagingAction::Refused(SinkError::Unavailable));

    let (done, _) =
        stage_batch(300, 400, &[StagingEvent::FenceFacts(Some(running())), StagingEvent::Converted(false)]);
    assert_eq!(done, StagingAction::Refused(SinkError::Rejected));

    let (done, _) = stage_batch(
        300,
        400,
        &[
            StagingEvent::FenceFacts(Some(running())),
            StagingEvent::Converted(true),
            StagingEvent::Staged(StageReply::Rejected),
        ],
    );
    assert_eq!(done, StagingAction::Refused(SinkError::Rejected));

    let (done, _) = stage_batch(
        300,
        400,
        &[
            StagingEvent::FenceFacts(Some(running())),
            StagingEvent::Converted(true),
            StagingEvent::Staged(StageReply::Failed),
        ],
    );
    assert_eq!(done, StagingAction::Refused(SinkError::Unavailable));
}
