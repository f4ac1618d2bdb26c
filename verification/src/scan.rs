//! The decisions of the durable scan worker, apart from the storage calls.
//!
//! Storage owns the durable queue, leases, staging and the fenced atomic
//! publication; the host runs the worker loop and performs each storage call.
//! What the worker decides from the values storage returns lives here: the
//! configuration checks, the fence on a leased run, the terminal outcome of a
//! run it could not publish, the status it reports, the diagnostic code it
//! records, the deterministic retry schedule, and the advisory change
//! summary derived through the reconciliation core. The execution of one
//! claimed scan and the staging of its batches are decided step by step in
//! `execution` and `staging`; the routing of watcher hints into follow-up
//! scans in `followups`.
//!
//! Authoritative-completion invariant: only a run whose enumeration reported
//! `Complete` while the fences still hold is published; every other outcome
//! discards staging and leaves committed results untouched.
use vstd::prelude::*;

pub mod execution;
pub mod staging;
pub mod followups;

use core::time::Duration;
use std::time::{SystemTime, UNIX_EPOCH};

use crate::enumeration::{EnumerationLimits, Observation as EnumeratedObservation, Outcome};
use crate::reconciliation::{
    locations_view, observations_view, plan_matches, reconcile, rejection, Change, ChangeView, Identity, Location,
    Metadata, Observation as PlanObservation, ObservationView, Outcome as PlanOutcome, Plan, PlanView,
};

verus! {

/// The durable staging quota, in records.
pub const MAX_STAGED_RECORDS: usize = 10_000;

/// Injected, monotonic-enough worker clock, in milliseconds.
pub trait ScanClock {
    fn now_ms(&self) -> i64;
}

/// Milliseconds since the Unix epoch, clamped to the durable `i64` range;
/// zero when the clock reads before the epoch.
pub open spec fn clamp_millis(millis: Option<u128>) -> i64 {
    match millis {
        Some(m) => if m > i64::MAX as u128 { i64::MAX } else { m as i64 },
        None => 0,
    }
}

/// Clamps a reading of milliseconds since the epoch (`None` when the clock
/// reads before the epoch) to the durable `i64` range.
pub fn clamp_clock_reading(millis: Option<u128>) -> (r: i64)
    ensures
        r == clamp_millis(millis),
{
    match millis {
        Some(m) => if m > i64::MAX as u128 { i64::MAX } else { m as i64 },
        None => 0,
    }
}

#[verifier::external_type_specification]
#[verifier::external_body]
pub struct ExSystemTime(SystemTime);

/// `SystemTime::now`: a reading of the wall clock.
#[verifier::external_body]
fn system_now() -> SystemTime {
    SystemTime::now()
}

/// `SystemTime::duration_since` the Unix epoch; `None` when the reading lies
/// before it.
#[verifier::external_body]
fn since_unix_epoch(t: &SystemTime) -> Option<Duration> {
    t.duration_since(UNIX_EPOCH).ok()
}

/// `Duration::as_millis`.
#[verifier::external_body]
fn whole_millis(d: &Duration) -> u128 {
    d.as_millis()
}

/// Milliseconds since the Unix epoch by the wall clock, `None` before it.
pub(crate) fn wall_clock_millis() -> Option<u128> {
    match since_unix_epoch(&system_now()) {
        Some(d) => Some(whole_millis(&d)),
        None => None,
    }
}

/// The production clock over the system wall clock.
#[derive(Clone, Copy, Debug, Default)]
pub struct SystemClock;

impl ScanClock for SystemClock {
    /// The wall clock in milliseconds since the Unix epoch, clamped to the
    /// durable range: never negative, zero for a reading before the epoch.
    fn now_ms(&self) -> (r: i64)
        ensures
            0 <= r,
    {
        clamp_clock_reading(crate::scan::wall_clock_millis())
    }
}

/// Worker tuning: a lease renewed well before it expires, and the traversal
/// limits.
#[derive(Clone, Copy, Debug)]
pub struct WorkerConfig {
    pub lease_duration_ms: i64,
    pub lease_renewal_interval_ms: i64,
    pub enumeration_limits: EnumerationLimits,
}

impl Default for WorkerConfig {
    fn default() -> (r: Self)
        ensures
            r.lease_duration_ms == 30_000,
            r.lease_renewal_interval_ms == 5_000,
            r.enumeration_limits.max_observations == MAX_STAGED_RECORDS,
            r.enumeration_limits.max_directories == 100_000,
            r.enumeration_limits.max_pending_directories == 4_096,
            r.enumeration_limits.max_pending_path_bytes == 4 * 1024 * 1024,
            r.enumeration_limits.max_entries == 1_000_000,
            r.enumeration_limits.max_path_bytes == 32 * 1024,
            r.enumeration_limits.max_total_path_bytes == 64 * 1024 * 1024,
            r.enumeration_limits.max_diagnostics == 256,
            r.enumeration_limits.max_exclusions == 256,
            r.enumeration_limits.max_batch_records == crate::enumeration::HARD_MAX_BATCH_RECORDS,
            r.enumeration_limits.max_batch_bytes == crate::enumeration::HARD_MAX_BATCH_BYTES,
            r.enumeration_limits.max_batches == 200_000,
    {
        let mut limits = EnumerationLimits::default();
        // A traversal that would exceed the staging quota fails as a
        // resource limit before provisional work is staged.
        limits.max_observations = MAX_STAGED_RECORDS;
        WorkerConfig { lease_duration_ms: 30_000, lease_renewal_interval_ms: 5_000, enumeration_limits: limits }
    }
}

#[derive(Clone, Copy, Debug, PartialEq, Eq, Structural)]
pub enum WorkerConfigError {
    LeaseDuration,
    RenewalInterval,
}

/// Why a configuration is refused: a non-positive lease, or a renewal
/// interval that is not positive and shorter than the lease.
pub open spec fn worker_config_error(lease_duration_ms: i64, renewal_ms: i64) -> Option<WorkerConfigError> {
    if lease_duration_ms <= 0 {
        Some(WorkerConfigError::LeaseDuration)
    } else if renewal_ms <= 0 || renewal_ms >= lease_duration_ms {
        Some(WorkerConfigError::RenewalInterval)
    } else {
        None
    }
}

/// The single scan worker of the process.
#[derive(Clone, Copy, Debug)]
pub struct ScanWorker {
    config: WorkerConfig,
}

impl ScanWorker {
    pub fn new(config: WorkerConfig) -> (r: Result<Self, WorkerConfigError>)
        ensures
            match r {
                Ok(w) => worker_config_error(config.lease_duration_ms, config.lease_renewal_interval_ms) is None
                    && w.config() == config,
                Err(e) => worker_config_error(config.lease_duration_ms, config.lease_renewal_interval_ms) == Some(e),
            },
    {
        if config.lease_duration_ms <= 0 {
            return Err(WorkerConfigError::LeaseDuration);
        }
        if config.lease_renewal_interval_ms <= 0 || config.lease_renewal_interval_ms >= config.lease_duration_ms {
            return Err(WorkerConfigError::RenewalInterval);
        }
        Ok(ScanWorker { config })
    }

    pub closed spec fn config(&self) -> WorkerConfig {
        self.config
    }

    /// The worker's configuration.
    pub fn worker_config(&self) -> (r: WorkerConfig)
        ensures
            r == self.config(),
    {
        self.config
    }
}

/// The durable state of a scan run, as storage reports it.
#[derive(Clone, Copy, Debug, PartialEq, Eq, Structural)]
pub enum ScanRunState {
    Running,
    Completed,
    Failed,
    Cancelled,
    Interrupted,
}

/// The durable state of a scan job, as storage reports it.
#[derive(Clone, Copy, Debug, PartialEq, Eq, Structural)]
pub enum ScanJobState {
    Queued,
    Running,
    Completed,
    Failed,
    Cancelled,
}

/// How a run the worker could not publish is terminalized.
#[derive(Clone, Copy, Debug, PartialEq, Eq, Structural)]
pub enum ScanRunOutcome {
    Cancelled,
    Interrupted,
    Failed,
}

/// What the worker did with one claimed scan. `Published` is the only status
/// under which committed rows changed.
#[derive(Clone, Copy, Debug, PartialEq, Eq, Structural)]
pub enum ScanExecutionStatus {
    Published,
    Failed,
    Cancelled,
    Interrupted,
    /// Durable state was already decided elsewhere (expired or replaced
    /// lease, reaped run, disabled or removed root).
    Fenced,
}

pub open spec fn status_spec(state: ScanRunState) -> ScanExecutionStatus {
    match state {
        ScanRunState::Completed => ScanExecutionStatus::Published,
        ScanRunState::Failed => ScanExecutionStatus::Failed,
        ScanRunState::Cancelled => ScanExecutionStatus::Cancelled,
        ScanRunState::Interrupted => ScanExecutionStatus::Interrupted,
        ScanRunState::Running => ScanExecutionStatus::Fenced,
    }
}

/// The status reported for a run in a durable state; a run still running
/// under someone else's control is fenced.
pub fn status_from_state(state: ScanRunState) -> (r: ScanExecutionStatus)
    ensures
        r == status_spec(state),
{
    match state {
        ScanRunState::Completed => ScanExecutionStatus::Published,
        ScanRunState::Failed => ScanExecutionStatus::Failed,
        ScanRunState::Cancelled => ScanExecutionStatus::Cancelled,
        ScanRunState::Interrupted => ScanExecutionStatus::Interrupted,
        ScanRunState::Running => ScanExecutionStatus::Fenced,
    }
}

/// The fixed diagnostics code recorded for an enumeration outcome; none for
/// a complete run or when no traversal happened.
pub open spec fn error_code_spec(outcome: Option<Outcome>) -> Option<&'static str> {
    match outcome {
        Some(Outcome::Denied) => Some("access_denied"),
        Some(Outcome::UnsupportedFilesystem) => Some("unsupported"),
        Some(Outcome::ResourceLimit) => Some("resource_limit"),
        Some(Outcome::RootUnavailable) => Some("unavailable"),
        Some(Outcome::Cancelled) => Some("cancelled"),
        Some(Outcome::Partial) | Some(Outcome::Invalid) | Some(Outcome::SinkFailed) => Some("worker_failed"),
        Some(Outcome::Complete) | None => None,
    }
}

pub fn durable_error_code(outcome: Option<Outcome>) -> (r: Option<&'static str>)
    ensures
        r == error_code_spec(outcome),
{
    match outcome {
        Some(Outcome::Denied) => Some("access_denied"),
        Some(Outcome::UnsupportedFilesystem) => Some("unsupported"),
        Some(Outcome::ResourceLimit) => Some("resource_limit"),
        Some(Outcome::RootUnavailable) => Some("unavailable"),
        Some(Outcome::Cancelled) => Some("cancelled"),
        Some(Outcome::Partial) | Some(Outcome::Invalid) | Some(Outcome::SinkFailed) => Some("worker_failed"),
        Some(Outcome::Complete) | None => None,
    }
}

/// The durable facts about a leased run that its fence reads.
#[derive(Clone, Copy, Debug, PartialEq, Eq, Structural)]
pub struct RunFacts {
    pub run_state: ScanRunState,
    pub job_state: ScanJobState,
    pub run_cancellation_requested: bool,
    pub job_cancellation_requested: bool,
    pub follow_up_requested: bool,
    pub lease_expires_at_ms: i64,
}

/// Whether the worker still holds a leased run.
#[derive(Clone, Copy, Debug, PartialEq, Eq, Structural)]
pub enum FenceState {
    Held,
    Invalidated,
    Unreadable,
}

/// The lease still holds at `now`: both run and job are running, nothing
/// asked to cancel or requeue, and the lease has not expired.
pub open spec fn fence_holds(f: RunFacts, now: i64) -> bool {
    &&& f.run_state == ScanRunState::Running
    &&& f.job_state == ScanJobState::Running
    &&& !f.run_cancellation_requested
    &&& !f.job_cancellation_requested
    &&& !f.follow_up_requested
    &&& f.lease_expires_at_ms > now
}

/// The fence on a leased run; `facts` is `None` when storage could not read
/// the run or the job.
pub fn fence_state(facts: Option<RunFacts>, now: i64) -> (r: FenceState)
    ensures
        r == match facts {
            None => FenceState::Unreadable,
            Some(f) => if fence_holds(f, now) { FenceState::Held } else { FenceState::Invalidated },
        },
{
    match facts {
        None => FenceState::Unreadable,
        Some(f) => {
            if f.run_state != ScanRunState::Running || f.job_state != ScanJobState::Running || f.run_cancellation_requested
                || f.job_cancellation_requested || f.follow_up_requested || f.lease_expires_at_ms <= now {
                FenceState::Invalidated
            } else {
                FenceState::Held
            }
        },
    }
}

/// How the worker resolves a run it will not publish.
#[derive(Clone, Copy, Debug, PartialEq, Eq, Structural)]
pub enum Resolution {
    /// Storage could not be read: report the run as fenced.
    Fenced,
    /// The run is no longer running: report its durable state.
    Observed(ScanExecutionStatus),
    /// Terminalize the run with this outcome (discarding its staging).
    Finish(ScanRunOutcome),
}

/// Decides the terminal resolution of a run the worker could not publish: a
/// forced or requested cancellation cancels, a follow-up request interrupts
/// (storage schedules the one deduplicated follow-up), anything else fails.
pub open spec fn resolution_spec(facts: Option<RunFacts>, forced_cancel: bool) -> Resolution {
    match facts {
        None => Resolution::Fenced,
        Some(f) => if f.run_state != ScanRunState::Running {
            Resolution::Observed(status_spec(f.run_state))
        } else if forced_cancel || f.run_cancellation_requested || f.job_cancellation_requested {
            Resolution::Finish(ScanRunOutcome::Cancelled)
        } else if f.follow_up_requested {
            Resolution::Finish(ScanRunOutcome::Interrupted)
        } else {
            Resolution::Finish(ScanRunOutcome::Failed)
        },
    }
}

pub fn resolve_decision(facts: Option<RunFacts>, forced_cancel: bool) -> (r: Resolution)
    ensures
        r == resolution_spec(facts, forced_cancel),
{
    match facts {
        None => Resolution::Fenced,
        Some(f) => {
            if f.run_state != ScanRunState::Running {
                Resolution::Observed(status_from_state(f.run_state))
            } else if forced_cancel || f.run_cancellation_requested || f.job_cancellation_requested {
                Resolution::Finish(ScanRunOutcome::Cancelled)
            } else if f.follow_up_requested {
                Resolution::Finish(ScanRunOutcome::Interrupted)
            } else {
                Resolution::Finish(ScanRunOutcome::Failed)
            }
        },
    }
}

/// 64-bit FNV-1a over `bytes`.
pub open spec fn fnv1a(bytes: Seq<u8>) -> u64
    decreases bytes.len(),
{
    if bytes.len() == 0 {
        0xcbf2_9ce4_8422_2325
    } else {
        (fnv1a(bytes.drop_last()) ^ (bytes.last() as u64)).wrapping_mul(0x0000_0100_0000_01b3)
    }
}

/// Deterministic bounded jitter numerator in `0..=200` thousandths of the
/// backoff (at most 20%), derived from the immutable job id.
pub fn jitter_numerator(job_id: &str) -> (r: i64)
    ensures
        r == fnv1a(vstd::utf8::encode_utf8(job_id@)) % 201,
        0 <= r <= 200,
{
    let bytes = job_id.as_bytes();
    let mut hash: u64 = 0xcbf2_9ce4_8422_2325;
    let mut i: usize = 0;
    proof {
        assert(bytes@.subrange(0, 0) =~= Seq::<u8>::empty());
    }
    while i < bytes.len()
        invariant
            i <= bytes@.len(),
            hash == fnv1a(bytes@.subrange(0, i as int)),
        decreases bytes.len() - i,
    {
        hash = hash ^ (bytes[i] as u64);
        hash = hash.wrapping_mul(0x0000_0100_0000_01b3);
        proof {
            assert(bytes@.subrange(0, i + 1).drop_last() =~= bytes@.subrange(0, i as int));
        }
        i = i + 1;
    }
    proof {
        assert(bytes@.subrange(0, bytes@.len() as int) =~= bytes@);
    }
    (hash % 201) as i64
}

pub open spec fn saturate_i64(v: int) -> i64 {
    if v > i64::MAX { i64::MAX } else if v < i64::MIN { i64::MIN } else { v as i64 }
}

/// `a + b`, saturating at the bounds of `i64`.
pub fn saturating_add_i64(a: i64, b: i64) -> (r: i64)
    ensures
        r == saturate_i64(a + b),
{
    match a.checked_add(b) {
        Some(v) => v,
        None => if b > 0 { i64::MAX } else { i64::MIN },
    }
}

/// The automatic-retry backoff of a failed attempt: one, two, then four
/// seconds.
pub open spec fn backoff_ms(attempt: u32) -> int {
    if attempt <= 1 { 1000 } else if attempt == 2 { 2000 } else { 4000 }
}

/// When a failed job becomes eligible for retry: its last update plus the
/// backoff and a jitter of `backoff * jitter / 1000`, each sum saturating.
pub open spec fn retry_eligible_spec(attempt: u32, updated_at_ms: i64, jitter: int) -> i64 {
    let backoff = backoff_ms(attempt);
    saturate_i64(saturate_i64(updated_at_ms + backoff) + (backoff * jitter) / 1000)
}

impl ScanWorker {
    /// Deterministic retry-eligibility instant for a failed job: storage's
    /// exponential backoff plus at most 20% jitter, keyed on the immutable
    /// job id so every worker computes the same schedule.
    pub fn retry_eligible_at(job_id: &str, attempt: u32, updated_at_ms: i64) -> (r: i64)
        ensures
            r == retry_eligible_spec(attempt, updated_at_ms, (fnv1a(vstd::utf8::encode_utf8(job_id@)) % 201) as int),
    {
        let shift = if attempt <= 1 { 0 } else if attempt == 2 { 1 } else { 2 };
        let backoff: i64 = if shift == 0 { 1000 } else if shift == 1 { 2000 } else { 4000 };
        let j = jitter_numerator(job_id);
        let jitter = backoff * j / 1000;
        saturating_add_i64(saturating_add_i64(updated_at_ms, backoff), jitter)
    }
}

/// Advisory per-path decision counts from the reconciliation core. The
/// durable publication applies its own fenced decisions and remains the
/// authority.
#[derive(Clone, Copy, Debug, PartialEq, Eq, Structural)]
pub struct ChangeSummary {
    pub computed: bool,
    pub added: usize,
    pub modified: usize,
    pub replaced: usize,
    pub identity_uncertain: usize,
    pub missing: usize,
    pub restored: usize,
    pub renames: usize,
}

impl Default for ChangeSummary {
    fn default() -> (r: Self)
        ensures
            !r.computed,
            r.added == 0 && r.modified == 0 && r.replaced == 0 && r.identity_uncertain == 0,
            r.missing == 0 && r.restored == 0 && r.renames == 0,
    {
        ChangeSummary {
            computed: false,
            added: 0,
            modified: 0,
            replaced: 0,
            identity_uncertain: 0,
            missing: 0,
            restored: 0,
            renames: 0,
        }
    }
}

/// The number of changes in `cs` of the kind `kind` (by variant index; the
/// reconciliation core reports no identity-uncertain kind, index 3).
pub open spec fn count_kind(cs: Seq<ChangeView>, kind: int) -> nat
    decreases cs.len(),
{
    if cs.len() == 0 {
        0
    } else {
        count_kind(cs.drop_last(), kind) + if change_kind(cs.last()) == kind { 1nat } else { 0nat }
    }
}

pub open spec fn change_kind(c: ChangeView) -> int {
    match c {
        ChangeView::Added(_) => 0,
        ChangeView::Modified(_) => 1,
        ChangeView::Replaced(_) => 2,
        ChangeView::Missing(_) => 4,
        ChangeView::Restored(_) => 5,
        ChangeView::RenameEvidence { .. } => 6,
    }
}

proof fn lemma_count_kind_bound(cs: Seq<ChangeView>, kind: int)
    ensures
        count_kind(cs, kind) <= cs.len(),
    decreases cs.len(),
{
    if cs.len() > 0 {
        lemma_count_kind_bound(cs.drop_last(), kind);
    }
}

/// The change counts of a plan.
pub open spec fn summary_of(p: PlanView) -> ChangeSummary {
    ChangeSummary {
        computed: true,
        added: count_kind(p.changes, 0) as usize,
        modified: count_kind(p.changes, 1) as usize,
        replaced: count_kind(p.changes, 2) as usize,
        identity_uncertain: 0,
        missing: count_kind(p.changes, 4) as usize,
        restored: count_kind(p.changes, 5) as usize,
        renames: count_kind(p.changes, 6) as usize,
    }
}

/// The number of changes of one kind, counted with the predicate that
/// picks that kind out.
proof fn lemma_count_kind_filter(cs: Seq<ChangeView>, kind: int, pick: spec_fn(ChangeView) -> bool)
    requires
        forall|c: ChangeView| #[trigger] pick(c) <==> change_kind(c) == kind,
    ensures
        count_kind(cs, kind) == cs.filter(pick).len(),
    decreases cs.len(),
{
    reveal(Seq::filter);
    if cs.len() > 0 {
        lemma_count_kind_filter(cs.drop_last(), kind, pick);
    }
}

/// A change summary counts each kind of change by its own variant: as many
/// additions as the plan has `Added` changes, modifications as `Modified`
/// ones, replacements as `Replaced` ones, missing files as `Missing` ones,
/// restorations as `Restored` ones and renames as `RenameEvidence` ones; no
/// identity is counted uncertain.
pub proof fn law_summary_counts_each_variant(p: PlanView)
    requires
        p.changes.len() <= usize::MAX,
    ensures
        summary_of(p).computed,
        summary_of(p).added == p.changes.filter(|c: ChangeView| c is Added).len(),
        summary_of(p).modified == p.changes.filter(|c: ChangeView| c is Modified).len(),
        summary_of(p).replaced == p.changes.filter(|c: ChangeView| c is Replaced).len(),
        summary_of(p).missing == p.changes.filter(|c: ChangeView| c is Missing).len(),
        summary_of(p).restored == p.changes.filter(|c: ChangeView| c is Restored).len(),
        summary_of(p).renames == p.changes.filter(|c: ChangeView| c is RenameEvidence).len(),
        summary_of(p).identity_uncertain == 0,
{
    let cs = p.changes;
    lemma_count_kind_filter(cs, 0, |c: ChangeView| c is Added);
    lemma_count_kind_filter(cs, 1, |c: ChangeView| c is Modified);
    lemma_count_kind_filter(cs, 2, |c: ChangeView| c is Replaced);
    lemma_count_kind_filter(cs, 4, |c: ChangeView| c is Missing);
    lemma_count_kind_filter(cs, 5, |c: ChangeView| c is Restored);
    lemma_count_kind_filter(cs, 6, |c: ChangeView| c is RenameEvidence);
    lemma_count_kind_bound(cs, 0);
    lemma_count_kind_bound(cs, 1);
    lemma_count_kind_bound(cs, 2);
    lemma_count_kind_bound(cs, 4);
    lemma_count_kind_bound(cs, 5);
    lemma_count_kind_bound(cs, 6);
}

/// The retry schedule of a failed job, when no sum saturates: it becomes
/// eligible a backoff plus a jitter after its last update, where the
/// backoff is 1 s doubled for each attempt past the first, up to 4 s
/// (1000 * 2^min(max(attempt - 1, 0), 2) ms), and the jitter is `jitter`
/// thousandths of the backoff, at most a fifth of it.
pub proof fn law_retry_backoff_doubles_up_to_four_seconds(attempt: u32, updated_at_ms: i64, jitter: int)
    requires
        0 <= jitter <= 200,
        updated_at_ms + 4800 <= i64::MAX,
    ensures
        ({
            let backoff = 1000 * vstd::arithmetic::power2::pow2(
                vstd::math::min(vstd::math::max(attempt - 1, 0), 2) as nat,
            );
            &&& retry_eligible_spec(attempt, updated_at_ms, jitter) == updated_at_ms + backoff + backoff * jitter / 1000
            &&& backoff * jitter / 1000 <= backoff / 5
        }),
{
    vstd::arithmetic::power2::lemma2_to64();
    let e = vstd::math::min(vstd::math::max(attempt - 1, 0), 2) as nat;
    let backoff = 1000 * vstd::arithmetic::power2::pow2(e);
    assert(backoff == backoff_ms(attempt));
    assert(0 <= backoff * jitter <= backoff * 200) by (nonlinear_arith)
        requires
            0 <= jitter <= 200,
            backoff >= 0;
    assert(backoff * jitter / 1000 <= backoff / 5) by (nonlinear_arith)
        requires
            0 <= jitter <= 200,
            backoff == 1000 || backoff == 2000 || backoff == 4000;
}

impl ChangeSummary {
    /// Counts the plan's changes by kind.
    pub fn from_plan(plan: &Plan) -> (r: Self)
        ensures
            r == summary_of(plan@),
    {
        let mut summary = ChangeSummary { computed: true, ..ChangeSummary::default() };
        let mut i: usize = 0;
        let ghost cs = plan@.changes;
        while i < plan.changes.len()
            invariant
                cs == plan@.changes,
                cs.len() == plan.changes@.len(),
                i <= cs.len(),
                summary.computed,
                summary.added == count_kind(cs.subrange(0, i as int), 0),
                summary.modified == count_kind(cs.subrange(0, i as int), 1),
                summary.replaced == count_kind(cs.subrange(0, i as int), 2),
                summary.identity_uncertain == 0,
                summary.missing == count_kind(cs.subrange(0, i as int), 4),
                summary.restored == count_kind(cs.subrange(0, i as int), 5),
                summary.renames == count_kind(cs.subrange(0, i as int), 6),
            decreases cs.len() - i,
        {
            proof {
                let pre = cs.subrange(0, i as int);
                let next = cs.subrange(0, i + 1);
                assert(next.drop_last() =~= pre);
                assert(next.last() == cs[i as int]);
                assert(cs[i as int] == plan.changes@[i as int]@);
                lemma_count_kind_bound(pre, 0);
                lemma_count_kind_bound(pre, 1);
                lemma_count_kind_bound(pre, 2);
                lemma_count_kind_bound(pre, 4);
                lemma_count_kind_bound(pre, 5);
                lemma_count_kind_bound(pre, 6);
            }
            match &plan.changes[i] {
                Change::Added(_) => summary.added = summary.added + 1,
                Change::Modified(_) => summary.modified = summary.modified + 1,
                Change::Replaced(_) => summary.replaced = summary.replaced + 1,
                Change::Missing(_) => summary.missing = summary.missing + 1,
                Change::Restored(_) => summary.restored = summary.restored + 1,
                Change::RenameEvidence { .. } => summary.renames = summary.renames + 1,
            }
            i = i + 1;
        }
        proof {
            assert(cs.subrange(0, cs.len() as int) =~= cs);
        }
        summary
    }
}

/// The reconciliation form of one enumerated observation: its display path
/// and its metadata.
pub open spec fn plan_observation(o: EnumeratedObservation) -> ObservationView {
    ObservationView {
        path: o.display_path@,
        metadata: Metadata {
            size: o.byte_size,
            modified_ns: o.modified_unix_ns,
            identity: match o.identity {
                Some(i) => Some(Identity { volume: i.volume_serial, file: i.file_id }),
                None => None,
            },
        },
    }
}

/// A bounded in-memory mirror of the observations a run staged, kept only
/// to derive the advisory change summary after an authoritative traversal.
/// It holds at most the durable staging quota; beyond that it gives up.
pub struct PlanBuffer {
    observations: Vec<PlanObservation>,
    truncated: bool,
}

impl PlanBuffer {
    pub const CAPACITY: usize = MAX_STAGED_RECORDS;

    pub closed spec fn observations(&self) -> Seq<ObservationView> {
        observations_view(self.observations@)
    }

    pub closed spec fn is_truncated(&self) -> bool {
        self.truncated
    }

    pub fn new() -> (r: Self)
        ensures
            r.observations() == Seq::<ObservationView>::empty(),
            !r.is_truncated(),
    {
        let r = PlanBuffer { observations: Vec::new(), truncated: false };
        assert(observations_view(r.observations@) =~= Seq::<ObservationView>::empty());
        r
    }

    /// Mirrors one staged batch; once the mirror would exceed the quota it
    /// is dropped and marked truncated for good.
    pub fn absorb(&mut self, records: &[EnumeratedObservation])
        ensures
            old(self).is_truncated() ==> *final(self) == *old(self),
            !old(self).is_truncated() && old(self).observations().len() + records@.len() > Self::CAPACITY ==>
                final(self).is_truncated() && final(self).observations().len() == 0,
            !old(self).is_truncated() && old(self).observations().len() + records@.len() <= Self::CAPACITY ==>
                !final(self).is_truncated()
                && final(self).observations() == old(self).observations() + records@.map_values(|o: EnumeratedObservation| plan_observation(o)),
    {
        if self.truncated {
            return;
        }
        if self.observations.len() > Self::CAPACITY || records.len() > Self::CAPACITY - self.observations.len() {
            self.truncated = true;
            self.observations.clear();
            assert(observations_view(self.observations@) =~= Seq::<ObservationView>::empty());
            return;
        }
        let ghost start = observations_view(self.observations@);
        let mut i: usize = 0;
        while i < records.len()
            invariant
                i <= records@.len(),
                !self.truncated,
                observations_view(self.observations@) == start
                    + records@.subrange(0, i as int).map_values(|o: EnumeratedObservation| plan_observation(o)),
            decreases records.len() - i,
        {
            let record = &records[i];
            let identity = match record.identity {
                Some(id) => Some(Identity { volume: id.volume_serial, file: id.file_id }),
                None => None,
            };
            let path = record.display_path.as_str().to_owned();
            let ghost before = self.observations@;
            self.observations.push(PlanObservation {
                path,
                metadata: Metadata { size: record.byte_size, modified_ns: record.modified_unix_ns, identity },
            });
            proof {
                assert(self.observations@ =~= before.push(self.observations@.last()));
                assert(observations_view(self.observations@) =~= observations_view(before).push(plan_observation(records@[i as int])));
                assert(records@.subrange(0, i + 1).map_values(|o: EnumeratedObservation| plan_observation(o))
                    =~= records@.subrange(0, i as int).map_values(|o: EnumeratedObservation| plan_observation(o)).push(plan_observation(records@[i as int])));
            }
            i = i + 1;
        }
        proof {
            assert(records@.subrange(0, records@.len() as int) =~= records@);
        }
    }

    /// The advisory change summary of the run against the committed
    /// locations `previous`; `None` when the mirror gave up, the comparison
    /// would exceed the quota, or the reconciliation core refuses the inputs.
    /// It never gates publication.
    pub fn change_summary(&self, previous: &[Location]) -> (r: Option<ChangeSummary>)
        ensures
            match r {
                None => self.is_truncated() || previous@.len() + self.observations().len() > Self::CAPACITY
                    || rejection(locations_view(previous@), self.observations(), PlanOutcome::Complete) is Some,
                Some(s) => !self.is_truncated() && previous@.len() + self.observations().len() <= Self::CAPACITY
                    && exists|p: PlanView| plan_matches(locations_view(previous@), self.observations(), p) && s == summary_of(p),
            },
    {
        if self.truncated {
            return None;
        }
        if previous.len() > Self::CAPACITY || self.observations.len() > Self::CAPACITY - previous.len() {
            return None;
        }
        match reconcile(previous, self.observations.as_slice(), PlanOutcome::Complete) {
            Ok(plan) => Some(ChangeSummary::from_plan(&plan)),
            Err(_) => None,
        }
    }
}

} // verus!
