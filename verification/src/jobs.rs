//! Jobs as callers see them: specifications, operations, claims and receipts.
use vstd::prelude::*;
use vstd::std_specs::iter::IteratorSpec;

use crate::id::Id;
use crate::state::{EffectMode, JobState, Resolution};
use crate::values::{copy_bytes, copy_opt_bytes, copy_opt_text, opt_bytes, opt_text};

verus! {

/// The attempts a job gets when its specification does not say.
pub const DEFAULT_MAX_ATTEMPTS: u32 = 3;

/// What to enqueue.
#[derive(PartialEq, Eq, Debug)]
pub struct JobSpec {
    pub job_id: Id,
    pub queue: String,
    pub partition_key: String,
    pub payload: Vec<u8>,
    pub not_before_ms: i64,
    pub max_attempts: u32,
    pub effect_mode: EffectMode,
    pub idempotency_key: Option<String>,
}

/// The view of a [`JobSpec`].
#[verifier::ext_equal]
pub struct JobSpecView {
    pub job_id: Id,
    pub queue: Seq<char>,
    pub partition_key: Seq<char>,
    pub payload: Seq<u8>,
    pub not_before_ms: i64,
    pub max_attempts: u32,
    pub effect_mode: EffectMode,
    pub idempotency_key: Option<Seq<char>>,
}

impl View for JobSpec {
    type V = JobSpecView;

    open spec fn view(&self) -> JobSpecView {
        JobSpecView {
            job_id: self.job_id,
            queue: self.queue@,
            partition_key: self.partition_key@,
            payload: self.payload@,
            not_before_ms: self.not_before_ms,
            max_attempts: self.max_attempts,
            effect_mode: self.effect_mode,
            idempotency_key: opt_text(self.idempotency_key),
        }
    }
}

impl Clone for JobSpec {
    fn clone(&self) -> (r: JobSpec)
        ensures
            r@ == self@,
    {
        JobSpec {
            job_id: self.job_id,
            queue: self.queue.clone(),
            partition_key: self.partition_key.clone(),
            payload: copy_bytes(&self.payload),
            not_before_ms: self.not_before_ms,
            max_attempts: self.max_attempts,
            effect_mode: self.effect_mode,
            idempotency_key: copy_opt_text(&self.idempotency_key),
        }
    }
}

impl JobSpec {
    /// A job whose effect has to be reconciled when its lease expires.
    pub fn reconcilable(job_id: Id, queue: &str, partition_key: &str, payload: Vec<u8>) -> (s: JobSpec)
        ensures
            s@ == (JobSpecView {
                job_id,
                queue: queue@,
                partition_key: partition_key@,
                payload: payload@,
                not_before_ms: 0,
                max_attempts: DEFAULT_MAX_ATTEMPTS,
                effect_mode: EffectMode::RequiresReconciliation,
                idempotency_key: None,
            }),
    {
        JobSpec {
            job_id,
            queue: queue.to_owned(),
            partition_key: partition_key.to_owned(),
            payload,
            not_before_ms: 0,
            max_attempts: DEFAULT_MAX_ATTEMPTS,
            effect_mode: EffectMode::RequiresReconciliation,
            idempotency_key: None,
        }
    }

    /// A job whose effect may be repeated under the same idempotency key.
    pub fn idempotent(
        job_id: Id,
        queue: &str,
        partition_key: &str,
        payload: Vec<u8>,
        idempotency_key: &str,
    ) -> (s: JobSpec)
        ensures
            s@ == (JobSpecView {
                job_id,
                queue: queue@,
                partition_key: partition_key@,
                payload: payload@,
                not_before_ms: 0,
                max_attempts: DEFAULT_MAX_ATTEMPTS,
                effect_mode: EffectMode::ExplicitlyIdempotent,
                idempotency_key: Some(idempotency_key@),
            }),
    {
        JobSpec {
            job_id,
            queue: queue.to_owned(),
            partition_key: partition_key.to_owned(),
            payload,
            not_before_ms: 0,
            max_attempts: DEFAULT_MAX_ATTEMPTS,
            effect_mode: EffectMode::ExplicitlyIdempotent,
            idempotency_key: Some(idempotency_key.to_owned()),
        }
    }

    /// A job whose effect may be repeated by its nature, without a key.
    pub fn intrinsically_idempotent(
        job_id: Id,
        queue: &str,
        partition_key: &str,
        payload: Vec<u8>,
    ) -> (s: JobSpec)
        ensures
            s@ == (JobSpecView {
                job_id,
                queue: queue@,
                partition_key: partition_key@,
                payload: payload@,
                not_before_ms: 0,
                max_attempts: DEFAULT_MAX_ATTEMPTS,
                effect_mode: EffectMode::ExplicitlyIdempotent,
                idempotency_key: None,
            }),
    {
        JobSpec {
            job_id,
            queue: queue.to_owned(),
            partition_key: partition_key.to_owned(),
            payload,
            not_before_ms: 0,
            max_attempts: DEFAULT_MAX_ATTEMPTS,
            effect_mode: EffectMode::ExplicitlyIdempotent,
            idempotency_key: None,
        }
    }

    /// The same job, claimable from `not_before_ms` on.
    pub fn with_not_before_ms(self, not_before_ms: i64) -> (s: JobSpec)
        ensures
            s@ == (JobSpecView { not_before_ms, ..self@ }),
    {
        JobSpec { not_before_ms, ..self }
    }

    /// The queue of the job.
    pub fn queue(&self) -> (s: &str)
        ensures
            s@ == self@.queue,
    {
        self.queue.as_str()
    }

    /// The partition of the job.
    pub fn partition_key(&self) -> (s: &str)
        ensures
            s@ == self@.partition_key,
    {
        self.partition_key.as_str()
    }

    /// The payload of the job.
    pub fn payload(&self) -> (p: &Vec<u8>)
        ensures
            p@ == self@.payload,
    {
        &self.payload
    }

    /// The same job with another number of attempts.
    pub fn with_max_attempts(self, max_attempts: u32) -> (s: JobSpec)
        ensures
            s@ == (JobSpecView { max_attempts, ..self@ }),
    {
        JobSpec { max_attempts, ..self }
    }
}

/// A job as a reader sees it. The lease token is not part of it.
#[derive(PartialEq, Eq, Debug)]
pub struct JobInfo {
    pub job_id: Id,
    pub spec: JobSpec,
    pub state: JobState,
    pub attempt: u32,
    pub lease_expires_at_ms: Option<i64>,
    pub worker_id: Option<String>,
    pub retry_after_ms: Option<i64>,
    pub terminal_at_ms: Option<i64>,
    pub result_digest: Option<Vec<u8>>,
    pub error_summary: Option<String>,
}

/// The view of a [`JobInfo`].
#[verifier::ext_equal]
pub struct JobInfoView {
    pub job_id: Id,
    pub spec: JobSpecView,
    pub state: JobState,
    pub attempt: u32,
    pub lease_expires_at_ms: Option<i64>,
    pub worker_id: Option<Seq<char>>,
    pub retry_after_ms: Option<i64>,
    pub terminal_at_ms: Option<i64>,
    pub result_digest: Option<Seq<u8>>,
    pub error_summary: Option<Seq<char>>,
}

impl View for JobInfo {
    type V = JobInfoView;

    open spec fn view(&self) -> JobInfoView {
        JobInfoView {
            job_id: self.job_id,
            spec: self.spec@,
            state: self.state,
            attempt: self.attempt,
            lease_expires_at_ms: self.lease_expires_at_ms,
            worker_id: opt_text(self.worker_id),
            retry_after_ms: self.retry_after_ms,
            terminal_at_ms: self.terminal_at_ms,
            result_digest: opt_bytes(self.result_digest),
            error_summary: opt_text(self.error_summary),
        }
    }
}

impl Clone for JobInfo {
    fn clone(&self) -> (r: JobInfo)
        ensures
            r@ == self@,
    {
        JobInfo {
            job_id: self.job_id,
            spec: self.spec.clone(),
            state: self.state,
            attempt: self.attempt,
            lease_expires_at_ms: self.lease_expires_at_ms,
            worker_id: copy_opt_text(&self.worker_id),
            retry_after_ms: self.retry_after_ms,
            terminal_at_ms: self.terminal_at_ms,
            result_digest: copy_opt_bytes(&self.result_digest),
            error_summary: copy_opt_text(&self.error_summary),
        }
    }
}

/// The views of a list of jobs.
pub open spec fn info_views(s: Seq<JobInfo>) -> Seq<JobInfoView> {
    s.map_values(|j: JobInfo| j@)
}

/// The acknowledgement of a leased job.
#[derive(PartialEq, Eq, Debug)]
pub struct JobAck {
    pub job_id: Id,
    pub lease_token: Id,
    pub result_digest: Option<Vec<u8>>,
}

/// The view of a [`JobAck`].
#[verifier::ext_equal]
pub struct JobAckView {
    pub job_id: Id,
    pub lease_token: Id,
    pub result_digest: Option<Seq<u8>>,
}

impl View for JobAck {
    type V = JobAckView;

    open spec fn view(&self) -> JobAckView {
        JobAckView {
            job_id: self.job_id,
            lease_token: self.lease_token,
            result_digest: opt_bytes(self.result_digest),
        }
    }
}

impl Clone for JobAck {
    fn clone(&self) -> (r: JobAck)
        ensures
            r@ == self@,
    {
        JobAck {
            job_id: self.job_id,
            lease_token: self.lease_token,
            result_digest: copy_opt_bytes(&self.result_digest),
        }
    }
}

/// The failure of a leased job. `retry_after_ms` is an absolute timestamp.
#[derive(PartialEq, Eq, Debug)]
pub struct JobFailure {
    pub job_id: Id,
    pub lease_token: Id,
    pub error_summary: String,
    pub retry_after_ms: Option<i64>,
}

/// The view of a [`JobFailure`].
#[verifier::ext_equal]
pub struct JobFailureView {
    pub job_id: Id,
    pub lease_token: Id,
    pub error_summary: Seq<char>,
    pub retry_after_ms: Option<i64>,
}

impl View for JobFailure {
    type V = JobFailureView;

    open spec fn view(&self) -> JobFailureView {
        JobFailureView {
            job_id: self.job_id,
            lease_token: self.lease_token,
            error_summary: self.error_summary@,
            retry_after_ms: self.retry_after_ms,
        }
    }
}

impl Clone for JobFailure {
    fn clone(&self) -> (r: JobFailure)
        ensures
            r@ == self@,
    {
        JobFailure {
            job_id: self.job_id,
            lease_token: self.lease_token,
            error_summary: self.error_summary.clone(),
            retry_after_ms: self.retry_after_ms,
        }
    }
}

/// The cancellation of a job.
#[derive(Clone, Copy, PartialEq, Eq, Debug)]
pub struct JobCancellation {
    pub job_id: Id,
    pub lease_token: Option<Id>,
}

/// The resolution of an uncertain job.
#[derive(Clone, Copy, PartialEq, Eq, Debug)]
pub struct JobResolution {
    pub job_id: Id,
    pub resolution: Resolution,
}

/// The extension of a lease.
#[derive(Clone, Copy, PartialEq, Eq, Debug)]
pub struct LeaseExtension {
    pub job_id: Id,
    pub lease_token: Id,
    pub new_expiry_ms: i64,
}

/// The receipt of a lease extension.
#[derive(Clone, Copy, PartialEq, Eq, Debug)]
pub struct LeaseExtensionReceipt {
    pub job_id: Id,
    pub attempt: u32,
    pub lease_expires_at_ms: i64,
}

impl LeaseExtensionReceipt {
    /// The job whose lease was extended.
    pub fn job_id(&self) -> (id: Id)
        ensures
            id == self.job_id,
    {
        self.job_id
    }

    /// The attempt that the lease belongs to.
    pub fn attempt(&self) -> (n: u32)
        ensures
            n == self.attempt,
    {
        self.attempt
    }

    /// The new expiry of the lease.
    pub fn lease_expires_at_ms(&self) -> (ms: i64)
        ensures
            ms == self.lease_expires_at_ms,
    {
        self.lease_expires_at_ms
    }
}

/// A claim for ready jobs of one queue, or of one of its partitions.
#[derive(PartialEq, Eq, Debug)]
pub struct ClaimRequest {
    pub queue: String,
    pub worker_id: String,
    pub now_ms: i64,
    pub lease_ms: i64,
    pub limit: usize,
    pub partition_key: Option<String>,
}

/// The view of a [`ClaimRequest`].
#[verifier::ext_equal]
pub struct ClaimRequestView {
    pub queue: Seq<char>,
    pub worker_id: Seq<char>,
    pub now_ms: i64,
    pub lease_ms: i64,
    pub limit: nat,
    pub partition_key: Option<Seq<char>>,
}

impl View for ClaimRequest {
    type V = ClaimRequestView;

    open spec fn view(&self) -> ClaimRequestView {
        ClaimRequestView {
            queue: self.queue@,
            worker_id: self.worker_id@,
            now_ms: self.now_ms,
            lease_ms: self.lease_ms,
            limit: self.limit as nat,
            partition_key: opt_text(self.partition_key),
        }
    }
}

/// A leased job, with everything a worker needs to execute it.
#[derive(PartialEq, Eq, Debug)]
pub struct ClaimedJob {
    pub job_id: Id,
    pub queue: String,
    pub partition_key: String,
    pub payload: Vec<u8>,
    pub worker_id: String,
    pub lease_token: Id,
    pub attempt: u32,
    pub lease_expires_at_ms: i64,
    pub idempotency_key: Option<String>,
}

/// The view of a [`ClaimedJob`].
#[verifier::ext_equal]
pub struct ClaimedJobView {
    pub job_id: Id,
    pub queue: Seq<char>,
    pub partition_key: Seq<char>,
    pub payload: Seq<u8>,
    pub worker_id: Seq<char>,
    pub lease_token: Id,
    pub attempt: u32,
    pub lease_expires_at_ms: i64,
    pub idempotency_key: Option<Seq<char>>,
}

impl View for ClaimedJob {
    type V = ClaimedJobView;

    open spec fn view(&self) -> ClaimedJobView {
        ClaimedJobView {
            job_id: self.job_id,
            queue: self.queue@,
            partition_key: self.partition_key@,
            payload: self.payload@,
            worker_id: self.worker_id@,
            lease_token: self.lease_token,
            attempt: self.attempt,
            lease_expires_at_ms: self.lease_expires_at_ms,
            idempotency_key: opt_text(self.idempotency_key),
        }
    }
}

impl Clone for ClaimedJob {
    fn clone(&self) -> (r: ClaimedJob)
        ensures
            r@ == self@,
    {
        ClaimedJob {
            job_id: self.job_id,
            queue: self.queue.clone(),
            partition_key: self.partition_key.clone(),
            payload: copy_bytes(&self.payload),
            worker_id: self.worker_id.clone(),
            lease_token: self.lease_token,
            attempt: self.attempt,
            lease_expires_at_ms: self.lease_expires_at_ms,
            idempotency_key: copy_opt_text(&self.idempotency_key),
        }
    }
}

/// The views of a list of leased jobs.
pub open spec fn claimed_views(s: Seq<ClaimedJob>) -> Seq<ClaimedJobView> {
    s.map_values(|j: ClaimedJob| j@)
}

/// A durable claim: the jobs that may be executed under it and, after a
/// recovery, the jobs that may not.
#[derive(PartialEq, Eq, Debug)]
pub struct CommittedClaims {
    pub transaction_id: Id,
    pub jobs: Vec<ClaimedJob>,
    pub stale_jobs: Vec<Id>,
}

/// The view of [`CommittedClaims`].
#[verifier::ext_equal]
pub struct CommittedClaimsView {
    pub transaction_id: Id,
    pub jobs: Seq<ClaimedJobView>,
    pub stale_jobs: Seq<Id>,
}

impl View for CommittedClaims {
    type V = CommittedClaimsView;

    open spec fn view(&self) -> CommittedClaimsView {
        CommittedClaimsView {
            transaction_id: self.transaction_id,
            jobs: claimed_views(self.jobs@),
            stale_jobs: self.stale_jobs@,
        }
    }
}

impl CommittedClaims {
    /// The transaction of the claim.
    pub fn transaction_id(&self) -> (id: Id)
        ensures
            id == self@.transaction_id,
    {
        self.transaction_id
    }

    /// The jobs that may be executed.
    pub fn jobs(&self) -> (jobs: &Vec<ClaimedJob>)
        ensures
            claimed_views(jobs@) == self@.jobs,
    {
        &self.jobs
    }

    /// The jobs that were leased by the claim but must not be executed.
    pub fn stale_jobs(&self) -> (ids: &Vec<Id>)
        ensures
            ids@ == self@.stale_jobs,
    {
        &self.stale_jobs
    }

    /// The jobs that may be executed, by value.
    pub fn into_jobs(self) -> (jobs: Vec<ClaimedJob>)
        ensures
            claimed_views(jobs@) == self@.jobs,
    {
        self.jobs
    }

    /// The number of jobs that may be executed.
    pub fn len(&self) -> (n: usize)
        ensures
            n == self@.jobs.len(),
    {
        self.jobs.len()
    }

    /// No job may be executed.
    pub fn is_empty(&self) -> (r: bool)
        ensures
            r == (self@.jobs.len() == 0),
    {
        self.jobs.len() == 0
    }
}

impl IntoIterator for CommittedClaims {
    type Item = ClaimedJob;

    type IntoIter = std::vec::IntoIter<ClaimedJob>;

    /// The jobs that may be executed, one by one.
    fn into_iter(self) -> (iter: std::vec::IntoIter<ClaimedJob>)
        ensures
            claimed_views(iter.remaining()) == self@.jobs,
    {
        self.jobs.into_iter()
    }
}

/// The receipt of a claim that repaired expired leases and granted none.
#[derive(Clone, Copy, PartialEq, Eq, Debug)]
pub struct MaintenanceReceipt {
    pub transaction_id: Id,
}

impl MaintenanceReceipt {
    /// The transaction of the claim.
    pub fn transaction_id(&self) -> (id: Id)
        ensures
            id == self.transaction_id,
    {
        self.transaction_id
    }
}

/// What a claim did.
#[derive(PartialEq, Eq, Debug)]
pub enum ClaimOutcome {
    /// Nothing; no transaction was created.
    Noop,
    /// Only expired leases were repaired.
    MaintenanceCommitted(MaintenanceReceipt),
    /// Leases were granted.
    Committed(CommittedClaims),
}

/// The view of a [`ClaimOutcome`].
#[verifier::ext_equal]
pub enum ClaimOutcomeView {
    Noop,
    MaintenanceCommitted(Id),
    Committed(CommittedClaimsView),
}

impl View for ClaimOutcome {
    type V = ClaimOutcomeView;

    open spec fn view(&self) -> ClaimOutcomeView {
        match *self {
            ClaimOutcome::Noop => ClaimOutcomeView::Noop,
            ClaimOutcome::MaintenanceCommitted(r) => ClaimOutcomeView::MaintenanceCommitted(
                r.transaction_id,
            ),
            ClaimOutcome::Committed(c) => ClaimOutcomeView::Committed(c@),
        }
    }
}

/// What became of an indeterminate claim.
#[derive(PartialEq, Eq, Debug)]
pub enum ClaimRecovery {
    /// Leases were granted.
    Committed(CommittedClaims),
    /// Only expired leases were repaired.
    MaintenanceCommitted(MaintenanceReceipt),
    /// Nothing of it is durable.
    Absent,
}

/// The view of a [`ClaimRecovery`].
#[verifier::ext_equal]
pub enum ClaimRecoveryView {
    Committed(CommittedClaimsView),
    MaintenanceCommitted(Id),
    Absent,
}

impl View for ClaimRecovery {
    type V = ClaimRecoveryView;

    open spec fn view(&self) -> ClaimRecoveryView {
        match *self {
            ClaimRecovery::Committed(c) => ClaimRecoveryView::Committed(c@),
            ClaimRecovery::MaintenanceCommitted(r) => ClaimRecoveryView::MaintenanceCommitted(
                r.transaction_id,
            ),
            ClaimRecovery::Absent => ClaimRecoveryView::Absent,
        }
    }
}

/// The receipt of a commit.
#[derive(Clone, Copy, PartialEq, Eq, Debug)]
pub struct CommitReceipt {
    pub transaction_id: Id,
    pub transaction_sequence: u64,
    pub committed_at_ms: i64,
}

impl CommitReceipt {
    /// The transaction of the commit.
    pub fn transaction_id(&self) -> (id: Id)
        ensures
            id == self.transaction_id,
    {
        self.transaction_id
    }

    /// The place of the transaction among all transactions.
    pub fn transaction_sequence(&self) -> (n: u64)
        ensures
            n == self.transaction_sequence,
    {
        self.transaction_sequence
    }

    /// The time of the commit.
    pub fn committed_at_ms(&self) -> (ms: i64)
        ensures
            ms == self.committed_at_ms,
    {
        self.committed_at_ms
    }
}

} // verus!
