//! What the Node binding hands out.
use vstd::prelude::*;

use crate::batch::{persisted_views, PersistedEvent, PersistedEventView};
use crate::commit::TransactionRecovery;
use crate::id::{hex_of, Id};
use crate::jobs::{
    info_views, ClaimOutcome, ClaimOutcomeView, ClaimRecovery, ClaimRecoveryView, ClaimedJob,
    ClaimedJobView, CommitReceipt, CommittedClaims, CommittedClaimsView, JobInfo, JobInfoView,
    LeaseExtensionReceipt, MaintenanceReceipt,
};
use crate::node_error::{job_state_name, state_name};
use crate::values::opt_text;

verus! {

/// The receipt of a commit.
#[derive(PartialEq, Eq, Debug)]
pub struct CommitReceiptOutput {
    pub transaction_id: String,
    pub transaction_sequence: i64,
    pub committed_at_ms: i64,
}

/// The view of a [`CommitReceiptOutput`].
#[verifier::ext_equal]
pub struct CommitReceiptOutputView {
    pub transaction_id: Seq<char>,
    pub transaction_sequence: i64,
    pub committed_at_ms: i64,
}

impl View for CommitReceiptOutput {
    type V = CommitReceiptOutputView;

    open spec fn view(&self) -> CommitReceiptOutputView {
        CommitReceiptOutputView {
            transaction_id: self.transaction_id@,
            transaction_sequence: self.transaction_sequence,
            committed_at_ms: self.committed_at_ms,
        }
    }
}

/// How a commit receipt is handed out.
pub open spec fn receipt_shown(r: CommitReceipt) -> CommitReceiptOutputView {
    CommitReceiptOutputView {
        transaction_id: hex_of(r.transaction_id),
        transaction_sequence: r.transaction_sequence as i64,
        committed_at_ms: r.committed_at_ms,
    }
}

/// Hands out a commit receipt.
pub fn receipt_output(receipt: CommitReceipt) -> (o: CommitReceiptOutput)
    ensures
        o@ == receipt_shown(receipt),
{
    CommitReceiptOutput {
        transaction_id: receipt.transaction_id.to_hex(),
        transaction_sequence: receipt.transaction_sequence as i64,
        committed_at_ms: receipt.committed_at_ms,
    }
}

/// A leased job.
#[derive(PartialEq, Eq, Debug)]
pub struct ClaimedJobOutput {
    pub job_id: String,
    pub queue: String,
    pub partition_key: String,
    pub payload: Vec<u8>,
    pub worker_id: String,
    pub lease_token: String,
    pub attempt: u32,
    pub lease_expires_at_ms: i64,
    pub idempotency_key: Option<String>,
}

/// The view of a [`ClaimedJobOutput`].
#[verifier::ext_equal]
pub struct ClaimedJobOutputView {
    pub job_id: Seq<char>,
    pub queue: Seq<char>,
    pub partition_key: Seq<char>,
    pub payload: Seq<u8>,
    pub worker_id: Seq<char>,
    pub lease_token: Seq<char>,
    pub attempt: u32,
    pub lease_expires_at_ms: i64,
    pub idempotency_key: Option<Seq<char>>,
}

impl View for ClaimedJobOutput {
    type V = ClaimedJobOutputView;

    open spec fn view(&self) -> ClaimedJobOutputView {
        ClaimedJobOutputView {
            job_id: self.job_id@,
            queue: self.queue@,
            partition_key: self.partition_key@,
            payload: self.payload@,
            worker_id: self.worker_id@,
            lease_token: self.lease_token@,
            attempt: self.attempt,
            lease_expires_at_ms: self.lease_expires_at_ms,
            idempotency_key: opt_text(self.idempotency_key),
        }
    }
}

/// How a leased job is handed out.
pub open spec fn claimed_shown(j: ClaimedJobView) -> ClaimedJobOutputView {
    ClaimedJobOutputView {
        job_id: hex_of(j.job_id),
        queue: j.queue,
        partition_key: j.partition_key,
        payload: j.payload,
        worker_id: j.worker_id,
        lease_token: hex_of(j.lease_token),
        attempt: j.attempt,
        lease_expires_at_ms: j.lease_expires_at_ms,
        idempotency_key: j.idempotency_key,
    }
}

/// Hands out a leased job.
pub fn claimed_job_output(job: ClaimedJob) -> (o: ClaimedJobOutput)
    ensures
        o@ == claimed_shown(job@),
{
    ClaimedJobOutput {
        job_id: job.job_id.to_hex(),
        queue: job.queue,
        partition_key: job.partition_key,
        payload: job.payload,
        worker_id: job.worker_id,
        lease_token: job.lease_token.to_hex(),
        attempt: job.attempt,
        lease_expires_at_ms: job.lease_expires_at_ms,
        idempotency_key: job.idempotency_key,
    }
}

/// The outcome of a claim or of its recovery. `kind` is "noop",
/// "maintenanceCommitted", "committed" or, of a recovery, "absent".
/// `stale_jobs` lists jobs that were leased by the claim but must not be
/// executed with the recovered tokens.
#[derive(PartialEq, Eq, Debug)]
pub struct ClaimOutcomeOutput {
    pub kind: String,
    pub transaction_id: Option<String>,
    pub jobs: Vec<ClaimedJobOutput>,
    pub stale_jobs: Vec<String>,
}

/// The view of a [`ClaimOutcomeOutput`].
#[verifier::ext_equal]
pub struct ClaimOutcomeOutputView {
    pub kind: Seq<char>,
    pub transaction_id: Option<Seq<char>>,
    pub jobs: Seq<ClaimedJobOutputView>,
    pub stale_jobs: Seq<Seq<char>>,
}

impl View for ClaimOutcomeOutput {
    type V = ClaimOutcomeOutputView;

    open spec fn view(&self) -> ClaimOutcomeOutputView {
        ClaimOutcomeOutputView {
            kind: self.kind@,
            transaction_id: opt_text(self.transaction_id),
            jobs: self.jobs@.map_values(|j: ClaimedJobOutput| j@),
            stale_jobs: self.stale_jobs@.map_values(|s: String| s@),
        }
    }
}

/// An outcome without a transaction.
pub open spec fn bare_shown(kind: Seq<char>) -> ClaimOutcomeOutputView {
    ClaimOutcomeOutputView {
        kind,
        transaction_id: None,
        jobs: Seq::empty(),
        stale_jobs: Seq::empty(),
    }
}

/// An outcome that leased nothing.
pub open spec fn maintenance_shown(transaction_id: Id) -> ClaimOutcomeOutputView {
    ClaimOutcomeOutputView {
        transaction_id: Some(hex_of(transaction_id)),
        ..bare_shown("maintenanceCommitted"@)
    }
}

/// An outcome with leases.
pub open spec fn committed_shown(c: CommittedClaimsView) -> ClaimOutcomeOutputView {
    ClaimOutcomeOutputView {
        kind: "committed"@,
        transaction_id: Some(hex_of(c.transaction_id)),
        jobs: c.jobs.map_values(|j: ClaimedJobView| claimed_shown(j)),
        stale_jobs: c.stale_jobs.map_values(|id: Id| hex_of(id)),
    }
}

/// How the outcome of a claim is handed out.
pub open spec fn outcome_shown(o: ClaimOutcomeView) -> ClaimOutcomeOutputView {
    match o {
        ClaimOutcomeView::Noop => bare_shown("noop"@),
        ClaimOutcomeView::MaintenanceCommitted(id) => maintenance_shown(id),
        ClaimOutcomeView::Committed(c) => committed_shown(c),
    }
}

/// How the recovery of a claim is handed out.
pub open spec fn recovery_shown(r: ClaimRecoveryView) -> ClaimOutcomeOutputView {
    match r {
        ClaimRecoveryView::Committed(c) => committed_shown(c),
        ClaimRecoveryView::MaintenanceCommitted(id) => maintenance_shown(id),
        ClaimRecoveryView::Absent => bare_shown("absent"@),
    }
}

impl ClaimOutcomeOutput {
    /// An outcome without a transaction.
    pub fn bare(kind: &str) -> (o: ClaimOutcomeOutput)
        ensures
            o@ == bare_shown(kind@),
    {
        let o = ClaimOutcomeOutput {
            kind: kind.to_owned(),
            transaction_id: None,
            jobs: Vec::new(),
            stale_jobs: Vec::new(),
        };
        assert(o@ =~= bare_shown(kind@));
        o
    }

    /// An outcome that leased nothing.
    pub fn maintenance(receipt: MaintenanceReceipt) -> (o: ClaimOutcomeOutput)
        ensures
            o@ == maintenance_shown(receipt.transaction_id),
    {
        let bare = ClaimOutcomeOutput::bare("maintenanceCommitted");
        ClaimOutcomeOutput { transaction_id: Some(receipt.transaction_id.to_hex()), ..bare }
    }

    /// An outcome with leases.
    pub fn committed(claims: CommittedClaims) -> (o: ClaimOutcomeOutput)
        ensures
            o@ == committed_shown(claims@),
    {
        let mut stale_jobs: Vec<String> = Vec::new();
        let mut i: usize = 0;
        while i < claims.stale_jobs.len()
            invariant
                i <= claims.stale_jobs@.len(),
                stale_jobs@.len() == i,
                forall|k: int|
                    0 <= k < i ==> (#[trigger] stale_jobs@[k])@ == hex_of(claims.stale_jobs@[k]),
            decreases claims.stale_jobs@.len() - i,
        {
            stale_jobs.push(claims.stale_jobs[i].to_hex());
            i += 1;
        }
        let mut jobs: Vec<ClaimedJobOutput> = Vec::new();
        let mut j: usize = 0;
        while j < claims.jobs.len()
            invariant
                j <= claims.jobs@.len(),
                jobs@.len() == j,
                forall|k: int|
                    0 <= k < j ==> (#[trigger] jobs@[k])@ == claimed_shown(claims.jobs@[k]@),
            decreases claims.jobs@.len() - j,
        {
            jobs.push(claimed_job_output(claims.jobs[j].clone()));
            j += 1;
        }
        let o = ClaimOutcomeOutput {
            kind: "committed".to_owned(),
            transaction_id: Some(claims.transaction_id.to_hex()),
            jobs,
            stale_jobs,
        };
        assert(o@ =~= committed_shown(claims@));
        o
    }

    /// The outcome of a claim.
    pub fn of_outcome(outcome: ClaimOutcome) -> (o: ClaimOutcomeOutput)
        ensures
            o@ == outcome_shown(outcome@),
    {
        match outcome {
            ClaimOutcome::Noop => ClaimOutcomeOutput::bare("noop"),
            ClaimOutcome::MaintenanceCommitted(receipt) => ClaimOutcomeOutput::maintenance(receipt),
            ClaimOutcome::Committed(claims) => ClaimOutcomeOutput::committed(claims),
        }
    }

    /// The recovery of a claim.
    pub fn of_recovery(recovery: ClaimRecovery) -> (o: ClaimOutcomeOutput)
        ensures
            o@ == recovery_shown(recovery@),
    {
        match recovery {
            ClaimRecovery::Committed(claims) => ClaimOutcomeOutput::committed(claims),
            ClaimRecovery::MaintenanceCommitted(receipt) => ClaimOutcomeOutput::maintenance(receipt),
            ClaimRecovery::Absent => ClaimOutcomeOutput::bare("absent"),
        }
    }
}

/// The receipt of a lease extension.
#[derive(PartialEq, Eq, Debug)]
pub struct LeaseExtensionReceiptOutput {
    pub job_id: String,
    pub attempt: u32,
    pub lease_expires_at_ms: i64,
}

/// The view of a [`LeaseExtensionReceiptOutput`].
#[verifier::ext_equal]
pub struct LeaseExtensionReceiptOutputView {
    pub job_id: Seq<char>,
    pub attempt: u32,
    pub lease_expires_at_ms: i64,
}

impl View for LeaseExtensionReceiptOutput {
    type V = LeaseExtensionReceiptOutputView;

    open spec fn view(&self) -> LeaseExtensionReceiptOutputView {
        LeaseExtensionReceiptOutputView {
            job_id: self.job_id@,
            attempt: self.attempt,
            lease_expires_at_ms: self.lease_expires_at_ms,
        }
    }
}

/// How the receipt of a lease extension is handed out.
pub open spec fn extension_shown(r: LeaseExtensionReceipt) -> LeaseExtensionReceiptOutputView {
    LeaseExtensionReceiptOutputView {
        job_id: hex_of(r.job_id),
        attempt: r.attempt,
        lease_expires_at_ms: r.lease_expires_at_ms,
    }
}

/// Hands out the receipt of a lease extension.
pub fn lease_output(receipt: LeaseExtensionReceipt) -> (o: LeaseExtensionReceiptOutput)
    ensures
        o@ == extension_shown(receipt),
{
    LeaseExtensionReceiptOutput {
        job_id: receipt.job_id.to_hex(),
        attempt: receipt.attempt,
        lease_expires_at_ms: receipt.lease_expires_at_ms,
    }
}

/// The recovery of a commit. `kind` is "committed", with the receipt, or
/// "absent", when the same batch may be submitted again.
#[derive(PartialEq, Eq, Debug)]
pub struct TransactionRecoveryOutput {
    pub kind: String,
    pub receipt: Option<CommitReceiptOutput>,
}

/// The view of a [`TransactionRecoveryOutput`].
#[verifier::ext_equal]
pub struct TransactionRecoveryOutputView {
    pub kind: Seq<char>,
    pub receipt: Option<CommitReceiptOutputView>,
}

impl View for TransactionRecoveryOutput {
    type V = TransactionRecoveryOutputView;

    open spec fn view(&self) -> TransactionRecoveryOutputView {
        TransactionRecoveryOutputView {
            kind: self.kind@,
            receipt: match self.receipt {
                Some(r) => Some(r@),
                None => None,
            },
        }
    }
}

/// How the recovery of a commit is handed out.
pub open spec fn transaction_shown(r: TransactionRecovery) -> TransactionRecoveryOutputView {
    match r {
        TransactionRecovery::Committed(receipt) => TransactionRecoveryOutputView {
            kind: "committed"@,
            receipt: Some(receipt_shown(receipt)),
        },
        TransactionRecovery::Absent => TransactionRecoveryOutputView {
            kind: "absent"@,
            receipt: None,
        },
    }
}

/// Hands out the recovery of a commit.
pub fn transaction_output(recovery: TransactionRecovery) -> (o: TransactionRecoveryOutput)
    ensures
        o@ == transaction_shown(recovery),
{
    match recovery {
        TransactionRecovery::Committed(receipt) => TransactionRecoveryOutput {
            kind: "committed".to_owned(),
            receipt: Some(receipt_output(receipt)),
        },
        TransactionRecovery::Absent => TransactionRecoveryOutput {
            kind: "absent".to_owned(),
            receipt: None,
        },
    }
}

/// A job as a reader sees it.
#[derive(PartialEq, Eq, Debug)]
pub struct JobInfoOutput {
    pub job_id: String,
    pub queue: String,
    pub partition_key: String,
    pub state: String,
    pub attempt: u32,
    pub lease_expires_at_ms: Option<i64>,
    pub worker_id: Option<String>,
    pub error_summary: Option<String>,
}

/// The view of a [`JobInfoOutput`].
#[verifier::ext_equal]
pub struct JobInfoOutputView {
    pub job_id: Seq<char>,
    pub queue: Seq<char>,
    pub partition_key: Seq<char>,
    pub state: Seq<char>,
    pub attempt: u32,
    pub lease_expires_at_ms: Option<i64>,
    pub worker_id: Option<Seq<char>>,
    pub error_summary: Option<Seq<char>>,
}

impl View for JobInfoOutput {
    type V = JobInfoOutputView;

    open spec fn view(&self) -> JobInfoOutputView {
        JobInfoOutputView {
            job_id: self.job_id@,
            queue: self.queue@,
            partition_key: self.partition_key@,
            state: self.state@,
            attempt: self.attempt,
            lease_expires_at_ms: self.lease_expires_at_ms,
            worker_id: opt_text(self.worker_id),
            error_summary: opt_text(self.error_summary),
        }
    }
}

/// How a job is handed out.
pub open spec fn info_shown(i: JobInfoView) -> JobInfoOutputView {
    JobInfoOutputView {
        job_id: hex_of(i.job_id),
        queue: i.spec.queue,
        partition_key: i.spec.partition_key,
        state: state_name(i.state),
        attempt: i.attempt,
        lease_expires_at_ms: i.lease_expires_at_ms,
        worker_id: i.worker_id,
        error_summary: i.error_summary,
    }
}

/// How jobs are handed out.
pub open spec fn infos_shown(s: Seq<JobInfoView>) -> Seq<JobInfoOutputView> {
    s.map_values(|i: JobInfoView| info_shown(i))
}

/// The views of handed out jobs.
pub open spec fn info_output_views(s: Seq<JobInfoOutput>) -> Seq<JobInfoOutputView> {
    s.map_values(|o: JobInfoOutput| o@)
}

/// Hands out a job.
pub fn job_info_output(info: JobInfo) -> (o: JobInfoOutput)
    ensures
        o@ == info_shown(info@),
{
    JobInfoOutput {
        job_id: info.job_id.to_hex(),
        queue: info.spec.queue().to_owned(),
        partition_key: info.spec.partition_key().to_owned(),
        state: job_state_name(info.state).to_owned(),
        attempt: info.attempt,
        lease_expires_at_ms: info.lease_expires_at_ms,
        worker_id: info.worker_id,
        error_summary: info.error_summary,
    }
}

/// Hands out jobs.
pub fn job_info_outputs(infos: &Vec<JobInfo>) -> (outputs: Vec<JobInfoOutput>)
    ensures
        info_output_views(outputs@) == infos_shown(info_views(infos@)),
{
    let mut outputs: Vec<JobInfoOutput> = Vec::new();
    let mut i: usize = 0;
    while i < infos.len()
        invariant
            i <= infos@.len(),
            outputs@.len() == i,
            forall|k: int| 0 <= k < i ==> (#[trigger] outputs@[k])@ == info_shown(infos@[k]@),
        decreases infos@.len() - i,
    {
        outputs.push(job_info_output(infos[i].clone()));
        i += 1;
    }
    assert(info_output_views(outputs@) =~= infos_shown(info_views(infos@)));
    outputs
}

/// One page of jobs; `next_after_sequence` fetches the next one.
#[derive(PartialEq, Eq, Debug)]
pub struct JobsPageOutput {
    pub jobs: Vec<JobInfoOutput>,
    pub next_after_sequence: i64,
}

/// A committed event.
#[derive(PartialEq, Eq, Debug)]
pub struct PersistedEventOutput {
    pub transaction_id: String,
    pub global_sequence: i64,
    pub stream_version: i64,
    pub event_id: String,
    pub stream_id: String,
    pub event_type: String,
    pub occurred_at_ms: i64,
    pub payload: Vec<u8>,
}

/// The view of a [`PersistedEventOutput`].
#[verifier::ext_equal]
pub struct PersistedEventOutputView {
    pub transaction_id: Seq<char>,
    pub global_sequence: i64,
    pub stream_version: i64,
    pub event_id: Seq<char>,
    pub stream_id: Seq<char>,
    pub event_type: Seq<char>,
    pub occurred_at_ms: i64,
    pub payload: Seq<u8>,
}

impl View for PersistedEventOutput {
    type V = PersistedEventOutputView;

    open spec fn view(&self) -> PersistedEventOutputView {
        PersistedEventOutputView {
            transaction_id: self.transaction_id@,
            global_sequence: self.global_sequence,
            stream_version: self.stream_version,
            event_id: self.event_id@,
            stream_id: self.stream_id@,
            event_type: self.event_type@,
            occurred_at_ms: self.occurred_at_ms,
            payload: self.payload@,
        }
    }
}

/// How a committed event is handed out.
pub open spec fn event_shown(e: PersistedEventView) -> PersistedEventOutputView {
    PersistedEventOutputView {
        transaction_id: hex_of(e.transaction_id),
        global_sequence: e.global_sequence as i64,
        stream_version: e.stream_version as i64,
        event_id: hex_of(e.event.event_id),
        stream_id: e.event.stream_id,
        event_type: e.event.event_type,
        occurred_at_ms: e.event.occurred_at_ms,
        payload: e.event.payload,
    }
}

/// Hands out a committed event.
pub fn persisted_event_output(persisted: PersistedEvent) -> (o: PersistedEventOutput)
    ensures
        o@ == event_shown(persisted@),
{
    PersistedEventOutput {
        transaction_id: persisted.transaction_id.to_hex(),
        global_sequence: persisted.global_sequence as i64,
        stream_version: persisted.stream_version as i64,
        event_id: persisted.event.event_id.to_hex(),
        stream_id: persisted.event.stream_id,
        event_type: persisted.event.event_type,
        occurred_at_ms: persisted.event.occurred_at_ms,
        payload: persisted.event.payload,
    }
}

/// How committed events are handed out.
pub open spec fn events_shown(s: Seq<PersistedEventView>) -> Seq<PersistedEventOutputView> {
    s.map_values(|e: PersistedEventView| event_shown(e))
}

/// The views of handed out events.
pub open spec fn event_output_views(s: Seq<PersistedEventOutput>) -> Seq<PersistedEventOutputView> {
    s.map_values(|o: PersistedEventOutput| o@)
}

/// Hands out committed events.
pub fn persisted_event_outputs(events: &Vec<PersistedEvent>) -> (outputs: Vec<PersistedEventOutput>)
    ensures
        event_output_views(outputs@) == events_shown(persisted_views(events@)),
{
    let mut outputs: Vec<PersistedEventOutput> = Vec::new();
    let mut i: usize = 0;
    while i < events.len()
        invariant
            i <= events@.len(),
            outputs@.len() == i,
            forall|k: int| 0 <= k < i ==> (#[trigger] outputs@[k])@ == event_shown(events@[k]@),
        decreases events@.len() - i,
    {
        outputs.push(persisted_event_output(events[i].clone()));
        i += 1;
    }
    assert(event_output_views(outputs@) =~= events_shown(persisted_views(events@)));
    outputs
}

} // verus!
