//! Durable jobs: enqueueing, claiming, leases, retries, uncertainty, resolution
//! and claim recovery.

use std::cell::{Cell, RefCell};

use minisqlite::batch::{CommitBatch, Event};
use minisqlite::claim::settle_claim;
use minisqlite::commit::settle_commit;
use minisqlite::error::{
    ClaimError, CommitError, IndeterminateClaim, LeaseConflict, LeaseError,
};
use minisqlite::id::Id;
use minisqlite::jobs::{
    ClaimOutcome, ClaimRecovery, ClaimRequest, ClaimedJob, CommitReceipt, JobInfo, JobSpec,
    LeaseExtensionReceipt,
};
use minisqlite::lease::settle_lease;
use minisqlite::load::StoredRows;
use minisqlite::state::{JobState, Resolution};
use minisqlite::store::ControlPlaneStore;

fn id(n: u128) -> Id {
    Id::from(n)
}

fn event(n: u128, stream: &str, event_type: &str) -> Event {
    Event::with_json_payload(id(n), stream, event_type, NOW, b"{}".to_vec())
}

/// A store with a source of fresh identifiers. What an operation records is
/// taken at once, as by a database whose COMMIT step succeeds.
struct Db {
    inner: RefCell<ControlPlaneStore>,
    drawn: Cell<u128>,
}

impl Db {
    fn new() -> Db {
        Db {
            inner: RefCell::new(ControlPlaneStore::new()),
            drawn: Cell::new(1 << 100),
        }
    }

    fn draw(&self, n: usize) -> Vec<Id> {
        let first = self.drawn.get();
        self.drawn.set(first + n as u128);
        (0..n as u128).map(|i| Id::from(first + i)).collect()
    }

    fn commit(&self, batch: &CommitBatch) -> Result<CommitReceipt, CommitError> {
        let mut store = self.inner.borrow_mut();
        let receipt = store.commit(batch)?;
        store.take_writes();
        settle_commit(receipt, Ok(()))
    }

    fn claim_jobs(&self, request: &ClaimRequest) -> Result<ClaimOutcome, ClaimError> {
        let fresh = self.draw(17);
        let mut store = self.inner.borrow_mut();
        let outcome = store.claim_jobs(request, &fresh)?;
        store.take_writes();
        settle_claim(outcome, Ok(()))
    }

    fn extend_lease(
        &self,
        job_id: Id,
        lease_token: Id,
        new_expiry_ms: i64,
        now_ms: i64,
    ) -> Result<LeaseExtensionReceipt, LeaseError> {
        let mut store = self.inner.borrow_mut();
        let receipt = store.extend_lease(job_id, lease_token, new_expiry_ms, now_ms)?;
        store.take_writes();
        settle_lease(receipt, Ok(()))
    }

    fn recover_claim(&self, transaction_id: Id, now_ms: i64) -> ClaimRecovery {
        self.inner.borrow().recover_claim(transaction_id, now_ms)
    }

    fn job(&self, job_id: Id) -> Option<JobInfo> {
        self.inner.borrow().get_job(job_id)
    }

    fn jobs(&self, queue: Option<&str>, state: Option<JobState>, limit: usize) -> Vec<JobInfo> {
        self.inner.borrow().list_jobs(queue, state, limit)
    }

    fn stream_version(&self, stream: &str) -> u64 {
        self.inner.borrow().stream_version(stream)
    }

    /// The store as a fresh handle on the same rows sees it.
    fn reopened(&self) -> Db {
        let store = self.inner.borrow();
        let rows = StoredRows {
            jobs: store.job_rows().clone(),
            partitions: store.partition_rows().clone(),
            cursors: store.cursor_rows().clone(),
            receipts: store.receipt_rows().clone(),
            transactions: store.transaction_rows().clone(),
            events: store.event_rows().clone(),
            projections: store.projection_rows().clone(),
            entries: store.entry_rows().clone(),
        };
        Db {
            inner: RefCell::new(ControlPlaneStore::load(rows).unwrap()),
            drawn: Cell::new(self.drawn.get()),
        }
    }
}

const NOW: i64 = 10_000;
const LEASE_MS: i64 = 1_000;

fn enqueue(store: &Db, txn: u128, spec: JobSpec) {
    store
        .commit(&CommitBatch::new(id(txn), NOW).enqueue_job(spec))
        .unwrap();
}

fn claim_request(queue: &str, now_ms: i64) -> ClaimRequest {
    ClaimRequest {
        queue: queue.into(),
        worker_id: "w1".into(),
        now_ms,
        lease_ms: LEASE_MS,
        limit: 16,
        partition_key: None,
    }
}

fn claim_all(store: &Db, queue: &str, now_ms: i64) -> Vec<ClaimedJob> {
    // MaintenanceCommitted means durable progress was made; poll again immediately.
    loop {
        match store.claim_jobs(&claim_request(queue, now_ms)).unwrap() {
            ClaimOutcome::Committed(claims) => return claims.into_jobs(),
            ClaimOutcome::MaintenanceCommitted(_) => continue,
            other => panic!("expected committed claims, got {other:?}"),
        }
    }
}

fn claim_one(store: &Db, queue: &str, now_ms: i64) -> ClaimedJob {
    let mut jobs = claim_all(store, queue, now_ms);
    assert_eq!(jobs.len(), 1);
    jobs.remove(0)
}

fn job_state(store: &Db, job_id: Id) -> JobState {
    store.job(job_id).expect("job exists").state
}

// ----- enqueue -----

#[test]
fn duplicate_job_id_in_new_transaction_is_rejected() {
    let store = Db::new();
    enqueue(&store, 1, JobSpec::reconcilable(id(10), "q", "p", vec![]));
    let dup = CommitBatch::new(id(2), NOW).enqueue_job(JobSpec::reconcilable(
        id(10),
        "q",
        "p2",
        b"other".to_vec(),
    ));
    assert!(store.commit(&dup).is_err());
    // The original job is untouched and the failed transaction left no trace.
    let info = store.job(id(10)).unwrap();
    assert_eq!(info.state, JobState::Pending);
    assert_eq!(info.spec.partition_key(), "p");
}

#[test]
fn enqueue_is_idempotent_on_resubmission() {
    let store = Db::new();
    let batch =
        CommitBatch::new(id(1), NOW).enqueue_job(JobSpec::reconcilable(id(10), "q", "p", vec![]));
    let first = store.commit(&batch).unwrap();
    assert_eq!(store.commit(&batch).unwrap(), first);
    assert_eq!(store.jobs(Some("q"), None, 100).len(), 1);
}

// ----- claim outcomes -----

#[test]
fn claim_on_empty_queue_is_noop() {
    let store = Db::new();
    assert_eq!(
        store.claim_jobs(&claim_request("q", NOW)).unwrap(),
        ClaimOutcome::Noop
    );
}

#[test]
fn claim_before_not_before_is_noop() {
    let store = Db::new();
    enqueue(
        &store,
        1,
        JobSpec::reconcilable(id(10), "q", "p", vec![]).with_not_before_ms(NOW + 5_000),
    );
    assert_eq!(
        store.claim_jobs(&claim_request("q", NOW)).unwrap(),
        ClaimOutcome::Noop
    );
    let claimed = claim_one(&store, "q", NOW + 5_000);
    assert_eq!(claimed.job_id, id(10));
}

#[test]
fn claim_grants_committed_claims_with_accessors() {
    let store = Db::new();
    enqueue(
        &store,
        1,
        JobSpec::reconcilable(id(10), "q", "p1", b"a".to_vec()),
    );
    enqueue(
        &store,
        2,
        JobSpec::reconcilable(id(11), "q", "p2", b"b".to_vec()),
    );

    let claims = match store.claim_jobs(&claim_request("q", NOW)).unwrap() {
        ClaimOutcome::Committed(claims) => claims,
        other => panic!("expected committed, got {other:?}"),
    };
    assert_eq!(claims.len(), 2);
    assert!(!claims.is_empty());
    assert_eq!(claims.jobs().len(), 2);
    let by_ref: Vec<&ClaimedJob> = claims.jobs().iter().collect();
    assert_eq!(by_ref.len(), 2);
    for job in claims.into_jobs() {
        assert_eq!(job.worker_id, "w1");
        assert_eq!(job.attempt, 1);
        assert_eq!(job.lease_expires_at_ms, NOW + LEASE_MS);
        assert_ne!(job.lease_token, id(0));
        assert_eq!(job_state(&store, job.job_id), JobState::Leased);
    }
}

#[test]
fn contract_claims_claim_takes_at_most_one_head_job_per_partition() {
    let store = Db::new();
    enqueue(
        &store,
        1,
        JobSpec::reconcilable(id(10), "q", "p", b"first".to_vec()),
    );
    enqueue(
        &store,
        2,
        JobSpec::reconcilable(id(11), "q", "p", b"second".to_vec()),
    );

    let claimed = claim_one(&store, "q", NOW);
    assert_eq!(claimed.job_id, id(10));
    // The second job in the same partition is not claimable while the head is leased.
    assert_eq!(
        store.claim_jobs(&claim_request("q", NOW)).unwrap(),
        ClaimOutcome::Noop
    );
}

// ----- lease-token validation and stale acknowledgement -----

#[test]
fn acknowledgement_requires_current_lease_token() {
    let store = Db::new();
    enqueue(&store, 1, JobSpec::reconcilable(id(10), "q", "p", vec![]));
    let claimed = claim_one(&store, "q", NOW);

    let wrong = CommitBatch::new(id(2), NOW).acknowledge_job(id(10), id(999), None);
    assert!(store.commit(&wrong).is_err());
    assert_eq!(job_state(&store, id(10)), JobState::Leased);

    let right = CommitBatch::new(id(3), NOW).acknowledge_job(id(10), claimed.lease_token, None);
    store.commit(&right).unwrap();
    assert_eq!(job_state(&store, id(10)), JobState::Succeeded);
}

#[test]
fn stale_acknowledgement_after_reclaim_is_rejected() {
    let store = Db::new();
    enqueue(
        &store,
        1,
        JobSpec::idempotent(id(10), "q", "p", vec![], "key").with_max_attempts(5),
    );
    let first = claim_one(&store, "q", NOW);

    // Lease expires; the idempotent job is requeued and reclaimed with a new token.
    let after_expiry = NOW + LEASE_MS + 1;
    let second = claim_one(&store, "q", after_expiry);
    assert_ne!(first.lease_token, second.lease_token);
    assert_eq!(second.attempt, 2);

    // The stale token from the first lease can no longer acknowledge the job.
    let stale =
        CommitBatch::new(id(2), after_expiry).acknowledge_job(id(10), first.lease_token, None);
    assert!(store.commit(&stale).is_err());
    assert_eq!(job_state(&store, id(10)), JobState::Leased);
}

// ----- failure, retries, and max attempts -----

#[test]
fn failure_before_max_attempts_enters_retry_wait_then_dead() {
    let store = Db::new();
    enqueue(
        &store,
        1,
        JobSpec::reconcilable(id(10), "q", "p", vec![]).with_max_attempts(2),
    );

    let first = claim_one(&store, "q", NOW);
    store
        .commit(&CommitBatch::new(id(2), NOW).fail_job(id(10), first.lease_token, "boom", Some(0)))
        .unwrap();
    assert_eq!(job_state(&store, id(10)), JobState::RetryWait);

    let second = claim_one(&store, "q", NOW + 1);
    assert_eq!(second.attempt, 2);
    store
        .commit(&CommitBatch::new(id(3), NOW + 1).fail_job(
            id(10),
            second.lease_token,
            "boom again",
            Some(0),
        ))
        .unwrap();
    // Attempts are exhausted.
    let info = store.job(id(10)).unwrap();
    assert_eq!(info.state, JobState::Dead);
    assert!(info.error_summary.is_some());
}

// ----- lease expiry per effect mode -----

#[test]
fn contract_claims_expired_reconcilable_lease_becomes_uncertain() {
    let store = Db::new();
    enqueue(&store, 1, JobSpec::reconcilable(id(10), "q", "p", vec![]));
    claim_one(&store, "q", NOW);

    // Only maintenance happens: the expired lease moves the job to Uncertain and
    // uncertain jobs are not claimable.
    match store
        .claim_jobs(&claim_request("q", NOW + LEASE_MS + 1))
        .unwrap()
    {
        ClaimOutcome::MaintenanceCommitted(_) => {}
        other => panic!("expected maintenance, got {other:?}"),
    }
    assert_eq!(job_state(&store, id(10)), JobState::Uncertain);
}

#[test]
fn expired_idempotent_lease_is_retried() {
    let store = Db::new();
    enqueue(
        &store,
        1,
        JobSpec::idempotent(id(10), "q", "p", vec![], "key").with_max_attempts(5),
    );
    claim_one(&store, "q", NOW);

    let reclaimed = claim_one(&store, "q", NOW + LEASE_MS + 1);
    assert_eq!(reclaimed.job_id, id(10));
    assert_eq!(reclaimed.attempt, 2);
    assert_eq!(job_state(&store, id(10)), JobState::Leased);
}

#[test]
fn expired_idempotent_lease_at_max_attempts_becomes_dead() {
    let store = Db::new();
    enqueue(
        &store,
        1,
        JobSpec::intrinsically_idempotent(id(10), "q", "p", vec![]).with_max_attempts(1),
    );
    claim_one(&store, "q", NOW);

    match store
        .claim_jobs(&claim_request("q", NOW + LEASE_MS + 1))
        .unwrap()
    {
        ClaimOutcome::MaintenanceCommitted(_) => {}
        other => panic!("expected maintenance, got {other:?}"),
    }
    assert_eq!(job_state(&store, id(10)), JobState::Dead);
}

// ----- cancellation -----

#[test]
fn cancellation_of_pending_and_leased_jobs() {
    let store = Db::new();
    enqueue(&store, 1, JobSpec::reconcilable(id(10), "q", "p1", vec![]));
    enqueue(&store, 2, JobSpec::reconcilable(id(11), "q", "p2", vec![]));

    // A pending job may be cancelled without a token (spec A5.6).
    store
        .commit(&CommitBatch::new(id(3), NOW).cancel_job(id(10), None))
        .unwrap();
    assert_eq!(job_state(&store, id(10)), JobState::Cancelled);

    // A leased job requires its current lease token.
    let mut jobs = claim_all(&store, "q", NOW);
    assert_eq!(jobs.len(), 1);
    let claimed = jobs.remove(0);
    assert_eq!(claimed.job_id, id(11));
    assert!(store
        .commit(&CommitBatch::new(id(4), NOW).cancel_job(id(11), None))
        .is_err());
    store
        .commit(&CommitBatch::new(id(5), NOW).cancel_job(id(11), Some(claimed.lease_token)))
        .unwrap();
    assert_eq!(job_state(&store, id(11)), JobState::Cancelled);

    // Terminal jobs cannot be cancelled again.
    assert!(store
        .commit(&CommitBatch::new(id(6), NOW).cancel_job(id(11), None))
        .is_err());
}

// ----- uncertain resolution -----

#[test]
fn uncertain_jobs_resolve_to_retry_succeeded_or_dead() {
    let store = Db::new();
    for (i, job) in [10u128, 11, 12].into_iter().enumerate() {
        enqueue(
            &store,
            1 + i as u128,
            JobSpec::reconcilable(id(job), "q", &format!("p{job}"), vec![]).with_max_attempts(5),
        );
    }
    claim_all(&store, "q", NOW);
    // Expire all leases into Uncertain.
    store
        .claim_jobs(&claim_request("q", NOW + LEASE_MS + 1))
        .unwrap();
    for job in [10u128, 11, 12] {
        assert_eq!(job_state(&store, id(job)), JobState::Uncertain);
    }

    store
        .commit(
            &CommitBatch::new(id(100), NOW)
                .resolve_uncertain_job(id(10), Resolution::Retry)
                .resolve_uncertain_job(id(11), Resolution::MarkSucceeded)
                .resolve_uncertain_job(id(12), Resolution::MarkDead),
        )
        .unwrap();
    assert_eq!(job_state(&store, id(10)), JobState::Pending);
    assert_eq!(job_state(&store, id(11)), JobState::Succeeded);
    assert_eq!(job_state(&store, id(12)), JobState::Dead);

    // Resolving a non-uncertain job is an invalid transition.
    assert!(store
        .commit(&CommitBatch::new(id(101), NOW).resolve_uncertain_job(id(11), Resolution::Retry))
        .is_err());
}

#[test]
fn retry_resolution_dead_letters_when_max_attempts_exhausted() {
    let store = Db::new();
    enqueue(
        &store,
        1,
        JobSpec::reconcilable(id(10), "q", "p", vec![]).with_max_attempts(1),
    );
    claim_all(&store, "q", NOW);
    // Expire the lease into Uncertain; the single attempt is spent.
    store
        .claim_jobs(&claim_request("q", NOW + LEASE_MS + 1))
        .unwrap();
    assert_eq!(job_state(&store, id(10)), JobState::Uncertain);

    store
        .commit(&CommitBatch::new(id(100), NOW).resolve_uncertain_job(id(10), Resolution::Retry))
        .unwrap();
    assert_eq!(job_state(&store, id(10)), JobState::Dead);
}

// ----- lease extension -----

#[test]
fn lease_extension_rules() {
    let store = Db::new();
    enqueue(&store, 1, JobSpec::reconcilable(id(10), "q", "p", vec![]));
    let claimed = claim_one(&store, "q", NOW);
    let expiry = claimed.lease_expires_at_ms;

    // Wrong token is rejected.
    assert!(matches!(
        store
            .extend_lease(id(10), id(999), expiry + 1_000, NOW)
            .unwrap_err(),
        LeaseError::Conflict(LeaseConflict::InvalidToken { .. })
    ));

    // The new expiry must be strictly later than the current expiry.
    assert!(matches!(
        store
            .extend_lease(id(10), claimed.lease_token, expiry, NOW)
            .unwrap_err(),
        LeaseError::Conflict(LeaseConflict::ExpiryNotLater { .. })
    ));

    // Unknown jobs are rejected.
    assert!(matches!(
        store
            .extend_lease(id(404), claimed.lease_token, expiry + 1_000, NOW)
            .unwrap_err(),
        LeaseError::Conflict(LeaseConflict::JobNotFound(_))
    ));

    // A valid extension moves the expiry without incrementing the attempt.
    let receipt = store
        .extend_lease(id(10), claimed.lease_token, expiry + 1_000, NOW)
        .unwrap();
    assert_eq!(receipt.job_id(), id(10));
    assert_eq!(receipt.attempt(), claimed.attempt);
    assert_eq!(receipt.lease_expires_at_ms(), expiry + 1_000);
    let info = store.job(id(10)).unwrap();
    assert_eq!(info.attempt, claimed.attempt);
    assert_eq!(info.lease_expires_at_ms, Some(expiry + 1_000));

    // Terminal jobs are always rejected.
    store
        .commit(&CommitBatch::new(id(2), NOW).acknowledge_job(id(10), claimed.lease_token, None))
        .unwrap();
    assert!(matches!(
        store
            .extend_lease(id(10), claimed.lease_token, expiry + 2_000, NOW)
            .unwrap_err(),
        LeaseError::Conflict(LeaseConflict::NotLeased { .. })
    ));
}

#[test]
fn batched_lease_extension_commits_atomically() {
    let store = Db::new();
    enqueue(&store, 1, JobSpec::reconcilable(id(10), "q", "p", vec![]));
    let claimed = claim_one(&store, "q", NOW);
    let expiry = claimed.lease_expires_at_ms;

    // A batch with a wrong token rejects atomically: no extension, no event.
    let bad = CommitBatch::new(id(2), NOW)
        .append_event(event(100, "s", "t"))
        .extend_lease(id(10), id(999), expiry + 1_000);
    assert!(store.commit(&bad).is_err());
    assert_eq!(store.stream_version("s"), 0);
    let info = store.job(id(10)).unwrap();
    assert_eq!(info.lease_expires_at_ms, Some(expiry));

    // A valid batched extension moves the expiry together with the event.
    let good = CommitBatch::new(id(3), NOW)
        .append_event(event(101, "s", "t"))
        .extend_lease(id(10), claimed.lease_token, expiry + 1_000);
    store.commit(&good).unwrap();
    assert_eq!(store.stream_version("s"), 1);
    let info = store.job(id(10)).unwrap();
    assert_eq!(info.lease_expires_at_ms, Some(expiry + 1_000));
    assert_eq!(info.attempt, claimed.attempt);

    // Zero lease tokens are rejected at validation time.
    let zero = CommitBatch::new(id(4), NOW).extend_lease(id(10), id(0), expiry + 2_000);
    assert!(store.commit(&zero).is_err());

    // Extensions past the batch's committed_at_ms "now" are rejected as expired.
    let late = CommitBatch::new(id(5), expiry + 2_000 + 1).extend_lease(
        id(10),
        claimed.lease_token,
        expiry + 3_000,
    );
    assert!(store.commit(&late).is_err());
}

#[test]
fn extending_an_expired_lease_fails() {
    let store = Db::new();
    enqueue(&store, 1, JobSpec::reconcilable(id(10), "q", "p", vec![]));
    let claimed = claim_one(&store, "q", NOW);
    let expiry = claimed.lease_expires_at_ms;

    // Past the expiry, the lease is dead; extension must not revive it.
    assert!(matches!(
        store
            .extend_lease(id(10), claimed.lease_token, expiry + 10_000, expiry + 1)
            .unwrap_err(),
        LeaseError::Conflict(LeaseConflict::Expired { .. })
    ));
}

#[test]
fn recover_claim_returns_the_extended_expiry_after_extension() {
    let store = Db::new();
    enqueue(&store, 1, JobSpec::reconcilable(id(10), "q", "p", vec![]));
    let claims = match store.claim_jobs(&claim_request("q", NOW)).unwrap() {
        ClaimOutcome::Committed(claims) => claims,
        other => panic!("expected committed, got {other:?}"),
    };
    let claimed = claims.jobs()[0].clone();
    let extended = claimed.lease_expires_at_ms + 5_000;
    store
        .extend_lease(id(10), claimed.lease_token, extended, NOW)
        .unwrap();

    match store.recover_claim(claims.transaction_id(), NOW) {
        ClaimRecovery::Committed(recovered) => {
            assert_eq!(recovered.jobs()[0].lease_expires_at_ms, extended);
        }
        other => panic!("expected committed recovery, got {other:?}"),
    }
}

// ----- claim recovery -----

#[test]
fn recover_claim_reports_committed_with_original_tokens_and_absent() {
    let store = Db::new();
    enqueue(&store, 1, JobSpec::reconcilable(id(10), "q", "p", vec![]));
    let claims = match store.claim_jobs(&claim_request("q", NOW)).unwrap() {
        ClaimOutcome::Committed(claims) => claims,
        other => panic!("expected committed, got {other:?}"),
    };
    let transaction_id = claims.transaction_id();
    let original = claims.jobs().to_vec();

    // Recovery works from a fresh handle and reconstructs the original tokens.
    let store = store.reopened();
    match store.recover_claim(transaction_id, NOW) {
        ClaimRecovery::Committed(recovered) => {
            assert_eq!(recovered.transaction_id(), transaction_id);
            assert_eq!(recovered.jobs().len(), original.len());
            assert_eq!(recovered.jobs()[0].job_id, original[0].job_id);
            assert_eq!(recovered.jobs()[0].lease_token, original[0].lease_token);
        }
        other => panic!("expected committed recovery, got {other:?}"),
    }

    assert_eq!(
        store.recover_claim(id(404), NOW),
        ClaimRecovery::Absent
    );
}

#[test]
fn recover_claim_reports_expired_or_resolved_leases_as_stale() {
    let store = Db::new();
    enqueue(&store, 1, JobSpec::reconcilable(id(10), "q", "p", vec![]));
    let claims = match store.claim_jobs(&claim_request("q", NOW)).unwrap() {
        ClaimOutcome::Committed(claims) => claims,
        other => panic!("expected committed claims, got {other:?}"),
    };
    let txn = claims.transaction_id();

    // Still current: recoverable as executable.
    match store.recover_claim(txn, NOW) {
        ClaimRecovery::Committed(recovered) => {
            assert_eq!(recovered.jobs().len(), 1);
            assert!(recovered.stale_jobs().is_empty());
        }
        other => panic!("expected committed recovery, got {other:?}"),
    }

    // After expiry: the lease must not be handed back as executable.
    match store.recover_claim(txn, NOW + LEASE_MS + 1) {
        ClaimRecovery::Committed(recovered) => {
            assert!(recovered.jobs().is_empty());
            assert_eq!(recovered.stale_jobs(), &[id(10)]);
        }
        other => panic!("expected committed recovery, got {other:?}"),
    }

    // After acknowledgement the lease is resolved: also stale.
    store
        .commit(&CommitBatch::new(id(100), NOW).acknowledge_job(
            id(10),
            claims.jobs()[0].lease_token,
            None,
        ))
        .unwrap();
    match store.recover_claim(txn, NOW) {
        ClaimRecovery::Committed(recovered) => {
            assert!(recovered.jobs().is_empty());
            assert_eq!(recovered.stale_jobs(), &[id(10)]);
        }
        other => panic!("expected committed recovery, got {other:?}"),
    }
}

// ----- indeterminate claims -----

#[test]
fn indeterminate_claim_exposes_only_verification_accessors() {
    // The two verification accessors exist with exactly these signatures.
    let _: fn(&IndeterminateClaim) -> Id = IndeterminateClaim::transaction_id;
    let _: fn(&IndeterminateClaim) -> &[Id] = IndeterminateClaim::proposed_jobs_for_verification;
}

#[test]
fn committed_claims_are_iterable_by_contract() {
    fn assert_into_iter<T: IntoIterator<Item = ClaimedJob>>() {}
    assert_into_iter::<minisqlite::jobs::CommittedClaims>();
}
