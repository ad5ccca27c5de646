//! Indeterminate COMMIT steps: the changes are durable, but the caller is told
//! that the outcome is unknown, and recovery reports the truth.

use minisqlite::batch::{CommitBatch, Event};
use minisqlite::claim::settle_claim;
use minisqlite::commit::{settle_commit, TransactionRecovery};
use minisqlite::error::{ClaimError, CommitError, LeaseError, StorageError};
use minisqlite::id::Id;
use minisqlite::jobs::{ClaimOutcome, ClaimRecovery, ClaimRequest, JobSpec};
use minisqlite::lease::settle_lease;
use minisqlite::state::JobState;
use minisqlite::store::ControlPlaneStore;

const NOW: i64 = 10_000;

fn unknown() -> Result<(), StorageError> {
    Err(StorageError::Sqlite("failpoint: COMMIT outcome unknown".into()))
}

fn fresh(first: u128) -> Vec<Id> {
    (first..first + 4).map(Id::from).collect()
}

fn request() -> ClaimRequest {
    ClaimRequest {
        queue: "q".into(),
        worker_id: "w".into(),
        now_ms: NOW,
        lease_ms: 60_000,
        limit: 1,
        partition_key: None,
    }
}

fn with_one_job() -> ControlPlaneStore {
    let mut store = ControlPlaneStore::new();
    store
        .commit(
            &CommitBatch::new(Id::from(1u128), NOW).enqueue_job(JobSpec::reconcilable(
                Id::from(10u128),
                "q",
                "p",
                vec![],
            )),
        )
        .unwrap();
    store
}

#[test]
fn indeterminate_commit_poisons_writer_and_recovery_reopens_honestly() {
    let mut store = ControlPlaneStore::new();
    let batch = CommitBatch::new(Id::from(1u128), NOW).append_event(Event::with_json_payload(
        Id::from(10u128),
        "s1",
        "created",
        NOW,
        b"{}".to_vec(),
    ));
    let receipt = store.commit(&batch).unwrap();
    let err = settle_commit(receipt, unknown()).unwrap_err();
    let CommitError::Indeterminate(info) = err else {
        panic!("expected indeterminate commit, got {err:?}");
    };
    assert_eq!(info.transaction_id(), Id::from(1u128));
    assert!(info.storage_error().contains("failpoint"));

    // Recovery reports the durable truth.
    match store.recover_transaction(Id::from(1u128)) {
        TransactionRecovery::Committed(receipt) => {
            assert_eq!(receipt.transaction_id(), Id::from(1u128));
        }
        other => panic!("expected committed recovery, got {other:?}"),
    }
    assert_eq!(
        store.recover_transaction(Id::from(404u128)),
        TransactionRecovery::Absent
    );

    // The store stays fully usable.
    store
        .commit(
            &CommitBatch::new(Id::from(2u128), NOW).append_event(Event::with_json_payload(
                Id::from(11u128),
                "s1",
                "updated",
                NOW,
                b"{}".to_vec(),
            )),
        )
        .unwrap();
}

#[test]
fn indeterminate_claim_poisons_writer_and_recovery_returns_original_tokens() {
    let mut store = with_one_job();
    let outcome = store.claim_jobs(&request(), &fresh(100)).unwrap();
    let err = settle_claim(outcome, unknown()).unwrap_err();
    let ClaimError::Indeterminate(info) = err else {
        panic!("expected indeterminate claim, got {err:?}");
    };
    assert_eq!(info.proposed_jobs_for_verification(), &[Id::from(10u128)]);
    assert!(info.storage_error().contains("failpoint"));

    // Recovery returns the original lease token.
    let lease_token = match store.recover_claim(info.transaction_id(), NOW) {
        ClaimRecovery::Committed(claims) => {
            assert_eq!(claims.jobs().len(), 1);
            assert_eq!(claims.jobs()[0].job_id, Id::from(10u128));
            claims.jobs()[0].lease_token
        }
        other => panic!("expected committed recovery, got {other:?}"),
    };
    assert_ne!(lease_token, Id::from(0u128));

    // The recovered lease is usable.
    store
        .commit(&CommitBatch::new(Id::from(2u128), NOW).acknowledge_job(
            Id::from(10u128),
            lease_token,
            None,
        ))
        .unwrap();
}

#[test]
fn indeterminate_lease_extension_poisons_writer_and_job_read_verifies() {
    let mut store = with_one_job();
    let claimed = match store.claim_jobs(&request(), &fresh(100)).unwrap() {
        ClaimOutcome::Committed(claims) => claims.into_jobs().remove(0),
        other => panic!("expected committed claims, got {other:?}"),
    };

    let receipt = store
        .extend_lease(
            Id::from(10u128),
            claimed.lease_token,
            claimed.lease_expires_at_ms + 5_000,
            NOW,
        )
        .unwrap();
    let err = settle_lease(receipt, unknown()).unwrap_err();
    let LeaseError::Indeterminate(info) = err else {
        panic!("expected indeterminate lease extension, got {err:?}");
    };
    assert_eq!(info.job_id(), Id::from(10u128));
    assert!(info.storage_error().contains("failpoint"));

    // Recovery: reading the job reports the durable truth.
    let info = store.get_job(Id::from(10u128)).unwrap();
    assert_eq!(info.state, JobState::Leased);
    assert_eq!(
        info.lease_expires_at_ms,
        Some(claimed.lease_expires_at_ms + 5_000)
    );

    // The store stays fully usable.
    store
        .commit(&CommitBatch::new(Id::from(2u128), NOW).acknowledge_job(
            Id::from(10u128),
            claimed.lease_token,
            None,
        ))
        .unwrap();
}
