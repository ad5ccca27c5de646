//! Claims, leases, recovery and job transitions on small worlds.

use minisqlite::batch::CommitBatch;
use minisqlite::claim::settle_claim;
use minisqlite::digest::checksum;
use minisqlite::error::{
    ClaimError, CommitError, Conflict, LeaseConflict, LeaseError, StorageError, ValidationError,
};
use minisqlite::id::Id;
use minisqlite::jobs::{ClaimOutcome, ClaimRecovery, ClaimRequest, CommittedClaims, JobSpec};
use minisqlite::lease::settle_lease;
use minisqlite::plan::MAINTENANCE_LIMIT;
use minisqlite::state::{JobState, Resolution};
use minisqlite::store::ControlPlaneStore;

fn id(n: u128) -> Id {
    Id::from(n)
}

fn pool(from: u128) -> Vec<Id> {
    (from..from + 200).map(Id::from).collect()
}

fn request(now_ms: i64, limit: usize) -> ClaimRequest {
    ClaimRequest {
        queue: "q".into(),
        worker_id: "w".into(),
        now_ms,
        lease_ms: 100,
        limit,
        partition_key: None,
    }
}

/// A store with one job for each given partition of queue "q", numbered from 1.
fn with_jobs(partitions: &[&str]) -> ControlPlaneStore {
    let mut store = ControlPlaneStore::new();
    let mut batch = CommitBatch::new(id(9_000), 0);
    for (i, p) in partitions.iter().enumerate() {
        batch = batch.enqueue_job(JobSpec::reconcilable(id(i as u128 + 1), "q", p, vec![]));
    }
    store.commit(&batch).unwrap();
    store.take_writes();
    store
}

fn committed(outcome: Result<ClaimOutcome, ClaimError>) -> CommittedClaims {
    match outcome.unwrap() {
        ClaimOutcome::Committed(claims) => claims,
        other => panic!("{other:?}"),
    }
}

fn jobs_of(claims: &CommittedClaims) -> Vec<u128> {
    claims.jobs().iter().map(|j| j.job_id.value).collect()
}

#[test]
fn partitions_take_turns() {
    let mut store = with_jobs(&["b", "a", "c", "a"]);
    let first = committed(store.claim_jobs(&request(0, 2), &pool(10_000)));
    assert_eq!(jobs_of(&first), vec![2, 1]);
    assert_eq!(store.cursor_rows()[0].last_partition_key, "b");
    // The heads of "a" and "b" are leased, so only "c" has a ready one.
    let second = committed(store.claim_jobs(&request(0, 2), &pool(20_000)));
    assert_eq!(jobs_of(&second), vec![3]);
    assert_eq!(store.cursor_rows()[0].last_partition_key, "c");
    // The next job of "a" waits for the one before it.
    assert_eq!(store.claim_jobs(&request(0, 2), &pool(30_000)).unwrap(), ClaimOutcome::Noop);
    store
        .commit(&CommitBatch::new(id(1), 1).acknowledge_job(id(2), id(10_000), None))
        .unwrap();
    let third = committed(store.claim_jobs(&request(1, 2), &pool(40_000)));
    assert_eq!(jobs_of(&third), vec![4]);
}

#[test]
fn a_targeted_claim_keeps_the_cursor() {
    let mut store = with_jobs(&["a", "b", "c"]);
    committed(store.claim_jobs(&request(0, 1), &pool(10_000)));
    let before = store.cursor_rows().clone();
    let mut target = request(0, 5);
    target.partition_key = Some("c".into());
    let claims = committed(store.claim_jobs(&target, &pool(20_000)));
    assert_eq!(jobs_of(&claims), vec![3]);
    assert_eq!(store.cursor_rows(), &before);
    let rest = committed(store.claim_jobs(&request(0, 5), &pool(30_000)));
    assert_eq!(jobs_of(&rest), vec![2]);
}

#[test]
fn a_claim_without_work_writes_nothing() {
    let mut store = with_jobs(&["a"]);
    assert_eq!(store.claim_jobs(&request(0, 0), &pool(1)).unwrap(), ClaimOutcome::Noop);
    let mut other = request(0, 1);
    other.queue = "other".into();
    assert_eq!(store.claim_jobs(&other, &pool(1)).unwrap(), ClaimOutcome::Noop);
    assert!(store.take_writes().is_empty());
    assert_eq!(store.transaction_rows().len(), 1);
}

#[test]
fn a_claim_records_its_transaction() {
    let mut store = with_jobs(&["a"]);
    let claims = committed(store.claim_jobs(&request(7, 3), &pool(10_000)));
    assert_eq!(claims.transaction_id(), id(10_001));
    let row = &store.transaction_rows()[1];
    assert_eq!(row.transaction_id, id(10_001));
    assert_eq!((row.transaction_sequence, row.committed_at_ms), (2, 7));
    assert_eq!(row.operation_count, 1);
    assert_eq!(
        row.request_digest,
        checksum(&format!("claim:{:032x}:q:w:7:100:3", 10_001))
    );
}

#[test]
fn too_few_identifiers_undo_the_claim() {
    let mut store = with_jobs(&["a", "b"]);
    for n in 0..3 {
        let fresh: Vec<Id> = pool(10_000).into_iter().take(n).collect();
        assert!(matches!(
            store.claim_jobs(&request(0, 5), &fresh).unwrap_err(),
            ClaimError::Storage(_)
        ));
        assert!(store.take_writes().is_empty());
        assert_eq!(store.get_job(id(1)).unwrap().state, JobState::Pending);
    }
    let fresh: Vec<Id> = pool(10_000).into_iter().take(3).collect();
    assert_eq!(committed(store.claim_jobs(&request(0, 5), &fresh)).len(), 2);
}

#[test]
fn a_reused_transaction_identifier_undoes_the_claim() {
    let mut store = with_jobs(&["a"]);
    assert_eq!(
        store.claim_jobs(&request(0, 1), &vec![id(10_000), id(9_000)]).unwrap_err(),
        ClaimError::Storage(StorageError::Sqlite(
            "UNIQUE constraint failed: transactions.transaction_id".into()
        ))
    );
    assert_eq!(store.get_job(id(1)).unwrap().state, JobState::Pending);
    assert!(store.receipt_rows().is_empty());
}

#[test]
fn malformed_claims_are_refused() {
    let mut store = with_jobs(&["a"]);
    let cases: Vec<(fn(&mut ClaimRequest), &str)> = vec![
        (|r| r.queue = String::new(), "claim queue cannot be empty"),
        (|r| r.worker_id = String::new(), "claim worker id cannot be empty"),
        (|r| r.partition_key = Some(String::new()), "claim partition_key cannot be empty"),
        (|r| r.lease_ms = 0, "claim lease_ms must be positive"),
        (|r| r.now_ms = i64::MAX, "lease expiry timestamp overflows i64"),
    ];
    for (change, text) in cases {
        let mut r = request(0, 1);
        change(&mut r);
        assert_eq!(
            store.claim_jobs(&r, &pool(1)).unwrap_err(),
            ClaimError::Validation(ValidationError(text.into()))
        );
    }
}

#[test]
fn repairs_come_in_batches_in_the_order_of_expiry() {
    let names: Vec<String> = (0..70).map(|i| format!("p{i:02}")).collect();
    let parts: Vec<&str> = names.iter().map(String::as_str).collect();
    let mut store = with_jobs(&parts);
    // Later partitions are leased earlier.
    for (i, p) in parts.iter().enumerate().rev() {
        let mut r = request(70 - i as i64, 1);
        r.partition_key = Some(p.to_string());
        committed(store.claim_jobs(&r, &pool(10_000 + 1_000 * i as u128)));
    }
    let outcome = store.claim_jobs(&request(1_000, 0), &pool(90_000)).unwrap();
    assert!(matches!(outcome, ClaimOutcome::MaintenanceCommitted(r)
        if r.transaction_id() == id(90_000)));
    let uncertain = store.list_jobs(Some("q"), Some(JobState::Uncertain), usize::MAX);
    assert_eq!(uncertain.len(), MAINTENANCE_LIMIT);
    // The six that expired last are left for the next claim.
    let left = store.list_jobs(Some("q"), Some(JobState::Leased), usize::MAX);
    assert_eq!(
        left.iter().map(|j| j.job_id.value).collect::<Vec<_>>(),
        vec![1, 2, 3, 4, 5, 6]
    );
    store.claim_jobs(&request(1_000, 0), &pool(95_000)).unwrap();
    assert!(store.list_jobs(Some("q"), Some(JobState::Leased), usize::MAX).is_empty());
    assert_eq!(
        store.recover_claim(id(90_000), 1_000),
        ClaimRecovery::MaintenanceCommitted(match outcome {
            ClaimOutcome::MaintenanceCommitted(r) => r,
            other => panic!("{other:?}"),
        })
    );
}

#[test]
fn expired_leases_are_repaired_by_effect() {
    let mut store = ControlPlaneStore::new();
    store
        .commit(
            &CommitBatch::new(id(9_000), 0)
                .enqueue_job(JobSpec::reconcilable(id(1), "q", "a", vec![]))
                .enqueue_job(JobSpec::intrinsically_idempotent(id(2), "q", "b", vec![]))
                .enqueue_job(
                    JobSpec::intrinsically_idempotent(id(3), "q", "c", vec![]).with_max_attempts(1),
                ),
        )
        .unwrap();
    committed(store.claim_jobs(&request(0, 5), &pool(10_000)));
    // A lease is good up to its expiry.
    assert_eq!(store.claim_jobs(&request(100, 5), &pool(20_000)).unwrap(), ClaimOutcome::Noop);
    store.claim_jobs(&request(101, 5), &pool(30_000)).unwrap();
    assert_eq!(store.get_job(id(1)).unwrap().state, JobState::Uncertain);
    assert_eq!(store.get_job(id(2)).unwrap().state, JobState::Pending);
    assert_eq!(store.get_job(id(3)).unwrap().state, JobState::Dead);
    // A job repaired by one claim is leased by the next.
    let claims = committed(store.claim_jobs(&request(101, 5), &pool(40_000)));
    assert_eq!(jobs_of(&claims), vec![2]);
    assert_eq!(claims.jobs()[0].attempt, 2);
}

#[test]
fn an_unknown_commit_of_a_claim_is_recovered() {
    let mut store = with_jobs(&["a", "b"]);
    let before = with_jobs(&["a", "b"]);
    let outcome = store.claim_jobs(&request(0, 5), &pool(10_000)).unwrap();
    let twin = with_jobs(&["a", "b"]).claim_jobs(&request(0, 5), &pool(10_000)).unwrap();
    let e = settle_claim(twin, Err(StorageError::Sqlite("io".into()))).unwrap_err();
    let lost = match e {
        ClaimError::Indeterminate(i) => i,
        other => panic!("{other:?}"),
    };
    assert_eq!(lost.transaction_id(), id(10_002));
    assert_eq!(lost.proposed_jobs_for_verification(), &[id(1), id(2)]);
    assert_eq!(lost.storage_error(), StorageError::Sqlite("io".into()).message());
    // It was durable after all, or it was rolled back.
    assert_eq!(
        store.recover_claim(lost.transaction_id(), 50),
        match outcome {
            ClaimOutcome::Committed(claims) => ClaimRecovery::Committed(claims),
            other => panic!("{other:?}"),
        }
    );
    assert_eq!(before.recover_claim(lost.transaction_id(), 50), ClaimRecovery::Absent);
}

#[test]
fn an_extension_moves_job_and_receipt() {
    let mut store = with_jobs(&["a", "b"]);
    committed(store.claim_jobs(&request(0, 5), &pool(10_000)));
    let r = store.extend_lease(id(1), id(10_000), 500, 100).unwrap();
    assert_eq!(settle_lease(r, Ok(())), Ok(r));
    assert_eq!(store.get_job(id(1)).unwrap().lease_expires_at_ms, Some(500));
    assert_eq!(store.get_job(id(2)).unwrap().lease_expires_at_ms, Some(100));
    let recovered = match store.recover_claim(id(10_002), 300) {
        ClaimRecovery::Committed(c) => c,
        other => panic!("{other:?}"),
    };
    assert_eq!(jobs_of(&recovered), vec![1]);
    assert_eq!(recovered.jobs()[0].lease_expires_at_ms, 500);
    assert_eq!(recovered.stale_jobs(), &vec![id(2)]);

    let conflict = |r: Result<_, LeaseError>| match r {
        Err(LeaseError::Conflict(c)) => c,
        Ok(_) => panic!("extended"),
        Err(other) => panic!("{other:?}"),
    };
    assert_eq!(
        conflict(store.extend_lease(id(404), id(1), 900, 0).map(|_| ())),
        LeaseConflict::JobNotFound(id(404))
    );
    assert_eq!(
        conflict(store.extend_lease(id(1), id(1), 900, 0).map(|_| ())),
        LeaseConflict::InvalidToken { job_id: id(1) }
    );
    assert_eq!(
        conflict(store.extend_lease(id(1), id(10_000), 900, 501).map(|_| ())),
        LeaseConflict::Expired {
            job_id: id(1),
            lease_expires_at_ms: 500,
            now_ms: 501
        }
    );
    assert_eq!(
        conflict(store.extend_lease(id(1), id(10_000), 500, 400).map(|_| ())),
        LeaseConflict::ExpiryNotLater {
            job_id: id(1),
            current_ms: 500,
            requested_ms: 500
        }
    );
    store
        .commit(&CommitBatch::new(id(1), 1).acknowledge_job(id(1), id(10_000), None))
        .unwrap();
    assert_eq!(
        conflict(store.extend_lease(id(1), id(10_000), 900, 400).map(|_| ())),
        LeaseConflict::NotLeased {
            job_id: id(1),
            state: JobState::Succeeded
        }
    );
}

#[test]
fn stale_tokens_and_finished_jobs_are_refused() {
    let mut store = with_jobs(&["a", "b"]);
    committed(store.claim_jobs(&request(0, 5), &pool(10_000)));
    for batch in [
        CommitBatch::new(id(1), 1).acknowledge_job(id(1), id(77), None),
        CommitBatch::new(id(1), 1).fail_job(id(1), id(77), "", None),
        CommitBatch::new(id(1), 1).cancel_job(id(1), Some(id(77))),
    ] {
        assert_eq!(
            store.commit(&batch).unwrap_err(),
            CommitError::Validation(ValidationError(format!(
                "stale lease token for job {}",
                id(1).to_hex()
            )))
        );
    }
    let before = store.get_job(id(2)).unwrap();
    store
        .commit(&CommitBatch::new(id(1), 1).acknowledge_job(id(1), id(10_000), Some(vec![9])))
        .unwrap();
    assert_eq!(store.get_job(id(2)).unwrap(), before);
    let done = store.get_job(id(1)).unwrap();
    for batch in [
        CommitBatch::new(id(2), 2).acknowledge_job(id(1), id(10_000), None),
        CommitBatch::new(id(2), 2).cancel_job(id(1), None),
        CommitBatch::new(id(2), 2).resolve_uncertain_job(id(1), Resolution::Retry),
    ] {
        assert!(store.commit(&batch).is_err());
        assert_eq!(store.get_job(id(1)).unwrap(), done);
    }
}

#[test]
fn an_uncertain_job_waits_for_a_resolution() {
    let mut store = with_jobs(&["a"]);
    committed(store.claim_jobs(&request(0, 5), &pool(10_000)));
    store.claim_jobs(&request(200, 5), &pool(20_000)).unwrap();
    assert_eq!(store.get_job(id(1)).unwrap().state, JobState::Uncertain);
    assert_eq!(store.claim_jobs(&request(900, 5), &pool(30_000)).unwrap(), ClaimOutcome::Noop);
    assert!(store
        .commit(&CommitBatch::new(id(1), 201).acknowledge_job(id(1), id(10_000), None))
        .is_err());
    store
        .commit(&CommitBatch::new(id(1), 201).resolve_uncertain_job(id(1), Resolution::Retry))
        .unwrap();
    assert_eq!(committed(store.claim_jobs(&request(900, 5), &pool(40_000))).len(), 1);
}

#[test]
fn only_an_uncertain_job_is_resolved() {
    let mut store = with_jobs(&["a"]);
    assert_eq!(
        store
            .commit(&CommitBatch::new(id(1), 1).resolve_uncertain_job(id(1), Resolution::MarkDead))
            .unwrap_err(),
        CommitError::Conflict(Conflict::JobTransition {
            job_id: id(1),
            from: JobState::Pending,
            to: JobState::Dead
        })
    );
}

#[test]
fn pages_follow_each_other() {
    let mut store = with_jobs(&["a", "b", "c", "d", "e"]);
    committed(store.claim_jobs(&request(0, 2), &pool(10_000)));
    let all = store.list_jobs(Some("q"), Some(JobState::Pending), usize::MAX);
    let mut seen = Vec::new();
    let mut cursor = 0;
    loop {
        let (page, next) = store
            .list_jobs_page(Some("q"), Some(JobState::Pending), cursor, 2)
            .unwrap();
        if page.is_empty() {
            assert_eq!(next, cursor);
            break;
        }
        seen.extend(page);
        cursor = next;
    }
    assert_eq!(seen, all);
    assert_eq!(all.len(), 3);
    assert_eq!(store.list_jobs(None, None, usize::MAX).len(), 5);
    assert_eq!(store.list_jobs(None, None, 2).len(), 2);
    assert!(store.list_jobs_page(None, None, u64::MAX, 2).is_err());
}
