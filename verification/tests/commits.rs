//! Commits: event streams, projections, resubmission, and atomicity.

use minisqlite::batch::{CommitBatch, Event, ProjectionMutation, ProjectionPatch};
use minisqlite::commit::TransactionRecovery;
use minisqlite::error::{
    ClaimError, CommitError, Conflict, LeaseConflict, StorageError, ValidationError,
};
use minisqlite::id::Id;
use minisqlite::jobs::{ClaimOutcome, ClaimRecovery, ClaimRequest, JobSpec};
use minisqlite::load::StoredRows;
use minisqlite::rows::Write;
use minisqlite::state::JobState;
use minisqlite::store::ControlPlaneStore;

fn id(n: u128) -> Id {
    Id::from(n)
}

fn event(n: u128, stream: &str, event_type: &str) -> Event {
    Event::with_json_payload(id(n), stream, event_type, 2_000, b"{}".to_vec())
}

fn rows_of(store: &ControlPlaneStore) -> StoredRows {
    StoredRows {
        jobs: store.job_rows().clone(),
        partitions: store.partition_rows().clone(),
        cursors: store.cursor_rows().clone(),
        receipts: store.receipt_rows().clone(),
        transactions: store.transaction_rows().clone(),
        events: store.event_rows().clone(),
        projections: store.projection_rows().clone(),
        entries: store.entry_rows().clone(),
    }
}

#[test]
fn rapid_sequential_commits_keep_sequences_monotonic() {
    let mut store = ControlPlaneStore::new();
    let mut last_sequence = 0;
    for i in 0..2_000u64 {
        let stream = format!("s{}", i % 8);
        let receipt = store
            .commit(
                &CommitBatch::new(id(1_000_000 + i as u128), 2_000).append_event(event(
                    i as u128,
                    &stream,
                    "rapid",
                )),
            )
            .unwrap();
        store.take_writes();
        assert_eq!(receipt.transaction_sequence(), last_sequence + 1);
        last_sequence = receipt.transaction_sequence();
    }
    let events = store.events_after(0, usize::MAX);
    assert_eq!(events.len(), 2_000);
    for (i, e) in events.iter().enumerate() {
        assert_eq!(e.global_sequence, i as u64 + 1);
        assert_eq!(e.stream_version, i as u64 / 8 + 1);
    }
    assert_eq!(store.stream_version("s3"), 250);
}

#[test]
fn streams_advance_by_their_events() {
    let mut store = ControlPlaneStore::new();
    store
        .commit(
            &CommitBatch::new(id(1), 1_000)
                .append_event(event(1, "a", "t"))
                .append_event(event(2, "b", "t"))
                .append_event(event(3, "a", "u")),
        )
        .unwrap();
    assert_eq!(store.stream_version("a"), 2);
    assert_eq!(store.stream_version("b"), 1);
    assert_eq!(store.stream_version("c"), 0);
    let behind = store.events_after(1, 1);
    assert_eq!(behind.len(), 1);
    assert_eq!(behind[0].global_sequence, 2);
    assert_eq!(behind[0].event, event(2, "b", "t"));
    assert_eq!(behind[0].transaction_id, id(1));
    assert!(store.events_after(3, 10).is_empty());
    assert!(store.events_after(0, 0).is_empty());
}

#[test]
fn unmet_stream_version_is_a_conflict_and_changes_nothing() {
    let mut store = ControlPlaneStore::new();
    let batch = CommitBatch::new(id(1), 1_000)
        .expect_stream_version("a", 0)
        .expect_stream_version("b", 7)
        .append_event(event(1, "a", "t"));
    assert_eq!(
        store.commit(&batch).unwrap_err(),
        CommitError::Conflict(Conflict::StreamVersion {
            stream_id: "b".into(),
            expected: 7,
            actual: 0
        })
    );
    assert_eq!(store.stream_version("a"), 0);
    assert_eq!(store.recover_transaction(id(1)), TransactionRecovery::Absent);
    assert!(store.take_writes().is_empty());
}

#[test]
fn resubmission_is_idempotent_and_reuse_is_refused() {
    let mut store = ControlPlaneStore::new();
    let batch = CommitBatch::new(id(1), 1_000)
        .expect_stream_version("a", 0)
        .append_event(event(1, "a", "t"));
    let first = store.commit(&batch).unwrap();
    store.take_writes();
    assert_eq!(store.commit(&batch.clone()).unwrap(), first);
    assert!(store.take_writes().is_empty());
    assert_eq!(
        store.recover_transaction(id(1)),
        TransactionRecovery::Committed(first)
    );
    let other = CommitBatch::new(id(1), 1_000).append_event(event(1, "a", "other"));
    assert_eq!(
        store.commit(&other).unwrap_err(),
        CommitError::DuplicateIdWithDifferentContent
    );
    assert_eq!(store.stream_version("a"), 1);
}

#[test]
fn different_batches_have_different_digests() {
    let base = CommitBatch::new(id(1), 1_000);
    let variants = vec![
        base.clone(),
        CommitBatch::new(id(2), 1_000),
        CommitBatch::new(id(1), 1_001),
        base.clone().with_metadata(vec![0]),
        base.clone().expect_stream_version("a", 0),
        base.clone().append_event(event(1, "a", "t")),
        base.clone().append_event(event(1, "at", "")),
        base.clone().cancel_job(id(5), None),
        base.clone().cancel_job(id(5), Some(id(0))),
        base.clone().extend_lease(id(5), id(6), 7),
        base.clone().acknowledge_job(id(5), id(6), Some(vec![])),
        base.clone().acknowledge_job(id(5), id(6), None),
        base.clone().fail_job(id(5), id(6), "", None),
        base.clone().apply_projection_patch(ProjectionPatch::new("p", 0)),
        base.clone().apply_projection_patch(ProjectionPatch::new("p", 0).clear()),
        base.clone().enqueue_job(JobSpec::reconcilable(id(5), "q", "p", vec![])),
        base.clone().enqueue_job(JobSpec::intrinsically_idempotent(id(5), "q", "p", vec![])),
    ];
    for (i, a) in variants.iter().enumerate() {
        assert_eq!(a.request_digest().len(), 16);
        for b in &variants[i + 1..] {
            assert_ne!(a.request_digest(), b.request_digest());
        }
    }
}

#[test]
fn projections_advance_one_version_at_a_time() {
    let mut store = ControlPlaneStore::new();
    assert_eq!(store.projection_version("p"), 0);
    store
        .commit(
            &CommitBatch::new(id(1), 1_000).apply_projection_patch(
                ProjectionPatch::new("p", 0)
                    .put(b"a".to_vec(), b"1".to_vec())
                    .put(b"b".to_vec(), b"2".to_vec()),
            ),
        )
        .unwrap();
    assert_eq!(store.projection_version("p"), 1);
    assert_eq!(store.projection_get("p", &b"a".to_vec()), Some(b"1".to_vec()));
    assert_eq!(store.projection_get("q", &b"a".to_vec()), None);

    // A stale version is a conflict.
    let stale = CommitBatch::new(id(2), 1_000)
        .apply_projection_patch(ProjectionPatch::new("p", 0).delete(b"a".to_vec()));
    assert_eq!(
        store.commit(&stale).unwrap_err(),
        CommitError::Conflict(Conflict::ProjectionVersion {
            projection: "p".into(),
            expected: 0,
            actual: 1
        })
    );

    // Put, delete and clear.
    store
        .commit(
            &CommitBatch::new(id(3), 1_000).apply_projection_patch(
                ProjectionPatch::new("p", 1)
                    .delete(b"a".to_vec())
                    .put(b"b".to_vec(), b"3".to_vec()),
            ),
        )
        .unwrap();
    assert_eq!(store.projection_get("p", &b"a".to_vec()), None);
    assert_eq!(store.projection_get("p", &b"b".to_vec()), Some(b"3".to_vec()));
    store
        .commit(
            &CommitBatch::new(id(4), 1_000).apply_projection_patch(
                ProjectionPatch::new("p", 2).clear().put(b"c".to_vec(), b"4".to_vec()),
            ),
        )
        .unwrap();
    assert_eq!(store.projection_version("p"), 3);
    assert_eq!(store.projection_get("p", &b"b".to_vec()), None);
    assert_eq!(store.projection_get("p", &b"c".to_vec()), Some(b"4".to_vec()));
}

#[test]
fn malformed_patches_are_validation_errors() {
    let mut store = ControlPlaneStore::new();
    let twice = ProjectionPatch::new("p", 0)
        .put(b"a".to_vec(), b"1".to_vec())
        .delete(b"a".to_vec());
    assert_eq!(
        store
            .commit(&CommitBatch::new(id(1), 1_000).apply_projection_patch(twice))
            .unwrap_err(),
        CommitError::Validation(ValidationError("projection patch names a key twice".into()))
    );
    let jump = ProjectionPatch {
        projection: "p".into(),
        expected_version: 0,
        new_version: 2,
        mutations: vec![ProjectionMutation::Clear],
    };
    assert_eq!(
        store
            .commit(&CommitBatch::new(id(1), 1_000).apply_projection_patch(jump))
            .unwrap_err(),
        CommitError::Validation(ValidationError(
            "projection version must advance by exactly one".into()
        ))
    );
    // There is no version behind the greatest one.
    assert!(store
        .commit(
            &CommitBatch::new(id(1), 1_000)
                .apply_projection_patch(ProjectionPatch::new("p", u64::MAX))
        )
        .is_err());
}

#[test]
fn a_failing_operation_undoes_the_whole_batch() {
    let mut store = ControlPlaneStore::new();
    let batch = CommitBatch::new(id(1), 1_000)
        .append_event(event(1, "a", "t"))
        .apply_projection_patch(ProjectionPatch::new("p", 0).put(b"k".to_vec(), b"v".to_vec()))
        .enqueue_job(JobSpec::reconcilable(id(5), "q", "p", vec![]))
        .acknowledge_job(id(404), id(6), None);
    assert_eq!(
        store.commit(&batch).unwrap_err(),
        CommitError::Validation(ValidationError(format!(
            "job {} does not exist",
            id(404).to_hex()
        )))
    );
    assert_eq!(store.stream_version("a"), 0);
    assert_eq!(store.projection_version("p"), 0);
    assert!(store.get_job(id(5)).is_none());
    assert!(store.transaction_rows().is_empty());
    assert!(store.take_writes().is_empty());
}

#[test]
fn recorded_writes_follow_the_operations() {
    let mut store = ControlPlaneStore::new();
    store
        .commit(
            &CommitBatch::new(id(1), 1_000)
                .append_event(event(1, "a", "t"))
                .enqueue_job(JobSpec::reconcilable(id(5), "q", "p", vec![])),
        )
        .unwrap();
    let writes = store.take_writes();
    assert_eq!(writes.len(), 4);
    assert!(matches!(&writes[0], Write::InsertTransaction(r)
        if r.transaction_id == id(1) && r.transaction_sequence == 1 && r.operation_count == 2));
    assert!(matches!(&writes[1], Write::InsertEvent(r) if r.event_id == id(1)));
    assert!(matches!(&writes[2], Write::InsertJob(r)
        if r.job_id == id(5) && r.enqueue_sequence == 1));
    assert!(matches!(&writes[3], Write::InsertPartition(r)
        if r.queue == "q" && r.partition_key == "p" && r.first_active_sequence == 1));
    assert!(store.take_writes().is_empty());
}

#[test]
fn exhausted_counters_are_storage_errors() {
    let mut store = ControlPlaneStore::new();
    store
        .commit(
            &CommitBatch::new(id(1), 1_000)
                .enqueue_job(JobSpec::reconcilable(id(5), "q", "p", vec![]))
                .apply_projection_patch(ProjectionPatch::new("p", 0)),
        )
        .unwrap();

    let mut rows = rows_of(&store);
    rows.jobs[0].enqueue_sequence = i64::MAX;
    let mut full = ControlPlaneStore::load(rows).unwrap();
    assert_eq!(
        full.commit(
            &CommitBatch::new(id(2), 1_000)
                .enqueue_job(JobSpec::reconcilable(id(6), "q", "p", vec![]))
        )
        .unwrap_err(),
        CommitError::Storage(StorageError::Sqlite("enqueue sequence exhausted".into()))
    );

    let mut rows = rows_of(&store);
    rows.transactions[0].transaction_sequence = i64::MAX;
    let mut full = ControlPlaneStore::load(rows).unwrap();
    assert_eq!(
        full.commit(&CommitBatch::new(id(2), 1_000)).unwrap_err(),
        CommitError::Storage(StorageError::Sqlite("transaction sequence exhausted".into()))
    );

    let mut rows = rows_of(&store);
    rows.projections[0].version = i64::MAX;
    let mut full = ControlPlaneStore::load(rows).unwrap();
    assert_eq!(
        full.commit(
            &CommitBatch::new(id(2), 1_000)
                .apply_projection_patch(ProjectionPatch::new("p", i64::MAX as u64))
        )
        .unwrap_err(),
        CommitError::Storage(StorageError::Sqlite("projection version exhausted".into()))
    );
}

#[test]
fn a_job_without_an_attempt_is_refused() {
    let mut store = ControlPlaneStore::new();
    let batch = CommitBatch::new(id(1), 1_000)
        .enqueue_job(JobSpec::reconcilable(id(5), "q", "p", vec![]).with_max_attempts(0));
    assert_eq!(
        store.commit(&batch).unwrap_err(),
        CommitError::Storage(StorageError::Sqlite(
            "CHECK constraint failed: max_attempts >= 1".into()
        ))
    );
}

#[test]
fn a_zero_token_is_refused_before_anything_else() {
    let mut store = ControlPlaneStore::new();
    let batch = CommitBatch::new(id(1), 1_000)
        .expect_stream_version("a", 9)
        .extend_lease(id(5), id(0), 2_000);
    assert_eq!(
        store.commit(&batch).unwrap_err(),
        CommitError::Validation(ValidationError("lease token cannot be zero".into()))
    );
    let unknown = CommitBatch::new(id(1), 1_000).extend_lease(id(5), id(7), 2_000);
    assert_eq!(
        store.commit(&unknown).unwrap_err(),
        CommitError::Conflict(Conflict::Lease(LeaseConflict::JobNotFound(id(5))))
    );
}

fn loaded_with(change: fn(&mut StoredRows)) -> Result<ControlPlaneStore, StorageError> {
    let mut store = ControlPlaneStore::new();
    store
        .commit(
            &CommitBatch::new(id(1), 1_000)
                .append_event(event(1, "a", "t"))
                .append_event(event(2, "a", "t"))
                .enqueue_job(JobSpec::reconcilable(id(5), "q", "p", vec![]))
                .enqueue_job(JobSpec::reconcilable(id(6), "q", "r", vec![]))
                .apply_projection_patch(
                    ProjectionPatch::new("p", 0).put(b"k".to_vec(), b"v".to_vec()),
                ),
        )
        .unwrap();
    let mut rows = rows_of(&store);
    change(&mut rows);
    ControlPlaneStore::load(rows)
}

#[test]
fn rows_that_share_a_key_or_are_out_of_order_are_rejected() {
    let again = loaded_with(|_| ()).unwrap();
    assert_eq!(again.get_job(id(5)).unwrap().state, JobState::Pending);

    let changes: Vec<(&str, fn(&mut StoredRows))> = vec![
        ("two jobs with one identifier", |r| r.jobs[1].job_id = r.jobs[0].job_id),
        ("jobs out of order", |r| r.jobs[1].enqueue_sequence = 1),
        ("no attempt left in the column", |r| r.jobs[0].attempt = u32::MAX),
        ("a partition listed twice", |r| {
            let p = r.partitions[0].clone();
            r.partitions.push(p);
        }),
        ("events out of order", |r| r.events.swap(0, 1)),
        ("an event before the first", |r| r.events[0].global_sequence = 0),
        ("an unpatched projection", |r| r.projections[0].version = 0),
        ("an entry twice", |r| {
            let e = r.entries[0].clone();
            r.entries.push(e);
        }),
        ("a transaction sequence of zero", |r| r.transactions[0].transaction_sequence = 0),
    ];
    for (name, change) in changes {
        assert_eq!(
            loaded_with(change).err(),
            Some(StorageError::Sqlite("stored rows share a key or are out of order".into())),
            "{name}"
        );
    }
}

#[test]
fn rows_that_disagree_are_worked_on_as_they_stand() {
    // Gaps in the numbering: the next numbers follow the last ones.
    let mut store = loaded_with(|r| {
        r.events[1].global_sequence = 7;
        r.events[1].stream_version = 5;
        r.events[0].transaction_id = Id::from(404u128);
    })
    .unwrap();
    assert_eq!(store.stream_version("a"), 5);
    store
        .commit(&CommitBatch::new(id(2), 2_000).append_event(event(3, "a", "t")))
        .unwrap();
    let last = store.events_after(7, 10).pop().unwrap();
    assert_eq!((last.global_sequence, last.stream_version), (8, 6));

    // A missing partition hides its jobs from claims of the queue, and a listed
    // one without jobs gives none; both are still read.
    let mut store = loaded_with(|r| {
        r.partitions.pop();
        r.partitions[0].partition_key = "empty".into();
    })
    .unwrap();
    let request = ClaimRequest {
        queue: "q".into(),
        worker_id: "w".into(),
        now_ms: 2_000,
        lease_ms: 60_000,
        limit: 5,
        partition_key: None,
    };
    let fresh: Vec<Id> = (100..110u128).map(Id::from).collect();
    assert_eq!(store.claim_jobs(&request, &fresh).unwrap(), ClaimOutcome::Noop);
    assert_eq!(store.list_jobs(None, None, 10).len(), 2);

    // Jobs are listed whatever their sequence is.
    let store = loaded_with(|r| r.jobs[0].enqueue_sequence = -3).unwrap();
    assert_eq!(store.list_jobs(None, None, 10).len(), 2);
    assert_eq!(store.list_jobs_page(None, None, 0, 10).unwrap().0.len(), 1);
}

#[test]
fn orphaned_receipts_and_lost_tokens_do_not_stop_a_store() {
    let fresh: Vec<Id> = (100..110u128).map(Id::from).collect();
    let at = |now_ms: i64| ClaimRequest {
        queue: "q".into(),
        worker_id: "w".into(),
        now_ms,
        lease_ms: 60_000,
        limit: 1,
        partition_key: None,
    };
    let request = at(2_000);
    let claimed = || {
        let mut store = ControlPlaneStore::new();
        store
            .commit(
                &CommitBatch::new(id(1), 1_000)
                    .enqueue_job(JobSpec::reconcilable(id(10), "q", "p", vec![])),
            )
            .unwrap();
        store.claim_jobs(&request, &fresh).unwrap();
        store
    };

    // The receipt of a job that is gone recovers nothing.
    let mut rows = rows_of(&claimed());
    rows.jobs.clear();
    let mut store = ControlPlaneStore::load(rows).unwrap();
    assert!(matches!(
        store.recover_claim(id(101), 2_000),
        ClaimRecovery::MaintenanceCommitted(_)
    ));
    // A receipt whose transaction is gone too still takes its key.
    let mut rows = rows_of(&claimed());
    rows.transactions.pop();
    rows.jobs[0].state = JobState::Pending;
    let mut taken = ControlPlaneStore::load(rows).unwrap();
    assert_eq!(
        taken.claim_jobs(&request, &fresh).unwrap_err(),
        ClaimError::Storage(StorageError::Sqlite(
            "UNIQUE constraint failed: claim_receipts.transaction_id, claim_receipts.job_id".into()
        ))
    );
    assert!(taken.take_writes().is_empty());
    store
        .commit(
            &CommitBatch::new(id(2), 3_000)
                .enqueue_job(JobSpec::reconcilable(id(11), "q", "p", vec![])),
        )
        .unwrap();

    // A leased job without its token is read, is stale, and is repaired in time.
    let mut rows = rows_of(&claimed());
    rows.jobs[0].lease_token = None;
    let mut store = ControlPlaneStore::load(rows).unwrap();
    assert_eq!(store.get_job(id(10)).unwrap().state, JobState::Leased);
    match store.recover_claim(id(101), 2_000) {
        ClaimRecovery::Committed(c) => assert_eq!(c.stale_jobs(), &vec![id(10)]),
        other => panic!("{other:?}"),
    }
    let later = at(62_001);
    let more: Vec<Id> = (200..210u128).map(Id::from).collect();
    store.claim_jobs(&later, &more).unwrap();
    assert_eq!(store.get_job(id(10)).unwrap().state, JobState::Uncertain);

    // Without an expiry it never expires.
    let mut rows = rows_of(&claimed());
    rows.jobs[0].lease_expires_at_ms = None;
    let mut store = ControlPlaneStore::load(rows).unwrap();
    assert_eq!(store.claim_jobs(&later, &more).unwrap(), ClaimOutcome::Noop);
    assert!(store.extend_lease(id(10), id(100), 9_000, 2_000).is_err());
}
