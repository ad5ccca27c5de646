//! The Node binding: inputs, answers, error codes and messages.

use minisqlite::batch::{CommitBatch, Event, ProjectionPatch};
use minisqlite::commit::TransactionRecovery;
use minisqlite::error::{
    ClaimError, CommitError, Conflict, Error, LeaseConflict, LeaseError, RecoveryError,
    StorageError, ValidationError,
};
use minisqlite::id::Id;
use minisqlite::jobs::{ClaimOutcome, JobSpec};
use minisqlite::load::StoredRows;
use minisqlite::node::{claim_answer, commit_answer, lease_answer, new_id, Store};
use minisqlite::node_error::{
    err, invalid_id, job_state_name, map_claim_error, map_commit_error, map_error,
    map_lease_error, map_recovery_error, parse_durability, parse_id, parse_job_state,
    parse_resolution, unknown, Durability, ErrorCode, JsError,
};
use minisqlite::node_input::{
    build_batch, claim_request, ClaimRequestInput, CommitBatchInput, EventInput,
    ExpectedStreamVersionInput, JobAckInput, JobCancellationInput, JobFailureInput,
    JobResolutionInput, JobSpecInput, ProjectionPatchInput, ProjectionPutInput,
};
use minisqlite::state::{JobState, Resolution};

fn id(n: u128) -> Id {
    Id::from(n)
}

fn hex(n: u128) -> String {
    format!("{n:032x}")
}

fn no_rows() -> StoredRows {
    StoredRows {
        jobs: vec![],
        partitions: vec![],
        cursors: vec![],
        receipts: vec![],
        transactions: vec![],
        events: vec![],
        projections: vec![],
        entries: vec![],
    }
}

fn open() -> Store {
    Store::open(Ok(no_rows())).unwrap()
}

fn batch(n: u128, at: i64) -> CommitBatchInput {
    CommitBatchInput {
        transaction_id: Some(hex(n)),
        committed_at_ms: at,
        expected_stream_versions: None,
        events: None,
        projection_patches: None,
        enqueue_jobs: None,
        ack_jobs: None,
        fail_jobs: None,
        cancel_jobs: None,
        resolve_uncertain_jobs: None,
    }
}

fn job(n: u128) -> JobSpecInput {
    JobSpecInput {
        job_id: Some(hex(n)),
        queue: "q".into(),
        partition_key: "p".into(),
        payload: b"work".to_vec(),
        effect_mode: None,
        idempotency_key: None,
        not_before_ms: None,
        max_attempts: None,
    }
}

fn claim(now_ms: i64) -> ClaimRequestInput {
    ClaimRequestInput {
        queue: "q".into(),
        worker_id: "w".into(),
        now_ms,
        lease_ms: 100,
        limit: 10,
        partition_key: None,
    }
}

fn failure(e: JsError) -> (String, String) {
    (e.code.name().to_string(), e.message)
}

fn said(code: &str, message: &str) -> (String, String) {
    (code.to_string(), message.to_string())
}

#[test]
fn identifiers_are_drawn_or_reported() {
    assert_eq!(new_id(Ok(id(255))), Ok(hex(255)));
    let e = new_id(Err(Error::Storage(StorageError::Identifier("no entropy".into())))).unwrap_err();
    assert_eq!(e.code.name(), "Storage");
}

#[test]
fn malformed_texts_are_quoted() {
    assert_eq!(parse_id("jobId", &hex(7)), Ok(id(7)));
    assert_eq!(
        failure(parse_id("jobId", "zz").unwrap_err()),
        said("InvalidId", "jobId: invalid id \"zz\"")
    );
    assert_eq!(
        failure(parse_id("leaseToken", "a\"\n").unwrap_err()),
        said("InvalidId", "leaseToken: invalid id \"a\\\"\\n\"")
    );
    assert_eq!(
        failure(parse_resolution("again").unwrap_err()),
        said("Validation", "unknown resolution \"again\"")
    );
    assert_eq!(
        failure(parse_job_state("Pending").unwrap_err()),
        said("Validation", "unknown job state \"Pending\"")
    );
    assert_eq!(
        failure(parse_durability(&Some("soft".into())).unwrap_err()),
        said("Validation", "unknown durability \"soft\"")
    );
    assert_eq!(
        failure(invalid_id("f", "<text>")),
        said("InvalidId", "f: invalid id <text>")
    );
    assert_eq!(
        failure(unknown("unknown thing ", "<text>")),
        said("Validation", "unknown thing <text>")
    );
}

#[test]
fn names_read_back() {
    let names = [
        (JobState::Pending, "pending"),
        (JobState::Leased, "leased"),
        (JobState::RetryWait, "retryWait"),
        (JobState::Uncertain, "uncertain"),
        (JobState::Succeeded, "succeeded"),
        (JobState::Dead, "dead"),
        (JobState::Cancelled, "cancelled"),
    ];
    for (state, name) in names {
        assert_eq!(job_state_name(state), name);
        assert_eq!(parse_job_state(name), Ok(state));
    }
    assert_eq!(parse_resolution("retry"), Ok(Resolution::Retry));
    assert_eq!(parse_resolution("markSucceeded"), Ok(Resolution::MarkSucceeded));
    assert_eq!(parse_resolution("markDead"), Ok(Resolution::MarkDead));
    assert_eq!(parse_durability(&None), Ok(Durability::Strict));
    assert_eq!(parse_durability(&Some("strict".into())), Ok(Durability::Strict));
    assert_eq!(parse_durability(&Some("relaxed".into())), Ok(Durability::Relaxed));
}

#[test]
fn errors_carry_the_name_of_their_variant() {
    let storage = || StorageError::Sqlite("disk".into());
    let validation = || ValidationError("bad".into());
    let conflict = || Conflict::StreamVersion {
        stream_id: "s".into(),
        expected: 1,
        actual: 2,
    };
    let lease = || LeaseConflict::JobNotFound(id(9));

    assert_eq!(map_error(Error::Storage(storage())).code, ErrorCode::named("Storage"));
    assert_eq!(failure(map_error(Error::Validation(validation()))), said("Validation", "bad"));
    assert_eq!(map_error(Error::Conflict(conflict())).code.name(), "Conflict");

    assert_eq!(map_commit_error(CommitError::Conflict(conflict())).code.name(), "Conflict");
    assert_eq!(
        failure(map_commit_error(CommitError::Validation(validation()))),
        said("Validation", "bad")
    );
    assert_eq!(
        failure(map_commit_error(CommitError::DuplicateIdWithDifferentContent)),
        said(
            "DuplicateIdWithDifferentContent",
            "transaction id reused with different content"
        )
    );
    assert_eq!(map_commit_error(CommitError::Storage(storage())).code.name(), "Storage");

    assert_eq!(
        failure(map_claim_error(ClaimError::Validation(validation()))),
        said("Validation", "bad")
    );
    assert_eq!(map_claim_error(ClaimError::Conflict(conflict())).code.name(), "Conflict");
    assert_eq!(map_claim_error(ClaimError::Storage(storage())).code.name(), "Storage");

    assert_eq!(map_lease_error(LeaseError::Conflict(lease())).code.name(), "LeaseConflict");
    assert_eq!(map_lease_error(LeaseError::Storage(storage())).code.name(), "Storage");
    assert_eq!(map_recovery_error(RecoveryError::Storage(storage())).code.name(), "Storage");
    assert_eq!(failure(err("Code", "text".into())), said("Code", "text"));
}

#[test]
fn a_batch_is_built_in_the_order_of_its_lists() {
    let fresh = vec![id(101), id(102), id(103), id(104)];
    let mut input = batch(0, 1_000);
    input.transaction_id = None;
    input.expected_stream_versions = Some(vec![ExpectedStreamVersionInput {
        stream_id: "s".into(),
        version: 3,
    }]);
    input.events = Some(vec![
        EventInput {
            event_id: None,
            stream_id: "s".into(),
            event_type: "t".into(),
            occurred_at_ms: 5,
            payload: None,
        },
        EventInput {
            event_id: Some(hex(7)),
            stream_id: "s".into(),
            event_type: "u".into(),
            occurred_at_ms: 6,
            payload: Some(b"{}".to_vec()),
        },
    ]);
    input.projection_patches = Some(vec![ProjectionPatchInput {
        projection: "v".into(),
        expected_version: 2,
        puts: Some(vec![ProjectionPutInput {
            key: b"k".to_vec(),
            value: b"1".to_vec(),
        }]),
        deletes: Some(vec![b"old".to_vec()]),
    }]);
    let mut generated = job(0);
    generated.job_id = None;
    let mut keyed = job(8);
    keyed.effect_mode = Some("idempotent".into());
    keyed.idempotency_key = Some("once".into());
    keyed.not_before_ms = Some(50);
    keyed.max_attempts = Some(9);
    let mut plain = job(9);
    plain.effect_mode = Some("reconcilable".into());
    plain.idempotency_key = Some("unused".into());
    input.enqueue_jobs = Some(vec![generated, keyed, plain]);
    input.ack_jobs = Some(vec![JobAckInput {
        job_id: hex(20),
        lease_token: hex(21),
        result_digest: Some(vec![1]),
    }]);
    input.fail_jobs = Some(vec![
        JobFailureInput {
            job_id: hex(30),
            lease_token: hex(31),
            error_summary: None,
            retry_after_ms: None,
        },
        JobFailureInput {
            job_id: hex(32),
            lease_token: hex(33),
            error_summary: Some("why".into()),
            retry_after_ms: Some(250),
        },
    ]);
    input.cancel_jobs = Some(vec![
        JobCancellationInput {
            job_id: hex(40),
            lease_token: None,
        },
        JobCancellationInput {
            job_id: hex(41),
            lease_token: Some(hex(42)),
        },
    ]);
    input.resolve_uncertain_jobs = Some(vec![JobResolutionInput {
        job_id: hex(50),
        resolution: "markDead".into(),
    }]);

    let expected = CommitBatch::new(id(101), 1_000)
        .expect_stream_version("s", 3)
        .append_event(Event::with_json_payload(id(102), "s", "t", 5, vec![]))
        .append_event(Event::with_json_payload(id(7), "s", "u", 6, b"{}".to_vec()))
        .apply_projection_patch(
            ProjectionPatch::new("v", 2)
                .put(b"k".to_vec(), b"1".to_vec())
                .delete(b"old".to_vec()),
        )
        .enqueue_job(JobSpec::reconcilable(id(103), "q", "p", b"work".to_vec()))
        .enqueue_job(
            JobSpec::idempotent(id(8), "q", "p", b"work".to_vec(), "once")
                .with_not_before_ms(50)
                .with_max_attempts(9),
        )
        .enqueue_job(JobSpec::reconcilable(id(9), "q", "p", b"work".to_vec()))
        .acknowledge_job(id(20), id(21), Some(vec![1]))
        .fail_job(id(30), id(31), "", None)
        .fail_job(id(32), id(33), "why", Some(1_250))
        .cancel_job(id(40), None)
        .cancel_job(id(41), Some(id(42)))
        .resolve_uncertain_job(id(50), Resolution::MarkDead);
    assert_eq!(build_batch(input, &fresh).unwrap(), expected);
}

#[test]
fn malformed_batches_are_refused() {
    let fresh = vec![id(101), id(102)];
    let refused = |change: fn(&mut CommitBatchInput)| {
        let mut input = batch(1, 1_000);
        change(&mut input);
        failure(build_batch(input, &fresh).unwrap_err())
    };
    assert_eq!(
        refused(|b| b.transaction_id = Some("x".into())),
        said("InvalidId", "transactionId: invalid id \"x\"")
    );
    assert_eq!(
        refused(|b| {
            b.events = Some(vec![EventInput {
                event_id: Some("x".into()),
                stream_id: "s".into(),
                event_type: "t".into(),
                occurred_at_ms: 0,
                payload: None,
            }])
        }),
        said("InvalidId", "eventId: invalid id \"x\"")
    );
    assert_eq!(
        refused(|b| {
            let mut j = job(1);
            j.job_id = Some("x".into());
            b.enqueue_jobs = Some(vec![j]);
        }),
        said("InvalidId", "jobId: invalid id \"x\"")
    );
    assert_eq!(
        refused(|b| {
            let mut j = job(1);
            j.effect_mode = Some("maybe".into());
            b.enqueue_jobs = Some(vec![j]);
        }),
        said("Validation", "unknown effect mode \"maybe\"")
    );
    assert_eq!(
        refused(|b| {
            let mut j = job(1);
            j.effect_mode = Some("idempotent".into());
            b.enqueue_jobs = Some(vec![j]);
        }),
        said("Validation", "effect mode idempotent requires idempotencyKey")
    );
    assert_eq!(
        refused(|b| {
            b.ack_jobs = Some(vec![JobAckInput {
                job_id: hex(1),
                lease_token: "x".into(),
                result_digest: None,
            }])
        }),
        said("InvalidId", "leaseToken: invalid id \"x\"")
    );
    assert_eq!(
        refused(|b| {
            b.fail_jobs = Some(vec![JobFailureInput {
                job_id: hex(1),
                lease_token: hex(2),
                error_summary: None,
                retry_after_ms: Some(i64::MAX),
            }])
        }),
        said("Validation", "retryAfterMs overflows the retry timestamp")
    );
    // The token of a cancellation is read before its job.
    assert_eq!(
        refused(|b| {
            b.cancel_jobs = Some(vec![JobCancellationInput {
                job_id: "y".into(),
                lease_token: Some("x".into()),
            }])
        }),
        said("InvalidId", "leaseToken: invalid id \"x\"")
    );
    assert_eq!(
        refused(|b| {
            b.resolve_uncertain_jobs = Some(vec![JobResolutionInput {
                job_id: hex(1),
                resolution: "x".into(),
            }])
        }),
        said("Validation", "unknown resolution \"x\"")
    );
    // The third generated identifier is one too many.
    let mut input = batch(1, 1_000);
    input.transaction_id = None;
    let mut j = job(1);
    j.job_id = None;
    let mut k = job(2);
    k.job_id = None;
    input.enqueue_jobs = Some(vec![j, k]);
    assert_eq!(build_batch(input, &fresh).unwrap_err().code.name(), "Storage");
}

#[test]
fn a_claim_request_keeps_its_fields() {
    let mut input = claim(5);
    input.partition_key = Some("p".into());
    let r = claim_request(input);
    assert_eq!((r.queue.as_str(), r.worker_id.as_str()), ("q", "w"));
    assert_eq!((r.now_ms, r.lease_ms, r.limit), (5, 100, 10));
    assert_eq!(r.partition_key, Some("p".into()));
}

#[test]
fn a_job_runs_through_the_binding() {
    let mut store = open();
    let mut input = batch(1, 1_000);
    input.enqueue_jobs = Some(vec![job(5), job(6)]);
    input.events = Some(vec![EventInput {
        event_id: Some(hex(70)),
        stream_id: "s".into(),
        event_type: "t".into(),
        occurred_at_ms: 9,
        payload: Some(b"{}".to_vec()),
    }]);
    let receipt = store.commit(input, &vec![]).unwrap();
    assert!(!store.take_writes().is_empty());
    let shown = commit_answer(receipt, Ok(())).unwrap();
    assert_eq!(shown.transaction_id, hex(1));
    assert_eq!((shown.transaction_sequence, shown.committed_at_ms), (1, 1_000));

    let outcome = store.claim_jobs(claim(1_000), &vec![id(201), id(202), id(203)]).unwrap();
    let shown = claim_answer(outcome, Ok(())).unwrap();
    assert_eq!(shown.kind, "committed");
    assert_eq!(shown.transaction_id, Some(hex(202)));
    assert!(shown.stale_jobs.is_empty());
    // One partition leases its head alone.
    assert_eq!(shown.jobs.len(), 1);
    assert_eq!(shown.jobs[0].job_id, hex(5));
    assert_eq!(shown.jobs[0].lease_token, hex(201));
    assert_eq!(shown.jobs[0].payload, b"work".to_vec());
    assert_eq!((shown.jobs[0].attempt, shown.jobs[0].lease_expires_at_ms), (1, 1_100));

    let receipt = store.extend_lease(hex(5), hex(201), 1_500, 1_050).unwrap();
    let shown = lease_answer(receipt, Ok(())).unwrap();
    assert_eq!(shown.job_id, hex(5));
    assert_eq!((shown.attempt, shown.lease_expires_at_ms), (1, 1_500));

    let recovered = store.recover_claim(hex(202), 1_200).unwrap();
    assert_eq!(recovered.kind, "committed");
    assert_eq!(recovered.jobs[0].lease_token, hex(201));
    assert_eq!(recovered.jobs[0].lease_expires_at_ms, 1_500);
    let stale = store.recover_claim(hex(202), 1_501).unwrap();
    assert!(stale.jobs.is_empty());
    assert_eq!(stale.stale_jobs, vec![hex(5)]);
    assert_eq!(store.recover_claim(hex(404), 1_200).unwrap().kind, "absent");

    let mut input = batch(2, 1_300);
    input.ack_jobs = Some(vec![JobAckInput {
        job_id: hex(5),
        lease_token: hex(201),
        result_digest: None,
    }]);
    store.commit(input, &vec![]).unwrap();
    assert_eq!(store.job(hex(5)).unwrap().unwrap().state, "succeeded");
    assert_eq!(store.job(hex(404)).unwrap(), None);
    assert_eq!(store.jobs(None, Some("pending".into()), 10).unwrap().len(), 1);
    assert_eq!(store.jobs(Some("other".into()), None, 10).unwrap().len(), 0);

    let page = store.jobs_page(Some("q".into()), None, 0, 1).unwrap();
    assert_eq!(page.jobs[0].job_id, hex(5));
    let page = store.jobs_page(Some("q".into()), None, page.next_after_sequence, 1).unwrap();
    assert_eq!(page.jobs[0].job_id, hex(6));
    let end = store.jobs_page(Some("q".into()), None, page.next_after_sequence, 1).unwrap();
    assert!(end.jobs.is_empty());
    assert_eq!(end.next_after_sequence, page.next_after_sequence);

    assert_eq!(store.stream_version("s".into()).unwrap(), 1);
    let events = store.events_after(0, 10).unwrap();
    assert_eq!(events.len(), 1);
    assert_eq!(events[0].event_id, hex(70));
    assert_eq!(events[0].transaction_id, hex(1));
    assert_eq!((events[0].global_sequence, events[0].stream_version), (1, 1));
    assert_eq!(store.projection_version("v".into()).unwrap(), 0);
    assert_eq!(store.projection_get("v".into(), b"k".to_vec()).unwrap(), None);

    assert_eq!(store.recover_transaction(hex(2)).unwrap().kind, "committed");
    let absent = store.recover_transaction(hex(3)).unwrap();
    assert_eq!((absent.kind.as_str(), absent.receipt), ("absent", None));
}

#[test]
fn failures_are_answered_with_codes() {
    let mut store = open();
    assert_eq!(
        store.extend_lease(hex(5), hex(6), 10, 5).unwrap_err().code.name(),
        "LeaseConflict"
    );
    let mut blank = claim(0);
    blank.lease_ms = 0;
    assert_eq!(store.claim_jobs(blank, &vec![]).unwrap_err().code.name(), "Validation");
    let mut input = batch(1, 1_000);
    input.expected_stream_versions = Some(vec![ExpectedStreamVersionInput {
        stream_id: "s".into(),
        version: 1,
    }]);
    assert_eq!(store.commit(input, &vec![]).unwrap_err().code.name(), "Conflict");
    assert_eq!(
        store.jobs_page(None, None, -1, 10).unwrap_err().code.name(),
        "Validation"
    );
    assert_eq!(
        store.jobs(None, Some("x".into()), 10).unwrap_err().message,
        "unknown job state \"x\""
    );
    assert_eq!(
        Store::open(Err(StorageError::Sqlite("locked".into()))).err().unwrap().code.name(),
        "Storage"
    );
}

#[test]
fn an_unknown_commit_result_names_what_to_recover() {
    let mut store = open();
    let lost = || StorageError::Sqlite("io".into());
    let mut input = batch(1, 1_000);
    input.enqueue_jobs = Some(vec![job(5)]);
    let receipt = store.commit(input, &vec![]).unwrap();
    let e = commit_answer(receipt, Err(lost())).unwrap_err();
    assert_eq!(e.code.name(), "CommitIndeterminate");
    assert!(e.message.starts_with(&format!(
        "commit outcome indeterminate; recoverTransaction to verify; transactionId={} (",
        hex(1)
    )));

    let outcome = store.claim_jobs(claim(1_000), &vec![id(201), id(202)]).unwrap();
    let e = claim_answer(outcome, Err(lost())).unwrap_err();
    assert_eq!(e.code.name(), "ClaimIndeterminate");
    assert!(e.message.starts_with(&format!(
        "claim outcome indeterminate; recoverClaim to verify; transactionId={} (",
        hex(202)
    )));

    let receipt = store.extend_lease(hex(5), hex(201), 1_500, 1_050).unwrap();
    let e = lease_answer(receipt, Err(lost())).unwrap_err();
    assert_eq!(e.code.name(), "LeaseIndeterminate");
    assert!(e.message.starts_with(&format!(
        "lease extension outcome indeterminate; read the job to verify; jobId={} (",
        hex(5)
    )));

    // A claim that changed nothing has nothing to recover.
    let outcome = store.claim_jobs(claim(1_000), &vec![]).unwrap();
    assert_eq!(outcome, ClaimOutcome::Noop);
}

#[test]
fn a_closed_store_refuses_every_call() {
    let mut store = open();
    store.close();
    let closed = said("Closed", "store is closed");
    assert_eq!(failure(store.store().err().unwrap()), closed);
    assert_eq!(failure(store.commit(batch(1, 0), &vec![]).unwrap_err()), closed);
    assert_eq!(failure(store.claim_jobs(claim(0), &vec![]).unwrap_err()), closed);
    assert_eq!(failure(store.extend_lease(hex(1), hex(2), 1, 0).unwrap_err()), closed);
    assert_eq!(failure(store.recover_claim("x".into(), 0).unwrap_err()), closed);
    assert_eq!(failure(store.recover_transaction("x".into()).unwrap_err()), closed);
    assert_eq!(failure(store.jobs(None, None, 1).unwrap_err()), closed);
    assert_eq!(failure(store.job("x".into()).unwrap_err()), closed);
    assert_eq!(failure(store.jobs_page(None, None, 0, 1).unwrap_err()), closed);
    assert_eq!(failure(store.projection_get("v".into(), vec![]).unwrap_err()), closed);
    assert_eq!(failure(store.projection_version("v".into()).unwrap_err()), closed);
    assert_eq!(failure(store.stream_version("s".into()).unwrap_err()), closed);
    assert_eq!(failure(store.events_after(0, 1).unwrap_err()), closed);
    assert!(store.take_writes().is_empty());
    // A malformed batch is refused before the store is asked.
    let mut input = batch(1, 0);
    input.transaction_id = Some("x".into());
    assert_eq!(store.commit(input, &vec![]).unwrap_err().code.name(), "InvalidId");
}

#[test]
fn recovery_of_a_commit_gives_its_receipt() {
    let mut store = open();
    let receipt = store.commit(batch(1, 7), &vec![]).unwrap();
    assert_eq!(
        store.store().unwrap().recover_transaction(id(1)),
        TransactionRecovery::Committed(receipt)
    );
    let shown = store.recover_transaction(hex(1)).unwrap().receipt.unwrap();
    assert_eq!(shown, commit_answer(receipt, Ok(())).unwrap());
}
