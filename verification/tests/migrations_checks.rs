//! Rows that violate what holds of every job are rejected, and a valid
//! lifecycle never produces one.

use minisqlite::batch::CommitBatch;
use minisqlite::id::Id;
use minisqlite::jobs::{ClaimOutcome, ClaimRequest, JobSpec};
use minisqlite::row::{check_columns, job_to_row, JobColumns};
use minisqlite::state::JobState;
use minisqlite::store::ControlPlaneStore;

fn with_one_job() -> ControlPlaneStore {
    let mut store = ControlPlaneStore::new();
    store
        .commit(
            &CommitBatch::new(Id::from(1u128), 1_000).enqueue_job(JobSpec::reconcilable(
                Id::from(10u128),
                "q",
                "p",
                vec![],
            )),
        )
        .unwrap();
    store
}

#[test]
fn jobs_check_constraints_reject_invalid_rows() {
    let store = with_one_job();
    let columns = || job_to_row(&store.job_rows()[0]);
    assert_eq!(check_columns(&columns()), Ok(()));

    let cases: Vec<(&str, fn(&mut JobColumns))> = vec![
        ("zero max_attempts", |c| c.max_attempts = 0),
        ("negative attempt", |c| c.attempt = -1),
        ("unknown state", |c| c.state = 7),
        ("leased without lease fields", |c| c.state = 1),
        ("pending with lease token", |c| c.lease_token = Some(vec![0])),
        ("retry-wait without retry time", |c| c.state = 2),
        ("terminal without terminal time", |c| c.state = 4),
        ("pending with terminal time", |c| c.terminal_at_ms = Some(1)),
    ];
    for (name, change) in cases {
        let mut changed = columns();
        change(&mut changed);
        let err = check_columns(&changed).unwrap_err();
        assert!(
            err.message().contains("CHECK constraint failed"),
            "{name}: expected CHECK violation, got {err:?}"
        );
    }
}

#[test]
fn valid_lifecycle_passes_check_constraints() {
    let mut store = with_one_job();
    let fresh: Vec<Id> = (100..110u128).map(Id::from).collect();
    let outcome = store
        .claim_jobs(
            &ClaimRequest {
                queue: "q".into(),
                worker_id: "w".into(),
                now_ms: 2_000,
                lease_ms: 60_000,
                limit: 1,
                partition_key: None,
            },
            &fresh,
        )
        .unwrap();
    let claims = match outcome {
        ClaimOutcome::Committed(claims) => claims.into_jobs(),
        other => panic!("expected committed claims, got {other:?}"),
    };
    assert_eq!(check_columns(&job_to_row(&store.job_rows()[0])), Ok(()));
    let job = &claims[0];
    store
        .commit(&CommitBatch::new(Id::from(2u128), 3_000).acknowledge_job(
            job.job_id,
            job.lease_token,
            None,
        ))
        .unwrap();
    let info = store.get_job(Id::from(10u128)).unwrap();
    assert_eq!(info.state, JobState::Succeeded);
    assert_eq!(check_columns(&job_to_row(&store.job_rows()[0])), Ok(()));
}
