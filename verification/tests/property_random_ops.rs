//! Long random sequences of commits, claims and job operations against a simple
//! model: event counts and stream versions, projection versions and contents,
//! and job states agree, both live and after reopening the store.

use std::cell::{Cell, RefCell};
use std::collections::{BTreeMap, HashMap};

use minisqlite::batch::{CommitBatch, Event, ProjectionMutation, ProjectionPatch};
use minisqlite::claim::settle_claim;
use minisqlite::commit::settle_commit;
use minisqlite::error::{ClaimError, CommitError};
use minisqlite::id::Id;
use minisqlite::jobs::{ClaimOutcome, ClaimRequest, CommitReceipt, JobSpec};
use minisqlite::load::StoredRows;
use minisqlite::state::{JobState, Resolution};
use minisqlite::store::ControlPlaneStore;

/// A small deterministic generator.
struct Prng(u64);

impl Prng {
    fn new(seed: u64) -> Prng {
        Prng(seed)
    }

    fn next_u64(&mut self) -> u64 {
        self.0 = self.0.wrapping_add(0x9E37_79B9_7F4A_7C15);
        let mut z = self.0;
        z = (z ^ (z >> 30)).wrapping_mul(0xBF58_476D_1CE4_E5B9);
        z = (z ^ (z >> 27)).wrapping_mul(0x94D0_49BB_1331_11EB);
        z ^ (z >> 31)
    }

    fn below(&mut self, n: u64) -> u64 {
        self.next_u64() % n
    }
}

/// A store with a source of fresh identifiers. What an operation records is
/// taken at once, as by a database whose COMMIT step succeeds.
struct Db {
    inner: RefCell<ControlPlaneStore>,
    drawn: Cell<u128>,
}

impl Db {
    fn new() -> Db {
        Db {
            inner: RefCell::new(ControlPlaneStore::new()),
            drawn: Cell::new(1 << 100),
        }
    }

    fn draw(&self, n: usize) -> Vec<Id> {
        let first = self.drawn.get();
        self.drawn.set(first + n as u128);
        (0..n as u128).map(|i| Id::from(first + i)).collect()
    }

    fn commit(&self, batch: &CommitBatch) -> Result<CommitReceipt, CommitError> {
        let mut store = self.inner.borrow_mut();
        let receipt = store.commit(batch)?;
        store.take_writes();
        settle_commit(receipt, Ok(()))
    }

    fn claim_jobs(&self, request: &ClaimRequest) -> Result<ClaimOutcome, ClaimError> {
        let fresh = self.draw(17);
        let mut store = self.inner.borrow_mut();
        let outcome = store.claim_jobs(request, &fresh)?;
        store.take_writes();
        settle_claim(outcome, Ok(()))
    }

    fn rows(&self) -> StoredRows {
        let store = self.inner.borrow();
        StoredRows {
            jobs: store.job_rows().clone(),
            partitions: store.partition_rows().clone(),
            cursors: store.cursor_rows().clone(),
            receipts: store.receipt_rows().clone(),
            transactions: store.transaction_rows().clone(),
            events: store.event_rows().clone(),
            projections: store.projection_rows().clone(),
            entries: store.entry_rows().clone(),
        }
    }

    /// The store as a fresh handle on the same rows sees it.
    fn reopened(&self) -> Db {
        Db {
            inner: RefCell::new(ControlPlaneStore::load(self.rows()).unwrap()),
            drawn: Cell::new(self.drawn.get()),
        }
    }
}

type Entries = BTreeMap<Vec<u8>, Vec<u8>>;
type ProjectionState = (u64, Entries);

const STREAMS: u64 = 6;
const PROJECTIONS: u64 = 4;
const QUEUES: u64 = 2;
const PARTITIONS: u64 = 5;
const MAX_ATTEMPTS: u32 = 3;
const LEASE_MS: i64 = 1_000_000_000; // effectively never expires within a run

#[derive(Debug, Clone, Copy, PartialEq, Eq)]
enum ModelJobState {
    Pending,
    Leased,
    RetryWait,
    Succeeded,
    Dead,
    Cancelled,
}

struct ModelJob {
    queue: String,
    state: ModelJobState,
    lease_token: Option<Id>,
    attempt: u32,
}

#[derive(Default)]
struct Model {
    streams: HashMap<String, u64>,
    events_total: u64,
    transactions: u64,
    projections: HashMap<String, ProjectionState>,
    jobs: BTreeMap<Id, ModelJob>,
    next_id: u128,
    now_ms: i64,
}

impl Model {
    fn fresh_id(&mut self) -> Id {
        self.next_id += 1;
        Id::from(self.next_id)
    }

    fn jobs_in(&self, state: ModelJobState) -> Vec<Id> {
        self.jobs
            .iter()
            .filter(|(_, j)| j.state == state)
            .map(|(id, _)| *id)
            .collect()
    }
}

fn expected_state(state: ModelJobState) -> JobState {
    match state {
        ModelJobState::Pending => JobState::Pending,
        ModelJobState::Leased => JobState::Leased,
        ModelJobState::RetryWait => JobState::RetryWait,
        ModelJobState::Succeeded => JobState::Succeeded,
        ModelJobState::Dead => JobState::Dead,
        ModelJobState::Cancelled => JobState::Cancelled,
    }
}

fn random_commit(store: &Db, model: &mut Model, rng: &mut Prng) {
    let mut batch = CommitBatch::new(model.fresh_id(), model.now_ms);
    let ops = 1 + rng.below(4);
    let mut staged_streams: HashMap<String, u64> = HashMap::new();
    let mut staged_projections: HashMap<String, ProjectionState> = HashMap::new();
    let mut staged_jobs: Vec<(Id, String)> = Vec::new();
    let mut staged_events = 0u64;
    for _ in 0..ops {
        match rng.below(3) {
            0 => {
                let stream = format!("s{}", rng.below(STREAMS));
                batch = batch.append_event(Event::with_json_payload(
                    model.fresh_id(),
                    &stream,
                    "evt",
                    model.now_ms,
                    b"{}".to_vec(),
                ));
                *staged_streams
                    .entry(stream.clone())
                    .or_insert_with(|| *model.streams.get(&stream).unwrap_or(&0)) += 1;
                staged_events += 1;
            }
            1 => {
                let name = format!("p{}", rng.below(PROJECTIONS));
                let (version, entries) = staged_projections
                    .entry(name.clone())
                    .or_insert_with(|| model.projections.get(&name).cloned().unwrap_or_default());
                let mut patch = ProjectionPatch::new(&name, *version);
                if rng.below(20) == 0 {
                    patch = patch.clear();
                    entries.clear();
                }
                let mut used: Vec<Vec<u8>> = Vec::new();
                for _ in 0..1 + rng.below(3) {
                    let key = format!("k{}", rng.below(12)).into_bytes();
                    if used.contains(&key) {
                        continue; // duplicate keys in one patch are rejected by design
                    }
                    used.push(key.clone());
                    if rng.below(4) == 0 {
                        patch = patch.delete(key.clone());
                        entries.remove(&key);
                    } else {
                        let value = format!("v{}", rng.next_u64()).into_bytes();
                        patch = patch.put(key.clone(), value.clone());
                        entries.insert(key, value);
                    }
                }
                *version += 1;
                batch = batch.apply_projection_patch(patch);
            }
            _ => {
                let job_id = model.fresh_id();
                let queue = format!("q{}", rng.below(QUEUES));
                batch = batch.enqueue_job(
                    JobSpec::intrinsically_idempotent(
                        job_id,
                        &queue,
                        &format!("part{}", rng.below(PARTITIONS)),
                        vec![rng.next_u64() as u8],
                    )
                    .with_max_attempts(MAX_ATTEMPTS),
                );
                staged_jobs.push((job_id, queue));
            }
        }
    }
    store.commit(&batch).unwrap();
    // The batch is atomic: fold all staged effects into the model at once.
    model.transactions += 1;
    model.events_total += staged_events;
    for (stream, version) in staged_streams {
        model.streams.insert(stream, version);
    }
    for (name, state) in staged_projections {
        model.projections.insert(name, state);
    }
    for (job_id, queue) in staged_jobs {
        model.jobs.insert(
            job_id,
            ModelJob {
                queue,
                state: ModelJobState::Pending,
                lease_token: None,
                attempt: 0,
            },
        );
    }
}

fn random_claim(store: &Db, model: &mut Model, rng: &mut Prng) {
    let queue = format!("q{}", rng.below(QUEUES));
    let outcome = store
        .claim_jobs(&ClaimRequest {
            queue: queue.clone(),
            worker_id: "prop-worker".into(),
            now_ms: model.now_ms,
            lease_ms: LEASE_MS,
            limit: 1 + rng.below(4) as usize,
            partition_key: None,
        })
        .unwrap();
    match outcome {
        ClaimOutcome::Noop => {}
        ClaimOutcome::MaintenanceCommitted(_) => {
            panic!("no lease can expire within this run (lease_ms={LEASE_MS})")
        }
        ClaimOutcome::Committed(claims) => {
            model.transactions += 1;
            for claimed in claims.into_jobs() {
                let job = model.jobs.get_mut(&claimed.job_id).unwrap_or_else(|| {
                    panic!("claimed unknown job {}", claimed.job_id.to_hex());
                });
                assert_eq!(
                    job.queue, queue,
                    "job {} claimed from wrong queue",
                    claimed.job_id.to_hex()
                );
                assert!(
                    matches!(job.state, ModelJobState::Pending | ModelJobState::RetryWait),
                    "job {} claimed while {:?}",
                    claimed.job_id.to_hex(),
                    job.state
                );
                assert_eq!(claimed.attempt, job.attempt + 1, "attempt counter skipped");
                job.state = ModelJobState::Leased;
                job.lease_token = Some(claimed.lease_token);
                job.attempt = claimed.attempt;
            }
        }
    }
}

fn random_job_transition(store: &Db, model: &mut Model, rng: &mut Prng) {
    let leased = model.jobs_in(ModelJobState::Leased);
    if leased.is_empty() {
        return;
    }
    let job_id = leased[rng.below(leased.len() as u64) as usize];
    let token = model.jobs[&job_id].lease_token.unwrap();
    let txn = model.fresh_id();
    match rng.below(3) {
        0 => {
            store
                .commit(&CommitBatch::new(txn, model.now_ms).acknowledge_job(job_id, token, None))
                .unwrap();
            model.jobs.get_mut(&job_id).unwrap().state = ModelJobState::Succeeded;
        }
        1 => {
            store
                .commit(&CommitBatch::new(txn, model.now_ms).fail_job(
                    job_id,
                    token,
                    "induced failure",
                    Some(model.now_ms + 1),
                ))
                .unwrap();
            let job = model.jobs.get_mut(&job_id).unwrap();
            job.state = if job.attempt >= MAX_ATTEMPTS {
                ModelJobState::Dead
            } else {
                ModelJobState::RetryWait
            };
            job.lease_token = None;
        }
        _ => {
            store
                .commit(&CommitBatch::new(txn, model.now_ms).cancel_job(job_id, Some(token)))
                .unwrap();
            let job = model.jobs.get_mut(&job_id).unwrap();
            job.state = ModelJobState::Cancelled;
            job.lease_token = None;
        }
    }
    model.transactions += 1;
}

fn verify_against_model(store: &Db, model: &Model) {
    // The rows of the store are consistent.
    assert!(ControlPlaneStore::load(store.rows()).is_ok());

    let inner = store.inner.borrow();
    assert_eq!(inner.events_after(0, usize::MAX).len() as u64, model.events_total);
    for i in 0..STREAMS {
        let stream = format!("s{i}");
        assert_eq!(
            inner.stream_version(&stream),
            *model.streams.get(&stream).unwrap_or(&0),
            "stream {stream} version"
        );
    }
    for i in 0..PROJECTIONS {
        let name = format!("p{i}");
        let (version, entries) = model.projections.get(&name).cloned().unwrap_or_default();
        assert_eq!(inner.projection_version(&name), version, "projection {name} version");
        let stored: Entries = inner
            .entry_rows()
            .iter()
            .filter(|e| e.projection == name)
            .map(|e| (e.key.clone(), e.value.clone()))
            .collect();
        assert_eq!(stored, entries, "projection {name} contents");
    }
    for (job_id, job) in &model.jobs {
        let info = inner.get_job(*job_id).unwrap();
        assert_eq!(
            info.state,
            expected_state(job.state),
            "job {} state (attempt {})",
            job_id.to_hex(),
            job.attempt
        );
        assert_eq!(info.attempt, job.attempt, "job {} attempt", job_id.to_hex());
    }
    assert_eq!(inner.transaction_rows().len() as u64, model.transactions);
    assert_eq!(inner.event_rows().len() as u64, model.events_total);
}

fn run_seed(seed: u64, steps: u64) {
    let store = Db::new();
    let mut rng = Prng::new(seed);
    let mut model = Model {
        now_ms: 1_000,
        ..Model::default()
    };
    for _ in 0..steps {
        model.now_ms += 1 + rng.below(10) as i64;
        match rng.below(10) {
            0..=5 => random_commit(&store, &mut model, &mut rng),
            6..=7 => random_claim(&store, &mut model, &mut rng),
            _ => random_job_transition(&store, &mut model, &mut rng),
        }
    }
    verify_against_model(&store, &model);
    // Everything must survive a close and reopen.
    let reopened = store.reopened();
    verify_against_model(&reopened, &model);
}

#[test]
fn random_ops_seed_1_match_model() {
    run_seed(0xA11CE, 400);
}

#[test]
fn random_ops_seed_2_match_model() {
    run_seed(0xB0B, 400);
}

#[test]
fn random_ops_seed_3_match_model() {
    run_seed(0xC0DE, 400);
}

/// Structure-aware random operations: drive random sequences of commits, claims, acknowledgements, failures, cancellations,
/// lease extensions, and uncertain resolutions against a fresh store. The
/// store must never panic, and its rows must stay consistent.
fn run_fuzz_ops(seed: u64, steps: u64) {
    let store = Db::new();
    let mut rng = Prng::new(seed);
    let mut next_id: u128 = 1;
    let mut leases: Vec<(Id, Id)> = Vec::new();
    let mut uncertain: Vec<Id> = Vec::new();

    let pick = |leases: &mut Vec<(Id, Id)>, rng: &mut Prng| -> Option<(Id, Id)> {
        if leases.is_empty() {
            return None;
        }
        let idx = rng.below(leases.len() as u64) as usize;
        Some(leases.swap_remove(idx))
    };

    for step in 0..steps {
        let now = 1_000 + step as i64;
        next_id += 1;
        let txn = Id::from(next_id);
        match rng.below(8) {
            0 => {
                next_id += 1;
                let event_id = Id::from(next_id);
                let stream = format!("s{}", rng.below(4));
                let _ = store.commit(
                    &CommitBatch::new(txn, now)
                        .append_event(Event::with_json_payload(event_id, &stream, "t", now, b"{}".to_vec())),
                );
            }
            1 => {
                next_id += 1;
                let job_id = Id::from(next_id);
                let queue = format!("q{}", rng.below(2));
                let part = format!("p{}", rng.below(4));
                let _ = store.commit(&CommitBatch::new(txn, now).enqueue_job(
                    JobSpec::reconcilable(job_id, &queue, &part, vec![rng.next_u64() as u8]),
                ));
            }
            2 => {
                let queue = format!("q{}", rng.below(2));
                if let Ok(ClaimOutcome::Committed(claims)) = store.claim_jobs(&ClaimRequest {
                    queue,
                    worker_id: "w".into(),
                    now_ms: now,
                    lease_ms: 1 + rng.below(256) as i64,
                    limit: 1 + rng.below(4) as usize,
                    partition_key: None,
                }) {
                    for job in claims.into_jobs() {
                        leases.push((job.job_id, job.lease_token));
                    }
                }
            }
            3 => {
                if let Some((job_id, token)) = pick(&mut leases, &mut rng) {
                    let _ = store
                        .commit(&CommitBatch::new(txn, now).acknowledge_job(job_id, token, None));
                }
            }
            4 => {
                if let Some((job_id, token)) = pick(&mut leases, &mut rng) {
                    let retry = if rng.below(2) == 0 {
                        Some(now + rng.below(256) as i64)
                    } else {
                        None
                    };
                    let _ = store
                        .commit(&CommitBatch::new(txn, now).fail_job(job_id, token, "e", retry));
                }
            }
            5 => {
                if let Some((job_id, token)) = pick(&mut leases, &mut rng) {
                    let _ = store.inner.borrow_mut().extend_lease(
                        job_id,
                        token,
                        now + rng.below(256) as i64,
                        now,
                    );
                    leases.push((job_id, token));
                }
            }
            6 => {
                let found = store.inner.borrow().list_jobs(None, Some(JobState::Uncertain), 4);
                for job in found {
                    uncertain.push(job.job_id);
                }
                if let Some(job_id) = uncertain.pop() {
                    let resolution = match rng.below(3) {
                        0 => Resolution::Retry,
                        1 => Resolution::MarkSucceeded,
                        _ => Resolution::MarkDead,
                    };
                    let _ = store.commit(
                        &CommitBatch::new(txn, now).resolve_uncertain_job(job_id, resolution),
                    );
                }
            }
            _ => {
                let projection = format!("proj{}", rng.below(2));
                let version = store.inner.borrow().projection_version(&projection);
                let _ = store.commit(&CommitBatch::new(txn, now).apply_projection_patch(
                    ProjectionPatch {
                        projection,
                        expected_version: version,
                        new_version: version + 1,
                        mutations: vec![ProjectionMutation::Put {
                            key: vec![rng.next_u64() as u8],
                            value: vec![rng.next_u64() as u8],
                        }],
                    },
                ));
            }
        }
    }

    assert!(ControlPlaneStore::load(store.rows()).is_ok());
}

#[test]
fn fuzz_ops_property_seed_1() {
    run_fuzz_ops(0xF00D, 600);
}

#[test]
fn fuzz_ops_property_seed_2() {
    run_fuzz_ops(0xFEED, 600);
}
