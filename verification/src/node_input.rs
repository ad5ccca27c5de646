//! What callers of the Node binding hand in, and the commit batch it builds.
//!
//! Identifiers are texts of 32 lower-case hexadecimal digits. Where one may be
//! omitted, the next of a list of fresh identifiers takes its place.
use vstd::prelude::*;

use crate::batch::{
    empty_batch, empty_patch, expecting, mutated, operating, BatchView, CommitBatch, Event,
    EventView, MutationView, OperationView, PatchView, ProjectionPatch,
};
use crate::id::Id;
use crate::jobs::{
    ClaimRequest, ClaimRequestView, JobAckView, JobCancellation, JobFailureView, JobResolution,
    JobSpec, JobSpecView, DEFAULT_MAX_ATTEMPTS,
};
use crate::node_error::{
    debug_text, err, js, parse_id, parse_resolution, parsed_id, parsed_resolution,
    unknown_effect_mode, JsError, JsErrorView,
};
use crate::state::EffectMode;
use crate::text::same_text;
use crate::values::{copy_bytes, copy_opt_bytes, opt_bytes, opt_text};

verus! {

/// The version that a stream must have.
#[derive(PartialEq, Eq, Debug)]
pub struct ExpectedStreamVersionInput {
    pub stream_id: String,
    pub version: i64,
}

/// An event to append. Its identifier is generated when omitted.
#[derive(PartialEq, Eq, Debug)]
pub struct EventInput {
    pub event_id: Option<String>,
    pub stream_id: String,
    pub event_type: String,
    pub occurred_at_ms: i64,
    pub payload: Option<Vec<u8>>,
}

/// An entry to put into a projection.
#[derive(PartialEq, Eq, Debug)]
pub struct ProjectionPutInput {
    pub key: Vec<u8>,
    pub value: Vec<u8>,
}

/// A patch of a projection.
#[derive(PartialEq, Eq, Debug)]
pub struct ProjectionPatchInput {
    pub projection: String,
    pub expected_version: i64,
    pub puts: Option<Vec<ProjectionPutInput>>,
    pub deletes: Option<Vec<Vec<u8>>>,
}

/// A job to enqueue. Its identifier is generated when omitted. The effect mode
/// is "reconcilable" (default) or "idempotent" (requires an idempotency key).
#[derive(PartialEq, Eq, Debug)]
pub struct JobSpecInput {
    pub job_id: Option<String>,
    pub queue: String,
    pub partition_key: String,
    pub payload: Vec<u8>,
    pub effect_mode: Option<String>,
    pub idempotency_key: Option<String>,
    pub not_before_ms: Option<i64>,
    pub max_attempts: Option<u32>,
}

/// The acknowledgement of a leased job.
#[derive(PartialEq, Eq, Debug)]
pub struct JobAckInput {
    pub job_id: String,
    pub lease_token: String,
    pub result_digest: Option<Vec<u8>>,
}

/// The failure of a leased job. `retry_after_ms` is the delay before the job
/// becomes claimable again; the default of the store when omitted.
#[derive(PartialEq, Eq, Debug)]
pub struct JobFailureInput {
    pub job_id: String,
    pub lease_token: String,
    pub error_summary: Option<String>,
    pub retry_after_ms: Option<i64>,
}

/// The cancellation of a job. The token is required for a leased job.
#[derive(PartialEq, Eq, Debug)]
pub struct JobCancellationInput {
    pub job_id: String,
    pub lease_token: Option<String>,
}

/// The resolution of an uncertain job: "retry", "markSucceeded" or "markDead".
#[derive(PartialEq, Eq, Debug)]
pub struct JobResolutionInput {
    pub job_id: String,
    pub resolution: String,
}

/// A batch to commit. Its transaction identifier is generated when omitted;
/// supply one to be able to recover an indeterminate commit.
#[derive(PartialEq, Eq, Debug)]
pub struct CommitBatchInput {
    pub transaction_id: Option<String>,
    pub committed_at_ms: i64,
    pub expected_stream_versions: Option<Vec<ExpectedStreamVersionInput>>,
    pub events: Option<Vec<EventInput>>,
    pub projection_patches: Option<Vec<ProjectionPatchInput>>,
    pub enqueue_jobs: Option<Vec<JobSpecInput>>,
    pub ack_jobs: Option<Vec<JobAckInput>>,
    pub fail_jobs: Option<Vec<JobFailureInput>>,
    pub cancel_jobs: Option<Vec<JobCancellationInput>>,
    pub resolve_uncertain_jobs: Option<Vec<JobResolutionInput>>,
}

/// A claim for ready jobs of one queue or, with a partition key, of one of its
/// partitions.
#[derive(PartialEq, Eq, Debug)]
pub struct ClaimRequestInput {
    pub queue: String,
    pub worker_id: String,
    pub now_ms: i64,
    pub lease_ms: i64,
    pub limit: u32,
    pub partition_key: Option<String>,
}

/// The elements of an optional list, none where it is omitted.
pub open spec fn listed_items<A>(o: Option<Vec<A>>) -> Seq<A> {
    match o {
        Some(v) => v@,
        None => Seq::empty(),
    }
}

fn items<A>(o: Option<Vec<A>>) -> (v: Vec<A>)
    ensures
        v@ == listed_items(o),
{
    match o {
        Some(v) => v,
        None => Vec::new(),
    }
}

/// A batch under construction, and how many fresh identifiers it has used.
pub type Building = Result<(BatchView, nat), JsErrorView>;

/// The error when no fresh identifier is left.
pub open spec fn no_fresh_id() -> JsErrorView {
    js("Storage"@, "no fresh identifier could be drawn"@)
}

/// The identifier that is given or, where it is omitted, the next fresh one,
/// with the number of fresh ones used then.
pub open spec fn id_or_fresh(
    field: Seq<char>,
    given: Option<Seq<char>>,
    fresh: Seq<Id>,
    used: nat,
) -> Result<(Id, nat), JsErrorView> {
    match given {
        Some(hex) => match parsed_id(field, hex) {
            Ok(id) => Ok((id, used)),
            Err(e) => Err(e),
        },
        None => if used < fresh.len() {
            Ok((fresh[used as int], used + 1))
        } else {
            Err(no_fresh_id())
        },
    }
}

/// The batch with the expectations.
pub open spec fn with_expectations(b: BatchView, s: Seq<ExpectedStreamVersionInput>) -> BatchView
    decreases s.len(),
{
    if s.len() == 0 {
        b
    } else {
        expecting(
            with_expectations(b, s.drop_last()),
            s.last().stream_id@,
            s.last().version as u64,
        )
    }
}

/// The event of an input.
pub open spec fn event_of(e: EventInput, event_id: Id) -> EventView {
    EventView {
        event_id,
        stream_id: e.stream_id@,
        event_type: e.event_type@,
        occurred_at_ms: e.occurred_at_ms,
        payload: match e.payload {
            Some(p) => p@,
            None => Seq::empty(),
        },
    }
}

/// The batch with one more event.
pub open spec fn with_event(b: BatchView, used: nat, fresh: Seq<Id>, e: EventInput) -> Building {
    match id_or_fresh("eventId"@, opt_text(e.event_id), fresh, used) {
        Ok((event_id, n)) => Ok(
            (operating(b, OperationView::AppendEvent(event_of(e, event_id))), n),
        ),
        Err(x) => Err(x),
    }
}

/// The batch with the events.
pub open spec fn with_events(b: BatchView, used: nat, fresh: Seq<Id>, s: Seq<EventInput>) -> Building
    decreases s.len(),
{
    if s.len() == 0 {
        Ok((b, used))
    } else {
        match with_events(b, used, fresh, s.drop_last()) {
            Ok((mid, n)) => with_event(mid, n, fresh, s.last()),
            Err(x) => Err(x),
        }
    }
}

/// The patch with the puts.
pub open spec fn with_puts(p: PatchView, s: Seq<ProjectionPutInput>) -> PatchView
    decreases s.len(),
{
    if s.len() == 0 {
        p
    } else {
        mutated(
            with_puts(p, s.drop_last()),
            MutationView::Put { key: s.last().key@, value: s.last().value@ },
        )
    }
}

/// The patch with the deletes.
pub open spec fn with_deletes(p: PatchView, s: Seq<Vec<u8>>) -> PatchView
    decreases s.len(),
{
    if s.len() == 0 {
        p
    } else {
        mutated(with_deletes(p, s.drop_last()), MutationView::Delete { key: s.last()@ })
    }
}

/// The patch of an input: its puts, and behind them its deletes.
pub open spec fn patch_of(p: ProjectionPatchInput) -> PatchView {
    with_deletes(
        with_puts(
            empty_patch(p.projection@, p.expected_version as u64),
            listed_items(p.puts),
        ),
        listed_items(p.deletes),
    )
}

/// The batch with the patches.
pub open spec fn with_patches(b: BatchView, s: Seq<ProjectionPatchInput>) -> BatchView
    decreases s.len(),
{
    if s.len() == 0 {
        b
    } else {
        operating(
            with_patches(b, s.drop_last()),
            OperationView::ApplyProjectionPatch(patch_of(s.last())),
        )
    }
}

/// The effect mode and idempotency key of an input.
pub open spec fn effect_of(j: JobSpecInput) -> Result<
    (EffectMode, Option<Seq<char>>),
    JsErrorView,
> {
    match opt_text(j.effect_mode) {
        None => Ok((EffectMode::RequiresReconciliation, None)),
        Some(mode) => if mode == "reconcilable"@ {
            Ok((EffectMode::RequiresReconciliation, None))
        } else if mode == "idempotent"@ {
            match opt_text(j.idempotency_key) {
                Some(key) => Ok((EffectMode::ExplicitlyIdempotent, Some(key))),
                None => Err(js("Validation"@, "effect mode idempotent requires idempotencyKey"@)),
            }
        } else {
            Err(js("Validation"@, "unknown effect mode "@ + debug_text(mode)))
        },
    }
}

/// The job specification of an input.
pub open spec fn spec_of(j: JobSpecInput, job_id: Id) -> Result<JobSpecView, JsErrorView> {
    match effect_of(j) {
        Ok((effect_mode, idempotency_key)) => Ok(
            JobSpecView {
                job_id,
                queue: j.queue@,
                partition_key: j.partition_key@,
                payload: j.payload@,
                not_before_ms: match j.not_before_ms {
                    Some(ms) => ms,
                    None => 0,
                },
                max_attempts: match j.max_attempts {
                    Some(n) => n,
                    None => DEFAULT_MAX_ATTEMPTS,
                },
                effect_mode,
                idempotency_key,
            },
        ),
        Err(e) => Err(e),
    }
}

/// The batch with one more job.
pub open spec fn with_job_input(b: BatchView, used: nat, fresh: Seq<Id>, j: JobSpecInput) -> Building {
    match id_or_fresh("jobId"@, opt_text(j.job_id), fresh, used) {
        Ok((job_id, n)) => match spec_of(j, job_id) {
            Ok(spec) => Ok((operating(b, OperationView::EnqueueJob(spec)), n)),
            Err(e) => Err(e),
        },
        Err(e) => Err(e),
    }
}

/// The batch with the jobs.
pub open spec fn with_jobs(b: BatchView, used: nat, fresh: Seq<Id>, s: Seq<JobSpecInput>) -> Building
    decreases s.len(),
{
    if s.len() == 0 {
        Ok((b, used))
    } else {
        match with_jobs(b, used, fresh, s.drop_last()) {
            Ok((mid, n)) => with_job_input(mid, n, fresh, s.last()),
            Err(e) => Err(e),
        }
    }
}

/// The acknowledgement of an input.
pub open spec fn ack_of(a: JobAckInput) -> Result<OperationView, JsErrorView> {
    match (parsed_id("jobId"@, a.job_id@), parsed_id("leaseToken"@, a.lease_token@)) {
        (Err(e), _) => Err(e),
        (_, Err(e)) => Err(e),
        (Ok(job_id), Ok(lease_token)) => Ok(
            OperationView::AcknowledgeJob(
                JobAckView { job_id, lease_token, result_digest: opt_bytes(a.result_digest) },
            ),
        ),
    }
}

/// The failure of an input. The delay counts from the time of the commit.
pub open spec fn failure_of(f: JobFailureInput, committed_at_ms: i64) -> Result<
    OperationView,
    JsErrorView,
> {
    match (parsed_id("jobId"@, f.job_id@), parsed_id("leaseToken"@, f.lease_token@)) {
        (Err(e), _) => Err(e),
        (_, Err(e)) => Err(e),
        (Ok(job_id), Ok(lease_token)) => if f.retry_after_ms matches Some(ms) && !(i64::MIN
            <= committed_at_ms + ms <= i64::MAX) {
            Err(js("Validation"@, "retryAfterMs overflows the retry timestamp"@))
        } else {
            Ok(
                OperationView::FailJob(
                    JobFailureView {
                        job_id,
                        lease_token,
                        error_summary: match f.error_summary {
                            Some(s) => s@,
                            None => Seq::empty(),
                        },
                        retry_after_ms: match f.retry_after_ms {
                            Some(ms) => Some((committed_at_ms + ms) as i64),
                            None => None,
                        },
                    },
                ),
            )
        },
    }
}

/// The cancellation of an input.
pub open spec fn cancellation_of(c: JobCancellationInput) -> Result<OperationView, JsErrorView> {
    let token: Result<Option<Id>, JsErrorView> = match opt_text(c.lease_token) {
        Some(hex) => match parsed_id("leaseToken"@, hex) {
            Ok(id) => Ok(Some(id)),
            Err(e) => Err(e),
        },
        None => Ok(None),
    };
    match (token, parsed_id("jobId"@, c.job_id@)) {
        (Err(e), _) => Err(e),
        (_, Err(e)) => Err(e),
        (Ok(lease_token), Ok(job_id)) => Ok(
            OperationView::CancelJob(JobCancellation { job_id, lease_token }),
        ),
    }
}

/// The resolution of an input.
pub open spec fn resolution_of(r: JobResolutionInput) -> Result<OperationView, JsErrorView> {
    match (parsed_id("jobId"@, r.job_id@), parsed_resolution(r.resolution@)) {
        (Err(e), _) => Err(e),
        (_, Err(e)) => Err(e),
        (Ok(job_id), Ok(resolution)) => Ok(
            OperationView::ResolveUncertainJob(JobResolution { job_id, resolution }),
        ),
    }
}

/// The batch with the operations that a series of results holds, unless one of
/// them is an error: the first decides.
pub open spec fn with_all(
    b: Result<BatchView, JsErrorView>,
    s: Seq<Result<OperationView, JsErrorView>>,
) -> Result<BatchView, JsErrorView>
    decreases s.len(),
{
    if s.len() == 0 {
        b
    } else {
        match with_all(b, s.drop_last()) {
            Ok(mid) => match s.last() {
                Ok(o) => Ok(operating(mid, o)),
                Err(e) => Err(e),
            },
            Err(e) => Err(e),
        }
    }
}

/// The acknowledgements of inputs.
pub open spec fn acks_of(s: Seq<JobAckInput>) -> Seq<Result<OperationView, JsErrorView>> {
    s.map_values(|a: JobAckInput| ack_of(a))
}

/// The failures of inputs.
pub open spec fn failures_of(s: Seq<JobFailureInput>, committed_at_ms: i64) -> Seq<
    Result<OperationView, JsErrorView>,
> {
    s.map_values(|f: JobFailureInput| failure_of(f, committed_at_ms))
}

/// The cancellations of inputs.
pub open spec fn cancellations_of(s: Seq<JobCancellationInput>) -> Seq<
    Result<OperationView, JsErrorView>,
> {
    s.map_values(|c: JobCancellationInput| cancellation_of(c))
}

/// The resolutions of inputs.
pub open spec fn resolutions_of(s: Seq<JobResolutionInput>) -> Seq<
    Result<OperationView, JsErrorView>,
> {
    s.map_values(|r: JobResolutionInput| resolution_of(r))
}

/// The batch that an input builds: first the expectations, the events, the
/// patches and the jobs to enqueue, and behind them the acknowledgements,
/// failures, cancellations and resolutions. The first part that cannot be
/// built is the error.
pub open spec fn built(input: CommitBatchInput, fresh: Seq<Id>) -> Result<BatchView, JsErrorView> {
    match id_or_fresh("transactionId"@, opt_text(input.transaction_id), fresh, 0) {
        Err(e) => Err(e),
        Ok((transaction_id, n0)) => {
            let begun = with_expectations(
                empty_batch(transaction_id, input.committed_at_ms),
                listed_items(input.expected_stream_versions),
            );
            match with_events(begun, n0, fresh, listed_items(input.events)) {
                Err(e) => Err(e),
                Ok((evented, n1)) => {
                    let patched = with_patches(evented, listed_items(input.projection_patches));
                    match with_jobs(patched, n1, fresh, listed_items(input.enqueue_jobs)) {
                        Err(e) => Err(e),
                        Ok((enqueued, _)) => {
                            let acked = with_all(
                                Ok(enqueued),
                                acks_of(listed_items(input.ack_jobs)),
                            );
                            let failed = with_all(
                                acked,
                                failures_of(listed_items(input.fail_jobs), input.committed_at_ms),
                            );
                            let cancelled = with_all(
                                failed,
                                cancellations_of(listed_items(input.cancel_jobs)),
                            );
                            with_all(
                                cancelled,
                                resolutions_of(listed_items(input.resolve_uncertain_jobs)),
                            )
                        },
                    }
                },
            }
        },
    }
}

/// The claim request of an input.
pub open spec fn claim_of(input: ClaimRequestInput) -> ClaimRequestView {
    ClaimRequestView {
        queue: input.queue@,
        worker_id: input.worker_id@,
        now_ms: input.now_ms,
        lease_ms: input.lease_ms,
        limit: input.limit as nat,
        partition_key: opt_text(input.partition_key),
    }
}

/// The claim request of an input.
pub fn claim_request(input: ClaimRequestInput) -> (r: ClaimRequest)
    ensures
        r@ == claim_of(input),
{
    ClaimRequest {
        queue: input.queue,
        worker_id: input.worker_id,
        now_ms: input.now_ms,
        lease_ms: input.lease_ms,
        limit: input.limit as usize,
        partition_key: input.partition_key,
    }
}

/// Takes the identifier that is given or the next fresh one.
fn take_id(field: &str, given: &Option<String>, fresh: &Vec<Id>, used: usize) -> (r: Result<
    (Id, usize),
    JsError,
>)
    requires
        used <= fresh@.len(),
    ensures
        match r {
            Ok((id, n)) => n <= fresh@.len() && id_or_fresh(
                field@,
                opt_text(*given),
                fresh@,
                used as nat,
            ) == Ok::<(Id, nat), JsErrorView>((id, n as nat)),
            Err(e) => id_or_fresh(field@, opt_text(*given), fresh@, used as nat) == Err::<
                (Id, nat),
                JsErrorView,
            >(e@),
        },
{
    match given {
        Some(hex) => match parse_id(field, hex.as_str()) {
            Ok(id) => Ok((id, used)),
            Err(e) => Err(e),
        },
        None => if used < fresh.len() {
            Ok((fresh[used], used + 1))
        } else {
            Err(err("Storage", "no fresh identifier could be drawn".to_owned()))
        },
    }
}

fn add_expectations(batch: CommitBatch, list: &Vec<ExpectedStreamVersionInput>) -> (r: CommitBatch)
    ensures
        r@ == with_expectations(batch@, list@),
{
    let ghost start = batch@;
    let mut b = batch;
    let mut i: usize = 0;
    assert(list@.take(0) =~= Seq::<ExpectedStreamVersionInput>::empty());
    while i < list.len()
        invariant
            i <= list@.len(),
            b@ == with_expectations(start, list@.take(i as int)),
        decreases list@.len() - i,
    {
        assert(list@.take(i + 1).drop_last() =~= list@.take(i as int));
        b = b.expect_stream_version(list[i].stream_id.as_str(), list[i].version as u64);
        i += 1;
    }
    assert(list@.take(i as int) =~= list@);
    b
}

/// An earlier error decides for all events.
proof fn lemma_events_stop(b: BatchView, used: nat, fresh: Seq<Id>, s: Seq<EventInput>, i: int)
    requires
        0 <= i <= s.len(),
        with_events(b, used, fresh, s.take(i)) is Err,
    ensures
        with_events(b, used, fresh, s) == with_events(b, used, fresh, s.take(i)),
    decreases s.len(),
{
    if i == s.len() {
        assert(s.take(i) =~= s);
    } else {
        assert(s.drop_last().take(i) =~= s.take(i));
        lemma_events_stop(b, used, fresh, s.drop_last(), i);
    }
}

fn add_events(batch: CommitBatch, used: usize, fresh: &Vec<Id>, list: &Vec<EventInput>) -> (r:
    Result<(CommitBatch, usize), JsError>)
    requires
        used <= fresh@.len(),
    ensures
        match r {
            Ok((b, n)) => n <= fresh@.len() && with_events(batch@, used as nat, fresh@, list@)
                == Ok::<(BatchView, nat), JsErrorView>((b@, n as nat)),
            Err(e) => with_events(batch@, used as nat, fresh@, list@) == Err::<
                (BatchView, nat),
                JsErrorView,
            >(e@),
        },
{
    let ghost start = batch@;
    let mut b = batch;
    let mut n: usize = used;
    let mut i: usize = 0;
    assert(list@.take(0) =~= Seq::<EventInput>::empty());
    while i < list.len()
        invariant
            i <= list@.len(),
            n <= fresh@.len(),
            start == batch@,
            with_events(start, used as nat, fresh@, list@.take(i as int)) == Ok::<
                (BatchView, nat),
                JsErrorView,
            >((b@, n as nat)),
        decreases list@.len() - i,
    {
        let e = &list[i];
        assert(list@.take(i + 1).drop_last() =~= list@.take(i as int));
        assert(list@.take(i + 1).last() == *e);
        match take_id("eventId", &e.event_id, fresh, n) {
            Ok((event_id, next)) => {
                let payload = match &e.payload {
                    Some(p) => copy_bytes(p),
                    None => Vec::new(),
                };
                let event = Event::with_json_payload(
                    event_id,
                    e.stream_id.as_str(),
                    e.event_type.as_str(),
                    e.occurred_at_ms,
                    payload,
                );
                assert(event@ =~= event_of(*e, event_id));
                b = b.append_event(event);
                n = next;
            }
            Err(x) => {
                proof {
                    lemma_events_stop(start, used as nat, fresh@, list@, i + 1);
                }
                return Err(x);
            }
        }
        i += 1;
    }
    assert(list@.take(i as int) =~= list@);
    Ok((b, n))
}

fn projection_patch(input: &ProjectionPatchInput) -> (r: ProjectionPatch)
    ensures
        r@ == patch_of(*input),
{
    let mut p = ProjectionPatch::new(input.projection.as_str(), input.expected_version as u64);
    if let Some(puts) = &input.puts {
        let ghost start = p@;
        let mut i: usize = 0;
        assert(puts@.take(0) =~= Seq::<ProjectionPutInput>::empty());
        while i < puts.len()
            invariant
                i <= puts@.len(),
                p@ == with_puts(start, puts@.take(i as int)),
            decreases puts@.len() - i,
        {
            assert(puts@.take(i + 1).drop_last() =~= puts@.take(i as int));
            p = p.put(copy_bytes(&puts[i].key), copy_bytes(&puts[i].value));
            i += 1;
        }
        assert(puts@.take(i as int) =~= puts@);
    }
    if let Some(deletes) = &input.deletes {
        let ghost start = p@;
        let mut i: usize = 0;
        assert(deletes@.take(0) =~= Seq::<Vec<u8>>::empty());
        while i < deletes.len()
            invariant
                i <= deletes@.len(),
                p@ == with_deletes(start, deletes@.take(i as int)),
            decreases deletes@.len() - i,
        {
            assert(deletes@.take(i + 1).drop_last() =~= deletes@.take(i as int));
            p = p.delete(copy_bytes(&deletes[i]));
            i += 1;
        }
        assert(deletes@.take(i as int) =~= deletes@);
    }
    p
}

fn add_patches(batch: CommitBatch, list: &Vec<ProjectionPatchInput>) -> (r: CommitBatch)
    ensures
        r@ == with_patches(batch@, list@),
{
    let ghost start = batch@;
    let mut b = batch;
    let mut i: usize = 0;
    assert(list@.take(0) =~= Seq::<ProjectionPatchInput>::empty());
    while i < list.len()
        invariant
            i <= list@.len(),
            b@ == with_patches(start, list@.take(i as int)),
        decreases list@.len() - i,
    {
        assert(list@.take(i + 1).drop_last() =~= list@.take(i as int));
        b = b.apply_projection_patch(projection_patch(&list[i]));
        i += 1;
    }
    assert(list@.take(i as int) =~= list@);
    b
}

fn job_spec(j: &JobSpecInput, job_id: Id) -> (r: Result<JobSpec, JsError>)
    ensures
        match r {
            Ok(spec) => spec_of(*j, job_id) == Ok::<JobSpecView, JsErrorView>(spec@),
            Err(e) => spec_of(*j, job_id) == Err::<JobSpecView, JsErrorView>(e@),
        },
{
    let payload = copy_bytes(&j.payload);
    let mut idempotent = false;
    if let Some(mode) = &j.effect_mode {
        if same_text(mode.as_str(), "reconcilable") {
        } else if same_text(mode.as_str(), "idempotent") {
            proof {
                reveal_strlit("reconcilable");
                reveal_strlit("idempotent");
                assert("reconcilable"@.len() == 12 && "idempotent"@.len() == 10);
            }
            idempotent = true;
        } else {
            return Err(unknown_effect_mode(mode.as_str()));
        }
    }
    let mut spec = if idempotent {
        match &j.idempotency_key {
            Some(key) => JobSpec::idempotent(
                job_id,
                j.queue.as_str(),
                j.partition_key.as_str(),
                payload,
                key.as_str(),
            ),
            None => {
                return Err(
                    err(
                        "Validation",
                        "effect mode idempotent requires idempotencyKey".to_owned(),
                    ),
                );
            }
        }
    } else {
        JobSpec::reconcilable(job_id, j.queue.as_str(), j.partition_key.as_str(), payload)
    };
    if let Some(ms) = j.not_before_ms {
        spec = spec.with_not_before_ms(ms);
    }
    if let Some(n) = j.max_attempts {
        spec = spec.with_max_attempts(n);
    }
    assert(spec@ =~= spec_of(*j, job_id)->Ok_0);
    Ok(spec)
}

/// An earlier error decides for all jobs.
proof fn lemma_jobs_stop(b: BatchView, used: nat, fresh: Seq<Id>, s: Seq<JobSpecInput>, i: int)
    requires
        0 <= i <= s.len(),
        with_jobs(b, used, fresh, s.take(i)) is Err,
    ensures
        with_jobs(b, used, fresh, s) == with_jobs(b, used, fresh, s.take(i)),
    decreases s.len(),
{
    if i == s.len() {
        assert(s.take(i) =~= s);
    } else {
        assert(s.drop_last().take(i) =~= s.take(i));
        lemma_jobs_stop(b, used, fresh, s.drop_last(), i);
    }
}

fn add_jobs(batch: CommitBatch, used: usize, fresh: &Vec<Id>, list: &Vec<JobSpecInput>) -> (r:
    Result<(CommitBatch, usize), JsError>)
    requires
        used <= fresh@.len(),
    ensures
        match r {
            Ok((b, n)) => n <= fresh@.len() && with_jobs(batch@, used as nat, fresh@, list@)
                == Ok::<(BatchView, nat), JsErrorView>((b@, n as nat)),
            Err(e) => with_jobs(batch@, used as nat, fresh@, list@) == Err::<
                (BatchView, nat),
                JsErrorView,
            >(e@),
        },
{
    let ghost start = batch@;
    let mut b = batch;
    let mut n: usize = used;
    let mut i: usize = 0;
    assert(list@.take(0) =~= Seq::<JobSpecInput>::empty());
    while i < list.len()
        invariant
            i <= list@.len(),
            n <= fresh@.len(),
            start == batch@,
            with_jobs(start, used as nat, fresh@, list@.take(i as int)) == Ok::<
                (BatchView, nat),
                JsErrorView,
            >((b@, n as nat)),
        decreases list@.len() - i,
    {
        let j = &list[i];
        assert(list@.take(i + 1).drop_last() =~= list@.take(i as int));
        assert(list@.take(i + 1).last() == *j);
        let (job_id, next) = match take_id("jobId", &j.job_id, fresh, n) {
            Ok(taken) => taken,
            Err(x) => {
                proof {
                    lemma_jobs_stop(start, used as nat, fresh@, list@, i + 1);
                }
                return Err(x);
            }
        };
        match job_spec(j, job_id) {
            Ok(spec) => {
                b = b.enqueue_job(spec);
                n = next;
            }
            Err(x) => {
                proof {
                    lemma_jobs_stop(start, used as nat, fresh@, list@, i + 1);
                }
                return Err(x);
            }
        }
        i += 1;
    }
    assert(list@.take(i as int) =~= list@);
    Ok((b, n))
}

/// An earlier error decides for all operations.
proof fn lemma_all_stop(
    b: Result<BatchView, JsErrorView>,
    s: Seq<Result<OperationView, JsErrorView>>,
    i: int,
)
    requires
        0 <= i <= s.len(),
        with_all(b, s.take(i)) is Err,
    ensures
        with_all(b, s) == with_all(b, s.take(i)),
    decreases s.len(),
{
    if i == s.len() {
        assert(s.take(i) =~= s);
    } else {
        assert(s.drop_last().take(i) =~= s.take(i));
        lemma_all_stop(b, s.drop_last(), i);
    }
}

/// A batch that is an error stays one.
pub proof fn lemma_all_err(b: Result<BatchView, JsErrorView>, s: Seq<Result<OperationView, JsErrorView>>)
    requires
        b is Err,
    ensures
        with_all(b, s) == b,
    decreases s.len(),
{
    if s.len() > 0 {
        lemma_all_err(b, s.drop_last());
    }
}

fn add_acks(batch: CommitBatch, list: &Vec<JobAckInput>) -> (r: Result<CommitBatch, JsError>)
    ensures
        match r {
            Ok(b) => with_all(Ok(batch@), acks_of(list@)) == Ok::<BatchView, JsErrorView>(b@),
            Err(e) => with_all(Ok(batch@), acks_of(list@)) == Err::<BatchView, JsErrorView>(e@),
        },
{
    let ghost start: Result<BatchView, JsErrorView> = Ok(batch@);
    let ghost all = acks_of(list@);
    let mut b = batch;
    let mut i: usize = 0;
    assert(all.take(0) =~= Seq::<Result<OperationView, JsErrorView>>::empty());
    while i < list.len()
        invariant
            i <= list@.len(),
            all == acks_of(list@),
            start == Ok::<BatchView, JsErrorView>(batch@),
            with_all(start, all.take(i as int)) == Ok::<BatchView, JsErrorView>(b@),
        decreases list@.len() - i,
    {
        let a = &list[i];
        proof {
            assert(all.take(i + 1).drop_last() =~= all.take(i as int));
            assert(all.take(i + 1).last() == ack_of(*a));
            if ack_of(*a) is Err {
                lemma_all_stop(start, all, i + 1);
            }
        }
        let job_id = match parse_id("jobId", a.job_id.as_str()) {
            Ok(id) => id,
            Err(e) => return Err(e),
        };
        let lease_token = match parse_id("leaseToken", a.lease_token.as_str()) {
            Ok(id) => id,
            Err(e) => return Err(e),
        };
        b = b.acknowledge_job(job_id, lease_token, copy_opt_bytes(&a.result_digest));
        i += 1;
    }
    assert(all.take(i as int) =~= all);
    Ok(b)
}

fn add_failures(batch: CommitBatch, list: &Vec<JobFailureInput>, committed_at_ms: i64) -> (r: Result<
    CommitBatch,
    JsError,
>)
    ensures
        match r {
            Ok(b) => with_all(Ok(batch@), failures_of(list@, committed_at_ms)) == Ok::<
                BatchView,
                JsErrorView,
            >(b@),
            Err(e) => with_all(Ok(batch@), failures_of(list@, committed_at_ms)) == Err::<
                BatchView,
                JsErrorView,
            >(e@),
        },
{
    let ghost start: Result<BatchView, JsErrorView> = Ok(batch@);
    let ghost all = failures_of(list@, committed_at_ms);
    let mut b = batch;
    let mut i: usize = 0;
    assert(all.take(0) =~= Seq::<Result<OperationView, JsErrorView>>::empty());
    while i < list.len()
        invariant
            i <= list@.len(),
            all == failures_of(list@, committed_at_ms),
            start == Ok::<BatchView, JsErrorView>(batch@),
            with_all(start, all.take(i as int)) == Ok::<BatchView, JsErrorView>(b@),
        decreases list@.len() - i,
    {
        let f = &list[i];
        proof {
            assert(all.take(i + 1).drop_last() =~= all.take(i as int));
            assert(all.take(i + 1).last() == failure_of(*f, committed_at_ms));
            if failure_of(*f, committed_at_ms) is Err {
                lemma_all_stop(start, all, i + 1);
            }
        }
        let job_id = match parse_id("jobId", f.job_id.as_str()) {
            Ok(id) => id,
            Err(e) => return Err(e),
        };
        let lease_token = match parse_id("leaseToken", f.lease_token.as_str()) {
            Ok(id) => id,
            Err(e) => return Err(e),
        };
        let retry_after_ms = match f.retry_after_ms {
            Some(delay) => match committed_at_ms.checked_add(delay) {
                Some(ms) => Some(ms),
                None => {
                    return Err(
                        err("Validation", "retryAfterMs overflows the retry timestamp".to_owned()),
                    );
                }
            },
            None => None,
        };
        let error_summary = match &f.error_summary {
            Some(s) => s.clone(),
            None => {
                let empty = "".to_owned();
                proof {
                    reveal_strlit("");
                    assert(empty@ =~= Seq::<char>::empty());
                }
                empty
            }
        };
        b = b.fail_job(job_id, lease_token, error_summary.as_str(), retry_after_ms);
        i += 1;
    }
    assert(all.take(i as int) =~= all);
    Ok(b)
}

fn add_cancellations(batch: CommitBatch, list: &Vec<JobCancellationInput>) -> (r: Result<
    CommitBatch,
    JsError,
>)
    ensures
        match r {
            Ok(b) => with_all(Ok(batch@), cancellations_of(list@)) == Ok::<BatchView, JsErrorView>(
                b@,
            ),
            Err(e) => with_all(Ok(batch@), cancellations_of(list@)) == Err::<
                BatchView,
                JsErrorView,
            >(e@),
        },
{
    let ghost start: Result<BatchView, JsErrorView> = Ok(batch@);
    let ghost all = cancellations_of(list@);
    let mut b = batch;
    let mut i: usize = 0;
    assert(all.take(0) =~= Seq::<Result<OperationView, JsErrorView>>::empty());
    while i < list.len()
        invariant
            i <= list@.len(),
            all == cancellations_of(list@),
            start == Ok::<BatchView, JsErrorView>(batch@),
            with_all(start, all.take(i as int)) == Ok::<BatchView, JsErrorView>(b@),
        decreases list@.len() - i,
    {
        let c = &list[i];
        proof {
            assert(all.take(i + 1).drop_last() =~= all.take(i as int));
            assert(all.take(i + 1).last() == cancellation_of(*c));
            if cancellation_of(*c) is Err {
                lemma_all_stop(start, all, i + 1);
            }
        }
        let lease_token = match &c.lease_token {
            Some(hex) => match parse_id("leaseToken", hex.as_str()) {
                Ok(id) => Some(id),
                Err(e) => return Err(e),
            },
            None => None,
        };
        let job_id = match parse_id("jobId", c.job_id.as_str()) {
            Ok(id) => id,
            Err(e) => return Err(e),
        };
        b = b.cancel_job(job_id, lease_token);
        i += 1;
    }
    assert(all.take(i as int) =~= all);
    Ok(b)
}

fn add_resolutions(batch: CommitBatch, list: &Vec<JobResolutionInput>) -> (r: Result<
    CommitBatch,
    JsError,
>)
    ensures
        match r {
            Ok(b) => with_all(Ok(batch@), resolutions_of(list@)) == Ok::<BatchView, JsErrorView>(
                b@,
            ),
            Err(e) => with_all(Ok(batch@), resolutions_of(list@)) == Err::<BatchView, JsErrorView>(
                e@,
            ),
        },
{
    let ghost start: Result<BatchView, JsErrorView> = Ok(batch@);
    let ghost all = resolutions_of(list@);
    let mut b = batch;
    let mut i: usize = 0;
    assert(all.take(0) =~= Seq::<Result<OperationView, JsErrorView>>::empty());
    while i < list.len()
        invariant
            i <= list@.len(),
            all == resolutions_of(list@),
            start == Ok::<BatchView, JsErrorView>(batch@),
            with_all(start, all.take(i as int)) == Ok::<BatchView, JsErrorView>(b@),
        decreases list@.len() - i,
    {
        let x = &list[i];
        proof {
            assert(all.take(i + 1).drop_last() =~= all.take(i as int));
            assert(all.take(i + 1).last() == resolution_of(*x));
            if resolution_of(*x) is Err {
                lemma_all_stop(start, all, i + 1);
            }
        }
        let job_id = match parse_id("jobId", x.job_id.as_str()) {
            Ok(id) => id,
            Err(e) => return Err(e),
        };
        let resolution = match parse_resolution(x.resolution.as_str()) {
            Ok(v) => v,
            Err(e) => return Err(e),
        };
        b = b.resolve_uncertain_job(job_id, resolution);
        i += 1;
    }
    assert(all.take(i as int) =~= all);
    Ok(b)
}

/// Builds the batch of an input.
pub fn build_batch(input: CommitBatchInput, fresh: &Vec<Id>) -> (r: Result<CommitBatch, JsError>)
    ensures
        match r {
            Ok(b) => built(input, fresh@) == Ok::<BatchView, JsErrorView>(b@),
            Err(e) => built(input, fresh@) == Err::<BatchView, JsErrorView>(e@),
        },
{
    let ghost asked = input;
    let (transaction_id, n0) = match take_id("transactionId", &input.transaction_id, fresh, 0) {
        Ok(taken) => taken,
        Err(e) => return Err(e),
    };
    let mut batch = CommitBatch::new(transaction_id, input.committed_at_ms);
    let expected = items(input.expected_stream_versions);
    batch = add_expectations(batch, &expected);
    let events = items(input.events);
    let (evented, n1) = match add_events(batch, n0, fresh, &events) {
        Ok(done) => done,
        Err(e) => return Err(e),
    };
    let patches = items(input.projection_patches);
    let patched = add_patches(evented, &patches);
    let jobs = items(input.enqueue_jobs);
    let (enqueued, _) = match add_jobs(patched, n1, fresh, &jobs) {
        Ok(done) => done,
        Err(e) => return Err(e),
    };
    let acks = items(input.ack_jobs);
    let failures = items(input.fail_jobs);
    let cancellations = items(input.cancel_jobs);
    let resolutions = items(input.resolve_uncertain_jobs);
    let ghost some_failures = failures_of(failures@, asked.committed_at_ms);
    let ghost some_cancellations = cancellations_of(cancellations@);
    let ghost some_resolutions = resolutions_of(resolutions@);
    let acked = match add_acks(enqueued, &acks) {
        Ok(b) => b,
        Err(e) => {
            proof {
                let r: Result<BatchView, JsErrorView> = Err(e@);
                lemma_all_err(r, some_failures);
                lemma_all_err(r, some_cancellations);
                lemma_all_err(r, some_resolutions);
            }
            return Err(e);
        }
    };
    let failed = match add_failures(acked, &failures, input.committed_at_ms) {
        Ok(b) => b,
        Err(e) => {
            proof {
                let r: Result<BatchView, JsErrorView> = Err(e@);
                lemma_all_err(r, some_cancellations);
                lemma_all_err(r, some_resolutions);
            }
            return Err(e);
        }
    };
    let cancelled = match add_cancellations(failed, &cancellations) {
        Ok(b) => b,
        Err(e) => {
            proof {
                let r: Result<BatchView, JsErrorView> = Err(e@);
                lemma_all_err(r, some_resolutions);
            }
            return Err(e);
        }
    };
    add_resolutions(cancelled, &resolutions)
}

} // verus!
