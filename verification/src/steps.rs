//! What each statement of the job store does to the tables, and that it keeps
//! them sound and consistent.
use vstd::prelude::*;

use crate::id::Id;
use crate::jobs::JobSpecView;
use crate::row::{id_blob, JobRowView};
use crate::seqs::lemma_filter_indices;
use crate::state::{terminal, JobState};
use crate::tables::{
    active_in, consistent, delete_partition, find_job, has_active, has_job, ids_distinct,
    insert_partition, lemma_found, lemma_replace_job, listed, not_partition, partitions_distinct,
    partitions_exact, receipts_owned, replace_job, row_fits, row_ok, rows_fit, rows_ok,
    sequences_ascend, sound, PartitionRowView, Tables,
};

verus! {

/// The first value, or the second where the first is absent.
pub open spec fn coalesce<A>(a: Option<A>, b: Option<A>) -> Option<A> {
    match a {
        Some(_) => a,
        None => b,
    }
}

/// The row of a job that finishes: the lease and retry columns are cleared,
/// and a digest or summary replaces the stored one only where it is given.
pub open spec fn finished(
    r: JobRowView,
    state: JobState,
    now_ms: i64,
    transaction_id: Id,
    result_digest: Option<Seq<u8>>,
    error_summary: Option<Seq<char>>,
) -> JobRowView {
    JobRowView {
        state,
        lease_token: None,
        worker_id: None,
        lease_expires_at_ms: None,
        retry_after_ms: None,
        terminal_at_ms: Some(now_ms),
        result_digest: coalesce(result_digest, r.result_digest),
        error_summary: coalesce(error_summary, r.error_summary),
        updated_transaction_id: id_blob(transaction_id),
        ..r
    }
}

/// The row of a job that gives up its lease without finishing.
pub open spec fn released(
    r: JobRowView,
    state: JobState,
    retry_after_ms: Option<i64>,
    transaction_id: Id,
) -> JobRowView {
    JobRowView {
        state,
        lease_token: None,
        worker_id: None,
        lease_expires_at_ms: None,
        retry_after_ms,
        updated_transaction_id: id_blob(transaction_id),
        ..r
    }
}

/// The row of a job that is leased.
pub open spec fn leased(
    r: JobRowView,
    lease_token: Id,
    worker_id: Seq<char>,
    lease_expires_at_ms: i64,
    transaction_id: Id,
) -> JobRowView {
    JobRowView {
        state: JobState::Leased,
        attempt: (r.attempt + 1) as u32,
        lease_token: Some(lease_token),
        worker_id: Some(worker_id),
        lease_expires_at_ms: Some(lease_expires_at_ms),
        retry_after_ms: None,
        updated_transaction_id: id_blob(transaction_id),
        ..r
    }
}

/// The tables with one job row replaced.
pub open spec fn with_job(t: Tables, row: JobRowView) -> Tables {
    Tables { jobs: replace_job(t.jobs, row), ..t }
}

/// The partition leaves `active_partitions` when no unfinished job remains in
/// it.
pub open spec fn drained(t: Tables, queue: Seq<char>, partition_key: Seq<char>) -> Tables {
    if has_active(t.jobs, queue, partition_key) {
        t
    } else {
        Tables { partitions: delete_partition(t.partitions, queue, partition_key), ..t }
    }
}

/// The tables after a job finished.
pub open spec fn after_finish(
    t: Tables,
    job: JobRowView,
    state: JobState,
    now_ms: i64,
    transaction_id: Id,
    result_digest: Option<Seq<u8>>,
    error_summary: Option<Seq<char>>,
) -> Tables {
    drained(
        with_job(t, finished(job, state, now_ms, transaction_id, result_digest, error_summary)),
        job.queue,
        job.partition_key,
    )
}

/// The sequence number of the next job: one more than the greatest so far.
pub open spec fn next_sequence(jobs: Seq<JobRowView>) -> int {
    if jobs.len() == 0 {
        1
    } else {
        jobs.last().enqueue_sequence + 1
    }
}

/// The row of a job that has just been enqueued.
pub open spec fn enqueued(spec: JobSpecView, sequence: i64, transaction_id: Id) -> JobRowView {
    JobRowView {
        job_id: spec.job_id,
        enqueue_sequence: sequence,
        queue: spec.queue,
        partition_key: spec.partition_key,
        payload: spec.payload,
        not_before_ms: spec.not_before_ms,
        max_attempts: spec.max_attempts,
        effect_mode: spec.effect_mode,
        idempotency_key: spec.idempotency_key,
        state: JobState::Pending,
        attempt: 0,
        lease_token: None,
        worker_id: None,
        lease_expires_at_ms: None,
        retry_after_ms: None,
        terminal_at_ms: None,
        result_digest: None,
        error_summary: None,
        enqueue_transaction_id: id_blob(transaction_id),
        updated_transaction_id: id_blob(transaction_id),
    }
}

/// The tables after a job was enqueued: the job comes last, and its partition
/// is listed, with this job as its first if it was not listed before.
pub open spec fn after_enqueue(t: Tables, spec: JobSpecView, transaction_id: Id) -> Tables {
    let sequence = next_sequence(t.jobs) as i64;
    Tables {
        jobs: t.jobs.push(enqueued(spec, sequence, transaction_id)),
        partitions: insert_partition(
            t.partitions,
            PartitionRowView {
                queue: spec.queue,
                partition_key: spec.partition_key,
                first_active_sequence: sequence,
            },
        ),
        ..t
    }
}

/// After a partition is deleted, the others are listed as before.
pub proof fn lemma_delete_partition(
    partitions: Seq<PartitionRowView>,
    queue: Seq<char>,
    partition_key: Seq<char>,
)
    requires
        partitions_distinct(partitions),
    ensures
        partitions_distinct(delete_partition(partitions, queue, partition_key)),
        forall|q: Seq<char>, p: Seq<char>| #[trigger]
            listed(delete_partition(partitions, queue, partition_key), q, p) <==> listed(
                partitions,
                q,
                p,
            ) && !(q == queue && p == partition_key),
{
    let pred = not_partition(queue, partition_key);
    let after = delete_partition(partitions, queue, partition_key);
    let idx = lemma_filter_indices(partitions, pred);
    partitions.filter_lemma(pred);
    assert forall|i: int, j: int| 0 <= i < j < after.len() implies (#[trigger] after[i]).queue != (
    #[trigger] after[j]).queue || after[i].partition_key != after[j].partition_key by {
        assert(after[i] == partitions[idx[i]] && after[j] == partitions[idx[j]]);
        assert(idx[i] < idx[j]);
    }
    assert forall|q: Seq<char>, p: Seq<char>| #[trigger] listed(after, q, p) <==> listed(
        partitions,
        q,
        p,
    ) && !(q == queue && p == partition_key) by {
        if listed(after, q, p) {
            let i = choose|i: int|
                0 <= i < after.len() && (#[trigger] after[i]).queue == q && after[i].partition_key
                    == p;
            assert(after[i] == partitions[idx[i]]);
            assert(pred(partitions[idx[i]]));
        }
        if listed(partitions, q, p) && !(q == queue && p == partition_key) {
            let i = choose|i: int|
                0 <= i < partitions.len() && (#[trigger] partitions[i]).queue == q
                    && partitions[i].partition_key == p;
            assert(pred(partitions[i]));
            assert(after.contains(partitions[i]));
            let k = choose|k: int| 0 <= k < after.len() && after[k] == partitions[i];
            assert(after[k].queue == q);
        }
    }
}

/// Replacing a job by a row of the same partition changes the unfinished jobs
/// of no other partition, and keeps the order and the soundness of the rows.
pub proof fn lemma_with_job(t: Tables, row: JobRowView)
    requires
        sound(t),
        has_job(t.jobs, row.job_id),
        row_fits(row),
        ({
            let job = find_job(t.jobs, row.job_id)->0;
            &&& row.queue == job.queue
            &&& row.partition_key == job.partition_key
            &&& row.enqueue_sequence == job.enqueue_sequence
        }),
    ensures
        rows_fit(with_job(t, row).jobs),
        rows_ok(t.jobs) && row_ok(row) ==> rows_ok(with_job(t, row).jobs),
        ids_distinct(with_job(t, row).jobs),
        sequences_ascend(with_job(t, row).jobs),
        receipts_owned(t) ==> receipts_owned(with_job(t, row)),
        forall|q: Seq<char>, p: Seq<char>|
            !(q == row.queue && p == row.partition_key) ==> (#[trigger] has_active(
                with_job(t, row).jobs,
                q,
                p,
            ) <==> has_active(t.jobs, q, p)),
        !terminal(row.state) ==> has_active(with_job(t, row).jobs, row.queue, row.partition_key),
        has_active(with_job(t, row).jobs, row.queue, row.partition_key) && terminal(row.state)
            ==> has_active(t.jobs, row.queue, row.partition_key),
{
    let jobs = t.jobs;
    let after = with_job(t, row).jobs;
    lemma_replace_job(jobs, row);
    let k = lemma_found(jobs, row.job_id);
    assert(after[k] == row);
    assert forall|i: int| 0 <= i < jobs.len() && i != k implies #[trigger] after[i] == jobs[i] by {
        if i < k {
            assert(jobs[i].job_id != jobs[k].job_id);
        } else {
            assert(jobs[k].job_id != jobs[i].job_id);
        }
    }
    assert forall|i: int, j: int| 0 <= i < j < after.len() implies (
    #[trigger] after[i]).enqueue_sequence < (#[trigger] after[j]).enqueue_sequence by {
        assert(jobs[i].enqueue_sequence < jobs[j].enqueue_sequence);
    }
    if receipts_owned(t) {
        assert forall|i: int| 0 <= i < t.receipts.len() implies has_job(
            after,
            (#[trigger] t.receipts[i]).job_id,
        ) by {
            assert(has_job(jobs, t.receipts[i].job_id));
        }
    }
    assert forall|q: Seq<char>, p: Seq<char>|
        !(q == row.queue && p == row.partition_key) implies (#[trigger] has_active(after, q, p)
        <==> has_active(jobs, q, p)) by {
        if has_active(after, q, p) {
            let i = choose|i: int| 0 <= i < after.len() && active_in(#[trigger] after[i], q, p);
            assert(i != k);
            assert(active_in(jobs[i], q, p));
        }
        if has_active(jobs, q, p) {
            let i = choose|i: int| 0 <= i < jobs.len() && active_in(#[trigger] jobs[i], q, p);
            assert(i != k);
            assert(active_in(after[i], q, p));
        }
    }
    if !terminal(row.state) {
        assert(active_in(after[k], row.queue, row.partition_key));
    }
    if has_active(after, row.queue, row.partition_key) && terminal(row.state) {
        let i = choose|i: int|
            0 <= i < after.len() && active_in(#[trigger] after[i], row.queue, row.partition_key);
        assert(i != k);
        assert(active_in(jobs[i], row.queue, row.partition_key));
    }
}

/// Replacing an unfinished job by an unfinished row of the same partition
/// keeps the tables sound, and consistent where they and the row are.
pub proof fn lemma_replace_active(t: Tables, row: JobRowView)
    requires
        sound(t),
        has_job(t.jobs, row.job_id),
        row_fits(row),
        !terminal(row.state),
        ({
            let job = find_job(t.jobs, row.job_id)->0;
            &&& row.queue == job.queue
            &&& row.partition_key == job.partition_key
            &&& row.enqueue_sequence == job.enqueue_sequence
            &&& !terminal(job.state)
        }),
    ensures
        sound(with_job(t, row)),
        consistent(t) && row_ok(row) ==> consistent(with_job(t, row)),
{
    lemma_with_job(t, row);
    let after = with_job(t, row);
    let k = lemma_found(t.jobs, row.job_id);
    assert(active_in(t.jobs[k], row.queue, row.partition_key));
    if partitions_exact(t) {
        assert forall|q: Seq<char>, p: Seq<char>| #[trigger] listed(after.partitions, q, p)
            <==> has_active(after.jobs, q, p) by {
            assert(listed(t.partitions, q, p) <==> has_active(t.jobs, q, p));
            if !(q == row.queue && p == row.partition_key) {
                assert(has_active(after.jobs, q, p) <==> has_active(t.jobs, q, p));
            }
        }
    }
}

/// Finishing a job keeps the tables sound, and consistent where they are.
pub proof fn lemma_finish(
    t: Tables,
    job: JobRowView,
    state: JobState,
    now_ms: i64,
    transaction_id: Id,
    result_digest: Option<Seq<u8>>,
    error_summary: Option<Seq<char>>,
)
    requires
        sound(t),
        find_job(t.jobs, job.job_id) == Some(job),
        terminal(state),
    ensures
        sound(after_finish(t, job, state, now_ms, transaction_id, result_digest, error_summary)),
        consistent(t) ==> consistent(
            after_finish(t, job, state, now_ms, transaction_id, result_digest, error_summary),
        ),
{
    let row = finished(job, state, now_ms, transaction_id, result_digest, error_summary);
    let k = lemma_found(t.jobs, job.job_id);
    assert(rows_ok(t.jobs) ==> row_ok(t.jobs[k]));
    lemma_with_job(t, row);
    let mid = with_job(t, row);
    let after = drained(mid, job.queue, job.partition_key);
    lemma_delete_partition(t.partitions, job.queue, job.partition_key);
    if partitions_exact(t) {
        assert forall|q: Seq<char>, p: Seq<char>| #[trigger] listed(after.partitions, q, p)
            <==> has_active(after.jobs, q, p) by {
            assert(listed(t.partitions, q, p) <==> has_active(t.jobs, q, p));
            if !(q == row.queue && p == row.partition_key) {
                assert(has_active(mid.jobs, q, p) <==> has_active(t.jobs, q, p));
            }
        }
    }
}

/// Releasing a lease keeps the tables sound, and consistent where they are.
pub proof fn lemma_release(
    t: Tables,
    job: JobRowView,
    state: JobState,
    retry_after_ms: Option<i64>,
    transaction_id: Id,
)
    requires
        sound(t),
        find_job(t.jobs, job.job_id) == Some(job),
        !terminal(job.state),
        state is Pending || state is RetryWait || state is Uncertain,
        state is RetryWait <==> retry_after_ms is Some,
        state is Pending || state is RetryWait ==> job.attempt < job.max_attempts,
    ensures
        sound(with_job(t, released(job, state, retry_after_ms, transaction_id))),
        consistent(t) ==> consistent(
            with_job(t, released(job, state, retry_after_ms, transaction_id)),
        ),
{
    let k = lemma_found(t.jobs, job.job_id);
    assert(rows_ok(t.jobs) ==> row_ok(t.jobs[k]));
    lemma_replace_active(t, released(job, state, retry_after_ms, transaction_id));
}

/// Enqueueing a new job keeps the tables sound, and consistent where they are.
pub proof fn lemma_enqueue(t: Tables, spec: JobSpecView, transaction_id: Id)
    requires
        sound(t),
        !has_job(t.jobs, spec.job_id),
        next_sequence(t.jobs) <= i64::MAX,
        spec.max_attempts >= 1,
    ensures
        sound(after_enqueue(t, spec, transaction_id)),
        consistent(t) ==> consistent(after_enqueue(t, spec, transaction_id)),
{
    let after = after_enqueue(t, spec, transaction_id);
    let n = t.jobs.len() as int;
    if n > 0 && rows_ok(t.jobs) {
        assert(row_ok(t.jobs[n - 1]));
    }
    let row = enqueued(spec, next_sequence(t.jobs) as i64, transaction_id);
    assert(after.jobs[n] == row);
    assert forall|i: int| 0 <= i < n implies #[trigger] after.jobs[i] == t.jobs[i] by {}
    assert forall|i: int, j: int| 0 <= i < j < after.jobs.len() implies (
    #[trigger] after.jobs[i]).job_id != (#[trigger] after.jobs[j]).job_id
        && after.jobs[i].enqueue_sequence < after.jobs[j].enqueue_sequence by {
        if j < n {
            assert(t.jobs[i].job_id != t.jobs[j].job_id);
            assert(t.jobs[i].enqueue_sequence < t.jobs[j].enqueue_sequence);
        } else {
            assert(t.jobs[i].job_id != spec.job_id);
            if i < n - 1 {
                assert(t.jobs[i].enqueue_sequence < t.jobs[n - 1].enqueue_sequence);
            }
        }
    }
    if receipts_owned(t) {
        assert forall|i: int| 0 <= i < t.receipts.len() implies has_job(
            after.jobs,
            (#[trigger] t.receipts[i]).job_id,
        ) by {
            assert(has_job(t.jobs, t.receipts[i].job_id));
            let k = lemma_found(t.jobs, t.receipts[i].job_id);
            assert(after.jobs[k].job_id == t.receipts[i].job_id);
        }
    }
    if partitions_exact(t) {
        assert forall|q: Seq<char>, p: Seq<char>| #[trigger] listed(after.partitions, q, p)
            <==> has_active(after.jobs, q, p) by {
            assert(listed(t.partitions, q, p) <==> has_active(t.jobs, q, p));
            let m = t.partitions.len() as int;
            if listed(t.partitions, q, p) {
                let i = choose|i: int|
                    0 <= i < m && (#[trigger] t.partitions[i]).queue == q
                        && t.partitions[i].partition_key == p;
                assert(after.partitions[i] == t.partitions[i]);
                let k = choose|k: int| 0 <= k < n && active_in(#[trigger] t.jobs[k], q, p);
                assert(active_in(after.jobs[k], q, p));
            }
            if q == spec.queue && p == spec.partition_key {
                assert(active_in(after.jobs[n], q, p));
                if !listed(t.partitions, q, p) {
                    assert(after.partitions[m].queue == q);
                }
            } else {
                if has_active(after.jobs, q, p) {
                    let k = choose|k: int|
                        0 <= k < after.jobs.len() && active_in(#[trigger] after.jobs[k], q, p);
                    assert(k < n);
                    assert(active_in(t.jobs[k], q, p));
                }
            }
        }
    }
    if !listed(t.partitions, spec.queue, spec.partition_key) {
        let m = t.partitions.len() as int;
        assert forall|i: int, j: int| 0 <= i < j < after.partitions.len() implies (
        #[trigger] after.partitions[i]).queue != (#[trigger] after.partitions[j]).queue
            || after.partitions[i].partition_key != after.partitions[j].partition_key by {
            assert(after.partitions[i] == t.partitions[i]);
            if j < m {
                assert(after.partitions[j] == t.partitions[j]);
            }
        }
    }
}

} // verus!
