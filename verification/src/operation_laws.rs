//! What each job operation of a commit does, column by column, and when it is
//! refused.
use vstd::prelude::*;

use crate::batch::OperationView;
use crate::commit_steps::operation_result;
use crate::error::{CommitErrorView, ConflictView, LeaseConflict, StorageErrorView};
use crate::id::{hex_of, Id};
use crate::job_laws::same_job;
use crate::jobs::{
    JobAckView, JobCancellation, JobFailureView, JobResolution, JobSpecView, LeaseExtension,
};
use crate::row::{id_of_blob, info_of, lemma_id_blob, JobRowView};
use crate::seqs::lemma_filter_indices;
use crate::state::{JobState, Resolution};
use crate::steps::{drained, finished, lemma_delete_partition, released, with_job};
use crate::tables::{
    active_in, find_job, has_active, has_job, lemma_find_at, lemma_found, lemma_replace_job,
    not_partition, replace_job, sound, Tables,
};

verus! {

/// A job is found exactly when some row has its identifier, and that row is
/// what is found; where identifiers differ it is the only one.
pub proof fn law_job_lookup(jobs: Seq<JobRowView>, job_id: Id)
    ensures
        find_job(jobs, job_id) is Some <==> exists|i: int|
            0 <= i < jobs.len() && (#[trigger] jobs[i]).job_id == job_id,
        find_job(jobs, job_id) matches Some(row) ==> row.job_id == job_id && jobs.contains(row),
        forall|i: int|
            (forall|k: int, m: int|
                0 <= k < m < jobs.len() ==> (#[trigger] jobs[k]).job_id != (
                #[trigger] jobs[m]).job_id) && 0 <= i < jobs.len() && (
            #[trigger] jobs[i]).job_id == job_id ==> find_job(jobs, job_id) == Some(jobs[i]),
{
    if has_job(jobs, job_id) {
        let k = lemma_found(jobs, job_id);
        assert(jobs.contains(jobs[k]));
        if forall|k: int, m: int|
            0 <= k < m < jobs.len() ==> (#[trigger] jobs[k]).job_id != (#[trigger] jobs[m]).job_id {
            assert forall|i: int| 0 <= i < jobs.len() && (#[trigger] jobs[i]).job_id
                == job_id implies find_job(jobs, job_id) == Some(jobs[i]) by {
                lemma_find_at(jobs, i);
            }
        }
    }
}

/// The job is neither succeeded nor dead nor cancelled.
pub open spec fn unfinished(r: JobRowView) -> bool {
    !(r.state is Succeeded) && !(r.state is Dead) && !(r.state is Cancelled)
}

/// An unfinished job of the partition is there.
pub open spec fn partition_in_use(t: Tables, queue: Seq<char>, partition_key: Seq<char>) -> bool {
    exists|i: int|
        0 <= i < t.jobs.len() && (#[trigger] t.jobs[i]).queue == queue && t.jobs[i].partition_key
            == partition_key && unfinished(t.jobs[i])
}

/// Only the jobs and the partitions may differ.
pub open spec fn other_tables_kept(t: Tables, after: Tables) -> bool {
    &&& after.cursors == t.cursors
    &&& after.transactions == t.transactions
    &&& after.events == t.events
    &&& after.projections == t.projections
    &&& after.entries == t.entries
}

/// Only the row of one job differs, and the tables besides jobs and partitions
/// not at all.
pub open spec fn only_job_changed(t: Tables, after: Tables, job_id: Id) -> bool {
    &&& after.jobs.len() == t.jobs.len()
    &&& forall|i: int|
        0 <= i < t.jobs.len() && (#[trigger] t.jobs[i]).job_id != job_id ==> after.jobs[i]
            == t.jobs[i]
    &&& other_tables_kept(t, after)
}

/// The partition of a finished job is taken off the list exactly when no
/// unfinished job is left in it; every other partition stays listed as it was.
pub open spec fn partition_drained(
    t: Tables,
    after: Tables,
    queue: Seq<char>,
    partition_key: Seq<char>,
) -> bool {
    &&& partition_in_use(after, queue, partition_key) ==> after.partitions == t.partitions
    &&& !partition_in_use(after, queue, partition_key) ==> forall|i: int|
        0 <= i < after.partitions.len() ==> !((#[trigger] after.partitions[i]).queue == queue
            && after.partitions[i].partition_key == partition_key)
    &&& forall|i: int|
        0 <= i < t.partitions.len() && !((#[trigger] t.partitions[i]).queue == queue
            && t.partitions[i].partition_key == partition_key) ==> after.partitions.contains(
            t.partitions[i],
        )
    &&& forall|i: int|
        0 <= i < after.partitions.len() ==> t.partitions.contains(#[trigger] after.partitions[i])
}

/// The job has no lease and is not waiting for a retry.
pub open spec fn at_rest(row: JobRowView) -> bool {
    &&& row.lease_token is None
    &&& row.worker_id is None
    &&& row.lease_expires_at_ms is None
    &&& row.retry_after_ms is None
}

/// The row was last changed by this transaction.
pub open spec fn changed_by(row: JobRowView, transaction_id: Id) -> bool {
    id_of_blob(row.updated_transaction_id) == Ok::<Id, StorageErrorView>(transaction_id)
}

/// The first of two values that is given.
pub open spec fn given_or<A>(given: Option<A>, kept: Option<A>) -> Option<A> {
    if given is Some {
        given
    } else {
        kept
    }
}

/// An enqueued job is stored with everything that it was specified with, and
/// waits unleased, with no attempt used, behind all jobs so far. It is refused
/// exactly when its identifier is taken, when it has no attempt, or when no
/// sequence number is left.
pub proof fn law_enqueue(t: Tables, transaction_id: Id, now_ms: i64, s: JobSpecView)
    requires
        sound(t),
    ensures
        ({
            let r = operation_result(t, transaction_id, now_ms, OperationView::EnqueueJob(s));
            let taken = exists|i: int|
                0 <= i < t.jobs.len() && (#[trigger] t.jobs[i]).job_id == s.job_id;
            let full = t.jobs.len() > 0 && t.jobs.last().enqueue_sequence == i64::MAX;
            &&& r is Ok <==> !taken && !full && s.max_attempts >= 1
            &&& taken ==> r == Err::<Tables, CommitErrorView>(
                CommitErrorView::Validation("job "@ + hex_of(s.job_id) + " already exists"@),
            )
            &&& r matches Ok(after) ==> {
                let n = t.jobs.len() as int;
                let row = after.jobs[n];
                &&& after.jobs.len() == n + 1
                &&& forall|i: int| 0 <= i < n ==> after.jobs[i] == #[trigger] t.jobs[i]
                &&& find_job(after.jobs, s.job_id) == Some(row)
                &&& info_of(row).spec == s
                &&& row.job_id == s.job_id
                &&& row.queue == s.queue
                &&& row.partition_key == s.partition_key
                &&& row.payload == s.payload
                &&& row.not_before_ms == s.not_before_ms
                &&& row.max_attempts == s.max_attempts
                &&& row.effect_mode == s.effect_mode
                &&& row.idempotency_key == s.idempotency_key
                &&& row.state is Pending
                &&& row.attempt == 0
                &&& at_rest(row)
                &&& row.terminal_at_ms is None
                &&& row.result_digest is None
                &&& row.error_summary is None
                &&& changed_by(row, transaction_id)
                &&& row.enqueue_transaction_id == row.updated_transaction_id
                &&& row.enqueue_sequence == (if n == 0 {
                    1
                } else {
                    t.jobs[n - 1].enqueue_sequence + 1
                })
                &&& forall|i: int|
                    0 <= i < n ==> (#[trigger] t.jobs[i]).enqueue_sequence < row.enqueue_sequence
                &&& after.partitions.len() >= t.partitions.len()
                &&& after.partitions.take(t.partitions.len() as int) == t.partitions
                &&& exists|i: int|
                    0 <= i < after.partitions.len() && (#[trigger] after.partitions[i]).queue
                        == s.queue && after.partitions[i].partition_key == s.partition_key
                &&& forall|i: int|
                    t.partitions.len() <= i < after.partitions.len() ==> {
                        let p = #[trigger] after.partitions[i];
                        &&& i == t.partitions.len()
                        &&& p.queue == s.queue
                        &&& p.partition_key == s.partition_key
                        &&& p.first_active_sequence == row.enqueue_sequence
                        &&& forall|k: int|
                            0 <= k < t.partitions.len() ==> (#[trigger] t.partitions[k]).queue
                                != s.queue || t.partitions[k].partition_key != s.partition_key
                    }
                &&& after.receipts == t.receipts
                &&& other_tables_kept(t, after)
            }
        }),
{
    let r = operation_result(t, transaction_id, now_ms, OperationView::EnqueueJob(s));
    if let Ok(after) = r {
        let n = t.jobs.len() as int;
        let row = after.jobs[n];
        lemma_id_blob(transaction_id);
        assert forall|i: int, j: int| 0 <= i < j < after.jobs.len() implies (
        #[trigger] after.jobs[i]).job_id != (#[trigger] after.jobs[j]).job_id by {
            assert(after.jobs[i] == t.jobs[i]);
            if j < n {
                assert(after.jobs[j] == t.jobs[j]);
            }
        }
        lemma_find_at(after.jobs, n);
        assert(info_of(row).spec =~= s);
        assert(after.partitions.take(t.partitions.len() as int) =~= t.partitions);
        assert forall|i: int| 0 <= i < n implies (#[trigger] t.jobs[i]).enqueue_sequence
            < row.enqueue_sequence by {
            if i < n - 1 {
                assert(t.jobs[i].enqueue_sequence < t.jobs[n - 1].enqueue_sequence);
            }
        }
        let m = t.partitions.len() as int;
        if after.partitions.len() > m {
            assert(after.partitions[m].queue == s.queue);
        } else {
            let i = choose|i: int|
                0 <= i < m && (#[trigger] t.partitions[i]).queue == s.queue
                    && t.partitions[i].partition_key == s.partition_key;
            assert(after.partitions[i].queue == s.queue);
        }
    }
}

/// What is common to the operations that replace the row of one job.
proof fn lemma_one_job(t: Tables, after: Tables, row: JobRowView)
    requires
        sound(t),
        has_job(t.jobs, row.job_id),
        after.jobs == replace_job(t.jobs, row),
        other_tables_kept(t, after),
    ensures
        only_job_changed(t, after, row.job_id),
        find_job(after.jobs, row.job_id) == Some(row),
{
    lemma_replace_job(t.jobs, row);
}

/// What is common to the operations that finish a job.
proof fn lemma_drained(t: Tables, job: JobRowView, row: JobRowView)
    requires
        sound(t),
        find_job(t.jobs, job.job_id) == Some(job),
        row.job_id == job.job_id,
    ensures
        ({
            let mid = with_job(t, row);
            let after = drained(mid, job.queue, job.partition_key);
            partition_drained(t, after, job.queue, job.partition_key)
        }),
{
    let mid = with_job(t, row);
    let after = drained(mid, job.queue, job.partition_key);
    let pred = not_partition(job.queue, job.partition_key);
    if has_active(mid.jobs, job.queue, job.partition_key) {
        let i = choose|i: int|
            0 <= i < mid.jobs.len() && active_in(
                #[trigger] mid.jobs[i],
                job.queue,
                job.partition_key,
            );
        assert(after.jobs[i].queue == job.queue);
        assert(partition_in_use(after, job.queue, job.partition_key));
    } else {
        if partition_in_use(after, job.queue, job.partition_key) {
            let i = choose|i: int|
                0 <= i < after.jobs.len() && (#[trigger] after.jobs[i]).queue == job.queue
                    && after.jobs[i].partition_key == job.partition_key && unfinished(
                    after.jobs[i],
                );
            assert(active_in(mid.jobs[i], job.queue, job.partition_key));
        }
        lemma_delete_partition(t.partitions, job.queue, job.partition_key);
        let idx = lemma_filter_indices(t.partitions, pred);
        t.partitions.filter_lemma(pred);
        assert forall|i: int| 0 <= i < after.partitions.len() implies t.partitions.contains(
            #[trigger] after.partitions[i],
        ) && !(after.partitions[i].queue == job.queue && after.partitions[i].partition_key
            == job.partition_key) by {
            assert(after.partitions[i] == t.partitions[idx[i]]);
            assert(pred(t.partitions[idx[i]]));
        }
        assert forall|i: int|
            0 <= i < t.partitions.len() && !((#[trigger] t.partitions[i]).queue == job.queue
                && t.partitions[i].partition_key == job.partition_key) implies after.partitions.contains(
        t.partitions[i]) by {
            assert(pred(t.partitions[i]));
        }
    }
}

/// A job is acknowledged exactly when it is there, leased or uncertain, and
/// the token is its own. It has succeeded then, now, with the digest where one
/// is given; its lease is gone, and nothing else of it changes.
pub proof fn law_acknowledge(t: Tables, transaction_id: Id, now_ms: i64, a: JobAckView)
    requires
        sound(t),
    ensures
        ({
            let r = operation_result(t, transaction_id, now_ms, OperationView::AcknowledgeJob(a));
            &&& r is Ok <==> (find_job(t.jobs, a.job_id) matches Some(job) && (job.state is Leased
                || job.state is Uncertain) && job.lease_token == Some(a.lease_token))
            &&& r matches Ok(after) ==> {
                let job = find_job(t.jobs, a.job_id)->0;
                find_job(after.jobs, a.job_id) matches Some(row) && {
                    &&& same_job(job, row)
                    &&& row.state is Succeeded
                    &&& at_rest(row)
                    &&& row.terminal_at_ms == Some(now_ms)
                    &&& row.result_digest == given_or(a.result_digest, job.result_digest)
                    &&& row.error_summary == job.error_summary
                    &&& changed_by(row, transaction_id)
                    &&& only_job_changed(t, after, a.job_id)
                    &&& after.receipts == t.receipts
                    &&& partition_drained(t, after, job.queue, job.partition_key)
                }
            }
        }),
{
    let r = operation_result(t, transaction_id, now_ms, OperationView::AcknowledgeJob(a));
    if let Ok(after) = r {
        let k = lemma_found(t.jobs, a.job_id);
        let job = t.jobs[k];
        lemma_id_blob(transaction_id);
        let row = finished(
            job,
            JobState::Succeeded,
            now_ms,
            transaction_id,
            a.result_digest,
            None,
        );
        lemma_drained(t, job, row);
        lemma_one_job(t, after, row);
    }
}

/// A failure is accepted exactly when the job is there under this token and is
/// leased or, with no attempt left, uncertain, and when a retry that is still
/// due has a time. With no attempt left the job is dead, now; else it waits for
/// the given time or for half a minute. Either way its summary is the given one
/// and its lease is gone; nothing else of it changes.
pub proof fn law_fail(t: Tables, transaction_id: Id, now_ms: i64, f: JobFailureView)
    requires
        sound(t),
    ensures
        ({
            let r = operation_result(t, transaction_id, now_ms, OperationView::FailJob(f));
            &&& r is Ok <==> (find_job(t.jobs, f.job_id) matches Some(job) && job.lease_token
                == Some(f.lease_token) && if job.attempt >= job.max_attempts {
                job.state is Leased || job.state is Uncertain
            } else {
                job.state is Leased && (f.retry_after_ms is Some || now_ms + 30_000 <= i64::MAX)
            })
            &&& r matches Ok(after) ==> {
                let job = find_job(t.jobs, f.job_id)->0;
                find_job(after.jobs, f.job_id) matches Some(row) && {
                    &&& same_job(job, row)
                    &&& row.lease_token is None
                    &&& row.worker_id is None
                    &&& row.lease_expires_at_ms is None
                    &&& row.error_summary == Some(f.error_summary)
                    &&& row.result_digest == job.result_digest
                    &&& changed_by(row, transaction_id)
                    &&& only_job_changed(t, after, f.job_id)
                    &&& after.receipts == t.receipts
                    &&& job.attempt >= job.max_attempts ==> {
                        &&& row.state is Dead
                        &&& row.retry_after_ms is None
                        &&& row.terminal_at_ms == Some(now_ms)
                        &&& partition_drained(t, after, job.queue, job.partition_key)
                    }
                    &&& job.attempt < job.max_attempts ==> {
                        &&& row.state is RetryWait
                        &&& row.retry_after_ms is Some
                        &&& f.retry_after_ms is Some ==> row.retry_after_ms == f.retry_after_ms
                        &&& f.retry_after_ms is None ==> row.retry_after_ms->0 == now_ms + 30_000
                        &&& row.terminal_at_ms == job.terminal_at_ms
                        &&& after.partitions == t.partitions
                    }
                }
            }
        }),
{
    let r = operation_result(t, transaction_id, now_ms, OperationView::FailJob(f));
    if let Ok(after) = r {
        let k = lemma_found(t.jobs, f.job_id);
        let job = t.jobs[k];
        lemma_id_blob(transaction_id);
        if job.attempt >= job.max_attempts {
            let row = finished(
                job,
                JobState::Dead,
                now_ms,
                transaction_id,
                None,
                Some(f.error_summary),
            );
            lemma_drained(t, job, row);
            lemma_one_job(t, after, row);
        } else {
            let retry_after = match f.retry_after_ms {
                Some(ms) => ms,
                None => (now_ms + 30_000) as i64,
            };
            let row = JobRowView {
                error_summary: Some(f.error_summary),
                ..released(
                    job,
                    JobState::RetryWait,
                    Some(retry_after),
                    transaction_id,
                )
            };
            lemma_one_job(t, after, row);
        }
    }
}

/// A job is cancelled exactly when it is there and either pending, with no
/// token or its own, or leased, with its own token. Nothing of it changes but
/// that it is cancelled, now, and has no lease.
pub proof fn law_cancel(t: Tables, transaction_id: Id, now_ms: i64, c: JobCancellation)
    requires
        sound(t),
    ensures
        ({
            let r = operation_result(t, transaction_id, now_ms, OperationView::CancelJob(c));
            &&& r is Ok <==> (find_job(t.jobs, c.job_id) matches Some(job) && (if c.lease_token
                is None {
                job.state is Pending
            } else {
                (job.state is Pending || job.state is Leased) && job.lease_token == c.lease_token
            }))
            &&& r matches Ok(after) ==> {
                let job = find_job(t.jobs, c.job_id)->0;
                find_job(after.jobs, c.job_id) matches Some(row) && {
                    &&& same_job(job, row)
                    &&& row.state is Cancelled
                    &&& at_rest(row)
                    &&& row.terminal_at_ms == Some(now_ms)
                    &&& row.result_digest == job.result_digest
                    &&& row.error_summary == job.error_summary
                    &&& changed_by(row, transaction_id)
                    &&& only_job_changed(t, after, c.job_id)
                    &&& after.receipts == t.receipts
                    &&& partition_drained(t, after, job.queue, job.partition_key)
                }
            }
        }),
{
    let r = operation_result(t, transaction_id, now_ms, OperationView::CancelJob(c));
    if let Ok(after) = r {
        let k = lemma_found(t.jobs, c.job_id);
        let job = t.jobs[k];
        lemma_id_blob(transaction_id);
        let row = finished(
            job,
            JobState::Cancelled,
            now_ms,
            transaction_id,
            None,
            None,
        );
        lemma_drained(t, job, row);
        lemma_one_job(t, after, row);
    }
}

/// Exactly the uncertain jobs can be resolved. A retry makes the job pending
/// again, at once and with its attempts as they are, as long as it has an
/// attempt left, and dead where it has none; the other resolutions finish it as
/// they say, now.
pub proof fn law_resolve(t: Tables, transaction_id: Id, now_ms: i64, q: JobResolution)
    requires
        sound(t),
    ensures
        ({
            let r = operation_result(
                t,
                transaction_id,
                now_ms,
                OperationView::ResolveUncertainJob(q),
            );
            &&& r is Ok <==> (find_job(t.jobs, q.job_id) matches Some(job) && job.state
                is Uncertain)
            &&& r matches Ok(after) ==> {
                let job = find_job(t.jobs, q.job_id)->0;
                find_job(after.jobs, q.job_id) matches Some(row) && {
                    &&& same_job(job, row)
                    &&& at_rest(row)
                    &&& row.result_digest == job.result_digest
                    &&& changed_by(row, transaction_id)
                    &&& only_job_changed(t, after, q.job_id)
                    &&& after.receipts == t.receipts
                    &&& row.state is Pending <==> q.resolution is Retry && job.attempt
                        < job.max_attempts
                    &&& row.state is Dead <==> q.resolution is MarkDead || (q.resolution is Retry
                        && job.attempt >= job.max_attempts)
                    &&& row.state is Succeeded <==> q.resolution is MarkSucceeded
                    &&& row.state is Pending ==> row.terminal_at_ms == job.terminal_at_ms
                        && row.error_summary == job.error_summary && after.partitions
                        == t.partitions
                    &&& !(row.state is Pending) ==> row.terminal_at_ms == Some(now_ms)
                        && partition_drained(t, after, job.queue, job.partition_key)
                    &&& row.error_summary == match q.resolution {
                        Resolution::MarkSucceeded => job.error_summary,
                        Resolution::MarkDead => Some("resolved as dead"@),
                        Resolution::Retry => if job.attempt < job.max_attempts {
                            job.error_summary
                        } else {
                            Some("retry resolution exhausted max_attempts"@)
                        },
                    }
                }
            }
        }),
{
    let r = operation_result(t, transaction_id, now_ms, OperationView::ResolveUncertainJob(q));
    if let Ok(after) = r {
        let k = lemma_found(t.jobs, q.job_id);
        let job = t.jobs[k];
        lemma_id_blob(transaction_id);
        if q.resolution is Retry && job.attempt < job.max_attempts {
            lemma_one_job(
                t,
                after,
                released(job, JobState::Pending, None, transaction_id),
            );
        } else {
            let (to, summary) = match q.resolution {
                Resolution::Retry => (
                    JobState::Dead,
                    Some("retry resolution exhausted max_attempts"@),
                ),
                Resolution::MarkSucceeded => (JobState::Succeeded, None),
                Resolution::MarkDead => (JobState::Dead, Some("resolved as dead"@)),
            };
            let row = finished(job, to, now_ms, transaction_id, None, summary);
            lemma_drained(t, job, row);
            lemma_one_job(t, after, row);
        }
    }
}

/// A lease is extended exactly when its job is there and leased under this
/// token, the lease has not run out, and the new expiry is later. The job and
/// the receipts of this very lease get the new expiry; nothing else changes.
pub proof fn law_extend(t: Tables, transaction_id: Id, now_ms: i64, e: LeaseExtension)
    requires
        sound(t),
    ensures
        ({
            let r = operation_result(t, transaction_id, now_ms, OperationView::ExtendLease(e));
            &&& r is Ok <==> (find_job(t.jobs, e.job_id) matches Some(job) && job.state is Leased
                && job.lease_token == Some(e.lease_token) && match job.lease_expires_at_ms {
                Some(ms) => now_ms <= ms < e.new_expiry_ms,
                None => now_ms == i64::MIN && e.new_expiry_ms > i64::MIN,
            })
            &&& r matches Ok(after) ==> {
                let job = find_job(t.jobs, e.job_id)->0;
                find_job(after.jobs, e.job_id) matches Some(row) && {
                    &&& same_job(job, row)
                    &&& row.state is Leased
                    &&& row.lease_token == job.lease_token
                    &&& row.worker_id == job.worker_id
                    &&& row.lease_expires_at_ms == Some(e.new_expiry_ms)
                    &&& row.retry_after_ms == job.retry_after_ms
                    &&& row.terminal_at_ms == job.terminal_at_ms
                    &&& row.result_digest == job.result_digest
                    &&& row.error_summary == job.error_summary
                    &&& row.updated_transaction_id == job.updated_transaction_id
                    &&& only_job_changed(t, after, e.job_id)
                    &&& after.partitions == t.partitions
                    &&& after.receipts.len() == t.receipts.len()
                    &&& forall|i: int|
                        0 <= i < t.receipts.len() ==> {
                            let old_receipt = #[trigger] t.receipts[i];
                            let new_receipt = after.receipts[i];
                            &&& new_receipt.transaction_id == old_receipt.transaction_id
                            &&& new_receipt.job_id == old_receipt.job_id
                            &&& new_receipt.lease_token == old_receipt.lease_token
                            &&& new_receipt.attempt == old_receipt.attempt
                            &&& new_receipt.worker_id == old_receipt.worker_id
                            &&& new_receipt.lease_expires_at_ms == (if old_receipt.job_id
                                == e.job_id && old_receipt.lease_token == e.lease_token {
                                e.new_expiry_ms
                            } else {
                                old_receipt.lease_expires_at_ms
                            })
                        }
                }
            }
        }),
{
    let r = operation_result(t, transaction_id, now_ms, OperationView::ExtendLease(e));
    if let Ok(after) = r {
        let k = lemma_found(t.jobs, e.job_id);
        let job = t.jobs[k];
        let row = JobRowView { lease_expires_at_ms: Some(e.new_expiry_ms), ..job };
        lemma_one_job(t, after, row);
    }
}

/// An operation on a job that is not there is refused, and says so; a job that
/// is there is refused with the state that it is in and the one it was to go
/// to where the state is in the way, and as a stale token where only the token
/// is.
pub proof fn law_refusals_name_the_cause(
    t: Tables,
    transaction_id: Id,
    now_ms: i64,
    job_id: Id,
    token: Id,
    digest: Option<Seq<u8>>,
    summary: Seq<char>,
    retry_after_ms: Option<i64>,
    resolution: Resolution,
    new_expiry_ms: i64,
)
    ensures
        ({
            let ack = operation_result(
                t,
                transaction_id,
                now_ms,
                OperationView::AcknowledgeJob(
                    JobAckView { job_id, lease_token: token, result_digest: digest },
                ),
            );
            let fail = operation_result(
                t,
                transaction_id,
                now_ms,
                OperationView::FailJob(
                    JobFailureView {
                        job_id,
                        lease_token: token,
                        error_summary: summary,
                        retry_after_ms,
                    },
                ),
            );
            let bare_cancel = operation_result(
                t,
                transaction_id,
                now_ms,
                OperationView::CancelJob(JobCancellation { job_id, lease_token: None }),
            );
            let cancel = operation_result(
                t,
                transaction_id,
                now_ms,
                OperationView::CancelJob(JobCancellation { job_id, lease_token: Some(token) }),
            );
            let resolve = operation_result(
                t,
                transaction_id,
                now_ms,
                OperationView::ResolveUncertainJob(JobResolution { job_id, resolution }),
            );
            let extend = operation_result(
                t,
                transaction_id,
                now_ms,
                OperationView::ExtendLease(
                    LeaseExtension { job_id, lease_token: token, new_expiry_ms },
                ),
            );
            let missing = Err::<Tables, CommitErrorView>(
                CommitErrorView::Validation("job "@ + hex_of(job_id) + " does not exist"@),
            );
            let stale = Err::<Tables, CommitErrorView>(
                CommitErrorView::Validation("stale lease token for job "@ + hex_of(job_id)),
            );
            match find_job(t.jobs, job_id) {
                None => {
                    &&& ack == missing
                    &&& fail == missing
                    &&& bare_cancel == missing
                    &&& cancel == missing
                    &&& resolve == missing
                    &&& extend == Err::<Tables, CommitErrorView>(
                        CommitErrorView::Conflict(
                            ConflictView::Lease(LeaseConflict::JobNotFound(job_id)),
                        ),
                    )
                },
                Some(job) => {
                    let no_step = |to: JobState|
                        Err::<Tables, CommitErrorView>(
                            CommitErrorView::Conflict(
                                ConflictView::JobTransition { job_id, from: job.state, to },
                            ),
                        );
                    let lease = |c: LeaseConflict|
                        Err::<Tables, CommitErrorView>(
                            CommitErrorView::Conflict(ConflictView::Lease(c)),
                        );
                    let last = job.attempt >= job.max_attempts;
                    let expiry: i64 = match job.lease_expires_at_ms {
                        Some(ms) => ms,
                        None => i64::MIN,
                    };
                    &&& !(job.state is Leased) && !(job.state is Uncertain) ==> ack == no_step(
                        JobState::Succeeded,
                    )
                    &&& (job.state is Leased || job.state is Uncertain) && job.lease_token != Some(
                        token,
                    ) ==> ack == stale
                    &&& !(job.state is Leased) && !(last && job.state is Uncertain) ==> fail
                        == no_step(
                        if last {
                            JobState::Dead
                        } else {
                            JobState::RetryWait
                        },
                    )
                    &&& (job.state is Leased || last && job.state is Uncertain) && job.lease_token
                        != Some(token) ==> fail == stale
                    &&& job.state is Leased && job.lease_token == Some(token) && !last
                        && retry_after_ms is None && now_ms + 30_000 > i64::MAX ==> fail == Err::<
                        Tables,
                        CommitErrorView,
                    >(
                        CommitErrorView::Validation(
                            "default retry timestamp overflows i64; supply retry_after_ms explicitly"@,
                        ),
                    )
                    &&& !(job.state is Pending) && !(job.state is Leased) ==> bare_cancel
                        == no_step(JobState::Cancelled) && cancel == no_step(JobState::Cancelled)
                    &&& job.state is Leased ==> bare_cancel == Err::<Tables, CommitErrorView>(
                        CommitErrorView::Validation(
                            "cancelling leased job "@ + hex_of(job_id)
                                + " requires its lease token"@,
                        ),
                    )
                    &&& (job.state is Pending || job.state is Leased) && job.lease_token != Some(
                        token,
                    ) ==> cancel == stale
                    &&& !(job.state is Uncertain) ==> resolve == no_step(
                        match resolution {
                            Resolution::Retry => if last {
                                JobState::Dead
                            } else {
                                JobState::Pending
                            },
                            Resolution::MarkSucceeded => JobState::Succeeded,
                            Resolution::MarkDead => JobState::Dead,
                        },
                    )
                    &&& !(job.state is Leased) ==> extend == lease(
                        LeaseConflict::NotLeased { job_id, state: job.state },
                    )
                    &&& job.state is Leased && job.lease_token != Some(token) ==> extend == lease(
                        LeaseConflict::InvalidToken { job_id },
                    )
                    &&& job.state is Leased && job.lease_token == Some(token) && now_ms > expiry
                        ==> extend == lease(
                        LeaseConflict::Expired { job_id, lease_expires_at_ms: expiry, now_ms },
                    )
                    &&& job.state is Leased && job.lease_token == Some(token) && now_ms <= expiry
                        && new_expiry_ms <= expiry ==> extend == lease(
                        LeaseConflict::ExpiryNotLater {
                            job_id,
                            current_ms: expiry,
                            requested_ms: new_expiry_ms,
                        },
                    )
                },
            }
        }),
{
    if has_job(t.jobs, job_id) {
        lemma_found(t.jobs, job_id);
    }
}

} // verus!
