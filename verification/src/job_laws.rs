//! What commits promise of jobs.
use vstd::prelude::*;

use crate::batch::{BatchView, OperationView};
use crate::claim_steps::{lemma_with_transaction, with_transaction};
use crate::commit_steps::{
    commit_result, commit_transaction, find_transaction, lemma_operations, operation_result,
    operations_result,
};
use crate::id::Id;
use crate::row::{columns_ok, stored, JobColumns, JobRowView};
use crate::state::{can_step, law_codes_round_trip, terminal};
use crate::tables::{
    consistent, find_job, has_job, has_transaction, ids_distinct, lemma_find_at, lemma_found,
    lemma_replace_job, replace_job, row_ok, sound, Tables,
};

verus! {

/// The job that an operation names.
pub open spec fn named_job(o: OperationView) -> Option<Id> {
    match o {
        OperationView::AppendEvent(_) => None,
        OperationView::ApplyProjectionPatch(_) => None,
        OperationView::EnqueueJob(s) => Some(s.job_id),
        OperationView::AcknowledgeJob(a) => Some(a.job_id),
        OperationView::FailJob(f) => Some(f.job_id),
        OperationView::CancelJob(c) => Some(c.job_id),
        OperationView::ResolveUncertainJob(r) => Some(r.job_id),
        OperationView::ExtendLease(e) => Some(e.job_id),
    }
}

/// The two rows describe the same job: what it was enqueued with has not
/// changed, and no attempt has been used up.
pub open spec fn same_job(a: JobRowView, b: JobRowView) -> bool {
    &&& a.job_id == b.job_id
    &&& a.enqueue_sequence == b.enqueue_sequence
    &&& a.queue == b.queue
    &&& a.partition_key == b.partition_key
    &&& a.payload == b.payload
    &&& a.not_before_ms == b.not_before_ms
    &&& a.max_attempts == b.max_attempts
    &&& a.effect_mode == b.effect_mode
    &&& a.idempotency_key == b.idempotency_key
    &&& a.enqueue_transaction_id == b.enqueue_transaction_id
    &&& a.attempt == b.attempt
}

/// What becomes of a job in one operation: nothing, or a step of the state
/// machine, or a longer lease.
pub open spec fn stepped(a: JobRowView, b: JobRowView) -> bool {
    &&& same_job(a, b)
    &&& a == b || can_step(a.state, b.state) || (a.state is Leased && b.state is Leased)
}

proof fn lemma_pushed(jobs: Seq<JobRowView>, row: JobRowView, job_id: Id)
    requires
        ids_distinct(jobs),
        !has_job(jobs, row.job_id),
        job_id != row.job_id,
    ensures
        find_job(jobs.push(row), job_id) == find_job(jobs, job_id),
{
    let after = jobs.push(row);
    let n = jobs.len() as int;
    assert(after[n] == row);
    assert forall|i: int, j: int| 0 <= i < j < after.len() implies (#[trigger] after[i]).job_id != (
    #[trigger] after[j]).job_id by {
        assert(after[i] == jobs[i]);
        if j < n {
            assert(after[j] == jobs[j]);
        }
    }
    if has_job(jobs, job_id) {
        let k = lemma_found(jobs, job_id);
        assert(after[k] == jobs[k]);
        lemma_find_at(after, k);
    } else if has_job(after, job_id) {
        let k = lemma_found(after, job_id);
        assert(k < n);
        assert(jobs[k].job_id == job_id);
    }
}

/// An operation changes no job but the one it names.
pub proof fn law_operation_changes_one_job(
    t: Tables,
    transaction_id: Id,
    now_ms: i64,
    o: OperationView,
    job_id: Id,
)
    requires
        sound(t),
        operation_result(t, transaction_id, now_ms, o) is Ok,
        named_job(o) != Some(job_id),
    ensures
        find_job((operation_result(t, transaction_id, now_ms, o)->Ok_0).jobs, job_id) == find_job(
            t.jobs,
            job_id,
        ),
{
    let after = operation_result(t, transaction_id, now_ms, o)->Ok_0;
    match o {
        OperationView::AppendEvent(_) => {},
        OperationView::ApplyProjectionPatch(_) => {},
        OperationView::EnqueueJob(s) => {
            lemma_pushed(t.jobs, after.jobs.last(), job_id);
        },
        _ => {
            lemma_replaced(t, transaction_id, now_ms, o);
        },
    }
}

/// An operation on a job that is there replaces its row by one that has taken
/// a step.
proof fn lemma_replaced(t: Tables, transaction_id: Id, now_ms: i64, o: OperationView) -> (row:
    JobRowView)
    requires
        sound(t),
        operation_result(t, transaction_id, now_ms, o) is Ok,
        !(o is AppendEvent),
        !(o is ApplyProjectionPatch),
        !(o is EnqueueJob),
    ensures
        ({
            let after = operation_result(t, transaction_id, now_ms, o)->Ok_0;
            let id = named_job(o)->0;
            &&& has_job(t.jobs, id)
            &&& after.jobs == replace_job(t.jobs, row)
            &&& row.job_id == id
            &&& find_job(after.jobs, id) == Some(row)
            &&& stepped(find_job(t.jobs, id)->0, row)
            &&& !terminal((find_job(t.jobs, id)->0).state)
            &&& forall|x: Id|
                x != id ==> #[trigger] find_job(after.jobs, x) == find_job(t.jobs, x)
        }),
{
    let id = named_job(o)->0;
    let k = lemma_found(t.jobs, id);
    let job = t.jobs[k];
    let after = operation_result(t, transaction_id, now_ms, o)->Ok_0;
    let row = after.jobs[k];
    assert forall|i: int| 0 <= i < t.jobs.len() && i != k implies (#[trigger] t.jobs[i]).job_id
        != job.job_id by {
        if i < k {
            assert(t.jobs[i].job_id != t.jobs[k].job_id);
        } else {
            assert(t.jobs[k].job_id != t.jobs[i].job_id);
        }
    }
    assert(after.jobs =~= replace_job(t.jobs, row));
    lemma_replace_job(t.jobs, row);
    row
}

/// An operation takes no job that is there anywhere but along a step of the
/// state machine: what the job was enqueued with stays, and so does the number
/// of its attempts.
pub proof fn law_operation_takes_a_step(
    t: Tables,
    transaction_id: Id,
    now_ms: i64,
    o: OperationView,
    job_id: Id,
)
    requires
        sound(t),
        operation_result(t, transaction_id, now_ms, o) is Ok,
        has_job(t.jobs, job_id),
    ensures
        find_job((operation_result(t, transaction_id, now_ms, o)->Ok_0).jobs, job_id) matches Some(
            row,
        ) && stepped(find_job(t.jobs, job_id)->0, row),
{
    lemma_found(t.jobs, job_id);
    if named_job(o) != Some(job_id) {
        law_operation_changes_one_job(t, transaction_id, now_ms, o, job_id);
    } else {
        lemma_replaced(t, transaction_id, now_ms, o);
    }
}

/// No operation changes a finished job.
pub proof fn law_finished_jobs_stay(
    t: Tables,
    transaction_id: Id,
    now_ms: i64,
    o: OperationView,
    job_id: Id,
)
    requires
        sound(t),
        operation_result(t, transaction_id, now_ms, o) is Ok,
        find_job(t.jobs, job_id) matches Some(row) && terminal(row.state),
    ensures
        find_job((operation_result(t, transaction_id, now_ms, o)->Ok_0).jobs, job_id) == find_job(
            t.jobs,
            job_id,
        ),
{
    lemma_found(t.jobs, job_id);
    if named_job(o) != Some(job_id) {
        law_operation_changes_one_job(t, transaction_id, now_ms, o, job_id);
    } else {
        lemma_replaced(t, transaction_id, now_ms, o);
    }
}

/// No commit changes a finished job.
pub proof fn law_commit_keeps_finished_jobs(t: Tables, b: BatchView, job_id: Id)
    requires
        sound(t),
        commit_result(t, b) is Ok,
        find_job(t.jobs, job_id) matches Some(row) && terminal(row.state),
    ensures
        find_job((commit_result(t, b)->Ok_0).0.jobs, job_id) == find_job(t.jobs, job_id),
{
    if find_transaction(t.transactions, b.transaction_id) is None {
        let row = commit_transaction(t, b);
        lemma_with_transaction(t, row);
        lemma_finished_jobs_stay(
            with_transaction(t, row),
            b.transaction_id,
            b.committed_at_ms,
            b.operations,
            job_id,
        );
    }
}

proof fn lemma_finished_jobs_stay(
    t: Tables,
    transaction_id: Id,
    now_ms: i64,
    ops: Seq<OperationView>,
    job_id: Id,
)
    requires
        sound(t),
        has_transaction(t.transactions, transaction_id),
        operations_result(t, transaction_id, now_ms, ops) is Ok,
        find_job(t.jobs, job_id) matches Some(row) && terminal(row.state),
    ensures
        find_job((operations_result(t, transaction_id, now_ms, ops)->Ok_0).jobs, job_id)
            == find_job(t.jobs, job_id),
    decreases ops.len(),
{
    if ops.len() > 0 {
        let front = ops.drop_last();
        lemma_finished_jobs_stay(t, transaction_id, now_ms, front, job_id);
        lemma_operations(t, transaction_id, now_ms, front);
        let mid = operations_result(t, transaction_id, now_ms, front)->Ok_0;
        law_finished_jobs_stay(mid, transaction_id, now_ms, ops.last(), job_id);
    }
}

/// A leased job is acknowledged, failed, cancelled or kept only with its
/// current token: any other is refused, whatever else the operation says.
pub proof fn law_stale_tokens_are_refused(
    t: Tables,
    transaction_id: Id,
    now_ms: i64,
    o: OperationView,
)
    requires
        sound(t),
        match o {
            OperationView::AcknowledgeJob(a) => find_job(t.jobs, a.job_id) matches Some(job)
                && job.state is Leased && job.lease_token != Some(a.lease_token),
            OperationView::FailJob(f) => find_job(t.jobs, f.job_id) matches Some(job)
                && job.state is Leased && job.lease_token != Some(f.lease_token),
            OperationView::CancelJob(c) => find_job(t.jobs, c.job_id) matches Some(job)
                && job.state is Leased && job.lease_token != c.lease_token,
            OperationView::ExtendLease(e) => find_job(t.jobs, e.job_id) matches Some(job)
                && job.state is Leased && job.lease_token != Some(e.lease_token),
            _ => false,
        },
    ensures
        operation_result(t, transaction_id, now_ms, o) is Err,
{
}

/// An uncertain job leaves its state only by being resolved.
pub proof fn law_uncertain_jobs_wait_for_a_resolution(
    t: Tables,
    transaction_id: Id,
    now_ms: i64,
    o: OperationView,
    job_id: Id,
)
    requires
        consistent(t),
        operation_result(t, transaction_id, now_ms, o) is Ok,
        find_job(t.jobs, job_id) matches Some(row) && row.state is Uncertain,
        !(o is ResolveUncertainJob),
    ensures
        find_job((operation_result(t, transaction_id, now_ms, o)->Ok_0).jobs, job_id) == find_job(
            t.jobs,
            job_id,
        ),
{
    let k = lemma_found(t.jobs, job_id);
    assert(row_ok(t.jobs[k]));
    if named_job(o) != Some(job_id) {
        law_operation_changes_one_job(t, transaction_id, now_ms, o, job_id);
    }
}

/// The columns of every job of consistent tables pass the check that they are
/// stored with.
pub proof fn law_consistent_jobs_can_be_stored(t: Tables, i: int, c: JobColumns)
    requires
        consistent(t),
        0 <= i < t.jobs.len(),
        stored(t.jobs[i], c),
    ensures
        columns_ok(c),
{
    assert(row_ok(t.jobs[i]));
    law_codes_round_trip(t.jobs[i].state, t.jobs[i].effect_mode, 0);
}

} // verus!
