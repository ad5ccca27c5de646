//! What a claim promises, in terms of the jobs before and after it and of what
//! the worker gets.
use vstd::prelude::*;

use crate::claim::{
    after_claim, claim_refusal, claim_result, law_claim_effect, lease_terms, lemma_plan,
    lemma_untaken, receipt_taken, settled_claim, transaction_refusal,
};
use crate::claim_steps::{
    after_grants, after_repairs, claim_transaction, current, lemma_current_front, lemma_grants,
    lemma_repairs, repaired_row, with_transaction, LeaseTerms,
};
use crate::digest::checksum_of;
use crate::error::{ClaimErrorView, StorageErrorView};
use crate::id::{hex_of, Id};
use crate::job_laws::same_job;
use crate::jobs::{ClaimOutcomeView, ClaimRequestView, ClaimedJobView};
use crate::operation_laws::{at_rest, changed_by, unfinished};
use crate::plan::{
    expiry, head, head_if_ready, in_partition, lease_expired, leases, lemma_head_in_partition,
    ready, ready_heads_of, repaired_state, repairs, visiting_order,
};
use crate::plan_laws::{
    law_leases, law_repaired_jobs_are_not_leased, law_repairs, law_visiting_order, repaired_before,
    visited_before,
};
use crate::row::{lemma_id_blob, JobRowView};
use crate::seqs::{lemma_filter_indices, lemma_filter_map_contains, lemma_filter_map_indices};
use crate::tables::{
    active_in, find_cursor, find_job, has_active, has_cursor, has_job, has_receipt, has_transaction,
    ids_distinct, lemma_find_at, lemma_found, lemma_replace_job, listed, not_partition, replace_job,
    row_fits, sound, CursorRowView, PartitionRowView, Tables,
};
use crate::text::{decimal, signed_decimal};

verus! {

/// The lease of this job of the queue ran out before now.
pub open spec fn run_out(r: JobRowView, queue: Seq<char>, now_ms: i64) -> bool {
    &&& r.queue == queue
    &&& r.state is Leased
    &&& r.lease_expires_at_ms matches Some(ms) && ms < now_ms
}

/// The first job ran out before the second, or was enqueued before it where
/// they ran out at the same time.
pub open spec fn ran_out_first(a: JobRowView, b: JobRowView) -> bool {
    match (a.lease_expires_at_ms, b.lease_expires_at_ms) {
        (Some(x), Some(y)) => x < y || x == y && a.enqueue_sequence < b.enqueue_sequence,
        _ => false,
    }
}

/// The job waits, and what it waits for has come.
pub open spec fn may_start(r: JobRowView, now_ms: i64) -> bool {
    ||| r.state is Pending && r.not_before_ms <= now_ms
    ||| r.state is RetryWait && r.not_before_ms <= now_ms && (r.retry_after_ms matches Some(ms)
        ==> ms <= now_ms)
}

/// The job is the first unfinished one of its partition.
pub open spec fn leads(jobs: Seq<JobRowView>, k: int) -> bool {
    &&& 0 <= k < jobs.len()
    &&& unfinished(jobs[k])
    &&& forall|i: int|
        0 <= i < k && (#[trigger] jobs[i]).queue == jobs[k].queue && jobs[i].partition_key
            == jobs[k].partition_key ==> !unfinished(jobs[i])
}

/// The claim may lease this job: it leads its partition and may start, and the
/// partition is the one that the claim names or, where it names none, a listed
/// one of its queue.
pub open spec fn leasable(t: Tables, req: ClaimRequestView, k: int) -> bool {
    &&& leads(t.jobs, k)
    &&& t.jobs[k].queue == req.queue
    &&& may_start(t.jobs[k], req.now_ms)
    &&& match req.partition_key {
        Some(key) => t.jobs[k].partition_key == key,
        None => exists|i: int|
            0 <= i < t.partitions.len() && (#[trigger] t.partitions[i]).queue == req.queue
                && t.partitions[i].partition_key == t.jobs[k].partition_key,
    }
}

/// What the repair of a lease that ran out makes of its job. Work that must be
/// reconciled becomes uncertain, whatever its attempts; work that may be
/// repeated is dead with its last attempt and pending before that.
pub open spec fn mended(job: JobRowView, row: JobRowView, now_ms: i64, transaction_id: Id) -> bool {
    let last = job.attempt >= job.max_attempts;
    &&& same_job(job, row)
    &&& at_rest(row)
    &&& changed_by(row, transaction_id)
    &&& row.result_digest == job.result_digest
    &&& job.effect_mode is RequiresReconciliation ==> row.state is Uncertain
    &&& job.effect_mode is ExplicitlyIdempotent && last ==> row.state is Dead
    &&& job.effect_mode is ExplicitlyIdempotent && !last ==> row.state is Pending
    &&& row.state is Dead ==> row.terminal_at_ms == Some(now_ms) && row.error_summary == Some(
        "lease expired at final attempt"@,
    )
    &&& !(row.state is Dead) ==> row.terminal_at_ms == job.terminal_at_ms && row.error_summary
        == job.error_summary
}

/// The state that the repair of a lease leads to: work that must be reconciled
/// becomes uncertain whatever its attempts, and other work is dead exactly when
/// it has used its last attempt, and pending before that.
pub proof fn law_repair_by_effect_mode(r: JobRowView)
    ensures
        r.effect_mode is RequiresReconciliation ==> repaired_state(r) is Uncertain,
        r.effect_mode is ExplicitlyIdempotent ==> repaired_state(r) is Dead || repaired_state(r)
            is Pending,
        r.effect_mode is ExplicitlyIdempotent ==> (repaired_state(r) is Dead <==> r.attempt
            >= r.max_attempts),
{
}

/// The row is that of the job, leased on these terms for one attempt more.
pub open spec fn now_leased(
    job: JobRowView,
    row: JobRowView,
    token: Id,
    req: ClaimRequestView,
    transaction_id: Id,
) -> bool {
    &&& same_job(JobRowView { attempt: row.attempt, ..job }, row)
    &&& row.attempt == job.attempt + 1
    &&& row.state is Leased
    &&& row.lease_token == Some(token)
    &&& row.worker_id == Some(req.worker_id)
    &&& row.lease_expires_at_ms is Some && row.lease_expires_at_ms->0 == req.now_ms + req.lease_ms
    &&& row.retry_after_ms is None
    &&& row.terminal_at_ms == job.terminal_at_ms
    &&& row.result_digest == job.result_digest
    &&& row.error_summary == job.error_summary
    &&& changed_by(row, transaction_id)
}

/// What the worker gets is the leased row.
pub open spec fn handed_out(c: ClaimedJobView, row: JobRowView) -> bool {
    &&& c.job_id == row.job_id
    &&& c.queue == row.queue
    &&& c.partition_key == row.partition_key
    &&& c.payload == row.payload
    &&& c.idempotency_key == row.idempotency_key
    &&& c.attempt == row.attempt
    &&& Some(c.worker_id) == row.worker_id
    &&& Some(c.lease_token) == row.lease_token
    &&& Some(c.lease_expires_at_ms) == row.lease_expires_at_ms
}

/// The transaction of a claim, for the outcomes that have one.
pub open spec fn transaction_of(outcome: ClaimOutcomeView) -> Option<Id> {
    match outcome {
        ClaimOutcomeView::Noop => None,
        ClaimOutcomeView::MaintenanceCommitted(id) => Some(id),
        ClaimOutcomeView::Committed(c) => Some(c.transaction_id),
    }
}

/// The jobs that a claim hands out.
pub open spec fn handed(outcome: ClaimOutcomeView) -> Seq<ClaimedJobView> {
    match outcome {
        ClaimOutcomeView::Committed(c) => c.jobs,
        _ => Seq::empty(),
    }
}

/// The cursor of a queue is the one that stands for it, where one does.
pub proof fn law_cursor_lookup(cursors: Seq<CursorRowView>, queue: Seq<char>)
    ensures
        (forall|i: int| 0 <= i < cursors.len() ==> (#[trigger] cursors[i]).queue != queue)
            <==> find_cursor(cursors, queue) is None,
        find_cursor(cursors, queue) matches Some(key) ==> exists|i: int|
            0 <= i < cursors.len() && (#[trigger] cursors[i]).queue == queue
                && cursors[i].last_partition_key == key,
{
    if has_cursor(cursors, queue) {
        let k = choose|k: int| 0 <= k < cursors.len() && (#[trigger] cursors[k]).queue == queue;
        assert(cursors[k].queue == queue);
    }
}

proof fn lemma_leads(jobs: Seq<JobRowView>, queue: Seq<char>, key: Seq<char>) -> (k: int)
    requires
        ids_distinct(jobs),
        head(jobs, queue, key) is Some,
    ensures
        leads(jobs, k),
        jobs[k] == head(jobs, queue, key)->0,
        jobs[k].queue == queue,
        jobs[k].partition_key == key,
{
    let pred = in_partition(queue, key);
    let idx = lemma_filter_indices(jobs, pred);
    jobs.filter_lemma(pred);
    let mine = jobs.filter(pred);
    let k = idx[0];
    assert(pred(jobs[k]));
    assert forall|i: int|
        0 <= i < k && (#[trigger] jobs[i]).queue == jobs[k].queue && jobs[i].partition_key
            == jobs[k].partition_key implies !unfinished(jobs[i]) by {
        if unfinished(jobs[i]) {
            assert(pred(jobs[i]));
            assert(mine.contains(jobs[i]));
            let m = choose|m: int| 0 <= m < mine.len() && mine[m] == jobs[i];
            assert(jobs[idx[m]] == jobs[i]);
            if m > 0 {
                assert(idx[0] < idx[m]);
            }
            assert(jobs[i].job_id != jobs[idx[m]].job_id);
        }
    }
    k
}

proof fn lemma_leader_is_head(jobs: Seq<JobRowView>, k: int)
    requires
        ids_distinct(jobs),
        leads(jobs, k),
    ensures
        head(jobs, jobs[k].queue, jobs[k].partition_key) == Some(jobs[k]),
{
    let pred = in_partition(jobs[k].queue, jobs[k].partition_key);
    let idx = lemma_filter_indices(jobs, pred);
    jobs.filter_lemma(pred);
    let mine = jobs.filter(pred);
    assert(pred(jobs[k]));
    assert(mine.contains(jobs[k]));
    let m = choose|m: int| 0 <= m < mine.len() && mine[m] == jobs[k];
    assert(jobs[idx[m]] == jobs[k]);
    if idx[m] < k {
        assert(jobs[idx[m]].job_id != jobs[k].job_id);
    } else if k < idx[m] {
        assert(jobs[k].job_id != jobs[idx[m]].job_id);
    }
    if m > 0 {
        assert(idx[0] < idx[m]);
        assert(pred(jobs[idx[0]]));
        assert(!unfinished(jobs[idx[0]]));
    }
}

/// Every planned lease is of a job that may be leased.
proof fn lemma_planned(t: Tables, req: ClaimRequestView, i: int) -> (k: int)
    requires
        sound(t),
        0 <= i < leases(t, req).len(),
    ensures
        leasable(t, req, k),
        t.jobs[k] == leases(t, req)[i],
{
    law_leases(t, req);
    let r = leases(t, req)[i];
    let k = lemma_leads(t.jobs, r.queue, r.partition_key);
    if req.partition_key is None {
        let order = visiting_order(t, req.queue);
        let f = ready_heads_of(t.jobs, req.queue, req.now_ms);
        let idx = lemma_filter_map_indices(order, f);
        law_visiting_order(t, req.queue);
        let key = order[idx[i]];
        assert(f(key) == Some(r));
        lemma_head_in_partition(t.jobs, req.queue, key);
        assert(order.contains(key));
        assert(listed(t.partitions, req.queue, key));
    }
    k
}

/// The planned leases are in visiting order, and a job that may be leased is
/// planned unless the limit is reached with jobs that are visited before it.
proof fn lemma_plan_order(t: Tables, req: ClaimRequestView, k: int)
    requires
        sound(t),
    ensures
        req.partition_key is None ==> forall|i: int, j: int|
            0 <= i < j < leases(t, req).len() ==> visited_before(
                find_cursor(t.cursors, req.queue),
                (#[trigger] leases(t, req)[i]).partition_key,
                (#[trigger] leases(t, req)[j]).partition_key,
            ),
        leasable(t, req, k) ==> leases(t, req).contains(t.jobs[k]) || (leases(t, req).len()
            == req.limit && (req.partition_key is None ==> forall|i: int|
            0 <= i < leases(t, req).len() ==> visited_before(
                find_cursor(t.cursors, req.queue),
                (#[trigger] leases(t, req)[i]).partition_key,
                t.jobs[k].partition_key,
            ))),
{
    let granted = leases(t, req);
    match req.partition_key {
        Some(key) => {
            if leasable(t, req, k) {
                lemma_leader_is_head(t.jobs, k);
                assert(head_if_ready(t.jobs, req.queue, key, req.now_ms) == Some(t.jobs[k]));
                if req.limit > 0 {
                    assert(granted[0] == t.jobs[k]);
                }
            }
        },
        None => {
            let cursor = find_cursor(t.cursors, req.queue);
            let order = visiting_order(t, req.queue);
            let f = ready_heads_of(t.jobs, req.queue, req.now_ms);
            let all = order.filter_map(f);
            let idx = lemma_filter_map_indices(order, f);
            law_visiting_order(t, req.queue);
            assert forall|i: int| 0 <= i < all.len() implies (#[trigger] all[i]).partition_key
                == order[idx[i]] by {
                assert(f(order[idx[i]]) == Some(all[i]));
                lemma_head_in_partition(t.jobs, req.queue, order[idx[i]]);
            }
            assert forall|i: int, j: int| 0 <= i < j < granted.len() implies visited_before(
                cursor,
                (#[trigger] granted[i]).partition_key,
                (#[trigger] granted[j]).partition_key,
            ) by {
                assert(granted[i] == all[i] && granted[j] == all[j]);
                assert(idx[i] < idx[j]);
                assert(visited_before(cursor, order[idx[i]], order[idx[j]]));
            }
            if leasable(t, req, k) {
                let key = t.jobs[k].partition_key;
                lemma_leader_is_head(t.jobs, k);
                assert(f(key) == Some(t.jobs[k]));
                assert(listed(t.partitions, req.queue, key));
                assert(order.contains(key));
                let p = choose|p: int| 0 <= p < order.len() && order[p] == key;
                lemma_filter_map_contains(order, f, p);
                assert(all.contains(t.jobs[k]));
                let m = choose|m: int| 0 <= m < all.len() && all[m] == t.jobs[k];
                if m < granted.len() {
                    assert(granted[m] == t.jobs[k]);
                } else {
                    assert forall|i: int| 0 <= i < granted.len() implies visited_before(
                        cursor,
                        (#[trigger] granted[i]).partition_key,
                        key,
                    ) by {
                        assert(granted[i] == all[i]);
                        assert(idx[i] < idx[m]);
                        assert(visited_before(cursor, order[idx[i]], order[idx[m]]));
                        assert(all[m].partition_key == order[idx[m]]);
                    }
                }
            }
        },
    }
}

/// A claim is refused for its own sake exactly when it names no queue, no
/// worker, an empty partition, no time to hold its leases, or a time that has
/// no timestamp; the first of these is what it is told.
pub proof fn law_claim_requests(t: Tables, req: ClaimRequestView, fresh: Seq<Id>)
    ensures
        ({
            let r = claim_result(t, req, fresh);
            let blank = req.partition_key matches Some(key) && key.len() == 0;
            let told = |text: Seq<char>| r matches Err(ClaimErrorView::Validation(m)) && m == text;
            &&& r matches Err(e) ==> (e is Validation <==> req.queue.len() == 0
                || req.worker_id.len() == 0 || blank || req.lease_ms <= 0 || req.now_ms
                + req.lease_ms > i64::MAX)
            &&& r is Ok ==> req.queue.len() > 0 && req.worker_id.len() > 0 && !blank && req.lease_ms
                > 0 && req.now_ms + req.lease_ms <= i64::MAX
            &&& req.queue.len() == 0 ==> told("claim queue cannot be empty"@)
            &&& req.queue.len() > 0 && req.worker_id.len() == 0 ==> told(
                "claim worker id cannot be empty"@,
            )
            &&& req.queue.len() > 0 && req.worker_id.len() > 0 && blank ==> told(
                "claim partition_key cannot be empty"@,
            )
            &&& req.queue.len() > 0 && req.worker_id.len() > 0 && !blank && req.lease_ms <= 0
                ==> told("claim lease_ms must be positive"@)
            &&& req.queue.len() > 0 && req.worker_id.len() > 0 && !blank && req.lease_ms > 0
                && req.now_ms + req.lease_ms > i64::MAX ==> told(
                "lease expiry timestamp overflows i64"@,
            )
        }),
{
}

/// A claim that is in order succeeds where identifiers are at hand: one for
/// each lease and one for its transaction, which must be new.
pub proof fn law_claims_succeed(t: Tables, req: ClaimRequestView, fresh: Seq<Id>)
    requires
        req.queue.len() > 0,
        req.worker_id.len() > 0,
        req.partition_key matches Some(key) ==> key.len() > 0,
        req.lease_ms > 0,
        req.now_ms + req.lease_ms <= i64::MAX,
        fresh.len() > leases(t, req).len(),
        t.transactions.len() > 0 ==> t.transactions.last().transaction_sequence < i64::MAX,
        forall|i: int|
            0 <= i < t.transactions.len() ==> (#[trigger] t.transactions[i]).transaction_id
                != fresh[leases(t, req).len() as int],
        forall|i: int|
            0 <= i < t.receipts.len() ==> (#[trigger] t.receipts[i]).transaction_id
                != fresh[leases(t, req).len() as int],
    ensures
        claim_result(t, req, fresh) is Ok,
{
}

/// A claim that is in order, with more identifiers at hand than leases asked
/// for and all of them new, succeeds.
pub proof fn law_claims_with_enough_identifiers_succeed(
    t: Tables,
    req: ClaimRequestView,
    fresh: Seq<Id>,
)
    requires
        sound(t),
        req.queue.len() > 0,
        req.worker_id.len() > 0,
        req.partition_key matches Some(key) ==> key.len() > 0,
        req.lease_ms > 0,
        req.now_ms + req.lease_ms <= i64::MAX,
        fresh.len() > req.limit,
        t.transactions.len() > 0 ==> t.transactions.last().transaction_sequence < i64::MAX,
        forall|i: int, j: int|
            0 <= i < t.transactions.len() && 0 <= j < fresh.len() ==> (
            #[trigger] t.transactions[i]).transaction_id != #[trigger] fresh[j],
        forall|i: int, j: int|
            0 <= i < t.receipts.len() && 0 <= j < fresh.len() ==> (
            #[trigger] t.receipts[i]).transaction_id != #[trigger] fresh[j],
    ensures
        claim_result(t, req, fresh) is Ok,
{
    law_leases(t, req);
    law_claims_succeed(t, req, fresh);
}

/// A claim that finds nothing to do does nothing, and needs no identifier.
pub proof fn law_idle_claims(t: Tables, req: ClaimRequestView, fresh: Seq<Id>)
    requires
        sound(t),
        req.queue.len() > 0,
        req.worker_id.len() > 0,
        req.partition_key matches Some(key) ==> key.len() > 0,
        req.lease_ms > 0,
        req.now_ms + req.lease_ms <= i64::MAX,
        forall|k: int|
            0 <= k < t.jobs.len() ==> !run_out(#[trigger] t.jobs[k], req.queue, req.now_ms),
        req.limit == 0 || forall|k: int|
            0 <= k < t.jobs.len() ==> !#[trigger] leasable(t, req, k),
    ensures
        claim_result(t, req, fresh) == Ok::<(Tables, ClaimOutcomeView), ClaimErrorView>(
            (t, ClaimOutcomeView::Noop),
        ),
{
    law_leases(t, req);
    law_repairs(t, req.queue, req.now_ms);
    if leases(t, req).len() > 0 {
        let k = lemma_planned(t, req, 0);
    }
    let fixed = repairs(t, req.queue, req.now_ms);
    if fixed.len() > 0 {
        assert(find_job(t.jobs, fixed[0].job_id) == Some(fixed[0]));
        let k = lemma_found(t.jobs, fixed[0].job_id);
        assert(lease_expired(req.queue, req.now_ms)(t.jobs[k]));
    }
}

/// A claim that is in order and refused all the same was out of identifiers,
/// or its transaction cannot be recorded: the numbers are used up, or the
/// identifier is taken.
pub proof fn law_claim_storage_errors(t: Tables, req: ClaimRequestView, fresh: Seq<Id>)
    requires
        claim_result(t, req, fresh) matches Err(ClaimErrorView::Storage(_)),
    ensures
        ({
            let e = claim_result(t, req, fresh)->Err_0->Storage_0;
            ||| e == StorageErrorView::Identifier("no fresh identifier could be drawn"@)
                && fresh.len() <= leases(t, req).len()
            ||| e == StorageErrorView::Sqlite("transaction sequence exhausted"@)
                && t.transactions.len() > 0 && t.transactions.last().transaction_sequence
                == i64::MAX
            ||| e == StorageErrorView::Sqlite(
                "UNIQUE constraint failed: transactions.transaction_id"@,
            ) && exists|i: int|
                0 <= i < t.transactions.len() && fresh.contains(
                    (#[trigger] t.transactions[i]).transaction_id,
                )
            ||| e == StorageErrorView::Sqlite(
                "UNIQUE constraint failed: claim_receipts.transaction_id, claim_receipts.job_id"@,
            ) && exists|i: int|
                0 <= i < t.receipts.len() && fresh.contains(
                    (#[trigger] t.receipts[i]).transaction_id,
                )
        }),
{
    let n = leases(t, req).len() as int;
    if n < fresh.len() {
        let tx = fresh[n];
        assert(fresh.contains(tx));
        if receipt_taken(t, leases(t, req), tx) {
            let k = choose|k: int|
                0 <= k < n && has_receipt(
                    t.receipts,
                    tx,
                    (#[trigger] leases(t, req)[k]).job_id,
                );
            let i = choose|i: int|
                0 <= i < t.receipts.len() && (#[trigger] t.receipts[i]).transaction_id == tx
                    && t.receipts[i].job_id == leases(t, req)[k].job_id;
            assert(fresh.contains(t.receipts[i].transaction_id));
        }
        if has_transaction(t.transactions, tx) {
            let i = choose|i: int|
                0 <= i < t.transactions.len() && (#[trigger] t.transactions[i]).transaction_id
                    == tx;
            assert(fresh.contains(t.transactions[i].transaction_id));
        }
    }
}

/// What is common to the proofs below.
proof fn lemma_done(t: Tables, req: ClaimRequestView, fresh: Seq<Id>)
    requires
        sound(t),
        claim_result(t, req, fresh) is Ok,
        !((claim_result(t, req, fresh)->Ok_0).1 is Noop),
    ensures
        ({
            let (after, outcome) = claim_result(t, req, fresh)->Ok_0;
            let n = leases(t, req).len() as int;
            &&& transaction_refusal(t, fresh[n]) is None
            &&& after == after_claim(t, req, fresh, fresh[n])
            &&& claim_refusal(req) is None
            &&& n < fresh.len()
            &&& transaction_of(outcome) == Some(fresh[n])
            &&& sound(after)
        }),
{
    law_claim_effect(t, req, fresh, fresh[leases(t, req).len() as int]);
}

/// The repairs of a claim: at most sixty-four of the leases of its queue that
/// ran out, those that ran out first, each mended by the effect mode of its
/// job. A lease that ran out and is not among them is left as it is, and only
/// where that many ran out before it.
pub open spec fn repairs_done(
    t: Tables,
    after: Tables,
    req: ClaimRequestView,
    transaction_id: Id,
    at: Seq<int>,
) -> bool {
    &&& at.len() <= 64
    &&& forall|i: int|
        0 <= i < at.len() ==> {
            let job = t.jobs[#[trigger] at[i]];
            &&& 0 <= at[i] < t.jobs.len()
            &&& run_out(job, req.queue, req.now_ms)
            &&& find_job(after.jobs, job.job_id) matches Some(row) && mended(
                job,
                row,
                req.now_ms,
                transaction_id,
            )
        }
    &&& forall|i: int, j: int|
        0 <= i < j < at.len() ==> ran_out_first(t.jobs[#[trigger] at[i]], t.jobs[#[trigger] at[j]])
    &&& forall|k: int|
        0 <= k < t.jobs.len() && run_out(#[trigger] t.jobs[k], req.queue, req.now_ms)
            && !at.contains(k) ==> {
            &&& find_job(after.jobs, t.jobs[k].job_id) == Some(t.jobs[k])
            &&& at.len() == 64
            &&& forall|i: int|
                0 <= i < at.len() ==> ran_out_first(t.jobs[#[trigger] at[i]], t.jobs[k])
        }
}

/// Where the rows of a plan stand in the table.
proof fn lemma_places(jobs: Seq<JobRowView>, rows: Seq<JobRowView>) -> (at: Seq<int>)
    requires
        forall|i: int|
            0 <= i < rows.len() ==> find_job(jobs, (#[trigger] rows[i]).job_id) == Some(rows[i]),
    ensures
        at.len() == rows.len(),
        forall|i: int|
            0 <= i < rows.len() ==> 0 <= #[trigger] at[i] < jobs.len() && jobs[at[i]] == rows[i],
    decreases rows.len(),
{
    if rows.len() == 0 {
        Seq::empty()
    } else {
        let front = lemma_places(jobs, rows.drop_last());
        let last = rows[rows.len() - 1];
        assert(find_job(jobs, last.job_id) == Some(last));
        let k = lemma_found(jobs, last.job_id);
        let at = front.push(k);
        assert forall|i: int| 0 <= i < rows.len() implies 0 <= #[trigger] at[i] < jobs.len()
            && jobs[at[i]] == rows[i] by {
            if i < rows.len() - 1 {
                assert(at[i] == front[i]);
                assert(rows.drop_last()[i] == rows[i]);
            }
        }
        at
    }
}

proof fn lemma_repairs_done(t: Tables, req: ClaimRequestView, fresh: Seq<Id>) -> (at: Seq<int>)
    requires
        sound(t),
        claim_result(t, req, fresh) is Ok,
        !((claim_result(t, req, fresh)->Ok_0).1 is Noop),
    ensures
        ({
            let (after, outcome) = claim_result(t, req, fresh)->Ok_0;
            repairs_done(t, after, req, fresh[leases(t, req).len() as int], at)
        }),
        at.len() == repairs(t, req.queue, req.now_ms).len(),
{
    let (after, outcome) = claim_result(t, req, fresh)->Ok_0;
    let tx = fresh[leases(t, req).len() as int];
    let fixed = repairs(t, req.queue, req.now_ms);
    let granted = leases(t, req);
    lemma_done(t, req, fresh);
    law_claim_effect(t, req, fresh, tx);
    law_repairs(t, req.queue, req.now_ms);
    law_leases(t, req);
    lemma_id_blob(tx);
    let at = lemma_places(t.jobs, fixed);
    assert forall|i: int| 0 <= i < at.len() implies {
        let job = t.jobs[#[trigger] at[i]];
        &&& run_out(job, req.queue, req.now_ms)
        &&& find_job(after.jobs, job.job_id) matches Some(row) && mended(job, row, req.now_ms, tx)
    } by {
        assert(t.jobs[at[i]] == fixed[i]);
        assert(lease_expired(req.queue, req.now_ms)(fixed[i]));
    }
    assert forall|i: int, j: int| 0 <= i < j < at.len() implies ran_out_first(
        t.jobs[#[trigger] at[i]],
        t.jobs[#[trigger] at[j]],
    ) by {
        assert(repaired_before(fixed[i], fixed[j]));
        assert(lease_expired(req.queue, req.now_ms)(fixed[i]));
        assert(lease_expired(req.queue, req.now_ms)(fixed[j]));
    }
    assert forall|k: int|
        0 <= k < t.jobs.len() && run_out(#[trigger] t.jobs[k], req.queue, req.now_ms)
            && !at.contains(k) implies {
        &&& find_job(after.jobs, t.jobs[k].job_id) == Some(t.jobs[k])
        &&& at.len() == 64
        &&& forall|i: int|
            0 <= i < at.len() ==> ran_out_first(t.jobs[#[trigger] at[i]], t.jobs[k])
    } by {
        let job = t.jobs[k];
        lemma_find_at(t.jobs, k);
        assert(lease_expired(req.queue, req.now_ms)(job));
        if has_job(fixed, job.job_id) {
            let i = lemma_found(fixed, job.job_id);
            assert(t.jobs[at[i]] == fixed[i]);
            if at[i] < k {
                assert(t.jobs[at[i]].job_id != t.jobs[k].job_id);
            } else if k < at[i] {
                assert(t.jobs[k].job_id != t.jobs[at[i]].job_id);
            }
            assert(at.contains(k));
        }
        if fixed.contains(job) {
            let i = choose|i: int| 0 <= i < fixed.len() && fixed[i] == job;
            assert(has_job(fixed, job.job_id));
        }
        if has_job(granted, job.job_id) {
            let i = lemma_found(granted, job.job_id);
            assert(find_job(t.jobs, granted[i].job_id) == Some(granted[i]));
            assert(ready(granted[i], req.now_ms));
        }
        assert forall|i: int| 0 <= i < at.len() implies ran_out_first(
            t.jobs[#[trigger] at[i]],
            job,
        ) by {
            assert(repaired_before(fixed[i], job));
            assert(lease_expired(req.queue, req.now_ms)(fixed[i]));
        }
    }
    at
}

/// The repairs of a claim are those that `repairs_done` describes, and a claim
/// that does nothing had none to do.
pub proof fn law_claim_repairs(t: Tables, req: ClaimRequestView, fresh: Seq<Id>)
    requires
        sound(t),
        claim_result(t, req, fresh) is Ok,
    ensures
        ({
            let (after, outcome) = claim_result(t, req, fresh)->Ok_0;
            match transaction_of(outcome) {
                None => after == t && forall|k: int|
                    0 <= k < t.jobs.len() ==> !run_out(#[trigger] t.jobs[k], req.queue, req.now_ms),
                Some(tx) => exists|at: Seq<int>| #[trigger] repairs_done(t, after, req, tx, at),
            }
        }),
{
    let (after, outcome) = claim_result(t, req, fresh)->Ok_0;
    if outcome is Noop {
        law_repairs(t, req.queue, req.now_ms);
        assert forall|k: int| 0 <= k < t.jobs.len() implies !run_out(
            #[trigger] t.jobs[k],
            req.queue,
            req.now_ms,
        ) by {
            if run_out(t.jobs[k], req.queue, req.now_ms) {
                assert(lease_expired(req.queue, req.now_ms)(t.jobs[k]));
                assert(!repairs(t, req.queue, req.now_ms).contains(t.jobs[k]));
            }
        }
    } else {
        lemma_done(t, req, fresh);
        let at = lemma_repairs_done(t, req, fresh);
        assert(repairs_done(t, after, req, transaction_of(outcome)->0, at));
    }
}

/// What a claim makes of one job: a lease that ran out is mended or left as it
/// is, a job that may be leased is leased or left as it is, and every other job
/// is left as it is. In particular work that must be reconciled is never put
/// back by a claim.
pub proof fn law_claim_on_one_job(t: Tables, req: ClaimRequestView, fresh: Seq<Id>, k: int)
    requires
        sound(t),
        claim_result(t, req, fresh) is Ok,
        0 <= k < t.jobs.len(),
    ensures
        ({
            let (after, outcome) = claim_result(t, req, fresh)->Ok_0;
            let job = t.jobs[k];
            find_job(after.jobs, job.job_id) matches Some(row) && {
                &&& row == job || (transaction_of(outcome) matches Some(tx) && (if run_out(
                    job,
                    req.queue,
                    req.now_ms,
                ) {
                    mended(job, row, req.now_ms, tx)
                } else {
                    leasable(t, req, k) && exists|i: int|
                        0 <= i < handed(outcome).len() && handed(outcome)[i].job_id == job.job_id
                            && now_leased(job, row, #[trigger] fresh[i], req, tx)
                }))
                &&& job.state is Leased && job.effect_mode is RequiresReconciliation ==> row.state
                    is Leased || row.state is Uncertain
                &&& !(job.state is Leased) && !(job.state is Pending) && !(job.state is RetryWait)
                    ==> row == job
            }
        }),
{
    let (after, outcome) = claim_result(t, req, fresh)->Ok_0;
    let job = t.jobs[k];
    lemma_find_at(t.jobs, k);
    if !(outcome is Noop) {
        let tx = fresh[leases(t, req).len() as int];
        let fixed = repairs(t, req.queue, req.now_ms);
        let granted = leases(t, req);
        lemma_done(t, req, fresh);
        law_claim_effect(t, req, fresh, tx);
        law_repairs(t, req.queue, req.now_ms);
        law_leases(t, req);
        law_repaired_jobs_are_not_leased(t, req);
        lemma_id_blob(tx);
        if has_job(fixed, job.job_id) {
            let i = lemma_found(fixed, job.job_id);
            assert(find_job(t.jobs, fixed[i].job_id) == Some(fixed[i]));
            assert(lease_expired(req.queue, req.now_ms)(fixed[i]));
        } else if has_job(granted, job.job_id) {
            let i = lemma_found(granted, job.job_id);
            assert(find_job(t.jobs, granted[i].job_id) == Some(granted[i]));
            let m = lemma_planned(t, req, i);
            if m < k {
                assert(t.jobs[m].job_id != t.jobs[k].job_id);
            } else if k < m {
                assert(t.jobs[k].job_id != t.jobs[m].job_id);
            }
            assert(handed(outcome)[i].job_id == job.job_id);
            let row = find_job(after.jobs, job.job_id)->0;
            lemma_attempt_fits(t, k);
            assert(now_leased(job, row, fresh[i], req, tx));
        }
    }
}

proof fn lemma_attempt_fits(t: Tables, k: int)
    requires
        sound(t),
        0 <= k < t.jobs.len(),
        t.jobs[k].state is Pending || t.jobs[k].state is RetryWait,
    ensures
        t.jobs[k].attempt < u32::MAX,
{
    assert(row_fits(t.jobs[k]));
}

/// What a claim hands out: for each lease a job that may be leased, under the
/// next fresh identifier as its token, as the row that it now has and as the
/// receipt that is added for it. No two leases are of one partition, they come
/// in the order in which the partitions are visited, and there are no more than
/// asked for. A job that may be leased and is not comes behind as many others
/// as were asked for.
pub proof fn law_claim_grants(t: Tables, req: ClaimRequestView, fresh: Seq<Id>)
    requires
        sound(t),
        claim_result(t, req, fresh) is Ok,
    ensures
        ({
            let (after, outcome) = claim_result(t, req, fresh)->Ok_0;
            let jobs = handed(outcome);
            let m = t.receipts.len() as int;
            &&& outcome is Committed <==> jobs.len() > 0
            &&& jobs.len() <= req.limit
            &&& outcome matches ClaimOutcomeView::Committed(c) ==> c.stale_jobs.len() == 0
            &&& transaction_of(outcome) matches Some(tx) ==> jobs.len() < fresh.len() && tx
                == fresh[jobs.len() as int]
            &&& forall|i: int|
                0 <= i < jobs.len() ==> granted_to(
                    t,
                    after,
                    req,
                    #[trigger] jobs[i],
                    fresh[i],
                    transaction_of(outcome)->0,
                )
            &&& after.receipts.len() == m + jobs.len()
            &&& forall|i: int| 0 <= i < m ==> after.receipts[i] == #[trigger] t.receipts[i]
            &&& forall|i: int|
                0 <= i < jobs.len() ==> {
                    let receipt = after.receipts[m + i];
                    let c = #[trigger] jobs[i];
                    &&& Some(receipt.transaction_id) == transaction_of(outcome)
                    &&& receipt.job_id == c.job_id
                    &&& receipt.lease_token == c.lease_token
                    &&& receipt.attempt == c.attempt
                    &&& receipt.worker_id == c.worker_id
                    &&& receipt.lease_expires_at_ms == c.lease_expires_at_ms
                }
            &&& forall|i: int, j: int|
                0 <= i < j < jobs.len() ==> (#[trigger] jobs[i]).partition_key != (
                #[trigger] jobs[j]).partition_key
            &&& req.partition_key is None ==> forall|i: int, j: int|
                0 <= i < j < jobs.len() ==> visited_before(
                    find_cursor(t.cursors, req.queue),
                    (#[trigger] jobs[i]).partition_key,
                    (#[trigger] jobs[j]).partition_key,
                )
        }),
{
    let (after, outcome) = claim_result(t, req, fresh)->Ok_0;
    let jobs = handed(outcome);
    let granted = leases(t, req);
    law_leases(t, req);
    lemma_plan_order(t, req, 0);
    if !(outcome is Noop) {
        let tx = fresh[granted.len() as int];
        let terms = lease_terms(req, tx);
        lemma_done(t, req, fresh);
        law_claim_effect(t, req, fresh, tx);
        lemma_id_blob(tx);
        assert forall|i: int| 0 <= i < jobs.len() implies granted_to(
            t,
            after,
            req,
            #[trigger] jobs[i],
            fresh[i],
            tx,
        ) by {
            let k = lemma_planned(t, req, i);
            lemma_attempt_fits(t, k);
            assert(find_job(after.jobs, granted[i].job_id) is Some);
            assert(granted_as(t, after, req, jobs[i], fresh[i], tx, k));
        }
        assert forall|i: int| 0 <= i < t.receipts.len() implies after.receipts[i]
            == #[trigger] t.receipts[i] by {}
        assert forall|i: int, j: int| 0 <= i < j < jobs.len() implies (
        #[trigger] jobs[i]).partition_key != (#[trigger] jobs[j]).partition_key by {
            assert(granted[i].partition_key != granted[j].partition_key);
        }
        if req.partition_key is None {
            assert forall|i: int, j: int| 0 <= i < j < jobs.len() implies visited_before(
                find_cursor(t.cursors, req.queue),
                (#[trigger] jobs[i]).partition_key,
                (#[trigger] jobs[j]).partition_key,
            ) by {
                assert(visited_before(
                    find_cursor(t.cursors, req.queue),
                    granted[i].partition_key,
                    granted[j].partition_key,
                ));
            }
        }
    }
}

/// The `k`-th job may be leased, has been leased under this token, and is what
/// the worker got.
pub open spec fn granted_as(
    t: Tables,
    after: Tables,
    req: ClaimRequestView,
    c: ClaimedJobView,
    token: Id,
    transaction_id: Id,
    k: int,
) -> bool {
    &&& leasable(t, req, k)
    &&& c.job_id == t.jobs[k].job_id
    &&& c.lease_token == token
    &&& find_job(after.jobs, c.job_id) matches Some(row) && now_leased(
        t.jobs[k],
        row,
        token,
        req,
        transaction_id,
    ) && handed_out(c, row)
}

/// What the worker got is one of the jobs that may be leased.
pub open spec fn granted_to(
    t: Tables,
    after: Tables,
    req: ClaimRequestView,
    c: ClaimedJobView,
    token: Id,
    transaction_id: Id,
) -> bool {
    exists|k: int| #[trigger] granted_as(t, after, req, c, token, transaction_id, k)
}

/// No job that may be leased is passed over: it is leased, or as many as were
/// asked for were leased that are visited before it.
pub proof fn law_claim_passes_over_none(
    t: Tables,
    req: ClaimRequestView,
    fresh: Seq<Id>,
    k: int,
)
    requires
        sound(t),
        claim_result(t, req, fresh) is Ok,
        leasable(t, req, k),
    ensures
        ({
            let (after, outcome) = claim_result(t, req, fresh)->Ok_0;
            let jobs = handed(outcome);
            ||| exists|i: int| 0 <= i < jobs.len() && (#[trigger] jobs[i]).job_id == t.jobs[k].job_id
            ||| jobs.len() == req.limit && (req.partition_key is None ==> forall|i: int|
                0 <= i < jobs.len() ==> visited_before(
                    find_cursor(t.cursors, req.queue),
                    (#[trigger] jobs[i]).partition_key,
                    t.jobs[k].partition_key,
                ))
        }),
{
    let (after, outcome) = claim_result(t, req, fresh)->Ok_0;
    let jobs = handed(outcome);
    let granted = leases(t, req);
    lemma_plan_order(t, req, k);
    assert(jobs.len() == granted.len());
    if granted.contains(t.jobs[k]) {
        let i = choose|i: int| 0 <= i < granted.len() && granted[i] == t.jobs[k];
        assert(jobs[i].job_id == t.jobs[k].job_id);
    } else if req.partition_key is None {
        assert forall|i: int| 0 <= i < jobs.len() implies visited_before(
            find_cursor(t.cursors, req.queue),
            (#[trigger] jobs[i]).partition_key,
            t.jobs[k].partition_key,
        ) by {
            assert(visited_before(
                find_cursor(t.cursors, req.queue),
                granted[i].partition_key,
                t.jobs[k].partition_key,
            ));
        }
    }
}

proof fn lemma_kept_by_repairs(t: Tables, rows: Seq<JobRowView>, now_ms: i64, transaction_id: Id)
    ensures
        ({
            let after = after_repairs(t, rows, now_ms, transaction_id);
            &&& after.events == t.events
            &&& after.projections == t.projections
            &&& after.entries == t.entries
            &&& after.jobs.len() == t.jobs.len()
            &&& forall|i: int|
                0 <= i < t.jobs.len() ==> (#[trigger] after.jobs[i]).job_id == t.jobs[i].job_id
        }),
    decreases rows.len(),
{
    if rows.len() > 0 {
        lemma_kept_by_repairs(t, rows.drop_last(), now_ms, transaction_id);
        let mid = after_repairs(t, rows.drop_last(), now_ms, transaction_id);
        let after = after_repairs(t, rows, now_ms, transaction_id);
        assert forall|i: int| 0 <= i < t.jobs.len() implies (#[trigger] after.jobs[i]).job_id
            == t.jobs[i].job_id by {
            assert(mid.jobs[i].job_id == t.jobs[i].job_id);
        }
    }
}

proof fn lemma_kept_by_grants(
    t: Tables,
    rows: Seq<JobRowView>,
    tokens: Seq<Id>,
    terms: LeaseTerms,
)
    ensures
        ({
            let after = after_grants(t, rows, tokens, terms);
            &&& after.events == t.events
            &&& after.projections == t.projections
            &&& after.entries == t.entries
            &&& after.jobs.len() == t.jobs.len()
            &&& forall|i: int|
                0 <= i < t.jobs.len() ==> (#[trigger] after.jobs[i]).job_id == t.jobs[i].job_id
        }),
    decreases rows.len(),
{
    if rows.len() > 0 {
        lemma_kept_by_grants(t, rows.drop_last(), tokens, terms);
        let mid = after_grants(t, rows.drop_last(), tokens, terms);
        let after = after_grants(t, rows, tokens, terms);
        assert forall|i: int| 0 <= i < t.jobs.len() implies (#[trigger] after.jobs[i]).job_id
            == t.jobs[i].job_id by {
            assert(mid.jobs[i].job_id == t.jobs[i].job_id);
        }
    }
}

/// A claim leaves events and projections alone, and its jobs in their places.
pub proof fn law_claim_keeps_the_rest(t: Tables, req: ClaimRequestView, fresh: Seq<Id>)
    requires
        sound(t),
        claim_result(t, req, fresh) is Ok,
    ensures
        ({
            let (after, outcome) = claim_result(t, req, fresh)->Ok_0;
            &&& after.events == t.events
            &&& after.projections == t.projections
            &&& after.entries == t.entries
            &&& after.jobs.len() == t.jobs.len()
            &&& forall|i: int|
                0 <= i < t.jobs.len() ==> (#[trigger] after.jobs[i]).job_id == t.jobs[i].job_id
        }),
{
    let (after, outcome) = claim_result(t, req, fresh)->Ok_0;
    if !(outcome is Noop) {
        let granted = leases(t, req);
        let fixed = repairs(t, req.queue, req.now_ms);
        let tx = fresh[granted.len() as int];
        let terms = lease_terms(req, tx);
        let begun = with_transaction(
            t,
            claim_transaction(t, req, tx, fixed.len() + granted.len()),
        );
        let mid = after_repairs(begun, fixed, req.now_ms, tx);
        lemma_kept_by_repairs(begun, fixed, req.now_ms, tx);
        lemma_kept_by_grants(mid, granted, fresh, terms);
        let leased = after_grants(mid, granted, fresh, terms);
        assert forall|i: int| 0 <= i < t.jobs.len() implies (#[trigger] after.jobs[i]).job_id
            == t.jobs[i].job_id by {
            assert(leased.jobs[i].job_id == mid.jobs[i].job_id);
            assert(mid.jobs[i].job_id == begun.jobs[i].job_id);
        }
    }
}

proof fn lemma_repairs_drain(
    t: Tables,
    rows: Seq<JobRowView>,
    now_ms: i64,
    transaction_id: Id,
    p: PartitionRowView,
)
    requires
        sound(t),
        current(t, rows),
        forall|i: int| 0 <= i < rows.len() ==> (#[trigger] rows[i]).state is Leased,
    ensures
        ({
            let after = after_repairs(t, rows, now_ms, transaction_id);
            after.partitions.contains(p) <==> t.partitions.contains(p) && !((exists|i: int|
                0 <= i < rows.len() && repaired_state(#[trigger] rows[i]) is Dead && rows[i].queue
                    == p.queue && rows[i].partition_key == p.partition_key) && !has_active(
                after.jobs,
                p.queue,
                p.partition_key,
            ))
        }),
    decreases rows.len(),
{
    if rows.len() > 0 {
        let front = rows.drop_last();
        let n = front.len() as int;
        let job = rows[n];
        let mid = after_repairs(t, front, now_ms, transaction_id);
        let after = after_repairs(t, rows, now_ms, transaction_id);
        let row = repaired_row(job, now_ms, transaction_id);
        lemma_current_front(t, rows);
        assert forall|i: int| 0 <= i < front.len() implies (#[trigger] front[i]).state is Leased by {
            assert(rows[i].state is Leased);
        }
        lemma_repairs(t, front, now_ms, transaction_id);
        lemma_repairs_drain(t, front, now_ms, transaction_id, p);
        if has_job(front, job.job_id) {
            let i = lemma_found(front, job.job_id);
            assert(rows[i].job_id != rows[n].job_id);
        }
        assert(find_job(mid.jobs, job.job_id) == Some(job));
        let k = lemma_found(mid.jobs, job.job_id);
        lemma_replace_job(mid.jobs, row);
        let here = job.queue == p.queue && job.partition_key == p.partition_key;
        assert(active_in(mid.jobs[k], job.queue, job.partition_key));
        assert(after.jobs == replace_job(mid.jobs, row));
        assert(after.jobs[k] == row);
        if !here {
            if has_active(mid.jobs, p.queue, p.partition_key) {
                let i = choose|i: int|
                    0 <= i < mid.jobs.len() && active_in(
                        #[trigger] mid.jobs[i],
                        p.queue,
                        p.partition_key,
                    );
                lemma_find_at(mid.jobs, i);
                assert(mid.jobs[i].job_id != job.job_id);
                assert(after.jobs[i] == mid.jobs[i]);
            }
            if has_active(after.jobs, p.queue, p.partition_key) {
                let i = choose|i: int|
                    0 <= i < after.jobs.len() && active_in(
                        #[trigger] after.jobs[i],
                        p.queue,
                        p.partition_key,
                    );
                assert(after.jobs[i] == mid.jobs[i]);
            }
        } else if !(repaired_state(job) is Dead) {
            assert(active_in(after.jobs[k], p.queue, p.partition_key));
        }
        mid.partitions.filter_lemma(not_partition(job.queue, job.partition_key));
        if mid.partitions.contains(p) && !here {
            let i = choose|i: int| 0 <= i < mid.partitions.len() && mid.partitions[i] == p;
            assert(not_partition(job.queue, job.partition_key)(mid.partitions[i]));
        }
        if after.partitions.contains(p) {
            let i = choose|i: int| 0 <= i < after.partitions.len() && after.partitions[i] == p;
            let pred = not_partition(job.queue, job.partition_key);
            let idx = lemma_filter_indices(mid.partitions, pred);
            if after.partitions != mid.partitions {
                assert(after.partitions == mid.partitions.filter(pred));
                assert(mid.partitions[idx[i]] == p);
                assert(pred(mid.partitions[idx[i]]));
            }
            assert(mid.partitions.contains(p));
        }
        let was = exists|i: int|
            0 <= i < front.len() && repaired_state(#[trigger] front[i]) is Dead && front[i].queue
                == p.queue && front[i].partition_key == p.partition_key;
        let is_now = exists|i: int|
            0 <= i < rows.len() && repaired_state(#[trigger] rows[i]) is Dead && rows[i].queue
                == p.queue && rows[i].partition_key == p.partition_key;
        assert(is_now <==> was || (here && repaired_state(job) is Dead)) by {
            if was {
                let i = choose|i: int|
                    0 <= i < front.len() && repaired_state(#[trigger] front[i]) is Dead
                        && front[i].queue == p.queue && front[i].partition_key == p.partition_key;
                assert(repaired_state(rows[i]) is Dead);
            }
            if is_now {
                let i = choose|i: int|
                    0 <= i < rows.len() && repaired_state(#[trigger] rows[i]) is Dead
                        && rows[i].queue == p.queue && rows[i].partition_key == p.partition_key;
                if i < n {
                    assert(repaired_state(front[i]) is Dead);
                }
            }
            if here && repaired_state(job) is Dead {
                assert(repaired_state(rows[n]) is Dead);
            }
        }
    }
}

/// An unfinished job of the partition is there.
pub open spec fn in_use(jobs: Seq<JobRowView>, p: PartitionRowView) -> bool {
    exists|i: int|
        0 <= i < jobs.len() && unfinished(#[trigger] jobs[i]) && jobs[i].queue == p.queue
            && jobs[i].partition_key == p.partition_key
}

/// A leased job of the partition is dead afterwards.
pub open spec fn one_died(t: Tables, after: Tables, p: PartitionRowView) -> bool {
    exists|k: int|
        0 <= k < t.jobs.len() && (#[trigger] t.jobs[k]).state is Leased && t.jobs[k].queue
            == p.queue && t.jobs[k].partition_key == p.partition_key && find_job(
            after.jobs,
            t.jobs[k].job_id,
        )->0.state is Dead
}

/// A claim lists no partition anew, and takes out exactly those of which a job
/// died in it and no unfinished job is left.
pub proof fn law_claim_drains_partitions(
    t: Tables,
    req: ClaimRequestView,
    fresh: Seq<Id>,
    p: PartitionRowView,
)
    requires
        sound(t),
        claim_result(t, req, fresh) is Ok,
    ensures
        ({
            let (after, outcome) = claim_result(t, req, fresh)->Ok_0;
            after.partitions.contains(p) <==> t.partitions.contains(p) && !(one_died(t, after, p)
                && !in_use(after.jobs, p))
        }),
{
    let (after, outcome) = claim_result(t, req, fresh)->Ok_0;
    if outcome is Noop {
        if one_died(t, after, p) {
            let k = choose|k: int|
                0 <= k < t.jobs.len() && (#[trigger] t.jobs[k]).state is Leased
                    && t.jobs[k].queue == p.queue && t.jobs[k].partition_key == p.partition_key
                    && find_job(after.jobs, t.jobs[k].job_id)->0.state is Dead;
            lemma_find_at(t.jobs, k);
        }
    } else {
        let granted = leases(t, req);
        let fixed = repairs(t, req.queue, req.now_ms);
        let tx = fresh[granted.len() as int];
        let terms = lease_terms(req, tx);
        let begun = with_transaction(
            t,
            claim_transaction(t, req, tx, fixed.len() + granted.len()),
        );
        let mid = after_repairs(begun, fixed, req.now_ms, tx);
        let leased = after_grants(mid, granted, fresh, terms);
        lemma_done(t, req, fresh);
        law_claim_effect(t, req, fresh, tx);
        lemma_plan(t, req, tx);
        lemma_repairs_drain(begun, fixed, req.now_ms, tx, p);
        lemma_untaken(t, granted, tx);
        lemma_grants(mid, granted, fresh, terms);
        lemma_grants_keep_use(mid, granted, fresh, terms, p);
        lemma_killed(t, req, fresh, p);
    }
}

/// Leases leave a partition in use, or not, as it was.
proof fn lemma_grants_keep_use(
    t: Tables,
    rows: Seq<JobRowView>,
    tokens: Seq<Id>,
    terms: LeaseTerms,
    p: PartitionRowView,
)
    requires
        sound(t),
        current(t, rows),
        forall|i: int|
            0 <= i < rows.len() ==> (#[trigger] rows[i]).state is Pending
                || rows[i].state is RetryWait,
        has_transaction(t.transactions, terms.transaction_id),
        forall|i: int|
            0 <= i < rows.len() ==> !has_receipt(
                t.receipts,
                terms.transaction_id,
                (#[trigger] rows[i]).job_id,
            ),
    ensures
        in_use(after_grants(t, rows, tokens, terms).jobs, p) <==> has_active(
            t.jobs,
            p.queue,
            p.partition_key,
        ),
{
    let after = after_grants(t, rows, tokens, terms);
    lemma_grants(t, rows, tokens, terms);
    lemma_kept_by_grants(t, rows, tokens, terms);
    assert forall|i: int| 0 <= i < t.jobs.len() implies (#[trigger] t.jobs[i]).queue
        == after.jobs[i].queue && t.jobs[i].partition_key == after.jobs[i].partition_key
        && unfinished(t.jobs[i]) == unfinished(after.jobs[i]) by {
        lemma_find_at(t.jobs, i);
        lemma_find_at(after.jobs, i);
        assert(after.jobs[i].job_id == t.jobs[i].job_id);
        if has_job(rows, t.jobs[i].job_id) {
            let m = lemma_found(rows, t.jobs[i].job_id);
            assert(find_job(t.jobs, rows[m].job_id) == Some(rows[m]));
        }
    }
    if in_use(after.jobs, p) {
        let i = choose|i: int|
            0 <= i < after.jobs.len() && unfinished(#[trigger] after.jobs[i]) && after.jobs[i].queue
                == p.queue && after.jobs[i].partition_key == p.partition_key;
        assert(active_in(t.jobs[i], p.queue, p.partition_key));
    }
    if has_active(t.jobs, p.queue, p.partition_key) {
        let i = choose|i: int|
            0 <= i < t.jobs.len() && active_in(#[trigger] t.jobs[i], p.queue, p.partition_key);
        assert(unfinished(after.jobs[i]));
    }
}

/// The jobs that die in a claim are those that its repairs kill.
proof fn lemma_killed(t: Tables, req: ClaimRequestView, fresh: Seq<Id>, p: PartitionRowView)
    requires
        sound(t),
        claim_result(t, req, fresh) is Ok,
        !((claim_result(t, req, fresh)->Ok_0).1 is Noop),
    ensures
        ({
            let after = (claim_result(t, req, fresh)->Ok_0).0;
            let fixed = repairs(t, req.queue, req.now_ms);
            one_died(t, after, p) <==> exists|i: int|
                0 <= i < fixed.len() && repaired_state(#[trigger] fixed[i]) is Dead
                    && fixed[i].queue == p.queue && fixed[i].partition_key == p.partition_key
        }),
{
    let after = (claim_result(t, req, fresh)->Ok_0).0;
    let granted = leases(t, req);
    let fixed = repairs(t, req.queue, req.now_ms);
    let tx = fresh[granted.len() as int];
    lemma_done(t, req, fresh);
    law_claim_effect(t, req, fresh, tx);
    law_repairs(t, req.queue, req.now_ms);
    law_leases(t, req);
    if exists|i: int|
        0 <= i < fixed.len() && repaired_state(#[trigger] fixed[i]) is Dead && fixed[i].queue
            == p.queue && fixed[i].partition_key == p.partition_key {
        let i = choose|i: int|
            0 <= i < fixed.len() && repaired_state(#[trigger] fixed[i]) is Dead && fixed[i].queue
                == p.queue && fixed[i].partition_key == p.partition_key;
        assert(find_job(t.jobs, fixed[i].job_id) == Some(fixed[i]));
        assert(lease_expired(req.queue, req.now_ms)(fixed[i]));
        let k = lemma_found(t.jobs, fixed[i].job_id);
        assert(t.jobs[k] == fixed[i]);
        assert(one_died(t, after, p));
    }
    if one_died(t, after, p) {
        let k = choose|k: int|
            0 <= k < t.jobs.len() && (#[trigger] t.jobs[k]).state is Leased && t.jobs[k].queue
                == p.queue && t.jobs[k].partition_key == p.partition_key && find_job(
                after.jobs,
                t.jobs[k].job_id,
            )->0.state is Dead;
        let id = t.jobs[k].job_id;
        lemma_find_at(t.jobs, k);
        if has_job(granted, id) {
            let m = lemma_found(granted, id);
            assert(find_job(after.jobs, granted[m].job_id) is Some);
            assert(find_job(after.jobs, id)->0.state is Leased);
        }
        assert(has_job(fixed, id));
        let i = lemma_found(fixed, id);
        assert(find_job(t.jobs, fixed[i].job_id) == Some(fixed[i]));
        assert(repaired_state(fixed[i]) is Dead);
    }
}

/// A claim moves the cursor of its queue to the partition of its last lease,
/// and no other cursor; a claim of one partition moves none.
pub proof fn law_claim_moves_the_cursor(
    t: Tables,
    req: ClaimRequestView,
    fresh: Seq<Id>,
    queue: Seq<char>,
)
    requires
        sound(t),
        claim_result(t, req, fresh) is Ok,
    ensures
        ({
            let (after, outcome) = claim_result(t, req, fresh)->Ok_0;
            let jobs = handed(outcome);
            find_cursor(after.cursors, queue) == (if queue == req.queue && req.partition_key
                is None && jobs.len() > 0 {
                Some(jobs.last().partition_key)
            } else {
                find_cursor(t.cursors, queue)
            })
        }),
{
    let (after, outcome) = claim_result(t, req, fresh)->Ok_0;
    if !(outcome is Noop) {
        let granted = leases(t, req);
        let tx = fresh[granted.len() as int];
        lemma_done(t, req, fresh);
        law_claim_effect(t, req, fresh, tx);
        if granted.len() > 0 {
            assert(handed(outcome).last().partition_key == granted.last().partition_key);
        }
    }
}

/// A claim that does anything records one transaction, with the next sequence
/// number, the time of the claim, the number of its repairs and leases, and a
/// digest of what was asked.
pub proof fn law_claim_records(t: Tables, req: ClaimRequestView, fresh: Seq<Id>)
    requires
        sound(t),
        claim_result(t, req, fresh) is Ok,
        (claim_result(t, req, fresh)->Ok_0).1 != ClaimOutcomeView::Noop,
    ensures
        ({
            let (after, outcome) = claim_result(t, req, fresh)->Ok_0;
            let jobs = handed(outcome);
            let tx = transaction_of(outcome)->0;
            let n = t.transactions.len() as int;
            let row = after.transactions[n];
            &&& transaction_of(outcome) is Some
            &&& after.transactions.len() == n + 1
            &&& forall|i: int| 0 <= i < n ==> after.transactions[i] == #[trigger] t.transactions[i]
            &&& forall|i: int| 0 <= i < n ==> (#[trigger] t.transactions[i]).transaction_id != tx
            &&& row.transaction_id == tx
            &&& row.transaction_sequence == (if n == 0 {
                1
            } else {
                t.transactions[n - 1].transaction_sequence + 1
            })
            &&& row.committed_at_ms == req.now_ms
            &&& row.correlation_id is None
            &&& row.metadata.len() == 0
            &&& row.request_digest == checksum_of(
                "claim:"@ + hex_of(tx) + ":"@ + req.queue + ":"@ + req.worker_id + ":"@
                    + signed_decimal(req.now_ms as int) + ":"@ + signed_decimal(req.lease_ms as int)
                    + ":"@ + decimal(req.limit),
            )
            &&& exists|at: Seq<int>| #[trigger]
                repairs_done(t, after, req, tx, at) && (jobs.len() < i64::MAX - 64
                    ==> row.operation_count == at.len() + jobs.len())
        }),
{
    let (after, outcome) = claim_result(t, req, fresh)->Ok_0;
    let granted = leases(t, req);
    let tx = fresh[granted.len() as int];
    let n = t.transactions.len() as int;
    lemma_done(t, req, fresh);
    let at = lemma_repairs_done(t, req, fresh);
    assert(repairs_done(t, after, req, tx, at));
    law_claim_effect(t, req, fresh, tx);
    if n > 0 {
        assert(t.transactions[n - 1].transaction_sequence >= 1);
    }
    assert forall|i: int| 0 <= i < n implies (#[trigger] t.transactions[i]).transaction_id
        != tx by {
        if t.transactions[i].transaction_id == tx {
            assert(has_transaction(t.transactions, tx));
        }
    }
    assert forall|i: int| 0 <= i < n implies after.transactions[i]
        == #[trigger] t.transactions[i] by {}
    assert(handed(outcome).len() == granted.len());
}

/// A claim whose COMMIT step succeeded gives its outcome, and so does one that
/// did nothing; where the step failed it is indeterminate, and names its
/// transaction, the jobs that it would have handed out, and what the database
/// reported, but neither payloads nor tokens.
pub proof fn law_settled_claim(outcome: ClaimOutcomeView, e: StorageErrorView, text: Seq<char>)
    requires
        e == StorageErrorView::Sqlite(text) || e == StorageErrorView::Identifier(text),
    ensures
        settled_claim(outcome, Ok(())) == Ok::<ClaimOutcomeView, ClaimErrorView>(outcome),
        ({
            let r = settled_claim(outcome, Err(e));
            match transaction_of(outcome) {
                None => r == Ok::<ClaimOutcomeView, ClaimErrorView>(outcome),
                Some(tx) => r matches Err(
                    ClaimErrorView::Indeterminate { transaction_id, proposed_jobs, storage_error },
                ) && transaction_id == tx && storage_error == text && proposed_jobs.len() == handed(
                    outcome,
                ).len() && forall|i: int|
                    0 <= i < proposed_jobs.len() ==> #[trigger] proposed_jobs[i] == handed(
                        outcome,
                    )[i].job_id,
            }
        }),
{
}

} // verus!
