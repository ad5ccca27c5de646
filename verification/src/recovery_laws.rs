//! What the recovery of a claim finds, in terms of the receipts and jobs of the
//! store.
use vstd::prelude::*;

use crate::id::Id;
use crate::jobs::{ClaimRecoveryView, ClaimedJobView, CommittedClaimsView};
use crate::recovery::{
    law_receipts_of, lemma_by_job, of_transaction, receipts_of, recover_result, stale,
    still_current,
};
use crate::row::JobRowView;
use crate::seqs::lemma_filter_indices;
use crate::tables::{lemma_find_at, sound, ReceiptRowView, Tables};

verus! {

/// The receipt names the transaction, and its job is there.
pub open spec fn receipt_names(t: Tables, transaction_id: Id, r: ReceiptRowView) -> bool {
    &&& r.transaction_id == transaction_id
    &&& exists|k: int| 0 <= k < t.jobs.len() && (#[trigger] t.jobs[k]).job_id == r.job_id
}

/// The job is leased under the token of the receipt, and the lease has not run
/// out.
pub open spec fn lease_runs(job: JobRowView, r: ReceiptRowView, now_ms: i64) -> bool {
    &&& job.state is Leased
    &&& job.lease_token == Some(r.lease_token)
    &&& job.lease_expires_at_ms matches Some(ms) && now_ms <= ms
}

/// What is handed out is the lease of the receipt on this job.
pub open spec fn taken_from(c: ClaimedJobView, job: JobRowView, r: ReceiptRowView) -> bool {
    &&& c.job_id == r.job_id
    &&& c.worker_id == r.worker_id
    &&& c.lease_token == r.lease_token
    &&& c.attempt == r.attempt
    &&& c.lease_expires_at_ms == r.lease_expires_at_ms
    &&& c.queue == job.queue
    &&& c.partition_key == job.partition_key
    &&& c.payload == job.payload
    &&& c.idempotency_key == job.idempotency_key
}

/// A job with this identifier is handed out.
pub open spec fn hands_out(c: CommittedClaimsView, job_id: Id) -> bool {
    exists|j: int| 0 <= j < c.jobs.len() && (#[trigger] c.jobs[j]).job_id == job_id
}

proof fn lemma_partition<A>(s: Seq<A>, p: spec_fn(A) -> bool, q: spec_fn(A) -> bool)
    requires
        forall|i: int| 0 <= i < s.len() ==> p(#[trigger] s[i]) != q(s[i]),
    ensures
        s.filter(p).len() + s.filter(q).len() == s.len(),
    decreases s.len(),
{
    reveal(Seq::filter);
    if s.len() > 0 {
        let front = s.drop_last();
        assert forall|i: int| 0 <= i < front.len() implies p(#[trigger] front[i]) != q(
            front[i],
        ) by {
            assert(front[i] == s[i]);
        }
        lemma_partition(front, p, q);
        assert(p(s[s.len() - 1]) != q(s[s.len() - 1]));
    }
}

proof fn lemma_same_filter<A>(s: Seq<A>, p: spec_fn(A) -> bool, q: spec_fn(A) -> bool)
    requires
        forall|i: int| 0 <= i < s.len() ==> p(#[trigger] s[i]) == q(s[i]),
    ensures
        s.filter(p) == s.filter(q),
    decreases s.len(),
{
    reveal(Seq::filter);
    if s.len() > 0 {
        let front = s.drop_last();
        assert forall|i: int| 0 <= i < front.len() implies p(#[trigger] front[i]) == q(
            front[i],
        ) by {
            assert(front[i] == s[i]);
        }
        lemma_same_filter(front, p, q);
        assert(p(s[s.len() - 1]) == q(s[s.len() - 1]));
    }
}

/// Recovery reports every lease of a committed claim exactly once: the receipts
/// of the transaction, and nothing else, are either handed out or stale, in the
/// order of their jobs' identifiers.
pub proof fn law_recovery_reports_every_lease(t: Tables, transaction_id: Id, now_ms: i64)
    requires
        sound(t),
        recover_result(t, transaction_id, now_ms) is Committed,
    ensures
        ({
            let c = recover_result(t, transaction_id, now_ms)->Committed_0;
            &&& c.transaction_id == transaction_id
            &&& c.jobs.len() + c.stale_jobs.len() == t.receipts.filter(
                |r: ReceiptRowView| receipt_names(t, transaction_id, r),
            ).len()
            &&& c.jobs.len() + c.stale_jobs.len() > 0
            &&& forall|i: int, j: int|
                0 <= i < j < c.jobs.len() ==> (#[trigger] c.jobs[i]).job_id.value < (
                #[trigger] c.jobs[j]).job_id.value
            &&& forall|i: int, j: int|
                0 <= i < j < c.stale_jobs.len() ==> (#[trigger] c.stale_jobs[i]).value < (
                #[trigger] c.stale_jobs[j]).value
        }),
{
    let c = recover_result(t, transaction_id, now_ms)->Committed_0;
    let pred = of_transaction(t, transaction_id);
    let found = receipts_of(t, transaction_id);
    let fresh = still_current(t, now_ms);
    let old_pred = stale(t, now_ms);
    law_receipts_of(t, transaction_id);
    lemma_by_job(t.receipts.filter(pred));
    assert forall|i: int| 0 <= i < t.receipts.len() implies pred(#[trigger] t.receipts[i])
        == receipt_names(t, transaction_id, t.receipts[i]) by {}
    lemma_same_filter(
        t.receipts,
        pred,
        |r: ReceiptRowView| receipt_names(t, transaction_id, r),
    );
    lemma_partition(found, fresh, old_pred);
    let at = lemma_filter_indices(found, fresh);
    let old_at = lemma_filter_indices(found, old_pred);
    assert forall|i: int, j: int| 0 <= i < j < c.jobs.len() implies (
    #[trigger] c.jobs[i]).job_id.value < (#[trigger] c.jobs[j]).job_id.value by {
        assert(at[i] < at[j]);
        assert(found[at[i]].job_id.value < found[at[j]].job_id.value);
    }
    assert forall|i: int, j: int| 0 <= i < j < c.stale_jobs.len() implies (
    #[trigger] c.stale_jobs[i]).value < (#[trigger] c.stale_jobs[j]).value by {
        assert(old_at[i] < old_at[j]);
        assert(found[old_at[i]].job_id.value < found[old_at[j]].job_id.value);
    }
}

/// A receipt of the transaction is handed out exactly while its job is leased
/// under its token and the lease has not run out; what is handed out then is
/// that lease. Otherwise its job is reported as stale, whatever its state.
pub proof fn law_recovery_of_one_lease(t: Tables, transaction_id: Id, now_ms: i64, i: int, k: int)
    requires
        sound(t),
        0 <= i < t.receipts.len(),
        t.receipts[i].transaction_id == transaction_id,
        0 <= k < t.jobs.len(),
        t.jobs[k].job_id == t.receipts[i].job_id,
    ensures
        recover_result(t, transaction_id, now_ms) matches ClaimRecoveryView::Committed(c) && {
            let r = t.receipts[i];
            let job = t.jobs[k];
            &&& hands_out(c, job.job_id) <==> lease_runs(job, r, now_ms)
            &&& c.stale_jobs.contains(job.job_id) <==> !lease_runs(job, r, now_ms)
            &&& forall|j: int|
                0 <= j < c.jobs.len() && (#[trigger] c.jobs[j]).job_id == job.job_id ==> taken_from(
                    c.jobs[j],
                    job,
                    r,
                )
        },
{
    let r = t.receipts[i];
    let job = t.jobs[k];
    let found = receipts_of(t, transaction_id);
    let fresh = still_current(t, now_ms);
    let old_pred = stale(t, now_ms);
    law_receipts_of(t, transaction_id);
    lemma_find_at(t.jobs, k);
    assert(t.receipts.contains(r));
    assert(found.contains(r));
    let m = choose|m: int| 0 <= m < found.len() && found[m] == r;
    let c = recover_result(t, transaction_id, now_ms)->Committed_0;
    let at = lemma_filter_indices(found, fresh);
    let old_at = lemma_filter_indices(found, old_pred);
    assert forall|p: int| 0 <= p < found.len() && (#[trigger] found[p]).job_id == r.job_id implies p
        == m by {
        if p < m {
            assert(found[p].job_id.value < found[m].job_id.value);
        } else if m < p {
            assert(found[m].job_id.value < found[p].job_id.value);
        }
    }
    assert(fresh(r) <==> lease_runs(job, r, now_ms));
    found.filter_lemma(fresh);
    found.filter_lemma(old_pred);
    assert forall|j: int|
        0 <= j < c.jobs.len() && (#[trigger] c.jobs[j]).job_id == job.job_id implies taken_from(
        c.jobs[j],
        job,
        r,
    ) && fresh(r) by {
        assert(found[at[j]].job_id == r.job_id);
        assert(at[j] == m);
        assert(fresh(found[at[j]]));
    }
    if fresh(r) {
        assert(found.filter(fresh).contains(found[m]));
        let j = choose|j: int| 0 <= j < found.filter(fresh).len() && found.filter(fresh)[j] == r;
        assert(c.jobs[j].job_id == job.job_id);
    } else {
        assert(old_pred(found[m]));
        assert(found.filter(old_pred).contains(found[m]));
        let j = choose|j: int|
            0 <= j < found.filter(old_pred).len() && found.filter(old_pred)[j] == r;
        assert(c.stale_jobs[j] == job.job_id);
    }
    if c.stale_jobs.contains(job.job_id) {
        let j = choose|j: int| 0 <= j < c.stale_jobs.len() && c.stale_jobs[j] == job.job_id;
        assert(found[old_at[j]].job_id == r.job_id);
        assert(old_at[j] == m);
        assert(old_pred(found[old_at[j]]));
    }
}

/// Nothing is reported that no receipt of the transaction stands for.
pub proof fn law_recovery_invents_nothing(
    t: Tables,
    transaction_id: Id,
    now_ms: i64,
    job_id: Id,
)
    requires
        sound(t),
        recover_result(t, transaction_id, now_ms) matches ClaimRecoveryView::Committed(c) && (
        hands_out(c, job_id) || c.stale_jobs.contains(job_id)),
    ensures
        exists|i: int|
            0 <= i < t.receipts.len() && (#[trigger] t.receipts[i]).job_id == job_id
                && receipt_names(t, transaction_id, t.receipts[i]),
{
    let found = receipts_of(t, transaction_id);
    let fresh = still_current(t, now_ms);
    let old_pred = stale(t, now_ms);
    let c = recover_result(t, transaction_id, now_ms)->Committed_0;
    let at = lemma_filter_indices(found, fresh);
    let old_at = lemma_filter_indices(found, old_pred);
    law_receipts_of(t, transaction_id);
    let m = if hands_out(c, job_id) {
        at[choose|j: int| 0 <= j < c.jobs.len() && (#[trigger] c.jobs[j]).job_id == job_id]
    } else {
        old_at[choose|j: int| 0 <= j < c.stale_jobs.len() && c.stale_jobs[j] == job_id]
    };
    assert(found[m].job_id == job_id);
    assert(found.contains(found[m]));
    let i = choose|i: int| 0 <= i < t.receipts.len() && t.receipts[i] == found[m];
    assert(t.receipts[i].job_id == job_id);
}

/// A transaction without a receipt whose job is there is reported as
/// maintenance where it is recorded, and as absent where it is not.
pub proof fn law_recovery_without_leases(t: Tables, transaction_id: Id, now_ms: i64)
    requires
        sound(t),
    ensures
        ({
            let r = recover_result(t, transaction_id, now_ms);
            let leased = exists|i: int|
                0 <= i < t.receipts.len() && receipt_names(
                    t,
                    transaction_id,
                    #[trigger] t.receipts[i],
                );
            let recorded = exists|i: int|
                0 <= i < t.transactions.len() && (#[trigger] t.transactions[i]).transaction_id
                    == transaction_id;
            &&& r is Committed <==> leased
            &&& r is Absent <==> !leased && !recorded
            &&& !leased && recorded ==> r == ClaimRecoveryView::MaintenanceCommitted(transaction_id)
        }),
{
    let found = receipts_of(t, transaction_id);
    law_receipts_of(t, transaction_id);
    if found.len() > 0 {
        assert(found.contains(found[0]));
        let i = choose|i: int| 0 <= i < t.receipts.len() && t.receipts[i] == found[0];
        assert(receipt_names(t, transaction_id, t.receipts[i]));
    }
    assert forall|i: int|
        0 <= i < t.receipts.len() && receipt_names(
            t,
            transaction_id,
            #[trigger] t.receipts[i],
        ) implies found.len() > 0 by {
        assert(t.receipts.contains(t.receipts[i]));
        assert(found.contains(t.receipts[i]));
    }
}

} // verus!
