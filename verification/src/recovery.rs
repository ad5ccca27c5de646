//! Recovery of claims whose COMMIT step was indeterminate.
use vstd::prelude::*;

use crate::claim::{
    after_claim, claim_refusal, claim_result, law_claim_effect, lease_terms, lemma_no_receipt_taken,
    transaction_refusal,
};
use crate::claim_steps::{claimed_jobs, granted_row, receipt_of};
use crate::id::Id;
use crate::jobs::{
    claimed_views, ClaimOutcomeView, ClaimRecovery, ClaimRecoveryView, ClaimRequestView, ClaimedJob,
    ClaimedJobView, CommittedClaims, CommittedClaimsView, LeaseExtension, MaintenanceReceipt,
};
use crate::lease::{after_extension, extension_conflict, law_extension_effect};
use crate::plan::leases;
use crate::plan_laws::law_leases;
use crate::rows::{receipt_views, ReceiptRow};
use crate::seqs::{lemma_filter_all, lemma_filter_indices};
use crate::state::JobState;
use crate::store::ControlPlaneStore;
use crate::tables::{consistent, find_job, has_job, has_transaction, sound, ReceiptRowView, Tables};

verus! {

/// A receipt of this transaction, for a job that is there.
pub open spec fn of_transaction(t: Tables, transaction_id: Id) -> spec_fn(ReceiptRowView) -> bool {
    |r: ReceiptRowView| r.transaction_id == transaction_id && has_job(t.jobs, r.job_id)
}

/// Inserts a receipt into receipts that stand in the order of their jobs'
/// identifiers.
pub open spec fn insert_by_job(sorted: Seq<ReceiptRowView>, r: ReceiptRowView) -> Seq<
    ReceiptRowView,
>
    decreases sorted.len(),
{
    if sorted.len() == 0 || sorted.last().job_id.value <= r.job_id.value {
        sorted.push(r)
    } else {
        insert_by_job(sorted.drop_last(), r).push(sorted.last())
    }
}

/// The receipts in the order of their jobs' identifiers.
pub open spec fn by_job(receipts: Seq<ReceiptRowView>) -> Seq<ReceiptRowView>
    decreases receipts.len(),
{
    if receipts.len() == 0 {
        receipts
    } else {
        insert_by_job(by_job(receipts.drop_last()), receipts.last())
    }
}

/// The receipts of a transaction, in the order of their jobs' identifiers. A
/// receipt whose job is gone is not among them.
pub open spec fn receipts_of(t: Tables, transaction_id: Id) -> Seq<ReceiptRowView> {
    by_job(t.receipts.filter(of_transaction(t, transaction_id)))
}

/// The lease of a receipt is still the current lease of its job, and has not
/// run out.
pub open spec fn still_current(t: Tables, now_ms: i64) -> spec_fn(ReceiptRowView) -> bool {
    |r: ReceiptRowView|
        find_job(t.jobs, r.job_id) matches Some(job) && job.state is Leased && job.lease_token
            == Some(r.lease_token) && (job.lease_expires_at_ms matches Some(ms) && ms >= now_ms)
}

/// The lease of a receipt is not to be executed any more.
pub open spec fn stale(t: Tables, now_ms: i64) -> spec_fn(ReceiptRowView) -> bool {
    |r: ReceiptRowView| !still_current(t, now_ms)(r)
}

/// The leased job of a receipt, as it was granted or last extended.
pub open spec fn recovered_of(t: Tables) -> spec_fn(ReceiptRowView) -> ClaimedJobView {
    |r: ReceiptRowView|
        {
            let job = find_job(t.jobs, r.job_id)->0;
            ClaimedJobView {
                job_id: r.job_id,
                queue: job.queue,
                partition_key: job.partition_key,
                payload: job.payload,
                worker_id: r.worker_id,
                lease_token: r.lease_token,
                attempt: r.attempt,
                lease_expires_at_ms: r.lease_expires_at_ms,
                idempotency_key: job.idempotency_key,
            }
        }
}

/// What a recovery finds. A transaction that leased nothing is never reported
/// as an empty grant, and one that is not there was rolled back.
pub open spec fn recover_result(t: Tables, transaction_id: Id, now_ms: i64) -> ClaimRecoveryView {
    let receipts = receipts_of(t, transaction_id);
    if receipts.len() > 0 {
        ClaimRecoveryView::Committed(
            CommittedClaimsView {
                transaction_id,
                jobs: receipts.filter(still_current(t, now_ms)).map_values(recovered_of(t)),
                stale_jobs: receipts.filter(stale(t, now_ms)).map_values(
                    |r: ReceiptRowView| r.job_id,
                ),
            },
        )
    } else if has_transaction(t.transactions, transaction_id) {
        ClaimRecoveryView::MaintenanceCommitted(transaction_id)
    } else {
        ClaimRecoveryView::Absent
    }
}

/// The receipts stand in the order of their jobs' identifiers, no two of which
/// are the same.
pub open spec fn jobs_strictly_ascend(s: Seq<ReceiptRowView>) -> bool {
    forall|i: int, j: int|
        0 <= i < j < s.len() ==> (#[trigger] s[i]).job_id.value < (#[trigger] s[j]).job_id.value
}

/// The receipts stand in the order of their jobs' identifiers.
pub open spec fn jobs_ascend(s: Seq<ReceiptRowView>) -> bool {
    forall|i: int, j: int|
        0 <= i < j < s.len() ==> (#[trigger] s[i]).job_id.value <= (#[trigger] s[j]).job_id.value
}

proof fn lemma_insert_by_job_at(sorted: Seq<ReceiptRowView>, r: ReceiptRowView, k: int)
    requires
        0 <= k <= sorted.len(),
        k == 0 || sorted[k - 1].job_id.value <= r.job_id.value,
        forall|j: int| k <= j < sorted.len() ==> (#[trigger] sorted[j]).job_id.value > r.job_id.value,
    ensures
        insert_by_job(sorted, r) == sorted.insert(k, r),
    decreases sorted.len(),
{
    if sorted.len() == k {
        assert(sorted.insert(k, r) =~= sorted.push(r));
    } else {
        assert(sorted[sorted.len() - 1].job_id.value > r.job_id.value);
        lemma_insert_by_job_at(sorted.drop_last(), r, k);
        assert(sorted.insert(k, r) =~= sorted.drop_last().insert(k, r).push(sorted.last()));
    }
}

proof fn lemma_insert_by_job(sorted: Seq<ReceiptRowView>, r: ReceiptRowView)
    requires
        jobs_ascend(sorted),
    ensures
        insert_by_job(sorted, r).len() == sorted.len() + 1,
        jobs_ascend(insert_by_job(sorted, r)),
        forall|x: ReceiptRowView| #[trigger]
            insert_by_job(sorted, r).contains(x) <==> sorted.contains(x) || x == r,
    decreases sorted.len(),
{
    let after = insert_by_job(sorted, r);
    if sorted.len() == 0 || sorted.last().job_id.value <= r.job_id.value {
        assert(after[sorted.len() as int] == r);
        assert forall|i: int, j: int| 0 <= i < j < after.len() implies (
        #[trigger] after[i]).job_id.value <= (#[trigger] after[j]).job_id.value by {
            if j == sorted.len() && i < sorted.len() - 1 {
                assert(sorted[i].job_id.value <= sorted[sorted.len() - 1].job_id.value);
            }
        }
        assert forall|x: ReceiptRowView| #[trigger] after.contains(x) <==> sorted.contains(x) || x
            == r by {
            if sorted.contains(x) {
                let i = choose|i: int| 0 <= i < sorted.len() && sorted[i] == x;
                assert(after[i] == x);
            }
        }
    } else {
        let front = sorted.drop_last();
        assert forall|i: int, j: int| 0 <= i < j < front.len() implies (
        #[trigger] front[i]).job_id.value <= (#[trigger] front[j]).job_id.value by {
            assert(sorted[i].job_id.value <= sorted[j].job_id.value);
        }
        lemma_insert_by_job(front, r);
        let mid = insert_by_job(front, r);
        let n = mid.len() as int;
        assert(after[n] == sorted.last());
        assert forall|i: int, j: int| 0 <= i < j < after.len() implies (
        #[trigger] after[i]).job_id.value <= (#[trigger] after[j]).job_id.value by {
            assert(after[i] == mid[i]);
            if j < n {
                assert(after[j] == mid[j]);
            } else {
                assert(mid.contains(mid[i]));
                if mid[i] != r {
                    let k = choose|k: int| 0 <= k < front.len() && front[k] == mid[i];
                    assert(sorted[k].job_id.value <= sorted[sorted.len() - 1].job_id.value);
                }
            }
        }
        assert forall|x: ReceiptRowView| #[trigger] after.contains(x) <==> sorted.contains(x) || x
            == r by {
            if sorted.contains(x) {
                let i = choose|i: int| 0 <= i < sorted.len() && sorted[i] == x;
                if i < front.len() {
                    assert(front[i] == x);
                    assert(mid.contains(x));
                    let k = choose|k: int| 0 <= k < mid.len() && mid[k] == x;
                    assert(after[k] == x);
                }
            }
            if x == r {
                assert(mid.contains(r));
                let k = choose|k: int| 0 <= k < mid.len() && mid[k] == r;
                assert(after[k] == r);
            }
            if after.contains(x) {
                let k = choose|k: int| 0 <= k < after.len() && after[k] == x;
                if k < n {
                    assert(mid[k] == x);
                    assert(mid.contains(x));
                    if front.contains(x) {
                        let i = choose|i: int| 0 <= i < front.len() && front[i] == x;
                        assert(sorted[i] == x);
                    }
                } else {
                    assert(sorted[sorted.len() - 1] == x);
                }
            }
        }
    }
}

/// Sorted receipts are the same ones, in the order of their jobs' identifiers.
pub proof fn lemma_by_job(receipts: Seq<ReceiptRowView>)
    ensures
        by_job(receipts).len() == receipts.len(),
        jobs_ascend(by_job(receipts)),
        forall|x: ReceiptRowView| #[trigger] by_job(receipts).contains(x) <==> receipts.contains(x),
    decreases receipts.len(),
{
    if receipts.len() > 0 {
        let front = receipts.drop_last();
        lemma_by_job(front);
        lemma_insert_by_job(by_job(front), receipts.last());
        assert forall|x: ReceiptRowView| #[trigger] by_job(receipts).contains(x)
            <==> receipts.contains(x) by {
            assert(by_job(front).contains(x) <==> front.contains(x));
            if front.contains(x) {
                let k = choose|k: int| 0 <= k < front.len() && front[k] == x;
                assert(receipts[k] == x);
            }
            if x == receipts.last() {
                assert(receipts[receipts.len() - 1] == x);
            }
            if receipts.contains(x) {
                let k = choose|k: int| 0 <= k < receipts.len() && receipts[k] == x;
                if k < front.len() {
                    assert(front[k] == x);
                }
            }
        }
    }
}

proof fn lemma_insert_strictly(sorted: Seq<ReceiptRowView>, r: ReceiptRowView)
    requires
        jobs_strictly_ascend(sorted),
        forall|i: int| 0 <= i < sorted.len() ==> (#[trigger] sorted[i]).job_id != r.job_id,
    ensures
        jobs_strictly_ascend(insert_by_job(sorted, r)),
    decreases sorted.len(),
{
    let after = insert_by_job(sorted, r);
    let n = sorted.len() as int;
    if n > 0 {
        assert(sorted[n - 1].job_id != r.job_id);
    }
    if n == 0 || sorted.last().job_id.value <= r.job_id.value {
        assert forall|i: int, j: int| 0 <= i < j < after.len() implies (
        #[trigger] after[i]).job_id.value < (#[trigger] after[j]).job_id.value by {
            if j == n && i < n - 1 {
                assert(sorted[i].job_id.value < sorted[n - 1].job_id.value);
            }
        }
    } else {
        let front = sorted.drop_last();
        assert forall|i: int, j: int| 0 <= i < j < front.len() implies (
        #[trigger] front[i]).job_id.value < (#[trigger] front[j]).job_id.value by {
            assert(sorted[i].job_id.value < sorted[j].job_id.value);
        }
        assert forall|i: int| 0 <= i < front.len() implies (#[trigger] front[i]).job_id
            != r.job_id by {
            assert(sorted[i].job_id != r.job_id);
        }
        lemma_insert_strictly(front, r);
        lemma_insert_by_job(front, r);
        let mid = insert_by_job(front, r);
        assert forall|i: int, j: int| 0 <= i < j < after.len() implies (
        #[trigger] after[i]).job_id.value < (#[trigger] after[j]).job_id.value by {
            assert(after[i] == mid[i]);
            if j < mid.len() {
                assert(after[j] == mid[j]);
            } else {
                assert(mid.contains(mid[i]));
                if mid[i] != r {
                    let k = choose|k: int| 0 <= k < front.len() && front[k] == mid[i];
                    assert(sorted[k].job_id.value < sorted[n - 1].job_id.value);
                }
            }
        }
    }
}

proof fn lemma_by_job_strictly(receipts: Seq<ReceiptRowView>)
    requires
        forall|i: int, j: int|
            0 <= i < j < receipts.len() ==> (#[trigger] receipts[i]).job_id != (
            #[trigger] receipts[j]).job_id,
    ensures
        jobs_strictly_ascend(by_job(receipts)),
    decreases receipts.len(),
{
    if receipts.len() > 0 {
        let front = receipts.drop_last();
        let sorted = by_job(front);
        assert forall|i: int, j: int| 0 <= i < j < front.len() implies (#[trigger] front[i]).job_id
            != (#[trigger] front[j]).job_id by {
            assert(receipts[i].job_id != receipts[j].job_id);
        }
        lemma_by_job_strictly(front);
        lemma_by_job(front);
        assert forall|i: int| 0 <= i < sorted.len() implies (#[trigger] sorted[i]).job_id
            != receipts.last().job_id by {
            assert(sorted.contains(sorted[i]));
            let k = choose|k: int| 0 <= k < front.len() && front[k] == sorted[i];
            assert(receipts[k].job_id != receipts[receipts.len() - 1].job_id);
        }
        lemma_insert_strictly(sorted, receipts.last());
    }
}

/// The receipts of a transaction are those of the store that name it and whose
/// job is there, each once, in the order of their jobs' identifiers.
pub proof fn law_receipts_of(t: Tables, transaction_id: Id)
    requires
        sound(t),
    ensures
        jobs_strictly_ascend(receipts_of(t, transaction_id)),
        forall|x: ReceiptRowView| #[trigger]
            receipts_of(t, transaction_id).contains(x) <==> t.receipts.contains(x)
                && x.transaction_id == transaction_id && has_job(t.jobs, x.job_id),
{
    let pred = of_transaction(t, transaction_id);
    let mine = t.receipts.filter(pred);
    lemma_by_job(mine);
    let idx = lemma_filter_indices(t.receipts, pred);
    t.receipts.filter_lemma(pred);
    assert forall|i: int, j: int| 0 <= i < j < mine.len() implies (#[trigger] mine[i]).job_id != (
    #[trigger] mine[j]).job_id by {
        assert(mine[i] == t.receipts[idx[i]] && mine[j] == t.receipts[idx[j]]);
        assert(pred(t.receipts[idx[i]]) && pred(t.receipts[idx[j]]));
        assert(idx[i] < idx[j]);
    }
    lemma_by_job_strictly(mine);
    assert forall|x: ReceiptRowView| #[trigger] receipts_of(t, transaction_id).contains(x)
        <==> t.receipts.contains(x) && x.transaction_id == transaction_id && has_job(
        t.jobs,
        x.job_id,
    ) by {
        assert(by_job(mine).contains(x) <==> mine.contains(x));
        if mine.contains(x) {
            let k = choose|k: int| 0 <= k < mine.len() && mine[k] == x;
            assert(t.receipts[idx[k]] == x);
            assert(pred(t.receipts[idx[k]]));
        }
        if t.receipts.contains(x) && pred(x) {
            let k = choose|k: int| 0 <= k < t.receipts.len() && t.receipts[k] == x;
            assert(mine.contains(t.receipts[k]));
        }
    }
}

/// The receipts that a claim adds.
pub open spec fn claim_receipts(
    t: Tables,
    req: ClaimRequestView,
    tokens: Seq<Id>,
    transaction_id: Id,
) -> Seq<ReceiptRowView> {
    let terms = lease_terms(req, transaction_id);
    Seq::new(leases(t, req).len(), |i: int| receipt_of(leases(t, req)[i], tokens[i], terms))
}

/// The receipts of the transaction of a claim are those that the claim added.
proof fn lemma_receipts_of_claim(
    t: Tables,
    req: ClaimRequestView,
    tokens: Seq<Id>,
    transaction_id: Id,
)
    requires
        consistent(t),
        transaction_refusal(t, transaction_id) is None,
    ensures
        receipts_of(after_claim(t, req, tokens, transaction_id), transaction_id) == by_job(
            claim_receipts(t, req, tokens, transaction_id),
        ),
{
    lemma_no_receipt_taken(t, leases(t, req), transaction_id);
    law_claim_effect(t, req, tokens, transaction_id);
    let after = after_claim(t, req, tokens, transaction_id);
    let added = claim_receipts(t, req, tokens, transaction_id);
    let pred = of_transaction(after, transaction_id);
    assert(after.receipts =~= t.receipts + added);
    assert forall|i: int| 0 <= i < t.receipts.len() implies !pred(#[trigger] t.receipts[i]) by {
        assert(has_transaction(t.transactions, t.receipts[i].transaction_id));
    }
    assert forall|i: int| 0 <= i < added.len() implies pred(#[trigger] added[i]) by {
        assert(find_job(after.jobs, leases(t, req)[i].job_id) is Some);
    }
    lemma_filter_all(t.receipts, pred);
    lemma_filter_all(added, pred);
    Seq::filter_distributes_over_add(t.receipts, added, pred);
    assert(after.receipts.filter(pred) =~= added);
}

/// A receipt that a claim added recovers the leased job that the claim gave
/// out, and is current while the lease runs.
proof fn lemma_receipt_recovers(
    t: Tables,
    req: ClaimRequestView,
    tokens: Seq<Id>,
    transaction_id: Id,
    now_ms: i64,
    i: int,
)
    requires
        consistent(t),
        claim_refusal(req) is None,
        transaction_refusal(t, transaction_id) is None,
        0 <= i < leases(t, req).len(),
    ensures
        ({
            let after = after_claim(t, req, tokens, transaction_id);
            let added = claim_receipts(t, req, tokens, transaction_id);
            let terms = lease_terms(req, transaction_id);
            &&& now_ms <= req.now_ms + req.lease_ms ==> still_current(after, now_ms)(added[i])
            &&& recovered_of(after)(added[i]) == claimed_jobs(leases(t, req), tokens, terms)[i]
            &&& after.receipts.contains(added[i])
        }),
{
    lemma_no_receipt_taken(t, leases(t, req), transaction_id);
    law_claim_effect(t, req, tokens, transaction_id);
    let after = after_claim(t, req, tokens, transaction_id);
    let added = claim_receipts(t, req, tokens, transaction_id);
    let terms = lease_terms(req, transaction_id);
    let job = leases(t, req)[i];
    assert(find_job(after.jobs, job.job_id) == Some(granted_row(job, tokens[i], terms)));
    assert(recovered_of(after)(added[i]) =~= claimed_jobs(leases(t, req), tokens, terms)[i]);
    assert(after.receipts =~= t.receipts + added);
    assert(after.receipts[t.receipts.len() + i] == added[i]);
}

/// Recovering receipts that are all current gives the jobs that they recover,
/// each, in the order of their identifiers.
proof fn lemma_all_current(
    t: Tables,
    added: Seq<ReceiptRowView>,
    jobs: Seq<ClaimedJobView>,
    now_ms: i64,
)
    requires
        jobs.len() == added.len(),
        forall|i: int, j: int|
            0 <= i < j < added.len() ==> (#[trigger] added[i]).job_id != (
            #[trigger] added[j]).job_id,
        forall|i: int|
            0 <= i < added.len() ==> still_current(t, now_ms)(#[trigger] added[i]) && recovered_of(
                t,
            )(added[i]) == jobs[i],
    ensures
        by_job(added).len() == jobs.len(),
        by_job(added).filter(stale(t, now_ms)).len() == 0,
        ({
            let back = by_job(added).filter(still_current(t, now_ms)).map_values(recovered_of(t));
            &&& back.len() == jobs.len()
            &&& forall|j: ClaimedJobView| #[trigger] back.contains(j) <==> jobs.contains(j)
            &&& forall|i: int, k: int|
                0 <= i < k < back.len() ==> (#[trigger] back[i]).job_id.value < (
                #[trigger] back[k]).job_id.value
        }),
{
    lemma_by_job(added);
    lemma_by_job_strictly(added);
    let found = by_job(added);
    assert forall|i: int| 0 <= i < found.len() implies still_current(t, now_ms)(
        #[trigger] found[i],
    ) && !stale(t, now_ms)(found[i]) by {
        assert(found.contains(found[i]));
        let k = choose|k: int| 0 <= k < added.len() && added[k] == found[i];
        assert(still_current(t, now_ms)(added[k]));
    }
    lemma_filter_all(found, still_current(t, now_ms));
    lemma_filter_all(found, stale(t, now_ms));
    let back = found.map_values(recovered_of(t));
    assert forall|j: ClaimedJobView| #[trigger] back.contains(j) <==> jobs.contains(j) by {
        if back.contains(j) {
            let i = choose|i: int| 0 <= i < back.len() && back[i] == j;
            assert(found.contains(found[i]));
            let k = choose|k: int| 0 <= k < added.len() && added[k] == found[i];
            assert(recovered_of(t)(added[k]) == jobs[k]);
        }
        if jobs.contains(j) {
            let k = choose|k: int| 0 <= k < jobs.len() && jobs[k] == j;
            assert(added.contains(added[k]));
            assert(found.contains(added[k]));
            let i = choose|i: int| 0 <= i < found.len() && found[i] == added[k];
            assert(recovered_of(t)(added[k]) == jobs[k]);
            assert(back[i] == j);
        }
    }
    assert forall|i: int, k: int| 0 <= i < k < back.len() implies (#[trigger] back[i]).job_id.value
        < (#[trigger] back[k]).job_id.value by {
        assert(found[i].job_id.value < found[k].job_id.value);
    }
}

/// Recovering a claim that granted leases gives back exactly the leased jobs
/// that the claim gave out, with their tokens, in the order of their
/// identifiers, as long as the leases have not run out.
pub proof fn law_recovery_gives_back_the_claim(
    t: Tables,
    req: ClaimRequestView,
    fresh: Seq<Id>,
    now_ms: i64,
)
    requires
        consistent(t),
        claim_result(t, req, fresh) matches Ok((after, ClaimOutcomeView::Committed(c))),
        now_ms <= req.now_ms + req.lease_ms,
    ensures
        ({
            let after = claim_result(t, req, fresh)->Ok_0.0;
            let c = claim_result(t, req, fresh)->Ok_0.1->Committed_0;
            recover_result(after, c.transaction_id, now_ms) matches ClaimRecoveryView::Committed(
                r,
            ) && {
                &&& r.transaction_id == c.transaction_id
                &&& r.stale_jobs.len() == 0
                &&& r.jobs.len() == c.jobs.len()
                &&& forall|j: ClaimedJobView| #[trigger] r.jobs.contains(j) <==> c.jobs.contains(j)
                &&& forall|i: int, k: int|
                    0 <= i < k < r.jobs.len() ==> (#[trigger] r.jobs[i]).job_id.value < (
                    #[trigger] r.jobs[k]).job_id.value
            }
        }),
{
    let tx = fresh[leases(t, req).len() as int];
    let after = after_claim(t, req, fresh, tx);
    let added = claim_receipts(t, req, fresh, tx);
    let jobs = claimed_jobs(leases(t, req), fresh, lease_terms(req, tx));
    assert forall|i: int| 0 <= i < added.len() implies still_current(after, now_ms)(
        #[trigger] added[i],
    ) && recovered_of(after)(added[i]) == jobs[i] by {
        lemma_receipt_recovers(t, req, fresh, tx, now_ms, i);
    }
    law_leases(t, req);
    assert forall|i: int, j: int| 0 <= i < j < added.len() implies (#[trigger] added[i]).job_id != (
    #[trigger] added[j]).job_id by {
        assert(leases(t, req)[i].job_id != leases(t, req)[j].job_id);
    }
    lemma_receipts_of_claim(t, req, fresh, tx);
    lemma_all_current(after, added, jobs, now_ms);
}

/// Recovering a claim that only repaired expired leases says so.
pub proof fn law_recovery_of_maintenance(
    t: Tables,
    req: ClaimRequestView,
    fresh: Seq<Id>,
    now_ms: i64,
)
    requires
        consistent(t),
        claim_result(t, req, fresh) matches Ok((_, ClaimOutcomeView::MaintenanceCommitted(_))),
    ensures
        ({
            let after = claim_result(t, req, fresh)->Ok_0.0;
            let tx = claim_result(t, req, fresh)->Ok_0.1->MaintenanceCommitted_0;
            recover_result(after, tx, now_ms) == ClaimRecoveryView::MaintenanceCommitted(tx)
        }),
{
    let granted = leases(t, req);
    let tx = fresh[granted.len() as int];
    lemma_no_receipt_taken(t, granted, tx);
    law_claim_effect(t, req, fresh, tx);
    let after = after_claim(t, req, fresh, tx);
    let pred = of_transaction(after, tx);
    assert forall|i: int| 0 <= i < after.receipts.len() implies !pred(
        #[trigger] after.receipts[i],
    ) by {
        assert(after.receipts[i] == t.receipts[i]);
        assert(has_transaction(t.transactions, t.receipts[i].transaction_id));
    }
    lemma_filter_all(after.receipts, pred);
    lemma_by_job(after.receipts.filter(pred));
    let n = t.transactions.len() as int;
    assert(after.transactions[n].transaction_id == tx);
}

/// A claim that was rolled back is reported as absent.
pub proof fn law_recovery_of_a_rolled_back_claim(t: Tables, transaction_id: Id, now_ms: i64)
    requires
        consistent(t),
        !has_transaction(t.transactions, transaction_id),
    ensures
        recover_result(t, transaction_id, now_ms) is Absent,
{
    let pred = of_transaction(t, transaction_id);
    assert forall|i: int| 0 <= i < t.receipts.len() implies !pred(#[trigger] t.receipts[i]) by {
        assert(has_transaction(t.transactions, t.receipts[i].transaction_id));
    }
    lemma_filter_all(t.receipts, pred);
    lemma_by_job(t.receipts.filter(pred));
}

/// Every job that a recovery hands out for execution is leased under the
/// recovered token, with a lease that has not run out.
pub proof fn law_recovered_jobs_are_current(t: Tables, transaction_id: Id, now_ms: i64, i: int)
    requires
        recover_result(t, transaction_id, now_ms) matches ClaimRecoveryView::Committed(c) && 0 <= i
            < c.jobs.len(),
    ensures
        ({
            let c = recover_result(t, transaction_id, now_ms)->Committed_0;
            find_job(t.jobs, c.jobs[i].job_id) matches Some(job) && job.state is Leased
                && job.lease_token == Some(c.jobs[i].lease_token) && (
            job.lease_expires_at_ms matches Some(ms) && ms >= now_ms)
        }),
{
    let receipts = receipts_of(t, transaction_id);
    let idx = lemma_filter_indices(receipts, still_current(t, now_ms));
    assert(still_current(t, now_ms)(receipts[idx[i]]));
}

/// After a lease was extended, and up to its new expiry, recovering its claim
/// gives the leased job that its receipt gave before, with the new expiry and
/// every other field unchanged.
pub proof fn law_recovery_gives_the_extended_expiry(
    t: Tables,
    extension: LeaseExtension,
    extended_at_ms: i64,
    r: ReceiptRowView,
    now_ms: i64,
)
    requires
        sound(t),
        extension_conflict(t, extension, extended_at_ms) is None,
        t.receipts.contains(r),
        r.job_id == extension.job_id,
        r.lease_token == extension.lease_token,
        now_ms <= extension.new_expiry_ms,
    ensures
        recover_result(after_extension(t, extension), r.transaction_id, now_ms) matches
            ClaimRecoveryView::Committed(c) && c.jobs.contains(
            (ClaimedJobView {
                lease_expires_at_ms: extension.new_expiry_ms,
                ..recovered_of(t)(r)
            }),
        ),
{
    let after = after_extension(t, extension);
    law_extension_effect(t, extension, extended_at_ms);
    law_receipts_of(after, r.transaction_id);
    let k = choose|k: int| 0 <= k < t.receipts.len() && t.receipts[k] == r;
    let changed = ReceiptRowView { lease_expires_at_ms: extension.new_expiry_ms, ..r };
    assert(after.receipts[k] == changed);
    assert(after.receipts.contains(changed));
    assert(find_job(after.jobs, extension.job_id) is Some);
    let found = receipts_of(after, r.transaction_id);
    assert(found.contains(changed));
    let pred = still_current(after, now_ms);
    assert(pred(changed));
    found.filter_lemma(pred);
    let m = choose|m: int| 0 <= m < found.len() && found[m] == changed;
    assert(found.filter(pred).contains(found[m]));
    let i = choose|i: int| 0 <= i < found.filter(pred).len() && found.filter(pred)[i] == changed;
    let jobs = found.filter(pred).map_values(recovered_of(after));
    let c = recover_result(after, r.transaction_id, now_ms)->Committed_0;
    assert(c.jobs == jobs);
    assert(c.jobs[i] =~= (ClaimedJobView {
        lease_expires_at_ms: extension.new_expiry_ms,
        ..recovered_of(t)(r)
    }));
}

/// Extending a lease right behind the claim that granted it, recovering the
/// claim gives the leased job as the claim gave it out, but for the new expiry.
pub proof fn law_an_extended_claim_is_recovered(
    t: Tables,
    req: ClaimRequestView,
    fresh: Seq<Id>,
    i: int,
    new_expiry_ms: i64,
    extended_at_ms: i64,
    now_ms: i64,
)
    requires
        consistent(t),
        claim_result(t, req, fresh) matches Ok((after, ClaimOutcomeView::Committed(c))) && {
            let granted = c.jobs[i];
            &&& 0 <= i < c.jobs.len()
            &&& extended_at_ms <= granted.lease_expires_at_ms < new_expiry_ms
        },
        now_ms <= new_expiry_ms,
    ensures
        ({
            let after = claim_result(t, req, fresh)->Ok_0.0;
            let c = claim_result(t, req, fresh)->Ok_0.1->Committed_0;
            let extension = LeaseExtension {
                job_id: c.jobs[i].job_id,
                lease_token: c.jobs[i].lease_token,
                new_expiry_ms,
            };
            &&& extension_conflict(after, extension, extended_at_ms) is None
            &&& recover_result(
                after_extension(after, extension),
                c.transaction_id,
                now_ms,
            ) matches ClaimRecoveryView::Committed(back) && back.jobs.contains(
                (ClaimedJobView { lease_expires_at_ms: new_expiry_ms, ..c.jobs[i] }),
            )
        }),
{
    let tx = fresh[leases(t, req).len() as int];
    let after = after_claim(t, req, fresh, tx);
    let added = claim_receipts(t, req, fresh, tx);
    let terms = lease_terms(req, tx);
    let job = leases(t, req)[i];
    let granted = claimed_jobs(leases(t, req), fresh, terms)[i];
    let extension = LeaseExtension {
        job_id: granted.job_id,
        lease_token: granted.lease_token,
        new_expiry_ms,
    };
    lemma_receipt_recovers(t, req, fresh, tx, now_ms, i);
    lemma_no_receipt_taken(t, leases(t, req), tx);
    law_claim_effect(t, req, fresh, tx);
    assert(find_job(after.jobs, job.job_id) == Some(granted_row(job, fresh[i], terms)));
    law_recovery_gives_the_extended_expiry(after, extension, extended_at_ms, added[i], now_ms);
}

/// Inserts a receipt behind those of jobs with lower identifiers.
fn place_by_job(sorted: &mut Vec<ReceiptRow>, row: ReceiptRow)
    ensures
        receipt_views(final(sorted)@) == insert_by_job(receipt_views(old(sorted)@), row@),
{
    let ghost before = receipt_views(sorted@);
    let mut k: usize = sorted.len();
    while k > 0 && sorted[k - 1].job_id.value > row.job_id.value
        invariant
            k <= sorted@.len(),
            sorted@ == old(sorted)@,
            before == receipt_views(sorted@),
            forall|j: int|
                k <= j < before.len() ==> (#[trigger] before[j]).job_id.value > row@.job_id.value,
        decreases k,
    {
        assert(before[k - 1] == sorted@[k - 1]@);
        k -= 1;
    }
    proof {
        if k > 0 {
            assert(before[k - 1] == sorted@[k - 1]@);
        }
        lemma_insert_by_job_at(before, row@, k as int);
    }
    sorted.insert(k, row);
    assert(receipt_views(sorted@) =~= before.insert(k as int, row@));
}

impl ControlPlaneStore {
    /// The receipts of a transaction, in the order of their jobs' identifiers.
    fn transaction_receipts(&self, transaction_id: Id) -> (sorted: Vec<ReceiptRow>)
        requires
            self.wf(),
        ensures
            receipt_views(sorted@) == receipts_of(self@, transaction_id),
    {
        let rows = self.receipt_rows();
        let ghost all = self@.receipts;
        let ghost pred = of_transaction(self@, transaction_id);
        let mut sorted: Vec<ReceiptRow> = Vec::new();
        let mut i: usize = 0;
        proof {
            reveal(Seq::filter);
            assert(receipt_views(sorted@) =~= by_job(all.take(0).filter(pred)));
        }
        while i < rows.len()
            invariant
                i <= rows@.len(),
                receipt_views(rows@) == all,
                self.wf(),
                pred == of_transaction(self@, transaction_id),
                receipt_views(sorted@) == by_job(all.take(i as int).filter(pred)),
            decreases rows@.len() - i,
        {
            proof {
                reveal(Seq::filter);
                assert(all.take(i + 1).drop_last() =~= all.take(i as int));
                assert(all.take(i + 1).last() == rows@[i as int]@);
                let kept = all.take(i as int).filter(pred);
                assert(kept.push(rows@[i as int]@).drop_last() =~= kept);
            }
            if rows[i].transaction_id == transaction_id && self.load_job(
                rows[i].job_id,
            ).is_some() {
                place_by_job(&mut sorted, rows[i].clone());
            }
            i += 1;
        }
        assert(all.take(i as int) =~= all);
        sorted
    }

    /// Recovers a claim by its transaction: the leases that may still be
    /// executed come back with their tokens, the others as stale.
    pub fn recover_claim(&self, transaction_id: Id, now_ms: i64) -> (r: ClaimRecovery)
        requires
            self.wf(),
        ensures
            r@ == recover_result(self@, transaction_id, now_ms),
    {
        let receipts = self.transaction_receipts(transaction_id);
        let ghost found = receipts_of(self@, transaction_id);
        let ghost fresh = still_current(self@, now_ms);
        let ghost old_pred = stale(self@, now_ms);
        let ghost back = recovered_of(self@);
        let ghost name = |r: ReceiptRowView| r.job_id;
        assert(found.len() == receipts@.len());
        let mut jobs: Vec<ClaimedJob> = Vec::new();
        let mut stale_jobs: Vec<Id> = Vec::new();
        let mut i: usize = 0;
        proof {
            reveal(Seq::filter);
            assert(claimed_views(jobs@) =~= found.take(0).filter(fresh).map_values(back));
            assert(stale_jobs@ =~= found.take(0).filter(old_pred).map_values(name));
            law_receipts_of(self@, transaction_id);
        }
        while i < receipts.len()
            invariant
                i <= receipts@.len(),
                self.wf(),
                receipt_views(receipts@) == found,
                fresh == still_current(self@, now_ms),
                old_pred == stale(self@, now_ms),
                back == recovered_of(self@),
                name == (|r: ReceiptRowView| r.job_id),
                forall|x: ReceiptRowView| #[trigger]
                    found.contains(x) ==> has_job(self@.jobs, x.job_id),
                claimed_views(jobs@) == found.take(i as int).filter(fresh).map_values(back),
                stale_jobs@ == found.take(i as int).filter(old_pred).map_values(name),
            decreases receipts@.len() - i,
        {
            let ghost jobs_before = jobs@;
            let ghost stale_before = stale_jobs@;
            let receipt = &receipts[i];
            proof {
                reveal(Seq::filter);
                assert(found.take(i + 1).drop_last() =~= found.take(i as int));
                assert(found.take(i + 1).last() == receipt@);
                assert(found[i as int] == receipt@);
                assert(found.contains(receipt@));
            }
            if let Some(job) = self.load_job(receipt.job_id) {
                let current_token = match job.lease_token {
                    Some(t) => t == receipt.lease_token,
                    None => false,
                };
                let unexpired = match job.lease_expires_at_ms {
                    Some(ms) => ms >= now_ms,
                    None => false,
                };
                // A recovered lease is executable only while it is still the
                // current, unexpired lease of its job.
                if job.state == JobState::Leased && current_token && unexpired {
                    jobs.push(
                        ClaimedJob {
                            job_id: receipt.job_id,
                            queue: job.queue,
                            partition_key: job.partition_key,
                            payload: job.payload,
                            worker_id: receipt.worker_id.clone(),
                            lease_token: receipt.lease_token,
                            attempt: receipt.attempt,
                            lease_expires_at_ms: receipt.lease_expires_at_ms,
                            idempotency_key: job.idempotency_key,
                        },
                    );
                    proof {
                        assert(fresh(receipt@) && !old_pred(receipt@));
                        assert(jobs@.last()@ =~= back(receipt@));
                        assert(claimed_views(jobs@) =~= claimed_views(jobs_before).push(
                            back(receipt@),
                        ));
                        assert(found.take(i + 1).filter(fresh).map_values(back)
                            =~= found.take(i as int).filter(fresh).map_values(back).push(
                            back(receipt@),
                        ));
                    }
                } else {
                    stale_jobs.push(receipt.job_id);
                    proof {
                        assert(!fresh(receipt@) && old_pred(receipt@));
                        assert(stale_jobs@ =~= stale_before.push(name(receipt@)));
                        assert(found.take(i + 1).filter(old_pred).map_values(name)
                            =~= found.take(i as int).filter(old_pred).map_values(name).push(
                            name(receipt@),
                        ));
                    }
                }
            }
            i += 1;
        }
        assert(found.take(i as int) =~= found);
        if receipts.len() > 0 {
            return ClaimRecovery::Committed(CommittedClaims { transaction_id, jobs, stale_jobs });
        }
        if self.knows_transaction(transaction_id) {
            // The transaction is durable but leased nothing.
            ClaimRecovery::MaintenanceCommitted(MaintenanceReceipt { transaction_id })
        } else {
            ClaimRecovery::Absent
        }
    }
}

} // verus!
