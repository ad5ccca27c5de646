//! Claims: expired leases are repaired and ready heads are leased, in one
//! transaction.
//!
//! A claim draws its identifiers from a list of fresh ones: one lease token
//! for each lease, and behind them the identifier of its transaction. Whether
//! the transaction is durable is decided by its COMMIT step, whose result
//! [`settle_claim`] turns into what the caller of the claim learns.
use vstd::prelude::*;

use crate::claim_steps::{
    after_grants, after_repairs, claim_text, claim_transaction, claimed_jobs, claimed_of, current,
    granted_row, lemma_grants, lemma_repairs, lemma_with_cursor, lemma_with_transaction,
    next_transaction_sequence, receipt_of, repaired_row, with_cursor, with_transaction, LeaseTerms,
};
use crate::digest::checksum;
use crate::error::{
    claim_storage, error_to_claim, storage_message, ClaimError, ClaimErrorView, IndeterminateClaim,
    StorageError, StorageErrorView, ValidationError,
};
use crate::id::Id;
use crate::jobs::{
    claimed_views, ClaimOutcome, ClaimOutcomeView, ClaimRequest, ClaimRequestView, ClaimedJob,
    ClaimedJobView, CommittedClaims, CommittedClaimsView, MaintenanceReceipt,
};
use crate::plan::{
    action_jobs, lease_expired, lease_jobs, lease_tokens, leases, moved_cursor, no_identifier,
    ready, repaired_state, repairs, MaintenanceAction, ProposedLease,
};
use crate::plan_laws::{law_leases, law_repaired_jobs_are_not_leased, law_repairs, repaired_before};
use crate::row::JobRowView;
use crate::rows::{receipt_views, CursorRow, ReceiptRow, TransactionRow};
use crate::state::{terminal, JobState};
use crate::store::ControlPlaneStore;
use crate::tables::{
    consistent, find_cursor, find_job, has_job, has_receipt, has_transaction, lemma_found,
    receipts_owned, row_fits, row_ok, sound, Tables,
};
use crate::text::{decimal_text, is_blank, signed_decimal_text};
use crate::transitions::ensure_transition;
use crate::values::{copy_bytes, copy_opt_text};

verus! {

/// Why a claim is refused before it reads anything, if it is.
pub open spec fn claim_refusal(req: ClaimRequestView) -> Option<Seq<char>> {
    if req.queue.len() == 0 {
        Some("claim queue cannot be empty"@)
    } else if req.worker_id.len() == 0 {
        Some("claim worker id cannot be empty"@)
    } else if req.partition_key matches Some(key) && key.len() == 0 {
        Some("claim partition_key cannot be empty"@)
    } else if req.lease_ms <= 0 {
        Some("claim lease_ms must be positive"@)
    } else if req.now_ms + req.lease_ms > i64::MAX {
        Some("lease expiry timestamp overflows i64"@)
    } else {
        None
    }
}

/// The terms of the leases of a claim.
pub open spec fn lease_terms(req: ClaimRequestView, transaction_id: Id) -> LeaseTerms {
    LeaseTerms {
        worker_id: req.worker_id,
        lease_expires_at_ms: (req.now_ms + req.lease_ms) as i64,
        transaction_id,
    }
}

/// The tables after a claim: its transaction is recorded, the expired leases
/// are repaired, the ready heads are leased, and the cursor moves.
pub open spec fn after_claim(
    t: Tables,
    req: ClaimRequestView,
    tokens: Seq<Id>,
    transaction_id: Id,
) -> Tables {
    let fixed = repairs(t, req.queue, req.now_ms);
    let granted = leases(t, req);
    let begun = with_transaction(
        t,
        claim_transaction(t, req, transaction_id, fixed.len() + granted.len()),
    );
    let mended = after_repairs(begun, fixed, req.now_ms, transaction_id);
    let leased = after_grants(mended, granted, tokens, lease_terms(req, transaction_id));
    with_cursor(leased, req.queue, moved_cursor(t, req))
}

/// What the caller of a durable claim gets.
pub open spec fn claim_outcome(
    t: Tables,
    req: ClaimRequestView,
    tokens: Seq<Id>,
    transaction_id: Id,
) -> ClaimOutcomeView {
    if leases(t, req).len() == 0 {
        ClaimOutcomeView::MaintenanceCommitted(transaction_id)
    } else {
        ClaimOutcomeView::Committed(
            CommittedClaimsView {
                transaction_id,
                jobs: claimed_jobs(leases(t, req), tokens, lease_terms(req, transaction_id)),
                stale_jobs: Seq::empty(),
            },
        )
    }
}

/// The error for a transaction that cannot be recorded, if it cannot.
pub open spec fn transaction_refusal(t: Tables, transaction_id: Id) -> Option<StorageErrorView> {
    if next_transaction_sequence(t.transactions) > i64::MAX {
        Some(StorageErrorView::Sqlite("transaction sequence exhausted"@))
    } else if has_transaction(t.transactions, transaction_id) {
        Some(
            StorageErrorView::Sqlite("UNIQUE constraint failed: transactions.transaction_id"@),
        )
    } else {
        None
    }
}

/// The transaction has a receipt for one of these jobs already.
pub open spec fn receipt_taken(t: Tables, rows: Seq<JobRowView>, transaction_id: Id) -> bool {
    exists|i: int|
        0 <= i < rows.len() && has_receipt(t.receipts, transaction_id, (#[trigger] rows[i]).job_id)
}

/// The error for a receipt that is there already.
pub open spec fn receipt_refusal() -> StorageErrorView {
    StorageErrorView::Sqlite(
        "UNIQUE constraint failed: claim_receipts.transaction_id, claim_receipts.job_id"@,
    )
}

/// What a claim gives before its COMMIT step.
pub open spec fn claim_result(
    t: Tables,
    req: ClaimRequestView,
    fresh: Seq<Id>,
) -> Result<(Tables, ClaimOutcomeView), ClaimErrorView> {
    let granted = leases(t, req);
    if claim_refusal(req) is Some {
        Err(ClaimErrorView::Validation(claim_refusal(req)->0))
    } else if granted.len() > fresh.len() {
        Err(ClaimErrorView::Storage(no_identifier()))
    } else if repairs(t, req.queue, req.now_ms).len() == 0 && granted.len() == 0 {
        Ok((t, ClaimOutcomeView::Noop))
    } else if granted.len() == fresh.len() {
        Err(ClaimErrorView::Storage(no_identifier()))
    } else {
        let transaction_id = fresh[granted.len() as int];
        if transaction_refusal(t, transaction_id) is Some {
            Err(ClaimErrorView::Storage(transaction_refusal(t, transaction_id)->0))
        } else if receipt_taken(t, granted, transaction_id) {
            Err(ClaimErrorView::Storage(receipt_refusal()))
        } else {
            Ok(
                (
                    after_claim(t, req, fresh, transaction_id),
                    claim_outcome(t, req, fresh, transaction_id),
                ),
            )
        }
    }
}

/// Where no receipt is taken, none of the jobs has one.
pub proof fn lemma_untaken(t: Tables, rows: Seq<JobRowView>, transaction_id: Id)
    requires
        !receipt_taken(t, rows, transaction_id),
    ensures
        forall|i: int|
            0 <= i < rows.len() ==> !has_receipt(
                t.receipts,
                transaction_id,
                (#[trigger] rows[i]).job_id,
            ),
{
}

/// A new transaction has no receipt yet in tables whose receipts all belong to
/// a transaction of the store.
pub proof fn lemma_no_receipt_taken(t: Tables, rows: Seq<JobRowView>, transaction_id: Id)
    requires
        receipts_owned(t),
        !has_transaction(t.transactions, transaction_id),
    ensures
        !receipt_taken(t, rows, transaction_id),
{
    if receipt_taken(t, rows, transaction_id) {
        let k = choose|k: int|
            0 <= k < rows.len() && has_receipt(
                t.receipts,
                transaction_id,
                (#[trigger] rows[k]).job_id,
            );
        let i = choose|i: int|
            0 <= i < t.receipts.len() && (#[trigger] t.receipts[i]).transaction_id
                == transaction_id && t.receipts[i].job_id == rows[k].job_id;
        assert(has_transaction(t.transactions, t.receipts[i].transaction_id));
    }
}

/// The identifiers of leased jobs.
pub open spec fn claimed_ids(jobs: Seq<ClaimedJobView>) -> Seq<Id> {
    jobs.map_values(|j: ClaimedJobView| j.job_id)
}

/// What the caller of a claim learns once its COMMIT step has returned. A
/// claim that did nothing has no such step.
pub open spec fn settled_claim(
    outcome: ClaimOutcomeView,
    commit: Result<(), StorageErrorView>,
) -> Result<ClaimOutcomeView, ClaimErrorView> {
    match (outcome, commit) {
        (ClaimOutcomeView::Noop, _) => Ok(outcome),
        (_, Ok(_)) => Ok(outcome),
        (ClaimOutcomeView::MaintenanceCommitted(transaction_id), Err(e)) => Err(
            ClaimErrorView::Indeterminate {
                transaction_id,
                proposed_jobs: Seq::empty(),
                storage_error: storage_message(e),
            },
        ),
        (ClaimOutcomeView::Committed(c), Err(e)) => Err(
            ClaimErrorView::Indeterminate {
                transaction_id: c.transaction_id,
                proposed_jobs: claimed_ids(c.jobs),
                storage_error: storage_message(e),
            },
        ),
    }
}

/// The view of the result of a COMMIT step.
pub open spec fn commit_view(commit: Result<(), StorageError>) -> Result<(), StorageErrorView> {
    match commit {
        Ok(_) => Ok(()),
        Err(e) => Err(e@),
    }
}

/// What the plan of a claim says of its rows, on the tables in which the
/// transaction of the claim has been recorded.
pub proof fn lemma_plan(t: Tables, req: ClaimRequestView, transaction_id: Id)
    requires
        sound(t),
        transaction_refusal(t, transaction_id) is None,
    ensures
        ({
            let fixed = repairs(t, req.queue, req.now_ms);
            let granted = leases(t, req);
            let begun = with_transaction(
                t,
                claim_transaction(t, req, transaction_id, fixed.len() + granted.len()),
            );
            let mended = after_repairs(begun, fixed, req.now_ms, transaction_id);
            &&& sound(begun)
            &&& consistent(t) ==> consistent(begun)
            &&& current(begun, fixed)
            &&& forall|i: int| 0 <= i < fixed.len() ==> (#[trigger] fixed[i]).state is Leased
            &&& sound(mended)
            &&& consistent(t) ==> consistent(mended)
            &&& current(mended, granted)
            &&& forall|i: int|
                0 <= i < granted.len() ==> (#[trigger] granted[i]).state is Pending
                    || granted[i].state is RetryWait
            &&& has_transaction(mended.transactions, transaction_id)
            &&& mended.receipts == t.receipts
            &&& mended.cursors == t.cursors
            &&& mended.transactions == begun.transactions
        }),
{
    let fixed = repairs(t, req.queue, req.now_ms);
    let granted = leases(t, req);
    let row = claim_transaction(t, req, transaction_id, fixed.len() + granted.len());
    let begun = with_transaction(t, row);
    law_repairs(t, req.queue, req.now_ms);
    law_leases(t, req);
    law_repaired_jobs_are_not_leased(t, req);
    lemma_with_transaction(t, row);
    assert forall|i: int| 0 <= i < fixed.len() implies (#[trigger] fixed[i]).state is Leased by {
        assert(lease_expired(req.queue, req.now_ms)(fixed[i]));
    }
    assert forall|i: int, j: int| 0 <= i < j < fixed.len() implies (#[trigger] fixed[i]).job_id != (
    #[trigger] fixed[j]).job_id by {
        assert(repaired_before(fixed[i], fixed[j]));
        assert(find_job(t.jobs, fixed[i].job_id) == Some(fixed[i]));
        assert(find_job(t.jobs, fixed[j].job_id) == Some(fixed[j]));
    }
    lemma_repairs(begun, fixed, req.now_ms, transaction_id);
    let mended = after_repairs(begun, fixed, req.now_ms, transaction_id);
    assert forall|i: int| 0 <= i < granted.len() implies find_job(
        mended.jobs,
        (#[trigger] granted[i]).job_id,
    ) == Some(granted[i]) by {
        if has_job(fixed, granted[i].job_id) {
            let k = lemma_found(fixed, granted[i].job_id);
            assert(fixed[k].job_id != granted[i].job_id);
        }
    }
    assert forall|i: int| 0 <= i < granted.len() implies (#[trigger] granted[i]).state is Pending
        || granted[i].state is RetryWait by {
        assert(ready(granted[i], req.now_ms));
    }
}

/// Some of the first rows are current where all of them are.
proof fn lemma_current_prefix(t: Tables, rows: Seq<JobRowView>, i: int)
    requires
        current(t, rows),
        0 <= i < rows.len(),
    ensures
        current(t, rows.take(i)),
        !has_job(rows.take(i), rows[i].job_id),
{
    let front = rows.take(i);
    assert forall|k: int| 0 <= k < front.len() implies find_job(
        t.jobs,
        (#[trigger] front[k]).job_id,
    ) == Some(front[k]) by {
        assert(front[k] == rows[k]);
    }
    assert forall|k: int, j: int| 0 <= k < j < front.len() implies (#[trigger] front[k]).job_id != (
    #[trigger] front[j]).job_id by {
        assert(rows[k].job_id != rows[j].job_id);
    }
    if has_job(front, rows[i].job_id) {
        let k = lemma_found(front, rows[i].job_id);
        assert(rows[k].job_id != rows[i].job_id);
    }
}

/// A claim that gets as far as its COMMIT step leaves the tables sound, and
/// consistent where they were: every job that it does not repair or lease is
/// unchanged, the repaired and leased jobs are as the plan says, each lease has
/// a receipt, the cursor of no other queue moves, and the transaction is
/// recorded.
pub proof fn law_claim_effect(
    t: Tables,
    req: ClaimRequestView,
    tokens: Seq<Id>,
    transaction_id: Id,
)
    requires
        sound(t),
        transaction_refusal(t, transaction_id) is None,
        !receipt_taken(t, leases(t, req), transaction_id),
    ensures
        ({
            let fixed = repairs(t, req.queue, req.now_ms);
            let granted = leases(t, req);
            let terms = lease_terms(req, transaction_id);
            let after = after_claim(t, req, tokens, transaction_id);
            &&& sound(after)
            &&& consistent(t) ==> consistent(after)
            &&& forall|i: int|
                0 <= i < fixed.len() ==> find_job(after.jobs, (#[trigger] fixed[i]).job_id) == Some(
                    repaired_row(fixed[i], req.now_ms, transaction_id),
                )
            &&& forall|i: int|
                0 <= i < granted.len() ==> find_job(after.jobs, (#[trigger] granted[i]).job_id)
                    == Some(granted_row(granted[i], tokens[i], terms))
            &&& forall|id: Id|
                !has_job(fixed, id) && !has_job(granted, id) ==> #[trigger] find_job(after.jobs, id)
                    == find_job(t.jobs, id)
            &&& after.receipts == t.receipts + Seq::new(
                granted.len(),
                |i: int| receipt_of(granted[i], tokens[i], terms),
            )
            &&& after.transactions == t.transactions.push(
                claim_transaction(t, req, transaction_id, fixed.len() + granted.len()),
            )
            &&& find_cursor(after.cursors, req.queue) == match moved_cursor(t, req) {
                Some(key) => Some(key),
                None => find_cursor(t.cursors, req.queue),
            }
            &&& forall|q: Seq<char>|
                q != req.queue ==> #[trigger] find_cursor(after.cursors, q) == find_cursor(
                    t.cursors,
                    q,
                )
        }),
{
    let fixed = repairs(t, req.queue, req.now_ms);
    let granted = leases(t, req);
    let terms = lease_terms(req, transaction_id);
    let begun = with_transaction(
        t,
        claim_transaction(t, req, transaction_id, fixed.len() + granted.len()),
    );
    let mended = after_repairs(begun, fixed, req.now_ms, transaction_id);
    let leased = after_grants(mended, granted, tokens, terms);
    let after = after_claim(t, req, tokens, transaction_id);
    lemma_plan(t, req, transaction_id);
    law_repaired_jobs_are_not_leased(t, req);
    lemma_repairs(begun, fixed, req.now_ms, transaction_id);
    lemma_untaken(t, granted, transaction_id);
    lemma_grants(mended, granted, tokens, terms);
    lemma_with_cursor(leased, req.queue, moved_cursor(t, req));
    assert forall|i: int| 0 <= i < fixed.len() implies find_job(
        after.jobs,
        (#[trigger] fixed[i]).job_id,
    ) == Some(repaired_row(fixed[i], req.now_ms, transaction_id)) by {
        if has_job(granted, fixed[i].job_id) {
            let k = lemma_found(granted, fixed[i].job_id);
            assert(fixed[i].job_id != granted[k].job_id);
        }
    }
    assert forall|id: Id| !has_job(fixed, id) && !has_job(granted, id) implies #[trigger] find_job(
        after.jobs,
        id,
    ) == find_job(t.jobs, id) by {
        assert(find_job(mended.jobs, id) == find_job(begun.jobs, id));
    }
}

/// A claim leaves the tables sound, and consistent where they were.
pub proof fn law_claim_keeps_the_tables_consistent(
    t: Tables,
    req: ClaimRequestView,
    fresh: Seq<Id>,
)
    requires
        sound(t),
    ensures
        claim_result(t, req, fresh) matches Ok((after, _)) ==> sound(after) && (consistent(t)
            ==> consistent(after)),
{
    if let Ok((after, outcome)) = claim_result(t, req, fresh) {
        if !(outcome is Noop) {
            law_claim_effect(t, req, fresh, fresh[leases(t, req).len() as int]);
        }
    }
}

/// A claim that finds nothing to do changes nothing, and every other claim that
/// is not refused records a transaction.
pub proof fn law_only_a_noop_has_no_transaction(
    t: Tables,
    req: ClaimRequestView,
    fresh: Seq<Id>,
)
    requires
        sound(t),
    ensures
        claim_result(t, req, fresh) matches Ok((after, ClaimOutcomeView::Noop)) ==> after == t,
        claim_result(t, req, fresh) matches Ok((after, outcome)) ==> (outcome
            is Noop <==> after.transactions == t.transactions),
{
    if let Ok((after, outcome)) = claim_result(t, req, fresh) {
        if !(outcome is Noop) {
            law_claim_effect(t, req, fresh, fresh[leases(t, req).len() as int]);
            assert(after.transactions.len() == t.transactions.len() + 1);
        }
    }
}

/// A claim that names a partition leaves every cursor where it stands.
pub proof fn law_targeted_claim_keeps_the_cursor(
    t: Tables,
    req: ClaimRequestView,
    fresh: Seq<Id>,
    queue: Seq<char>,
)
    requires
        sound(t),
        req.partition_key is Some,
    ensures
        claim_result(t, req, fresh) matches Ok((after, _)) ==> find_cursor(after.cursors, queue)
            == find_cursor(t.cursors, queue),
{
    if let Ok((after, outcome)) = claim_result(t, req, fresh) {
        if !(outcome is Noop) {
            law_claim_effect(t, req, fresh, fresh[leases(t, req).len() as int]);
        }
    }
}

/// A claim moves the cursor of its queue to the partition of its last lease,
/// and only when it grants one.
pub proof fn law_cursor_follows_the_last_lease(
    t: Tables,
    req: ClaimRequestView,
    fresh: Seq<Id>,
)
    requires
        sound(t),
        req.partition_key is None,
    ensures
        claim_result(t, req, fresh) matches Ok((after, _)) ==> find_cursor(
            after.cursors,
            req.queue,
        ) == if leases(t, req).len() == 0 {
            find_cursor(t.cursors, req.queue)
        } else {
            Some(leases(t, req).last().partition_key)
        },
{
    if let Ok((after, outcome)) = claim_result(t, req, fresh) {
        if !(outcome is Noop) {
            law_claim_effect(t, req, fresh, fresh[leases(t, req).len() as int]);
        }
    }
}

/// No claim uses up more attempts than a job has, and a job that it leases was
/// not leased, uncertain or finished before.
pub proof fn law_claim_respects_attempts(
    t: Tables,
    req: ClaimRequestView,
    fresh: Seq<Id>,
    job_id: Id,
)
    requires
        consistent(t),
        has_job(t.jobs, job_id),
    ensures
        claim_result(t, req, fresh) matches Ok((after, _)) ==> {
            let before_row = find_job(t.jobs, job_id)->0;
            let after_row = find_job(after.jobs, job_id)->0;
            &&& find_job(after.jobs, job_id) is Some
            &&& after_row.attempt <= after_row.max_attempts
            &&& before_row.attempt <= after_row.attempt <= before_row.attempt + 1
            &&& after_row.attempt > before_row.attempt ==> after_row.state is Leased && (
            before_row.state is Pending || before_row.state is RetryWait)
            &&& terminal(before_row.state) || before_row.state is Uncertain ==> after_row
                == before_row
        },
{
    if let Ok((after, outcome)) = claim_result(t, req, fresh) {
        let k = lemma_found(t.jobs, job_id);
        assert(row_ok(t.jobs[k]));
        if !(outcome is Noop) {
            let transaction_id = fresh[leases(t, req).len() as int];
            let fixed = repairs(t, req.queue, req.now_ms);
            let granted = leases(t, req);
            law_claim_effect(t, req, fresh, transaction_id);
            lemma_plan(t, req, transaction_id);
            if has_job(fixed, job_id) {
                let i = lemma_found(fixed, job_id);
                assert(fixed[i].state is Leased);
                assert(fixed[i] == t.jobs[k]);
            } else if has_job(granted, job_id) {
                let i = lemma_found(granted, job_id);
                assert(granted[i].state is Pending || granted[i].state is RetryWait);
                law_leases(t, req);
                assert(granted[i] == t.jobs[k]);
            }
            assert(find_job(after.jobs, job_id) is Some);
            let m = lemma_found(after.jobs, job_id);
            assert(row_ok(after.jobs[m]));
        }
    }
}

/// An indeterminate claim names the jobs that it proposed and its transaction,
/// in order; the claim it stands for is the one whose COMMIT step failed.
pub proof fn law_indeterminate_claim(outcome: ClaimOutcomeView, e: StorageErrorView)
    requires
        !(outcome is Noop),
    ensures
        settled_claim(outcome, Err(e)) matches Err(ClaimErrorView::Indeterminate {
            transaction_id,
            proposed_jobs,
            storage_error,
        }) && storage_error == storage_message(e) && match outcome {
            ClaimOutcomeView::MaintenanceCommitted(id) => transaction_id == id
                && proposed_jobs.len() == 0,
            ClaimOutcomeView::Committed(c) => transaction_id == c.transaction_id
                && proposed_jobs.len() == c.jobs.len() && forall|i: int|
                0 <= i < c.jobs.len() ==> #[trigger] proposed_jobs[i] == c.jobs[i].job_id,
            ClaimOutcomeView::Noop => true,
        },
{
}

/// Turns the outcome of a claim and the result of its COMMIT step into what
/// the caller of the claim learns. Only the COMMIT step is indeterminate: it
/// may or may not have persisted.
pub fn settle_claim(outcome: ClaimOutcome, commit: Result<(), StorageError>) -> (r: Result<
    ClaimOutcome,
    ClaimError,
>)
    ensures
        match r {
            Ok(o) => settled_claim(outcome@, commit_view(commit)) == Ok::<
                ClaimOutcomeView,
                ClaimErrorView,
            >(o@),
            Err(e) => settled_claim(outcome@, commit_view(commit)) == Err::<
                ClaimOutcomeView,
                ClaimErrorView,
            >(e@),
        },
{
    let failure = match commit {
        Ok(_) => {
            return Ok(outcome);
        }
        Err(e) => e,
    };
    match outcome {
        ClaimOutcome::Noop => Ok(ClaimOutcome::Noop),
        ClaimOutcome::MaintenanceCommitted(receipt) => {
            let proposed_jobs: Vec<Id> = Vec::new();
            assert(proposed_jobs@ =~= Seq::<Id>::empty());
            Err(
                ClaimError::Indeterminate(
                    IndeterminateClaim {
                        transaction_id: receipt.transaction_id,
                        proposed_jobs,
                        storage_error: failure.message(),
                    },
                ),
            )
        }
        ClaimOutcome::Committed(claims) => {
            let mut proposed_jobs: Vec<Id> = Vec::new();
            let mut i: usize = 0;
            while i < claims.jobs.len()
                invariant
                    i <= claims.jobs@.len(),
                    proposed_jobs@.len() == i,
                    forall|k: int|
                        0 <= k < i ==> #[trigger] proposed_jobs@[k] == claims.jobs@[k].job_id,
                decreases claims.jobs@.len() - i,
            {
                proposed_jobs.push(claims.jobs[i].job_id);
                i += 1;
            }
            assert(proposed_jobs@ =~= claimed_ids(claims@.jobs));
            Err(
                ClaimError::Indeterminate(
                    IndeterminateClaim {
                        transaction_id: claims.transaction_id,
                        proposed_jobs,
                        storage_error: failure.message(),
                    },
                ),
            )
        }
    }
}

fn refused(text: &str) -> (e: ClaimError)
    ensures
        e@ == ClaimErrorView::Validation(text@),
{
    ClaimError::Validation(ValidationError(text.to_owned()))
}

fn out_of_identifiers() -> (e: ClaimError)
    ensures
        e@ == ClaimErrorView::Storage(no_identifier()),
{
    claim_storage(StorageError::Identifier("no fresh identifier could be drawn".to_owned()))
}

/// Checks a claim before anything is read, and gives the expiry of its leases.
pub fn check_claim(request: &ClaimRequest) -> (r: Result<i64, ClaimError>)
    ensures
        match r {
            Ok(ms) => claim_refusal(request@) is None && ms == request@.now_ms + request@.lease_ms,
            Err(e) => claim_refusal(request@) is Some && e@ == ClaimErrorView::Validation(
                claim_refusal(request@)->0,
            ),
        },
{
    if is_blank(request.queue.as_str()) {
        return Err(refused("claim queue cannot be empty"));
    }
    if is_blank(request.worker_id.as_str()) {
        return Err(refused("claim worker id cannot be empty"));
    }
    if let Some(key) = &request.partition_key {
        if is_blank(key.as_str()) {
            return Err(refused("claim partition_key cannot be empty"));
        }
    }
    if request.lease_ms <= 0 {
        return Err(refused("claim lease_ms must be positive"));
    }
    match request.now_ms.checked_add(request.lease_ms) {
        Some(ms) => Ok(ms),
        None => Err(refused("lease expiry timestamp overflows i64")),
    }
}

impl ControlPlaneStore {
    /// Why a transaction cannot be recorded, if it cannot.
    fn transaction_conflict(&self, transaction_id: Id) -> (r: Option<StorageError>)
        ensures
            match r {
                Some(e) => transaction_refusal(self@, transaction_id) == Some(e@),
                None => transaction_refusal(self@, transaction_id) is None,
            },
    {
        let rows = self.transaction_rows();
        if rows.len() > 0 {
            assert(self@.transactions.last() == rows@.last()@);
            if rows[rows.len() - 1].transaction_sequence == i64::MAX {
                return Some(StorageError::Sqlite("transaction sequence exhausted".to_owned()));
            }
        }
        if self.knows_transaction(transaction_id) {
            return Some(
                StorageError::Sqlite(
                    "UNIQUE constraint failed: transactions.transaction_id".to_owned(),
                ),
            );
        }
        None
    }

    /// Whether the transaction has a receipt for a planned lease already.
    fn holds_receipt(&self, planned: &Vec<ProposedLease>, transaction_id: Id) -> (r: bool)
        ensures
            r == receipt_taken(self@, lease_jobs(planned@), transaction_id),
    {
        let ghost jobs = lease_jobs(planned@);
        let rows = self.receipt_rows();
        let mut i: usize = 0;
        while i < planned.len()
            invariant
                i <= planned@.len(),
                jobs == lease_jobs(planned@),
                receipt_views(rows@) == self@.receipts,
                forall|k: int|
                    0 <= k < i ==> !has_receipt(
                        self@.receipts,
                        transaction_id,
                        (#[trigger] jobs[k]).job_id,
                    ),
            decreases planned@.len() - i,
        {
            let job_id = planned[i].job.job_id;
            assert(jobs[i as int] == planned@[i as int].job@);
            let mut j: usize = 0;
            while j < rows.len()
                invariant
                    j <= rows@.len(),
                    i < planned@.len(),
                    jobs == lease_jobs(planned@),
                    jobs[i as int].job_id == job_id,
                    receipt_views(rows@) == self@.receipts,
                    forall|k: int|
                        0 <= k < j ==> (#[trigger] self@.receipts[k]).transaction_id
                            != transaction_id || self@.receipts[k].job_id != job_id,
                decreases rows@.len() - j,
            {
                assert(self@.receipts[j as int] == rows@[j as int]@);
                if rows[j].transaction_id == transaction_id && rows[j].job_id == job_id {
                    assert(has_receipt(self@.receipts, transaction_id, jobs[i as int].job_id));
                    return true;
                }
                j += 1;
            }
            i += 1;
        }
        false
    }

    /// Records the transaction of a claim.
    pub fn insert_claim_transaction(
        &mut self,
        transaction_id: Id,
        request: &ClaimRequest,
        repaired: usize,
        granted: usize,
    ) -> (r: Result<(), StorageError>)
        requires
            old(self).wf(),
        ensures
            final(self).wf(),
            final(self).base() == old(self).base(),
            match r {
                Ok(_) => transaction_refusal(old(self)@, transaction_id) is None && final(self)@
                    == with_transaction(
                    old(self)@,
                    claim_transaction(
                        old(self)@,
                        request@,
                        transaction_id,
                        repaired as nat + granted as nat,
                    ),
                ),
                Err(e) => transaction_refusal(old(self)@, transaction_id) == Some(e@)
                    && *final(self) == *old(self),
            },
    {
        if let Some(e) = self.transaction_conflict(transaction_id) {
            return Err(e);
        }
        let rows = self.transaction_rows();
        let transaction_sequence: i64 = if rows.len() == 0 {
            1
        } else {
            assert(self@.transactions.last() == rows@.last()@);
            rows[rows.len() - 1].transaction_sequence + 1
        };
        let mut text = "claim:".to_owned();
        text.append(transaction_id.to_hex().as_str());
        text.append(":");
        text.append(request.queue.as_str());
        text.append(":");
        text.append(request.worker_id.as_str());
        text.append(":");
        text.append(signed_decimal_text(request.now_ms).as_str());
        text.append(":");
        text.append(signed_decimal_text(request.lease_ms).as_str());
        text.append(":");
        text.append(decimal_text(request.limit as u64).as_str());
        // A count of rows never comes near the width of the column.
        let operations: u128 = repaired as u128 + granted as u128;
        let row = TransactionRow {
            transaction_id,
            transaction_sequence,
            committed_at_ms: request.now_ms,
            correlation_id: None,
            metadata: Vec::new(),
            request_digest: checksum(text.as_str()),
            operation_count: operations as i64,
        };
        proof {
            assert(text@ == claim_text(transaction_id, request@));
            assert(row@ =~= claim_transaction(
                self@,
                request@,
                transaction_id,
                repaired as nat + granted as nat,
            ));
            lemma_with_transaction(self@, row@);
        }
        self.insert_transaction(row);
        Ok(())
    }

    /// Repairs the planned expired leases.
    fn apply_maintenance(
        &mut self,
        maintenance: &Vec<MaintenanceAction>,
        now_ms: i64,
        transaction_id: Id,
    ) -> (r: Result<(), ClaimError>)
        requires
            old(self).wf(),
            current(old(self)@, action_jobs(maintenance@)),
            forall|i: int|
                0 <= i < maintenance@.len() ==> (#[trigger] maintenance@[i]).job@.state is Leased
                    && maintenance@[i].to == repaired_state(maintenance@[i].job@),
        ensures
            r is Ok,
            final(self).wf(),
            final(self).base() == old(self).base(),
            final(self)@ == after_repairs(
                old(self)@,
                action_jobs(maintenance@),
                now_ms,
                transaction_id,
            ),
    {
        let ghost start = self@;
        let ghost rows = action_jobs(maintenance@);
        let mut i: usize = 0;
        assert(rows.take(0) =~= Seq::<JobRowView>::empty());
        while i < maintenance.len()
            invariant
                i <= maintenance@.len(),
                self.wf(),
                self.base() == old(self).base(),
                sound(start),
                rows == action_jobs(maintenance@),
                current(start, rows),
                forall|k: int|
                    0 <= k < maintenance@.len() ==> (
                    #[trigger] maintenance@[k]).job@.state is Leased && maintenance@[k].to
                        == repaired_state(maintenance@[k].job@),
                self@ == after_repairs(start, rows.take(i as int), now_ms, transaction_id),
            decreases maintenance@.len() - i,
        {
            let action = &maintenance[i];
            proof {
                let done = rows.take(i as int);
                lemma_current_prefix(start, rows, i as int);
                assert forall|k: int| 0 <= k < done.len() implies (
                #[trigger] done[k]).state is Leased by {
                    assert(maintenance@[k].job@.state is Leased);
                }
                lemma_repairs(start, done, now_ms, transaction_id);
                assert(rows[i as int] == action.job@);
                assert(find_job(self@.jobs, action.job@.job_id) == Some(action.job@));
                assert(rows.take(i + 1).drop_last() =~= done);
                assert(rows.take(i + 1).last() == action.job@);
            }
            match ensure_transition(&action.job, action.to) {
                Ok(_) => {}
                Err(e) => {
                    return Err(error_to_claim(e));
                }
            }
            match action.to {
                JobState::Dead => {
                    self.set_terminal(
                        &action.job,
                        JobState::Dead,
                        now_ms,
                        transaction_id,
                        &None,
                        Some("lease expired at final attempt"),
                    );
                }
                to => {
                    self.set_nonterminal(&action.job, to, None, transaction_id);
                }
            }
            i += 1;
        }
        assert(rows.take(i as int) =~= rows);
        Ok(())
    }

    /// Grants the planned leases.
    fn apply_leases(
        &mut self,
        planned: &Vec<ProposedLease>,
        worker_id: &String,
        lease_expires_at_ms: i64,
        transaction_id: Id,
    ) -> (claimed: Vec<ClaimedJob>)
        requires
            old(self).wf(),
            current(old(self)@, lease_jobs(planned@)),
            forall|i: int|
                0 <= i < planned@.len() ==> (#[trigger] planned@[i]).job@.state is Pending
                    || planned@[i].job@.state is RetryWait,
            has_transaction(old(self)@.transactions, transaction_id),
            forall|i: int|
                0 <= i < planned@.len() ==> !has_receipt(
                    old(self)@.receipts,
                    transaction_id,
                    (#[trigger] planned@[i]).job@.job_id,
                ),
        ensures
            final(self).wf(),
            final(self).base() == old(self).base(),
            ({
                let terms = LeaseTerms {
                    worker_id: worker_id@,
                    lease_expires_at_ms,
                    transaction_id,
                };
                &&& final(self)@ == after_grants(
                    old(self)@,
                    lease_jobs(planned@),
                    lease_tokens(planned@),
                    terms,
                )
                &&& claimed_views(claimed@) == claimed_jobs(
                    lease_jobs(planned@),
                    lease_tokens(planned@),
                    terms,
                )
            }),
    {
        let ghost start = self@;
        let ghost rows = lease_jobs(planned@);
        let ghost tokens = lease_tokens(planned@);
        let ghost terms = LeaseTerms {
            worker_id: worker_id@,
            lease_expires_at_ms,
            transaction_id,
        };
        let mut claimed: Vec<ClaimedJob> = Vec::new();
        let mut i: usize = 0;
        assert(rows.take(0) =~= Seq::<JobRowView>::empty());
        while i < planned.len()
            invariant
                i <= planned@.len(),
                self.recorded(),
                self.base() == old(self).base(),
                sound(start),
                rows == lease_jobs(planned@),
                tokens == lease_tokens(planned@),
                terms == (LeaseTerms {
                    worker_id: worker_id@,
                    lease_expires_at_ms,
                    transaction_id,
                }),
                current(start, rows),
                forall|k: int|
                    0 <= k < planned@.len() ==> (#[trigger] planned@[k]).job@.state is Pending
                        || planned@[k].job@.state is RetryWait,
                has_transaction(start.transactions, transaction_id),
                forall|k: int|
                    0 <= k < planned@.len() ==> !has_receipt(
                        start.receipts,
                        transaction_id,
                        (#[trigger] planned@[k]).job@.job_id,
                    ),
                self@ == after_grants(start, rows.take(i as int), tokens, terms),
                claimed@.len() == i,
                forall|k: int|
                    0 <= k < i ==> (#[trigger] claimed@[k])@ == claimed_of(
                        rows[k],
                        tokens[k],
                        terms,
                    ),
            decreases planned@.len() - i,
        {
            let lease = &planned[i];
            proof {
                let done = rows.take(i as int);
                lemma_current_prefix(start, rows, i as int);
                assert forall|k: int| 0 <= k < done.len() implies (
                #[trigger] done[k]).state is Pending || done[k].state is RetryWait by {
                    assert(planned@[k].job@.state is Pending || planned@[k].job@.state
                        is RetryWait);
                }
                assert forall|k: int| 0 <= k < done.len() implies !has_receipt(
                    start.receipts,
                    transaction_id,
                    (#[trigger] done[k]).job_id,
                ) by {
                    assert(planned@[k].job@ == done[k]);
                }
                lemma_grants(start, done, tokens, terms);
                assert(rows[i as int] == lease.job@);
                assert(tokens[i as int] == lease.lease_token);
                assert(find_job(self@.jobs, lease.job@.job_id) == Some(lease.job@));
                let k = lemma_found(self@.jobs, lease.job@.job_id);
                assert(row_fits(self@.jobs[k]));
                assert(rows.take(i + 1).drop_last() =~= done);
                assert(rows.take(i + 1).last() == lease.job@);
            }
            let attempt: u32 = lease.job.attempt + 1;
            let mut row = lease.job.clone();
            row.state = JobState::Leased;
            row.attempt = attempt;
            row.lease_token = Some(lease.lease_token);
            row.worker_id = Some(worker_id.clone());
            row.lease_expires_at_ms = Some(lease_expires_at_ms);
            row.retry_after_ms = None;
            row.updated_transaction_id = transaction_id.as_bytes();
            assert(row@ =~= granted_row(lease.job@, lease.lease_token, terms));
            self.update_job(row);
            self.insert_receipt(
                ReceiptRow {
                    transaction_id,
                    job_id: lease.job.job_id,
                    lease_token: lease.lease_token,
                    attempt,
                    worker_id: worker_id.clone(),
                    lease_expires_at_ms,
                },
            );
            claimed.push(
                ClaimedJob {
                    job_id: lease.job.job_id,
                    queue: lease.job.queue.clone(),
                    partition_key: lease.job.partition_key.clone(),
                    payload: copy_bytes(&lease.job.payload),
                    worker_id: worker_id.clone(),
                    lease_token: lease.lease_token,
                    attempt,
                    lease_expires_at_ms,
                    idempotency_key: copy_opt_text(&lease.job.idempotency_key),
                },
            );
            i += 1;
        }
        proof {
            assert(rows.take(i as int) =~= rows);
            assert forall|k: int| 0 <= k < rows.len() implies (#[trigger] rows[k]).state is Pending
                || rows[k].state is RetryWait by {
                assert(planned@[k].job@.state is Pending || planned@[k].job@.state is RetryWait);
            }
            assert forall|k: int| 0 <= k < rows.len() implies !has_receipt(
                start.receipts,
                transaction_id,
                (#[trigger] rows[k]).job_id,
            ) by {
                assert(planned@[k].job@ == rows[k]);
            }
            lemma_grants(start, rows, tokens, terms);
            assert(claimed_views(claimed@) =~= claimed_jobs(rows, tokens, terms));
        }
        claimed
    }

    /// Runs a claim up to its COMMIT step: repairs expired leases, leases
    /// ready heads round-robin over the partitions, writes their receipts and
    /// moves the cursor.
    pub fn claim_jobs(&mut self, request: &ClaimRequest, fresh: &Vec<Id>) -> (r: Result<
        ClaimOutcome,
        ClaimError,
    >)
        requires
            old(self).wf(),
        ensures
            final(self).wf(),
            final(self).base() == old(self).base(),
            match r {
                Ok(outcome) => claim_result(old(self)@, request@, fresh@) == Ok::<
                    (Tables, ClaimOutcomeView),
                    ClaimErrorView,
                >((final(self)@, outcome@)),
                Err(e) => claim_result(old(self)@, request@, fresh@) == Err::<
                    (Tables, ClaimOutcomeView),
                    ClaimErrorView,
                >(e@),
            },
            r is Err ==> *final(self) == *old(self),
            r matches Ok(ClaimOutcome::Noop) ==> *final(self) == *old(self),
    {
        let lease_expires_at_ms = match check_claim(request) {
            Ok(ms) => ms,
            Err(e) => {
                return Err(e);
            }
        };
        let maintenance = self.plan_maintenance(request);
        // Both plans are made before anything is written, so a lease repaired
        // by this claim is never granted again by it.
        let (planned, moved) = match self.plan_leases(request, fresh) {
            Ok(plan) => plan,
            Err(e) => {
                return Err(error_to_claim(e));
            }
        };
        let ghost t = self@;
        let ghost fixed = repairs(t, request@.queue, request@.now_ms);
        let ghost granted = leases(t, request@);
        assert(action_jobs(maintenance@).len() == maintenance@.len());
        assert(lease_jobs(planned@).len() == planned@.len());
        if maintenance.len() == 0 && planned.len() == 0 {
            return Ok(ClaimOutcome::Noop);
        }
        if planned.len() >= fresh.len() {
            return Err(out_of_identifiers());
        }
        let transaction_id = fresh[planned.len()];
        if let Some(e) = self.transaction_conflict(transaction_id) {
            return Err(claim_storage(e));
        }
        if self.holds_receipt(&planned, transaction_id) {
            return Err(
                claim_storage(
                    StorageError::Sqlite(
                        "UNIQUE constraint failed: claim_receipts.transaction_id, claim_receipts.job_id".to_owned(),
                    ),
                ),
            );
        }
        match self.insert_claim_transaction(
            transaction_id,
            request,
            maintenance.len(),
            planned.len(),
        ) {
            Ok(_) => {}
            Err(e) => {
                return Err(claim_storage(e));
            }
        }
        proof {
            lemma_plan(t, request@, transaction_id);
            lemma_untaken(t, granted, transaction_id);
            assert forall|i: int| 0 <= i < planned@.len() implies !has_receipt(
                t.receipts,
                transaction_id,
                (#[trigger] planned@[i]).job@.job_id,
            ) by {
                assert(granted[i] == planned@[i].job@);
            }
            assert forall|i: int| 0 <= i < maintenance@.len() implies (
            #[trigger] maintenance@[i]).job@.state is Leased by {
                assert(fixed[i] == maintenance@[i].job@);
            }
            assert forall|i: int| 0 <= i < planned@.len() implies (
            #[trigger] planned@[i]).job@.state is Pending || planned@[i].job@.state
                is RetryWait by {
                assert(granted[i] == planned@[i].job@);
            }
        }
        match self.apply_maintenance(&maintenance, request.now_ms, transaction_id) {
            Ok(_) => {}
            Err(e) => {
                return Err(e);
            }
        }
        let claimed = self.apply_leases(
            &planned,
            &request.worker_id,
            lease_expires_at_ms,
            transaction_id,
        );
        proof {
            let begun = with_transaction(
                t,
                claim_transaction(t, request@, transaction_id, fixed.len() + granted.len()),
            );
            let mended = after_repairs(begun, fixed, request@.now_ms, transaction_id);
            let terms = lease_terms(request@, transaction_id);
            lemma_same_tokens(mended, granted, lease_tokens(planned@), fresh@, terms);
            lemma_with_cursor(self@, request@.queue, moved_cursor(t, request@));
            assert(claimed_views(claimed@) =~= claimed_jobs(granted, fresh@, terms));
        }
        // The cursor advances only when a lease was granted.
        if let Some(last_partition_key) = moved {
            self.put_cursor(CursorRow { queue: request.queue.clone(), last_partition_key });
        }
        if claimed.len() == 0 {
            assert(claimed_views(claimed@).len() == 0);
            Ok(ClaimOutcome::MaintenanceCommitted(MaintenanceReceipt { transaction_id }))
        } else {
            assert(claimed_views(claimed@).len() > 0);
            let stale_jobs: Vec<Id> = Vec::new();
            assert(stale_jobs@ =~= Seq::<Id>::empty());
            Ok(ClaimOutcome::Committed(CommittedClaims { transaction_id, jobs: claimed, stale_jobs }))
        }
    }
}

/// Leases depend on the tokens of the leased jobs only.
proof fn lemma_same_tokens(
    t: Tables,
    rows: Seq<JobRowView>,
    tokens: Seq<Id>,
    more_tokens: Seq<Id>,
    terms: LeaseTerms,
)
    requires
        rows.len() <= tokens.len(),
        rows.len() <= more_tokens.len(),
        forall|i: int| 0 <= i < rows.len() ==> tokens[i] == more_tokens[i],
    ensures
        after_grants(t, rows, tokens, terms) == after_grants(t, rows, more_tokens, terms),
    decreases rows.len(),
{
    if rows.len() > 0 {
        lemma_same_tokens(t, rows.drop_last(), tokens, more_tokens, terms);
    }
}

} // verus!
