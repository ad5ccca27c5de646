//! What a claim does to the tables, and that it keeps them sound and consistent.
use vstd::prelude::*;

use crate::digest::checksum_of;
use crate::id::{hex_of, Id};
use crate::jobs::{ClaimRequestView, ClaimedJobView};
use crate::plan::repaired_state;
use crate::row::JobRowView;
use crate::state::JobState;
use crate::steps::{
    after_finish, finished, leased, lemma_finish, lemma_release, lemma_replace_active, released,
    with_job,
};
use crate::tables::{
    consistent, events_owned, find_cursor, find_job, has_cursor, has_job, has_receipt,
    has_transaction, ids_distinct, lemma_found, lemma_replace_job, put_cursor, receipts_owned,
    row_ok, rows_ok, sound, CursorRowView, ReceiptRowView, Tables, TransactionRowView,
};
use crate::text::{decimal, signed_decimal};

verus! {

/// The summary of a job that dies because its last lease expired.
pub open spec fn expired_summary() -> Seq<char> {
    "lease expired at final attempt"@
}

/// The tables after the repair of one expired lease.
pub open spec fn repaired(t: Tables, job: JobRowView, now_ms: i64, transaction_id: Id) -> Tables {
    match repaired_state(job) {
        JobState::Dead => after_finish(
            t,
            job,
            JobState::Dead,
            now_ms,
            transaction_id,
            None,
            Some(expired_summary()),
        ),
        to => with_job(t, released(job, to, None, transaction_id)),
    }
}

/// The row of a job whose expired lease has been repaired.
pub open spec fn repaired_row(job: JobRowView, now_ms: i64, transaction_id: Id) -> JobRowView {
    match repaired_state(job) {
        JobState::Dead => finished(
            job,
            JobState::Dead,
            now_ms,
            transaction_id,
            None,
            Some(expired_summary()),
        ),
        to => released(job, to, None, transaction_id),
    }
}

/// The tables after the repair of a series of expired leases.
pub open spec fn after_repairs(
    t: Tables,
    rows: Seq<JobRowView>,
    now_ms: i64,
    transaction_id: Id,
) -> Tables
    decreases rows.len(),
{
    if rows.len() == 0 {
        t
    } else {
        repaired(
            after_repairs(t, rows.drop_last(), now_ms, transaction_id),
            rows.last(),
            now_ms,
            transaction_id,
        )
    }
}

/// The terms of the leases that a claim grants.
#[verifier::ext_equal]
pub struct LeaseTerms {
    pub worker_id: Seq<char>,
    pub lease_expires_at_ms: i64,
    pub transaction_id: Id,
}

/// The receipt of a lease.
pub open spec fn receipt_of(job: JobRowView, lease_token: Id, terms: LeaseTerms) -> ReceiptRowView {
    ReceiptRowView {
        transaction_id: terms.transaction_id,
        job_id: job.job_id,
        lease_token,
        attempt: (job.attempt + 1) as u32,
        worker_id: terms.worker_id,
        lease_expires_at_ms: terms.lease_expires_at_ms,
    }
}

/// The leased job that a worker gets.
pub open spec fn claimed_of(job: JobRowView, lease_token: Id, terms: LeaseTerms) -> ClaimedJobView {
    ClaimedJobView {
        job_id: job.job_id,
        queue: job.queue,
        partition_key: job.partition_key,
        payload: job.payload,
        worker_id: terms.worker_id,
        lease_token,
        attempt: (job.attempt + 1) as u32,
        lease_expires_at_ms: terms.lease_expires_at_ms,
        idempotency_key: job.idempotency_key,
    }
}

/// The row of a job that is leased on these terms.
pub open spec fn granted_row(job: JobRowView, lease_token: Id, terms: LeaseTerms) -> JobRowView {
    leased(job, lease_token, terms.worker_id, terms.lease_expires_at_ms, terms.transaction_id)
}

/// The tables after one lease: the job is leased and has a receipt.
pub open spec fn granted(t: Tables, job: JobRowView, lease_token: Id, terms: LeaseTerms) -> Tables {
    let mid = with_job(t, granted_row(job, lease_token, terms));
    Tables { receipts: mid.receipts.push(receipt_of(job, lease_token, terms)), ..mid }
}

/// The tables after a series of leases, the `i`-th under the `i`-th token.
pub open spec fn after_grants(
    t: Tables,
    rows: Seq<JobRowView>,
    tokens: Seq<Id>,
    terms: LeaseTerms,
) -> Tables
    decreases rows.len(),
{
    if rows.len() == 0 {
        t
    } else {
        granted(
            after_grants(t, rows.drop_last(), tokens, terms),
            rows.last(),
            tokens[rows.len() - 1],
            terms,
        )
    }
}

/// The leased jobs that a worker gets.
pub open spec fn claimed_jobs(
    rows: Seq<JobRowView>,
    tokens: Seq<Id>,
    terms: LeaseTerms,
) -> Seq<ClaimedJobView> {
    Seq::new(rows.len(), |i: int| claimed_of(rows[i], tokens[i], terms))
}

/// The text whose checksum is the digest of a claim.
pub open spec fn claim_text(transaction_id: Id, req: ClaimRequestView) -> Seq<char> {
    "claim:"@ + hex_of(transaction_id) + ":"@ + req.queue + ":"@ + req.worker_id + ":"@
        + signed_decimal(req.now_ms as int) + ":"@ + signed_decimal(req.lease_ms as int) + ":"@
        + decimal(req.limit)
}

/// The sequence number of the next transaction: one more than the greatest so
/// far.
pub open spec fn next_transaction_sequence(transactions: Seq<TransactionRowView>) -> int {
    if transactions.len() == 0 {
        1
    } else {
        transactions.last().transaction_sequence + 1
    }
}

/// The row of a claim in `transactions`.
pub open spec fn claim_transaction(
    t: Tables,
    req: ClaimRequestView,
    transaction_id: Id,
    operation_count: nat,
) -> TransactionRowView {
    TransactionRowView {
        transaction_id,
        transaction_sequence: next_transaction_sequence(t.transactions) as i64,
        committed_at_ms: req.now_ms,
        correlation_id: None,
        metadata: Seq::empty(),
        request_digest: checksum_of(claim_text(transaction_id, req)),
        operation_count: operation_count as i64,
    }
}

/// The tables with one more transaction.
pub open spec fn with_transaction(t: Tables, row: TransactionRowView) -> Tables {
    Tables { transactions: t.transactions.push(row), ..t }
}

/// The tables with the cursor of a queue moved, where it moves.
pub open spec fn with_cursor(t: Tables, queue: Seq<char>, moved: Option<Seq<char>>) -> Tables {
    match moved {
        Some(last_partition_key) => Tables {
            cursors: put_cursor(t.cursors, CursorRowView { queue, last_partition_key }),
            ..t
        },
        None => t,
    }
}

/// Inserting a new transaction keeps the tables sound, and consistent where they
/// are; no receipt of consistent tables names it yet.
pub proof fn lemma_with_transaction(t: Tables, row: TransactionRowView)
    requires
        sound(t),
        !has_transaction(t.transactions, row.transaction_id),
        row.transaction_sequence == next_transaction_sequence(t.transactions),
    ensures
        sound(with_transaction(t, row)),
        consistent(t) ==> consistent(with_transaction(t, row)),
        has_transaction(with_transaction(t, row).transactions, row.transaction_id),
        receipts_owned(t) ==> forall|i: int|
            0 <= i < t.receipts.len() ==> (#[trigger] t.receipts[i]).transaction_id
                != row.transaction_id,
{
    let after = with_transaction(t, row);
    let n = t.transactions.len() as int;
    assert(after.transactions[n] == row);
    assert forall|i: int, j: int| 0 <= i < j < after.transactions.len() implies (
    #[trigger] after.transactions[i]).transaction_id != (
    #[trigger] after.transactions[j]).transaction_id && after.transactions[i].transaction_sequence
        < after.transactions[j].transaction_sequence by {
        assert(after.transactions[i] == t.transactions[i]);
        if j < n {
            assert(after.transactions[j] == t.transactions[j]);
        } else if i < n - 1 {
            assert(t.transactions[i].transaction_sequence < t.transactions[n
                - 1].transaction_sequence);
        }
    }
    assert forall|i: int| 0 <= i < after.transactions.len() implies (
    #[trigger] after.transactions[i]).transaction_sequence >= 1 by {
        if n > 0 {
            assert(t.transactions[n - 1].transaction_sequence >= 1);
        }
        if i < n {
            assert(after.transactions[i] == t.transactions[i]);
        }
    }
    if receipts_owned(t) {
        assert forall|i: int| 0 <= i < t.receipts.len() implies has_transaction(
            after.transactions,
            (#[trigger] t.receipts[i]).transaction_id,
        ) && t.receipts[i].transaction_id != row.transaction_id by {
            assert(has_transaction(t.transactions, t.receipts[i].transaction_id));
            let k = choose|k: int|
                0 <= k < n && (#[trigger] t.transactions[k]).transaction_id
                    == t.receipts[i].transaction_id;
            assert(after.transactions[k] == t.transactions[k]);
        }
    }
    if events_owned(t.events, t.transactions) {
        assert forall|i: int| 0 <= i < t.events.len() implies has_transaction(
            after.transactions,
            (#[trigger] t.events[i]).transaction_id,
        ) by {
            assert(has_transaction(t.transactions, t.events[i].transaction_id));
            let k = choose|k: int|
                0 <= k < n && (#[trigger] t.transactions[k]).transaction_id
                    == t.events[i].transaction_id;
            assert(after.transactions[k] == t.transactions[k]);
        }
    }
}

/// Moving a cursor keeps the tables sound, and consistent where they are; the
/// queue then has the moved cursor, and other queues have theirs.
pub proof fn lemma_with_cursor(t: Tables, queue: Seq<char>, moved: Option<Seq<char>>)
    requires
        sound(t),
    ensures
        sound(with_cursor(t, queue, moved)),
        consistent(t) ==> consistent(with_cursor(t, queue, moved)),
        moved is Some ==> find_cursor(with_cursor(t, queue, moved).cursors, queue) == moved,
        forall|q: Seq<char>|
            q != queue ==> #[trigger] find_cursor(with_cursor(t, queue, moved).cursors, q)
                == find_cursor(t.cursors, q),
{
    if let Some(last_partition_key) = moved {
        let row = CursorRowView { queue, last_partition_key };
        let before = t.cursors;
        let after = put_cursor(before, row);
        assert forall|i: int| 0 <= i < before.len() implies (#[trigger] after[i]).queue
            == before[i].queue by {}
        assert(has_cursor(after, queue)) by {
            if has_cursor(before, queue) {
                let k = choose|k: int|
                    0 <= k < before.len() && (#[trigger] before[k]).queue == queue;
                assert(after[k].queue == queue);
            } else {
                assert(after[before.len() as int].queue == queue);
            }
        }
        assert forall|i: int, j: int| 0 <= i < j < after.len() implies (#[trigger] after[i]).queue
            != (#[trigger] after[j]).queue by {
            assert(after[i].queue == before[i].queue);
            if j < before.len() {
                assert(before[i].queue != before[j].queue);
            }
        }
        assert forall|i: int| 0 <= i < after.len() && (#[trigger] after[i]).queue == queue implies
            after[i] == row by {}
        assert forall|q: Seq<char>| q != queue implies #[trigger] find_cursor(after, q)
            == find_cursor(before, q) by {
            if has_cursor(before, q) {
                let k = choose|k: int| 0 <= k < before.len() && (#[trigger] before[k]).queue == q;
                assert(after[k].queue == q);
                let m = choose|m: int| 0 <= m < after.len() && (#[trigger] after[m]).queue == q;
                assert(m < before.len());
                assert(before[m].queue == q);
                if m < k {
                    assert(before[m].queue != before[k].queue);
                } else if k < m {
                    assert(before[k].queue != before[m].queue);
                }
            }
            if has_cursor(after, q) {
                let m = choose|m: int| 0 <= m < after.len() && (#[trigger] after[m]).queue == q;
                assert(m < before.len());
                assert(before[m].queue == q);
            }
        }
    }
}

/// The rows are unfinished jobs of the store as it stands, each once.
pub open spec fn current(t: Tables, rows: Seq<JobRowView>) -> bool {
    &&& forall|i: int|
        0 <= i < rows.len() ==> find_job(t.jobs, (#[trigger] rows[i]).job_id) == Some(rows[i])
    &&& ids_distinct(rows)
}

/// The rows but the last are current where all of them are.
pub proof fn lemma_current_front(t: Tables, rows: Seq<JobRowView>)
    requires
        current(t, rows),
        rows.len() > 0,
    ensures
        current(t, rows.drop_last()),
        !has_job(rows.drop_last(), rows.last().job_id),
        forall|id: Id| #[trigger]
            has_job(rows, id) <==> has_job(rows.drop_last(), id) || id == rows.last().job_id,
{
    let front = rows.drop_last();
    assert forall|i: int| 0 <= i < front.len() implies find_job(
        t.jobs,
        (#[trigger] front[i]).job_id,
    ) == Some(front[i]) by {
        assert(front[i] == rows[i]);
    }
    assert forall|i: int, j: int| 0 <= i < j < front.len() implies (#[trigger] front[i]).job_id != (
    #[trigger] front[j]).job_id by {
        assert(rows[i].job_id != rows[j].job_id);
    }
    if has_job(front, rows.last().job_id) {
        let i = lemma_found(front, rows.last().job_id);
        assert(rows[i].job_id != rows[rows.len() - 1].job_id);
    }
    assert forall|id: Id| #[trigger] has_job(rows, id) <==> has_job(front, id) || id
        == rows.last().job_id by {
        if has_job(rows, id) {
            let i = lemma_found(rows, id);
            if i < front.len() {
                assert(front[i].job_id == id);
            }
        }
        if has_job(front, id) {
            let i = lemma_found(front, id);
            assert(rows[i].job_id == id);
        }
        if id == rows.last().job_id {
            assert(rows[rows.len() - 1].job_id == id);
        }
    }
}

/// The repair of one expired lease keeps the tables sound, consistent where they
/// are, and changes no other job.
pub proof fn lemma_repaired(t: Tables, job: JobRowView, now_ms: i64, transaction_id: Id)
    requires
        sound(t),
        find_job(t.jobs, job.job_id) == Some(job),
        job.state is Leased,
    ensures
        ({
            let after = repaired(t, job, now_ms, transaction_id);
            &&& sound(after)
            &&& consistent(t) ==> consistent(after)
            &&& find_job(after.jobs, job.job_id) == Some(repaired_row(job, now_ms, transaction_id))
            &&& forall|id: Id|
                id != job.job_id ==> #[trigger] find_job(after.jobs, id) == find_job(t.jobs, id)
            &&& after.receipts == t.receipts
            &&& after.transactions == t.transactions
            &&& after.cursors == t.cursors
        }),
{
    lemma_replace_job(t.jobs, repaired_row(job, now_ms, transaction_id));
    match repaired_state(job) {
        JobState::Dead => {
            lemma_finish(
                t,
                job,
                JobState::Dead,
                now_ms,
                transaction_id,
                None,
                Some(expired_summary()),
            );
        },
        to => {
            lemma_release(t, job, to, None, transaction_id);
        },
    }
}

/// A series of repairs keeps the tables sound, consistent where they are,
/// repairs exactly the given jobs and changes no other.
pub proof fn lemma_repairs(t: Tables, rows: Seq<JobRowView>, now_ms: i64, transaction_id: Id)
    requires
        sound(t),
        current(t, rows),
        forall|i: int| 0 <= i < rows.len() ==> (#[trigger] rows[i]).state is Leased,
    ensures
        ({
            let after = after_repairs(t, rows, now_ms, transaction_id);
            &&& sound(after)
            &&& consistent(t) ==> consistent(after)
            &&& forall|i: int|
                0 <= i < rows.len() ==> find_job(after.jobs, (#[trigger] rows[i]).job_id) == Some(
                    repaired_row(rows[i], now_ms, transaction_id),
                )
            &&& forall|id: Id|
                !has_job(rows, id) ==> #[trigger] find_job(after.jobs, id) == find_job(t.jobs, id)
            &&& after.receipts == t.receipts
            &&& after.transactions == t.transactions
            &&& after.cursors == t.cursors
        }),
    decreases rows.len(),
{
    if rows.len() > 0 {
        let front = rows.drop_last();
        let job = rows.last();
        lemma_current_front(t, rows);
        assert forall|i: int| 0 <= i < front.len() implies (#[trigger] front[i]).state is Leased by {
            assert(rows[i].state is Leased);
        }
        lemma_repairs(t, front, now_ms, transaction_id);
        let mid = after_repairs(t, front, now_ms, transaction_id);
        assert(rows[rows.len() - 1] == job);
        assert(find_job(mid.jobs, job.job_id) == Some(job));
        lemma_repaired(mid, job, now_ms, transaction_id);
        let after = after_repairs(t, rows, now_ms, transaction_id);
        assert forall|i: int| 0 <= i < rows.len() implies find_job(
            after.jobs,
            (#[trigger] rows[i]).job_id,
        ) == Some(repaired_row(rows[i], now_ms, transaction_id)) by {
            if i < front.len() {
                assert(front[i] == rows[i]);
                assert(rows[i].job_id != rows[rows.len() - 1].job_id);
                assert(find_job(mid.jobs, front[i].job_id) == Some(
                    repaired_row(rows[i], now_ms, transaction_id),
                ));
            }
        }
        assert forall|id: Id| !has_job(rows, id) implies #[trigger] find_job(after.jobs, id)
            == find_job(t.jobs, id) by {
            assert(!has_job(front, id) && id != job.job_id);
            assert(find_job(mid.jobs, id) == find_job(t.jobs, id));
        }
    }
}

/// Leasing one job keeps the tables sound, consistent where they are, and
/// changes no other job.
pub proof fn lemma_granted(t: Tables, job: JobRowView, lease_token: Id, terms: LeaseTerms)
    requires
        sound(t),
        find_job(t.jobs, job.job_id) == Some(job),
        job.state is Pending || job.state is RetryWait,
        has_transaction(t.transactions, terms.transaction_id),
        !has_receipt(t.receipts, terms.transaction_id, job.job_id),
    ensures
        ({
            let after = granted(t, job, lease_token, terms);
            &&& sound(after)
            &&& consistent(t) ==> consistent(after)
            &&& find_job(after.jobs, job.job_id) == Some(granted_row(job, lease_token, terms))
            &&& forall|id: Id|
                id != job.job_id ==> #[trigger] find_job(after.jobs, id) == find_job(t.jobs, id)
        }),
{
    let row = granted_row(job, lease_token, terms);
    let k = lemma_found(t.jobs, job.job_id);
    assert(rows_ok(t.jobs) ==> row_ok(t.jobs[k]));
    lemma_replace_active(t, row);
    lemma_replace_job(t.jobs, row);
    let mid = with_job(t, row);
    let after = granted(t, job, lease_token, terms);
    let n = t.receipts.len() as int;
    if receipts_owned(mid) {
        assert forall|i: int| 0 <= i < after.receipts.len() implies has_job(
            after.jobs,
            (#[trigger] after.receipts[i]).job_id,
        ) && has_transaction(after.transactions, after.receipts[i].transaction_id) by {
            if i < n {
                assert(after.receipts[i] == mid.receipts[i]);
            }
        }
    }
    assert forall|i: int, j: int| 0 <= i < j < after.receipts.len() implies (
    #[trigger] after.receipts[i]).transaction_id != (#[trigger] after.receipts[j]).transaction_id
        || after.receipts[i].job_id != after.receipts[j].job_id by {
        assert(after.receipts[i] == t.receipts[i]);
        if j < n {
            assert(after.receipts[j] == t.receipts[j]);
        }
    }
}

/// A series of leases keeps the tables sound, consistent where they are, leases
/// exactly the given jobs, changes no other, and adds one receipt for each.
pub proof fn lemma_grants(t: Tables, rows: Seq<JobRowView>, tokens: Seq<Id>, terms: LeaseTerms)
    requires
        sound(t),
        current(t, rows),
        forall|i: int|
            0 <= i < rows.len() ==> (#[trigger] rows[i]).state is Pending
                || rows[i].state is RetryWait,
        has_transaction(t.transactions, terms.transaction_id),
        forall|i: int|
            0 <= i < rows.len() ==> !has_receipt(
                t.receipts,
                terms.transaction_id,
                (#[trigger] rows[i]).job_id,
            ),
    ensures
        ({
            let after = after_grants(t, rows, tokens, terms);
            &&& sound(after)
            &&& consistent(t) ==> consistent(after)
            &&& forall|i: int|
                0 <= i < rows.len() ==> find_job(after.jobs, (#[trigger] rows[i]).job_id) == Some(
                    granted_row(rows[i], tokens[i], terms),
                )
            &&& forall|id: Id|
                !has_job(rows, id) ==> #[trigger] find_job(after.jobs, id) == find_job(t.jobs, id)
            &&& after.receipts == t.receipts + Seq::new(
                rows.len(),
                |i: int| receipt_of(rows[i], tokens[i], terms),
            )
            &&& after.transactions == t.transactions
            &&& after.cursors == t.cursors
            &&& after.partitions == t.partitions
        }),
    decreases rows.len(),
{
    let after = after_grants(t, rows, tokens, terms);
    if rows.len() == 0 {
        assert(after.receipts =~= t.receipts + Seq::new(
            rows.len(),
            |i: int| receipt_of(rows[i], tokens[i], terms),
        ));
    } else {
        let front = rows.drop_last();
        let job = rows.last();
        let token = tokens[rows.len() - 1];
        lemma_current_front(t, rows);
        assert forall|i: int| 0 <= i < front.len() implies (#[trigger] front[i]).state is Pending
            || front[i].state is RetryWait by {
            assert(rows[i].state is Pending || rows[i].state is RetryWait);
        }
        assert forall|i: int| 0 <= i < front.len() implies !has_receipt(
            t.receipts,
            terms.transaction_id,
            (#[trigger] front[i]).job_id,
        ) by {
            assert(front[i] == rows[i]);
        }
        lemma_grants(t, front, tokens, terms);
        let mid = after_grants(t, front, tokens, terms);
        let fresh = Seq::new(front.len(), |i: int| receipt_of(front[i], tokens[i], terms));
        assert(rows[rows.len() - 1] == job);
        if has_receipt(mid.receipts, terms.transaction_id, job.job_id) {
            let i = choose|i: int|
                0 <= i < mid.receipts.len() && (#[trigger] mid.receipts[i]).transaction_id
                    == terms.transaction_id && mid.receipts[i].job_id == job.job_id;
            if i < t.receipts.len() {
                assert(mid.receipts[i] == t.receipts[i]);
                assert(has_receipt(t.receipts, terms.transaction_id, job.job_id));
            } else {
                let k = i - t.receipts.len();
                assert(mid.receipts[i] == fresh[k]);
                assert(front[k] == rows[k]);
                assert(rows[k].job_id != rows[rows.len() - 1].job_id);
            }
        }
        assert(find_job(mid.jobs, job.job_id) == Some(job));
        lemma_granted(mid, job, token, terms);
        assert forall|i: int| 0 <= i < rows.len() implies find_job(
            after.jobs,
            (#[trigger] rows[i]).job_id,
        ) == Some(granted_row(rows[i], tokens[i], terms)) by {
            if i < front.len() {
                assert(front[i] == rows[i]);
                assert(rows[i].job_id != rows[rows.len() - 1].job_id);
                assert(find_job(mid.jobs, front[i].job_id) == Some(
                    granted_row(rows[i], tokens[i], terms),
                ));
            }
        }
        assert forall|id: Id| !has_job(rows, id) implies #[trigger] find_job(after.jobs, id)
            == find_job(t.jobs, id) by {
            assert(!has_job(front, id) && id != job.job_id);
            assert(find_job(mid.jobs, id) == find_job(t.jobs, id));
        }
        let all = Seq::new(rows.len(), |i: int| receipt_of(rows[i], tokens[i], terms));
        assert(after.receipts =~= t.receipts + all) by {
            assert(all =~= fresh.push(receipt_of(job, token, terms)));
        }
    }
}

} // verus!
