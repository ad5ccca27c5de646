//! What a commit promises: its expectations, its transaction, the order of its
//! operations, and what it does to events and projections.
use vstd::prelude::*;

use crate::batch::{
    BatchView, EventView, ExpectedView, MutationView, OperationView, PatchView, PersistedEventView,
};
use crate::claim_steps::{lemma_with_transaction, with_transaction};
use crate::commit::{
    behind_sequence, events_behind, law_patch_values, settled_commit, transaction_recovery,
    value_after_all, TransactionRecovery,
};
use crate::commit_steps::{
    commit_result, commit_transaction, find_transaction, invalid_batch, key_of, keys_differ,
    lemma_find_transaction_at, lemma_job_operation, lemma_operations, lemma_patch,
    lemma_put_projection, lemma_stream_head_range, never_valid, operation_result, operations_result,
    unmet_expectation,
};
use crate::encoding::batch_digest;
use crate::error::{CommitErrorView, ConflictView, StorageErrorView};
use crate::id::Id;
use crate::jobs::CommitReceipt;
use crate::seqs::lemma_filter_indices;
use crate::tables::{
    find_entry, has_entry, has_projection, has_transaction, is_entry, sound, stream_head,
    version_of, EventRowView, ProjectionRowView, Tables,
};

verus! {

/// The version of a stream is that of its last event, and zero where it has
/// none.
pub proof fn law_stream_head(events: Seq<EventRowView>, stream_id: Seq<char>)
    ensures
        (forall|i: int| 0 <= i < events.len() ==> (#[trigger] events[i]).stream_id != stream_id)
            ==> stream_head(events, stream_id) == 0,
        forall|i: int|
            0 <= i < events.len() && (#[trigger] events[i]).stream_id == stream_id && (forall|k: int|
                i < k < events.len() ==> (#[trigger] events[k]).stream_id != stream_id)
                ==> stream_head(events, stream_id) == events[i].stream_version,
    decreases events.len(),
{
    if events.len() > 0 {
        let front = events.drop_last();
        law_stream_head(front, stream_id);
        assert(events[events.len() - 1] == events.last());
        assert forall|i: int|
            0 <= i < events.len() && (#[trigger] events[i]).stream_id == stream_id && (forall|k: int|
                i < k < events.len() ==> (#[trigger] events[k]).stream_id
                    != stream_id) implies stream_head(events, stream_id)
            == events[i].stream_version by {
            if i < front.len() {
                assert(front[i] == events[i]);
                assert forall|k: int| i < k < front.len() implies (#[trigger] front[k]).stream_id
                    != stream_id by {
                    assert(front[k] == events[k]);
                }
            }
        }
        if forall|i: int| 0 <= i < events.len() ==> (#[trigger] events[i]).stream_id != stream_id {
            assert forall|i: int| 0 <= i < front.len() implies (#[trigger] front[i]).stream_id
                != stream_id by {
                assert(front[i] == events[i]);
            }
        }
    }
}

/// A lookup by name or key finds exactly the row with that name or key.
pub proof fn law_commit_lookups(t: Tables, transaction_id: Id, name: Seq<char>, key: Seq<u8>)
    requires
        sound(t),
    ensures
        forall|i: int|
            0 <= i < t.transactions.len() && (#[trigger] t.transactions[i]).transaction_id
                == transaction_id ==> find_transaction(t.transactions, transaction_id) == Some(
                t.transactions[i],
            ),
        (forall|i: int|
            0 <= i < t.transactions.len() ==> (#[trigger] t.transactions[i]).transaction_id
                != transaction_id) ==> find_transaction(t.transactions, transaction_id) is None,
        forall|i: int|
            0 <= i < t.projections.len() && (#[trigger] t.projections[i]).name == name
                ==> version_of(t.projections, name) == t.projections[i].version,
        (forall|i: int| 0 <= i < t.projections.len() ==> (#[trigger] t.projections[i]).name != name)
            ==> version_of(t.projections, name) == 0,
        forall|i: int|
            0 <= i < t.entries.len() && (#[trigger] t.entries[i]).projection == name
                && t.entries[i].key == key ==> find_entry(t.entries, name, key) == Some(
                t.entries[i].value,
            ),
        (forall|i: int|
            0 <= i < t.entries.len() ==> !((#[trigger] t.entries[i]).projection == name
                && t.entries[i].key == key)) ==> find_entry(t.entries, name, key) is None,
{
    assert forall|i: int|
        0 <= i < t.transactions.len() && (#[trigger] t.transactions[i]).transaction_id
            == transaction_id implies find_transaction(t.transactions, transaction_id) == Some(
        t.transactions[i],
    ) by {
        lemma_find_transaction_at(t.transactions, i);
    }
    if has_projection(t.projections, name) {
        let k = choose|k: int|
            0 <= k < t.projections.len() && (#[trigger] t.projections[k]).name == name;
        assert forall|i: int| 0 <= i < t.projections.len() && (#[trigger] t.projections[i]).name
            == name implies i == k by {
            if i < k {
                assert(t.projections[i].name != t.projections[k].name);
            } else if k < i {
                assert(t.projections[k].name != t.projections[i].name);
            }
        }
    }
    if has_entry(t.entries, name, key) {
        let k = choose|k: int|
            0 <= k < t.entries.len() && is_entry(#[trigger] t.entries[k], name, key);
        assert forall|i: int|
            0 <= i < t.entries.len() && (#[trigger] t.entries[i]).projection == name
                && t.entries[i].key == key implies i == k by {
            if i < k {
                assert(!is_entry(t.entries[i], t.entries[k].projection, t.entries[k].key));
            } else if k < i {
                assert(!is_entry(t.entries[k], t.entries[i].projection, t.entries[i].key));
            }
        }
    }
    assert forall|i: int|
        0 <= i < t.entries.len() && (#[trigger] t.entries[i]).projection == name
            && t.entries[i].key == key implies find_entry(t.entries, name, key) == Some(
        t.entries[i].value,
    ) by {
        assert(is_entry(t.entries[i], name, key));
    }
}

/// The batch names the zero token in a lease extension.
pub open spec fn names_zero_token(b: BatchView) -> bool {
    exists|i: int|
        0 <= i < b.operations.len() && ((#[trigger] b.operations[i]) matches
            OperationView::ExtendLease(e) && e.lease_token.value == 0)
}

/// No transaction of the store has this identifier.
pub open spec fn unrecorded(t: Tables, transaction_id: Id) -> bool {
    forall|i: int|
        0 <= i < t.transactions.len() ==> (#[trigger] t.transactions[i]).transaction_id
            != transaction_id
}

proof fn lemma_unmet(t: Tables, expected: Seq<ExpectedView>)
    ensures
        unmet_expectation(t, expected) is None <==> forall|i: int|
            0 <= i < expected.len() ==> (#[trigger] expected[i]).version == stream_head(
                t.events,
                expected[i].stream_id,
            ),
        forall|i: int|
            0 <= i < expected.len() && (#[trigger] expected[i]).version != stream_head(
                t.events,
                expected[i].stream_id,
            ) && (forall|k: int|
                0 <= k < i ==> (#[trigger] expected[k]).version == stream_head(
                    t.events,
                    expected[k].stream_id,
                )) ==> unmet_expectation(t, expected) == Some(
                CommitErrorView::Conflict(
                    ConflictView::StreamVersion {
                        stream_id: expected[i].stream_id,
                        expected: expected[i].version,
                        actual: stream_head(t.events, expected[i].stream_id) as u64,
                    },
                ),
            ),
    decreases expected.len(),
{
    if expected.len() > 0 {
        let front = expected.drop_last();
        let n = front.len() as int;
        lemma_unmet(t, front);
        assert(expected[n] == expected.last());
        assert forall|i: int| 0 <= i < n implies front[i] == #[trigger] expected[i] by {}
        if forall|i: int|
            0 <= i < expected.len() ==> (#[trigger] expected[i]).version == stream_head(
                t.events,
                expected[i].stream_id,
            ) {
            assert forall|i: int| 0 <= i < n implies (#[trigger] front[i]).version == stream_head(
                t.events,
                front[i].stream_id,
            ) by {
                assert(front[i] == expected[i]);
            }
        }
        if unmet_expectation(t, expected) is None {
            assert forall|i: int| 0 <= i < expected.len() implies (#[trigger] expected[i]).version
                == stream_head(t.events, expected[i].stream_id) by {
                if i < n {
                    assert(front[i] == expected[i]);
                }
            }
        }
        assert forall|i: int|
            0 <= i < expected.len() && (#[trigger] expected[i]).version != stream_head(
                t.events,
                expected[i].stream_id,
            ) && (forall|k: int|
                0 <= k < i ==> (#[trigger] expected[k]).version == stream_head(
                    t.events,
                    expected[k].stream_id,
                )) implies unmet_expectation(t, expected) == Some(
            CommitErrorView::Conflict(
                ConflictView::StreamVersion {
                    stream_id: expected[i].stream_id,
                    expected: expected[i].version,
                    actual: stream_head(t.events, expected[i].stream_id) as u64,
                },
            ),
        ) by {
            assert forall|k: int| 0 <= k < i implies (#[trigger] front[k]).version == stream_head(
                t.events,
                front[k].stream_id,
            ) by {
                assert(front[k] == expected[k]);
            }
            if i < n {
                assert(front[i] == expected[i]);
            }
        }
    }
}

/// A new batch is committed only where every stream stands at exactly the
/// version that the batch expects of it. Where one does not, whether it is
/// behind or ahead, the first such stream is the conflict, with the version
/// that it stands at.
pub proof fn law_expectations_are_exact(t: Tables, b: BatchView)
    requires
        sound(t),
        unrecorded(t, b.transaction_id),
    ensures
        commit_result(t, b) is Ok ==> forall|i: int|
            0 <= i < b.expected.len() ==> (#[trigger] b.expected[i]).version == stream_head(
                t.events,
                b.expected[i].stream_id,
            ),
        forall|i: int|
            0 <= i < b.expected.len() && (#[trigger] b.expected[i]).version != stream_head(
                t.events,
                b.expected[i].stream_id,
            ) && (forall|k: int|
                0 <= k < i ==> (#[trigger] b.expected[k]).version == stream_head(
                    t.events,
                    b.expected[k].stream_id,
                )) && !names_zero_token(b) ==> (commit_result(t, b) matches Err(
                CommitErrorView::Conflict(
                    ConflictView::StreamVersion { stream_id, expected, actual },
                ),
            ) && stream_id == b.expected[i].stream_id && expected == b.expected[i].version && actual
                == stream_head(t.events, stream_id) && actual != expected),
{
    lemma_unmet(t, b.expected);
    lemma_zero_token(b);
    assert forall|i: int| 0 <= i < b.expected.len() implies stream_head(
        t.events,
        (#[trigger] b.expected[i]).stream_id,
    ) >= 0 by {
        lemma_stream_head_range(t.events, b.expected[i].stream_id);
    }
}

proof fn lemma_zero_token(b: BatchView)
    ensures
        invalid_batch(b) <==> names_zero_token(b),
{
    if invalid_batch(b) {
        let i = choose|i: int|
            0 <= i < b.operations.len() && never_valid(
                #[trigger] b.operations[i],
            );
        assert(b.operations[i] matches OperationView::ExtendLease(e) && e.lease_token.value == 0);
    }
    if names_zero_token(b) {
        let i = choose|i: int|
            0 <= i < b.operations.len() && ((#[trigger] b.operations[i]) matches
                OperationView::ExtendLease(e) && e.lease_token.value == 0);
        assert(never_valid(b.operations[i]));
    }
}

/// The tables on which the operations of a new batch start: one transaction is
/// added behind the others, with the next sequence number and what the batch
/// says of itself.
pub open spec fn begins(t: Tables, b: BatchView, begun: Tables) -> bool {
    let n = t.transactions.len() as int;
    let row = begun.transactions[n];
    &&& begun.jobs == t.jobs
    &&& begun.partitions == t.partitions
    &&& begun.cursors == t.cursors
    &&& begun.receipts == t.receipts
    &&& begun.events == t.events
    &&& begun.projections == t.projections
    &&& begun.entries == t.entries
    &&& begun.transactions.len() == n + 1
    &&& forall|i: int| 0 <= i < n ==> begun.transactions[i] == #[trigger] t.transactions[i]
    &&& row.transaction_id == b.transaction_id
    &&& row.transaction_sequence == (if n == 0 {
        1
    } else {
        t.transactions[n - 1].transaction_sequence + 1
    })
    &&& row.committed_at_ms == b.committed_at_ms
    &&& row.correlation_id == b.correlation_id
    &&& row.metadata == b.metadata
    &&& row.request_digest == batch_digest(b)
    &&& b.operations.len() <= i64::MAX ==> row.operation_count == b.operations.len()
}

/// Each operation takes the tables one on in the series to the next.
pub open spec fn carried_through(
    mids: Seq<Tables>,
    transaction_id: Id,
    now_ms: i64,
    ops: Seq<OperationView>,
) -> bool {
    &&& mids.len() == ops.len() + 1
    &&& forall|i: int|
        0 <= i < ops.len() ==> operation_result(
            #[trigger] mids[i],
            transaction_id,
            now_ms,
            ops[i],
        ) == Ok::<Tables, CommitErrorView>(mids[i + 1])
}

proof fn lemma_series(t: Tables, transaction_id: Id, now_ms: i64, ops: Seq<OperationView>) -> (mids:
    Seq<Tables>)
    requires
        operations_result(t, transaction_id, now_ms, ops) is Ok,
    ensures
        carried_through(mids, transaction_id, now_ms, ops),
        mids[0] == t,
        mids.last() == operations_result(t, transaction_id, now_ms, ops)->Ok_0,
    decreases ops.len(),
{
    if ops.len() == 0 {
        seq![t]
    } else {
        let front = lemma_series(t, transaction_id, now_ms, ops.drop_last());
        let mids = front.push(operations_result(t, transaction_id, now_ms, ops)->Ok_0);
        assert forall|i: int| 0 <= i < ops.len() implies operation_result(
            #[trigger] mids[i],
            transaction_id,
            now_ms,
            ops[i],
        ) == Ok::<Tables, CommitErrorView>(mids[i + 1]) by {
            assert(mids[i] == front[i]);
            if i < ops.len() - 1 {
                assert(ops.drop_last()[i] == ops[i]);
                assert(mids[i + 1] == front[i + 1]);
            }
        }
        mids
    }
}

proof fn lemma_series_result(
    mids: Seq<Tables>,
    transaction_id: Id,
    now_ms: i64,
    ops: Seq<OperationView>,
)
    requires
        carried_through(mids, transaction_id, now_ms, ops),
    ensures
        operations_result(mids[0], transaction_id, now_ms, ops) == Ok::<Tables, CommitErrorView>(
            mids.last(),
        ),
    decreases ops.len(),
{
    if ops.len() > 0 {
        let front = mids.drop_last();
        let early = ops.drop_last();
        assert forall|i: int| 0 <= i < early.len() implies operation_result(
            #[trigger] front[i],
            transaction_id,
            now_ms,
            early[i],
        ) == Ok::<Tables, CommitErrorView>(front[i + 1]) by {
            assert(front[i] == mids[i] && front[i + 1] == mids[i + 1]);
            assert(early[i] == ops[i]);
        }
        lemma_series_result(front, transaction_id, now_ms, early);
        assert(mids[ops.len() - 1] == front.last());
    }
}

proof fn lemma_fails_on(
    t: Tables,
    transaction_id: Id,
    now_ms: i64,
    ops: Seq<OperationView>,
    k: int,
)
    requires
        0 <= k <= ops.len(),
        operations_result(t, transaction_id, now_ms, ops.take(k)) is Err,
    ensures
        operations_result(t, transaction_id, now_ms, ops) == operations_result(
            t,
            transaction_id,
            now_ms,
            ops.take(k),
        ),
    decreases ops.len() - k,
{
    if k == ops.len() {
        assert(ops.take(k) =~= ops);
    } else {
        assert(ops.take(k + 1).drop_last() =~= ops.take(k));
        lemma_fails_on(t, transaction_id, now_ms, ops, k + 1);
    }
}

/// A new batch whose tokens and expectations are in order runs all its
/// operations, one on the result of the other and in their order, on tables in
/// which its transaction is recorded; its result is what the last one leaves,
/// and its receipt tells of the recorded transaction.
pub proof fn law_commit_runs_its_operations(t: Tables, b: BatchView)
    requires
        sound(t),
        unrecorded(t, b.transaction_id),
    ensures
        commit_result(t, b) matches Ok((after, receipt)) ==> exists|mids: Seq<Tables>|
            {
                &&& #[trigger] carried_through(
                    mids,
                    b.transaction_id,
                    b.committed_at_ms,
                    b.operations,
                )
                &&& begins(t, b, mids[0])
                &&& mids.last() == after
            },
        commit_result(t, b) matches Ok((after, receipt)) ==> {
            &&& receipt.transaction_id == b.transaction_id
            &&& receipt.committed_at_ms == b.committed_at_ms
            &&& receipt.transaction_sequence == (if t.transactions.len() == 0 {
                1
            } else {
                t.transactions.last().transaction_sequence + 1
            })
            &&& begins(t, b, Tables { transactions: after.transactions, ..t })
            &&& !names_zero_token(b)
        },
{
    lemma_zero_token(b);
    if let Ok((after, receipt)) = commit_result(t, b) {
        let row = commit_transaction(t, b);
        let begun = with_transaction(t, row);
        let n = t.transactions.len() as int;
        if n > 0 {
            assert(t.transactions[n - 1].transaction_sequence >= 1);
        }
        lemma_with_transaction(t, row);
        lemma_operations(begun, b.transaction_id, b.committed_at_ms, b.operations);
        let mids = lemma_series(begun, b.transaction_id, b.committed_at_ms, b.operations);
        assert(begins(t, b, begun));
        assert(carried_through(mids, b.transaction_id, b.committed_at_ms, b.operations));
    }
}

/// A new batch is refused exactly for the first cause there is: a zero token,
/// an expectation that is not met, no sequence number left, or the first
/// operation that fails, whose error it gets.
pub proof fn law_commit_refusals(t: Tables, b: BatchView, mids: Seq<Tables>, k: int)
    requires
        sound(t),
        unrecorded(t, b.transaction_id),
    ensures
        names_zero_token(b) ==> commit_result(t, b) == Err::<
            (Tables, CommitReceipt),
            CommitErrorView,
        >(CommitErrorView::Validation("lease token cannot be zero"@)),
        ({
            let ready = !names_zero_token(b) && (forall|i: int|
                0 <= i < b.expected.len() ==> (#[trigger] b.expected[i]).version == stream_head(
                    t.events,
                    b.expected[i].stream_id,
                ));
            let full = t.transactions.len() > 0 && t.transactions.last().transaction_sequence
                == i64::MAX;
            &&& ready && full ==> commit_result(t, b) == Err::<
                (Tables, CommitReceipt),
                CommitErrorView,
            >(
                CommitErrorView::Storage(
                    StorageErrorView::Sqlite("transaction sequence exhausted"@),
                ),
            )
            &&& ready && !full && 0 <= k <= b.operations.len() && carried_through(
                mids,
                b.transaction_id,
                b.committed_at_ms,
                b.operations.take(k),
            ) && begins(t, b, mids[0]) && b.operations.len() <= i64::MAX ==> {
                &&& k == b.operations.len() ==> (commit_result(t, b) matches Ok((after, _))
                    && after == mids.last())
                &&& k < b.operations.len() ==> (operation_result(
                    mids.last(),
                    b.transaction_id,
                    b.committed_at_ms,
                    b.operations[k],
                ) matches Err(e) ==> commit_result(t, b) == Err::<
                    (Tables, CommitReceipt),
                    CommitErrorView,
                >(e))
            }
        }),
{
    lemma_zero_token(b);
    lemma_unmet(t, b.expected);
    let n = t.transactions.len() as int;
    if n > 0 {
        assert(t.transactions[n - 1].transaction_sequence >= 1);
    }
    let ops = b.operations;
    if 0 <= k <= ops.len() && carried_through(
        mids,
        b.transaction_id,
        b.committed_at_ms,
        ops.take(k),
    ) && begins(t, b, mids[0]) && ops.len() <= i64::MAX && !(t.transactions.len() > 0
        && t.transactions.last().transaction_sequence == i64::MAX) {
        let begun = with_transaction(t, commit_transaction(t, b));
        assert(mids[0].transactions[n] =~= commit_transaction(t, b));
        assert(mids[0].transactions =~= begun.transactions);
        assert(mids[0] =~= begun);
        lemma_series_result(mids, b.transaction_id, b.committed_at_ms, ops.take(k));
        if k == ops.len() {
            assert(ops.take(k) =~= ops);
        } else {
            assert(ops.take(k + 1).drop_last() =~= ops.take(k));
            if operation_result(mids.last(), b.transaction_id, b.committed_at_ms, ops[k]) is Err {
                lemma_fails_on(begun, b.transaction_id, b.committed_at_ms, ops, k + 1);
            }
        }
    }
}

/// A batch under the identifier of a recorded transaction changes nothing: it
/// gets the receipt of that transaction where the two have the same digest, and
/// is refused where they have not.
pub proof fn law_recorded_batches(t: Tables, b: BatchView, i: int)
    requires
        sound(t),
        0 <= i < t.transactions.len(),
        t.transactions[i].transaction_id == b.transaction_id,
    ensures
        ({
            let row = t.transactions[i];
            &&& row.request_digest == batch_digest(b) ==> (commit_result(t, b) matches Ok(
                (after, receipt),
            ) && after == t && receipt.transaction_id == b.transaction_id
                && receipt.transaction_sequence == row.transaction_sequence
                && receipt.committed_at_ms == row.committed_at_ms)
            &&& row.request_digest != batch_digest(b) ==> commit_result(t, b) == Err::<
                (Tables, CommitReceipt),
                CommitErrorView,
            >(CommitErrorView::DuplicateIdWithDifferentContent)
        }),
{
    lemma_find_transaction_at(t.transactions, i);
    assert(t.transactions[i].transaction_sequence >= 1);
}

/// A recovery by transaction tells of a recorded transaction what its commit
/// was told, and of any other that it is absent.
pub proof fn law_transaction_recovery(t: Tables, transaction_id: Id)
    requires
        sound(t),
    ensures
        transaction_recovery(t, transaction_id) is Absent <==> unrecorded(t, transaction_id),
        forall|i: int|
            0 <= i < t.transactions.len() && (#[trigger] t.transactions[i]).transaction_id
                == transaction_id ==> (transaction_recovery(t, transaction_id) matches
                TransactionRecovery::Committed(receipt) && receipt.transaction_id == transaction_id
                && receipt.transaction_sequence == t.transactions[i].transaction_sequence
                && receipt.committed_at_ms == t.transactions[i].committed_at_ms),
{
    assert forall|i: int|
        0 <= i < t.transactions.len() && (#[trigger] t.transactions[i]).transaction_id
            == transaction_id implies (transaction_recovery(t, transaction_id) matches
        TransactionRecovery::Committed(receipt) && receipt.transaction_id == transaction_id
        && receipt.transaction_sequence == t.transactions[i].transaction_sequence
        && receipt.committed_at_ms == t.transactions[i].committed_at_ms) by {
        lemma_find_transaction_at(t.transactions, i);
        assert(t.transactions[i].transaction_sequence >= 1);
    }
}

/// Once its COMMIT step has succeeded, a commit gives its receipt; where the
/// step failed, it is indeterminate, and names its transaction and what the
/// database reported.
pub proof fn law_settled_commit(receipt: CommitReceipt, text: Seq<char>)
    ensures
        settled_commit(receipt, Ok(())) == Ok::<CommitReceipt, CommitErrorView>(receipt),
        settled_commit(receipt, Err(StorageErrorView::Sqlite(text))) matches Err(
            CommitErrorView::Indeterminate { transaction_id, storage_error },
        ) && transaction_id == receipt.transaction_id && storage_error == text,
        settled_commit(receipt, Err(StorageErrorView::Identifier(text))) matches Err(
            CommitErrorView::Indeterminate { transaction_id, storage_error },
        ) && transaction_id == receipt.transaction_id && storage_error == text,
{
}

/// An event is appended behind all others, as the next of all and the next of
/// its stream, and with everything that it holds; nothing else changes. It is
/// refused only where a number is not left.
pub proof fn law_append(t: Tables, transaction_id: Id, now_ms: i64, e: EventView)
    requires
        sound(t),
    ensures
        ({
            let r = operation_result(t, transaction_id, now_ms, OperationView::AppendEvent(e));
            let n = t.events.len() as int;
            let full = n > 0 && t.events[n - 1].global_sequence == i64::MAX;
            &&& r is Ok <==> !full && stream_head(t.events, e.stream_id) < i64::MAX
            &&& r matches Err(x) ==> x is Storage
            &&& r matches Ok(after) ==> {
                let row = after.events[n];
                &&& after.events.len() == n + 1
                &&& forall|i: int| 0 <= i < n ==> after.events[i] == #[trigger] t.events[i]
                &&& row.transaction_id == transaction_id
                &&& row.event_id == e.event_id
                &&& row.stream_id == e.stream_id
                &&& row.event_type == e.event_type
                &&& row.occurred_at_ms == e.occurred_at_ms
                &&& row.payload == e.payload
                &&& row.global_sequence == (if n == 0 {
                    1
                } else {
                    t.events[n - 1].global_sequence + 1
                })
                &&& row.stream_version == stream_head(t.events, e.stream_id) + 1
                &&& stream_head(after.events, e.stream_id) == row.stream_version
                &&& after.jobs == t.jobs
                &&& after.partitions == t.partitions
                &&& after.cursors == t.cursors
                &&& after.receipts == t.receipts
                &&& after.transactions == t.transactions
                &&& after.projections == t.projections
                &&& after.entries == t.entries
            }
        }),
{
    let n = t.events.len() as int;
    if n > 0 {
        assert(t.events[n - 1].global_sequence >= 1);
    }
    lemma_stream_head_range(t.events, e.stream_id);
    if let Ok(after) = operation_result(t, transaction_id, now_ms, OperationView::AppendEvent(e)) {
        assert(after.events.last() == after.events[n]);
    }
}

/// The events that operations append, in their order.
pub open spec fn appended_events(ops: Seq<OperationView>) -> Seq<EventView> {
    ops.filter_map(
        |o: OperationView|
            match o {
                OperationView::AppendEvent(e) => Some(e),
                _ => None,
            },
    )
}

proof fn lemma_appended_events(
    t: Tables,
    transaction_id: Id,
    now_ms: i64,
    ops: Seq<OperationView>,
)
    requires
        sound(t),
        has_transaction(t.transactions, transaction_id),
        operations_result(t, transaction_id, now_ms, ops) is Ok,
    ensures
        events_added(
            t.events,
            (operations_result(t, transaction_id, now_ms, ops)->Ok_0).events,
            transaction_id,
            appended_events(ops),
        ),
    decreases ops.len(),
{
    reveal(Seq::filter_map);
    if ops.len() == 0 {
        assert(appended_events(ops).len() == 0);
    } else {
        let early = ops.drop_last();
        lemma_appended_events(t, transaction_id, now_ms, early);
        lemma_operations(t, transaction_id, now_ms, early);
        let mid = operations_result(t, transaction_id, now_ms, early)->Ok_0;
        let after = operations_result(t, transaction_id, now_ms, ops)->Ok_0;
        let n = t.events.len() as int;
        match ops.last() {
            OperationView::AppendEvent(e) => {
                law_append(mid, transaction_id, now_ms, e);
                assert(appended_events(ops) =~= appended_events(early).push(e));
                assert forall|k: int| 0 <= k < appended_events(ops).len() implies event_added(
                    #[trigger] after.events[n + k],
                    transaction_id,
                    appended_events(ops)[k],
                ) by {
                    if n + k < mid.events.len() {
                        assert(after.events[n + k] == mid.events[n + k]);
                        assert(event_added(
                            mid.events[n + k],
                            transaction_id,
                            appended_events(early)[k],
                        ));
                    }
                }
                assert forall|j: int| n <= j < after.events.len() implies numbered_next(
                    after.events,
                    #[trigger] after.events[j],
                    j,
                ) by {
                    assert(after.events.take(j) =~= mid.events.take(j));
                    if j < mid.events.len() {
                        assert(after.events[j] == mid.events[j]);
                        assert(numbered_next(mid.events, mid.events[j], j));
                        if j > 0 {
                            assert(after.events[j - 1] == mid.events[j - 1]);
                        }
                    } else {
                        assert(mid.events.take(j) =~= mid.events);
                        if j > 0 {
                            assert(after.events[j - 1] == mid.events[j - 1]);
                        }
                    }
                }
                assert forall|i: int| 0 <= i < n implies after.events[i] == #[trigger] t.events[i] by {
                    assert(mid.events[i] == t.events[i]);
                }
            },
            OperationView::ApplyProjectionPatch(_) => {
                assert(appended_events(ops) =~= appended_events(early));
            },
            o => {
                lemma_job_operation(mid, transaction_id, now_ms, o);
                assert(appended_events(ops) =~= appended_events(early));
            },
        }
    }
}

/// The row holds this event of this transaction.
pub open spec fn event_added(row: EventRowView, transaction_id: Id, e: EventView) -> bool {
    &&& row.transaction_id == transaction_id
    &&& row.event_id == e.event_id
    &&& row.stream_id == e.stream_id
    &&& row.event_type == e.event_type
    &&& row.occurred_at_ms == e.occurred_at_ms
    &&& row.payload == e.payload
}

/// The `j`-th event follows the one before it in the global sequence, and the
/// last one of its stream in the versions of that stream.
pub open spec fn numbered_next(events: Seq<EventRowView>, row: EventRowView, j: int) -> bool {
    &&& row.global_sequence == (if j == 0 {
        1
    } else {
        events[j - 1].global_sequence + 1
    })
    &&& row.stream_version == stream_head(events.take(j), row.stream_id) + 1
}

/// The events `after` are those before, followed by these events of this
/// transaction, each numbered behind the ones before it.
pub open spec fn events_added(
    before: Seq<EventRowView>,
    after: Seq<EventRowView>,
    transaction_id: Id,
    added: Seq<EventView>,
) -> bool {
    let n = before.len() as int;
    &&& after.len() == n + added.len()
    &&& forall|i: int| 0 <= i < n ==> after[i] == #[trigger] before[i]
    &&& forall|k: int|
        0 <= k < added.len() ==> event_added(#[trigger] after[n + k], transaction_id, added[k])
    &&& forall|j: int| n <= j < after.len() ==> numbered_next(after, #[trigger] after[j], j)
}

/// A commit adds exactly the events of its batch, in their order and behind all
/// others, as events of its transaction, and numbers them without a gap.
pub proof fn law_commit_adds_its_events(t: Tables, b: BatchView)
    requires
        sound(t),
        unrecorded(t, b.transaction_id),
        commit_result(t, b) is Ok,
    ensures
        events_added(
            t.events,
            (commit_result(t, b)->Ok_0).0.events,
            b.transaction_id,
            appended_events(b.operations),
        ),
{
    let row = commit_transaction(t, b);
    lemma_with_transaction(t, row);
    lemma_appended_events(
        with_transaction(t, row),
        b.transaction_id,
        b.committed_at_ms,
        b.operations,
    );
}

/// A patch is applied exactly when it leads one version on from where its
/// projection stands, names no key twice, and a version is left; a wrong
/// expectation is a conflict with the version that the projection stands at.
/// Only the projection and its entries change.
pub proof fn law_patch(t: Tables, transaction_id: Id, now_ms: i64, p: PatchView)
    requires
        sound(t),
    ensures
        ({
            let r = operation_result(
                t,
                transaction_id,
                now_ms,
                OperationView::ApplyProjectionPatch(p),
            );
            let actual = version_of(t.projections, p.projection);
            let twice = exists|i: int, j: int|
                0 <= i < j < p.mutations.len() && #[trigger] names_key(p.mutations[i], p.mutations[j]);
            &&& r is Ok <==> p.new_version == p.expected_version + 1 && !twice
                && p.expected_version == actual && actual < i64::MAX
            &&& p.new_version != p.expected_version + 1 || twice ==> (r matches Err(
                CommitErrorView::Validation(_),
            ))
            &&& p.new_version == p.expected_version + 1 && !twice && p.expected_version != actual
                ==> (r matches Err(
                CommitErrorView::Conflict(
                    ConflictView::ProjectionVersion { projection, expected, actual: found },
                ),
            ) && projection == p.projection && expected == p.expected_version && found == actual)
            &&& r matches Ok(after) ==> {
                &&& version_of(after.projections, p.projection) == actual + 1
                &&& forall|name: Seq<char>|
                    name != p.projection ==> #[trigger] version_of(after.projections, name)
                        == version_of(t.projections, name)
                &&& after.jobs == t.jobs
                &&& after.partitions == t.partitions
                &&& after.cursors == t.cursors
                &&& after.receipts == t.receipts
                &&& after.transactions == t.transactions
                &&& after.events == t.events
            }
        }),
{
    let r = operation_result(t, transaction_id, now_ms, OperationView::ApplyProjectionPatch(p));
    let actual = version_of(t.projections, p.projection);
    if has_projection(t.projections, p.projection) {
        let k = choose|k: int|
            0 <= k < t.projections.len() && (#[trigger] t.projections[k]).name == p.projection;
        assert(t.projections[k].version >= 1);
    }
    let ms = p.mutations;
    if exists|i: int, j: int| 0 <= i < j < ms.len() && #[trigger] names_key(ms[i], ms[j]) {
        let (i, j) = choose|i: int, j: int|
            0 <= i < j < ms.len() && #[trigger] names_key(ms[i], ms[j]);
        assert(key_of(ms[i]) == key_of(ms[j]));
        assert(!keys_differ(ms));
    } else {
        assert forall|i: int, j: int|
            0 <= i < j < ms.len() && key_of(#[trigger] ms[i])
                is Some implies key_of(ms[i]) != key_of(
            #[trigger] ms[j],
        ) by {
            assert(!names_key(ms[i], ms[j]));
        }
    }
    if let Ok(after) = r {
        lemma_patch(t, p);
        lemma_put_projection(
            t.projections,
            ProjectionRowView { name: p.projection, version: (actual + 1) as i64 },
        );
    }
}

/// The two mutations change the same key.
pub open spec fn names_key(a: MutationView, b: MutationView) -> bool {
    match (a, b) {
        (MutationView::Put { key: x, .. }, MutationView::Put { key: y, .. }) => x == y,
        (MutationView::Put { key: x, .. }, MutationView::Delete { key: y }) => x == y,
        (MutationView::Delete { key: x }, MutationView::Put { key: y, .. }) => x == y,
        (MutationView::Delete { key: x }, MutationView::Delete { key: y }) => x == y,
        _ => false,
    }
}

/// The mutation changes this key or all keys.
pub open spec fn touches(m: MutationView, key: Seq<u8>) -> bool {
    match m {
        MutationView::Put { key: k, .. } => k == key,
        MutationView::Delete { key: k } => k == key,
        MutationView::Clear => true,
    }
}

proof fn lemma_untouched(ms: Seq<MutationView>, key: Seq<u8>, before: Option<Seq<u8>>)
    requires
        forall|i: int| 0 <= i < ms.len() ==> !touches(#[trigger] ms[i], key),
    ensures
        value_after_all(ms, key, before) == before,
    decreases ms.len(),
{
    if ms.len() > 0 {
        assert(!touches(ms[ms.len() - 1], key));
        lemma_untouched(ms.drop_last(), key, before);
    }
}

proof fn lemma_last_touch(ms: Seq<MutationView>, key: Seq<u8>, before: Option<Seq<u8>>, i: int)
    requires
        0 <= i < ms.len(),
        touches(ms[i], key),
        forall|k: int| i < k < ms.len() ==> !touches(#[trigger] ms[k], key),
    ensures
        value_after_all(ms, key, before) == match ms[i] {
            MutationView::Put { value, .. } => Some(value),
            _ => None,
        },
    decreases ms.len(),
{
    if i < ms.len() - 1 {
        assert(!touches(ms[ms.len() - 1], key));
        lemma_last_touch(ms.drop_last(), key, before, i);
    }
}

/// After a patch the last mutation that touches a key decides what stands under
/// it: the value that was put, or nothing where it was deleted or all was
/// cleared. A key that no mutation touches, and every other projection, is as
/// it was.
pub proof fn law_last_mutation_decides(
    t: Tables,
    transaction_id: Id,
    now_ms: i64,
    p: PatchView,
    key: Seq<u8>,
    i: int,
    other: Seq<char>,
)
    requires
        sound(t),
        operation_result(t, transaction_id, now_ms, OperationView::ApplyProjectionPatch(p)) is Ok,
    ensures
        ({
            let after = operation_result(
                t,
                transaction_id,
                now_ms,
                OperationView::ApplyProjectionPatch(p),
            )->Ok_0;
            let now = find_entry(after.entries, p.projection, key);
            &&& (forall|k: int| 0 <= k < p.mutations.len() ==> !touches(#[trigger] p.mutations[k], key))
                ==> now == find_entry(t.entries, p.projection, key)
            &&& 0 <= i < p.mutations.len() && touches(p.mutations[i], key) && (forall|k: int|
                i < k < p.mutations.len() ==> !touches(#[trigger] p.mutations[k], key)) ==> (
            match p.mutations[i] {
                MutationView::Put { value, .. } => now == Some(value),
                MutationView::Delete { .. } => now is None,
                MutationView::Clear => now is None,
            })
            &&& other != p.projection ==> find_entry(after.entries, other, key) == find_entry(
                t.entries,
                other,
                key,
            )
        }),
{
    law_patch_values(t, p, p.projection, key);
    law_patch_values(t, p, other, key);
    let ms = p.mutations;
    let before = find_entry(t.entries, p.projection, key);
    if forall|k: int| 0 <= k < ms.len() ==> !touches(#[trigger] ms[k], key) {
        lemma_untouched(ms, key, before);
    }
    if 0 <= i < ms.len() && touches(ms[i], key) && (forall|k: int|
        i < k < ms.len() ==> !touches(#[trigger] ms[k], key)) {
        lemma_last_touch(ms, key, before, i);
    }
}

/// The events behind a global sequence come in their order, up to the limit and
/// with everything that is stored of them; none is left out but for the limit.
pub proof fn law_events_behind(t: Tables, after: u64, limit: nat)
    requires
        sound(t),
    ensures
        ({
            let r = events_behind(t, after, limit);
            &&& r.len() <= limit
            &&& forall|i: int|
                0 <= i < r.len() ==> (#[trigger] r[i]).global_sequence > after && exists|k: int|
                    0 <= k < t.events.len() && shows(r[i], #[trigger] t.events[k])
            &&& forall|i: int, j: int|
                0 <= i < j < r.len() ==> (#[trigger] r[i]).global_sequence < (
                #[trigger] r[j]).global_sequence
            &&& forall|k: int|
                0 <= k < t.events.len() && (#[trigger] t.events[k]).global_sequence > after ==> (
                exists|i: int| 0 <= i < r.len() && shows(#[trigger] r[i], t.events[k])) || (r.len()
                    == limit && forall|i: int|
                    0 <= i < r.len() ==> (#[trigger] r[i]).global_sequence
                        < t.events[k].global_sequence)
        }),
{
    let pred = behind_sequence(after);
    let all = t.events.filter(pred);
    let r = events_behind(t, after, limit);
    let idx = lemma_filter_indices(t.events, pred);
    t.events.filter_lemma(pred);
    assert forall|i: int| 0 <= i < r.len() implies (#[trigger] r[i]).global_sequence > after && shows(
        r[i],
        t.events[idx[i]],
    ) by {
        assert(all[i] == t.events[idx[i]]);
        assert(pred(t.events[idx[i]]));
        assert(t.events[idx[i]].global_sequence >= 1 && t.events[idx[i]].stream_version >= 1);
    }
    assert forall|i: int, j: int| 0 <= i < j < r.len() implies (#[trigger] r[i]).global_sequence < (
    #[trigger] r[j]).global_sequence by {
        assert(idx[i] < idx[j]);
        assert(t.events[idx[i]].global_sequence < t.events[idx[j]].global_sequence);
        assert(shows(r[i], t.events[idx[i]]) && shows(r[j], t.events[idx[j]]));
    }
    assert forall|k: int|
        0 <= k < t.events.len() && (#[trigger] t.events[k]).global_sequence > after implies (
    exists|i: int| 0 <= i < r.len() && shows(#[trigger] r[i], t.events[k])) || (r.len() == limit
        && forall|i: int|
        0 <= i < r.len() ==> (#[trigger] r[i]).global_sequence < t.events[k].global_sequence) by {
        assert(pred(t.events[k]));
        assert(all.contains(t.events[k]));
        let m = choose|m: int| 0 <= m < all.len() && all[m] == t.events[k];
        assert(t.events[idx[m]] == t.events[k]);
        if m < r.len() {
            assert(shows(r[m], t.events[idx[m]]));
        } else {
            assert forall|i: int| 0 <= i < r.len() implies (#[trigger] r[i]).global_sequence
                < t.events[k].global_sequence by {
                assert(idx[i] < idx[m]);
                assert(t.events[idx[i]].global_sequence < t.events[idx[m]].global_sequence);
                assert(shows(r[i], t.events[idx[i]]));
            }
        }
    }
}

/// The committed event shows the row.
pub open spec fn shows(e: PersistedEventView, row: EventRowView) -> bool {
    &&& e.transaction_id == row.transaction_id
    &&& e.global_sequence == row.global_sequence
    &&& e.stream_version == row.stream_version
    &&& e.event.event_id == row.event_id
    &&& e.event.stream_id == row.stream_id
    &&& e.event.event_type == row.event_type
    &&& e.event.occurred_at_ms == row.occurred_at_ms
    &&& e.event.payload == row.payload
}

} // verus!
