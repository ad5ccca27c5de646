//! What a commit does to the tables, and that it keeps them sound and consistent.
use vstd::prelude::*;

use crate::batch::{BatchView, EventView, ExpectedView, MutationView, OperationView, PatchView};
use crate::claim_steps::{next_transaction_sequence, with_transaction};
use crate::encoding::batch_digest;
use crate::error::{CommitErrorView, ConflictView, ErrorView, StorageErrorView};
use crate::id::Id;
use crate::jobs::CommitReceipt;
use crate::lease::{after_extension, extension_conflict, law_extension_effect};
use crate::row::JobRowView;
use crate::seqs::lemma_filter_indices;
use crate::state::{terminal, JobState, Resolution};
use crate::steps::{
    lemma_enqueue, lemma_finish, lemma_release, lemma_replace_active, released, with_job,
};
use crate::tables::{
    consistent, entries_distinct, entries_owned, events_ascend, find_entry, find_job, has_entry,
    has_projection, has_transaction, is_entry, lemma_found, not_entry, not_of_projection,
    projections_ok, put_entry, put_projection, row_fits, row_ok, rows_ok, sound, stream_head,
    transactions_ascend, version_of, EntryRowView, EventRowView, ProjectionRowView, Tables,
    TransactionRowView,
};
use crate::transitions::{
    ack_result, cancel_result, enqueue_result, fail_result, resolve_result, DEFAULT_RETRY_DELAY_MS,
};

verus! {

/// The first expectation of a batch that the streams do not meet, as an error.
pub open spec fn unmet_expectation(t: Tables, expected: Seq<ExpectedView>) -> Option<
    CommitErrorView,
>
    decreases expected.len(),
{
    if expected.len() == 0 {
        None
    } else {
        let earlier = unmet_expectation(t, expected.drop_last());
        let last = expected.last();
        let actual = stream_head(t.events, last.stream_id);
        if earlier is Some {
            earlier
        } else if last.version != actual {
            Some(
                CommitErrorView::Conflict(
                    ConflictView::StreamVersion {
                        stream_id: last.stream_id,
                        expected: last.version,
                        actual: actual as u64,
                    },
                ),
            )
        } else {
            None
        }
    }
}

/// The global sequence of the next event: one more than the greatest so far.
pub open spec fn next_event_sequence(events: Seq<EventRowView>) -> int {
    if events.len() == 0 {
        1
    } else {
        events.last().global_sequence + 1
    }
}

/// The row of an event that is appended now: it is the next of all events and
/// the next of its stream.
pub open spec fn event_row(t: Tables, transaction_id: Id, e: EventView) -> EventRowView {
    EventRowView {
        transaction_id,
        global_sequence: next_event_sequence(t.events) as i64,
        stream_version: (stream_head(t.events, e.stream_id) + 1) as i64,
        event_id: e.event_id,
        stream_id: e.stream_id,
        event_type: e.event_type,
        occurred_at_ms: e.occurred_at_ms,
        payload: e.payload,
    }
}

/// What appending an event gives.
pub open spec fn append_result(t: Tables, transaction_id: Id, e: EventView) -> Result<
    Tables,
    CommitErrorView,
> {
    if next_event_sequence(t.events) > i64::MAX {
        Err(CommitErrorView::Storage(StorageErrorView::Sqlite("event sequence exhausted"@)))
    } else if stream_head(t.events, e.stream_id) == i64::MAX {
        Err(CommitErrorView::Storage(StorageErrorView::Sqlite("stream version exhausted"@)))
    } else {
        Ok(Tables { events: t.events.push(event_row(t, transaction_id, e)), ..t })
    }
}

/// The key that a mutation changes, where it changes one.
pub open spec fn key_of(m: MutationView) -> Option<Seq<u8>> {
    match m {
        MutationView::Put { key, .. } => Some(key),
        MutationView::Delete { key } => Some(key),
        MutationView::Clear => None,
    }
}

/// No two mutations change the same key.
pub open spec fn keys_differ(ms: Seq<MutationView>) -> bool {
    forall|i: int, j: int|
        0 <= i < j < ms.len() && key_of(#[trigger] ms[i]) is Some ==> key_of(ms[i]) != key_of(
            #[trigger] ms[j],
        )
}

/// The entries after one mutation of a projection.
pub open spec fn mutated_entries(
    entries: Seq<EntryRowView>,
    projection: Seq<char>,
    m: MutationView,
) -> Seq<EntryRowView> {
    match m {
        MutationView::Put { key, value } => put_entry(
            entries,
            EntryRowView { projection, key, value },
        ),
        MutationView::Delete { key } => entries.filter(not_entry(projection, key)),
        MutationView::Clear => entries.filter(not_of_projection(projection)),
    }
}

/// The entries after a series of mutations of a projection.
pub open spec fn entries_after(
    entries: Seq<EntryRowView>,
    projection: Seq<char>,
    ms: Seq<MutationView>,
) -> Seq<EntryRowView>
    decreases ms.len(),
{
    if ms.len() == 0 {
        entries
    } else {
        mutated_entries(entries_after(entries, projection, ms.drop_last()), projection, ms.last())
    }
}

/// What applying a projection patch gives. The patch leads from the present
/// version to the next one and names no key twice.
pub open spec fn patch_result(t: Tables, p: PatchView) -> Result<Tables, CommitErrorView> {
    let actual = version_of(t.projections, p.projection);
    if p.new_version != p.expected_version + 1 {
        Err(CommitErrorView::Validation("projection version must advance by exactly one"@))
    } else if !keys_differ(p.mutations) {
        Err(CommitErrorView::Validation("projection patch names a key twice"@))
    } else if p.expected_version != actual {
        Err(
            CommitErrorView::Conflict(
                ConflictView::ProjectionVersion {
                    projection: p.projection,
                    expected: p.expected_version,
                    actual: actual as u64,
                },
            ),
        )
    } else if actual == i64::MAX {
        Err(CommitErrorView::Storage(StorageErrorView::Sqlite("projection version exhausted"@)))
    } else {
        Ok(
            Tables {
                projections: put_projection(
                    t.projections,
                    ProjectionRowView { name: p.projection, version: (actual + 1) as i64 },
                ),
                entries: entries_after(t.entries, p.projection, p.mutations),
                ..t
            },
        )
    }
}

/// The commit error that a failed job operation gives.
pub open spec fn commit_error_of(e: ErrorView) -> CommitErrorView {
    match e {
        ErrorView::Storage(s) => CommitErrorView::Storage(s),
        ErrorView::Validation(v) => CommitErrorView::Validation(v),
        ErrorView::Conflict(c) => CommitErrorView::Conflict(c),
    }
}

/// The same result, with its error as a commit error.
pub open spec fn as_commit(r: Result<Tables, ErrorView>) -> Result<Tables, CommitErrorView> {
    match r {
        Ok(t) => Ok(t),
        Err(e) => Err(commit_error_of(e)),
    }
}

/// What one operation of a batch gives.
pub open spec fn operation_result(
    t: Tables,
    transaction_id: Id,
    now_ms: i64,
    o: OperationView,
) -> Result<Tables, CommitErrorView> {
    match o {
        OperationView::AppendEvent(e) => append_result(t, transaction_id, e),
        OperationView::ApplyProjectionPatch(p) => patch_result(t, p),
        OperationView::EnqueueJob(s) => as_commit(enqueue_result(t, transaction_id, s)),
        OperationView::AcknowledgeJob(a) => as_commit(
            ack_result(t, transaction_id, now_ms, a.job_id, a.lease_token, a.result_digest),
        ),
        OperationView::FailJob(f) => as_commit(
            fail_result(
                t,
                transaction_id,
                now_ms,
                f.job_id,
                f.lease_token,
                f.error_summary,
                f.retry_after_ms,
            ),
        ),
        OperationView::CancelJob(c) => as_commit(cancel_result(t, transaction_id, now_ms, c)),
        OperationView::ResolveUncertainJob(r) => as_commit(
            resolve_result(t, transaction_id, now_ms, r),
        ),
        OperationView::ExtendLease(e) => match extension_conflict(t, e, now_ms) {
            Some(c) => Err(CommitErrorView::Conflict(ConflictView::Lease(c))),
            None => Ok(after_extension(t, e)),
        },
    }
}

/// What a series of operations gives: each works on what the ones before it
/// left, and the first that fails decides.
pub open spec fn operations_result(
    t: Tables,
    transaction_id: Id,
    now_ms: i64,
    ops: Seq<OperationView>,
) -> Result<Tables, CommitErrorView>
    decreases ops.len(),
{
    if ops.len() == 0 {
        Ok(t)
    } else {
        match operations_result(t, transaction_id, now_ms, ops.drop_last()) {
            Ok(mid) => operation_result(mid, transaction_id, now_ms, ops.last()),
            Err(e) => Err(e),
        }
    }
}

/// The transaction with this identifier.
pub open spec fn find_transaction(
    transactions: Seq<TransactionRowView>,
    transaction_id: Id,
) -> Option<TransactionRowView> {
    if has_transaction(transactions, transaction_id) {
        Some(
            transactions[choose|i: int|
                0 <= i < transactions.len() && (#[trigger] transactions[i]).transaction_id
                    == transaction_id],
        )
    } else {
        None
    }
}

/// The receipt of a transaction.
pub open spec fn receipt_of_row(row: TransactionRowView) -> CommitReceipt {
    CommitReceipt {
        transaction_id: row.transaction_id,
        transaction_sequence: row.transaction_sequence as u64,
        committed_at_ms: row.committed_at_ms,
    }
}

/// The row of a batch in `transactions`.
pub open spec fn commit_transaction(t: Tables, b: BatchView) -> TransactionRowView {
    TransactionRowView {
        transaction_id: b.transaction_id,
        transaction_sequence: next_transaction_sequence(t.transactions) as i64,
        committed_at_ms: b.committed_at_ms,
        correlation_id: b.correlation_id,
        metadata: b.metadata,
        request_digest: batch_digest(b),
        operation_count: b.operations.len() as i64,
    }
}

/// An operation that no store could carry out: it names the zero token, which
/// is never granted.
pub open spec fn never_valid(o: OperationView) -> bool {
    o matches OperationView::ExtendLease(e) && e.lease_token.value == 0
}

/// The batch holds such an operation.
pub open spec fn invalid_batch(b: BatchView) -> bool {
    exists|i: int| 0 <= i < b.operations.len() && never_valid(#[trigger] b.operations[i])
}

/// What a commit gives before its COMMIT step. A batch that was committed
/// already gets its receipt again, and another batch under its identifier is
/// refused.
pub open spec fn commit_result(t: Tables, b: BatchView) -> Result<
    (Tables, CommitReceipt),
    CommitErrorView,
> {
    match find_transaction(t.transactions, b.transaction_id) {
        Some(row) => if row.request_digest == batch_digest(b) {
            Ok((t, receipt_of_row(row)))
        } else {
            Err(CommitErrorView::DuplicateIdWithDifferentContent)
        },
        None => if invalid_batch(b) {
            Err(CommitErrorView::Validation("lease token cannot be zero"@))
        } else if unmet_expectation(t, b.expected) is Some {
            Err(unmet_expectation(t, b.expected)->0)
        } else if next_transaction_sequence(t.transactions) > i64::MAX {
            Err(
                CommitErrorView::Storage(
                    StorageErrorView::Sqlite("transaction sequence exhausted"@),
                ),
            )
        } else {
            let row = commit_transaction(t, b);
            match operations_result(
                with_transaction(t, row),
                b.transaction_id,
                b.committed_at_ms,
                b.operations,
            ) {
                Ok(after) => Ok((after, receipt_of_row(row))),
                Err(e) => Err(e),
            }
        },
    }
}

/// The transaction at an index is found under its identifier.
pub proof fn lemma_find_transaction_at(
    transactions: Seq<TransactionRowView>,
    i: int,
)
    requires
        transactions_ascend(transactions),
        0 <= i < transactions.len(),
    ensures
        find_transaction(transactions, transactions[i].transaction_id) == Some(transactions[i]),
{
    let id = transactions[i].transaction_id;
    let k = choose|k: int|
        0 <= k < transactions.len() && (#[trigger] transactions[k]).transaction_id == id;
    assert(transactions[i].transaction_id == id);
    if k < i {
        assert(transactions[k].transaction_id != transactions[i].transaction_id);
    } else if i < k {
        assert(transactions[i].transaction_id != transactions[k].transaction_id);
    }
}

/// One more event gives its stream its version, and changes no other stream.
pub proof fn lemma_stream_head_push(events: Seq<EventRowView>, row: EventRowView)
    ensures
        stream_head(events.push(row), row.stream_id) == row.stream_version,
        forall|s: Seq<char>|
            s != row.stream_id ==> #[trigger] stream_head(events.push(row), s) == stream_head(
                events,
                s,
            ),
{
    let after = events.push(row);
    assert(after.drop_last() =~= events);
    assert(after.last() == row);
}

/// The version of a stream is never negative.
pub proof fn lemma_stream_head_range(events: Seq<EventRowView>, stream_id: Seq<char>)
    requires
        events_ascend(events),
    ensures
        stream_head(events, stream_id) >= 0,
    decreases events.len(),
{
    if events.len() > 0 {
        let front = events.drop_last();
        assert(events[events.len() - 1].stream_version >= 1);
        assert forall|i: int| 0 <= i < front.len() implies (#[trigger] front[i]).global_sequence
            >= 1 && front[i].stream_version >= 1 by {
            assert(front[i] == events[i]);
        }
        assert forall|i: int, j: int| 0 <= i < j < front.len() implies (
        #[trigger] front[i]).global_sequence < (#[trigger] front[j]).global_sequence by {
            assert(events[i].global_sequence < events[j].global_sequence);
        }
        lemma_stream_head_range(front, stream_id);
    }
}

/// Appending an event keeps the tables sound, and consistent where they are.
pub proof fn lemma_append(t: Tables, transaction_id: Id, e: EventView)
    requires
        sound(t),
        has_transaction(t.transactions, transaction_id),
        append_result(t, transaction_id, e) is Ok,
    ensures
        sound(append_result(t, transaction_id, e)->Ok_0),
        consistent(t) ==> consistent(append_result(t, transaction_id, e)->Ok_0),
{
    let row = event_row(t, transaction_id, e);
    let after = t.events.push(row);
    let n = t.events.len() as int;
    lemma_stream_head_range(t.events, e.stream_id);
    if n > 0 {
        assert(t.events[n - 1].global_sequence >= 1);
    }
    assert forall|i: int| 0 <= i < after.len() implies (#[trigger] after[i]).global_sequence >= 1
        && after[i].stream_version >= 1 by {
        if i < n {
            assert(after[i] == t.events[i]);
        }
    }
    assert forall|i: int, j: int| 0 <= i < j < after.len() implies (
    #[trigger] after[i]).global_sequence < (#[trigger] after[j]).global_sequence by {
        assert(after[i] == t.events[i]);
        if j < n {
            assert(after[j] == t.events[j]);
        } else if i < n - 1 {
            assert(t.events[i].global_sequence < t.events[n - 1].global_sequence);
        }
    }
    if consistent(t) {
        if n > 0 {
            assert(t.events[n - 1].global_sequence == n);
        }
        assert forall|i: int| 0 <= i < after.len() implies (#[trigger] after[i]).global_sequence
            == i + 1 && after[i].stream_version == stream_head(after.take(i), after[i].stream_id)
            + 1 by {
            if i < n {
                assert(after[i] == t.events[i]);
                assert(after.take(i) =~= t.events.take(i));
            } else {
                assert(after.take(i) =~= t.events);
            }
        }
        assert forall|i: int| 0 <= i < after.len() implies has_transaction(
            t.transactions,
            (#[trigger] after[i]).transaction_id,
        ) by {
            if i < n {
                assert(after[i] == t.events[i]);
            }
        }
    }
}

/// Putting a projection keeps the names different; the projection then has the
/// put version, and the others have theirs.
pub proof fn lemma_put_projection(projections: Seq<ProjectionRowView>, row: ProjectionRowView)
    requires
        projections_ok(projections),
        row.version >= 1,
    ensures
        projections_ok(put_projection(projections, row)),
        version_of(put_projection(projections, row), row.name) == row.version,
        has_projection(put_projection(projections, row), row.name),
        forall|name: Seq<char>|
            has_projection(projections, name) ==> #[trigger] has_projection(
                put_projection(projections, row),
                name,
            ),
        forall|name: Seq<char>|
            name != row.name ==> #[trigger] version_of(put_projection(projections, row), name)
                == version_of(projections, name),
{
    let before = projections;
    let after = put_projection(before, row);
    assert forall|i: int| 0 <= i < before.len() implies (#[trigger] after[i]).name
        == before[i].name by {}
    assert(has_projection(after, row.name)) by {
        if has_projection(before, row.name) {
            let k = choose|k: int| 0 <= k < before.len() && (#[trigger] before[k]).name == row.name;
            assert(after[k].name == row.name);
        } else {
            assert(after[before.len() as int].name == row.name);
        }
    }
    assert forall|i: int, j: int| 0 <= i < j < after.len() implies (#[trigger] after[i]).name != (
    #[trigger] after[j]).name by {
        assert(after[i].name == before[i].name);
        if j < before.len() {
            assert(before[i].name != before[j].name);
        }
    }
    assert forall|i: int| 0 <= i < after.len() && (#[trigger] after[i]).name == row.name implies
        after[i] == row by {}
    assert forall|i: int| 0 <= i < after.len() implies (#[trigger] after[i]).version >= 1 by {
        if i < before.len() {
            assert(before[i].version >= 1);
        }
    }
    assert forall|name: Seq<char>| has_projection(before, name) implies #[trigger] has_projection(
        after,
        name,
    ) by {
        let k = choose|k: int| 0 <= k < before.len() && (#[trigger] before[k]).name == name;
        assert(after[k].name == name);
    }
    assert forall|name: Seq<char>| name != row.name implies #[trigger] version_of(after, name)
        == version_of(before, name) by {
        if has_projection(after, name) {
            let m = choose|m: int| 0 <= m < after.len() && (#[trigger] after[m]).name == name;
            assert(m < before.len());
            assert(before[m].name == name);
            let k = choose|k: int| 0 <= k < before.len() && (#[trigger] before[k]).name == name;
            if m < k {
                assert(before[m].name != before[k].name);
            } else if k < m {
                assert(before[k].name != before[m].name);
            }
        } else if has_projection(before, name) {
            assert(has_projection(after, name));
        }
    }
}

/// The entry at an index is found under its key.
pub proof fn lemma_find_entry_at(entries: Seq<EntryRowView>, i: int)
    requires
        entries_distinct(entries),
        0 <= i < entries.len(),
    ensures
        find_entry(entries, entries[i].projection, entries[i].key) == Some(entries[i].value),
{
    let p = entries[i].projection;
    let key = entries[i].key;
    assert(is_entry(entries[i], p, key));
    let k = choose|k: int| 0 <= k < entries.len() && is_entry(#[trigger] entries[k], p, key);
    if k < i {
        assert(!is_entry(entries[k], entries[i].projection, entries[i].key));
    } else if i < k {
        assert(!is_entry(entries[i], entries[k].projection, entries[k].key));
    }
}

/// A filter keeps the keys of the entries different.
proof fn lemma_filter_entries(entries: Seq<EntryRowView>, pred: spec_fn(EntryRowView) -> bool)
    requires
        entries_distinct(entries),
    ensures
        entries_distinct(entries.filter(pred)),
        forall|x: EntryRowView| #[trigger]
            entries.filter(pred).contains(x) <==> entries.contains(x) && pred(x),
{
    let after = entries.filter(pred);
    let idx = lemma_filter_indices(entries, pred);
    entries.filter_lemma(pred);
    assert forall|i: int, j: int| 0 <= i < j < after.len() implies !is_entry(
        #[trigger] after[i],
        (#[trigger] after[j]).projection,
        after[j].key,
    ) by {
        assert(idx[i] < idx[j]);
        assert(after[i] == entries[idx[i]] && after[j] == entries[idx[j]]);
    }
    assert forall|x: EntryRowView| #[trigger] after.contains(x) <==> entries.contains(x) && pred(
        x,
    ) by {
        if after.contains(x) {
            let k = choose|k: int| 0 <= k < after.len() && after[k] == x;
            assert(entries[idx[k]] == x);
        }
        if entries.contains(x) && pred(x) {
            let k = choose|k: int| 0 <= k < entries.len() && entries[k] == x;
            assert(after.contains(entries[k]));
        }
    }
}

/// The value under a key after one mutation of a projection.
pub open spec fn value_after(
    m: MutationView,
    key: Seq<u8>,
    before: Option<Seq<u8>>,
) -> Option<Seq<u8>> {
    match m {
        MutationView::Put { key: k, value } => if k == key {
            Some(value)
        } else {
            before
        },
        MutationView::Delete { key: k } => if k == key {
            None
        } else {
            before
        },
        MutationView::Clear => None,
    }
}

/// One mutation keeps the keys different and changes no other projection.
pub proof fn lemma_mutated(entries: Seq<EntryRowView>, projection: Seq<char>, m: MutationView)
    requires
        entries_distinct(entries),
    ensures
        entries_distinct(mutated_entries(entries, projection, m)),
        forall|i: int|
            0 <= i < mutated_entries(entries, projection, m).len() ==> entries.contains(
                #[trigger] mutated_entries(entries, projection, m)[i],
            ) || mutated_entries(entries, projection, m)[i].projection == projection,
        forall|p: Seq<char>, key: Seq<u8>| #[trigger]
            find_entry(mutated_entries(entries, projection, m), p, key) == if p == projection {
                value_after(m, key, find_entry(entries, p, key))
            } else {
                find_entry(entries, p, key)
            },
{
    let after = mutated_entries(entries, projection, m);
    match m {
        MutationView::Put { key: k, value } => {
            let row = EntryRowView { projection, key: k, value };
            assert forall|i: int| 0 <= i < entries.len() implies (
            #[trigger] after[i]).projection == entries[i].projection && after[i].key
                == entries[i].key by {}
            assert forall|i: int, j: int| 0 <= i < j < after.len() implies !is_entry(
                #[trigger] after[i],
                (#[trigger] after[j]).projection,
                after[j].key,
            ) by {
                assert(after[i].key == entries[i].key);
                if j < entries.len() {
                    assert(!is_entry(entries[i], entries[j].projection, entries[j].key));
                } else {
                    assert(!is_entry(entries[i], projection, k));
                }
            }
            assert forall|i: int| 0 <= i < after.len() implies entries.contains(
                #[trigger] after[i],
            ) || after[i].projection == projection by {
                if i < entries.len() && !is_entry(entries[i], projection, k) {
                    assert(after[i] == entries[i]);
                }
            }
            assert forall|p: Seq<char>, key: Seq<u8>| #[trigger] find_entry(after, p, key) == if p
                == projection {
                value_after(m, key, find_entry(entries, p, key))
            } else {
                find_entry(entries, p, key)
            } by {
                if p == projection && key == k {
                    if has_entry(entries, p, key) {
                        let i = choose|i: int|
                            0 <= i < entries.len() && is_entry(#[trigger] entries[i], p, key);
                        assert(after[i] == row);
                        lemma_find_entry_at(after, i);
                    } else {
                        assert(after[entries.len() as int] == row);
                        lemma_find_entry_at(after, entries.len() as int);
                    }
                } else {
                    if has_entry(entries, p, key) {
                        let i = choose|i: int|
                            0 <= i < entries.len() && is_entry(#[trigger] entries[i], p, key);
                        assert(after[i] == entries[i]);
                        lemma_find_entry_at(after, i);
                    }
                    if has_entry(after, p, key) {
                        let i = choose|i: int|
                            0 <= i < after.len() && is_entry(#[trigger] after[i], p, key);
                        assert(i < entries.len());
                        assert(is_entry(entries[i], p, key));
                    }
                }
            }
        },
        MutationView::Delete { key: k } => {
            lemma_filtered(entries, not_entry(projection, k));
        },
        MutationView::Clear => {
            lemma_filtered(entries, not_of_projection(projection));
        },
    }
}

/// A filter keeps exactly the entries that pass.
proof fn lemma_filtered(entries: Seq<EntryRowView>, pred: spec_fn(EntryRowView) -> bool)
    requires
        entries_distinct(entries),
        forall|a: EntryRowView, b: EntryRowView|
            is_entry(a, b.projection, b.key) ==> (#[trigger] pred(a) == #[trigger] pred(b)),
    ensures
        entries_distinct(entries.filter(pred)),
        forall|i: int|
            0 <= i < entries.filter(pred).len() ==> entries.contains(
                #[trigger] entries.filter(pred)[i],
            ),
        forall|p: Seq<char>, key: Seq<u8>| #[trigger]
            find_entry(entries.filter(pred), p, key) == if pred(
                EntryRowView { projection: p, key, value: Seq::empty() },
            ) {
                find_entry(entries, p, key)
            } else {
                None
            },
{
    let after = entries.filter(pred);
    lemma_filter_entries(entries, pred);
    assert forall|i: int| 0 <= i < after.len() implies entries.contains(#[trigger] after[i]) by {
        assert(after.contains(after[i]));
    }
    assert forall|p: Seq<char>, key: Seq<u8>| #[trigger] find_entry(after, p, key) == if pred(
        EntryRowView { projection: p, key, value: Seq::empty() },
    ) {
        find_entry(entries, p, key)
    } else {
        None
    } by {
        let probe = EntryRowView { projection: p, key, value: Seq::empty() };
        if has_entry(after, p, key) {
            let i = choose|i: int| 0 <= i < after.len() && is_entry(#[trigger] after[i], p, key);
            assert(after.contains(after[i]));
            assert(pred(after[i]) == pred(probe));
            let k = choose|k: int| 0 <= k < entries.len() && entries[k] == after[i];
            assert(is_entry(entries[k], p, key));
            lemma_find_entry_at(entries, k);
            lemma_find_entry_at(after, i);
        }
        if has_entry(entries, p, key) && pred(probe) {
            let k = choose|k: int| 0 <= k < entries.len() && is_entry(#[trigger] entries[k], p, key);
            assert(pred(entries[k]) == pred(probe));
            assert(entries.contains(entries[k]));
            assert(after.contains(entries[k]));
            let i = choose|i: int| 0 <= i < after.len() && after[i] == entries[k];
            assert(is_entry(after[i], p, key));
        }
    }
}

/// A series of mutations keeps the keys different and every entry in a
/// projection that is there.
pub proof fn lemma_entries_after(
    entries: Seq<EntryRowView>,
    projections: Seq<ProjectionRowView>,
    projection: Seq<char>,
    ms: Seq<MutationView>,
)
    requires
        entries_distinct(entries),
        has_projection(projections, projection),
    ensures
        entries_distinct(entries_after(entries, projection, ms)),
        entries_owned(entries, projections) ==> entries_owned(
            entries_after(entries, projection, ms),
            projections,
        ),
    decreases ms.len(),
{
    if ms.len() > 0 {
        lemma_entries_after(entries, projections, projection, ms.drop_last());
        let mid = entries_after(entries, projection, ms.drop_last());
        lemma_mutated(mid, projection, ms.last());
        let after = entries_after(entries, projection, ms);
        if entries_owned(entries, projections) {
            assert forall|i: int| 0 <= i < after.len() implies has_projection(
                projections,
                (#[trigger] after[i]).projection,
            ) by {
                if mid.contains(after[i]) {
                    let k = choose|k: int| 0 <= k < mid.len() && mid[k] == after[i];
                    assert(has_projection(projections, mid[k].projection));
                }
            }
        }
    }
}

/// Applying a patch keeps the tables sound, and consistent where they are.
pub proof fn lemma_patch(t: Tables, p: PatchView)
    requires
        sound(t),
        patch_result(t, p) is Ok,
    ensures
        sound(patch_result(t, p)->Ok_0),
        consistent(t) ==> consistent(patch_result(t, p)->Ok_0),
        version_of((patch_result(t, p)->Ok_0).projections, p.projection) == p.new_version,
{
    let actual = version_of(t.projections, p.projection);
    if has_projection(t.projections, p.projection) {
        let k = choose|k: int|
            0 <= k < t.projections.len() && (#[trigger] t.projections[k]).name == p.projection;
        assert(t.projections[k].version >= 1);
    }
    let row = ProjectionRowView { name: p.projection, version: (actual + 1) as i64 };
    lemma_put_projection(t.projections, row);
    let projections = put_projection(t.projections, row);
    if entries_owned(t.entries, t.projections) {
        assert forall|i: int| 0 <= i < t.entries.len() implies has_projection(
            projections,
            (#[trigger] t.entries[i]).projection,
        ) by {
            assert(has_projection(t.projections, t.entries[i].projection));
        }
    }
    lemma_entries_after(t.entries, projections, p.projection, p.mutations);
}

/// A failure that puts a job back keeps the tables sound, and consistent where
/// they and the row are.
proof fn lemma_put_back(t: Tables, job: JobRowView, row: JobRowView)
    requires
        sound(t),
        find_job(t.jobs, job.job_id) == Some(job),
        !terminal(job.state),
        row.job_id == job.job_id,
        row.queue == job.queue,
        row.partition_key == job.partition_key,
        row.enqueue_sequence == job.enqueue_sequence,
        row_fits(row),
        !terminal(row.state),
    ensures
        sound(with_job(t, row)),
        consistent(t) && row_ok(row) ==> consistent(with_job(t, row)),
{
    lemma_found(t.jobs, job.job_id);
    lemma_replace_active(t, row);
}

/// A job operation keeps the tables sound, consistent where they are, and the
/// events, projections, cursors and transactions as they are.
pub proof fn lemma_job_operation(t: Tables, transaction_id: Id, now_ms: i64, o: OperationView)
    requires
        sound(t),
        operation_result(t, transaction_id, now_ms, o) is Ok,
        !(o is AppendEvent),
        !(o is ApplyProjectionPatch),
    ensures
        ({
            let after = operation_result(t, transaction_id, now_ms, o)->Ok_0;
            &&& sound(after)
            &&& consistent(t) ==> consistent(after)
            &&& after.transactions == t.transactions
            &&& after.events == t.events
            &&& after.projections == t.projections
            &&& after.entries == t.entries
            &&& after.cursors == t.cursors
        }),
{
    match o {
        OperationView::EnqueueJob(s) => {
            lemma_enqueue(t, s, transaction_id);
        },
        OperationView::AcknowledgeJob(a) => {
            let k = lemma_found(t.jobs, a.job_id);
            lemma_finish(
                t,
                t.jobs[k],
                JobState::Succeeded,
                now_ms,
                transaction_id,
                a.result_digest,
                None,
            );
        },
        OperationView::FailJob(f) => {
            let k = lemma_found(t.jobs, f.job_id);
            let job = t.jobs[k];
            assert(rows_ok(t.jobs) ==> row_ok(job));
            if job.attempt >= job.max_attempts {
                lemma_finish(
                    t,
                    job,
                    JobState::Dead,
                    now_ms,
                    transaction_id,
                    None,
                    Some(f.error_summary),
                );
            } else {
                let retry_after = match f.retry_after_ms {
                    Some(ms) => ms,
                    None => (now_ms + DEFAULT_RETRY_DELAY_MS) as i64,
                };
                lemma_put_back(
                    t,
                    job,
                    JobRowView {
                        error_summary: Some(f.error_summary),
                        ..released(job, JobState::RetryWait, Some(retry_after), transaction_id)
                    },
                );
            }
        },
        OperationView::CancelJob(c) => {
            let k = lemma_found(t.jobs, c.job_id);
            lemma_finish(t, t.jobs[k], JobState::Cancelled, now_ms, transaction_id, None, None);
        },
        OperationView::ResolveUncertainJob(r) => {
            let k = lemma_found(t.jobs, r.job_id);
            let job = t.jobs[k];
            assert(rows_ok(t.jobs) ==> row_ok(job));
            match r.resolution {
                Resolution::Retry => {
                    if job.attempt >= job.max_attempts {
                        lemma_finish(
                            t,
                            job,
                            JobState::Dead,
                            now_ms,
                            transaction_id,
                            None,
                            Some("retry resolution exhausted max_attempts"@),
                        );
                    } else {
                        lemma_release(t, job, JobState::Pending, None, transaction_id);
                    }
                },
                Resolution::MarkSucceeded => {
                    lemma_finish(t, job, JobState::Succeeded, now_ms, transaction_id, None, None);
                },
                Resolution::MarkDead => {
                    lemma_finish(
                        t,
                        job,
                        JobState::Dead,
                        now_ms,
                        transaction_id,
                        None,
                        Some("resolved as dead"@),
                    );
                },
            }
        },
        OperationView::ExtendLease(e) => {
            law_extension_effect(t, e, now_ms);
        },
        OperationView::AppendEvent(_) => {},
        OperationView::ApplyProjectionPatch(_) => {},
    }
}

/// Every operation of a batch keeps the tables sound, consistent where they
/// are, and the transactions as they are.
pub proof fn lemma_operation(t: Tables, transaction_id: Id, now_ms: i64, o: OperationView)
    requires
        sound(t),
        has_transaction(t.transactions, transaction_id),
        operation_result(t, transaction_id, now_ms, o) is Ok,
    ensures
        sound(operation_result(t, transaction_id, now_ms, o)->Ok_0),
        consistent(t) ==> consistent(operation_result(t, transaction_id, now_ms, o)->Ok_0),
        (operation_result(t, transaction_id, now_ms, o)->Ok_0).transactions == t.transactions,
{
    match o {
        OperationView::AppendEvent(e) => {
            lemma_append(t, transaction_id, e);
        },
        OperationView::ApplyProjectionPatch(p) => {
            lemma_patch(t, p);
        },
        _ => {
            lemma_job_operation(t, transaction_id, now_ms, o);
        },
    }
}

/// So does a series of operations.
pub proof fn lemma_operations(
    t: Tables,
    transaction_id: Id,
    now_ms: i64,
    ops: Seq<OperationView>,
)
    requires
        sound(t),
        has_transaction(t.transactions, transaction_id),
        operations_result(t, transaction_id, now_ms, ops) is Ok,
    ensures
        sound(operations_result(t, transaction_id, now_ms, ops)->Ok_0),
        consistent(t) ==> consistent(operations_result(t, transaction_id, now_ms, ops)->Ok_0),
        (operations_result(t, transaction_id, now_ms, ops)->Ok_0).transactions == t.transactions,
    decreases ops.len(),
{
    if ops.len() > 0 {
        lemma_operations(t, transaction_id, now_ms, ops.drop_last());
        let mid = operations_result(t, transaction_id, now_ms, ops.drop_last())->Ok_0;
        lemma_operation(mid, transaction_id, now_ms, ops.last());
    }
}

} // verus!
