//! Commits: a batch of operations is carried out as a whole or not at all.
//!
//! Whether a commit is durable is decided by its COMMIT step, whose result
//! [`settle_commit`] turns into what the caller of the commit learns.
use vstd::prelude::*;

use crate::batch::{
    expected_views, mutation_views, operation_views, persisted_views, BatchView, CommitBatch, Event,
    EventView, ExpectedStreamVersion, ExpectedView, MutationView, Operation, OperationView,
    PatchView, PersistedEvent, PersistedEventView, ProjectionMutation, ProjectionPatch,
};
use crate::claim::commit_view;
use crate::claim_steps::{lemma_with_transaction, with_transaction};
use crate::commit_steps::{
    append_result, commit_error_of, commit_result, commit_transaction, entries_after, event_row,
    find_transaction, key_of, keys_differ, lemma_append, lemma_find_entry_at,
    lemma_find_transaction_at, lemma_job_operation, lemma_mutated, lemma_operations, lemma_patch,
    lemma_put_projection, lemma_stream_head_push, lemma_stream_head_range, never_valid,
    operation_result, operations_result, patch_result, receipt_of_row, unmet_expectation,
    value_after,
};
use crate::encoding::batch_digest;
use crate::error::{
    storage_message, CommitError, CommitErrorView, Conflict, Error, IndeterminateCommit, LeaseError,
    StorageError, StorageErrorView, ValidationError,
};
use crate::id::Id;
use crate::jobs::CommitReceipt;
use crate::rows::{
    entry_views, event_views, projection_views, transaction_views, EntryRow, EventRow,
    ProjectionRow, TransactionRow,
};
use crate::seqs::at_most;
use crate::store::ControlPlaneStore;
use crate::tables::{
    consistent, entries_distinct, events_numbered, find_entry, has_projection, has_transaction,
    is_entry, put_projection, sound, stream_head, version_of, EntryRowView, EventRowView,
    ProjectionRowView, Tables,
};
use crate::text::same_text;
use crate::values::{copy_bytes, copy_opt_text, same_bytes};

verus! {

/// What the caller of a commit learns once its COMMIT step has returned.
pub open spec fn settled_commit(
    receipt: CommitReceipt,
    commit: Result<(), StorageErrorView>,
) -> Result<CommitReceipt, CommitErrorView> {
    match commit {
        Ok(_) => Ok(receipt),
        Err(e) => Err(
            CommitErrorView::Indeterminate {
                transaction_id: receipt.transaction_id,
                storage_error: storage_message(e),
            },
        ),
    }
}

/// What became of an indeterminate commit.
#[derive(Clone, Copy, PartialEq, Eq, Debug)]
pub enum TransactionRecovery {
    /// It is durable, with this receipt.
    Committed(CommitReceipt),
    /// Nothing of it is durable, so that the same batch may be submitted again.
    Absent,
}

/// What a recovery by transaction finds.
pub open spec fn transaction_recovery(t: Tables, transaction_id: Id) -> TransactionRecovery {
    match find_transaction(t.transactions, transaction_id) {
        Some(row) => TransactionRecovery::Committed(receipt_of_row(row)),
        None => TransactionRecovery::Absent,
    }
}

/// An event behind this global sequence.
pub open spec fn behind_sequence(after: u64) -> spec_fn(EventRowView) -> bool {
    |r: EventRowView| r.global_sequence > after
}

/// The committed event of a row.
pub open spec fn persisted(r: EventRowView) -> PersistedEventView {
    PersistedEventView {
        transaction_id: r.transaction_id,
        global_sequence: r.global_sequence as u64,
        stream_version: r.stream_version as u64,
        event: EventView {
            event_id: r.event_id,
            stream_id: r.stream_id,
            event_type: r.event_type,
            occurred_at_ms: r.occurred_at_ms,
            payload: r.payload,
        },
    }
}

/// The first events behind a global sequence.
pub open spec fn events_behind(t: Tables, after: u64, limit: nat) -> Seq<PersistedEventView> {
    at_most(t.events.filter(behind_sequence(after)), limit).map_values(
        |r: EventRowView| persisted(r),
    )
}

/// A commit that gets as far as its COMMIT step leaves the tables sound, and
/// consistent where they were.
pub proof fn law_commit_keeps_the_tables_consistent(t: Tables, b: BatchView)
    requires
        sound(t),
        commit_result(t, b) is Ok,
    ensures
        sound((commit_result(t, b)->Ok_0).0),
        consistent(t) ==> consistent((commit_result(t, b)->Ok_0).0),
{
    if find_transaction(t.transactions, b.transaction_id) is None {
        let row = commit_transaction(t, b);
        lemma_with_transaction(t, row);
        lemma_operations(
            with_transaction(t, row),
            b.transaction_id,
            b.committed_at_ms,
            b.operations,
        );
    }
}

/// A commit is recorded as a transaction, and found under its receipt.
pub proof fn law_commit_is_recorded(t: Tables, b: BatchView)
    requires
        sound(t),
        commit_result(t, b) is Ok,
    ensures
        ({
            let (after, receipt) = commit_result(t, b)->Ok_0;
            &&& receipt.transaction_id == b.transaction_id
            &&& transaction_recovery(after, b.transaction_id) == TransactionRecovery::Committed(
                receipt,
            )
            &&& find_transaction(after.transactions, b.transaction_id) matches Some(row)
                && row.request_digest == batch_digest(b)
        }),
{
    match find_transaction(t.transactions, b.transaction_id) {
        Some(row) => {
            let k = choose|k: int|
                0 <= k < t.transactions.len() && (#[trigger] t.transactions[k]).transaction_id
                    == b.transaction_id;
            assert(row.transaction_id == b.transaction_id);
        },
        None => {
            let row = commit_transaction(t, b);
            let begun = with_transaction(t, row);
            lemma_with_transaction(t, row);
            lemma_operations(begun, b.transaction_id, b.committed_at_ms, b.operations);
            let n = t.transactions.len() as int;
            assert(begun.transactions[n] == row);
            lemma_find_transaction_at(begun.transactions, n);
        },
    }
}

/// A batch that was committed can be submitted again: it changes nothing and
/// gets the same receipt.
pub proof fn law_resubmission_is_idempotent(t: Tables, b: BatchView)
    requires
        sound(t),
        commit_result(t, b) is Ok,
    ensures
        ({
            let (after, receipt) = commit_result(t, b)->Ok_0;
            commit_result(after, b) == Ok::<(Tables, CommitReceipt), CommitErrorView>(
                (after, receipt),
            )
        }),
{
    law_commit_is_recorded(t, b);
}

/// Another batch under the identifier of a committed one is refused.
pub proof fn law_reused_identifier_is_refused(t: Tables, b: BatchView, other: BatchView)
    requires
        sound(t),
        commit_result(t, b) is Ok,
        other.transaction_id == b.transaction_id,
        batch_digest(other) != batch_digest(b),
    ensures
        commit_result((commit_result(t, b)->Ok_0).0, other) == Err::<
            (Tables, CommitReceipt),
            CommitErrorView,
        >(CommitErrorView::DuplicateIdWithDifferentContent),
{
    law_commit_is_recorded(t, b);
}

/// The number of events that operations append to a stream.
pub open spec fn appended(ops: Seq<OperationView>, stream_id: Seq<char>) -> nat
    decreases ops.len(),
{
    if ops.len() == 0 {
        0
    } else {
        appended(ops.drop_last(), stream_id) + match ops.last() {
            OperationView::AppendEvent(e) => if e.stream_id == stream_id {
                1nat
            } else {
                0nat
            },
            _ => 0nat,
        }
    }
}

proof fn lemma_appended(
    t: Tables,
    transaction_id: Id,
    now_ms: i64,
    ops: Seq<OperationView>,
    stream_id: Seq<char>,
)
    requires
        sound(t),
        has_transaction(t.transactions, transaction_id),
        operations_result(t, transaction_id, now_ms, ops) is Ok,
    ensures
        stream_head(
            (operations_result(t, transaction_id, now_ms, ops)->Ok_0).events,
            stream_id,
        ) == stream_head(t.events, stream_id) + appended(ops, stream_id),
    decreases ops.len(),
{
    if ops.len() > 0 {
        let front = ops.drop_last();
        lemma_appended(t, transaction_id, now_ms, front, stream_id);
        lemma_operations(t, transaction_id, now_ms, front);
        let mid = operations_result(t, transaction_id, now_ms, front)->Ok_0;
        match ops.last() {
            OperationView::AppendEvent(e) => {
                lemma_stream_head_push(mid.events, event_row(mid, transaction_id, e));
            },
            OperationView::ApplyProjectionPatch(_) => {},
            o => {
                lemma_job_operation(mid, transaction_id, now_ms, o);
            },
        }
    }
}

/// A commit advances every stream by the number of events that its batch
/// appends to it.
pub proof fn law_streams_advance_by_their_events(t: Tables, b: BatchView, stream_id: Seq<char>)
    requires
        sound(t),
        !has_transaction(t.transactions, b.transaction_id),
        commit_result(t, b) is Ok,
    ensures
        stream_head((commit_result(t, b)->Ok_0).0.events, stream_id) == stream_head(
            t.events,
            stream_id,
        ) + appended(b.operations, stream_id),
{
    let row = commit_transaction(t, b);
    lemma_with_transaction(t, row);
    lemma_appended(
        with_transaction(t, row),
        b.transaction_id,
        b.committed_at_ms,
        b.operations,
        stream_id,
    );
}

/// An event of this stream.
pub open spec fn of_stream(stream_id: Seq<char>) -> spec_fn(EventRowView) -> bool {
    |r: EventRowView| r.stream_id == stream_id
}

/// The version of a stream of consistent tables is the number of its events.
pub proof fn law_stream_version_counts_its_events(events: Seq<EventRowView>, stream_id: Seq<char>)
    requires
        events_numbered(events),
    ensures
        stream_head(events, stream_id) == events.filter(of_stream(stream_id)).len(),
    decreases events.len(),
{
    reveal(Seq::filter);
    if events.len() > 0 {
        let n = events.len() - 1;
        let front = events.drop_last();
        assert(events.take(n) =~= front);
        assert(events[n].stream_version == stream_head(events.take(n), events[n].stream_id) + 1);
        assert forall|i: int| 0 <= i < front.len() implies (#[trigger] front[i]).global_sequence
            == i + 1 && front[i].stream_version == stream_head(front.take(i), front[i].stream_id)
            + 1 by {
            assert(front[i] == events[i]);
            assert(front.take(i) =~= events.take(i));
        }
        law_stream_version_counts_its_events(front, stream_id);
    }
}

/// A patch takes its projection to the version that it names, which is one
/// more than the one it expects, and leaves the other projections alone.
pub proof fn law_patch_advances_one_version(
    t: Tables,
    p: PatchView,
    name: Seq<char>,
)
    requires
        sound(t),
        patch_result(t, p) is Ok,
    ensures
        p.new_version == p.expected_version + 1,
        version_of(t.projections, p.projection) == p.expected_version,
        version_of((patch_result(t, p)->Ok_0).projections, p.projection) == p.new_version,
        name != p.projection ==> version_of((patch_result(t, p)->Ok_0).projections, name)
            == version_of(t.projections, name),
{
    lemma_patch(t, p);
    let actual = version_of(t.projections, p.projection);
    if has_projection(t.projections, p.projection) {
        let k = choose|k: int|
            0 <= k < t.projections.len() && (#[trigger] t.projections[k]).name == p.projection;
        assert(t.projections[k].version >= 1);
    }
    lemma_put_projection(
        t.projections,
        ProjectionRowView { name: p.projection, version: (actual + 1) as i64 },
    );
}

/// The value under a key after a series of mutations of a projection.
pub open spec fn value_after_all(
    ms: Seq<MutationView>,
    key: Seq<u8>,
    before: Option<Seq<u8>>,
) -> Option<Seq<u8>>
    decreases ms.len(),
{
    if ms.len() == 0 {
        before
    } else {
        value_after(ms.last(), key, value_after_all(ms.drop_last(), key, before))
    }
}

proof fn lemma_values_after(
    entries: Seq<EntryRowView>,
    projection: Seq<char>,
    ms: Seq<MutationView>,
    p: Seq<char>,
    key: Seq<u8>,
)
    requires
        entries_distinct(entries),
    ensures
        entries_distinct(entries_after(entries, projection, ms)),
        find_entry(entries_after(entries, projection, ms), p, key) == if p == projection {
            value_after_all(ms, key, find_entry(entries, p, key))
        } else {
            find_entry(entries, p, key)
        },
    decreases ms.len(),
{
    if ms.len() > 0 {
        lemma_values_after(entries, projection, ms.drop_last(), p, key);
        lemma_mutated(entries_after(entries, projection, ms.drop_last()), projection, ms.last());
    }
}

/// After a patch, a projection holds what was put and not what was deleted;
/// what the patch does not name, and every other projection, is as before.
pub proof fn law_patch_values(
    t: Tables,
    p: PatchView,
    projection: Seq<char>,
    key: Seq<u8>,
)
    requires
        sound(t),
        patch_result(t, p) is Ok,
    ensures
        find_entry((patch_result(t, p)->Ok_0).entries, projection, key) == if projection
            == p.projection {
            value_after_all(p.mutations, key, find_entry(t.entries, projection, key))
        } else {
            find_entry(t.entries, projection, key)
        },
{
    lemma_values_after(t.entries, p.projection, p.mutations, projection, key);
}

/// Turns the receipt of a commit and the result of its COMMIT step into what
/// the caller learns.
pub fn settle_commit(receipt: CommitReceipt, commit: Result<(), StorageError>) -> (r: Result<
    CommitReceipt,
    CommitError,
>)
    ensures
        match r {
            Ok(receipt_out) => settled_commit(receipt, commit_view(commit)) == Ok::<
                CommitReceipt,
                CommitErrorView,
            >(receipt_out),
            Err(e) => settled_commit(receipt, commit_view(commit)) == Err::<
                CommitReceipt,
                CommitErrorView,
            >(e@),
        },
{
    match commit {
        Ok(_) => Ok(receipt),
        Err(e) => Err(
            CommitError::Indeterminate(
                IndeterminateCommit {
                    transaction_id: receipt.transaction_id,
                    storage_error: e.message(),
                },
            ),
        ),
    }
}

/// The failure of a job operation inside a commit, variant for variant.
pub fn error_to_commit(e: Error) -> (r: CommitError)
    ensures
        r@ == commit_error_of(e@),
{
    match e {
        Error::Storage(s) => CommitError::Storage(s),
        Error::Validation(v) => CommitError::Validation(v),
        Error::Conflict(c) => CommitError::Conflict(c),
    }
}

fn commit_storage(text: &str) -> (e: CommitError)
    ensures
        e@ == CommitErrorView::Storage(StorageErrorView::Sqlite(text@)),
{
    CommitError::Storage(StorageError::Sqlite(text.to_owned()))
}

fn commit_invalid(text: &str) -> (e: CommitError)
    ensures
        e@ == CommitErrorView::Validation(text@),
{
    CommitError::Validation(ValidationError(text.to_owned()))
}

/// The operation has done what `expected` says, or has failed as it says.
pub open spec fn performed(
    after: Tables,
    result: Result<(), CommitError>,
    expected: Result<Tables, CommitErrorView>,
) -> bool {
    match result {
        Ok(_) => expected == Ok::<Tables, CommitErrorView>(after),
        Err(e) => expected == Err::<Tables, CommitErrorView>(e@),
    }
}

fn same_key(a: &ProjectionMutation, b: &ProjectionMutation) -> (r: bool)
    ensures
        r == (key_of(a@) is Some && key_of(a@) == key_of(b@)),
{
    let key_a = match a {
        ProjectionMutation::Put { key, .. } => key,
        ProjectionMutation::Delete { key } => key,
        ProjectionMutation::Clear => return false,
    };
    let key_b = match b {
        ProjectionMutation::Put { key, .. } => key,
        ProjectionMutation::Delete { key } => key,
        ProjectionMutation::Clear => return false,
    };
    same_bytes(key_a, key_b)
}

fn no_key_twice(mutations: &Vec<ProjectionMutation>) -> (r: bool)
    ensures
        r == keys_differ(mutation_views(mutations@)),
{
    let ghost ms = mutation_views(mutations@);
    let mut i: usize = 0;
    while i < mutations.len()
        invariant
            i <= mutations@.len(),
            ms == mutation_views(mutations@),
            forall|a: int, b: int|
                0 <= a < b < ms.len() && a < i && key_of(#[trigger] ms[a]) is Some ==> key_of(ms[a])
                    != key_of(#[trigger] ms[b]),
        decreases mutations@.len() - i,
    {
        let mut j: usize = i + 1;
        while j < mutations.len()
            invariant
                i < j <= mutations@.len(),
                ms == mutation_views(mutations@),
                forall|b: int|
                    i < b < j && key_of(ms[i as int]) is Some ==> key_of(ms[i as int]) != key_of(
                        #[trigger] ms[b],
                    ),
            decreases mutations@.len() - j,
        {
            if same_key(&mutations[i], &mutations[j]) {
                assert(ms[i as int] == mutations@[i as int]@ && ms[j as int]
                    == mutations@[j as int]@);
                return false;
            }
            assert(ms[i as int] == mutations@[i as int]@ && ms[j as int] == mutations@[j as int]@);
            j += 1;
        }
        i += 1;
    }
    true
}

fn has_zero_token(operations: &Vec<Operation>) -> (r: bool)
    ensures
        r == exists|i: int|
            0 <= i < operation_views(operations@).len() && never_valid(
                #[trigger] operation_views(operations@)[i],
            ),
{
    let ghost all = operation_views(operations@);
    let mut i: usize = 0;
    while i < operations.len()
        invariant
            i <= operations@.len(),
            all == operation_views(operations@),
            forall|k: int| 0 <= k < i ==> !never_valid(#[trigger] all[k]),
        decreases operations@.len() - i,
    {
        assert(all[i as int] == operations@[i as int]@);
        if let Operation::ExtendLease(e) = &operations[i] {
            if e.lease_token.value == 0 {
                return true;
            }
        }
        i += 1;
    }
    false
}

impl ControlPlaneStore {
    /// The version of a stream: that of its last event, zero where it does not
    /// exist.
    pub fn stream_version(&self, stream_id: &str) -> (version: u64)
        requires
            self.wf(),
        ensures
            version == stream_head(self@.events, stream_id@),
    {
        let rows = self.event_rows();
        let ghost all = self@.events;
        proof {
            lemma_stream_head_range(all, stream_id@);
            assert(all.take(all.len() as int) =~= all);
        }
        let mut i: usize = rows.len();
        while i > 0
            invariant
                i <= rows@.len(),
                all == self@.events,
                event_views(rows@) == all,
                stream_head(all, stream_id@) >= 0,
                stream_head(all.take(i as int), stream_id@) == stream_head(all, stream_id@),
            decreases i,
        {
            proof {
                assert(all.take(i as int).drop_last() =~= all.take(i - 1));
                assert(all.take(i as int).last() == rows@[i - 1]@);
            }
            i -= 1;
            if same_text(rows[i].stream_id.as_str(), stream_id) {
                assert(stream_head(all.take(i + 1), stream_id@) == rows@[i as int]@.stream_version);
                return rows[i].stream_version as u64;
            }
        }
        assert(all.take(0).len() == 0);
        0
    }

    /// The events behind a global sequence, oldest first and up to a limit.
    pub fn events_after(&self, after: u64, limit: usize) -> (events: Vec<PersistedEvent>)
        requires
            self.wf(),
        ensures
            persisted_views(events@) == events_behind(self@, after, limit as nat),
    {
        let rows = self.event_rows();
        let ghost all = self@.events;
        let ghost pred = behind_sequence(after);
        let ghost f = |r: EventRowView| persisted(r);
        let mut events: Vec<PersistedEvent> = Vec::new();
        let mut i: usize = 0;
        proof {
            reveal(Seq::filter);
            assert(persisted_views(events@) =~= all.take(0).filter(pred).map_values(f));
        }
        while i < rows.len() && events.len() < limit
            invariant
                i <= rows@.len(),
                self.wf(),
                all == self@.events,
                event_views(rows@) == all,
                pred == behind_sequence(after),
                f == (|r: EventRowView| persisted(r)),
                events@.len() <= limit,
                persisted_views(events@) == all.take(i as int).filter(pred).map_values(f),
            decreases rows@.len() - i,
        {
            let row = &rows[i];
            let ghost before = events@;
            proof {
                reveal(Seq::filter);
                assert(all.take(i + 1).drop_last() =~= all.take(i as int));
                assert(all.take(i + 1).last() == row@);
                assert(all[i as int] == row@);
                assert(row@.global_sequence >= 1 && row@.stream_version >= 1);
            }
            if row.global_sequence as u64 > after {
                events.push(
                    PersistedEvent {
                        transaction_id: row.transaction_id,
                        global_sequence: row.global_sequence as u64,
                        stream_version: row.stream_version as u64,
                        event: Event {
                            event_id: row.event_id,
                            stream_id: row.stream_id.clone(),
                            event_type: row.event_type.clone(),
                            occurred_at_ms: row.occurred_at_ms,
                            payload: copy_bytes(&row.payload),
                        },
                    },
                );
                proof {
                    let kept = all.take(i as int).filter(pred);
                    assert(events@.last()@ =~= persisted(row@));
                    assert(persisted_views(events@) =~= persisted_views(before).push(
                        persisted(row@),
                    ));
                    assert(kept.push(row@).map_values(f) =~= kept.map_values(f).push(
                        persisted(row@),
                    ));
                }
            }
            i += 1;
        }
        proof {
            let kept = all.take(i as int).filter(pred);
            assert(persisted_views(events@).len() == events@.len());
            assert(kept.map_values(f).len() == kept.len());
            assert(all =~= all.take(i as int) + all.skip(i as int));
            Seq::filter_distributes_over_add(all.take(i as int), all.skip(i as int), pred);
            if i == rows@.len() {
                assert(all.take(i as int) =~= all);
            }
            assert(at_most(all.filter(pred), limit as nat) =~= kept);
        }
        events
    }

    fn stored_version(&self, projection: &str) -> (version: i64)
        requires
            self.wf(),
        ensures
            version == version_of(self@.projections, projection@),
            version >= 0,
    {
        let rows = self.projection_rows();
        let ghost all = self@.projections;
        let mut i: usize = 0;
        while i < rows.len()
            invariant
                i <= rows@.len(),
                self.wf(),
                all == self@.projections,
                projection_views(rows@) == all,
                forall|k: int| 0 <= k < i ==> (#[trigger] all[k]).name != projection@,
            decreases rows@.len() - i,
        {
            assert(all[i as int] == rows@[i as int]@);
            if same_text(rows[i].name.as_str(), projection) {
                proof {
                    assert(has_projection(all, projection@));
                    let k = choose|k: int|
                        0 <= k < all.len() && (#[trigger] all[k]).name == projection@;
                    if k < i {
                        assert(all[k].name != projection@);
                    } else if i < k {
                        assert(all[i as int].name != all[k].name);
                    }
                }
                return rows[i].version;
            }
            i += 1;
        }
        0
    }

    /// The version of a projection, zero where it does not exist.
    pub fn projection_version(&self, projection: &str) -> (version: u64)
        requires
            self.wf(),
        ensures
            version == version_of(self@.projections, projection@),
    {
        self.stored_version(projection) as u64
    }

    /// The value of a projection under a key.
    pub fn projection_get(&self, projection: &str, key: &Vec<u8>) -> (value: Option<Vec<u8>>)
        requires
            self.wf(),
        ensures
            match value {
                Some(v) => find_entry(self@.entries, projection@, key@) == Some(v@),
                None => find_entry(self@.entries, projection@, key@) is None,
            },
    {
        let rows = self.entry_rows();
        let ghost all = self@.entries;
        let mut i: usize = 0;
        while i < rows.len()
            invariant
                i <= rows@.len(),
                self.wf(),
                all == self@.entries,
                entry_views(rows@) == all,
                forall|k: int| 0 <= k < i ==> !is_entry(#[trigger] all[k], projection@, key@),
            decreases rows@.len() - i,
        {
            assert(all[i as int] == rows@[i as int]@);
            if same_text(rows[i].projection.as_str(), projection) && same_bytes(&rows[i].key, key) {
                proof {
                    lemma_find_entry_at(all, i as int);
                }
                return Some(copy_bytes(&rows[i].value));
            }
            i += 1;
        }
        None
    }

    /// The transaction with this identifier.
    fn load_transaction(&self, transaction_id: Id) -> (r: Option<TransactionRow>)
        requires
            self.wf(),
        ensures
            match r {
                Some(row) => find_transaction(self@.transactions, transaction_id) == Some(row@),
                None => find_transaction(self@.transactions, transaction_id) is None,
            },
    {
        let rows = self.transaction_rows();
        let ghost all = self@.transactions;
        let mut i: usize = 0;
        while i < rows.len()
            invariant
                i <= rows@.len(),
                self.wf(),
                all == self@.transactions,
                transaction_views(rows@) == all,
                forall|k: int| 0 <= k < i ==> (#[trigger] all[k]).transaction_id != transaction_id,
            decreases rows@.len() - i,
        {
            assert(all[i as int] == rows@[i as int]@);
            if rows[i].transaction_id == transaction_id {
                proof {
                    lemma_find_transaction_at(all, i as int);
                }
                return Some(rows[i].clone());
            }
            i += 1;
        }
        None
    }

    /// Recovers a commit by its transaction.
    pub fn recover_transaction(&self, transaction_id: Id) -> (r: TransactionRecovery)
        requires
            self.wf(),
        ensures
            r == transaction_recovery(self@, transaction_id),
    {
        match self.load_transaction(transaction_id) {
            Some(row) => {
                proof {
                    let k = choose|k: int|
                        0 <= k < self@.transactions.len() && (
                        #[trigger] self@.transactions[k]).transaction_id == transaction_id;
                    assert(self@.transactions[k].transaction_sequence >= 1);
                }
                TransactionRecovery::Committed(
                    CommitReceipt {
                        transaction_id: row.transaction_id,
                        transaction_sequence: row.transaction_sequence as u64,
                        committed_at_ms: row.committed_at_ms,
                    },
                )
            }
            None => TransactionRecovery::Absent,
        }
    }

    /// Checks the stream versions that a batch expects.
    fn check_expectations(&self, expected: &Vec<ExpectedStreamVersion>) -> (r: Result<
        (),
        CommitError,
    >)
        requires
            self.wf(),
        ensures
            match r {
                Ok(_) => unmet_expectation(self@, expected_views(expected@)) is None,
                Err(e) => unmet_expectation(self@, expected_views(expected@)) == Some(e@),
            },
    {
        let ghost all = expected_views(expected@);
        let mut i: usize = 0;
        assert(all.take(0) =~= Seq::<ExpectedView>::empty());
        while i < expected.len()
            invariant
                i <= expected@.len(),
                self.wf(),
                all == expected_views(expected@),
                unmet_expectation(self@, all.take(i as int)) is None,
            decreases expected@.len() - i,
        {
            let wanted = &expected[i];
            let actual = self.stream_version(wanted.stream_id.as_str());
            proof {
                assert(all.take(i + 1).drop_last() =~= all.take(i as int));
                assert(all.take(i + 1).last() == wanted@);
            }
            if wanted.version != actual {
                let e = CommitError::Conflict(
                    Conflict::StreamVersion {
                        stream_id: wanted.stream_id.clone(),
                        expected: wanted.version,
                        actual,
                    },
                );
                proof {
                    lemma_unmet_prefix(self@, all, i + 1);
                }
                return Err(e);
            }
            i += 1;
        }
        assert(all.take(i as int) =~= all);
        Ok(())
    }

    /// Appends an event.
    fn apply_event(&mut self, transaction_id: Id, event: &Event) -> (r: Result<(), CommitError>)
        requires
            old(self).wf(),
            has_transaction(old(self)@.transactions, transaction_id),
        ensures
            r is Ok ==> final(self).wf(),
            final(self).recorded(),
            final(self).base() == old(self).base(),
            performed(final(self)@, r, append_result(old(self)@, transaction_id, event@)),
    {
        let rows = self.event_rows();
        let global_sequence: i64 = if rows.len() == 0 {
            1
        } else {
            let last = rows[rows.len() - 1].global_sequence;
            assert(self@.events.last() == rows@.last()@);
            if last == i64::MAX {
                return Err(commit_storage("event sequence exhausted"));
            }
            last + 1
        };
        let version = self.stream_version(event.stream_id.as_str());
        if version == i64::MAX as u64 {
            return Err(commit_storage("stream version exhausted"));
        }
        proof {
            lemma_append(self@, transaction_id, event@);
        }
        let row = EventRow {
            transaction_id,
            global_sequence,
            stream_version: version as i64 + 1,
            event_id: event.event_id,
            stream_id: event.stream_id.clone(),
            event_type: event.event_type.clone(),
            occurred_at_ms: event.occurred_at_ms,
            payload: copy_bytes(&event.payload),
        };
        assert(row@ =~= event_row(self@, transaction_id, event@));
        self.insert_event(row);
        Ok(())
    }

    /// Applies a projection patch.
    fn apply_patch(&mut self, patch: &ProjectionPatch) -> (r: Result<(), CommitError>)
        requires
            old(self).wf(),
        ensures
            r is Ok ==> final(self).wf(),
            final(self).recorded(),
            final(self).base() == old(self).base(),
            performed(final(self)@, r, patch_result(old(self)@, patch@)),
    {
        if patch.expected_version == u64::MAX || patch.new_version != patch.expected_version + 1 {
            return Err(commit_invalid("projection version must advance by exactly one"));
        }
        if !no_key_twice(&patch.mutations) {
            return Err(commit_invalid("projection patch names a key twice"));
        }
        let actual = self.stored_version(patch.projection.as_str());
        if patch.expected_version != actual as u64 {
            return Err(
                CommitError::Conflict(
                    Conflict::ProjectionVersion {
                        projection: patch.projection.clone(),
                        expected: patch.expected_version,
                        actual: actual as u64,
                    },
                ),
            );
        }
        if actual == i64::MAX {
            return Err(commit_storage("projection version exhausted"));
        }
        let ghost start = self@;
        let ghost p = patch@;
        proof {
            lemma_patch(start, p);
        }
        self.put_projection(ProjectionRow { name: patch.projection.clone(), version: actual + 1 });
        let ghost put = self@;
        let ghost all = p.mutations;
        let mut i: usize = 0;
        assert(all.take(0) =~= Seq::<MutationView>::empty());
        while i < patch.mutations.len()
            invariant
                i <= patch.mutations@.len(),
                p == patch@,
                all == mutation_views(patch.mutations@),
                self.recorded(),
                self.base() == old(self).base(),
                self@ == (Tables {
                    entries: entries_after(put.entries, p.projection, all.take(i as int)),
                    ..put
                }),
            decreases patch.mutations@.len() - i,
        {
            proof {
                assert(all.take(i + 1).drop_last() =~= all.take(i as int));
                assert(all.take(i + 1).last() == patch.mutations@[i as int]@);
            }
            match &patch.mutations[i] {
                ProjectionMutation::Put { key, value } => {
                    self.put_entry(
                        EntryRow {
                            projection: patch.projection.clone(),
                            key: copy_bytes(key),
                            value: copy_bytes(value),
                        },
                    );
                }
                ProjectionMutation::Delete { key } => {
                    self.delete_entry(&patch.projection, key);
                }
                ProjectionMutation::Clear => {
                    self.clear_entries(&patch.projection);
                }
            }
            i += 1;
        }
        assert(all.take(i as int) =~= all);
        Ok(())
    }

    /// Carries out one operation of a batch.
    fn apply_operation(&mut self, transaction_id: Id, now_ms: i64, operation: &Operation) -> (r:
        Result<(), CommitError>)
        requires
            old(self).wf(),
            has_transaction(old(self)@.transactions, transaction_id),
        ensures
            r is Ok ==> final(self).wf(),
            final(self).recorded(),
            final(self).base() == old(self).base(),
            performed(
                final(self)@,
                r,
                operation_result(old(self)@, transaction_id, now_ms, operation@),
            ),
    {
        let done = match operation {
            Operation::AppendEvent(e) => {
                return self.apply_event(transaction_id, e);
            }
            Operation::ApplyProjectionPatch(p) => {
                return self.apply_patch(p);
            }
            Operation::ExtendLease(e) => {
                return match self.apply_extend_lease(e, now_ms) {
                    Ok(_) => Ok(()),
                    Err(LeaseError::Conflict(c)) => Err(
                        CommitError::Conflict(Conflict::Lease(c)),
                    ),
                    Err(LeaseError::Indeterminate(i)) => Err(
                        CommitError::Storage(StorageError::Sqlite(i.storage_error)),
                    ),
                    Err(LeaseError::Storage(s)) => Err(CommitError::Storage(s)),
                };
            }
            Operation::EnqueueJob(s) => self.apply_enqueue(transaction_id, s),
            Operation::AcknowledgeJob(a) => self.apply_ack(transaction_id, now_ms, a),
            Operation::FailJob(f) => self.apply_fail(transaction_id, now_ms, f),
            Operation::CancelJob(c) => self.apply_cancel(transaction_id, now_ms, c),
            Operation::ResolveUncertainJob(r) => self.apply_resolve(transaction_id, now_ms, r),
        };
        match done {
            Ok(_) => Ok(()),
            Err(e) => Err(error_to_commit(e)),
        }
    }

    /// Carries out the operations of a batch, one after the other.
    fn apply_operations(
        &mut self,
        transaction_id: Id,
        now_ms: i64,
        operations: &Vec<Operation>,
    ) -> (r: Result<(), CommitError>)
        requires
            old(self).wf(),
            has_transaction(old(self)@.transactions, transaction_id),
        ensures
            r is Ok ==> final(self).wf(),
            final(self).base() == old(self).base(),
            performed(
                final(self)@,
                r,
                operations_result(
                    old(self)@,
                    transaction_id,
                    now_ms,
                    operation_views(operations@),
                ),
            ),
    {
        let ghost start = self@;
        let ghost all = operation_views(operations@);
        let mut i: usize = 0;
        assert(all.take(0) =~= Seq::<OperationView>::empty());
        while i < operations.len()
            invariant
                i <= operations@.len(),
                all == operation_views(operations@),
                self.wf(),
                self.base() == old(self).base(),
                sound(start),
                has_transaction(start.transactions, transaction_id),
                start == old(self)@,
                operations_result(start, transaction_id, now_ms, all.take(i as int)) == Ok::<
                    Tables,
                    CommitErrorView,
                >(self@),
            decreases operations@.len() - i,
        {
            proof {
                assert(all.take(i + 1).drop_last() =~= all.take(i as int));
                assert(all.take(i + 1).last() == operations@[i as int]@);
                lemma_operations(start, transaction_id, now_ms, all.take(i as int));
            }
            match self.apply_operation(transaction_id, now_ms, &operations[i]) {
                Ok(_) => {}
                Err(e) => {
                    proof {
                        lemma_failed_prefix(start, transaction_id, now_ms, all, i + 1);
                    }
                    return Err(e);
                }
            }
            i += 1;
        }
        assert(all.take(i as int) =~= all);
        Ok(())
    }

    /// Commits a batch, up to its COMMIT step. A batch that was committed
    /// already changes nothing and gets its receipt again; a batch that fails
    /// changes nothing.
    pub fn commit(&mut self, batch: &CommitBatch) -> (r: Result<CommitReceipt, CommitError>)
        requires
            old(self).wf(),
        ensures
            final(self).wf(),
            final(self).base() == old(self).base(),
            match r {
                Ok(receipt) => commit_result(old(self)@, batch@) == Ok::<
                    (Tables, CommitReceipt),
                    CommitErrorView,
                >((final(self)@, receipt)),
                Err(e) => commit_result(old(self)@, batch@) == Err::<
                    (Tables, CommitReceipt),
                    CommitErrorView,
                >(e@),
            },
            r is Err ==> *final(self) == *old(self),
            has_transaction(old(self)@.transactions, batch@.transaction_id) ==> *final(self)
                == *old(self),
    {
        let request_digest = batch.request_digest();
        if let Some(row) = self.load_transaction(batch.transaction_id) {
            proof {
                let k = choose|k: int|
                    0 <= k < self@.transactions.len() && (
                    #[trigger] self@.transactions[k]).transaction_id == batch@.transaction_id;
                assert(self@.transactions[k].transaction_sequence >= 1);
            }
            if same_bytes(&row.request_digest, &request_digest) {
                return Ok(
                    CommitReceipt {
                        transaction_id: row.transaction_id,
                        transaction_sequence: row.transaction_sequence as u64,
                        committed_at_ms: row.committed_at_ms,
                    },
                );
            }
            return Err(CommitError::DuplicateIdWithDifferentContent);
        }
        if has_zero_token(&batch.operations) {
            return Err(commit_invalid("lease token cannot be zero"));
        }
        if let Err(e) = self.check_expectations(&batch.expected) {
            return Err(e);
        }
        let rows = self.transaction_rows();
        let transaction_sequence: i64 = if rows.len() == 0 {
            1
        } else {
            let last = rows[rows.len() - 1].transaction_sequence;
            proof {
                assert(self@.transactions.last() == rows@.last()@);
                assert(self@.transactions[self@.transactions.len() - 1].transaction_sequence >= 1);
            }
            if last == i64::MAX {
                return Err(commit_storage("transaction sequence exhausted"));
            }
            last + 1
        };
        let row = TransactionRow {
            transaction_id: batch.transaction_id,
            transaction_sequence,
            committed_at_ms: batch.committed_at_ms,
            correlation_id: copy_opt_text(&batch.correlation_id),
            metadata: copy_bytes(&batch.metadata),
            request_digest,
            operation_count: batch.operations.len() as i64,
        };
        proof {
            assert(row@ =~= commit_transaction(self@, batch@));
            lemma_with_transaction(self@, row@);
        }
        // The operations work on a copy, so that a failure leaves no trace.
        let mut work = self.duplicate();
        work.insert_transaction(row);
        match work.apply_operations(
            batch.transaction_id,
            batch.committed_at_ms,
            &batch.operations,
        ) {
            Ok(_) => {}
            Err(e) => {
                return Err(e);
            }
        }
        *self = work;
        Ok(
            CommitReceipt {
                transaction_id: batch.transaction_id,
                transaction_sequence: transaction_sequence as u64,
                committed_at_ms: batch.committed_at_ms,
            },
        )
    }
}

/// An expectation that is not met among the first ones decides for all.
proof fn lemma_unmet_prefix(t: Tables, expected: Seq<ExpectedView>, i: int)
    requires
        0 <= i <= expected.len(),
        unmet_expectation(t, expected.take(i)) is Some,
    ensures
        unmet_expectation(t, expected) == unmet_expectation(t, expected.take(i)),
    decreases expected.len(),
{
    if i == expected.len() {
        assert(expected.take(i) =~= expected);
    } else {
        assert(expected.drop_last().take(i) =~= expected.take(i));
        lemma_unmet_prefix(t, expected.drop_last(), i);
    }
}

/// An operation that fails among the first ones decides for all.
proof fn lemma_failed_prefix(
    t: Tables,
    transaction_id: Id,
    now_ms: i64,
    ops: Seq<OperationView>,
    i: int,
)
    requires
        0 <= i <= ops.len(),
        operations_result(t, transaction_id, now_ms, ops.take(i)) is Err,
    ensures
        operations_result(t, transaction_id, now_ms, ops) == operations_result(
            t,
            transaction_id,
            now_ms,
            ops.take(i),
        ),
    decreases ops.len(),
{
    if i == ops.len() {
        assert(ops.take(i) =~= ops);
    } else {
        assert(ops.drop_last().take(i) =~= ops.take(i));
        lemma_failed_prefix(t, transaction_id, now_ms, ops.drop_last(), i);
    }
}

} // verus!
