//! The tables behind the store, as mathematical sequences of rows.
//!
//! [`Tables`] is the model that every contract of the store speaks of. A
//! row that was inserted later stands later, so the `jobs` sequence is in
//! enqueue order.
use vstd::prelude::*;

use crate::id::Id;
use crate::row::JobRowView;
use crate::state::terminal;

verus! {

/// A row of `active_partitions`: a partition with unfinished jobs.
#[verifier::ext_equal]
pub struct PartitionRowView {
    pub queue: Seq<char>,
    pub partition_key: Seq<char>,
    pub first_active_sequence: i64,
}

/// A row of `queue_cursors`: the partition that a queue leased from last.
#[verifier::ext_equal]
pub struct CursorRowView {
    pub queue: Seq<char>,
    pub last_partition_key: Seq<char>,
}

/// A row of `claim_receipts`: one lease as it was granted.
#[verifier::ext_equal]
pub struct ReceiptRowView {
    pub transaction_id: Id,
    pub job_id: Id,
    pub lease_token: Id,
    pub attempt: u32,
    pub worker_id: Seq<char>,
    pub lease_expires_at_ms: i64,
}

/// A row of `transactions`.
#[verifier::ext_equal]
pub struct TransactionRowView {
    pub transaction_id: Id,
    pub transaction_sequence: i64,
    pub committed_at_ms: i64,
    pub correlation_id: Option<Seq<char>>,
    pub metadata: Seq<u8>,
    pub request_digest: Seq<u8>,
    pub operation_count: i64,
}

/// A row of `events`: one event of a stream.
#[verifier::ext_equal]
pub struct EventRowView {
    pub transaction_id: Id,
    pub global_sequence: i64,
    pub stream_version: i64,
    pub event_id: Id,
    pub stream_id: Seq<char>,
    pub event_type: Seq<char>,
    pub occurred_at_ms: i64,
    pub payload: Seq<u8>,
}

/// A row of `projections`: the version of one projection.
#[verifier::ext_equal]
pub struct ProjectionRowView {
    pub name: Seq<char>,
    pub version: i64,
}

/// A row of `projection_entries`: one entry of a projection.
#[verifier::ext_equal]
pub struct EntryRowView {
    pub projection: Seq<char>,
    pub key: Seq<u8>,
    pub value: Seq<u8>,
}

/// The tables of the store.
#[verifier::ext_equal]
pub struct Tables {
    pub jobs: Seq<JobRowView>,
    pub partitions: Seq<PartitionRowView>,
    pub cursors: Seq<CursorRowView>,
    pub receipts: Seq<ReceiptRowView>,
    pub transactions: Seq<TransactionRowView>,
    pub events: Seq<EventRowView>,
    pub projections: Seq<ProjectionRowView>,
    pub entries: Seq<EntryRowView>,
}

/// A change of one table.
pub enum WriteView {
    InsertJob(JobRowView),
    UpdateJob(JobRowView),
    InsertPartition(PartitionRowView),
    DeletePartition { queue: Seq<char>, partition_key: Seq<char> },
    PutCursor(CursorRowView),
    InsertReceipt(ReceiptRowView),
    SetReceiptExpiry { job_id: Id, lease_token: Id, lease_expires_at_ms: i64 },
    InsertTransaction(TransactionRowView),
    InsertEvent(EventRowView),
    PutProjection(ProjectionRowView),
    PutEntry(EntryRowView),
    DeleteEntry { projection: Seq<char>, key: Seq<u8> },
    ClearEntries { projection: Seq<char> },
}

/// The tables of a new store.
pub open spec fn no_tables() -> Tables {
    Tables {
        jobs: Seq::empty(),
        partitions: Seq::empty(),
        cursors: Seq::empty(),
        receipts: Seq::empty(),
        transactions: Seq::empty(),
        events: Seq::empty(),
        projections: Seq::empty(),
        entries: Seq::empty(),
    }
}

/// There is a job with this identifier.
pub open spec fn has_job(jobs: Seq<JobRowView>, job_id: Id) -> bool {
    exists|i: int| 0 <= i < jobs.len() && (#[trigger] jobs[i]).job_id == job_id
}

/// The job with this identifier.
pub open spec fn find_job(jobs: Seq<JobRowView>, job_id: Id) -> Option<JobRowView> {
    if has_job(jobs, job_id) {
        Some(jobs[choose|i: int| 0 <= i < jobs.len() && (#[trigger] jobs[i]).job_id == job_id])
    } else {
        None
    }
}

/// The jobs with the one that has the identifier of `row` replaced by `row`.
pub open spec fn replace_job(jobs: Seq<JobRowView>, row: JobRowView) -> Seq<JobRowView> {
    jobs.map_values(|r: JobRowView| if r.job_id == row.job_id { row } else { r })
}

/// A job that belongs to this partition and is not finished.
pub open spec fn active_in(r: JobRowView, queue: Seq<char>, partition_key: Seq<char>) -> bool {
    r.queue == queue && r.partition_key == partition_key && !terminal(r.state)
}

/// The partition has an unfinished job.
pub open spec fn has_active(
    jobs: Seq<JobRowView>,
    queue: Seq<char>,
    partition_key: Seq<char>,
) -> bool {
    exists|i: int| 0 <= i < jobs.len() && active_in(#[trigger] jobs[i], queue, partition_key)
}

/// The partition is listed in `active_partitions`.
pub open spec fn listed(
    partitions: Seq<PartitionRowView>,
    queue: Seq<char>,
    partition_key: Seq<char>,
) -> bool {
    exists|i: int|
        0 <= i < partitions.len() && (#[trigger] partitions[i]).queue == queue
            && partitions[i].partition_key == partition_key
}

/// Inserts a partition unless it is listed already.
pub open spec fn insert_partition(
    partitions: Seq<PartitionRowView>,
    row: PartitionRowView,
) -> Seq<PartitionRowView> {
    if listed(partitions, row.queue, row.partition_key) {
        partitions
    } else {
        partitions.push(row)
    }
}

/// Any partition but this one.
pub open spec fn not_partition(
    queue: Seq<char>,
    partition_key: Seq<char>,
) -> spec_fn(PartitionRowView) -> bool {
    |r: PartitionRowView| !(r.queue == queue && r.partition_key == partition_key)
}

/// Deletes a partition.
pub open spec fn delete_partition(
    partitions: Seq<PartitionRowView>,
    queue: Seq<char>,
    partition_key: Seq<char>,
) -> Seq<PartitionRowView> {
    partitions.filter(not_partition(queue, partition_key))
}

/// The queue has a cursor.
pub open spec fn has_cursor(cursors: Seq<CursorRowView>, queue: Seq<char>) -> bool {
    exists|i: int| 0 <= i < cursors.len() && (#[trigger] cursors[i]).queue == queue
}

/// The partition that the queue leased from last.
pub open spec fn find_cursor(cursors: Seq<CursorRowView>, queue: Seq<char>) -> Option<Seq<char>> {
    if has_cursor(cursors, queue) {
        Some(
            cursors[choose|i: int|
                0 <= i < cursors.len() && (#[trigger] cursors[i]).queue
                    == queue].last_partition_key,
        )
    } else {
        None
    }
}

/// Inserts a cursor, or replaces that of the same queue.
pub open spec fn put_cursor(
    cursors: Seq<CursorRowView>,
    row: CursorRowView,
) -> Seq<CursorRowView> {
    if has_cursor(cursors, row.queue) {
        cursors.map_values(|c: CursorRowView| if c.queue == row.queue { row } else { c })
    } else {
        cursors.push(row)
    }
}

/// The transaction has a receipt for this job.
pub open spec fn has_receipt(receipts: Seq<ReceiptRowView>, transaction_id: Id, job_id: Id) -> bool {
    exists|i: int|
        0 <= i < receipts.len() && (#[trigger] receipts[i]).transaction_id == transaction_id
            && receipts[i].job_id == job_id
}

/// Sets the expiry in the receipts of one lease.
pub open spec fn set_receipt_expiry(
    receipts: Seq<ReceiptRowView>,
    job_id: Id,
    lease_token: Id,
    lease_expires_at_ms: i64,
) -> Seq<ReceiptRowView> {
    receipts.map_values(
        |r: ReceiptRowView|
            if r.job_id == job_id && r.lease_token == lease_token {
                ReceiptRowView { lease_expires_at_ms, ..r }
            } else {
                r
            },
    )
}

/// There is a transaction with this identifier.
pub open spec fn has_transaction(transactions: Seq<TransactionRowView>, transaction_id: Id) -> bool {
    exists|i: int|
        0 <= i < transactions.len() && (#[trigger] transactions[i]).transaction_id
            == transaction_id
}

/// The version of a stream: that of its last event, zero where it has none.
pub open spec fn stream_head(events: Seq<EventRowView>, stream_id: Seq<char>) -> i64
    decreases events.len(),
{
    if events.len() == 0 {
        0
    } else if events.last().stream_id == stream_id {
        events.last().stream_version
    } else {
        stream_head(events.drop_last(), stream_id)
    }
}

/// The projection has a version.
pub open spec fn has_projection(projections: Seq<ProjectionRowView>, name: Seq<char>) -> bool {
    exists|i: int| 0 <= i < projections.len() && (#[trigger] projections[i]).name == name
}

/// The version of a projection, zero where it does not exist.
pub open spec fn version_of(projections: Seq<ProjectionRowView>, name: Seq<char>) -> i64 {
    if has_projection(projections, name) {
        projections[choose|i: int|
            0 <= i < projections.len() && (#[trigger] projections[i]).name == name].version
    } else {
        0
    }
}

/// Inserts a projection, or replaces that of the same name.
pub open spec fn put_projection(
    projections: Seq<ProjectionRowView>,
    row: ProjectionRowView,
) -> Seq<ProjectionRowView> {
    if has_projection(projections, row.name) {
        projections.map_values(|p: ProjectionRowView| if p.name == row.name { row } else { p })
    } else {
        projections.push(row)
    }
}

/// The entry stands under this key.
pub open spec fn is_entry(r: EntryRowView, projection: Seq<char>, key: Seq<u8>) -> bool {
    r.projection == projection && r.key == key
}

/// The projection has an entry under this key.
pub open spec fn has_entry(
    entries: Seq<EntryRowView>,
    projection: Seq<char>,
    key: Seq<u8>,
) -> bool {
    exists|i: int| 0 <= i < entries.len() && is_entry(#[trigger] entries[i], projection, key)
}

/// The value of a projection under a key.
pub open spec fn find_entry(
    entries: Seq<EntryRowView>,
    projection: Seq<char>,
    key: Seq<u8>,
) -> Option<Seq<u8>> {
    if has_entry(entries, projection, key) {
        Some(
            entries[choose|i: int|
                0 <= i < entries.len() && is_entry(#[trigger] entries[i], projection, key)].value,
        )
    } else {
        None
    }
}

/// Inserts an entry, or replaces that under the same key.
pub open spec fn put_entry(entries: Seq<EntryRowView>, row: EntryRowView) -> Seq<EntryRowView> {
    if has_entry(entries, row.projection, row.key) {
        entries.map_values(
            |e: EntryRowView|
                if is_entry(e, row.projection, row.key) {
                    row
                } else {
                    e
                },
        )
    } else {
        entries.push(row)
    }
}

/// Any entry but the one under this key.
pub open spec fn not_entry(projection: Seq<char>, key: Seq<u8>) -> spec_fn(EntryRowView) -> bool {
    |r: EntryRowView| !is_entry(r, projection, key)
}

/// Any entry but those of this projection.
pub open spec fn not_of_projection(projection: Seq<char>) -> spec_fn(EntryRowView) -> bool {
    |r: EntryRowView| r.projection != projection
}

/// The tables after one change.
pub open spec fn step(t: Tables, w: WriteView) -> Tables {
    match w {
        WriteView::InsertJob(row) => Tables { jobs: t.jobs.push(row), ..t },
        WriteView::UpdateJob(row) => Tables { jobs: replace_job(t.jobs, row), ..t },
        WriteView::InsertPartition(row) => Tables {
            partitions: insert_partition(t.partitions, row),
            ..t
        },
        WriteView::DeletePartition { queue, partition_key } => Tables {
            partitions: delete_partition(t.partitions, queue, partition_key),
            ..t
        },
        WriteView::PutCursor(row) => Tables { cursors: put_cursor(t.cursors, row), ..t },
        WriteView::InsertReceipt(row) => Tables { receipts: t.receipts.push(row), ..t },
        WriteView::SetReceiptExpiry { job_id, lease_token, lease_expires_at_ms } => Tables {
            receipts: set_receipt_expiry(t.receipts, job_id, lease_token, lease_expires_at_ms),
            ..t
        },
        WriteView::InsertTransaction(row) => Tables {
            transactions: t.transactions.push(row),
            ..t
        },
        WriteView::InsertEvent(row) => Tables { events: t.events.push(row), ..t },
        WriteView::PutProjection(row) => Tables {
            projections: put_projection(t.projections, row),
            ..t
        },
        WriteView::PutEntry(row) => Tables { entries: put_entry(t.entries, row), ..t },
        WriteView::DeleteEntry { projection, key } => Tables {
            entries: t.entries.filter(not_entry(projection, key)),
            ..t
        },
        WriteView::ClearEntries { projection } => Tables {
            entries: t.entries.filter(not_of_projection(projection)),
            ..t
        },
    }
}

/// The tables after a series of changes.
pub open spec fn replay(t: Tables, writes: Seq<WriteView>) -> Tables
    decreases writes.len(),
{
    if writes.len() == 0 {
        t
    } else {
        step(replay(t, writes.drop_last()), writes.last())
    }
}

/// A job that waits to be leased can be leased once more: its attempts do not
/// exceed their column.
pub open spec fn row_fits(r: JobRowView) -> bool {
    r.state is Pending || r.state is RetryWait ==> r.attempt < u32::MAX
}

/// Every job that waits to be leased can be leased once more.
pub open spec fn rows_fit(jobs: Seq<JobRowView>) -> bool {
    forall|i: int| 0 <= i < jobs.len() ==> row_fits(#[trigger] jobs[i])
}

/// What holds of every single row of `jobs`: the lease columns are set exactly
/// while the job is leased, the retry time exactly while it waits for a retry,
/// the terminal time exactly once it is finished, and no job is leased more
/// often than it has attempts.
pub open spec fn row_ok(r: JobRowView) -> bool {
    &&& r.enqueue_sequence >= 1
    &&& r.max_attempts >= 1
    &&& r.attempt <= r.max_attempts
    &&& (r.state is Pending || r.state is RetryWait) ==> r.attempt < r.max_attempts
    &&& r.state is Leased <==> r.lease_token is Some
    &&& r.state is Leased <==> r.worker_id is Some
    &&& r.state is Leased <==> r.lease_expires_at_ms is Some
    &&& r.state is RetryWait <==> r.retry_after_ms is Some
    &&& terminal(r.state) <==> r.terminal_at_ms is Some
}

/// What holds of every job alone.
pub open spec fn rows_ok(jobs: Seq<JobRowView>) -> bool {
    forall|i: int| 0 <= i < jobs.len() ==> row_ok(#[trigger] jobs[i])
}

/// The jobs have different identifiers.
pub open spec fn ids_distinct(jobs: Seq<JobRowView>) -> bool {
    forall|i: int, j: int|
        0 <= i < j < jobs.len() ==> (#[trigger] jobs[i]).job_id != (#[trigger] jobs[j]).job_id
}

/// The jobs stand in the order of their enqueue sequence.
pub open spec fn sequences_ascend(jobs: Seq<JobRowView>) -> bool {
    forall|i: int, j: int|
        0 <= i < j < jobs.len() ==> (#[trigger] jobs[i]).enqueue_sequence < (
        #[trigger] jobs[j]).enqueue_sequence
}

/// No partition is listed twice.
pub open spec fn partitions_distinct(partitions: Seq<PartitionRowView>) -> bool {
    forall|i: int, j: int|
        0 <= i < j < partitions.len() ==> (#[trigger] partitions[i]).queue != (
        #[trigger] partitions[j]).queue || partitions[i].partition_key
            != partitions[j].partition_key
}

/// The listed partitions are those with an unfinished job.
pub open spec fn partitions_exact(t: Tables) -> bool {
    forall|queue: Seq<char>, partition_key: Seq<char>|
        #[trigger] listed(t.partitions, queue, partition_key) <==> has_active(
            t.jobs,
            queue,
            partition_key,
        )
}

/// No queue has two cursors.
pub open spec fn cursors_distinct(cursors: Seq<CursorRowView>) -> bool {
    forall|i: int, j: int|
        0 <= i < j < cursors.len() ==> (#[trigger] cursors[i]).queue != (
        #[trigger] cursors[j]).queue
}

/// Every receipt belongs to a job and to a transaction of the store.
pub open spec fn receipts_owned(t: Tables) -> bool {
    forall|i: int|
        0 <= i < t.receipts.len() ==> has_job(t.jobs, (#[trigger] t.receipts[i]).job_id)
            && has_transaction(t.transactions, t.receipts[i].transaction_id)
}

/// No transaction has two receipts for one job.
pub open spec fn receipts_distinct(receipts: Seq<ReceiptRowView>) -> bool {
    forall|i: int, j: int|
        0 <= i < j < receipts.len() ==> (#[trigger] receipts[i]).transaction_id != (
        #[trigger] receipts[j]).transaction_id || receipts[i].job_id != receipts[j].job_id
}

/// The transactions have different identifiers and stand in the order of their
/// sequence.
pub open spec fn transactions_ascend(transactions: Seq<TransactionRowView>) -> bool {
    &&& forall|i: int|
        0 <= i < transactions.len() ==> (#[trigger] transactions[i]).transaction_sequence >= 1
    &&& forall|i: int, j: int|
        0 <= i < j < transactions.len() ==> (#[trigger] transactions[i]).transaction_id != (
        #[trigger] transactions[j]).transaction_id && transactions[i].transaction_sequence
            < transactions[j].transaction_sequence
}

/// The events stand in the order of their global sequence.
pub open spec fn events_ascend(events: Seq<EventRowView>) -> bool {
    &&& forall|i: int|
        0 <= i < events.len() ==> (#[trigger] events[i]).global_sequence >= 1
            && events[i].stream_version >= 1
    &&& forall|i: int, j: int|
        0 <= i < j < events.len() ==> (#[trigger] events[i]).global_sequence < (
        #[trigger] events[j]).global_sequence
}

/// The events are numbered from one on, over all streams and within each
/// stream, without a gap.
pub open spec fn events_numbered(events: Seq<EventRowView>) -> bool {
    forall|i: int|
        0 <= i < events.len() ==> (#[trigger] events[i]).global_sequence == i + 1
            && events[i].stream_version == stream_head(events.take(i), events[i].stream_id) + 1
}

/// Every event belongs to a transaction of the store.
pub open spec fn events_owned(
    events: Seq<EventRowView>,
    transactions: Seq<TransactionRowView>,
) -> bool {
    forall|i: int|
        0 <= i < events.len() ==> has_transaction(
            transactions,
            (#[trigger] events[i]).transaction_id,
        )
}

/// The projections have different names, and each has been patched.
pub open spec fn projections_ok(projections: Seq<ProjectionRowView>) -> bool {
    &&& forall|i: int| 0 <= i < projections.len() ==> (#[trigger] projections[i]).version >= 1
    &&& forall|i: int, j: int|
        0 <= i < j < projections.len() ==> (#[trigger] projections[i]).name != (
        #[trigger] projections[j]).name
}

/// No two entries of a projection stand under one key.
pub open spec fn entries_distinct(entries: Seq<EntryRowView>) -> bool {
    forall|i: int, j: int|
        0 <= i < j < entries.len() ==> !is_entry(
            #[trigger] entries[i],
            (#[trigger] entries[j]).projection,
            entries[j].key,
        )
}

/// Every entry belongs to a projection of the store.
pub open spec fn entries_owned(
    entries: Seq<EntryRowView>,
    projections: Seq<ProjectionRowView>,
) -> bool {
    forall|i: int|
        0 <= i < entries.len() ==> has_projection(projections, (#[trigger] entries[i]).projection)
}

/// What the keys, the order and the ranges of the stored columns give: no two
/// rows share a key, and rows that are numbered stand in that order. Every
/// operation works on such tables.
pub open spec fn sound(t: Tables) -> bool {
    &&& rows_fit(t.jobs)
    &&& ids_distinct(t.jobs)
    &&& sequences_ascend(t.jobs)
    &&& partitions_distinct(t.partitions)
    &&& cursors_distinct(t.cursors)
    &&& receipts_distinct(t.receipts)
    &&& transactions_ascend(t.transactions)
    &&& events_ascend(t.events)
    &&& projections_ok(t.projections)
    &&& entries_distinct(t.entries)
}

/// What holds besides of tables that have been changed by operations of this
/// store alone: the columns of every job agree with its state, the listed
/// partitions are those with an unfinished job, nothing refers to a row that is
/// not there, and the events are numbered without a gap.
pub open spec fn consistent(t: Tables) -> bool {
    &&& sound(t)
    &&& rows_ok(t.jobs)
    &&& partitions_exact(t)
    &&& receipts_owned(t)
    &&& events_numbered(t.events)
    &&& events_owned(t.events, t.transactions)
    &&& entries_owned(t.entries, t.projections)
}

/// The job at an index is found under its identifier.
pub proof fn lemma_find_at(jobs: Seq<JobRowView>, i: int)
    requires
        ids_distinct(jobs),
        0 <= i < jobs.len(),
    ensures
        find_job(jobs, jobs[i].job_id) == Some(jobs[i]),
{
    let k = choose|k: int| 0 <= k < jobs.len() && (#[trigger] jobs[k]).job_id == jobs[i].job_id;
    assert(jobs[i].job_id == jobs[i].job_id);
    assert(0 <= k < jobs.len() && jobs[k].job_id == jobs[i].job_id);
    if k < i {
        assert(jobs[k].job_id != jobs[i].job_id);
    } else if i < k {
        assert(jobs[i].job_id != jobs[k].job_id);
    }
}

/// A job that is found stands at some index, under its identifier.
pub proof fn lemma_found(jobs: Seq<JobRowView>, job_id: Id) -> (i: int)
    requires
        has_job(jobs, job_id),
    ensures
        0 <= i < jobs.len(),
        jobs[i].job_id == job_id,
        find_job(jobs, job_id) == Some(jobs[i]),
{
    choose|k: int| 0 <= k < jobs.len() && (#[trigger] jobs[k]).job_id == job_id
}

/// Replacing a job keeps the number of jobs, their identifiers and all other
/// jobs, and the new row is found.
pub proof fn lemma_replace_job(jobs: Seq<JobRowView>, row: JobRowView)
    requires
        ids_distinct(jobs),
        has_job(jobs, row.job_id),
    ensures
        replace_job(jobs, row).len() == jobs.len(),
        ids_distinct(replace_job(jobs, row)),
        find_job(replace_job(jobs, row), row.job_id) == Some(row),
        forall|id: Id| #[trigger]
            has_job(replace_job(jobs, row), id) <==> has_job(jobs, id),
        forall|id: Id|
            id != row.job_id ==> #[trigger] find_job(replace_job(jobs, row), id) == find_job(
                jobs,
                id,
            ),
{
    let after = replace_job(jobs, row);
    assert forall|i: int| 0 <= i < jobs.len() implies (#[trigger] after[i]).job_id
        == jobs[i].job_id by {}
    assert forall|i: int, j: int| 0 <= i < j < after.len() implies (#[trigger] after[i]).job_id != (
    #[trigger] after[j]).job_id by {
        assert(jobs[i].job_id != jobs[j].job_id);
    }
    let k = lemma_found(jobs, row.job_id);
    assert(after[k] == row);
    lemma_find_at(after, k);
    assert forall|id: Id| #[trigger] has_job(after, id) <==> has_job(jobs, id) by {
        if has_job(jobs, id) {
            let i = lemma_found(jobs, id);
            assert(after[i].job_id == id);
        }
        if has_job(after, id) {
            let i = lemma_found(after, id);
            assert(jobs[i].job_id == id);
        }
    }
    assert forall|id: Id| id != row.job_id implies #[trigger] find_job(after, id) == find_job(
        jobs,
        id,
    ) by {
        assert(has_job(after, id) <==> has_job(jobs, id));
        if has_job(jobs, id) {
            let i = lemma_found(jobs, id);
            assert(after[i] == jobs[i]);
            lemma_find_at(after, i);
        }
    }
}

} // verus!
