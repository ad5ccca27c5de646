//! The rows of the tables other than `jobs`, and the changes of tables.
use vstd::prelude::*;

use crate::error::{StorageError, StorageErrorView};
use crate::id::Id;
use crate::row::{id_blob, id_from_blob, id_of_blob, lemma_id_blob, JobRow};
use crate::tables::{
    CursorRowView, EntryRowView, EventRowView, PartitionRowView, ProjectionRowView, ReceiptRowView,
    TransactionRowView, WriteView,
};
use crate::values::{copy_bytes, copy_opt_text, opt_text};

verus! {

/// A partition with unfinished jobs.
#[derive(PartialEq, Eq, Debug)]
pub struct PartitionRow {
    pub queue: String,
    pub partition_key: String,
    pub first_active_sequence: i64,
}

/// The partition that a queue leased from last.
#[derive(PartialEq, Eq, Debug)]
pub struct CursorRow {
    pub queue: String,
    pub last_partition_key: String,
}

/// One lease as it was granted.
#[derive(PartialEq, Eq, Debug)]
pub struct ReceiptRow {
    pub transaction_id: Id,
    pub job_id: Id,
    pub lease_token: Id,
    pub attempt: u32,
    pub worker_id: String,
    pub lease_expires_at_ms: i64,
}

/// A durable transaction.
#[derive(PartialEq, Eq, Debug)]
pub struct TransactionRow {
    pub transaction_id: Id,
    pub transaction_sequence: i64,
    pub committed_at_ms: i64,
    pub correlation_id: Option<String>,
    pub metadata: Vec<u8>,
    pub request_digest: Vec<u8>,
    pub operation_count: i64,
}

/// One event of a stream.
#[derive(PartialEq, Eq, Debug)]
pub struct EventRow {
    pub transaction_id: Id,
    pub global_sequence: i64,
    pub stream_version: i64,
    pub event_id: Id,
    pub stream_id: String,
    pub event_type: String,
    pub occurred_at_ms: i64,
    pub payload: Vec<u8>,
}

/// The version of one projection.
#[derive(PartialEq, Eq, Debug)]
pub struct ProjectionRow {
    pub name: String,
    pub version: i64,
}

/// One entry of a projection.
#[derive(PartialEq, Eq, Debug)]
pub struct EntryRow {
    pub projection: String,
    pub key: Vec<u8>,
    pub value: Vec<u8>,
}

/// A change of one table.
#[derive(PartialEq, Eq, Debug)]
pub enum Write {
    InsertJob(JobRow),
    UpdateJob(JobRow),
    InsertPartition(PartitionRow),
    DeletePartition { queue: String, partition_key: String },
    PutCursor(CursorRow),
    InsertReceipt(ReceiptRow),
    SetReceiptExpiry { job_id: Id, lease_token: Id, lease_expires_at_ms: i64 },
    InsertTransaction(TransactionRow),
    InsertEvent(EventRow),
    PutProjection(ProjectionRow),
    PutEntry(EntryRow),
    DeleteEntry { projection: String, key: Vec<u8> },
    ClearEntries { projection: String },
}

impl View for PartitionRow {
    type V = PartitionRowView;

    open spec fn view(&self) -> PartitionRowView {
        PartitionRowView {
            queue: self.queue@,
            partition_key: self.partition_key@,
            first_active_sequence: self.first_active_sequence,
        }
    }
}

impl View for CursorRow {
    type V = CursorRowView;

    open spec fn view(&self) -> CursorRowView {
        CursorRowView { queue: self.queue@, last_partition_key: self.last_partition_key@ }
    }
}

impl View for ReceiptRow {
    type V = ReceiptRowView;

    open spec fn view(&self) -> ReceiptRowView {
        ReceiptRowView {
            transaction_id: self.transaction_id,
            job_id: self.job_id,
            lease_token: self.lease_token,
            attempt: self.attempt,
            worker_id: self.worker_id@,
            lease_expires_at_ms: self.lease_expires_at_ms,
        }
    }
}

impl View for TransactionRow {
    type V = TransactionRowView;

    open spec fn view(&self) -> TransactionRowView {
        TransactionRowView {
            transaction_id: self.transaction_id,
            transaction_sequence: self.transaction_sequence,
            committed_at_ms: self.committed_at_ms,
            correlation_id: opt_text(self.correlation_id),
            metadata: self.metadata@,
            request_digest: self.request_digest@,
            operation_count: self.operation_count,
        }
    }
}

impl View for EventRow {
    type V = EventRowView;

    open spec fn view(&self) -> EventRowView {
        EventRowView {
            transaction_id: self.transaction_id,
            global_sequence: self.global_sequence,
            stream_version: self.stream_version,
            event_id: self.event_id,
            stream_id: self.stream_id@,
            event_type: self.event_type@,
            occurred_at_ms: self.occurred_at_ms,
            payload: self.payload@,
        }
    }
}

impl View for ProjectionRow {
    type V = ProjectionRowView;

    open spec fn view(&self) -> ProjectionRowView {
        ProjectionRowView { name: self.name@, version: self.version }
    }
}

impl View for EntryRow {
    type V = EntryRowView;

    open spec fn view(&self) -> EntryRowView {
        EntryRowView { projection: self.projection@, key: self.key@, value: self.value@ }
    }
}

impl View for Write {
    type V = WriteView;

    open spec fn view(&self) -> WriteView {
        match *self {
            Write::InsertJob(r) => WriteView::InsertJob(r@),
            Write::UpdateJob(r) => WriteView::UpdateJob(r@),
            Write::InsertPartition(r) => WriteView::InsertPartition(r@),
            Write::DeletePartition { queue, partition_key } => WriteView::DeletePartition {
                queue: queue@,
                partition_key: partition_key@,
            },
            Write::PutCursor(r) => WriteView::PutCursor(r@),
            Write::InsertReceipt(r) => WriteView::InsertReceipt(r@),
            Write::SetReceiptExpiry { job_id, lease_token, lease_expires_at_ms } =>
                WriteView::SetReceiptExpiry { job_id, lease_token, lease_expires_at_ms },
            Write::InsertTransaction(r) => WriteView::InsertTransaction(r@),
            Write::InsertEvent(r) => WriteView::InsertEvent(r@),
            Write::PutProjection(r) => WriteView::PutProjection(r@),
            Write::PutEntry(r) => WriteView::PutEntry(r@),
            Write::DeleteEntry { projection, key } => WriteView::DeleteEntry {
                projection: projection@,
                key: key@,
            },
            Write::ClearEntries { projection } => WriteView::ClearEntries {
                projection: projection@,
            },
        }
    }
}

impl Clone for PartitionRow {
    fn clone(&self) -> (r: PartitionRow)
        ensures
            r@ == self@,
    {
        PartitionRow {
            queue: self.queue.clone(),
            partition_key: self.partition_key.clone(),
            first_active_sequence: self.first_active_sequence,
        }
    }
}

impl Clone for CursorRow {
    fn clone(&self) -> (r: CursorRow)
        ensures
            r@ == self@,
    {
        CursorRow {
            queue: self.queue.clone(),
            last_partition_key: self.last_partition_key.clone(),
        }
    }
}

impl Clone for ReceiptRow {
    fn clone(&self) -> (r: ReceiptRow)
        ensures
            r@ == self@,
    {
        ReceiptRow {
            transaction_id: self.transaction_id,
            job_id: self.job_id,
            lease_token: self.lease_token,
            attempt: self.attempt,
            worker_id: self.worker_id.clone(),
            lease_expires_at_ms: self.lease_expires_at_ms,
        }
    }
}

impl Clone for TransactionRow {
    fn clone(&self) -> (r: TransactionRow)
        ensures
            r@ == self@,
    {
        TransactionRow {
            transaction_id: self.transaction_id,
            transaction_sequence: self.transaction_sequence,
            committed_at_ms: self.committed_at_ms,
            correlation_id: copy_opt_text(&self.correlation_id),
            metadata: copy_bytes(&self.metadata),
            request_digest: copy_bytes(&self.request_digest),
            operation_count: self.operation_count,
        }
    }
}

impl Clone for EventRow {
    fn clone(&self) -> (r: EventRow)
        ensures
            r@ == self@,
    {
        EventRow {
            transaction_id: self.transaction_id,
            global_sequence: self.global_sequence,
            stream_version: self.stream_version,
            event_id: self.event_id,
            stream_id: self.stream_id.clone(),
            event_type: self.event_type.clone(),
            occurred_at_ms: self.occurred_at_ms,
            payload: copy_bytes(&self.payload),
        }
    }
}

impl Clone for ProjectionRow {
    fn clone(&self) -> (r: ProjectionRow)
        ensures
            r@ == self@,
    {
        ProjectionRow { name: self.name.clone(), version: self.version }
    }
}

impl Clone for EntryRow {
    fn clone(&self) -> (r: EntryRow)
        ensures
            r@ == self@,
    {
        EntryRow {
            projection: self.projection.clone(),
            key: copy_bytes(&self.key),
            value: copy_bytes(&self.value),
        }
    }
}

impl Clone for Write {
    fn clone(&self) -> (r: Write)
        ensures
            r@ == self@,
    {
        match self {
            Write::InsertJob(r) => Write::InsertJob(r.clone()),
            Write::UpdateJob(r) => Write::UpdateJob(r.clone()),
            Write::InsertPartition(r) => Write::InsertPartition(r.clone()),
            Write::DeletePartition { queue, partition_key } => Write::DeletePartition {
                queue: queue.clone(),
                partition_key: partition_key.clone(),
            },
            Write::PutCursor(r) => Write::PutCursor(r.clone()),
            Write::InsertReceipt(r) => Write::InsertReceipt(r.clone()),
            Write::SetReceiptExpiry { job_id, lease_token, lease_expires_at_ms } =>
                Write::SetReceiptExpiry {
                    job_id: *job_id,
                    lease_token: *lease_token,
                    lease_expires_at_ms: *lease_expires_at_ms,
                },
            Write::InsertTransaction(r) => Write::InsertTransaction(r.clone()),
            Write::InsertEvent(r) => Write::InsertEvent(r.clone()),
            Write::PutProjection(r) => Write::PutProjection(r.clone()),
            Write::PutEntry(r) => Write::PutEntry(r.clone()),
            Write::DeleteEntry { projection, key } => Write::DeleteEntry {
                projection: projection.clone(),
                key: copy_bytes(key),
            },
            Write::ClearEntries { projection } => Write::ClearEntries {
                projection: projection.clone(),
            },
        }
    }
}

/// The stored columns of one receipt, as the database hands them out.
#[derive(PartialEq, Eq, Debug)]
pub struct ReceiptColumns {
    pub transaction_id: Vec<u8>,
    pub job_id: Vec<u8>,
    pub lease_token: Vec<u8>,
    pub attempt: i64,
    pub worker_id: String,
    pub lease_expires_at_ms: i64,
}

/// The receipt that stored columns decode to. A receipt whose transaction or
/// job column is not an identifier belongs to no transaction or to no job, so
/// that nothing ever finds it: it decodes to none. The attempt keeps its low 32
/// bits.
pub open spec fn decoded_receipt(c: ReceiptColumns) -> Result<
    Option<ReceiptRowView>,
    StorageErrorView,
> {
    match (id_of_blob(c.transaction_id@), id_of_blob(c.job_id@), id_of_blob(c.lease_token@)) {
        (Ok(transaction_id), Ok(job_id), Ok(lease_token)) => Ok(
            Some(
                ReceiptRowView {
                    transaction_id,
                    job_id,
                    lease_token,
                    attempt: c.attempt as u32,
                    worker_id: c.worker_id@,
                    lease_expires_at_ms: c.lease_expires_at_ms,
                },
            ),
        ),
        (Ok(_), Ok(_), Err(e)) => Err(e),
        _ => Ok(None),
    }
}

/// Decodes the stored columns of a receipt.
pub fn row_to_receipt(c: ReceiptColumns) -> (r: Result<Option<ReceiptRow>, StorageError>)
    ensures
        match r {
            Ok(Some(row)) => decoded_receipt(c) == Ok::<Option<ReceiptRowView>, StorageErrorView>(
                Some(row@),
            ),
            Ok(None) => decoded_receipt(c) == Ok::<Option<ReceiptRowView>, StorageErrorView>(None),
            Err(e) => decoded_receipt(c) == Err::<Option<ReceiptRowView>, StorageErrorView>(e@),
        },
{
    let transaction_id = match id_from_blob(c.transaction_id) {
        Ok(id) => id,
        Err(_) => return Ok(None),
    };
    let job_id = match id_from_blob(c.job_id) {
        Ok(id) => id,
        Err(_) => return Ok(None),
    };
    let lease_token = match id_from_blob(c.lease_token) {
        Ok(id) => id,
        Err(e) => return Err(e),
    };
    Ok(
        Some(
            ReceiptRow {
                transaction_id,
                job_id,
                lease_token,
                attempt: #[verifier::truncate] (c.attempt as u32),
                worker_id: c.worker_id,
                lease_expires_at_ms: c.lease_expires_at_ms,
            },
        ),
    )
}

/// The columns `c` store the receipt `r`.
pub open spec fn stored_receipt(r: ReceiptRowView, c: ReceiptColumns) -> bool {
    &&& c.transaction_id@ == id_blob(r.transaction_id)
    &&& c.job_id@ == id_blob(r.job_id)
    &&& c.lease_token@ == id_blob(r.lease_token)
    &&& c.attempt == r.attempt
    &&& c.worker_id@ == r.worker_id
    &&& c.lease_expires_at_ms == r.lease_expires_at_ms
}

/// Encodes a receipt for its stored columns.
pub fn receipt_to_row(r: &ReceiptRow) -> (c: ReceiptColumns)
    ensures
        stored_receipt(r@, c),
{
    ReceiptColumns {
        transaction_id: r.transaction_id.as_bytes(),
        job_id: r.job_id.as_bytes(),
        lease_token: r.lease_token.as_bytes(),
        attempt: r.attempt as i64,
        worker_id: r.worker_id.clone(),
        lease_expires_at_ms: r.lease_expires_at_ms,
    }
}

/// Stored columns read back as the receipt that they store.
pub proof fn law_stored_receipts_read_back(r: ReceiptRowView, c: ReceiptColumns)
    requires
        stored_receipt(r, c),
    ensures
        decoded_receipt(c) == Ok::<Option<ReceiptRowView>, StorageErrorView>(Some(r)),
{
    lemma_id_blob(r.transaction_id);
    lemma_id_blob(r.job_id);
    lemma_id_blob(r.lease_token);
}

/// The views of a list of partitions.
pub open spec fn partition_views(s: Seq<PartitionRow>) -> Seq<PartitionRowView> {
    s.map_values(|r: PartitionRow| r@)
}

/// The views of a list of cursors.
pub open spec fn cursor_views(s: Seq<CursorRow>) -> Seq<CursorRowView> {
    s.map_values(|r: CursorRow| r@)
}

/// The views of a list of receipts.
pub open spec fn receipt_views(s: Seq<ReceiptRow>) -> Seq<ReceiptRowView> {
    s.map_values(|r: ReceiptRow| r@)
}

/// The views of a list of transactions.
pub open spec fn transaction_views(s: Seq<TransactionRow>) -> Seq<TransactionRowView> {
    s.map_values(|r: TransactionRow| r@)
}

/// The views of a list of events.
pub open spec fn event_views(s: Seq<EventRow>) -> Seq<EventRowView> {
    s.map_values(|r: EventRow| r@)
}

/// The views of a list of projections.
pub open spec fn projection_views(s: Seq<ProjectionRow>) -> Seq<ProjectionRowView> {
    s.map_values(|r: ProjectionRow| r@)
}

/// The views of a list of projection entries.
pub open spec fn entry_views(s: Seq<EntryRow>) -> Seq<EntryRowView> {
    s.map_values(|r: EntryRow| r@)
}

/// The views of a list of changes.
pub open spec fn write_views(s: Seq<Write>) -> Seq<WriteView> {
    s.map_values(|w: Write| w@)
}

} // verus!
