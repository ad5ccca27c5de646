//! Building a store from rows that were read from a database.
//!
//! A store is built from any tables that are [`sound`], which the keys, the
//! order and the ranges of the stored columns give. Whether the rows agree with
//! each other beyond that is not asked here: operations work on them as they
//! stand.
use vstd::prelude::*;

use crate::error::{StorageError, StorageErrorView};
use crate::row::{row_views, JobRow};
use crate::rows::{
    cursor_views, entry_views, event_views, partition_views, projection_views, receipt_views,
    transaction_views, CursorRow, EntryRow, EventRow, PartitionRow, ProjectionRow, ReceiptRow,
    TransactionRow,
};
use crate::state::JobState;
use crate::store::ControlPlaneStore;
use crate::tables::{
    cursors_distinct, entries_distinct, events_ascend, ids_distinct, is_entry, partitions_distinct,
    projections_ok, receipts_distinct, row_fits, rows_fit, sequences_ascend, sound,
    transactions_ascend, Tables, WriteView,
};
use crate::values::same_bytes;

verus! {

/// The tables made of these rows.
pub open spec fn tables_of(rows: StoredRows) -> Tables {
    Tables {
        jobs: row_views(rows.jobs@),
        partitions: partition_views(rows.partitions@),
        cursors: cursor_views(rows.cursors@),
        receipts: receipt_views(rows.receipts@),
        transactions: transaction_views(rows.transactions@),
        events: event_views(rows.events@),
        projections: projection_views(rows.projections@),
        entries: entry_views(rows.entries@),
    }
}

/// The rows of a database: jobs in the order of their enqueue sequence,
/// transactions in that of their sequence, events in that of their global
/// sequence, and the others in any order.
#[derive(PartialEq, Eq, Debug)]
pub struct StoredRows {
    pub jobs: Vec<JobRow>,
    pub partitions: Vec<PartitionRow>,
    pub cursors: Vec<CursorRow>,
    pub receipts: Vec<ReceiptRow>,
    pub transactions: Vec<TransactionRow>,
    pub events: Vec<EventRow>,
    pub projections: Vec<ProjectionRow>,
    pub entries: Vec<EntryRow>,
}

fn job_row_fits(r: &JobRow) -> (ok: bool)
    ensures
        ok == row_fits(r@),
{
    !(r.state == JobState::Pending || r.state == JobState::RetryWait) || r.attempt < u32::MAX
}

fn jobs_ok(rows: &Vec<JobRow>) -> (ok: bool)
    ensures
        ok == (rows_fit(row_views(rows@)) && ids_distinct(row_views(rows@)) && sequences_ascend(
            row_views(rows@),
        )),
{
    let ghost all = row_views(rows@);
    let mut i: usize = 0;
    while i < rows.len()
        invariant
            i <= rows@.len(),
            all == row_views(rows@),
            forall|k: int| 0 <= k < i ==> row_fits(#[trigger] all[k]),
            forall|a: int, b: int|
                0 <= a < b < i ==> (#[trigger] all[a]).job_id != (#[trigger] all[b]).job_id
                    && all[a].enqueue_sequence < all[b].enqueue_sequence,
        decreases rows@.len() - i,
    {
        assert(all[i as int] == rows@[i as int]@);
        if !job_row_fits(&rows[i]) {
            return false;
        }
        let mut j: usize = 0;
        while j < i
            invariant
                j <= i < rows@.len(),
                all == row_views(rows@),
                forall|a: int|
                    0 <= a < j ==> (#[trigger] all[a]).job_id != all[i as int].job_id
                        && all[a].enqueue_sequence < all[i as int].enqueue_sequence,
            decreases i - j,
        {
            assert(all[i as int] == rows@[i as int]@ && all[j as int] == rows@[j as int]@);
            if rows[j].job_id == rows[i].job_id || rows[j].enqueue_sequence
                >= rows[i].enqueue_sequence {
                return false;
            }
            j += 1;
        }
        i += 1;
    }
    true
}

fn partition_rows_ok(rows: &Vec<PartitionRow>) -> (ok: bool)
    ensures
        ok == partitions_distinct(partition_views(rows@)),
{
    let ghost all = partition_views(rows@);
    let mut i: usize = 0;
    while i < rows.len()
        invariant
            i <= rows@.len(),
            all == partition_views(rows@),
            forall|a: int, b: int|
                0 <= a < b < i ==> (#[trigger] all[a]).queue != (#[trigger] all[b]).queue
                    || all[a].partition_key != all[b].partition_key,
        decreases rows@.len() - i,
    {
        let mut j: usize = 0;
        while j < i
            invariant
                j <= i < rows@.len(),
                all == partition_views(rows@),
                forall|a: int|
                    0 <= a < j ==> (#[trigger] all[a]).queue != all[i as int].queue
                        || all[a].partition_key != all[i as int].partition_key,
            decreases i - j,
        {
            assert(all[i as int] == rows@[i as int]@ && all[j as int] == rows@[j as int]@);
            if rows[j].queue == rows[i].queue && rows[j].partition_key == rows[i].partition_key {
                return false;
            }
            j += 1;
        }
        i += 1;
    }
    true
}

fn cursor_rows_ok(rows: &Vec<CursorRow>) -> (ok: bool)
    ensures
        ok == cursors_distinct(cursor_views(rows@)),
{
    let ghost all = cursor_views(rows@);
    let mut i: usize = 0;
    while i < rows.len()
        invariant
            i <= rows@.len(),
            all == cursor_views(rows@),
            forall|a: int, b: int|
                0 <= a < b < i ==> (#[trigger] all[a]).queue != (#[trigger] all[b]).queue,
        decreases rows@.len() - i,
    {
        let mut j: usize = 0;
        while j < i
            invariant
                j <= i < rows@.len(),
                all == cursor_views(rows@),
                forall|a: int| 0 <= a < j ==> (#[trigger] all[a]).queue != all[i as int].queue,
            decreases i - j,
        {
            assert(all[i as int] == rows@[i as int]@ && all[j as int] == rows@[j as int]@);
            if rows[j].queue == rows[i].queue {
                return false;
            }
            j += 1;
        }
        i += 1;
    }
    true
}

fn receipt_rows_ok(rows: &Vec<ReceiptRow>) -> (ok: bool)
    ensures
        ok == receipts_distinct(receipt_views(rows@)),
{
    let ghost all = receipt_views(rows@);
    let mut i: usize = 0;
    while i < rows.len()
        invariant
            i <= rows@.len(),
            all == receipt_views(rows@),
            forall|a: int, b: int|
                0 <= a < b < i ==> (#[trigger] all[a]).transaction_id != (
                #[trigger] all[b]).transaction_id || all[a].job_id != all[b].job_id,
        decreases rows@.len() - i,
    {
        let mut j: usize = 0;
        while j < i
            invariant
                j <= i < rows@.len(),
                all == receipt_views(rows@),
                forall|a: int|
                    0 <= a < j ==> (#[trigger] all[a]).transaction_id
                        != all[i as int].transaction_id || all[a].job_id != all[i as int].job_id,
            decreases i - j,
        {
            assert(all[i as int] == rows@[i as int]@ && all[j as int] == rows@[j as int]@);
            if rows[j].transaction_id == rows[i].transaction_id && rows[j].job_id
                == rows[i].job_id {
                return false;
            }
            j += 1;
        }
        i += 1;
    }
    true
}

fn transaction_rows_ok(rows: &Vec<TransactionRow>) -> (ok: bool)
    ensures
        ok == transactions_ascend(transaction_views(rows@)),
{
    let ghost all = transaction_views(rows@);
    let mut i: usize = 0;
    while i < rows.len()
        invariant
            i <= rows@.len(),
            all == transaction_views(rows@),
            forall|k: int| 0 <= k < i ==> (#[trigger] all[k]).transaction_sequence >= 1,
            forall|a: int, b: int|
                0 <= a < b < i ==> (#[trigger] all[a]).transaction_id != (
                #[trigger] all[b]).transaction_id && all[a].transaction_sequence
                    < all[b].transaction_sequence,
        decreases rows@.len() - i,
    {
        assert(all[i as int] == rows@[i as int]@);
        if rows[i].transaction_sequence < 1 {
            return false;
        }
        let mut j: usize = 0;
        while j < i
            invariant
                j <= i < rows@.len(),
                all == transaction_views(rows@),
                forall|a: int|
                    0 <= a < j ==> (#[trigger] all[a]).transaction_id
                        != all[i as int].transaction_id && all[a].transaction_sequence
                        < all[i as int].transaction_sequence,
            decreases i - j,
        {
            assert(all[i as int] == rows@[i as int]@ && all[j as int] == rows@[j as int]@);
            if rows[j].transaction_id == rows[i].transaction_id || rows[j].transaction_sequence
                >= rows[i].transaction_sequence {
                return false;
            }
            j += 1;
        }
        i += 1;
    }
    true
}

fn event_rows_ok(rows: &Vec<EventRow>) -> (ok: bool)
    ensures
        ok == events_ascend(event_views(rows@)),
{
    let ghost all = event_views(rows@);
    let mut i: usize = 0;
    while i < rows.len()
        invariant
            i <= rows@.len(),
            all == event_views(rows@),
            forall|k: int|
                0 <= k < i ==> (#[trigger] all[k]).global_sequence >= 1 && all[k].stream_version
                    >= 1,
            forall|a: int, b: int|
                0 <= a < b < i ==> (#[trigger] all[a]).global_sequence < (
                #[trigger] all[b]).global_sequence,
        decreases rows@.len() - i,
    {
        assert(all[i as int] == rows@[i as int]@);
        if rows[i].global_sequence < 1 || rows[i].stream_version < 1 {
            return false;
        }
        if i > 0 {
            assert(all[i - 1] == rows@[i - 1]@);
            if rows[i - 1].global_sequence >= rows[i].global_sequence {
                return false;
            }
        }
        i += 1;
    }
    true
}

fn projection_rows_ok(rows: &Vec<ProjectionRow>) -> (ok: bool)
    ensures
        ok == projections_ok(projection_views(rows@)),
{
    let ghost all = projection_views(rows@);
    let mut i: usize = 0;
    while i < rows.len()
        invariant
            i <= rows@.len(),
            all == projection_views(rows@),
            forall|k: int| 0 <= k < i ==> (#[trigger] all[k]).version >= 1,
            forall|a: int, b: int|
                0 <= a < b < i ==> (#[trigger] all[a]).name != (#[trigger] all[b]).name,
        decreases rows@.len() - i,
    {
        assert(all[i as int] == rows@[i as int]@);
        if rows[i].version < 1 {
            return false;
        }
        let mut j: usize = 0;
        while j < i
            invariant
                j <= i < rows@.len(),
                all == projection_views(rows@),
                forall|a: int| 0 <= a < j ==> (#[trigger] all[a]).name != all[i as int].name,
            decreases i - j,
        {
            assert(all[i as int] == rows@[i as int]@ && all[j as int] == rows@[j as int]@);
            if rows[j].name == rows[i].name {
                return false;
            }
            j += 1;
        }
        i += 1;
    }
    true
}

fn entry_rows_ok(rows: &Vec<EntryRow>) -> (ok: bool)
    ensures
        ok == entries_distinct(entry_views(rows@)),
{
    let ghost all = entry_views(rows@);
    let mut i: usize = 0;
    while i < rows.len()
        invariant
            i <= rows@.len(),
            all == entry_views(rows@),
            forall|a: int, b: int|
                0 <= a < b < i ==> !is_entry(
                    #[trigger] all[a],
                    (#[trigger] all[b]).projection,
                    all[b].key,
                ),
        decreases rows@.len() - i,
    {
        let mut j: usize = 0;
        while j < i
            invariant
                j <= i < rows@.len(),
                all == entry_views(rows@),
                forall|a: int|
                    0 <= a < j ==> !is_entry(
                        #[trigger] all[a],
                        all[i as int].projection,
                        all[i as int].key,
                    ),
            decreases i - j,
        {
            assert(all[i as int] == rows@[i as int]@ && all[j as int] == rows@[j as int]@);
            if rows[j].projection == rows[i].projection && same_bytes(&rows[j].key, &rows[i].key) {
                return false;
            }
            j += 1;
        }
        i += 1;
    }
    true
}

impl ControlPlaneStore {
    /// Builds a store from rows that were read from a database.
    pub fn load(rows: StoredRows) -> (r: Result<ControlPlaneStore, StorageError>)
        ensures
            match r {
                Ok(s) => {
                    &&& sound(tables_of(rows))
                    &&& s.wf()
                    &&& s@ == tables_of(rows)
                    &&& s.base() == s@
                    &&& s.pending() == Seq::<WriteView>::empty()
                },
                Err(e) => !sound(tables_of(rows)) && e@ == StorageErrorView::Sqlite(
                    "stored rows share a key or are out of order"@,
                ),
            },
    {
        let ok = jobs_ok(&rows.jobs) && partition_rows_ok(&rows.partitions) && cursor_rows_ok(
            &rows.cursors,
        ) && receipt_rows_ok(&rows.receipts) && transaction_rows_ok(&rows.transactions)
            && event_rows_ok(&rows.events) && projection_rows_ok(&rows.projections)
            && entry_rows_ok(&rows.entries);
        if !ok {
            return Err(StorageError::Sqlite("stored rows share a key or are out of order".to_owned()));
        }
        Ok(ControlPlaneStore::of_rows(rows))
    }
}

} // verus!
