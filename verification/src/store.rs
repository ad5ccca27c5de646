//! The store: the tables in memory, with a record of the changes made.
//!
//! Every change goes through one of the crate-private statements below, which
//! changes its table and records the change. Executing the recorded changes on
//! the tables that the store started from gives the tables it holds now.
use vstd::prelude::*;

use crate::id::Id;
use crate::load::{tables_of, StoredRows};
use crate::row::{row_views, JobRow};
use crate::rows::{
    cursor_views, entry_views, event_views, partition_views, projection_views, receipt_views,
    transaction_views, write_views, CursorRow, EntryRow, EventRow, PartitionRow, ProjectionRow,
    ReceiptRow, TransactionRow, Write,
};
use crate::tables::{
    cursors_distinct, delete_partition, find_cursor, find_job, has_cursor, has_entry, has_job,
    has_projection, has_transaction, ids_distinct, insert_partition, is_entry, lemma_find_at,
    listed, no_tables, not_entry, not_of_projection, not_partition, put_cursor, put_entry,
    put_projection, replace_job, replay, set_receipt_expiry, sound, step, Tables, WriteView,
};
use crate::values::{copy_bytes, opt_text, same_bytes};

verus! {

/// The store of events, projections and jobs.
pub struct ControlPlaneStore {
    jobs: Vec<JobRow>,
    partitions: Vec<PartitionRow>,
    cursors: Vec<CursorRow>,
    receipts: Vec<ReceiptRow>,
    transactions: Vec<TransactionRow>,
    events: Vec<EventRow>,
    projections: Vec<ProjectionRow>,
    entries: Vec<EntryRow>,
    writes: Vec<Write>,
    base: Ghost<Tables>,
}

impl View for ControlPlaneStore {
    type V = Tables;

    closed spec fn view(&self) -> Tables {
        Tables {
            jobs: row_views(self.jobs@),
            partitions: partition_views(self.partitions@),
            cursors: cursor_views(self.cursors@),
            receipts: receipt_views(self.receipts@),
            transactions: transaction_views(self.transactions@),
            events: event_views(self.events@),
            projections: projection_views(self.projections@),
            entries: entry_views(self.entries@),
        }
    }
}

proof fn lemma_record(base: Tables, before: Seq<Write>, after: Seq<Write>, w: Write)
    requires
        after == before.push(w),
    ensures
        replay(base, write_views(after)) == step(replay(base, write_views(before)), w@),
{
    assert(write_views(after).drop_last() =~= write_views(before));
    assert(write_views(after).last() == w@);
}

impl ControlPlaneStore {
    /// The tables that this store started from, or that its changes were last
    /// taken at.
    pub closed spec fn base(&self) -> Tables {
        self.base@
    }

    /// The changes made since then.
    pub closed spec fn pending(&self) -> Seq<WriteView> {
        write_views(self.writes@)
    }

    /// The recorded changes lead from the base to the present tables.
    pub open spec fn recorded(&self) -> bool {
        self@ == replay(self.base(), self.pending())
    }

    /// The state of a store between any two operations.
    pub open spec fn wf(&self) -> bool {
        sound(self@) && self.recorded()
    }

    /// A new store, with empty tables.
    pub fn new() -> (s: ControlPlaneStore)
        ensures
            s.wf(),
            s@ == no_tables(),
            s.base() == no_tables(),
            s.pending() == Seq::<WriteView>::empty(),
    {
        let s = ControlPlaneStore {
            jobs: Vec::new(),
            partitions: Vec::new(),
            cursors: Vec::new(),
            receipts: Vec::new(),
            transactions: Vec::new(),
            events: Vec::new(),
            projections: Vec::new(),
            entries: Vec::new(),
            writes: Vec::new(),
            base: Ghost(no_tables()),
        };
        assert(s@ =~= no_tables());
        assert(s.pending() =~= Seq::<WriteView>::empty());
        s
    }

    /// The store that holds these rows.
    pub(crate) fn of_rows(rows: StoredRows) -> (s: ControlPlaneStore)
        ensures
            s@ == tables_of(rows),
            s.recorded(),
            s.base() == s@,
            s.pending() == Seq::<WriteView>::empty(),
    {
        let s = ControlPlaneStore {
            jobs: rows.jobs,
            partitions: rows.partitions,
            cursors: rows.cursors,
            receipts: rows.receipts,
            transactions: rows.transactions,
            events: rows.events,
            projections: rows.projections,
            entries: rows.entries,
            writes: Vec::new(),
            base: Ghost(tables_of(rows)),
        };
        assert(s@ =~= tables_of(rows));
        assert(s.pending() =~= Seq::<WriteView>::empty());
        s
    }

    /// A copy of this store.
    pub(crate) fn duplicate(&self) -> (s: ControlPlaneStore)
        ensures
            s@ == self@,
            s.base() == self.base(),
            s.pending() == self.pending(),
    {
        let s = ControlPlaneStore {
            jobs: self.jobs.clone(),
            partitions: self.partitions.clone(),
            cursors: self.cursors.clone(),
            receipts: self.receipts.clone(),
            transactions: self.transactions.clone(),
            events: self.events.clone(),
            projections: self.projections.clone(),
            entries: self.entries.clone(),
            writes: self.writes.clone(),
            base: Ghost(self.base@),
        };
        proof {
            assert(row_views(s.jobs@) =~= row_views(self.jobs@));
            assert(partition_views(s.partitions@) =~= partition_views(self.partitions@));
            assert(cursor_views(s.cursors@) =~= cursor_views(self.cursors@));
            assert(receipt_views(s.receipts@) =~= receipt_views(self.receipts@));
            assert(transaction_views(s.transactions@) =~= transaction_views(self.transactions@));
            assert(event_views(s.events@) =~= event_views(self.events@));
            assert(projection_views(s.projections@) =~= projection_views(self.projections@));
            assert(entry_views(s.entries@) =~= entry_views(self.entries@));
            assert(write_views(s.writes@) =~= write_views(self.writes@));
        }
        s
    }

    /// Hands out the changes recorded so far and starts a new record. Executed
    /// in order on the base, they give the present tables.
    pub fn take_writes(&mut self) -> (writes: Vec<Write>)
        requires
            old(self).wf(),
        ensures
            final(self).wf(),
            final(self)@ == old(self)@,
            write_views(writes@) == old(self).pending(),
            replay(old(self).base(), write_views(writes@)) == final(self)@,
            final(self).base() == final(self)@,
            final(self).pending() == Seq::<WriteView>::empty(),
    {
        let mut writes: Vec<Write> = Vec::new();
        std::mem::swap(&mut writes, &mut self.writes);
        self.base = Ghost(old(self)@);
        assert(self.pending() =~= Seq::<WriteView>::empty());
        writes
    }

    /// The rows of `jobs`, in enqueue order.
    pub fn job_rows(&self) -> (rows: &Vec<JobRow>)
        ensures
            row_views(rows@) == self@.jobs,
    {
        &self.jobs
    }

    /// The rows of `active_partitions`.
    pub fn partition_rows(&self) -> (rows: &Vec<PartitionRow>)
        ensures
            partition_views(rows@) == self@.partitions,
    {
        &self.partitions
    }

    /// The rows of `queue_cursors`.
    pub fn cursor_rows(&self) -> (rows: &Vec<CursorRow>)
        ensures
            cursor_views(rows@) == self@.cursors,
    {
        &self.cursors
    }

    /// The rows of `claim_receipts`.
    pub fn receipt_rows(&self) -> (rows: &Vec<ReceiptRow>)
        ensures
            receipt_views(rows@) == self@.receipts,
    {
        &self.receipts
    }

    /// The rows of `transactions`.
    pub fn transaction_rows(&self) -> (rows: &Vec<TransactionRow>)
        ensures
            transaction_views(rows@) == self@.transactions,
    {
        &self.transactions
    }

    /// The rows of `events`, oldest first.
    pub fn event_rows(&self) -> (rows: &Vec<EventRow>)
        ensures
            event_views(rows@) == self@.events,
    {
        &self.events
    }

    /// The rows of `projections`.
    pub fn projection_rows(&self) -> (rows: &Vec<ProjectionRow>)
        ensures
            projection_views(rows@) == self@.projections,
    {
        &self.projections
    }

    /// The rows of `projection_entries`.
    pub fn entry_rows(&self) -> (rows: &Vec<EntryRow>)
        ensures
            entry_views(rows@) == self@.entries,
    {
        &self.entries
    }

    /// The index of the job with this identifier.
    fn job_index(&self, job_id: Id) -> (r: Option<usize>)
        ensures
            match r {
                Some(i) => i < self.jobs@.len() && self.jobs@[i as int]@.job_id == job_id,
                None => !has_job(self@.jobs, job_id),
            },
    {
        let mut i: usize = 0;
        while i < self.jobs.len()
            invariant
                i <= self.jobs@.len(),
                forall|j: int| 0 <= j < i ==> (#[trigger] self@.jobs[j]).job_id != job_id,
            decreases self.jobs@.len() - i,
        {
            if self.jobs[i].job_id == job_id {
                return Some(i);
            }
            assert(self@.jobs[i as int] == self.jobs@[i as int]@);
            i += 1;
        }
        None
    }

    /// Loads the job with this identifier.
    pub fn load_job(&self, job_id: Id) -> (r: Option<JobRow>)
        requires
            self.wf(),
        ensures
            match r {
                Some(row) => find_job(self@.jobs, job_id) == Some(row@),
                None => find_job(self@.jobs, job_id) is None,
            },
    {
        match self.job_index(job_id) {
            Some(i) => {
                proof {
                    assert(self@.jobs[i as int] == self.jobs@[i as int]@);
                    lemma_find_at(self@.jobs, i as int);
                }
                Some(self.jobs[i].clone())
            }
            None => None,
        }
    }

    /// `INSERT INTO jobs`.
    pub(crate) fn insert_job(&mut self, row: JobRow)
        requires
            old(self).recorded(),
        ensures
            final(self).recorded(),
            final(self).base() == old(self).base(),
            final(self)@ == step(old(self)@, WriteView::InsertJob(row@)),
    {
        let w = Write::InsertJob(row.clone());
        self.jobs.push(row);
        self.writes.push(w);
        proof {
            lemma_record(self.base@, old(self).writes@, self.writes@, w);
            assert(self@ =~= step(old(self)@, w@));
        }
    }

    /// `UPDATE jobs ... WHERE job_id = ?`.
    pub(crate) fn update_job(&mut self, row: JobRow)
        requires
            old(self).recorded(),
            ids_distinct(old(self)@.jobs),
            has_job(old(self)@.jobs, row@.job_id),
        ensures
            final(self).recorded(),
            final(self).base() == old(self).base(),
            final(self)@ == step(old(self)@, WriteView::UpdateJob(row@)),
    {
        let w = Write::UpdateJob(row.clone());
        if let Some(i) = self.job_index(row.job_id) {
            self.jobs.set(i, row);
            self.writes.push(w);
            proof {
                lemma_record(self.base@, old(self).writes@, self.writes@, w);
                let before = old(self)@.jobs;
                let after = self@.jobs;
                assert(before[i as int] == old(self).jobs@[i as int]@);
                assert forall|j: int| 0 <= j < before.len() implies after[j] == replace_job(
                    before,
                    row@,
                )[j] by {
                    assert(before[j] == old(self).jobs@[j]@);
                    if j < i {
                        assert(before[j].job_id != before[i as int].job_id);
                    } else if i < j {
                        assert(before[i as int].job_id != before[j].job_id);
                    }
                }
                assert(after =~= replace_job(before, row@));
                assert(self@ =~= step(old(self)@, w@));
            }
        }
    }

    fn lists(&self, queue: &str, partition_key: &str) -> (r: bool)
        ensures
            r == listed(self@.partitions, queue@, partition_key@),
    {
        let queue_text = queue.to_owned();
        let key_text = partition_key.to_owned();
        let mut i: usize = 0;
        while i < self.partitions.len()
            invariant
                i <= self.partitions@.len(),
                queue_text@ == queue@,
                key_text@ == partition_key@,
                forall|j: int|
                    0 <= j < i ==> !((#[trigger] self@.partitions[j]).queue == queue@
                        && self@.partitions[j].partition_key == partition_key@),
            decreases self.partitions@.len() - i,
        {
            assert(self@.partitions[i as int] == self.partitions@[i as int]@);
            if self.partitions[i].queue == queue_text && self.partitions[i].partition_key
                == key_text {
                return true;
            }
            i += 1;
        }
        false
    }

    /// `INSERT OR IGNORE INTO active_partitions`.
    pub(crate) fn insert_partition(&mut self, row: PartitionRow)
        requires
            old(self).recorded(),
        ensures
            final(self).recorded(),
            final(self).base() == old(self).base(),
            final(self)@ == step(old(self)@, WriteView::InsertPartition(row@)),
    {
        let w = Write::InsertPartition(row.clone());
        if !self.lists(row.queue.as_str(), row.partition_key.as_str()) {
            self.partitions.push(row);
        }
        self.writes.push(w);
        proof {
            lemma_record(self.base@, old(self).writes@, self.writes@, w);
            assert(self@ =~= step(old(self)@, w@));
        }
    }

    /// `DELETE FROM active_partitions WHERE queue = ? AND partition_key = ?`.
    pub(crate) fn delete_partition(&mut self, queue: &str, partition_key: &str)
        requires
            old(self).recorded(),
        ensures
            final(self).recorded(),
            final(self).base() == old(self).base(),
            final(self)@ == step(
                old(self)@,
                WriteView::DeletePartition { queue: queue@, partition_key: partition_key@ },
            ),
    {
        let queue_text = queue.to_owned();
        let key_text = partition_key.to_owned();
        let mut kept: Vec<PartitionRow> = Vec::new();
        let ghost pred = not_partition(queue@, partition_key@);
        let ghost rows = self@.partitions;
        let mut i: usize = 0;
        proof {
            reveal(Seq::filter);
            assert(partition_views(kept@) =~= rows.take(0).filter(pred));
        }
        while i < self.partitions.len()
            invariant
                i <= self.partitions@.len(),
                rows == partition_views(self.partitions@),
                queue_text@ == queue@,
                key_text@ == partition_key@,
                pred == not_partition(queue@, partition_key@),
                partition_views(kept@) == rows.take(i as int).filter(pred),
            decreases self.partitions@.len() - i,
        {
            let ghost kept_before = kept@;
            proof {
                reveal(Seq::filter);
                assert(rows.take(i + 1).drop_last() =~= rows.take(i as int));
                assert(rows.take(i + 1).last() == self.partitions@[i as int]@);
            }
            if !(self.partitions[i].queue == queue_text && self.partitions[i].partition_key
                == key_text) {
                kept.push(self.partitions[i].clone());
                assert(partition_views(kept@) =~= partition_views(kept_before).push(
                    self.partitions@[i as int]@,
                ));
            }
            i += 1;
        }
        assert(rows.take(i as int) =~= rows);
        let w = Write::DeletePartition { queue: queue_text, partition_key: key_text };
        self.partitions = kept;
        self.writes.push(w);
        proof {
            lemma_record(self.base@, old(self).writes@, self.writes@, w);
            assert(self@ =~= step(old(self)@, w@));
        }
    }

    /// `SELECT last_partition_key FROM queue_cursors WHERE queue = ?`.
    pub(crate) fn cursor(&self, queue: &str) -> (r: Option<String>)
        requires
            cursors_distinct(self@.cursors),
        ensures
            opt_text(r) == find_cursor(self@.cursors, queue@),
    {
        let queue_text = queue.to_owned();
        let mut i: usize = 0;
        while i < self.cursors.len()
            invariant
                i <= self.cursors@.len(),
                cursors_distinct(self@.cursors),
                queue_text@ == queue@,
                forall|j: int| 0 <= j < i ==> (#[trigger] self@.cursors[j]).queue != queue@,
            decreases self.cursors@.len() - i,
        {
            assert(self@.cursors[i as int] == self.cursors@[i as int]@);
            if self.cursors[i].queue == queue_text {
                proof {
                    let k = choose|k: int|
                        0 <= k < self@.cursors.len() && (#[trigger] self@.cursors[k]).queue
                            == queue@;
                    assert(has_cursor(self@.cursors, queue@));
                    if k < i {
                        assert(self@.cursors[k].queue != self@.cursors[i as int].queue);
                    } else if i < k {
                        assert(self@.cursors[i as int].queue != self@.cursors[k].queue);
                    }
                }
                return Some(self.cursors[i].last_partition_key.clone());
            }
            i += 1;
        }
        None
    }

    /// `INSERT INTO queue_cursors ... ON CONFLICT(queue) DO UPDATE`.
    pub(crate) fn put_cursor(&mut self, row: CursorRow)
        requires
            old(self).recorded(),
            cursors_distinct(old(self)@.cursors),
        ensures
            final(self).recorded(),
            final(self).base() == old(self).base(),
            final(self)@ == step(old(self)@, WriteView::PutCursor(row@)),
    {
        let w = Write::PutCursor(row.clone());
        let ghost before = self@.cursors;
        let ghost writes_before = self.writes@;
        let ghost tables_before = self@;
        let mut i: usize = 0;
        while i < self.cursors.len()
            invariant
                i <= self.cursors@.len(),
                *self == *old(self),
                before == cursor_views(self.cursors@),
                writes_before == self.writes@,
                tables_before == self@,
                w@ == WriteView::PutCursor(row@),
                cursors_distinct(before),
                self.recorded(),
                forall|j: int| 0 <= j < i ==> (#[trigger] before[j]).queue != row@.queue,
            decreases self.cursors@.len() - i,
        {
            assert(before[i as int] == self.cursors@[i as int]@);
            if self.cursors[i].queue == row.queue {
                let ghost cursors_before = self.cursors@;
                self.cursors.set(i, row);
                self.writes.push(w);
                proof {
                    lemma_record(self.base@, writes_before, self.writes@, w);
                    assert(has_cursor(before, row@.queue));
                    assert forall|j: int| 0 <= j < before.len() implies self@.cursors[j]
                        == put_cursor(before, row@)[j] by {
                        assert(before[j] == cursors_before[j]@);
                        if j < i {
                            assert(before[j].queue != before[i as int].queue);
                        } else if i < j {
                            assert(before[i as int].queue != before[j].queue);
                        }
                    }
                    assert(self@.cursors =~= put_cursor(before, row@));
                    assert(self@ =~= step(tables_before, w@));
                }
                return;
            }
            i += 1;
        }
        self.cursors.push(row);
        self.writes.push(w);
        proof {
            lemma_record(self.base@, writes_before, self.writes@, w);
            assert(!has_cursor(before, row@.queue));
            assert(self@ =~= step(tables_before, w@));
        }
    }

    /// `INSERT INTO claim_receipts`.
    pub(crate) fn insert_receipt(&mut self, row: ReceiptRow)
        requires
            old(self).recorded(),
        ensures
            final(self).recorded(),
            final(self).base() == old(self).base(),
            final(self)@ == step(old(self)@, WriteView::InsertReceipt(row@)),
    {
        let w = Write::InsertReceipt(row.clone());
        self.receipts.push(row);
        self.writes.push(w);
        proof {
            lemma_record(self.base@, old(self).writes@, self.writes@, w);
            assert(self@ =~= step(old(self)@, w@));
        }
    }

    /// `UPDATE claim_receipts SET lease_expires_at_ms = ? WHERE job_id = ? AND
    /// lease_token = ?`.
    pub(crate) fn set_receipt_expiry(
        &mut self,
        job_id: Id,
        lease_token: Id,
        lease_expires_at_ms: i64,
    )
        requires
            old(self).recorded(),
        ensures
            final(self).recorded(),
            final(self).base() == old(self).base(),
            final(self)@ == step(
                old(self)@,
                WriteView::SetReceiptExpiry { job_id, lease_token, lease_expires_at_ms },
            ),
    {
        let ghost before = self@.receipts;
        let mut changed: Vec<ReceiptRow> = Vec::new();
        let mut i: usize = 0;
        while i < self.receipts.len()
            invariant
                i <= self.receipts@.len(),
                before == receipt_views(self.receipts@),
                changed@.len() == i,
                forall|j: int|
                    0 <= j < i ==> (#[trigger] changed@[j])@ == set_receipt_expiry(
                        before,
                        job_id,
                        lease_token,
                        lease_expires_at_ms,
                    )[j],
            decreases self.receipts@.len() - i,
        {
            let mut row = self.receipts[i].clone();
            assert(before[i as int] == self.receipts@[i as int]@);
            if row.job_id == job_id && row.lease_token == lease_token {
                row.lease_expires_at_ms = lease_expires_at_ms;
            }
            changed.push(row);
            i += 1;
        }
        let w = Write::SetReceiptExpiry { job_id, lease_token, lease_expires_at_ms };
        self.receipts = changed;
        self.writes.push(w);
        proof {
            lemma_record(self.base@, old(self).writes@, self.writes@, w);
            assert(self@.receipts =~= set_receipt_expiry(
                before,
                job_id,
                lease_token,
                lease_expires_at_ms,
            ));
            assert(self@ =~= step(old(self)@, w@));
        }
    }

    /// `SELECT 1 FROM transactions WHERE transaction_id = ?`.
    pub(crate) fn knows_transaction(&self, transaction_id: Id) -> (r: bool)
        ensures
            r == has_transaction(self@.transactions, transaction_id),
    {
        let mut i: usize = 0;
        while i < self.transactions.len()
            invariant
                i <= self.transactions@.len(),
                forall|j: int|
                    0 <= j < i ==> (#[trigger] self@.transactions[j]).transaction_id
                        != transaction_id,
            decreases self.transactions@.len() - i,
        {
            assert(self@.transactions[i as int] == self.transactions@[i as int]@);
            if self.transactions[i].transaction_id == transaction_id {
                return true;
            }
            i += 1;
        }
        false
    }

    /// `INSERT INTO transactions`.
    pub(crate) fn insert_transaction(&mut self, row: TransactionRow)
        requires
            old(self).recorded(),
        ensures
            final(self).recorded(),
            final(self).base() == old(self).base(),
            final(self)@ == step(old(self)@, WriteView::InsertTransaction(row@)),
    {
        let w = Write::InsertTransaction(row.clone());
        self.transactions.push(row);
        self.writes.push(w);
        proof {
            lemma_record(self.base@, old(self).writes@, self.writes@, w);
            assert(self@ =~= step(old(self)@, w@));
        }
    }

    /// `INSERT INTO events`.
    pub(crate) fn insert_event(&mut self, row: EventRow)
        requires
            old(self).recorded(),
        ensures
            final(self).recorded(),
            final(self).base() == old(self).base(),
            final(self)@ == step(old(self)@, WriteView::InsertEvent(row@)),
    {
        let w = Write::InsertEvent(row.clone());
        self.events.push(row);
        self.writes.push(w);
        proof {
            lemma_record(self.base@, old(self).writes@, self.writes@, w);
            assert(self@ =~= step(old(self)@, w@));
        }
    }

    /// `INSERT INTO projections ... ON CONFLICT(name) DO UPDATE`.
    pub(crate) fn put_projection(&mut self, row: ProjectionRow)
        requires
            old(self).recorded(),
        ensures
            final(self).recorded(),
            final(self).base() == old(self).base(),
            final(self)@ == step(old(self)@, WriteView::PutProjection(row@)),
    {
        let ghost before = self@.projections;
        let mut changed: Vec<ProjectionRow> = Vec::new();
        let mut found = false;
        let mut i: usize = 0;
        while i < self.projections.len()
            invariant
                i <= self.projections@.len(),
                before == projection_views(self.projections@),
                changed@.len() == i,
                forall|j: int|
                    0 <= j < i ==> (#[trigger] changed@[j])@ == if before[j].name == row@.name {
                        row@
                    } else {
                        before[j]
                    },
                found == exists|j: int| 0 <= j < i && (#[trigger] before[j]).name == row@.name,
            decreases self.projections@.len() - i,
        {
            assert(before[i as int] == self.projections@[i as int]@);
            if self.projections[i].name == row.name {
                changed.push(row.clone());
                found = true;
            } else {
                changed.push(self.projections[i].clone());
            }
            i += 1;
        }
        let w = Write::PutProjection(row.clone());
        if !found {
            changed.push(row);
        }
        self.projections = changed;
        self.writes.push(w);
        proof {
            lemma_record(self.base@, old(self).writes@, self.writes@, w);
            assert(found == has_projection(before, row@.name));
            assert(self@.projections =~= put_projection(before, row@));
            assert(self@ =~= step(old(self)@, w@));
        }
    }

    /// `INSERT INTO projection_entries ... ON CONFLICT DO UPDATE`.
    pub(crate) fn put_entry(&mut self, row: EntryRow)
        requires
            old(self).recorded(),
        ensures
            final(self).recorded(),
            final(self).base() == old(self).base(),
            final(self)@ == step(old(self)@, WriteView::PutEntry(row@)),
    {
        let ghost before = self@.entries;
        let mut changed: Vec<EntryRow> = Vec::new();
        let mut found = false;
        let mut i: usize = 0;
        while i < self.entries.len()
            invariant
                i <= self.entries@.len(),
                before == entry_views(self.entries@),
                changed@.len() == i,
                forall|j: int|
                    0 <= j < i ==> (#[trigger] changed@[j])@ == if is_entry(
                        before[j],
                        row@.projection,
                        row@.key,
                    ) {
                        row@
                    } else {
                        before[j]
                    },
                found == exists|j: int|
                    0 <= j < i && is_entry(#[trigger] before[j], row@.projection, row@.key),
            decreases self.entries@.len() - i,
        {
            assert(before[i as int] == self.entries@[i as int]@);
            if self.entries[i].projection == row.projection && same_bytes(
                &self.entries[i].key,
                &row.key,
            ) {
                changed.push(row.clone());
                found = true;
            } else {
                changed.push(self.entries[i].clone());
            }
            i += 1;
        }
        let w = Write::PutEntry(row.clone());
        if !found {
            changed.push(row);
        }
        self.entries = changed;
        self.writes.push(w);
        proof {
            lemma_record(self.base@, old(self).writes@, self.writes@, w);
            assert(found == has_entry(before, row@.projection, row@.key));
            assert(self@.entries =~= put_entry(before, row@));
            assert(self@ =~= step(old(self)@, w@));
        }
    }

    /// `DELETE FROM projection_entries WHERE projection = ? AND key = ?`.
    pub(crate) fn delete_entry(&mut self, projection: &String, key: &Vec<u8>)
        requires
            old(self).recorded(),
        ensures
            final(self).recorded(),
            final(self).base() == old(self).base(),
            final(self)@ == step(
                old(self)@,
                WriteView::DeleteEntry { projection: projection@, key: key@ },
            ),
    {
        let ghost before = self@.entries;
        let ghost pred = not_entry(projection@, key@);
        let mut kept: Vec<EntryRow> = Vec::new();
        let mut i: usize = 0;
        proof {
            reveal(Seq::filter);
            assert(entry_views(kept@) =~= before.take(0).filter(pred));
        }
        while i < self.entries.len()
            invariant
                i <= self.entries@.len(),
                before == entry_views(self.entries@),
                pred == not_entry(projection@, key@),
                entry_views(kept@) == before.take(i as int).filter(pred),
            decreases self.entries@.len() - i,
        {
            let ghost kept_before = kept@;
            proof {
                reveal(Seq::filter);
                assert(before.take(i + 1).drop_last() =~= before.take(i as int));
                assert(before.take(i + 1).last() == self.entries@[i as int]@);
            }
            if !(self.entries[i].projection == *projection && same_bytes(
                &self.entries[i].key,
                key,
            )) {
                kept.push(self.entries[i].clone());
                assert(entry_views(kept@) =~= entry_views(kept_before).push(
                    self.entries@[i as int]@,
                ));
            }
            i += 1;
        }
        assert(before.take(i as int) =~= before);
        let w = Write::DeleteEntry { projection: projection.clone(), key: copy_bytes(key) };
        self.entries = kept;
        self.writes.push(w);
        proof {
            lemma_record(self.base@, old(self).writes@, self.writes@, w);
            assert(self@ =~= step(old(self)@, w@));
        }
    }

    /// `DELETE FROM projection_entries WHERE projection = ?`.
    pub(crate) fn clear_entries(&mut self, projection: &String)
        requires
            old(self).recorded(),
        ensures
            final(self).recorded(),
            final(self).base() == old(self).base(),
            final(self)@ == step(
                old(self)@,
                WriteView::ClearEntries { projection: projection@ },
            ),
    {
        let ghost before = self@.entries;
        let ghost pred = not_of_projection(projection@);
        let mut kept: Vec<EntryRow> = Vec::new();
        let mut i: usize = 0;
        proof {
            reveal(Seq::filter);
            assert(entry_views(kept@) =~= before.take(0).filter(pred));
        }
        while i < self.entries.len()
            invariant
                i <= self.entries@.len(),
                before == entry_views(self.entries@),
                pred == not_of_projection(projection@),
                entry_views(kept@) == before.take(i as int).filter(pred),
            decreases self.entries@.len() - i,
        {
            let ghost kept_before = kept@;
            proof {
                reveal(Seq::filter);
                assert(before.take(i + 1).drop_last() =~= before.take(i as int));
                assert(before.take(i + 1).last() == self.entries@[i as int]@);
            }
            if !(self.entries[i].projection == *projection) {
                kept.push(self.entries[i].clone());
                assert(entry_views(kept@) =~= entry_views(kept_before).push(
                    self.entries@[i as int]@,
                ));
            }
            i += 1;
        }
        assert(before.take(i as int) =~= before);
        let w = Write::ClearEntries { projection: projection.clone() };
        self.entries = kept;
        self.writes.push(w);
        proof {
            lemma_record(self.base@, old(self).writes@, self.writes@, w);
            assert(self@ =~= step(old(self)@, w@));
        }
    }
}

} // verus!
