//! What is read from the database and written to it, column by column, and what
//! a lease extension does there.
use vstd::prelude::*;

use crate::error::{LeaseConflict, LeaseErrorView, StorageErrorView};
use crate::id::{big_endian_value, lemma_sixteen_bytes_fit, Id};
use crate::jobs::{LeaseExtension, LeaseExtensionReceipt};
use crate::lease::{
    after_extension, extension_conflict, extension_receipt, law_extension_effect, settled_lease,
};
use crate::row::{columns_ok, decoded, id_blob, id_of_blob, stored, JobColumns, JobRowView};
use crate::rows::{decoded_receipt, stored_receipt, ReceiptColumns};
use crate::tables::{find_job, sound, step, ReceiptRowView, Tables};
use crate::text::signed_decimal;
use crate::value_laws::{byte_at, lemma_big_endian_bytes};
use crate::values::{opt_bytes, opt_text};

verus! {

/// The bytes are those of the identifier, the highest first.
pub open spec fn spells(bytes: Seq<u8>, id: Id) -> bool {
    &&& bytes.len() == 16
    &&& forall|k: int| 0 <= k < 16 ==> #[trigger] bytes[k] == byte_at(id.value as nat, 15 - k)
}

proof fn lemma_spells(bytes: Seq<u8>, id: Id)
    requires
        bytes == id_blob(id),
    ensures
        spells(bytes, id),
{
    lemma_big_endian_bytes(id.value as nat, 16);
}

/// The columns that a job is read from hold the bytes of its identifiers, and
/// its other values as they are.
pub proof fn law_columns_of_a_job(c: JobColumns)
    requires
        decoded(c) is Ok,
    ensures
        ({
            let r = decoded(c)->Ok_0;
            &&& spells(c.job_id@, r.job_id)
            &&& c.lease_token is Some <==> r.lease_token is Some
            &&& c.lease_token matches Some(b) ==> spells(b@, r.lease_token->0)
            &&& r.enqueue_sequence == c.enqueue_sequence
            &&& r.queue == c.queue@
            &&& r.partition_key == c.partition_key@
            &&& r.payload == c.payload@
            &&& r.not_before_ms == c.not_before_ms
            &&& 0 <= c.max_attempts <= u32::MAX ==> r.max_attempts == c.max_attempts
            &&& 0 <= c.attempt <= u32::MAX ==> r.attempt == c.attempt
            &&& r.effect_mode is RequiresReconciliation <==> c.effect_mode == 0
            &&& r.effect_mode is ExplicitlyIdempotent <==> c.effect_mode == 1
            &&& r.state is Pending <==> c.state == 0
            &&& r.state is Leased <==> c.state == 1
            &&& r.state is RetryWait <==> c.state == 2
            &&& r.state is Uncertain <==> c.state == 3
            &&& r.state is Succeeded <==> c.state == 4
            &&& r.state is Dead <==> c.state == 5
            &&& r.state is Cancelled <==> c.state == 6
            &&& r.idempotency_key == opt_text(c.idempotency_key)
            &&& r.worker_id == opt_text(c.worker_id)
            &&& r.lease_expires_at_ms == c.lease_expires_at_ms
            &&& r.retry_after_ms == c.retry_after_ms
            &&& r.terminal_at_ms == c.terminal_at_ms
            &&& r.result_digest == opt_bytes(c.result_digest)
            &&& r.error_summary == opt_text(c.error_summary)
            &&& r.enqueue_transaction_id == c.enqueue_transaction_id@
            &&& r.updated_transaction_id == c.updated_transaction_id@
        }),
{
    let r = decoded(c)->Ok_0;
    lemma_read_id(c.job_id@);
    if let Some(b) = c.lease_token {
        lemma_read_id(b@);
    }
}

proof fn lemma_read_id(bytes: Seq<u8>)
    requires
        bytes.len() == 16,
    ensures
        spells(bytes, id_of_blob(bytes)->Ok_0),
{
    let id = id_of_blob(bytes)->Ok_0;
    lemma_sixteen_bytes_fit(bytes);
    lemma_value_bytes(bytes);
    assert(id.value as nat == big_endian_value(bytes));
}

proof fn lemma_value_bytes(bytes: Seq<u8>)
    ensures
        forall|k: int|
            0 <= k < bytes.len() ==> #[trigger] bytes[k] == byte_at(
                big_endian_value(bytes),
                bytes.len() - 1 - k,
            ),
    decreases bytes.len(),
{
    if bytes.len() > 0 {
        let front = bytes.drop_last();
        let x = big_endian_value(bytes);
        let high = big_endian_value(front);
        lemma_value_bytes(front);
        assert(x / 256 == high && x % 256 == bytes.last() as nat);
        assert forall|k: int| 0 <= k < bytes.len() implies #[trigger] bytes[k] == byte_at(
            x,
            bytes.len() - 1 - k,
        ) by {
            if k < bytes.len() - 1 {
                assert(front[k] == bytes[k]);
            }
        }
    }
}

/// Why a job cannot be read: its identifier or its lease token has not sixteen
/// bytes, or a code is unknown; the first of these in the order of the columns
/// is reported.
pub proof fn law_corrupt_columns(c: JobColumns)
    ensures
        ({
            let r = decoded(c);
            let corrupt = |text: Seq<char>|
                r == Err::<JobRowView, StorageErrorView>(StorageErrorView::Sqlite(text));
            let id_ok = c.job_id@.len() == 16;
            let effect_ok = 0 <= c.effect_mode <= 1;
            let state_ok = 0 <= c.state <= 6;
            let token_ok = c.lease_token matches Some(b) ==> b@.len() == 16;
            &&& r is Ok <==> id_ok && effect_ok && state_ok && token_ok
            &&& !id_ok ==> corrupt("corrupt 16-byte id column"@)
            &&& id_ok && !effect_ok ==> corrupt(
                "corrupt effect mode "@ + signed_decimal(c.effect_mode as int),
            )
            &&& id_ok && effect_ok && !state_ok ==> corrupt(
                "corrupt job state "@ + signed_decimal(c.state as int),
            )
            &&& id_ok && effect_ok && state_ok && !token_ok ==> corrupt(
                "corrupt 16-byte id column"@,
            )
        }),
{
}

/// Every job is stored in columns that hold the bytes of its identifiers and its
/// other values as they are.
pub proof fn law_stored_columns(r: JobRowView, c: JobColumns)
    requires
        stored(r, c),
    ensures
        spells(c.job_id@, r.job_id),
        c.lease_token is Some <==> r.lease_token is Some,
        c.lease_token matches Some(b) ==> spells(b@, r.lease_token->0),
        c.enqueue_sequence == r.enqueue_sequence,
        c.queue@ == r.queue,
        c.partition_key@ == r.partition_key,
        c.payload@ == r.payload,
        c.not_before_ms == r.not_before_ms,
        c.max_attempts == r.max_attempts,
        c.attempt == r.attempt,
        c.effect_mode == 0 || c.effect_mode == 1,
        c.effect_mode == 0 <==> r.effect_mode is RequiresReconciliation,
        0 <= c.state <= 6,
        c.state == 0 <==> r.state is Pending,
        c.state == 1 <==> r.state is Leased,
        c.state == 2 <==> r.state is RetryWait,
        c.state == 3 <==> r.state is Uncertain,
        c.state == 4 <==> r.state is Succeeded,
        c.state == 5 <==> r.state is Dead,
        c.state == 6 <==> r.state is Cancelled,
        opt_text(c.idempotency_key) == r.idempotency_key,
        opt_text(c.worker_id) == r.worker_id,
        c.lease_expires_at_ms == r.lease_expires_at_ms,
        c.retry_after_ms == r.retry_after_ms,
        c.terminal_at_ms == r.terminal_at_ms,
        opt_bytes(c.result_digest) == r.result_digest,
        opt_text(c.error_summary) == r.error_summary,
        c.enqueue_transaction_id@ == r.enqueue_transaction_id,
        c.updated_transaction_id@ == r.updated_transaction_id,
{
    lemma_spells(c.job_id@, r.job_id);
    if let Some(b) = c.lease_token {
        lemma_spells(b@, r.lease_token->0);
    }
}

/// Columns are accepted exactly when the state is known, a job has at least one
/// attempt and has not used a negative number of them, and each optional column
/// is set in the states that it belongs to and in no other.
pub proof fn law_accepted_columns(c: JobColumns)
    ensures
        columns_ok(c) <==> {
            &&& 0 <= c.state <= 6
            &&& c.max_attempts >= 1
            &&& c.attempt >= 0
            &&& c.lease_token is Some <==> c.state == 1
            &&& c.worker_id is Some <==> c.state == 1
            &&& c.lease_expires_at_ms is Some <==> c.state == 1
            &&& c.retry_after_ms is Some <==> c.state == 2
            &&& c.terminal_at_ms is Some <==> c.state >= 4
        },
{
}

/// A receipt is read exactly where its three identifiers have sixteen bytes
/// each. One whose transaction or job has no such identifier belongs to nothing
/// and is passed over; a token that is none is reported.
pub proof fn law_columns_of_a_receipt(c: ReceiptColumns)
    ensures
        ({
            let r = decoded_receipt(c);
            let owned = c.transaction_id@.len() == 16 && c.job_id@.len() == 16;
            &&& !owned ==> r == Ok::<Option<ReceiptRowView>, StorageErrorView>(None)
            &&& owned && c.lease_token@.len() != 16 ==> r == Err::<
                Option<ReceiptRowView>,
                StorageErrorView,
            >(StorageErrorView::Sqlite("corrupt 16-byte id column"@))
            &&& owned && c.lease_token@.len() == 16 ==> (r matches Ok(Some(row)) && {
                &&& spells(c.transaction_id@, row.transaction_id)
                &&& spells(c.job_id@, row.job_id)
                &&& spells(c.lease_token@, row.lease_token)
                &&& 0 <= c.attempt <= u32::MAX ==> row.attempt == c.attempt
                &&& row.worker_id == c.worker_id@
                &&& row.lease_expires_at_ms == c.lease_expires_at_ms
            })
        }),
{
    if c.transaction_id@.len() == 16 {
        lemma_read_id(c.transaction_id@);
    }
    if c.job_id@.len() == 16 {
        lemma_read_id(c.job_id@);
    }
    if c.lease_token@.len() == 16 {
        lemma_read_id(c.lease_token@);
    }
}

/// A receipt is stored in columns that hold the bytes of its identifiers and its
/// other values as they are.
pub proof fn law_stored_receipt_columns(r: ReceiptRowView, c: ReceiptColumns)
    requires
        stored_receipt(r, c),
    ensures
        spells(c.transaction_id@, r.transaction_id),
        spells(c.job_id@, r.job_id),
        spells(c.lease_token@, r.lease_token),
        c.attempt == r.attempt,
        c.worker_id@ == r.worker_id,
        c.lease_expires_at_ms == r.lease_expires_at_ms,
{
    lemma_spells(c.transaction_id@, r.transaction_id);
    lemma_spells(c.job_id@, r.job_id);
    lemma_spells(c.lease_token@, r.lease_token);
}

/// What stored rows must meet to be loaded, and all that they must meet: no two
/// share a key, numbered ones stand in the order of their numbers, numbers that
/// count from one are at least one, and a job that waits has not used up the
/// range of its attempts.
pub proof fn law_what_decides_loading(t: Tables)
    ensures
        sound(t) <==> {
            &&& forall|i: int|
                0 <= i < t.jobs.len() && ((#[trigger] t.jobs[i]).state is Pending
                    || t.jobs[i].state is RetryWait) ==> t.jobs[i].attempt < u32::MAX
            &&& forall|i: int, j: int|
                0 <= i < j < t.jobs.len() ==> (#[trigger] t.jobs[i]).job_id != (
                #[trigger] t.jobs[j]).job_id
            &&& forall|i: int, j: int|
                0 <= i < j < t.jobs.len() ==> (#[trigger] t.jobs[i]).enqueue_sequence < (
                #[trigger] t.jobs[j]).enqueue_sequence
            &&& forall|i: int, j: int|
                0 <= i < j < t.partitions.len() ==> !((#[trigger] t.partitions[i]).queue == (
                #[trigger] t.partitions[j]).queue && t.partitions[i].partition_key
                    == t.partitions[j].partition_key)
            &&& forall|i: int, j: int|
                0 <= i < j < t.cursors.len() ==> (#[trigger] t.cursors[i]).queue != (
                #[trigger] t.cursors[j]).queue
            &&& forall|i: int, j: int|
                0 <= i < j < t.receipts.len() ==> !((#[trigger] t.receipts[i]).transaction_id == (
                #[trigger] t.receipts[j]).transaction_id && t.receipts[i].job_id
                    == t.receipts[j].job_id)
            &&& forall|i: int|
                0 <= i < t.transactions.len() ==> (
                #[trigger] t.transactions[i]).transaction_sequence >= 1
            &&& forall|i: int, j: int|
                0 <= i < j < t.transactions.len() ==> (#[trigger] t.transactions[i]).transaction_id
                    != (#[trigger] t.transactions[j]).transaction_id
            &&& forall|i: int, j: int|
                0 <= i < j < t.transactions.len() ==> (
                #[trigger] t.transactions[i]).transaction_sequence < (
                #[trigger] t.transactions[j]).transaction_sequence
            &&& forall|i: int|
                0 <= i < t.events.len() ==> (#[trigger] t.events[i]).global_sequence >= 1
                    && t.events[i].stream_version >= 1
            &&& forall|i: int, j: int|
                0 <= i < j < t.events.len() ==> (#[trigger] t.events[i]).global_sequence < (
                #[trigger] t.events[j]).global_sequence
            &&& forall|i: int|
                0 <= i < t.projections.len() ==> (#[trigger] t.projections[i]).version >= 1
            &&& forall|i: int, j: int|
                0 <= i < j < t.projections.len() ==> (#[trigger] t.projections[i]).name != (
                #[trigger] t.projections[j]).name
            &&& forall|i: int, j: int|
                0 <= i < j < t.entries.len() ==> !((#[trigger] t.entries[i]).projection == (
                #[trigger] t.entries[j]).projection && t.entries[i].key == t.entries[j].key)
        },
{
}

/// A lease is extended exactly when its job is there and leased under the
/// token, the lease has not run out, and the new expiry is later; otherwise the
/// first of these that fails is reported. The receipt names the job, its
/// attempt and the new expiry, and the job gets that expiry and keeps the rest.
pub proof fn law_lease_extension(t: Tables, e: LeaseExtension, now_ms: i64)
    requires
        sound(t),
    ensures
        ({
            let conflict = extension_conflict(t, e, now_ms);
            match find_job(t.jobs, e.job_id) {
                None => conflict == Some(LeaseConflict::JobNotFound(e.job_id)),
                Some(job) => {
                    let current: i64 = match job.lease_expires_at_ms {
                        Some(ms) => ms,
                        None => i64::MIN,
                    };
                    let held = job.state is Leased && job.lease_token == Some(e.lease_token);
                    &&& conflict is None <==> held && now_ms <= current < e.new_expiry_ms
                    &&& !(job.state is Leased) ==> conflict == Some(
                        LeaseConflict::NotLeased {
                            job_id: e.job_id,
                            state: job.state,
                        },
                    )
                    &&& job.state is Leased && !held ==> conflict == Some(
                        LeaseConflict::InvalidToken { job_id: e.job_id },
                    )
                    &&& held && current < now_ms ==> conflict == Some(
                        LeaseConflict::Expired {
                            job_id: e.job_id,
                            lease_expires_at_ms: current,
                            now_ms,
                        },
                    )
                    &&& held && now_ms <= current && e.new_expiry_ms <= current ==> conflict == Some(
                        LeaseConflict::ExpiryNotLater {
                            job_id: e.job_id,
                            current_ms: current,
                            requested_ms: e.new_expiry_ms,
                        },
                    )
                    &&& conflict is None ==> {
                        let receipt = extension_receipt(t, e);
                        let after = after_extension(t, e);
                        &&& receipt.job_id == e.job_id
                        &&& receipt.attempt == job.attempt
                        &&& receipt.lease_expires_at_ms == e.new_expiry_ms
                        &&& find_job(after.jobs, e.job_id) == Some(
                            JobRowView { lease_expires_at_ms: Some(e.new_expiry_ms), ..job },
                        )
                        &&& forall|id: Id|
                            id != e.job_id ==> #[trigger] find_job(after.jobs, id) == find_job(
                                t.jobs,
                                id,
                            )
                        &&& after.jobs.len() == t.jobs.len()
                        &&& after.receipts.len() == t.receipts.len()
                        &&& forall|i: int|
                            0 <= i < t.receipts.len() ==> after.receipts[i] == (if (
                            #[trigger] t.receipts[i]).job_id == e.job_id
                                && t.receipts[i].lease_token == e.lease_token {
                                ReceiptRowView {
                                    lease_expires_at_ms: e.new_expiry_ms,
                                    ..t.receipts[i]
                                }
                            } else {
                                t.receipts[i]
                            })
                        &&& after.partitions == t.partitions
                        &&& after.cursors == t.cursors
                        &&& after.transactions == t.transactions
                        &&& after.events == t.events
                        &&& after.projections == t.projections
                        &&& after.entries == t.entries
                    }
                },
            }
        }),
{
    if extension_conflict(t, e, now_ms) is None {
        law_extension_effect(t, e, now_ms);
    }
}

/// A lease extension whose COMMIT step succeeded gives its receipt; where the
/// step failed it is indeterminate, and names its job and what the database
/// reported.
pub proof fn law_settled_lease(receipt: LeaseExtensionReceipt, text: Seq<char>)
    ensures
        settled_lease(receipt, Ok(())) == Ok::<LeaseExtensionReceipt, LeaseErrorView>(receipt),
        settled_lease(receipt, Err(StorageErrorView::Sqlite(text))) == Err::<
            LeaseExtensionReceipt,
            LeaseErrorView,
        >(LeaseErrorView::Indeterminate { job_id: receipt.job_id, storage_error: text }),
        settled_lease(receipt, Err(StorageErrorView::Identifier(text))) == Err::<
            LeaseExtensionReceipt,
            LeaseErrorView,
        >(LeaseErrorView::Indeterminate { job_id: receipt.job_id, storage_error: text }),
{
}

} // verus!
