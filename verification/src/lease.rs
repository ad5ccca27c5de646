//! Lease extensions.
use vstd::prelude::*;

use crate::claim::commit_view;
use crate::error::{
    storage_message, IndeterminateLease, LeaseConflict, LeaseError, LeaseErrorView, StorageError,
    StorageErrorView,
};
use crate::id::Id;
use crate::jobs::{LeaseExtension, LeaseExtensionReceipt};
use crate::plan::{expiry, lease_expired};
use crate::row::JobRowView;
use crate::state::JobState;
use crate::steps::{lemma_replace_active, with_job};
use crate::store::ControlPlaneStore;
use crate::tables::{
    consistent, find_job, has_job, has_transaction, lemma_found, lemma_replace_job, receipts_owned,
    row_ok, rows_ok, set_receipt_expiry, sound, Tables,
};

verus! {

/// Why a lease cannot be extended, if it cannot: the job must be there, it
/// must be leased, under this token, the lease must not have run out before
/// `now_ms`, and the new expiry must be later than the present one. The first
/// condition that fails is reported.
pub open spec fn extension_conflict(
    t: Tables,
    extension: LeaseExtension,
    now_ms: i64,
) -> Option<LeaseConflict> {
    let job_id = extension.job_id;
    match find_job(t.jobs, job_id) {
        None => Some(LeaseConflict::JobNotFound(job_id)),
        Some(job) => if !(job.state is Leased) {
            Some(LeaseConflict::NotLeased { job_id, state: job.state })
        } else if job.lease_token != Some(extension.lease_token) {
            Some(LeaseConflict::InvalidToken { job_id })
        } else if now_ms > expiry(job) {
            Some(LeaseConflict::Expired { job_id, lease_expires_at_ms: expiry(job), now_ms })
        } else if extension.new_expiry_ms <= expiry(job) {
            Some(
                LeaseConflict::ExpiryNotLater {
                    job_id,
                    current_ms: expiry(job),
                    requested_ms: extension.new_expiry_ms,
                },
            )
        } else {
            None
        },
    }
}

/// The row of a job whose lease has been extended.
pub open spec fn extended_row(job: JobRowView, new_expiry_ms: i64) -> JobRowView {
    JobRowView { lease_expires_at_ms: Some(new_expiry_ms), ..job }
}

/// The tables after a lease extension: the job and the receipts of the lease
/// have the new expiry.
pub open spec fn after_extension(t: Tables, extension: LeaseExtension) -> Tables {
    let job = find_job(t.jobs, extension.job_id)->0;
    let mid = with_job(t, extended_row(job, extension.new_expiry_ms));
    Tables {
        receipts: set_receipt_expiry(
            mid.receipts,
            extension.job_id,
            extension.lease_token,
            extension.new_expiry_ms,
        ),
        ..mid
    }
}

/// The receipt of a lease extension.
pub open spec fn extension_receipt(t: Tables, extension: LeaseExtension) -> LeaseExtensionReceipt {
    LeaseExtensionReceipt {
        job_id: extension.job_id,
        attempt: (find_job(t.jobs, extension.job_id)->0).attempt,
        lease_expires_at_ms: extension.new_expiry_ms,
    }
}

/// What the caller of a lease extension learns once its COMMIT step has
/// returned.
pub open spec fn settled_lease(
    receipt: LeaseExtensionReceipt,
    commit: Result<(), StorageErrorView>,
) -> Result<LeaseExtensionReceipt, LeaseErrorView> {
    match commit {
        Ok(_) => Ok(receipt),
        Err(e) => Err(
            LeaseErrorView::Indeterminate {
                job_id: receipt.job_id,
                storage_error: storage_message(e),
            },
        ),
    }
}

/// A lease extension keeps the tables sound, consistent where they are, gives
/// the job the new expiry and changes no other job, partition, cursor or
/// transaction.
pub proof fn law_extension_effect(t: Tables, extension: LeaseExtension, now_ms: i64)
    requires
        sound(t),
        extension_conflict(t, extension, now_ms) is None,
    ensures
        ({
            let after = after_extension(t, extension);
            let job = find_job(t.jobs, extension.job_id)->0;
            &&& sound(after)
            &&& consistent(t) ==> consistent(after)
            &&& find_job(after.jobs, extension.job_id) == Some(
                extended_row(job, extension.new_expiry_ms),
            )
            &&& forall|id: Id|
                id != extension.job_id ==> #[trigger] find_job(after.jobs, id) == find_job(
                    t.jobs,
                    id,
                )
            &&& after.partitions == t.partitions
            &&& after.cursors == t.cursors
            &&& after.transactions == t.transactions
        }),
{
    let k = lemma_found(t.jobs, extension.job_id);
    let job = t.jobs[k];
    assert(rows_ok(t.jobs) ==> row_ok(job));
    let row = extended_row(job, extension.new_expiry_ms);
    lemma_replace_active(t, row);
    lemma_replace_job(t.jobs, row);
    let mid = with_job(t, row);
    let after = after_extension(t, extension);
    if receipts_owned(mid) {
        assert forall|i: int| 0 <= i < after.receipts.len() implies has_job(
            after.jobs,
            (#[trigger] after.receipts[i]).job_id,
        ) && has_transaction(after.transactions, after.receipts[i].transaction_id) by {
            assert(has_job(mid.jobs, mid.receipts[i].job_id));
        }
    }
    assert forall|i: int, j: int| 0 <= i < j < after.receipts.len() implies (
    #[trigger] after.receipts[i]).transaction_id != (#[trigger] after.receipts[j]).transaction_id
        || after.receipts[i].job_id != after.receipts[j].job_id by {
        assert(mid.receipts[i].transaction_id != mid.receipts[j].transaction_id
            || mid.receipts[i].job_id != mid.receipts[j].job_id);
    }
}

/// A lease that has an expiry is extended exactly while it has not run out: at
/// its expiry it still can be, and after it, it counts as expired.
pub proof fn law_a_lease_is_extendable_or_expired(
    t: Tables,
    extension: LeaseExtension,
    now_ms: i64,
)
    requires
        find_job(t.jobs, extension.job_id) matches Some(job) && job.state is Leased
            && job.lease_token == Some(extension.lease_token) && job.lease_expires_at_ms is Some
            && extension.new_expiry_ms > expiry(job),
    ensures
        ({
            let job = find_job(t.jobs, extension.job_id)->0;
            extension_conflict(t, extension, now_ms) is None <==> !lease_expired(
                job.queue,
                now_ms,
            )(job)
        }),
{
}

/// Turns the receipt of a lease extension and the result of its COMMIT step
/// into what the caller learns. Only the COMMIT step is indeterminate: it may
/// or may not have persisted.
pub fn settle_lease(receipt: LeaseExtensionReceipt, commit: Result<(), StorageError>) -> (r: Result<
    LeaseExtensionReceipt,
    LeaseError,
>)
    ensures
        match r {
            Ok(receipt_out) => settled_lease(receipt, commit_view(commit)) == Ok::<
                LeaseExtensionReceipt,
                LeaseErrorView,
            >(receipt_out),
            Err(e) => settled_lease(receipt, commit_view(commit)) == Err::<
                LeaseExtensionReceipt,
                LeaseErrorView,
            >(e@),
        },
{
    match commit {
        Ok(_) => Ok(receipt),
        Err(e) => Err(
            LeaseError::Indeterminate(
                IndeterminateLease { job_id: receipt.job_id, storage_error: e.message() },
            ),
        ),
    }
}

impl ControlPlaneStore {
    /// Applies a lease extension.
    pub fn apply_extend_lease(&mut self, extension: &LeaseExtension, now_ms: i64) -> (r: Result<
        LeaseExtensionReceipt,
        LeaseError,
    >)
        requires
            old(self).wf(),
        ensures
            final(self).wf(),
            final(self).base() == old(self).base(),
            match r {
                Ok(receipt) => {
                    &&& extension_conflict(old(self)@, *extension, now_ms) is None
                    &&& final(self)@ == after_extension(old(self)@, *extension)
                    &&& receipt == extension_receipt(old(self)@, *extension)
                },
                Err(e) => {
                    &&& extension_conflict(old(self)@, *extension, now_ms) is Some
                    &&& e@ == LeaseErrorView::Conflict(
                        extension_conflict(old(self)@, *extension, now_ms)->0,
                    )
                    &&& *final(self) == *old(self)
                },
            },
    {
        let LeaseExtension { job_id, lease_token, new_expiry_ms } = *extension;
        let job = match self.load_job(job_id) {
            Some(job) => job,
            None => {
                return Err(LeaseError::Conflict(LeaseConflict::JobNotFound(job_id)));
            }
        };
        if job.state != JobState::Leased {
            return Err(
                LeaseError::Conflict(LeaseConflict::NotLeased { job_id, state: job.state }),
            );
        }
        let current_token = match job.lease_token {
            Some(t) => t == lease_token,
            None => false,
        };
        if !current_token {
            return Err(LeaseError::Conflict(LeaseConflict::InvalidToken { job_id }));
        }
        let current_ms: i64 = match job.lease_expires_at_ms {
            Some(ms) => ms,
            None => i64::MIN,
        };
        if now_ms > current_ms {
            return Err(
                LeaseError::Conflict(
                    LeaseConflict::Expired { job_id, lease_expires_at_ms: current_ms, now_ms },
                ),
            );
        }
        if new_expiry_ms <= current_ms {
            return Err(
                LeaseError::Conflict(
                    LeaseConflict::ExpiryNotLater {
                        job_id,
                        current_ms,
                        requested_ms: new_expiry_ms,
                    },
                ),
            );
        }
        proof {
            law_extension_effect(self@, *extension, now_ms);
            lemma_found(self@.jobs, job_id);
        }
        let mut row = job.clone();
        row.lease_expires_at_ms = Some(new_expiry_ms);
        assert(row@ =~= extended_row(job@, new_expiry_ms));
        self.update_job(row);
        // The receipt stays truthful, so that a recovery gives the extended
        // expiry and not the one granted at the claim.
        self.set_receipt_expiry(job_id, lease_token, new_expiry_ms);
        Ok(LeaseExtensionReceipt { job_id, attempt: job.attempt, lease_expires_at_ms: new_expiry_ms })
    }

    /// Extends an active lease, up to the COMMIT step. A failure before that
    /// step persists nothing.
    pub fn extend_lease(
        &mut self,
        job_id: Id,
        lease_token: Id,
        new_expiry_ms: i64,
        now_ms: i64,
    ) -> (r: Result<LeaseExtensionReceipt, LeaseError>)
        requires
            old(self).wf(),
        ensures
            final(self).wf(),
            final(self).base() == old(self).base(),
            ({
                let extension = LeaseExtension { job_id, lease_token, new_expiry_ms };
                match r {
                    Ok(receipt) => {
                        &&& extension_conflict(old(self)@, extension, now_ms) is None
                        &&& final(self)@ == after_extension(old(self)@, extension)
                        &&& receipt == extension_receipt(old(self)@, extension)
                    },
                    Err(e) => {
                        &&& extension_conflict(old(self)@, extension, now_ms) is Some
                        &&& e@ == LeaseErrorView::Conflict(
                            extension_conflict(old(self)@, extension, now_ms)->0,
                        )
                        &&& *final(self) == *old(self)
                    },
                }
            }),
    {
        self.apply_extend_lease(&LeaseExtension { job_id, lease_token, new_expiry_ms }, now_ms)
    }
}

} // verus!
