//! The store handle of the Node binding.
//!
//! An operation that changes the store runs up to its COMMIT step and leaves
//! its changes recorded in the store; the caller executes them, and turns the
//! result of the COMMIT step into the answer with [`commit_answer`],
//! [`claim_answer`] or [`lease_answer`].
use vstd::prelude::*;

use crate::claim::{claim_result, commit_view, settle_claim, settled_claim};
use crate::commit::{events_behind, settle_commit, settled_commit, transaction_recovery};
use crate::commit_steps::commit_result;
use crate::error::{Error, ErrorView, LeaseErrorView, StorageError, StorageErrorView};
use crate::id::{hex_of, Id};
use crate::jobs::{
    ClaimOutcome, ClaimOutcomeView, CommitReceipt, LeaseExtension, LeaseExtensionReceipt,
};
use crate::lease::{
    after_extension, extension_conflict, extension_receipt, settle_lease, settled_lease,
};
use crate::listing::{infos, page_result, wanted_jobs};
use crate::load::{tables_of, StoredRows};
use crate::node_error::{
    closed, closed_error, map_claim_error, map_commit_error, map_error, map_lease_error,
    mapped_claim_error, mapped_commit_error, mapped_error, mapped_lease_error, parse_id,
    parse_job_state, parsed_id, parsed_state, JsError, JsErrorView,
};
use crate::node_input::{
    build_batch, built, claim_of, claim_request, ClaimRequestInput, CommitBatchInput,
};
use crate::node_output::{
    event_output_views, events_shown, extension_shown, info_output_views, info_shown, infos_shown,
    job_info_output, job_info_outputs, lease_output, outcome_shown, persisted_event_outputs,
    receipt_output, receipt_shown, recovery_shown, transaction_output, transaction_shown,
    ClaimOutcomeOutput, ClaimOutcomeOutputView, CommitReceiptOutput, JobInfoOutput,
    JobInfoOutputView, JobsPageOutput, LeaseExtensionReceiptOutput, PersistedEventOutput,
    TransactionRecoveryOutput, TransactionRecoveryOutputView,
};
use crate::recovery::recover_result;
use crate::row::info_of;
use crate::rows::{write_views, Write};
use crate::seqs::at_most;
use crate::state::JobState;
use crate::store::ControlPlaneStore;
use crate::tables::{find_entry, find_job, replay, sound, stream_head, version_of, Tables};
use crate::transitions::opt_str;
use crate::values::opt_text;

verus! {

/// The text of a freshly drawn identifier, or the error of drawing it.
pub fn new_id(drawn: Result<Id, Error>) -> (r: Result<String, JsError>)
    ensures
        match (drawn, r) {
            (Ok(id), Ok(text)) => text@ == hex_of(id),
            (Err(e), Err(x)) => x@ == mapped_error(e@),
            _ => false,
        },
{
    match drawn {
        Ok(id) => Ok(id.to_hex()),
        Err(e) => Err(map_error(e)),
    }
}

/// A handle to one store, open or closed.
pub struct Store {
    inner: Option<ControlPlaneStore>,
}

/// What a commit is answered before its COMMIT step.
pub open spec fn commit_reply(
    tables: Option<Tables>,
    input: CommitBatchInput,
    fresh: Seq<Id>,
) -> Result<(Tables, CommitReceipt), JsErrorView> {
    match built(input, fresh) {
        Err(e) => Err(e),
        Ok(batch) => match tables {
            None => Err(closed_error()),
            Some(t) => match commit_result(t, batch) {
                Ok(done) => Ok(done),
                Err(e) => Err(mapped_commit_error(e)),
            },
        },
    }
}

/// What a claim is answered before its COMMIT step.
pub open spec fn claim_reply(
    tables: Option<Tables>,
    input: ClaimRequestInput,
    fresh: Seq<Id>,
) -> Result<(Tables, ClaimOutcomeView), JsErrorView> {
    match tables {
        None => Err(closed_error()),
        Some(t) => match claim_result(t, claim_of(input), fresh) {
            Ok(done) => Ok(done),
            Err(e) => Err(mapped_claim_error(e)),
        },
    }
}

/// What a lease extension is answered before its COMMIT step.
pub open spec fn lease_reply(
    tables: Option<Tables>,
    job_id: Seq<char>,
    lease_token: Seq<char>,
    new_expiry_ms: i64,
    now_ms: i64,
) -> Result<(Tables, LeaseExtensionReceipt), JsErrorView> {
    match (tables, parsed_id("jobId"@, job_id), parsed_id("leaseToken"@, lease_token)) {
        (None, _, _) => Err(closed_error()),
        (_, Err(e), _) => Err(e),
        (_, _, Err(e)) => Err(e),
        (Some(t), Ok(job), Ok(token)) => {
            let extension = LeaseExtension { job_id: job, lease_token: token, new_expiry_ms };
            match extension_conflict(t, extension, now_ms) {
                Some(c) => Err(mapped_lease_error(LeaseErrorView::Conflict(c))),
                None => Ok((after_extension(t, extension), extension_receipt(t, extension))),
            }
        },
    }
}

/// What the recovery of a claim is answered.
pub open spec fn recover_claim_reply(
    tables: Option<Tables>,
    transaction_id: Seq<char>,
    now_ms: i64,
) -> Result<ClaimOutcomeOutputView, JsErrorView> {
    match (tables, parsed_id("transactionId"@, transaction_id)) {
        (None, _) => Err(closed_error()),
        (_, Err(e)) => Err(e),
        (Some(t), Ok(id)) => Ok(recovery_shown(recover_result(t, id, now_ms))),
    }
}

/// What the recovery of a commit is answered.
pub open spec fn recover_transaction_reply(
    tables: Option<Tables>,
    transaction_id: Seq<char>,
) -> Result<TransactionRecoveryOutputView, JsErrorView> {
    match (tables, parsed_id("transactionId"@, transaction_id)) {
        (None, _) => Err(closed_error()),
        (_, Err(e)) => Err(e),
        (Some(t), Ok(id)) => Ok(transaction_shown(transaction_recovery(t, id))),
    }
}

/// The state that an optional text names.
pub open spec fn parsed_opt_state(text: Option<Seq<char>>) -> Result<
    Option<JobState>,
    JsErrorView,
> {
    match text {
        None => Ok(None),
        Some(s) => match parsed_state(s) {
            Ok(state) => Ok(Some(state)),
            Err(e) => Err(e),
        },
    }
}

/// What a listing of jobs is answered.
pub open spec fn jobs_reply(
    tables: Option<Tables>,
    queue: Option<Seq<char>>,
    state: Option<Seq<char>>,
    limit: u32,
) -> Result<Seq<JobInfoOutputView>, JsErrorView> {
    match (parsed_opt_state(state), tables) {
        (Err(e), _) => Err(e),
        (_, None) => Err(closed_error()),
        (Ok(wanted_state), Some(t)) => Ok(
            infos_shown(infos(at_most(wanted_jobs(t, queue, wanted_state, None), limit as nat))),
        ),
    }
}

/// What a look-up of one job is answered.
pub open spec fn job_reply(tables: Option<Tables>, job_id: Seq<char>) -> Result<
    Option<JobInfoOutputView>,
    JsErrorView,
> {
    match (tables, parsed_id("jobId"@, job_id)) {
        (None, _) => Err(closed_error()),
        (_, Err(e)) => Err(e),
        (Some(t), Ok(id)) => Ok(
            match find_job(t.jobs, id) {
                Some(row) => Some(info_shown(info_of(row))),
                None => None,
            },
        ),
    }
}

/// What a request for a page of jobs is answered.
pub open spec fn jobs_page_reply(
    tables: Option<Tables>,
    queue: Option<Seq<char>>,
    state: Option<Seq<char>>,
    after_sequence: i64,
    limit: u32,
) -> Result<(Seq<JobInfoOutputView>, i64), JsErrorView> {
    match (parsed_opt_state(state), tables) {
        (Err(e), _) => Err(e),
        (_, None) => Err(closed_error()),
        (Ok(wanted_state), Some(t)) => match page_result(
            t,
            queue,
            wanted_state,
            after_sequence as u64,
            limit as usize,
        ) {
            Ok((jobs, cursor)) => Ok((infos_shown(jobs), cursor as i64)),
            Err(e) => Err(mapped_error(e)),
        },
    }
}

/// Parses an optional job state.
fn parse_opt_state(state: &Option<String>) -> (r: Result<Option<JobState>, JsError>)
    ensures
        match r {
            Ok(s) => parsed_opt_state(opt_text(*state)) == Ok::<Option<JobState>, JsErrorView>(s),
            Err(e) => parsed_opt_state(opt_text(*state)) == Err::<Option<JobState>, JsErrorView>(
                e@,
            ),
        },
{
    match state {
        None => Ok(None),
        Some(text) => match parse_job_state(text.as_str()) {
            Ok(s) => Ok(Some(s)),
            Err(e) => Err(e),
        },
    }
}

/// The text of an optional string, borrowed.
fn borrowed(o: &Option<String>) -> (r: Option<&str>)
    ensures
        opt_str(r) == opt_text(*o),
{
    match o {
        Some(s) => Some(s.as_str()),
        None => None,
    }
}

/// Answers a commit once its COMMIT step has returned.
pub fn commit_answer(receipt: CommitReceipt, commit: Result<(), StorageError>) -> (r: Result<
    CommitReceiptOutput,
    JsError,
>)
    ensures
        match (settled_commit(receipt, commit_view(commit)), r) {
            (Ok(done), Ok(o)) => o@ == receipt_shown(done),
            (Err(e), Err(x)) => x@ == mapped_commit_error(e),
            _ => false,
        },
{
    match settle_commit(receipt, commit) {
        Ok(done) => Ok(receipt_output(done)),
        Err(e) => Err(map_commit_error(e)),
    }
}

/// Answers a claim once its COMMIT step has returned.
pub fn claim_answer(outcome: ClaimOutcome, commit: Result<(), StorageError>) -> (r: Result<
    ClaimOutcomeOutput,
    JsError,
>)
    ensures
        match (settled_claim(outcome@, commit_view(commit)), r) {
            (Ok(done), Ok(o)) => o@ == outcome_shown(done),
            (Err(e), Err(x)) => x@ == mapped_claim_error(e),
            _ => false,
        },
{
    match settle_claim(outcome, commit) {
        Ok(done) => Ok(ClaimOutcomeOutput::of_outcome(done)),
        Err(e) => Err(map_claim_error(e)),
    }
}

/// Answers a lease extension once its COMMIT step has returned.
pub fn lease_answer(receipt: LeaseExtensionReceipt, commit: Result<(), StorageError>) -> (r: Result<
    LeaseExtensionReceiptOutput,
    JsError,
>)
    ensures
        match (settled_lease(receipt, commit_view(commit)), r) {
            (Ok(done), Ok(o)) => o@ == extension_shown(done),
            (Err(e), Err(x)) => x@ == mapped_lease_error(e),
            _ => false,
        },
{
    match settle_lease(receipt, commit) {
        Ok(done) => Ok(lease_output(done)),
        Err(e) => Err(map_lease_error(e)),
    }
}

impl Store {
    /// The tables of an open store.
    pub closed spec fn tables(&self) -> Option<Tables> {
        match self.inner {
            Some(s) => Some(s@),
            None => None,
        }
    }

    /// The tables that the recorded changes of an open store start from.
    pub closed spec fn base(&self) -> Option<Tables> {
        match self.inner {
            Some(s) => Some(s.base()),
            None => None,
        }
    }

    /// The store is closed, or open and sound.
    pub closed spec fn wf(&self) -> bool {
        self.inner matches Some(s) ==> s.wf()
    }

    /// Opens a store on the rows that were read from its database.
    pub fn open(loaded: Result<StoredRows, StorageError>) -> (r: Result<Store, JsError>)
        ensures
            match (loaded, r) {
                (Err(e), Err(x)) => x@ == mapped_error(ErrorView::Storage(e@)),
                (Ok(rows), Ok(s)) => sound(tables_of(rows)) && s.wf() && s.tables() == Some(
                    tables_of(rows),
                ) && s.base() == Some(tables_of(rows)),
                (Ok(rows), Err(x)) => !sound(tables_of(rows)) && x@ == mapped_error(
                    ErrorView::Storage(StorageErrorView::Sqlite("stored rows share a key or are out of order"@)),
                ),
                (Err(_), Ok(_)) => false,
            },
    {
        let rows = match loaded {
            Ok(rows) => rows,
            Err(e) => return Err(map_error(Error::Storage(e))),
        };
        match ControlPlaneStore::load(rows) {
            Ok(s) => Ok(Store { inner: Some(s) }),
            Err(e) => Err(map_error(Error::Storage(e))),
        }
    }

    /// Closes the store.
    pub fn close(&mut self)
        ensures
            final(self).wf(),
            final(self).tables() is None,
    {
        self.inner = None;
    }

    /// The open store.
    pub fn store(&self) -> (r: Result<&ControlPlaneStore, JsError>)
        requires
            self.wf(),
        ensures
            match r {
                Ok(s) => s.wf() && self.tables() == Some(s@),
                Err(e) => self.tables() is None && e@ == closed_error(),
            },
    {
        match &self.inner {
            Some(s) => Ok(s),
            None => Err(closed()),
        }
    }

    /// Hands out the changes recorded so far. Executed in order on the tables
    /// that they start from, they give the tables of the store.
    pub fn take_writes(&mut self) -> (writes: Vec<Write>)
        requires
            old(self).wf(),
        ensures
            final(self).wf(),
            final(self).tables() == old(self).tables(),
            final(self).base() == final(self).tables(),
            old(self).tables() matches Some(t) ==> replay(
                old(self).base()->0,
                write_views(writes@),
            ) == t,
            old(self).tables() is None ==> writes@.len() == 0,
    {
        match self.inner.take() {
            Some(mut s) => {
                let writes = s.take_writes();
                self.inner = Some(s);
                writes
            }
            None => Vec::new(),
        }
    }

    /// Commits events, projection patches and job operations, up to the COMMIT
    /// step.
    pub fn commit(&mut self, batch: CommitBatchInput, fresh: &Vec<Id>) -> (r: Result<
        CommitReceipt,
        JsError,
    >)
        requires
            old(self).wf(),
        ensures
            final(self).wf(),
            final(self).base() == old(self).base(),
            match (commit_reply(old(self).tables(), batch, fresh@), r) {
                (Ok((after, receipt)), Ok(given)) => final(self).tables() == Some(after) && given
                    == receipt,
                (Err(e), Err(x)) => final(self).tables() == old(self).tables() && x@ == e,
                _ => false,
            },
    {
        let batch = match build_batch(batch, fresh) {
            Ok(b) => b,
            Err(e) => return Err(e),
        };
        match self.inner.take() {
            None => Err(closed()),
            Some(mut s) => {
                let done = s.commit(&batch);
                self.inner = Some(s);
                match done {
                    Ok(receipt) => Ok(receipt),
                    Err(e) => Err(map_commit_error(e)),
                }
            }
        }
    }

    /// Claims ready jobs of one queue, up to the COMMIT step.
    pub fn claim_jobs(&mut self, request: ClaimRequestInput, fresh: &Vec<Id>) -> (r: Result<
        ClaimOutcome,
        JsError,
    >)
        requires
            old(self).wf(),
        ensures
            final(self).wf(),
            final(self).base() == old(self).base(),
            match (claim_reply(old(self).tables(), request, fresh@), r) {
                (Ok((after, outcome)), Ok(given)) => final(self).tables() == Some(after) && given@
                    == outcome,
                (Err(e), Err(x)) => final(self).tables() == old(self).tables() && x@ == e,
                _ => false,
            },
    {
        match self.inner.take() {
            None => Err(closed()),
            Some(mut s) => {
                let asked = claim_request(request);
                let done = s.claim_jobs(&asked, fresh);
                self.inner = Some(s);
                match done {
                    Ok(outcome) => Ok(outcome),
                    Err(e) => Err(map_claim_error(e)),
                }
            }
        }
    }

    /// Extends an active lease, up to the COMMIT step.
    pub fn extend_lease(
        &mut self,
        job_id: String,
        lease_token: String,
        new_expiry_ms: i64,
        now_ms: i64,
    ) -> (r: Result<LeaseExtensionReceipt, JsError>)
        requires
            old(self).wf(),
        ensures
            final(self).wf(),
            final(self).base() == old(self).base(),
            match (
                lease_reply(old(self).tables(), job_id@, lease_token@, new_expiry_ms, now_ms),
                r,
            ) {
                (Ok((after, receipt)), Ok(given)) => final(self).tables() == Some(after) && given
                    == receipt,
                (Err(e), Err(x)) => final(self).tables() == old(self).tables() && x@ == e,
                _ => false,
            },
    {
        if self.inner.is_none() {
            return Err(closed());
        }
        let job = match parse_id("jobId", job_id.as_str()) {
            Ok(id) => id,
            Err(e) => return Err(e),
        };
        let token = match parse_id("leaseToken", lease_token.as_str()) {
            Ok(id) => id,
            Err(e) => return Err(e),
        };
        match self.inner.take() {
            None => Err(closed()),
            Some(mut s) => {
                let done = s.extend_lease(job, token, new_expiry_ms, now_ms);
                self.inner = Some(s);
                match done {
                    Ok(receipt) => Ok(receipt),
                    Err(e) => Err(map_lease_error(e)),
                }
            }
        }
    }

    /// Recovers an indeterminate claim, with its lease tokens.
    pub fn recover_claim(&self, transaction_id: String, now_ms: i64) -> (r: Result<
        ClaimOutcomeOutput,
        JsError,
    >)
        requires
            self.wf(),
        ensures
            match r {
                Ok(o) => recover_claim_reply(self.tables(), transaction_id@, now_ms) == Ok::<
                    ClaimOutcomeOutputView,
                    JsErrorView,
                >(o@),
                Err(e) => recover_claim_reply(self.tables(), transaction_id@, now_ms) == Err::<
                    ClaimOutcomeOutputView,
                    JsErrorView,
                >(e@),
            },
    {
        let s = match self.store() {
            Ok(s) => s,
            Err(e) => return Err(e),
        };
        let id = match parse_id("transactionId", transaction_id.as_str()) {
            Ok(id) => id,
            Err(e) => return Err(e),
        };
        Ok(ClaimOutcomeOutput::of_recovery(s.recover_claim(id, now_ms)))
    }

    /// Recovers an indeterminate commit.
    pub fn recover_transaction(&self, transaction_id: String) -> (r: Result<
        TransactionRecoveryOutput,
        JsError,
    >)
        requires
            self.wf(),
        ensures
            match r {
                Ok(o) => recover_transaction_reply(self.tables(), transaction_id@) == Ok::<
                    TransactionRecoveryOutputView,
                    JsErrorView,
                >(o@),
                Err(e) => recover_transaction_reply(self.tables(), transaction_id@) == Err::<
                    TransactionRecoveryOutputView,
                    JsErrorView,
                >(e@),
            },
    {
        let s = match self.store() {
            Ok(s) => s,
            Err(e) => return Err(e),
        };
        let id = match parse_id("transactionId", transaction_id.as_str()) {
            Ok(id) => id,
            Err(e) => return Err(e),
        };
        Ok(transaction_output(s.recover_transaction(id)))
    }

    /// Lists jobs of a queue and in a state, where they are given, in enqueue
    /// order.
    pub fn jobs(&self, queue: Option<String>, state: Option<String>, limit: u32) -> (r: Result<
        Vec<JobInfoOutput>,
        JsError,
    >)
        requires
            self.wf(),
        ensures
            match r {
                Ok(list) => jobs_reply(self.tables(), opt_text(queue), opt_text(state), limit)
                    == Ok::<Seq<JobInfoOutputView>, JsErrorView>(info_output_views(list@)),
                Err(e) => jobs_reply(self.tables(), opt_text(queue), opt_text(state), limit)
                    == Err::<Seq<JobInfoOutputView>, JsErrorView>(e@),
            },
    {
        let wanted_state = match parse_opt_state(&state) {
            Ok(s) => s,
            Err(e) => return Err(e),
        };
        let s = match self.store() {
            Ok(s) => s,
            Err(e) => return Err(e),
        };
        let found = s.list_jobs(borrowed(&queue), wanted_state, limit as usize);
        Ok(job_info_outputs(&found))
    }

    /// Looks up one job.
    pub fn job(&self, job_id: String) -> (r: Result<Option<JobInfoOutput>, JsError>)
        requires
            self.wf(),
        ensures
            match (job_reply(self.tables(), job_id@), r) {
                (Ok(Some(shown)), Ok(Some(o))) => o@ == shown,
                (Ok(None), Ok(None)) => true,
                (Err(e), Err(x)) => x@ == e,
                _ => false,
            },
    {
        let s = match self.store() {
            Ok(s) => s,
            Err(e) => return Err(e),
        };
        let id = match parse_id("jobId", job_id.as_str()) {
            Ok(id) => id,
            Err(e) => return Err(e),
        };
        match s.get_job(id) {
            Some(info) => Ok(Some(job_info_output(info))),
            None => Ok(None),
        }
    }

    /// Lists one page of jobs behind a cursor, and gives the cursor for the
    /// next page; the first page is behind zero.
    pub fn jobs_page(
        &self,
        queue: Option<String>,
        state: Option<String>,
        after_sequence: i64,
        limit: u32,
    ) -> (r: Result<JobsPageOutput, JsError>)
        requires
            self.wf(),
        ensures
            match (
                jobs_page_reply(
                    self.tables(),
                    opt_text(queue),
                    opt_text(state),
                    after_sequence,
                    limit,
                ),
                r,
            ) {
                (Ok((jobs, next)), Ok(page)) => info_output_views(page.jobs@) == jobs
                    && page.next_after_sequence == next,
                (Err(e), Err(x)) => x@ == e,
                _ => false,
            },
    {
        let wanted_state = match parse_opt_state(&state) {
            Ok(s) => s,
            Err(e) => return Err(e),
        };
        let s = match self.store() {
            Ok(s) => s,
            Err(e) => return Err(e),
        };
        match s.list_jobs_page(
            borrowed(&queue),
            wanted_state,
            after_sequence as u64,
            limit as usize,
        ) {
            Ok((found, cursor)) => Ok(
                JobsPageOutput {
                    jobs: job_info_outputs(&found),
                    next_after_sequence: cursor as i64,
                },
            ),
            Err(e) => Err(map_error(e)),
        }
    }

    /// The value of a projection under a key.
    pub fn projection_get(&self, projection: String, key: Vec<u8>) -> (r: Result<
        Option<Vec<u8>>,
        JsError,
    >)
        requires
            self.wf(),
        ensures
            match (self.tables(), r) {
                (None, Err(e)) => e@ == closed_error(),
                (Some(t), Ok(Some(v))) => find_entry(t.entries, projection@, key@) == Some(v@),
                (Some(t), Ok(None)) => find_entry(t.entries, projection@, key@) is None,
                _ => false,
            },
    {
        match self.store() {
            Ok(s) => Ok(s.projection_get(projection.as_str(), &key)),
            Err(e) => Err(e),
        }
    }

    /// The version of a projection, zero where it does not exist.
    pub fn projection_version(&self, projection: String) -> (r: Result<i64, JsError>)
        requires
            self.wf(),
        ensures
            match (self.tables(), r) {
                (None, Err(e)) => e@ == closed_error(),
                (Some(t), Ok(v)) => v == version_of(t.projections, projection@),
                _ => false,
            },
    {
        match self.store() {
            Ok(s) => Ok(s.projection_version(projection.as_str()) as i64),
            Err(e) => Err(e),
        }
    }

    /// The version of a stream, zero where it does not exist.
    pub fn stream_version(&self, stream_id: String) -> (r: Result<i64, JsError>)
        requires
            self.wf(),
        ensures
            match (self.tables(), r) {
                (None, Err(e)) => e@ == closed_error(),
                (Some(t), Ok(v)) => v == stream_head(t.events, stream_id@),
                _ => false,
            },
    {
        match self.store() {
            Ok(s) => Ok(s.stream_version(stream_id.as_str()) as i64),
            Err(e) => Err(e),
        }
    }

    /// The events behind a global sequence, oldest first.
    pub fn events_after(&self, after: i64, limit: u32) -> (r: Result<
        Vec<PersistedEventOutput>,
        JsError,
    >)
        requires
            self.wf(),
        ensures
            match (self.tables(), r) {
                (None, Err(e)) => e@ == closed_error(),
                (Some(t), Ok(events)) => event_output_views(events@) == events_shown(
                    events_behind(t, after as u64, limit as nat),
                ),
                _ => false,
            },
    {
        match self.store() {
            Ok(s) => {
                let found = s.events_after(after as u64, limit as usize);
                Ok(persisted_event_outputs(&found))
            }
            Err(e) => Err(e),
        }
    }
}

} // verus!
