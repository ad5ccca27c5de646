//! The job operations of a commit: enqueue, acknowledge, fail, cancel, resolve.
//!
//! Missing jobs and stale lease tokens are validation errors; steps that the
//! state machine does not have are [`Conflict::JobTransition`]s. An operation
//! that fails leaves the store as it was.
use vstd::prelude::*;

use crate::error::{
    Conflict, ConflictView, Error, ErrorView, StorageError, StorageErrorView, ValidationError,
};
use crate::id::{hex_of, Id};
use crate::jobs::{JobAck, JobCancellation, JobFailure, JobResolution, JobSpec, JobSpecView};
use crate::row::{row_views, JobRow, JobRowView};
use crate::rows::PartitionRow;
use crate::state::{can_step, terminal, JobState, Resolution};
use crate::steps::{
    after_enqueue, after_finish, drained, enqueued, finished, lemma_enqueue, lemma_finish,
    lemma_release, lemma_replace_active, next_sequence, released, with_job,
};
use crate::store::ControlPlaneStore;
use crate::tables::{
    active_in, find_job, has_active, has_job, lemma_found, lemma_replace_job, row_fits, Tables,
};
use crate::text::{join2, join3};
use crate::values::{copy_opt_bytes, opt_bytes};

verus! {

/// The delay before a retry when a failure does not name a time.
pub const DEFAULT_RETRY_DELAY_MS: i64 = 30_000;

/// The text inside an optional string slice.
pub open spec fn opt_str(o: Option<&str>) -> Option<Seq<char>> {
    match o {
        Some(s) => Some(s@),
        None => None,
    }
}

/// The error for a job that is not there.
pub open spec fn missing_job(job_id: Id) -> ErrorView {
    ErrorView::Validation("job "@ + hex_of(job_id) + " does not exist"@)
}

/// The error for a step that the state machine does not have.
pub open spec fn no_such_step(job: JobRowView, to: JobState) -> ErrorView {
    ErrorView::Conflict(ConflictView::JobTransition { job_id: job.job_id, from: job.state, to })
}

/// The error for a token that is not the current one.
pub open spec fn stale_token(job: JobRowView) -> ErrorView {
    ErrorView::Validation("stale lease token for job "@ + hex_of(job.job_id))
}

/// What enqueueing a job gives: the job must be new, there must be a sequence
/// number left, and it must have an attempt.
pub open spec fn enqueue_result(
    t: Tables,
    transaction_id: Id,
    spec: JobSpecView,
) -> Result<Tables, ErrorView> {
    if has_job(t.jobs, spec.job_id) {
        Err(ErrorView::Validation("job "@ + hex_of(spec.job_id) + " already exists"@))
    } else if next_sequence(t.jobs) > i64::MAX {
        Err(ErrorView::Storage(StorageErrorView::Sqlite("enqueue sequence exhausted"@)))
    } else if spec.max_attempts == 0 {
        Err(
            ErrorView::Storage(
                StorageErrorView::Sqlite("CHECK constraint failed: max_attempts >= 1"@),
            ),
        )
    } else {
        Ok(after_enqueue(t, spec, transaction_id))
    }
}

/// What acknowledging a job gives.
pub open spec fn ack_result(
    t: Tables,
    transaction_id: Id,
    now_ms: i64,
    job_id: Id,
    lease_token: Id,
    result_digest: Option<Seq<u8>>,
) -> Result<Tables, ErrorView> {
    match find_job(t.jobs, job_id) {
        None => Err(missing_job(job_id)),
        Some(job) => if !can_step(job.state, JobState::Succeeded) {
            Err(no_such_step(job, JobState::Succeeded))
        } else if job.lease_token != Some(lease_token) {
            Err(stale_token(job))
        } else {
            Ok(
                after_finish(
                    t,
                    job,
                    JobState::Succeeded,
                    now_ms,
                    transaction_id,
                    result_digest,
                    None,
                ),
            )
        },
    }
}

/// What a job failure gives: the job dies with its last attempt and waits for
/// a retry before that, until the given time or for the default delay.
pub open spec fn fail_result(
    t: Tables,
    transaction_id: Id,
    now_ms: i64,
    job_id: Id,
    lease_token: Id,
    error_summary: Seq<char>,
    retry_after_ms: Option<i64>,
) -> Result<Tables, ErrorView> {
    match find_job(t.jobs, job_id) {
        None => Err(missing_job(job_id)),
        Some(job) => {
            let to = if job.attempt >= job.max_attempts {
                JobState::Dead
            } else {
                JobState::RetryWait
            };
            if !can_step(job.state, to) {
                Err(no_such_step(job, to))
            } else if job.lease_token != Some(lease_token) {
                Err(stale_token(job))
            } else if to is Dead {
                Ok(
                    after_finish(
                        t,
                        job,
                        JobState::Dead,
                        now_ms,
                        transaction_id,
                        None,
                        Some(error_summary),
                    ),
                )
            } else if retry_after_ms is None && now_ms + DEFAULT_RETRY_DELAY_MS > i64::MAX {
                Err(
                    ErrorView::Validation(
                        "default retry timestamp overflows i64; supply retry_after_ms explicitly"@,
                    ),
                )
            } else {
                let retry_after = match retry_after_ms {
                    Some(ms) => ms,
                    None => (now_ms + DEFAULT_RETRY_DELAY_MS) as i64,
                };
                Ok(
                    with_job(
                        t,
                        JobRowView {
                            error_summary: Some(error_summary),
                            ..released(job, JobState::RetryWait, Some(retry_after), transaction_id)
                        },
                    ),
                )
            }
        },
    }
}

/// What cancelling a job gives. A pending job needs no token, and has none to
/// match; a leased job needs its current token.
pub open spec fn cancel_result(
    t: Tables,
    transaction_id: Id,
    now_ms: i64,
    c: JobCancellation,
) -> Result<Tables, ErrorView> {
    match find_job(t.jobs, c.job_id) {
        None => Err(missing_job(c.job_id)),
        Some(job) => if !can_step(job.state, JobState::Cancelled) {
            Err(no_such_step(job, JobState::Cancelled))
        } else if c.lease_token is Some && job.lease_token != c.lease_token {
            Err(stale_token(job))
        } else if c.lease_token is None && !(job.state is Pending) {
            Err(
                ErrorView::Validation(
                    "cancelling leased job "@ + hex_of(job.job_id) + " requires its lease token"@,
                ),
            )
        } else {
            Ok(after_finish(t, job, JobState::Cancelled, now_ms, transaction_id, None, None))
        },
    }
}

/// What resolving a job gives. Only an uncertain job can be resolved; a retry
/// without an attempt left kills the job instead.
pub open spec fn resolve_result(
    t: Tables,
    transaction_id: Id,
    now_ms: i64,
    r: JobResolution,
) -> Result<Tables, ErrorView> {
    match find_job(t.jobs, r.job_id) {
        None => Err(missing_job(r.job_id)),
        Some(job) => {
            let exhausted = job.attempt >= job.max_attempts;
            let to = match r.resolution {
                Resolution::Retry => if exhausted {
                    JobState::Dead
                } else {
                    JobState::Pending
                },
                Resolution::MarkSucceeded => JobState::Succeeded,
                Resolution::MarkDead => JobState::Dead,
            };
            if !(job.state is Uncertain) {
                Err(no_such_step(job, to))
            } else if to is Pending {
                Ok(with_job(t, released(job, JobState::Pending, None, transaction_id)))
            } else {
                let summary = match r.resolution {
                    Resolution::Retry => Some("retry resolution exhausted max_attempts"@),
                    Resolution::MarkSucceeded => None,
                    Resolution::MarkDead => Some("resolved as dead"@),
                };
                Ok(after_finish(t, job, to, now_ms, transaction_id, None, summary))
            }
        },
    }
}

/// An operation has done what `expected` says, and nothing where it failed.
pub open spec fn carried_out(
    before: Tables,
    after: Tables,
    result: Result<(), Error>,
    expected: Result<Tables, ErrorView>,
) -> bool {
    match result {
        Ok(_) => expected == Ok::<Tables, ErrorView>(after),
        Err(e) => expected == Err::<Tables, ErrorView>(e@) && after == before,
    }
}

/// The state machine must have a step from the state of `job` to `to`.
pub fn ensure_transition(job: &JobRow, to: JobState) -> (r: Result<(), Error>)
    ensures
        match r {
            Ok(_) => can_step(job@.state, to),
            Err(e) => !can_step(job@.state, to) && e@ == no_such_step(job@, to),
        },
{
    if job.state.can_transition_to(to) {
        Ok(())
    } else {
        Err(Error::Conflict(Conflict::JobTransition { job_id: job.job_id, from: job.state, to }))
    }
}

/// `token` must be the current lease token of `job`.
pub fn ensure_lease_token(job: &JobRow, token: Id) -> (r: Result<(), Error>)
    ensures
        match r {
            Ok(_) => job@.lease_token == Some(token),
            Err(e) => job@.lease_token != Some(token) && e@ == stale_token(job@),
        },
{
    let current = match job.lease_token {
        Some(t) => t == token,
        None => false,
    };
    if current {
        Ok(())
    } else {
        let hex = job.job_id.to_hex();
        Err(Error::Validation(ValidationError(join2("stale lease token for job ", hex.as_str()))))
    }
}

impl ControlPlaneStore {
    /// Loads the job with this identifier, which must exist.
    pub fn require_job(&self, job_id: Id) -> (r: Result<JobRow, Error>)
        requires
            self.wf(),
        ensures
            match r {
                Ok(job) => find_job(self@.jobs, job_id) == Some(job@),
                Err(e) => find_job(self@.jobs, job_id) is None && e@ == missing_job(job_id),
            },
    {
        match self.load_job(job_id) {
            Some(job) => Ok(job),
            None => {
                let hex = job_id.to_hex();
                Err(Error::Validation(ValidationError(join3("job ", hex.as_str(), " does not exist"))))
            }
        }
    }

    fn partition_is_active(&self, queue: &String, partition_key: &String) -> (r: bool)
        ensures
            r == has_active(self@.jobs, queue@, partition_key@),
    {
        let rows = self.job_rows();
        let mut i: usize = 0;
        while i < rows.len()
            invariant
                i <= rows@.len(),
                row_views(rows@) == self@.jobs,
                forall|j: int|
                    0 <= j < i ==> !active_in(#[trigger] self@.jobs[j], queue@, partition_key@),
            decreases rows@.len() - i,
        {
            assert(self@.jobs[i as int] == rows@[i as int]@);
            if rows[i].queue == *queue && rows[i].partition_key == *partition_key
                && !rows[i].state.is_terminal() {
                return true;
            }
            i += 1;
        }
        false
    }

    /// Takes the partition from `active_partitions` when no unfinished job
    /// remains in it.
    pub(crate) fn drain_partition_if_empty(&mut self, queue: &String, partition_key: &String)
        requires
            old(self).recorded(),
        ensures
            final(self).recorded(),
            final(self).base() == old(self).base(),
            final(self)@ == drained(old(self)@, queue@, partition_key@),
    {
        if !self.partition_is_active(queue, partition_key) {
            self.delete_partition(queue.as_str(), partition_key.as_str());
        }
    }

    /// Finishes a job and drains its partition.
    pub(crate) fn set_terminal(
        &mut self,
        job: &JobRow,
        state: JobState,
        now_ms: i64,
        transaction_id: Id,
        result_digest: &Option<Vec<u8>>,
        error_summary: Option<&str>,
    )
        requires
            old(self).wf(),
            find_job(old(self)@.jobs, job@.job_id) == Some(job@),
            terminal(state),
        ensures
            final(self).wf(),
            final(self).base() == old(self).base(),
            final(self)@ == after_finish(
                old(self)@,
                job@,
                state,
                now_ms,
                transaction_id,
                opt_bytes(*result_digest),
                opt_str(error_summary),
            ),
    {
        let mut row = job.clone();
        row.state = state;
        row.lease_token = None;
        row.worker_id = None;
        row.lease_expires_at_ms = None;
        row.retry_after_ms = None;
        row.terminal_at_ms = Some(now_ms);
        if result_digest.is_some() {
            row.result_digest = copy_opt_bytes(result_digest);
        }
        if let Some(s) = error_summary {
            row.error_summary = Some(s.to_owned());
        }
        row.updated_transaction_id = transaction_id.as_bytes();
        proof {
            lemma_finish(
                self@,
                job@,
                state,
                now_ms,
                transaction_id,
                opt_bytes(*result_digest),
                opt_str(error_summary),
            );
            assert(row@ =~= finished(
                job@,
                state,
                now_ms,
                transaction_id,
                opt_bytes(*result_digest),
                opt_str(error_summary),
            ));
        }
        self.update_job(row);
        self.drain_partition_if_empty(&job.queue, &job.partition_key);
    }

    /// Takes the lease from a job that does not finish.
    pub(crate) fn set_nonterminal(
        &mut self,
        job: &JobRow,
        state: JobState,
        retry_after_ms: Option<i64>,
        transaction_id: Id,
    )
        requires
            old(self).wf(),
            find_job(old(self)@.jobs, job@.job_id) == Some(job@),
            !terminal(job@.state),
            state is Pending || state is RetryWait || state is Uncertain,
            state is RetryWait <==> retry_after_ms is Some,
            state is Pending || state is RetryWait ==> job@.attempt < job@.max_attempts,
        ensures
            final(self).wf(),
            final(self).base() == old(self).base(),
            final(self)@ == with_job(
                old(self)@,
                released(job@, state, retry_after_ms, transaction_id),
            ),
    {
        let mut row = job.clone();
        row.state = state;
        row.lease_token = None;
        row.worker_id = None;
        row.lease_expires_at_ms = None;
        row.retry_after_ms = retry_after_ms;
        row.updated_transaction_id = transaction_id.as_bytes();
        proof {
            lemma_release(self@, job@, state, retry_after_ms, transaction_id);
            assert(row@ =~= released(job@, state, retry_after_ms, transaction_id));
        }
        self.update_job(row);
    }

    /// Enqueues a job.
    pub fn apply_enqueue(&mut self, transaction_id: Id, spec: &JobSpec) -> (r: Result<(), Error>)
        requires
            old(self).wf(),
        ensures
            final(self).wf(),
            final(self).base() == old(self).base(),
            carried_out(
                old(self)@,
                final(self)@,
                r,
                enqueue_result(old(self)@, transaction_id, spec@),
            ),
    {
        if self.load_job(spec.job_id).is_some() {
            let hex = spec.job_id.to_hex();
            return Err(
                Error::Validation(ValidationError(join3("job ", hex.as_str(), " already exists"))),
            );
        }
        let rows = self.job_rows();
        let count = rows.len();
        let sequence: i64 = if count == 0 {
            1
        } else {
            let last = rows[count - 1].enqueue_sequence;
            assert(self@.jobs.last() == rows@[count - 1]@);
            if last == i64::MAX {
                return Err(Error::Storage(StorageError::sqlite("enqueue sequence exhausted")));
            }
            last + 1
        };
        if spec.max_attempts == 0 {
            return Err(
                Error::Storage(StorageError::sqlite("CHECK constraint failed: max_attempts >= 1")),
            );
        }
        proof {
            lemma_enqueue(self@, spec@, transaction_id);
        }
        let copy = spec.clone();
        let row = JobRow {
            job_id: copy.job_id,
            enqueue_sequence: sequence,
            queue: copy.queue,
            partition_key: copy.partition_key,
            payload: copy.payload,
            not_before_ms: copy.not_before_ms,
            max_attempts: copy.max_attempts,
            effect_mode: copy.effect_mode,
            idempotency_key: copy.idempotency_key,
            state: JobState::Pending,
            attempt: 0,
            lease_token: None,
            worker_id: None,
            lease_expires_at_ms: None,
            retry_after_ms: None,
            terminal_at_ms: None,
            result_digest: None,
            error_summary: None,
            enqueue_transaction_id: transaction_id.as_bytes(),
            updated_transaction_id: transaction_id.as_bytes(),
        };
        assert(row@ =~= enqueued(spec@, sequence, transaction_id));
        self.insert_job(row);
        self.insert_partition(
            PartitionRow {
                queue: spec.queue.clone(),
                partition_key: spec.partition_key.clone(),
                first_active_sequence: sequence,
            },
        );
        Ok(())
    }

    /// Acknowledges a leased job.
    pub fn apply_ack(&mut self, transaction_id: Id, now_ms: i64, ack: &JobAck) -> (r: Result<
        (),
        Error,
    >)
        requires
            old(self).wf(),
        ensures
            final(self).wf(),
            final(self).base() == old(self).base(),
            carried_out(
                old(self)@,
                final(self)@,
                r,
                ack_result(
                    old(self)@,
                    transaction_id,
                    now_ms,
                    ack.job_id,
                    ack.lease_token,
                    opt_bytes(ack.result_digest),
                ),
            ),
    {
        let job = match self.require_job(ack.job_id) {
            Ok(job) => job,
            Err(e) => return Err(e),
        };
        proof {
            let _ = lemma_found(self@.jobs, ack.job_id);
        }
        if let Err(e) = ensure_transition(&job, JobState::Succeeded) {
            return Err(e);
        }
        if let Err(e) = ensure_lease_token(&job, ack.lease_token) {
            return Err(e);
        }
        self.set_terminal(
            &job,
            JobState::Succeeded,
            now_ms,
            transaction_id,
            &ack.result_digest,
            None,
        );
        Ok(())
    }

    /// Records the failure of a leased job.
    pub fn apply_fail(&mut self, transaction_id: Id, now_ms: i64, failure: &JobFailure) -> (r: Result<
        (),
        Error,
    >)
        requires
            old(self).wf(),
        ensures
            final(self).wf(),
            final(self).base() == old(self).base(),
            carried_out(
                old(self)@,
                final(self)@,
                r,
                fail_result(
                    old(self)@,
                    transaction_id,
                    now_ms,
                    failure.job_id,
                    failure.lease_token,
                    failure.error_summary@,
                    failure.retry_after_ms,
                ),
            ),
    {
        let job = match self.require_job(failure.job_id) {
            Ok(job) => job,
            Err(e) => return Err(e),
        };
        proof {
            let k = lemma_found(self@.jobs, failure.job_id);
            assert(row_fits(self@.jobs[k]));
        }
        let exhausted = job.attempt >= job.max_attempts;
        let to = if exhausted {
            JobState::Dead
        } else {
            JobState::RetryWait
        };
        if let Err(e) = ensure_transition(&job, to) {
            return Err(e);
        }
        if let Err(e) = ensure_lease_token(&job, failure.lease_token) {
            return Err(e);
        }
        if exhausted {
            self.set_terminal(
                &job,
                JobState::Dead,
                now_ms,
                transaction_id,
                &None,
                Some(failure.error_summary.as_str()),
            );
        } else {
            let retry_after = match failure.retry_after_ms {
                Some(ms) => ms,
                None => match now_ms.checked_add(DEFAULT_RETRY_DELAY_MS) {
                    Some(ms) => ms,
                    None => {
                        return Err(
                            Error::Validation(
                                ValidationError::new(
                                    "default retry timestamp overflows i64; supply retry_after_ms explicitly",
                                ),
                            ),
                        );
                    }
                },
            };
            let ghost before = self@;
            let ghost mid = released(job@, JobState::RetryWait, Some(retry_after), transaction_id);
            self.set_nonterminal(&job, JobState::RetryWait, Some(retry_after), transaction_id);
            proof {
                lemma_replace_job(before.jobs, mid);
            }
            if let Some(waiting) = self.load_job(failure.job_id) {
                let mut row = waiting;
                row.error_summary = Some(failure.error_summary.clone());
                proof {
                    let k = lemma_found(self@.jobs, failure.job_id);
                    assert(row_fits(self@.jobs[k]));
                    lemma_replace_active(self@, row@);
                    assert(with_job(with_job(before, mid), row@).jobs =~= with_job(
                        before,
                        row@,
                    ).jobs);
                }
                self.update_job(row);
            }
        }
        Ok(())
    }

    /// Cancels a job.
    pub fn apply_cancel(
        &mut self,
        transaction_id: Id,
        now_ms: i64,
        cancellation: &JobCancellation,
    ) -> (r: Result<(), Error>)
        requires
            old(self).wf(),
        ensures
            final(self).wf(),
            final(self).base() == old(self).base(),
            carried_out(
                old(self)@,
                final(self)@,
                r,
                cancel_result(old(self)@, transaction_id, now_ms, *cancellation),
            ),
    {
        let job = match self.require_job(cancellation.job_id) {
            Ok(job) => job,
            Err(e) => return Err(e),
        };
        proof {
            let _ = lemma_found(self@.jobs, cancellation.job_id);
        }
        if let Err(e) = ensure_transition(&job, JobState::Cancelled) {
            return Err(e);
        }
        match cancellation.lease_token {
            Some(token) => {
                if let Err(e) = ensure_lease_token(&job, token) {
                    return Err(e);
                }
            }
            None => {
                if job.state != JobState::Pending {
                    let hex = job.job_id.to_hex();
                    return Err(
                        Error::Validation(
                            ValidationError(
                                join3(
                                    "cancelling leased job ",
                                    hex.as_str(),
                                    " requires its lease token",
                                ),
                            ),
                        ),
                    );
                }
            }
        }
        self.set_terminal(&job, JobState::Cancelled, now_ms, transaction_id, &None, None);
        Ok(())
    }

    /// Resolves an uncertain job.
    pub fn apply_resolve(
        &mut self,
        transaction_id: Id,
        now_ms: i64,
        resolution: &JobResolution,
    ) -> (r: Result<(), Error>)
        requires
            old(self).wf(),
        ensures
            final(self).wf(),
            final(self).base() == old(self).base(),
            carried_out(
                old(self)@,
                final(self)@,
                r,
                resolve_result(old(self)@, transaction_id, now_ms, *resolution),
            ),
    {
        let job = match self.require_job(resolution.job_id) {
            Ok(job) => job,
            Err(e) => return Err(e),
        };
        proof {
            let k = lemma_found(self@.jobs, resolution.job_id);
            assert(row_fits(self@.jobs[k]));
        }
        match resolution.resolution {
            Resolution::Retry => {
                // A job with no attempts left cannot become pending again.
                if job.attempt >= job.max_attempts {
                    if let Err(e) = ensure_uncertain(&job, JobState::Dead) {
                        return Err(e);
                    }
                    self.set_terminal(
                        &job,
                        JobState::Dead,
                        now_ms,
                        transaction_id,
                        &None,
                        Some("retry resolution exhausted max_attempts"),
                    );
                } else {
                    if let Err(e) = ensure_uncertain(&job, JobState::Pending) {
                        return Err(e);
                    }
                    self.set_nonterminal(&job, JobState::Pending, None, transaction_id);
                }
            }
            Resolution::MarkSucceeded => {
                if let Err(e) = ensure_uncertain(&job, JobState::Succeeded) {
                    return Err(e);
                }
                self.set_terminal(&job, JobState::Succeeded, now_ms, transaction_id, &None, None);
            }
            Resolution::MarkDead => {
                if let Err(e) = ensure_uncertain(&job, JobState::Dead) {
                    return Err(e);
                }
                self.set_terminal(
                    &job,
                    JobState::Dead,
                    now_ms,
                    transaction_id,
                    &None,
                    Some("resolved as dead"),
                );
            }
        }
        Ok(())
    }
}

/// Only an uncertain job can be resolved to `to`.
fn ensure_uncertain(job: &JobRow, to: JobState) -> (r: Result<(), Error>)
    requires
        can_step(JobState::Uncertain, to),
    ensures
        match r {
            Ok(_) => job@.state is Uncertain,
            Err(e) => !(job@.state is Uncertain) && e@ == no_such_step(job@, to),
        },
{
    if job.state == JobState::Uncertain {
        ensure_transition(job, to)
    } else {
        Err(Error::Conflict(Conflict::JobTransition { job_id: job.job_id, from: job.state, to }))
    }
}

} // verus!
