//! Rows of the `jobs` table and their decoding from stored columns.
use vstd::prelude::*;

use crate::error::{StorageError, StorageErrorView};
use crate::id::{big_endian, big_endian_value, law_bytes_round_trip, lemma_sixteen_bytes_fit, Id};
use crate::jobs::{JobInfo, JobInfoView, JobSpec, JobSpecView};
use crate::state::{
    effect_code, effect_of_code, law_codes_round_trip, state_code, state_of_code, terminal,
    EffectMode, JobState,
};
use crate::text::{join2, signed_decimal, signed_decimal_text};
use crate::values::{copy_bytes, copy_opt_bytes, copy_opt_text, opt_bytes, opt_text};

verus! {

/// The stored columns of one job, as the database hands them out.
#[derive(PartialEq, Eq, Debug)]
pub struct JobColumns {
    pub job_id: Vec<u8>,
    pub enqueue_sequence: i64,
    pub queue: String,
    pub partition_key: String,
    pub payload: Vec<u8>,
    pub not_before_ms: i64,
    pub max_attempts: i64,
    pub effect_mode: i64,
    pub idempotency_key: Option<String>,
    pub state: i64,
    pub attempt: i64,
    pub lease_token: Option<Vec<u8>>,
    pub worker_id: Option<String>,
    pub lease_expires_at_ms: Option<i64>,
    pub retry_after_ms: Option<i64>,
    pub terminal_at_ms: Option<i64>,
    pub result_digest: Option<Vec<u8>>,
    pub error_summary: Option<String>,
    pub enqueue_transaction_id: Vec<u8>,
    pub updated_transaction_id: Vec<u8>,
}

/// A fully decoded row of the `jobs` table. The transactions that enqueued and
/// last changed the job are bookkeeping: their columns are kept as stored.
#[derive(PartialEq, Eq, Debug)]
pub struct JobRow {
    pub job_id: Id,
    pub enqueue_sequence: i64,
    pub queue: String,
    pub partition_key: String,
    pub payload: Vec<u8>,
    pub not_before_ms: i64,
    pub max_attempts: u32,
    pub effect_mode: EffectMode,
    pub idempotency_key: Option<String>,
    pub state: JobState,
    pub attempt: u32,
    pub lease_token: Option<Id>,
    pub worker_id: Option<String>,
    pub lease_expires_at_ms: Option<i64>,
    pub retry_after_ms: Option<i64>,
    pub terminal_at_ms: Option<i64>,
    pub result_digest: Option<Vec<u8>>,
    pub error_summary: Option<String>,
    pub enqueue_transaction_id: Vec<u8>,
    pub updated_transaction_id: Vec<u8>,
}

/// The view of a [`JobRow`].
#[verifier::ext_equal]
pub struct JobRowView {
    pub job_id: Id,
    pub enqueue_sequence: i64,
    pub queue: Seq<char>,
    pub partition_key: Seq<char>,
    pub payload: Seq<u8>,
    pub not_before_ms: i64,
    pub max_attempts: u32,
    pub effect_mode: EffectMode,
    pub idempotency_key: Option<Seq<char>>,
    pub state: JobState,
    pub attempt: u32,
    pub lease_token: Option<Id>,
    pub worker_id: Option<Seq<char>>,
    pub lease_expires_at_ms: Option<i64>,
    pub retry_after_ms: Option<i64>,
    pub terminal_at_ms: Option<i64>,
    pub result_digest: Option<Seq<u8>>,
    pub error_summary: Option<Seq<char>>,
    pub enqueue_transaction_id: Seq<u8>,
    pub updated_transaction_id: Seq<u8>,
}

impl View for JobRow {
    type V = JobRowView;

    open spec fn view(&self) -> JobRowView {
        JobRowView {
            job_id: self.job_id,
            enqueue_sequence: self.enqueue_sequence,
            queue: self.queue@,
            partition_key: self.partition_key@,
            payload: self.payload@,
            not_before_ms: self.not_before_ms,
            max_attempts: self.max_attempts,
            effect_mode: self.effect_mode,
            idempotency_key: opt_text(self.idempotency_key),
            state: self.state,
            attempt: self.attempt,
            lease_token: self.lease_token,
            worker_id: opt_text(self.worker_id),
            lease_expires_at_ms: self.lease_expires_at_ms,
            retry_after_ms: self.retry_after_ms,
            terminal_at_ms: self.terminal_at_ms,
            result_digest: opt_bytes(self.result_digest),
            error_summary: opt_text(self.error_summary),
            enqueue_transaction_id: self.enqueue_transaction_id@,
            updated_transaction_id: self.updated_transaction_id@,
        }
    }
}

/// The views of a list of rows.
pub open spec fn row_views(s: Seq<JobRow>) -> Seq<JobRowView> {
    s.map_values(|r: JobRow| r@)
}

impl Clone for JobRow {
    fn clone(&self) -> (r: JobRow)
        ensures
            r@ == self@,
    {
        JobRow {
            job_id: self.job_id,
            enqueue_sequence: self.enqueue_sequence,
            queue: self.queue.clone(),
            partition_key: self.partition_key.clone(),
            payload: copy_bytes(&self.payload),
            not_before_ms: self.not_before_ms,
            max_attempts: self.max_attempts,
            effect_mode: self.effect_mode,
            idempotency_key: copy_opt_text(&self.idempotency_key),
            state: self.state,
            attempt: self.attempt,
            lease_token: self.lease_token,
            worker_id: copy_opt_text(&self.worker_id),
            lease_expires_at_ms: self.lease_expires_at_ms,
            retry_after_ms: self.retry_after_ms,
            terminal_at_ms: self.terminal_at_ms,
            result_digest: copy_opt_bytes(&self.result_digest),
            error_summary: copy_opt_text(&self.error_summary),
            enqueue_transaction_id: copy_bytes(&self.enqueue_transaction_id),
            updated_transaction_id: copy_bytes(&self.updated_transaction_id),
        }
    }
}

/// What a reader sees of a row: everything but the lease token and the
/// bookkeeping columns.
pub open spec fn info_of(r: JobRowView) -> JobInfoView {
    JobInfoView {
        job_id: r.job_id,
        spec: JobSpecView {
            job_id: r.job_id,
            queue: r.queue,
            partition_key: r.partition_key,
            payload: r.payload,
            not_before_ms: r.not_before_ms,
            max_attempts: r.max_attempts,
            effect_mode: r.effect_mode,
            idempotency_key: r.idempotency_key,
        },
        state: r.state,
        attempt: r.attempt,
        lease_expires_at_ms: r.lease_expires_at_ms,
        worker_id: r.worker_id,
        retry_after_ms: r.retry_after_ms,
        terminal_at_ms: r.terminal_at_ms,
        result_digest: r.result_digest,
        error_summary: r.error_summary,
    }
}

impl JobRow {
    /// What a reader sees of this row.
    pub fn into_info(self) -> (info: JobInfo)
        ensures
            info@ == info_of(self@),
    {
        JobInfo {
            job_id: self.job_id,
            spec: JobSpec {
                job_id: self.job_id,
                queue: self.queue,
                partition_key: self.partition_key,
                payload: self.payload,
                not_before_ms: self.not_before_ms,
                max_attempts: self.max_attempts,
                effect_mode: self.effect_mode,
                idempotency_key: self.idempotency_key,
            },
            state: self.state,
            attempt: self.attempt,
            lease_expires_at_ms: self.lease_expires_at_ms,
            worker_id: self.worker_id,
            retry_after_ms: self.retry_after_ms,
            terminal_at_ms: self.terminal_at_ms,
            result_digest: self.result_digest,
            error_summary: self.error_summary,
        }
    }
}

/// The identifier stored in a column, which must hold sixteen bytes.
pub open spec fn id_of_blob(blob: Seq<u8>) -> Result<Id, StorageErrorView> {
    if blob.len() == 16 {
        Ok(Id { value: big_endian_value(blob) as u128 })
    } else {
        Err(StorageErrorView::Sqlite("corrupt 16-byte id column"@))
    }
}

/// The identifier stored in a nullable column.
pub open spec fn opt_id_of_blob(blob: Option<Seq<u8>>) -> Result<Option<Id>, StorageErrorView> {
    match blob {
        None => Ok(None),
        Some(b) => match id_of_blob(b) {
            Ok(id) => Ok(Some(id)),
            Err(e) => Err(e),
        },
    }
}

/// Decodes an identifier column.
pub fn id_from_blob(blob: Vec<u8>) -> (r: Result<Id, StorageError>)
    ensures
        match r {
            Ok(id) => id_of_blob(blob@) == Ok::<Id, StorageErrorView>(id),
            Err(e) => id_of_blob(blob@) == Err::<Id, StorageErrorView>(e@),
        },
{
    if blob.len() != 16 {
        return Err(StorageError::sqlite("corrupt 16-byte id column"));
    }
    let mut bytes: [u8; 16] = [0u8; 16];
    let mut i: usize = 0;
    while i < 16
        invariant
            i <= 16,
            blob.len() == 16,
            forall|j: int| 0 <= j < i ==> bytes@[j] == blob@[j],
        decreases 16 - i,
    {
        bytes[i] = blob[i];
        i += 1;
    }
    proof {
        assert(bytes@ =~= blob@);
        lemma_sixteen_bytes_fit(blob@);
    }
    Ok(Id::from_bytes(bytes))
}

/// Decodes a nullable identifier column.
pub fn opt_id_from_blob(blob: Option<Vec<u8>>) -> (r: Result<Option<Id>, StorageError>)
    ensures
        match r {
            Ok(id) => opt_id_of_blob(opt_bytes(blob)) == Ok::<Option<Id>, StorageErrorView>(id),
            Err(e) => opt_id_of_blob(opt_bytes(blob)) == Err::<Option<Id>, StorageErrorView>(e@),
        },
{
    match blob {
        None => Ok(None),
        Some(b) => match id_from_blob(b) {
            Ok(id) => Ok(Some(id)),
            Err(e) => Err(e),
        },
    }
}

/// The row that stored columns decode to. The identifier is looked at first,
/// then the effect mode, the state and the lease token; the first one that does
/// not decode is the error. The two counters keep their low 32 bits.
pub open spec fn decoded(c: JobColumns) -> Result<JobRowView, StorageErrorView> {
    match (
        id_of_blob(c.job_id@),
        effect_of_code(c.effect_mode),
        state_of_code(c.state),
        opt_id_of_blob(opt_bytes(c.lease_token)),
    ) {
        (Err(e), _, _, _) => Err(e),
        (_, None, _, _) => Err(
            StorageErrorView::Sqlite("corrupt effect mode "@ + signed_decimal(c.effect_mode as int)),
        ),
        (_, _, None, _) => Err(
            StorageErrorView::Sqlite("corrupt job state "@ + signed_decimal(c.state as int)),
        ),
        (_, _, _, Err(e)) => Err(e),
        (Ok(job_id), Some(effect_mode), Some(state), Ok(lease_token)) => Ok(
            JobRowView {
                job_id,
                enqueue_sequence: c.enqueue_sequence,
                queue: c.queue@,
                partition_key: c.partition_key@,
                payload: c.payload@,
                not_before_ms: c.not_before_ms,
                max_attempts: c.max_attempts as u32,
                effect_mode,
                idempotency_key: opt_text(c.idempotency_key),
                state,
                attempt: c.attempt as u32,
                lease_token,
                worker_id: opt_text(c.worker_id),
                lease_expires_at_ms: c.lease_expires_at_ms,
                retry_after_ms: c.retry_after_ms,
                terminal_at_ms: c.terminal_at_ms,
                result_digest: opt_bytes(c.result_digest),
                error_summary: opt_text(c.error_summary),
                enqueue_transaction_id: c.enqueue_transaction_id@,
                updated_transaction_id: c.updated_transaction_id@,
            },
        ),
    }
}

/// Decodes the stored columns of a job.
pub fn row_to_job(c: JobColumns) -> (r: Result<JobRow, StorageError>)
    ensures
        match r {
            Ok(row) => decoded(c) == Ok::<JobRowView, StorageErrorView>(row@),
            Err(e) => decoded(c) == Err::<JobRowView, StorageErrorView>(e@),
        },
{
    let job_id = match id_from_blob(c.job_id) {
        Ok(id) => id,
        Err(e) => return Err(e),
    };
    let effect_mode = match EffectMode::decode(c.effect_mode) {
        Some(m) => m,
        None => {
            let code = signed_decimal_text(c.effect_mode);
            return Err(StorageError::Sqlite(join2("corrupt effect mode ", code.as_str())));
        }
    };
    let state = match JobState::decode(c.state) {
        Some(s) => s,
        None => {
            let code = signed_decimal_text(c.state);
            return Err(StorageError::Sqlite(join2("corrupt job state ", code.as_str())));
        }
    };
    let lease_token = match opt_id_from_blob(c.lease_token) {
        Ok(t) => t,
        Err(e) => return Err(e),
    };
    Ok(
        JobRow {
            job_id,
            enqueue_sequence: c.enqueue_sequence,
            queue: c.queue,
            partition_key: c.partition_key,
            payload: c.payload,
            not_before_ms: c.not_before_ms,
            max_attempts: #[verifier::truncate] (c.max_attempts as u32),
            effect_mode,
            idempotency_key: c.idempotency_key,
            state,
            attempt: #[verifier::truncate] (c.attempt as u32),
            lease_token,
            worker_id: c.worker_id,
            lease_expires_at_ms: c.lease_expires_at_ms,
            retry_after_ms: c.retry_after_ms,
            terminal_at_ms: c.terminal_at_ms,
            result_digest: c.result_digest,
            error_summary: c.error_summary,
            enqueue_transaction_id: c.enqueue_transaction_id,
            updated_transaction_id: c.updated_transaction_id,
        },
    )
}

/// The bytes of an identifier column.
pub open spec fn id_blob(id: Id) -> Seq<u8> {
    big_endian(id.value as nat, 16)
}

/// The columns `c` store the row `r`.
pub open spec fn stored(r: JobRowView, c: JobColumns) -> bool {
    &&& c.job_id@ == id_blob(r.job_id)
    &&& c.enqueue_sequence == r.enqueue_sequence
    &&& c.queue@ == r.queue
    &&& c.partition_key@ == r.partition_key
    &&& c.payload@ == r.payload
    &&& c.not_before_ms == r.not_before_ms
    &&& c.max_attempts == r.max_attempts
    &&& c.effect_mode == effect_code(r.effect_mode)
    &&& opt_text(c.idempotency_key) == r.idempotency_key
    &&& c.state == state_code(r.state)
    &&& c.attempt == r.attempt
    &&& opt_bytes(c.lease_token) == match r.lease_token {
        Some(t) => Some(id_blob(t)),
        None => None,
    }
    &&& opt_text(c.worker_id) == r.worker_id
    &&& c.lease_expires_at_ms == r.lease_expires_at_ms
    &&& c.retry_after_ms == r.retry_after_ms
    &&& c.terminal_at_ms == r.terminal_at_ms
    &&& opt_bytes(c.result_digest) == r.result_digest
    &&& opt_text(c.error_summary) == r.error_summary
    &&& c.enqueue_transaction_id@ == r.enqueue_transaction_id
    &&& c.updated_transaction_id@ == r.updated_transaction_id
}

/// Encodes a job for its stored columns.
pub fn job_to_row(r: &JobRow) -> (c: JobColumns)
    ensures
        stored(r@, c),
{
    JobColumns {
        job_id: r.job_id.as_bytes(),
        enqueue_sequence: r.enqueue_sequence,
        queue: r.queue.clone(),
        partition_key: r.partition_key.clone(),
        payload: copy_bytes(&r.payload),
        not_before_ms: r.not_before_ms,
        max_attempts: r.max_attempts as i64,
        effect_mode: r.effect_mode.encode(),
        idempotency_key: copy_opt_text(&r.idempotency_key),
        state: r.state.encode(),
        attempt: r.attempt as i64,
        lease_token: match r.lease_token {
            Some(t) => Some(t.as_bytes()),
            None => None,
        },
        worker_id: copy_opt_text(&r.worker_id),
        lease_expires_at_ms: r.lease_expires_at_ms,
        retry_after_ms: r.retry_after_ms,
        terminal_at_ms: r.terminal_at_ms,
        result_digest: copy_opt_bytes(&r.result_digest),
        error_summary: copy_opt_text(&r.error_summary),
        enqueue_transaction_id: copy_bytes(&r.enqueue_transaction_id),
        updated_transaction_id: copy_bytes(&r.updated_transaction_id),
    }
}

/// An identifier column reads back as the identifier that it stores.
pub proof fn lemma_id_blob(id: Id)
    ensures
        id_of_blob(id_blob(id)) == Ok::<Id, StorageErrorView>(id),
{
    law_bytes_round_trip(id);
}

/// A job decodes exactly when its identifier has sixteen bytes, its lease token
/// is absent or has sixteen, and both its codes are known; no other column
/// decides.
pub proof fn law_what_decides_decoding(c: JobColumns)
    ensures
        decoded(c) is Ok <==> {
            &&& c.job_id@.len() == 16
            &&& effect_of_code(c.effect_mode) is Some
            &&& state_of_code(c.state) is Some
            &&& match c.lease_token {
                Some(t) => t@.len() == 16,
                None => true,
            }
        },
{
}

/// Stored columns read back as the row that they store.
pub proof fn law_stored_jobs_read_back(r: JobRowView, c: JobColumns)
    requires
        stored(r, c),
    ensures
        decoded(c) == Ok::<JobRowView, StorageErrorView>(r),
{
    lemma_id_blob(r.job_id);
    if let Some(t) = r.lease_token {
        lemma_id_blob(t);
    }
    law_codes_round_trip(r.state, r.effect_mode, 0);
}

/// The columns agree with the state of the job: the lease columns are set
/// exactly while it is leased, the retry time exactly while it waits for a
/// retry, and the terminal time exactly once it is finished; it has an attempt,
/// and has not used a negative number of them.
pub open spec fn columns_ok(c: JobColumns) -> bool {
    match state_of_code(c.state) {
        None => false,
        Some(state) => {
            &&& c.max_attempts >= 1
            &&& c.attempt >= 0
            &&& state is Leased <==> c.lease_token is Some
            &&& state is Leased <==> c.worker_id is Some
            &&& state is Leased <==> c.lease_expires_at_ms is Some
            &&& state is RetryWait <==> c.retry_after_ms is Some
            &&& terminal(state) <==> c.terminal_at_ms is Some
        },
    }
}

/// Checks the columns of a job before they are stored.
pub fn check_columns(c: &JobColumns) -> (r: Result<(), StorageError>)
    ensures
        match r {
            Ok(_) => columns_ok(*c),
            Err(e) => !columns_ok(*c) && e@ == StorageErrorView::Sqlite(
                "CHECK constraint failed: jobs"@,
            ),
        },
{
    let ok = match JobState::decode(c.state) {
        None => false,
        Some(state) => {
            let leased = state == JobState::Leased;
            let waiting = state == JobState::RetryWait;
            c.max_attempts >= 1 && c.attempt >= 0 && leased == c.lease_token.is_some() && leased
                == c.worker_id.is_some() && leased == c.lease_expires_at_ms.is_some() && waiting
                == c.retry_after_ms.is_some() && state.is_terminal() == c.terminal_at_ms.is_some()
        }
    };
    if ok {
        Ok(())
    } else {
        Err(StorageError::sqlite("CHECK constraint failed: jobs"))
    }
}

} // verus!
