//! What the binding answers, in terms of what the store gives.
use vstd::prelude::*;

use crate::batch::{
    empty_batch, empty_patch, expecting, mutated, operating, BatchView, MutationView, OperationView,
    PatchView, PersistedEventView,
};
use crate::claim::claim_result;
use crate::commit::{transaction_recovery, TransactionRecovery};
use crate::commit_steps::commit_result;
use crate::error::{
    claim_error_of, conflict_message, lease_conflict_message, state_label, ClaimErrorView,
    CommitErrorView, ConflictView, ErrorView, LeaseConflict, LeaseErrorView, StorageErrorView,
};
use crate::id::{hex_of, id_of_hex, law_hex_round_trip, Id};
use crate::jobs::{
    ClaimOutcomeView, ClaimRecoveryView, ClaimedJobView, CommitReceipt, CommittedClaimsView,
    JobInfoView, LeaseExtension, LeaseExtensionReceipt,
};
use crate::lease::{after_extension, extension_conflict, extension_receipt};
use crate::listing::{infos, page_result, wanted_jobs};
use crate::listing_laws::{law_list_jobs, law_list_jobs_page, lists};
use crate::node::{
    claim_reply, commit_reply, job_reply, jobs_page_reply, jobs_reply, lease_reply,
    recover_claim_reply, recover_transaction_reply,
};
use crate::node_error::{
    closed_error, debug_text, law_state_names_round_trip, mapped_claim_error, mapped_commit_error,
    mapped_error, mapped_lease_error, parsed_durability, parsed_id, parsed_resolution, parsed_state,
    state_name, Durability, JsErrorView,
};
use crate::node_input::{built, claim_of, ClaimRequestInput, CommitBatchInput};
use crate::node_output::{
    committed_shown, events_shown, extension_shown, infos_shown, outcome_shown, receipt_shown,
    recovery_shown, transaction_shown, ClaimOutcomeOutputView, ClaimedJobOutputView,
    JobInfoOutputView,
};
use crate::recovery::recover_result;
use crate::seqs::at_most;
use crate::state::{JobState, Resolution};
use crate::tables::{find_job, sound, Tables};
use crate::text::{decimal, signed_decimal};

verus! {

/// The error has this code and message.
pub open spec fn says(e: JsErrorView, code: Seq<char>, message: Seq<char>) -> bool {
    e.code == code && e.message == message
}

/// What the database reported is passed on as it was, under the code of storage
/// errors, whatever was asked of it.
pub proof fn law_storage_errors(text: Seq<char>)
    ensures
        ({
            let sqlite = StorageErrorView::Sqlite(text);
            let drawn = StorageErrorView::Identifier(text);
            let code = "Storage"@;
            &&& says(mapped_error(ErrorView::Storage(sqlite)), code, text)
            &&& says(mapped_error(ErrorView::Storage(drawn)), code, text)
            &&& says(mapped_commit_error(CommitErrorView::Storage(sqlite)), code, text)
            &&& says(mapped_commit_error(CommitErrorView::Storage(drawn)), code, text)
            &&& says(mapped_claim_error(ClaimErrorView::Storage(sqlite)), code, text)
            &&& says(mapped_claim_error(ClaimErrorView::Storage(drawn)), code, text)
            &&& says(mapped_lease_error(LeaseErrorView::Storage(sqlite)), code, text)
            &&& says(mapped_lease_error(LeaseErrorView::Storage(drawn)), code, text)
            &&& claim_error_of(ErrorView::Storage(sqlite)) == ClaimErrorView::Storage(sqlite)
        }),
{
}

/// What is wrong with a request is passed on as it is, under the code of
/// validation errors.
pub proof fn law_validation_errors(text: Seq<char>)
    ensures
        says(mapped_error(ErrorView::Validation(text)), "Validation"@, text),
        says(mapped_commit_error(CommitErrorView::Validation(text)), "Validation"@, text),
        says(mapped_claim_error(ClaimErrorView::Validation(text)), "Validation"@, text),
        claim_error_of(ErrorView::Validation(text)) == ClaimErrorView::Validation(text),
        says(
            mapped_commit_error(CommitErrorView::DuplicateIdWithDifferentContent),
            "DuplicateIdWithDifferentContent"@,
            "transaction id reused with different content"@,
        ),
{
}

/// A conflict is told under the code of conflicts, or of lease conflicts where a
/// lease is extended by itself, and in the same words wherever it comes up.
pub proof fn law_conflicts(c: ConflictView, l: LeaseConflict)
    ensures
        mapped_error(ErrorView::Conflict(c)).code == "Conflict"@,
        mapped_commit_error(CommitErrorView::Conflict(c)).code == "Conflict"@,
        mapped_claim_error(ClaimErrorView::Conflict(c)).code == "Conflict"@,
        mapped_error(ErrorView::Conflict(c)).message == mapped_commit_error(
            CommitErrorView::Conflict(c),
        ).message,
        mapped_error(ErrorView::Conflict(c)).message == mapped_claim_error(
            ClaimErrorView::Conflict(c),
        ).message,
        claim_error_of(ErrorView::Conflict(c)) == ClaimErrorView::Conflict(c),
        mapped_lease_error(LeaseErrorView::Conflict(l)).code == "LeaseConflict"@,
        mapped_lease_error(LeaseErrorView::Conflict(l)).message == mapped_error(
            ErrorView::Conflict(ConflictView::Lease(l)),
        ).message,
{
}

/// In which words the conflicts are told: each names the job, stream or
/// projection, and what was asked and found.
pub proof fn law_words_of_conflicts(
    id: Id,
    from: JobState,
    to: JobState,
    name: Seq<char>,
    expected: u64,
    actual: u64,
    a: i64,
    b: i64,
)
    ensures
        conflict_message(ConflictView::JobTransition { job_id: id, from, to }) == "job "@ + hex_of(
            id,
        ) + " cannot go from "@ + state_label(from) + " to "@ + state_label(to),
        conflict_message(ConflictView::StreamVersion { stream_id: name, expected, actual })
            == "stream "@ + name + " expected at version "@ + decimal(expected as nat) + " is at "@
            + decimal(actual as nat),
        conflict_message(ConflictView::ProjectionVersion { projection: name, expected, actual })
            == "projection "@ + name + " expected at version "@ + decimal(expected as nat)
            + " is at "@ + decimal(actual as nat),
        lease_conflict_message(LeaseConflict::JobNotFound(id)) == "job "@ + hex_of(id)
            + " not found"@,
        lease_conflict_message(LeaseConflict::NotLeased { job_id: id, state: from }) == "job "@
            + hex_of(id) + " is not leased: "@ + state_label(from),
        lease_conflict_message(LeaseConflict::InvalidToken { job_id: id })
            == "invalid lease token for job "@ + hex_of(id),
        lease_conflict_message(
            LeaseConflict::Expired { job_id: id, lease_expires_at_ms: a, now_ms: b },
        ) == "lease of job "@ + hex_of(id) + " expired at "@ + signed_decimal(a as int) + ", now "@
            + signed_decimal(b as int),
        lease_conflict_message(
            LeaseConflict::ExpiryNotLater { job_id: id, current_ms: a, requested_ms: b },
        ) == "lease of job "@ + hex_of(id) + " expires at "@ + signed_decimal(a as int)
            + ", requested "@ + signed_decimal(b as int),
        state_label(JobState::Pending) == "Pending"@,
        state_label(JobState::Leased) == "Leased"@,
        state_label(JobState::RetryWait) == "RetryWait"@,
        state_label(JobState::Uncertain) == "Uncertain"@,
        state_label(JobState::Succeeded) == "Succeeded"@,
        state_label(JobState::Dead) == "Dead"@,
        state_label(JobState::Cancelled) == "Cancelled"@,
{
}

/// An indeterminate outcome says how to verify it, names the identifier to
/// verify it with, and quotes what the database reported. Nothing else of the
/// request is told: no proposed job and no token.
pub proof fn law_indeterminate_errors(id: Id, jobs: Seq<Id>, text: Seq<char>)
    ensures
        says(
            mapped_commit_error(
                CommitErrorView::Indeterminate { transaction_id: id, storage_error: text },
            ),
            "CommitIndeterminate"@,
            "commit outcome indeterminate; recoverTransaction to verify; transactionId="@ + hex_of(
                id,
            ) + " ("@ + text + ")"@,
        ),
        says(
            mapped_claim_error(
                ClaimErrorView::Indeterminate {
                    transaction_id: id,
                    proposed_jobs: jobs,
                    storage_error: text,
                },
            ),
            "ClaimIndeterminate"@,
            "claim outcome indeterminate; recoverClaim to verify; transactionId="@ + hex_of(id)
                + " ("@ + text + ")"@,
        ),
        says(
            mapped_lease_error(LeaseErrorView::Indeterminate { job_id: id, storage_error: text }),
            "LeaseIndeterminate"@,
            "lease extension outcome indeterminate; read the job to verify; jobId="@ + hex_of(id)
                + " ("@ + text + ")"@,
        ),
{
}

/// An identifier is read from the text that names it, and from no other.
pub proof fn law_parsed_ids(field: Seq<char>, text: Seq<char>)
    ensures
        id_of_hex(text) matches Some(id) ==> parsed_id(field, text) == Ok::<Id, JsErrorView>(id),
        id_of_hex(text) is None ==> (parsed_id(field, text) matches Err(e) && says(
            e,
            "InvalidId"@,
            field + ": invalid id "@ + debug_text(text),
        )),
{
}

/// The names of the resolutions and of the durabilities, and that there are no
/// others; a durability that is left out is the strict one.
pub proof fn law_parsed_names(text: Seq<char>)
    ensures
        parsed_resolution("retry"@) == Ok::<Resolution, JsErrorView>(Resolution::Retry),
        parsed_resolution("markSucceeded"@) == Ok::<Resolution, JsErrorView>(
            Resolution::MarkSucceeded,
        ),
        parsed_resolution("markDead"@) == Ok::<Resolution, JsErrorView>(Resolution::MarkDead),
        parsed_resolution(text) is Ok <==> text == "retry"@ || text == "markSucceeded"@ || text
            == "markDead"@,
        parsed_resolution(text) matches Err(e) ==> says(
            e,
            "Validation"@,
            "unknown resolution "@ + debug_text(text),
        ),
        parsed_durability(None) == Ok::<Durability, JsErrorView>(Durability::Strict),
        parsed_durability(Some("strict"@)) == Ok::<Durability, JsErrorView>(Durability::Strict),
        parsed_durability(Some("relaxed"@)) == Ok::<Durability, JsErrorView>(Durability::Relaxed),
        parsed_durability(Some(text)) is Ok <==> text == "strict"@ || text == "relaxed"@,
        parsed_durability(Some(text)) matches Err(e) ==> says(
            e,
            "Validation"@,
            "unknown durability "@ + debug_text(text),
        ),
{
    reveal_strlit("retry");
    reveal_strlit("markSucceeded");
    reveal_strlit("markDead");
    reveal_strlit("strict");
    reveal_strlit("relaxed");
    assert("retry"@.len() == 5 && "markSucceeded"@.len() == 13 && "markDead"@.len() == 8);
    assert("strict"@.len() == 6 && "relaxed"@.len() == 7);
}

/// The names of the states, and that a text that is none of them names no state.
pub proof fn law_names_of_states(text: Seq<char>, state: JobState)
    ensures
        state_name(JobState::Pending) == "pending"@,
        state_name(JobState::Leased) == "leased"@,
        state_name(JobState::RetryWait) == "retryWait"@,
        state_name(JobState::Uncertain) == "uncertain"@,
        state_name(JobState::Succeeded) == "succeeded"@,
        state_name(JobState::Dead) == "dead"@,
        state_name(JobState::Cancelled) == "cancelled"@,
        parsed_state(state_name(state)) == Ok::<JobState, JsErrorView>(state),
        parsed_state(text) matches Ok(s) ==> text == state_name(s),
        parsed_state(text) matches Err(e) ==> says(
            e,
            "Validation"@,
            "unknown job state "@ + debug_text(text),
        ),
{
    law_state_names_round_trip(state);
}

/// What is shown of a leased job is what the claim gave, its identifiers as text.
pub open spec fn shows_claimed(o: ClaimedJobOutputView, j: ClaimedJobView) -> bool {
    &&& id_of_hex(o.job_id) == Some(j.job_id)
    &&& id_of_hex(o.lease_token) == Some(j.lease_token)
    &&& o.queue == j.queue
    &&& o.partition_key == j.partition_key
    &&& o.payload == j.payload
    &&& o.worker_id == j.worker_id
    &&& o.attempt == j.attempt
    &&& o.lease_expires_at_ms == j.lease_expires_at_ms
    &&& o.idempotency_key == j.idempotency_key
}

/// What is shown of committed claims: the transaction, every leased job and
/// every stale one, in their order.
pub open spec fn shows_committed(o: ClaimOutcomeOutputView, c: CommittedClaimsView) -> bool {
    &&& o.kind == "committed"@
    &&& o.transaction_id is Some && id_of_hex(o.transaction_id->0) == Some(c.transaction_id)
    &&& o.jobs.len() == c.jobs.len()
    &&& forall|i: int| 0 <= i < c.jobs.len() ==> shows_claimed(o.jobs[i], #[trigger] c.jobs[i])
    &&& o.stale_jobs.len() == c.stale_jobs.len()
    &&& forall|i: int|
        0 <= i < c.stale_jobs.len() ==> id_of_hex(o.stale_jobs[i]) == Some(
            #[trigger] c.stale_jobs[i],
        )
}

/// What is shown where nothing was leased: the kind, and the transaction where
/// there is one.
pub open spec fn shows_none(o: ClaimOutcomeOutputView, kind: Seq<char>, id: Option<Id>) -> bool {
    &&& o.kind == kind
    &&& o.transaction_id is Some <==> id is Some
    &&& id is Some ==> id_of_hex(o.transaction_id->0) == id
    &&& o.jobs.len() == 0
    &&& o.stale_jobs.len() == 0
}

proof fn lemma_shows_committed(o: ClaimOutcomeOutputView, c: CommittedClaimsView)
    requires
        o == committed_shown(c),
    ensures
        shows_committed(o, c),
{
    law_hex_round_trip(c.transaction_id);
    assert forall|i: int| 0 <= i < c.jobs.len() implies shows_claimed(
        o.jobs[i],
        #[trigger] c.jobs[i],
    ) by {
        law_hex_round_trip(c.jobs[i].job_id);
        law_hex_round_trip(c.jobs[i].lease_token);
    }
    assert forall|i: int| 0 <= i < c.stale_jobs.len() implies id_of_hex(o.stale_jobs[i]) == Some(
        #[trigger] c.stale_jobs[i],
    ) by {
        law_hex_round_trip(c.stale_jobs[i]);
    }
}

/// The outcome of a claim is shown as it is.
pub proof fn law_shown_outcomes(outcome: ClaimOutcomeView)
    ensures
        match outcome {
            ClaimOutcomeView::Noop => shows_none(outcome_shown(outcome), "noop"@, None),
            ClaimOutcomeView::MaintenanceCommitted(id) => shows_none(
                outcome_shown(outcome),
                "maintenanceCommitted"@,
                Some(id),
            ),
            ClaimOutcomeView::Committed(c) => shows_committed(outcome_shown(outcome), c),
        },
{
    match outcome {
        ClaimOutcomeView::Noop => {},
        ClaimOutcomeView::MaintenanceCommitted(id) => {
            law_hex_round_trip(id);
        },
        ClaimOutcomeView::Committed(c) => {
            lemma_shows_committed(outcome_shown(outcome), c);
        },
    }
}

/// The recovery of a claim is shown as it is.
pub proof fn law_shown_recoveries(r: ClaimRecoveryView)
    ensures
        match r {
            ClaimRecoveryView::Absent => shows_none(recovery_shown(r), "absent"@, None),
            ClaimRecoveryView::MaintenanceCommitted(id) => shows_none(
                recovery_shown(r),
                "maintenanceCommitted"@,
                Some(id),
            ),
            ClaimRecoveryView::Committed(c) => shows_committed(recovery_shown(r), c),
        },
{
    match r {
        ClaimRecoveryView::Absent => {},
        ClaimRecoveryView::MaintenanceCommitted(id) => {
            law_hex_round_trip(id);
        },
        ClaimRecoveryView::Committed(c) => {
            lemma_shows_committed(recovery_shown(r), c);
        },
    }
}

/// Receipts are shown as they are, identifiers as text. A recovered transaction
/// is shown with its receipt, one that is not there without.
pub proof fn law_shown_receipts(receipt: CommitReceipt, lease: LeaseExtensionReceipt)
    ensures
        id_of_hex(receipt_shown(receipt).transaction_id) == Some(receipt.transaction_id),
        receipt.transaction_sequence <= i64::MAX ==> receipt_shown(receipt).transaction_sequence
            == receipt.transaction_sequence,
        receipt_shown(receipt).committed_at_ms == receipt.committed_at_ms,
        transaction_shown(TransactionRecovery::Committed(receipt)).kind == "committed"@,
        transaction_shown(TransactionRecovery::Committed(receipt)).receipt == Some(
            receipt_shown(receipt),
        ),
        transaction_shown(TransactionRecovery::Absent).kind == "absent"@,
        transaction_shown(TransactionRecovery::Absent).receipt is None,
        id_of_hex(extension_shown(lease).job_id) == Some(lease.job_id),
        extension_shown(lease).attempt == lease.attempt,
        extension_shown(lease).lease_expires_at_ms == lease.lease_expires_at_ms,
{
    law_hex_round_trip(receipt.transaction_id);
    law_hex_round_trip(lease.job_id);
}

/// What is shown of a job is what the store lists of it.
pub open spec fn shows_info(o: JobInfoOutputView, i: JobInfoView) -> bool {
    &&& id_of_hex(o.job_id) == Some(i.job_id)
    &&& o.queue == i.spec.queue
    &&& o.partition_key == i.spec.partition_key
    &&& o.state == state_name(i.state)
    &&& o.attempt == i.attempt
    &&& o.lease_expires_at_ms == i.lease_expires_at_ms
    &&& o.worker_id == i.worker_id
    &&& o.error_summary == i.error_summary
}

/// Jobs are shown one for one.
pub proof fn law_shown_jobs(s: Seq<JobInfoView>)
    ensures
        infos_shown(s).len() == s.len(),
        forall|i: int| 0 <= i < s.len() ==> shows_info(infos_shown(s)[i], #[trigger] s[i]),
{
    assert forall|i: int| 0 <= i < s.len() implies shows_info(
        infos_shown(s)[i],
        #[trigger] s[i],
    ) by {
        law_hex_round_trip(s[i].job_id);
    }
}

/// Events are shown one for one, as they are.
pub proof fn law_shown_events(s: Seq<PersistedEventView>)
    ensures
        events_shown(s).len() == s.len(),
        forall|i: int|
            0 <= i < s.len() ==> {
                let o = events_shown(s)[i];
                let e = #[trigger] s[i];
                &&& id_of_hex(o.transaction_id) == Some(e.transaction_id)
                &&& id_of_hex(o.event_id) == Some(e.event.event_id)
                &&& e.global_sequence <= i64::MAX ==> o.global_sequence == e.global_sequence
                &&& e.stream_version <= i64::MAX ==> o.stream_version == e.stream_version
                &&& o.stream_id == e.event.stream_id
                &&& o.event_type == e.event.event_type
                &&& o.occurred_at_ms == e.event.occurred_at_ms
                &&& o.payload == e.event.payload
            },
{
    assert forall|i: int| 0 <= i < s.len() implies id_of_hex(
        events_shown(s)[i].transaction_id,
    ) == Some((#[trigger] s[i]).transaction_id) && id_of_hex(events_shown(s)[i].event_id) == Some(
        s[i].event.event_id,
    ) by {
        law_hex_round_trip(s[i].transaction_id);
        law_hex_round_trip(s[i].event.event_id);
    }
}

/// A closed store answers that it is closed to whatever is otherwise in order.
pub proof fn law_closed_stores(
    batch: CommitBatchInput,
    claim: ClaimRequestInput,
    fresh: Seq<Id>,
    text: Seq<char>,
    token: Seq<char>,
    queue: Option<Seq<char>>,
    a: i64,
    b: i64,
    limit: u32,
)
    ensures
        says(closed_error(), "Closed"@, "store is closed"@),
        built(batch, fresh) is Ok ==> (commit_reply(None, batch, fresh) matches Err(e) && e
            == closed_error()),
        claim_reply(None, claim, fresh) matches Err(e) && e == closed_error(),
        lease_reply(None, text, token, a, b) matches Err(e) && e == closed_error(),
        recover_claim_reply(None, text, a) matches Err(e) && e == closed_error(),
        recover_transaction_reply(None, text) matches Err(e) && e == closed_error(),
        jobs_reply(None, queue, None, limit) matches Err(e) && e == closed_error(),
        jobs_page_reply(None, queue, None, a, limit) matches Err(e) && e == closed_error(),
        job_reply(None, text) matches Err(e) && e == closed_error(),
{
}

/// A commit is answered by what the store makes of the batch that the input is
/// built into, and where it cannot be built by the reason, whether or not the
/// store is open.
pub proof fn law_commit_replies(t: Option<Tables>, input: CommitBatchInput, fresh: Seq<Id>)
    ensures
        built(input, fresh) matches Err(e) ==> (commit_reply(t, input, fresh) matches Err(x) && x
            == e),
        built(input, fresh) matches Ok(b) ==> t is Some ==> match commit_result(t->0, b) {
            Ok(done) => commit_reply(t, input, fresh) matches Ok(given) && given == done,
            Err(e) => commit_reply(t, input, fresh) matches Err(x) && x == mapped_commit_error(e),
        },
{
}

/// A claim is answered by what the store makes of it.
pub proof fn law_claim_replies(t: Tables, input: ClaimRequestInput, fresh: Seq<Id>)
    ensures
        match claim_result(t, claim_of(input), fresh) {
            Ok(done) => claim_reply(Some(t), input, fresh) matches Ok(given) && given == done,
            Err(e) => claim_reply(Some(t), input, fresh) matches Err(x) && x == mapped_claim_error(
                e,
            ),
        },
{
}

/// A lease extension is answered by what the store makes of it, where its
/// identifiers are in order; the first that is not is reported.
pub proof fn law_lease_replies(
    t: Tables,
    job_id: Seq<char>,
    lease_token: Seq<char>,
    new_expiry_ms: i64,
    now_ms: i64,
)
    ensures
        ({
            let r = lease_reply(Some(t), job_id, lease_token, new_expiry_ms, now_ms);
            match (id_of_hex(job_id), id_of_hex(lease_token)) {
                (None, _) => r matches Err(e) && says(
                    e,
                    "InvalidId"@,
                    "jobId"@ + ": invalid id "@ + debug_text(job_id),
                ),
                (Some(_), None) => r matches Err(e) && says(
                    e,
                    "InvalidId"@,
                    "leaseToken"@ + ": invalid id "@ + debug_text(lease_token),
                ),
                (Some(job), Some(token)) => {
                    let e = LeaseExtension { job_id: job, lease_token: token, new_expiry_ms };
                    match extension_conflict(t, e, now_ms) {
                        Some(c) => r matches Err(x) && x.code == "LeaseConflict"@ && x.message
                            == lease_conflict_message(c),
                        None => r matches Ok((after, receipt)) && after == after_extension(t, e)
                            && receipt == extension_receipt(t, e),
                    }
                },
            }
        }),
{
}

/// A recovery is answered by what the store finds, where its identifier is in
/// order.
pub proof fn law_recovery_replies(t: Tables, transaction_id: Seq<char>, now_ms: i64)
    ensures
        ({
            let claim = recover_claim_reply(Some(t), transaction_id, now_ms);
            let commit = recover_transaction_reply(Some(t), transaction_id);
            let message = "transactionId"@ + ": invalid id "@ + debug_text(transaction_id);
            match id_of_hex(transaction_id) {
                None => {
                    &&& claim matches Err(e) && says(e, "InvalidId"@, message)
                    &&& commit matches Err(e) && says(e, "InvalidId"@, message)
                },
                Some(id) => {
                    &&& claim matches Ok(o) && o == recovery_shown(recover_result(t, id, now_ms))
                    &&& commit matches Ok(o) && o == transaction_shown(transaction_recovery(t, id))
                },
            }
        }),
{
}

/// A job is shown under its identifier where it is there, and nothing where it
/// is not.
pub proof fn law_job_replies(t: Tables, job_id: Seq<char>)
    ensures
        ({
            let r = job_reply(Some(t), job_id);
            match id_of_hex(job_id) {
                None => r matches Err(e) && says(
                    e,
                    "InvalidId"@,
                    "jobId"@ + ": invalid id "@ + debug_text(job_id),
                ),
                Some(id) => match find_job(t.jobs, id) {
                    None => r matches Ok(None),
                    Some(row) => r matches Ok(Some(o)) && {
                        &&& id_of_hex(o.job_id) == Some(row.job_id)
                        &&& o.queue == row.queue
                        &&& o.partition_key == row.partition_key
                        &&& o.state == state_name(row.state)
                        &&& o.attempt == row.attempt
                        &&& o.lease_expires_at_ms == row.lease_expires_at_ms
                        &&& o.worker_id == row.worker_id
                        &&& o.error_summary == row.error_summary
                    },
                },
            }
        }),
{
    if let Some(id) = id_of_hex(job_id) {
        if let Some(row) = find_job(t.jobs, id) {
            law_hex_round_trip(row.job_id);
        }
    }
}

/// The state that a listing asks for is the one that its text names.
pub open spec fn asks_state(text: Option<Seq<char>>, state: Option<JobState>) -> bool {
    match text {
        None => state is None,
        Some(name) => state is Some && name == state_name(state->0),
    }
}

/// A listing shows the first jobs that are asked for, in enqueue order.
pub proof fn law_jobs_replies(
    t: Tables,
    queue: Option<Seq<char>>,
    text: Option<Seq<char>>,
    state: Option<JobState>,
    limit: u32,
)
    requires
        sound(t),
        asks_state(text, state),
    ensures
        jobs_reply(Some(t), queue, text, limit) matches Ok(o) && exists|shown: Seq<JobInfoView>|
            o.len() == shown.len() && (forall|i: int|
                0 <= i < shown.len() ==> shows_info(o[i], #[trigger] shown[i]))
                && #[trigger] listed_so(t, queue, state, None, limit as nat, shown),
{
    if let Some(s) = state {
        law_state_names_round_trip(s);
    }
    let shown = infos(at_most(wanted_jobs(t, queue, state, None), limit as nat));
    law_list_jobs(t, queue, state, limit as nat);
    law_shown_jobs(shown);
    assert(listed_so(t, queue, state, None, limit as nat, shown));
}

/// The listing shows the first of the jobs that are asked for.
pub open spec fn listed_so(
    t: Tables,
    queue: Option<Seq<char>>,
    state: Option<JobState>,
    after: Option<int>,
    limit: nat,
    shown: Seq<JobInfoView>,
) -> bool {
    exists|at: Seq<int>| #[trigger] lists(t, queue, state, after, limit, shown, at)
}

/// A page behind a cursor that is not negative shows the first jobs behind it
/// that are asked for, and gives the cursor of the store.
pub proof fn law_jobs_page_replies(
    t: Tables,
    queue: Option<Seq<char>>,
    text: Option<Seq<char>>,
    state: Option<JobState>,
    after_sequence: i64,
    limit: u32,
)
    requires
        sound(t),
        asks_state(text, state),
        after_sequence >= 0,
    ensures
        jobs_page_reply(Some(t), queue, text, after_sequence, limit) matches Ok((o, cursor))
            && exists|shown: Seq<JobInfoView>|
            o.len() == shown.len() && (forall|i: int|
                0 <= i < shown.len() ==> shows_info(o[i], #[trigger] shown[i])) && (
            page_result(t, queue, state, after_sequence as u64, limit as usize) matches Ok(
                (page, next),
            ) && page == shown && next == cursor) && #[trigger] listed_so(
                t,
                queue,
                state,
                Some(after_sequence as int),
                limit as nat,
                shown,
            ),
{
    if let Some(s) = state {
        law_state_names_round_trip(s);
    }
    law_list_jobs_page(t, queue, state, after_sequence as u64, limit as usize);
    let (shown, next) = page_result(
        t,
        queue,
        state,
        after_sequence as u64,
        limit as usize,
    )->Ok_0;
    law_shown_jobs(shown);
    let at = choose|at: Seq<int>| #[trigger]
        lists(t, queue, state, Some(after_sequence as int), limit as nat, shown, at) && next == (
        if at.len() == 0 {
            after_sequence as int
        } else {
            t.jobs[at.last()].enqueue_sequence as int
        });
    assert(listed_so(t, queue, state, Some(after_sequence as int), limit as nat, shown));
    assert(next <= i64::MAX);
}

/// A listing that asks for a state of an unknown name is refused, whether or not
/// the store is open.
pub proof fn law_unknown_states(
    t: Option<Tables>,
    queue: Option<Seq<char>>,
    text: Seq<char>,
    after_sequence: i64,
    limit: u32,
)
    requires
        forall|s: JobState| text != #[trigger] state_name(s),
    ensures
        jobs_reply(t, queue, Some(text), limit) matches Err(e) && says(
            e,
            "Validation"@,
            "unknown job state "@ + debug_text(text),
        ),
        jobs_page_reply(t, queue, Some(text), after_sequence, limit) matches Err(e) && says(
            e,
            "Validation"@,
            "unknown job state "@ + debug_text(text),
        ),
{
    law_names_of_states(text, JobState::Pending);
}

/// How a batch is put together: it starts without anything but its identifier
/// and time, and every expectation and operation is added behind the others.
pub proof fn law_batches(
    id: Id,
    at: i64,
    b: BatchView,
    stream_id: Seq<char>,
    version: u64,
    o: OperationView,
)
    ensures
        empty_batch(id, at).transaction_id == id,
        empty_batch(id, at).committed_at_ms == at,
        empty_batch(id, at).correlation_id is None,
        empty_batch(id, at).metadata.len() == 0,
        empty_batch(id, at).expected.len() == 0,
        empty_batch(id, at).operations.len() == 0,
        ({
            let after = expecting(b, stream_id, version);
            let n = b.expected.len() as int;
            &&& after.transaction_id == b.transaction_id
            &&& after.committed_at_ms == b.committed_at_ms
            &&& after.correlation_id == b.correlation_id
            &&& after.metadata == b.metadata
            &&& after.operations == b.operations
            &&& after.expected.len() == n + 1
            &&& forall|i: int| 0 <= i < n ==> after.expected[i] == #[trigger] b.expected[i]
            &&& after.expected[n].stream_id == stream_id
            &&& after.expected[n].version == version
        }),
        ({
            let after = operating(b, o);
            let n = b.operations.len() as int;
            &&& after.transaction_id == b.transaction_id
            &&& after.committed_at_ms == b.committed_at_ms
            &&& after.correlation_id == b.correlation_id
            &&& after.metadata == b.metadata
            &&& after.expected == b.expected
            &&& after.operations.len() == n + 1
            &&& forall|i: int| 0 <= i < n ==> after.operations[i] == #[trigger] b.operations[i]
            &&& after.operations[n] == o
        }),
{
}

/// How a patch is put together: it leads from the version that it expects to
/// the next one, and every mutation is added behind the others.
pub proof fn law_patches(name: Seq<char>, version: u64, p: PatchView, m: MutationView)
    ensures
        empty_patch(name, version).projection == name,
        empty_patch(name, version).expected_version == version,
        version < u64::MAX ==> empty_patch(name, version).new_version == version + 1,
        empty_patch(name, version).mutations.len() == 0,
        ({
            let after = mutated(p, m);
            let n = p.mutations.len() as int;
            &&& after.projection == p.projection
            &&& after.expected_version == p.expected_version
            &&& after.new_version == p.new_version
            &&& after.mutations.len() == n + 1
            &&& forall|i: int| 0 <= i < n ==> after.mutations[i] == #[trigger] p.mutations[i]
            &&& after.mutations[n] == m
        }),
{
}

} // verus!
