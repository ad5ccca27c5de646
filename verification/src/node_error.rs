//! Errors of the Node binding: a code that names the kind of failure, and a
//! message.
//!
//! Indeterminate outcomes carry the identifier to recover with in their
//! message.
use vstd::prelude::*;

use crate::error::{
    conflict_message, lease_conflict_message, storage_message, ClaimError, ClaimErrorView,
    CommitError, CommitErrorView, Error, ErrorView, LeaseError, LeaseErrorView, RecoveryError,
};
use crate::id::{hex_of, id_of_hex, Id};
use crate::state::{JobState, Resolution};
use crate::text::{join2, join3, same_text};
use crate::values::opt_text;

verus! {

/// The code of a binding error, which names the kind of failure.
#[derive(Clone, PartialEq, Eq, Debug)]
pub struct ErrorCode(pub String);

impl View for ErrorCode {
    type V = Seq<char>;

    open spec fn view(&self) -> Seq<char> {
        self.0@
    }
}

impl ErrorCode {
    /// The code with this name.
    pub fn named(name: &str) -> (c: ErrorCode)
        ensures
            c@ == name@,
    {
        ErrorCode(name.to_owned())
    }

    /// The name of the code.
    pub fn name(&self) -> (s: &str)
        ensures
            s@ == self@,
    {
        self.0.as_str()
    }
}

/// An error of the binding.
#[derive(Clone, PartialEq, Eq, Debug)]
pub struct JsError {
    pub code: ErrorCode,
    pub message: String,
}

/// The view of a [`JsError`].
#[verifier::ext_equal]
pub struct JsErrorView {
    pub code: Seq<char>,
    pub message: Seq<char>,
}

impl View for JsError {
    type V = JsErrorView;

    open spec fn view(&self) -> JsErrorView {
        JsErrorView { code: self.code@, message: self.message@ }
    }
}

/// The error with a code and a message.
pub open spec fn js(code: Seq<char>, message: Seq<char>) -> JsErrorView {
    JsErrorView { code, message }
}

/// The error with a code and a message.
pub fn err(code: &str, message: String) -> (e: JsError)
    ensures
        e@ == js(code@, message@),
{
    JsError { code: ErrorCode::named(code), message }
}

/// What a kernel error is reported as.
pub open spec fn mapped_error(e: ErrorView) -> JsErrorView {
    match e {
        ErrorView::Storage(s) => js("Storage"@, storage_message(s)),
        ErrorView::Validation(v) => js("Validation"@, v),
        ErrorView::Conflict(c) => js("Conflict"@, conflict_message(c)),
    }
}

/// Reports a kernel error.
pub fn map_error(e: Error) -> (r: JsError)
    ensures
        r@ == mapped_error(e@),
{
    match e {
        Error::Storage(s) => err("Storage", s.message()),
        Error::Validation(v) => err("Validation", v.message()),
        Error::Conflict(c) => err("Conflict", c.message()),
    }
}

/// The message of an indeterminate outcome: what to do, the identifier to do
/// it with, and what storage said.
pub open spec fn indeterminate_message(advice: Seq<char>, id: Id, storage_error: Seq<char>) -> Seq<
    char,
> {
    advice + hex_of(id) + " ("@ + storage_error + ")"@
}

fn indeterminate(advice: &str, id: Id, storage_error: &String) -> (text: String)
    ensures
        text@ == indeterminate_message(advice@, id, storage_error@),
{
    let mut text = join3(advice, id.to_hex().as_str(), " (");
    text.append(storage_error.as_str());
    text.append(")");
    text
}

/// What a commit error is reported as.
pub open spec fn mapped_commit_error(e: CommitErrorView) -> JsErrorView {
    match e {
        CommitErrorView::Conflict(c) => js("Conflict"@, conflict_message(c)),
        CommitErrorView::Validation(v) => js("Validation"@, v),
        CommitErrorView::DuplicateIdWithDifferentContent => js(
            "DuplicateIdWithDifferentContent"@,
            "transaction id reused with different content"@,
        ),
        CommitErrorView::Indeterminate { transaction_id, storage_error } => js(
            "CommitIndeterminate"@,
            indeterminate_message(
                "commit outcome indeterminate; recoverTransaction to verify; transactionId="@,
                transaction_id,
                storage_error,
            ),
        ),
        CommitErrorView::Storage(s) => js("Storage"@, storage_message(s)),
    }
}

/// Reports a commit error.
pub fn map_commit_error(e: CommitError) -> (r: JsError)
    ensures
        r@ == mapped_commit_error(e@),
{
    match e {
        CommitError::Conflict(c) => err("Conflict", c.message()),
        CommitError::Validation(v) => err("Validation", v.message()),
        CommitError::DuplicateIdWithDifferentContent => err(
            "DuplicateIdWithDifferentContent",
            "transaction id reused with different content".to_owned(),
        ),
        CommitError::Indeterminate(i) => err(
            "CommitIndeterminate",
            indeterminate(
                "commit outcome indeterminate; recoverTransaction to verify; transactionId=",
                i.transaction_id,
                &i.storage_error,
            ),
        ),
        CommitError::Storage(s) => err("Storage", s.message()),
    }
}

/// What a claim error is reported as.
pub open spec fn mapped_claim_error(e: ClaimErrorView) -> JsErrorView {
    match e {
        ClaimErrorView::Indeterminate { transaction_id, proposed_jobs: _, storage_error } => js(
            "ClaimIndeterminate"@,
            indeterminate_message(
                "claim outcome indeterminate; recoverClaim to verify; transactionId="@,
                transaction_id,
                storage_error,
            ),
        ),
        ClaimErrorView::Validation(v) => js("Validation"@, v),
        ClaimErrorView::Conflict(c) => js("Conflict"@, conflict_message(c)),
        ClaimErrorView::Storage(s) => js("Storage"@, storage_message(s)),
    }
}

/// Reports a claim error.
pub fn map_claim_error(e: ClaimError) -> (r: JsError)
    ensures
        r@ == mapped_claim_error(e@),
{
    match e {
        ClaimError::Indeterminate(i) => err(
            "ClaimIndeterminate",
            indeterminate(
                "claim outcome indeterminate; recoverClaim to verify; transactionId=",
                i.transaction_id,
                &i.storage_error,
            ),
        ),
        ClaimError::Validation(v) => err("Validation", v.message()),
        ClaimError::Conflict(c) => err("Conflict", c.message()),
        ClaimError::Storage(s) => err("Storage", s.message()),
    }
}

/// What a lease error is reported as.
pub open spec fn mapped_lease_error(e: LeaseErrorView) -> JsErrorView {
    match e {
        LeaseErrorView::Conflict(c) => js("LeaseConflict"@, lease_conflict_message(c)),
        LeaseErrorView::Indeterminate { job_id, storage_error } => js(
            "LeaseIndeterminate"@,
            indeterminate_message(
                "lease extension outcome indeterminate; read the job to verify; jobId="@,
                job_id,
                storage_error,
            ),
        ),
        LeaseErrorView::Storage(s) => js("Storage"@, storage_message(s)),
    }
}

/// Reports a lease error.
pub fn map_lease_error(e: LeaseError) -> (r: JsError)
    ensures
        r@ == mapped_lease_error(e@),
{
    match e {
        LeaseError::Conflict(c) => err("LeaseConflict", c.message()),
        LeaseError::Indeterminate(i) => err(
            "LeaseIndeterminate",
            indeterminate(
                "lease extension outcome indeterminate; read the job to verify; jobId=",
                i.job_id,
                &i.storage_error,
            ),
        ),
        LeaseError::Storage(s) => err("Storage", s.message()),
    }
}

/// Reports a recovery error.
pub fn map_recovery_error(e: RecoveryError) -> (r: JsError)
    ensures
        e matches RecoveryError::Storage(s) ==> r@ == js("Storage"@, storage_message(s@)),
{
    match e {
        RecoveryError::Storage(s) => err("Storage", s.message()),
    }
}

/// The text that the debug format of std writes for a text: the text in double
/// quotes, with quotes, backslashes and unprintable characters escaped.
pub uninterp spec fn debug_text(s: Seq<char>) -> Seq<char>;

/// `impl core::fmt::Debug for str`, through `{:?}`. The contract claims no
/// more than that what it writes depends on the text alone.
#[verifier::external_body]
fn quoted(s: &str) -> (text: String)
    ensures
        text@ == debug_text(s@),
{
    format!("{:?}", s)
}

/// The error for a text that is not an identifier, given as it is quoted.
pub fn invalid_id(field: &str, quoted_text: &str) -> (e: JsError)
    ensures
        e@ == js("InvalidId"@, field@ + ": invalid id "@ + quoted_text@),
{
    err("InvalidId", join3(field, ": invalid id ", quoted_text))
}

/// The error for a text that names nothing known, given as it is quoted.
pub fn unknown(what: &str, quoted_text: &str) -> (e: JsError)
    ensures
        e@ == js("Validation"@, what@ + quoted_text@),
{
    err("Validation", join2(what, quoted_text))
}

/// The identifier that a text names, or the error for a text that names none.
pub open spec fn parsed_id(field: Seq<char>, hex: Seq<char>) -> Result<Id, JsErrorView> {
    match id_of_hex(hex) {
        Some(id) => Ok(id),
        None => Err(js("InvalidId"@, field + ": invalid id "@ + debug_text(hex))),
    }
}

/// Parses an identifier.
pub fn parse_id(field: &str, hex: &str) -> (r: Result<Id, JsError>)
    ensures
        match r {
            Ok(id) => parsed_id(field@, hex@) == Ok::<Id, JsErrorView>(id),
            Err(e) => parsed_id(field@, hex@) == Err::<Id, JsErrorView>(e@),
        },
{
    match Id::from_hex(hex) {
        Some(id) => Ok(id),
        None => Err(invalid_id(field, quoted(hex).as_str())),
    }
}

/// The resolution that a text names.
pub open spec fn named_resolution(text: Seq<char>) -> Option<Resolution> {
    if text == "retry"@ {
        Some(Resolution::Retry)
    } else if text == "markSucceeded"@ {
        Some(Resolution::MarkSucceeded)
    } else if text == "markDead"@ {
        Some(Resolution::MarkDead)
    } else {
        None
    }
}

/// The resolution that a text names, or the error for one that names none.
pub open spec fn parsed_resolution(text: Seq<char>) -> Result<Resolution, JsErrorView> {
    match named_resolution(text) {
        Some(r) => Ok(r),
        None => Err(js("Validation"@, "unknown resolution "@ + debug_text(text))),
    }
}

/// Parses a resolution.
pub fn parse_resolution(resolution: &str) -> (r: Result<Resolution, JsError>)
    ensures
        match r {
            Ok(v) => parsed_resolution(resolution@) == Ok::<Resolution, JsErrorView>(v),
            Err(e) => parsed_resolution(resolution@) == Err::<Resolution, JsErrorView>(e@),
        },
{
    if same_text(resolution, "retry") {
        Ok(Resolution::Retry)
    } else if same_text(resolution, "markSucceeded") {
        Ok(Resolution::MarkSucceeded)
    } else if same_text(resolution, "markDead") {
        Ok(Resolution::MarkDead)
    } else {
        Err(unknown("unknown resolution ", quoted(resolution).as_str()))
    }
}

/// The name of a job state.
pub open spec fn state_name(state: JobState) -> Seq<char> {
    match state {
        JobState::Pending => "pending"@,
        JobState::Leased => "leased"@,
        JobState::RetryWait => "retryWait"@,
        JobState::Uncertain => "uncertain"@,
        JobState::Succeeded => "succeeded"@,
        JobState::Dead => "dead"@,
        JobState::Cancelled => "cancelled"@,
    }
}

/// The name of a job state.
pub fn job_state_name(state: JobState) -> (name: &'static str)
    ensures
        name@ == state_name(state),
{
    match state {
        JobState::Pending => "pending",
        JobState::Leased => "leased",
        JobState::RetryWait => "retryWait",
        JobState::Uncertain => "uncertain",
        JobState::Succeeded => "succeeded",
        JobState::Dead => "dead",
        JobState::Cancelled => "cancelled",
    }
}

/// The job state that a text names.
pub open spec fn named_state(text: Seq<char>) -> Option<JobState> {
    if text == "pending"@ {
        Some(JobState::Pending)
    } else if text == "leased"@ {
        Some(JobState::Leased)
    } else if text == "retryWait"@ {
        Some(JobState::RetryWait)
    } else if text == "uncertain"@ {
        Some(JobState::Uncertain)
    } else if text == "succeeded"@ {
        Some(JobState::Succeeded)
    } else if text == "dead"@ {
        Some(JobState::Dead)
    } else if text == "cancelled"@ {
        Some(JobState::Cancelled)
    } else {
        None
    }
}

/// Every job state is named by its name.
pub proof fn law_state_names_round_trip(state: JobState)
    ensures
        named_state(state_name(state)) == Some(state),
{
    reveal_strlit("pending");
    reveal_strlit("leased");
    reveal_strlit("retryWait");
    reveal_strlit("uncertain");
    reveal_strlit("succeeded");
    reveal_strlit("dead");
    reveal_strlit("cancelled");
    assert("pending"@.len() == 7 && "leased"@.len() == 6 && "retryWait"@.len() == 9
        && "uncertain"@.len() == 9 && "succeeded"@.len() == 9 && "dead"@.len() == 4
        && "cancelled"@.len() == 9);
    assert("retryWait"@[0] == 'r' && "uncertain"@[0] == 'u' && "succeeded"@[0] == 's'
        && "cancelled"@[0] == 'c');
}

/// The job state that a text names, or the error for one that names none.
pub open spec fn parsed_state(text: Seq<char>) -> Result<JobState, JsErrorView> {
    match named_state(text) {
        Some(s) => Ok(s),
        None => Err(js("Validation"@, "unknown job state "@ + debug_text(text))),
    }
}

/// Parses a job state.
pub fn parse_job_state(state: &str) -> (r: Result<JobState, JsError>)
    ensures
        match r {
            Ok(v) => parsed_state(state@) == Ok::<JobState, JsErrorView>(v),
            Err(e) => parsed_state(state@) == Err::<JobState, JsErrorView>(e@),
        },
{
    if same_text(state, "pending") {
        Ok(JobState::Pending)
    } else if same_text(state, "leased") {
        Ok(JobState::Leased)
    } else if same_text(state, "retryWait") {
        Ok(JobState::RetryWait)
    } else if same_text(state, "uncertain") {
        Ok(JobState::Uncertain)
    } else if same_text(state, "succeeded") {
        Ok(JobState::Succeeded)
    } else if same_text(state, "dead") {
        Ok(JobState::Dead)
    } else if same_text(state, "cancelled") {
        Ok(JobState::Cancelled)
    } else {
        Err(unknown("unknown job state ", quoted(state).as_str()))
    }
}

/// How much a store does to survive a crash.
#[derive(Clone, Copy, PartialEq, Eq, Debug, Structural)]
pub enum Durability {
    Strict,
    Relaxed,
}

/// The durability that a text names; strict where there is none.
pub open spec fn parsed_durability(text: Option<Seq<char>>) -> Result<Durability, JsErrorView> {
    match text {
        None => Ok(Durability::Strict),
        Some(s) => if s == "strict"@ {
            Ok(Durability::Strict)
        } else if s == "relaxed"@ {
            Ok(Durability::Relaxed)
        } else {
            Err(js("Validation"@, "unknown durability "@ + debug_text(s)))
        },
    }
}

/// Parses a durability.
pub fn parse_durability(durability: &Option<String>) -> (r: Result<Durability, JsError>)
    ensures
        match r {
            Ok(d) => parsed_durability(opt_text(*durability)) == Ok::<
                Durability,
                JsErrorView,
            >(d),
            Err(e) => parsed_durability(opt_text(*durability)) == Err::<
                Durability,
                JsErrorView,
            >(e@),
        },
{
    match durability {
        None => Ok(Durability::Strict),
        Some(s) => if same_text(s.as_str(), "strict") {
            Ok(Durability::Strict)
        } else if same_text(s.as_str(), "relaxed") {
            Ok(Durability::Relaxed)
        } else {
            Err(unknown("unknown durability ", quoted(s.as_str()).as_str()))
        },
    }
}

/// The error for an effect mode that is not known.
pub(crate) fn unknown_effect_mode(mode: &str) -> (e: JsError)
    ensures
        e@ == js("Validation"@, "unknown effect mode "@ + debug_text(mode@)),
{
    unknown("unknown effect mode ", quoted(mode).as_str())
}

/// The error for a store that has been closed.
pub open spec fn closed_error() -> JsErrorView {
    js("Closed"@, "store is closed"@)
}

/// The error for a store that has been closed.
pub fn closed() -> (e: JsError)
    ensures
        e@ == closed_error(),
{
    err("Closed", "store is closed".to_owned())
}

} // verus!
