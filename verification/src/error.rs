//! Error types, their views and their message texts.
use vstd::prelude::*;

use crate::id::{hex_of, Id};
use crate::state::JobState;
use crate::text::{decimal, decimal_text, join2, join3, signed_decimal, signed_decimal_text};

verus! {

/// A request that can never succeed as it stands.
#[derive(Clone, PartialEq, Eq, Debug)]
pub struct ValidationError(pub String);

/// A failure below the library.
#[derive(Clone, PartialEq, Eq, Debug)]
pub enum StorageError {
    /// The database reported this text.
    Sqlite(String),
    /// No fresh identifier could be drawn.
    Identifier(String),
}

/// A request that lost against the current state.
#[derive(Clone, PartialEq, Eq, Debug)]
pub enum Conflict {
    /// The state machine has no such step.
    JobTransition { job_id: Id, from: JobState, to: JobState },
    /// A stream is not at the expected version.
    StreamVersion { stream_id: String, expected: u64, actual: u64 },
    /// A projection is not at the expected version.
    ProjectionVersion { projection: String, expected: u64, actual: u64 },
    /// A lease cannot be extended.
    Lease(LeaseConflict),
}

/// Why a lease cannot be extended.
#[derive(Clone, Copy, PartialEq, Eq, Debug)]
pub enum LeaseConflict {
    JobNotFound(Id),
    NotLeased { job_id: Id, state: JobState },
    InvalidToken { job_id: Id },
    Expired { job_id: Id, lease_expires_at_ms: i64, now_ms: i64 },
    ExpiryNotLater { job_id: Id, current_ms: i64, requested_ms: i64 },
}

/// The failure of a read or of an operation inside a commit.
#[derive(Clone, PartialEq, Eq, Debug)]
pub enum Error {
    Storage(StorageError),
    Validation(ValidationError),
    Conflict(Conflict),
}

/// A claim whose COMMIT step failed, so that it may or may not be durable. It
/// names the jobs for verification and holds no payload and no lease token.
#[derive(Clone, PartialEq, Eq, Debug)]
pub struct IndeterminateClaim {
    pub transaction_id: Id,
    pub proposed_jobs: Vec<Id>,
    pub storage_error: String,
}

/// A lease extension whose COMMIT step failed.
#[derive(Clone, PartialEq, Eq, Debug)]
pub struct IndeterminateLease {
    pub job_id: Id,
    pub storage_error: String,
}

/// A commit whose COMMIT step failed.
#[derive(Clone, PartialEq, Eq, Debug)]
pub struct IndeterminateCommit {
    pub transaction_id: Id,
    pub storage_error: String,
}

impl IndeterminateClaim {
    /// The transaction to recover with.
    pub fn transaction_id(&self) -> (id: Id)
        ensures
            id == self.transaction_id,
    {
        self.transaction_id
    }

    /// The jobs that the claim proposed to lease, for verification only.
    pub fn proposed_jobs_for_verification(&self) -> (ids: &[Id])
        ensures
            ids@ == self.proposed_jobs@,
    {
        self.proposed_jobs.as_slice()
    }

    /// What storage said.
    pub fn storage_error(&self) -> (text: &str)
        ensures
            text@ == self.storage_error@,
    {
        self.storage_error.as_str()
    }
}

impl IndeterminateLease {
    /// The job to read.
    pub fn job_id(&self) -> (id: Id)
        ensures
            id == self.job_id,
    {
        self.job_id
    }

    /// What storage said.
    pub fn storage_error(&self) -> (text: &str)
        ensures
            text@ == self.storage_error@,
    {
        self.storage_error.as_str()
    }
}

impl IndeterminateCommit {
    /// The transaction to recover with.
    pub fn transaction_id(&self) -> (id: Id)
        ensures
            id == self.transaction_id,
    {
        self.transaction_id
    }

    /// What storage said.
    pub fn storage_error(&self) -> (text: &str)
        ensures
            text@ == self.storage_error@,
    {
        self.storage_error.as_str()
    }
}

/// The failure of a claim.
#[derive(Clone, PartialEq, Eq, Debug)]
pub enum ClaimError {
    Indeterminate(IndeterminateClaim),
    Validation(ValidationError),
    Conflict(Conflict),
    Storage(StorageError),
}

/// The failure of a lease extension.
#[derive(Clone, PartialEq, Eq, Debug)]
pub enum LeaseError {
    Conflict(LeaseConflict),
    Indeterminate(IndeterminateLease),
    Storage(StorageError),
}

/// The failure of a recovery.
#[derive(Clone, PartialEq, Eq, Debug)]
pub enum RecoveryError {
    Storage(StorageError),
}

/// The failure of a commit.
#[derive(Clone, PartialEq, Eq, Debug)]
pub enum CommitError {
    Conflict(Conflict),
    Validation(ValidationError),
    DuplicateIdWithDifferentContent,
    Indeterminate(IndeterminateCommit),
    Storage(StorageError),
}

/// The view of a [`StorageError`].
pub enum StorageErrorView {
    Sqlite(Seq<char>),
    Identifier(Seq<char>),
}

/// The view of a [`Conflict`].
pub enum ConflictView {
    JobTransition { job_id: Id, from: JobState, to: JobState },
    StreamVersion { stream_id: Seq<char>, expected: u64, actual: u64 },
    ProjectionVersion { projection: Seq<char>, expected: u64, actual: u64 },
    Lease(LeaseConflict),
}

/// The view of an [`Error`].
pub enum ErrorView {
    Storage(StorageErrorView),
    Validation(Seq<char>),
    Conflict(ConflictView),
}

/// The view of a [`ClaimError`].
pub enum ClaimErrorView {
    Indeterminate { transaction_id: Id, proposed_jobs: Seq<Id>, storage_error: Seq<char> },
    Validation(Seq<char>),
    Conflict(ConflictView),
    Storage(StorageErrorView),
}

/// The view of a [`LeaseError`].
pub enum LeaseErrorView {
    Conflict(LeaseConflict),
    Indeterminate { job_id: Id, storage_error: Seq<char> },
    Storage(StorageErrorView),
}

/// The view of a [`CommitError`].
pub enum CommitErrorView {
    Conflict(ConflictView),
    Validation(Seq<char>),
    DuplicateIdWithDifferentContent,
    Indeterminate { transaction_id: Id, storage_error: Seq<char> },
    Storage(StorageErrorView),
}

impl View for ValidationError {
    type V = Seq<char>;

    open spec fn view(&self) -> Seq<char> {
        self.0@
    }
}

impl View for StorageError {
    type V = StorageErrorView;

    open spec fn view(&self) -> StorageErrorView {
        match *self {
            StorageError::Sqlite(s) => StorageErrorView::Sqlite(s@),
            StorageError::Identifier(s) => StorageErrorView::Identifier(s@),
        }
    }
}

impl View for Conflict {
    type V = ConflictView;

    open spec fn view(&self) -> ConflictView {
        match *self {
            Conflict::JobTransition { job_id, from, to } => ConflictView::JobTransition {
                job_id,
                from,
                to,
            },
            Conflict::StreamVersion { stream_id, expected, actual } => ConflictView::StreamVersion {
                stream_id: stream_id@,
                expected,
                actual,
            },
            Conflict::ProjectionVersion { projection, expected, actual } =>
                ConflictView::ProjectionVersion { projection: projection@, expected, actual },
            Conflict::Lease(c) => ConflictView::Lease(c),
        }
    }
}

impl View for Error {
    type V = ErrorView;

    open spec fn view(&self) -> ErrorView {
        match *self {
            Error::Storage(e) => ErrorView::Storage(e@),
            Error::Validation(e) => ErrorView::Validation(e@),
            Error::Conflict(e) => ErrorView::Conflict(e@),
        }
    }
}

impl View for ClaimError {
    type V = ClaimErrorView;

    open spec fn view(&self) -> ClaimErrorView {
        match *self {
            ClaimError::Indeterminate(i) => ClaimErrorView::Indeterminate {
                transaction_id: i.transaction_id,
                proposed_jobs: i.proposed_jobs@,
                storage_error: i.storage_error@,
            },
            ClaimError::Validation(e) => ClaimErrorView::Validation(e@),
            ClaimError::Conflict(e) => ClaimErrorView::Conflict(e@),
            ClaimError::Storage(e) => ClaimErrorView::Storage(e@),
        }
    }
}

impl View for LeaseError {
    type V = LeaseErrorView;

    open spec fn view(&self) -> LeaseErrorView {
        match *self {
            LeaseError::Conflict(c) => LeaseErrorView::Conflict(c),
            LeaseError::Indeterminate(i) => LeaseErrorView::Indeterminate {
                job_id: i.job_id,
                storage_error: i.storage_error@,
            },
            LeaseError::Storage(e) => LeaseErrorView::Storage(e@),
        }
    }
}

impl View for CommitError {
    type V = CommitErrorView;

    open spec fn view(&self) -> CommitErrorView {
        match *self {
            CommitError::Conflict(e) => CommitErrorView::Conflict(e@),
            CommitError::Validation(e) => CommitErrorView::Validation(e@),
            CommitError::DuplicateIdWithDifferentContent =>
                CommitErrorView::DuplicateIdWithDifferentContent,
            CommitError::Indeterminate(i) => CommitErrorView::Indeterminate {
                transaction_id: i.transaction_id,
                storage_error: i.storage_error@,
            },
            CommitError::Storage(e) => CommitErrorView::Storage(e@),
        }
    }
}

impl ValidationError {
    /// A validation error with this text.
    pub fn new(text: &str) -> (e: ValidationError)
        ensures
            e@ == text@,
    {
        ValidationError(text.to_owned())
    }

    /// The message of this error.
    pub fn message(&self) -> (text: String)
        ensures
            text@ == self@,
    {
        self.0.clone()
    }
}

/// The message of a storage error.
pub open spec fn storage_message(e: StorageErrorView) -> Seq<char> {
    match e {
        StorageErrorView::Sqlite(s) => s,
        StorageErrorView::Identifier(s) => s,
    }
}

impl StorageError {
    /// A storage error with the text that the database reported.
    pub fn sqlite(text: &str) -> (e: StorageError)
        ensures
            e@ == StorageErrorView::Sqlite(text@),
    {
        StorageError::Sqlite(text.to_owned())
    }

    /// The message of this error.
    pub fn message(&self) -> (text: String)
        ensures
            text@ == storage_message(self@),
    {
        match self {
            StorageError::Sqlite(s) => s.clone(),
            StorageError::Identifier(s) => s.clone(),
        }
    }
}

/// The name of a job state in messages.
pub open spec fn state_label(s: JobState) -> Seq<char> {
    match s {
        JobState::Pending => "Pending"@,
        JobState::Leased => "Leased"@,
        JobState::RetryWait => "RetryWait"@,
        JobState::Uncertain => "Uncertain"@,
        JobState::Succeeded => "Succeeded"@,
        JobState::Dead => "Dead"@,
        JobState::Cancelled => "Cancelled"@,
    }
}

fn label_of(s: JobState) -> (text: &'static str)
    ensures
        text@ == state_label(s),
{
    match s {
        JobState::Pending => "Pending",
        JobState::Leased => "Leased",
        JobState::RetryWait => "RetryWait",
        JobState::Uncertain => "Uncertain",
        JobState::Succeeded => "Succeeded",
        JobState::Dead => "Dead",
        JobState::Cancelled => "Cancelled",
    }
}

/// The message of a lease conflict.
pub open spec fn lease_conflict_message(c: LeaseConflict) -> Seq<char> {
    match c {
        LeaseConflict::JobNotFound(job_id) => "job "@ + hex_of(job_id) + " not found"@,
        LeaseConflict::NotLeased { job_id, state } => "job "@ + hex_of(job_id)
            + " is not leased: "@ + state_label(state),
        LeaseConflict::InvalidToken { job_id } => "invalid lease token for job "@ + hex_of(job_id),
        LeaseConflict::Expired { job_id, lease_expires_at_ms, now_ms } => "lease of job "@
            + hex_of(job_id) + " expired at "@ + signed_decimal(lease_expires_at_ms as int)
            + ", now "@ + signed_decimal(now_ms as int),
        LeaseConflict::ExpiryNotLater { job_id, current_ms, requested_ms } => "lease of job "@
            + hex_of(job_id) + " expires at "@ + signed_decimal(current_ms as int)
            + ", requested "@ + signed_decimal(requested_ms as int),
    }
}

impl LeaseConflict {
    /// The message of this conflict.
    pub fn message(&self) -> (text: String)
        ensures
            text@ == lease_conflict_message(*self),
    {
        match *self {
            LeaseConflict::JobNotFound(job_id) => join3("job ", job_id.to_hex().as_str(), " not found"),
            LeaseConflict::NotLeased { job_id, state } => {
                let mut s = join3("job ", job_id.to_hex().as_str(), " is not leased: ");
                s.append(label_of(state));
                s
            }
            LeaseConflict::InvalidToken { job_id } => join2(
                "invalid lease token for job ",
                job_id.to_hex().as_str(),
            ),
            LeaseConflict::Expired { job_id, lease_expires_at_ms, now_ms } => {
                let mut s = join3("lease of job ", job_id.to_hex().as_str(), " expired at ");
                s.append(signed_decimal_text(lease_expires_at_ms).as_str());
                s.append(", now ");
                s.append(signed_decimal_text(now_ms).as_str());
                s
            }
            LeaseConflict::ExpiryNotLater { job_id, current_ms, requested_ms } => {
                let mut s = join3("lease of job ", job_id.to_hex().as_str(), " expires at ");
                s.append(signed_decimal_text(current_ms).as_str());
                s.append(", requested ");
                s.append(signed_decimal_text(requested_ms).as_str());
                s
            }
        }
    }
}

/// The message of a conflict.
pub open spec fn conflict_message(c: ConflictView) -> Seq<char> {
    match c {
        ConflictView::JobTransition { job_id, from, to } => "job "@ + hex_of(job_id)
            + " cannot go from "@ + state_label(from) + " to "@ + state_label(to),
        ConflictView::StreamVersion { stream_id, expected, actual } => "stream "@ + stream_id
            + " expected at version "@ + decimal(expected as nat) + " is at "@ + decimal(
            actual as nat,
        ),
        ConflictView::ProjectionVersion { projection, expected, actual } => "projection "@
            + projection + " expected at version "@ + decimal(expected as nat) + " is at "@
            + decimal(actual as nat),
        ConflictView::Lease(l) => lease_conflict_message(l),
    }
}

impl Conflict {
    /// The message of this conflict.
    pub fn message(&self) -> (text: String)
        ensures
            text@ == conflict_message(self@),
    {
        match self {
            Conflict::JobTransition { job_id, from, to } => {
                let mut s = join3("job ", job_id.to_hex().as_str(), " cannot go from ");
                s.append(label_of(*from));
                s.append(" to ");
                s.append(label_of(*to));
                s
            }
            Conflict::StreamVersion { stream_id, expected, actual } => {
                let mut s = join3("stream ", stream_id.as_str(), " expected at version ");
                s.append(decimal_text(*expected).as_str());
                s.append(" is at ");
                s.append(decimal_text(*actual).as_str());
                s
            }
            Conflict::ProjectionVersion { projection, expected, actual } => {
                let mut s = join3("projection ", projection.as_str(), " expected at version ");
                s.append(decimal_text(*expected).as_str());
                s.append(" is at ");
                s.append(decimal_text(*actual).as_str());
                s
            }
            Conflict::Lease(l) => l.message(),
        }
    }
}

/// The claim error that a failed step of a claim gives.
pub open spec fn claim_error_of(e: ErrorView) -> ClaimErrorView {
    match e {
        ErrorView::Storage(s) => ClaimErrorView::Storage(s),
        ErrorView::Validation(v) => ClaimErrorView::Validation(v),
        ErrorView::Conflict(c) => ClaimErrorView::Conflict(c),
    }
}

/// A storage failure inside a claim.
pub fn claim_storage(e: StorageError) -> (r: ClaimError)
    ensures
        r@ == ClaimErrorView::Storage(e@),
{
    ClaimError::Storage(e)
}

/// Any failure inside a claim, variant for variant.
pub fn error_to_claim(e: Error) -> (r: ClaimError)
    ensures
        r@ == claim_error_of(e@),
{
    match e {
        Error::Storage(s) => ClaimError::Storage(s),
        Error::Validation(v) => ClaimError::Validation(v),
        Error::Conflict(c) => ClaimError::Conflict(c),
    }
}

} // verus!
