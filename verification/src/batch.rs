//! Commit batches: events, projection patches and job operations that are
//! committed together or not at all.
use vstd::prelude::*;

use crate::id::Id;
use crate::jobs::{
    JobAck, JobAckView, JobCancellation, JobFailure, JobFailureView, JobResolution, JobSpec,
    JobSpecView, LeaseExtension,
};
use crate::state::Resolution;
use crate::values::{copy_bytes, copy_opt_text, opt_text};

verus! {

/// An event to append to a stream.
#[derive(PartialEq, Eq, Debug)]
pub struct Event {
    pub event_id: Id,
    pub stream_id: String,
    pub event_type: String,
    pub occurred_at_ms: i64,
    pub payload: Vec<u8>,
}

/// The view of an [`Event`].
#[verifier::ext_equal]
pub struct EventView {
    pub event_id: Id,
    pub stream_id: Seq<char>,
    pub event_type: Seq<char>,
    pub occurred_at_ms: i64,
    pub payload: Seq<u8>,
}

impl View for Event {
    type V = EventView;

    open spec fn view(&self) -> EventView {
        EventView {
            event_id: self.event_id,
            stream_id: self.stream_id@,
            event_type: self.event_type@,
            occurred_at_ms: self.occurred_at_ms,
            payload: self.payload@,
        }
    }
}

impl Clone for Event {
    fn clone(&self) -> (r: Event)
        ensures
            r@ == self@,
    {
        Event {
            event_id: self.event_id,
            stream_id: self.stream_id.clone(),
            event_type: self.event_type.clone(),
            occurred_at_ms: self.occurred_at_ms,
            payload: copy_bytes(&self.payload),
        }
    }
}

impl Event {
    /// An event whose payload is the bytes of a JSON text.
    pub fn with_json_payload(
        event_id: Id,
        stream_id: &str,
        event_type: &str,
        occurred_at_ms: i64,
        payload: Vec<u8>,
    ) -> (e: Event)
        ensures
            e@ == (EventView {
                event_id,
                stream_id: stream_id@,
                event_type: event_type@,
                occurred_at_ms,
                payload: payload@,
            }),
    {
        Event {
            event_id,
            stream_id: stream_id.to_owned(),
            event_type: event_type.to_owned(),
            occurred_at_ms,
            payload,
        }
    }
}

/// An event as it was committed.
#[derive(PartialEq, Eq, Debug)]
pub struct PersistedEvent {
    pub transaction_id: Id,
    pub global_sequence: u64,
    pub stream_version: u64,
    pub event: Event,
}

/// The view of a [`PersistedEvent`].
#[verifier::ext_equal]
pub struct PersistedEventView {
    pub transaction_id: Id,
    pub global_sequence: u64,
    pub stream_version: u64,
    pub event: EventView,
}

impl View for PersistedEvent {
    type V = PersistedEventView;

    open spec fn view(&self) -> PersistedEventView {
        PersistedEventView {
            transaction_id: self.transaction_id,
            global_sequence: self.global_sequence,
            stream_version: self.stream_version,
            event: self.event@,
        }
    }
}

impl Clone for PersistedEvent {
    fn clone(&self) -> (r: PersistedEvent)
        ensures
            r@ == self@,
    {
        PersistedEvent {
            transaction_id: self.transaction_id,
            global_sequence: self.global_sequence,
            stream_version: self.stream_version,
            event: self.event.clone(),
        }
    }
}

/// The views of a list of committed events.
pub open spec fn persisted_views(s: Seq<PersistedEvent>) -> Seq<PersistedEventView> {
    s.map_values(|e: PersistedEvent| e@)
}

/// A change of the entries of a projection.
#[derive(PartialEq, Eq, Debug)]
pub enum ProjectionMutation {
    Put { key: Vec<u8>, value: Vec<u8> },
    Delete { key: Vec<u8> },
    Clear,
}

/// The view of a [`ProjectionMutation`].
#[verifier::ext_equal]
pub enum MutationView {
    Put { key: Seq<u8>, value: Seq<u8> },
    Delete { key: Seq<u8> },
    Clear,
}

impl View for ProjectionMutation {
    type V = MutationView;

    open spec fn view(&self) -> MutationView {
        match *self {
            ProjectionMutation::Put { key, value } => MutationView::Put { key: key@, value: value@ },
            ProjectionMutation::Delete { key } => MutationView::Delete { key: key@ },
            ProjectionMutation::Clear => MutationView::Clear,
        }
    }
}

impl Clone for ProjectionMutation {
    fn clone(&self) -> (r: ProjectionMutation)
        ensures
            r@ == self@,
    {
        match self {
            ProjectionMutation::Put { key, value } => ProjectionMutation::Put {
                key: copy_bytes(key),
                value: copy_bytes(value),
            },
            ProjectionMutation::Delete { key } => ProjectionMutation::Delete {
                key: copy_bytes(key),
            },
            ProjectionMutation::Clear => ProjectionMutation::Clear,
        }
    }
}

/// The views of a list of mutations.
pub open spec fn mutation_views(s: Seq<ProjectionMutation>) -> Seq<MutationView> {
    s.map_values(|m: ProjectionMutation| m@)
}

/// A patch of a projection, from one version to the next.
#[derive(PartialEq, Eq, Debug)]
pub struct ProjectionPatch {
    pub projection: String,
    pub expected_version: u64,
    pub new_version: u64,
    pub mutations: Vec<ProjectionMutation>,
}

/// The view of a [`ProjectionPatch`].
#[verifier::ext_equal]
pub struct PatchView {
    pub projection: Seq<char>,
    pub expected_version: u64,
    pub new_version: u64,
    pub mutations: Seq<MutationView>,
}

impl View for ProjectionPatch {
    type V = PatchView;

    open spec fn view(&self) -> PatchView {
        PatchView {
            projection: self.projection@,
            expected_version: self.expected_version,
            new_version: self.new_version,
            mutations: mutation_views(self.mutations@),
        }
    }
}

impl Clone for ProjectionPatch {
    fn clone(&self) -> (r: ProjectionPatch)
        ensures
            r@ == self@,
    {
        let mut mutations: Vec<ProjectionMutation> = Vec::new();
        let mut i: usize = 0;
        while i < self.mutations.len()
            invariant
                i <= self.mutations@.len(),
                mutations@.len() == i,
                forall|k: int| 0 <= k < i ==> (#[trigger] mutations@[k])@ == self.mutations@[k]@,
            decreases self.mutations@.len() - i,
        {
            mutations.push(self.mutations[i].clone());
            i += 1;
        }
        assert(mutation_views(mutations@) =~= mutation_views(self.mutations@));
        ProjectionPatch {
            projection: self.projection.clone(),
            expected_version: self.expected_version,
            new_version: self.new_version,
            mutations,
        }
    }
}

/// An empty patch on top of a version. There is no version behind the greatest
/// one, so a patch on top of that leads nowhere.
pub open spec fn empty_patch(projection: Seq<char>, expected_version: u64) -> PatchView {
    PatchView {
        projection,
        expected_version,
        new_version: if expected_version == u64::MAX {
            u64::MAX
        } else {
            (expected_version + 1) as u64
        },
        mutations: Seq::empty(),
    }
}

/// The patch with one more mutation.
pub open spec fn mutated(p: PatchView, m: MutationView) -> PatchView {
    PatchView { mutations: p.mutations.push(m), ..p }
}

impl ProjectionPatch {
    /// An empty patch on top of a version.
    pub fn new(projection: &str, expected_version: u64) -> (p: ProjectionPatch)
        ensures
            p@ == empty_patch(projection@, expected_version),
    {
        let mutations: Vec<ProjectionMutation> = Vec::new();
        assert(mutation_views(mutations@) =~= Seq::<MutationView>::empty());
        ProjectionPatch {
            projection: projection.to_owned(),
            expected_version,
            new_version: if expected_version == u64::MAX {
                u64::MAX
            } else {
                expected_version + 1
            },
            mutations,
        }
    }

    fn mutate(self, m: ProjectionMutation) -> (p: ProjectionPatch)
        ensures
            p@ == mutated(self@, m@),
    {
        let mut mutations = self.mutations;
        let ghost before = mutations@;
        mutations.push(m);
        assert(mutation_views(mutations@) =~= mutation_views(before).push(m@));
        ProjectionPatch {
            projection: self.projection,
            expected_version: self.expected_version,
            new_version: self.new_version,
            mutations,
        }
    }

    /// Puts a value under a key.
    pub fn put(self, key: Vec<u8>, value: Vec<u8>) -> (p: ProjectionPatch)
        ensures
            p@ == mutated(self@, (MutationView::Put { key: key@, value: value@ })),
    {
        self.mutate(ProjectionMutation::Put { key, value })
    }

    /// Deletes the entry under a key.
    pub fn delete(self, key: Vec<u8>) -> (p: ProjectionPatch)
        ensures
            p@ == mutated(self@, (MutationView::Delete { key: key@ })),
    {
        self.mutate(ProjectionMutation::Delete { key })
    }

    /// Deletes all entries.
    pub fn clear(self) -> (p: ProjectionPatch)
        ensures
            p@ == mutated(self@, MutationView::Clear),
    {
        self.mutate(ProjectionMutation::Clear)
    }
}

/// An operation of a batch.
#[derive(PartialEq, Eq, Debug)]
pub enum Operation {
    AppendEvent(Event),
    ApplyProjectionPatch(ProjectionPatch),
    EnqueueJob(JobSpec),
    AcknowledgeJob(JobAck),
    FailJob(JobFailure),
    CancelJob(JobCancellation),
    ResolveUncertainJob(JobResolution),
    ExtendLease(LeaseExtension),
}

/// The view of an [`Operation`].
#[verifier::ext_equal]
pub enum OperationView {
    AppendEvent(EventView),
    ApplyProjectionPatch(PatchView),
    EnqueueJob(JobSpecView),
    AcknowledgeJob(JobAckView),
    FailJob(JobFailureView),
    CancelJob(JobCancellation),
    ResolveUncertainJob(JobResolution),
    ExtendLease(LeaseExtension),
}

impl View for Operation {
    type V = OperationView;

    open spec fn view(&self) -> OperationView {
        match *self {
            Operation::AppendEvent(e) => OperationView::AppendEvent(e@),
            Operation::ApplyProjectionPatch(p) => OperationView::ApplyProjectionPatch(p@),
            Operation::EnqueueJob(s) => OperationView::EnqueueJob(s@),
            Operation::AcknowledgeJob(a) => OperationView::AcknowledgeJob(a@),
            Operation::FailJob(f) => OperationView::FailJob(f@),
            Operation::CancelJob(c) => OperationView::CancelJob(c),
            Operation::ResolveUncertainJob(r) => OperationView::ResolveUncertainJob(r),
            Operation::ExtendLease(e) => OperationView::ExtendLease(e),
        }
    }
}

impl Clone for Operation {
    fn clone(&self) -> (r: Operation)
        ensures
            r@ == self@,
    {
        match self {
            Operation::AppendEvent(e) => Operation::AppendEvent(e.clone()),
            Operation::ApplyProjectionPatch(p) => Operation::ApplyProjectionPatch(p.clone()),
            Operation::EnqueueJob(s) => Operation::EnqueueJob(s.clone()),
            Operation::AcknowledgeJob(a) => Operation::AcknowledgeJob(a.clone()),
            Operation::FailJob(f) => Operation::FailJob(f.clone()),
            Operation::CancelJob(c) => Operation::CancelJob(*c),
            Operation::ResolveUncertainJob(r) => Operation::ResolveUncertainJob(*r),
            Operation::ExtendLease(e) => Operation::ExtendLease(*e),
        }
    }
}

/// The views of a list of operations.
pub open spec fn operation_views(s: Seq<Operation>) -> Seq<OperationView> {
    s.map_values(|o: Operation| o@)
}

/// The version that a stream must have for a batch to be committed.
#[derive(PartialEq, Eq, Debug)]
pub struct ExpectedStreamVersion {
    pub stream_id: String,
    pub version: u64,
}

/// The view of an [`ExpectedStreamVersion`].
#[verifier::ext_equal]
pub struct ExpectedView {
    pub stream_id: Seq<char>,
    pub version: u64,
}

impl View for ExpectedStreamVersion {
    type V = ExpectedView;

    open spec fn view(&self) -> ExpectedView {
        ExpectedView { stream_id: self.stream_id@, version: self.version }
    }
}

impl Clone for ExpectedStreamVersion {
    fn clone(&self) -> (r: ExpectedStreamVersion)
        ensures
            r@ == self@,
    {
        ExpectedStreamVersion { stream_id: self.stream_id.clone(), version: self.version }
    }
}

/// The views of a list of expectations.
pub open spec fn expected_views(s: Seq<ExpectedStreamVersion>) -> Seq<ExpectedView> {
    s.map_values(|e: ExpectedStreamVersion| e@)
}

/// A batch of operations.
#[derive(PartialEq, Eq, Debug)]
pub struct CommitBatch {
    pub transaction_id: Id,
    pub committed_at_ms: i64,
    pub correlation_id: Option<String>,
    pub metadata: Vec<u8>,
    pub expected: Vec<ExpectedStreamVersion>,
    pub operations: Vec<Operation>,
}

/// The view of a [`CommitBatch`].
#[verifier::ext_equal]
pub struct BatchView {
    pub transaction_id: Id,
    pub committed_at_ms: i64,
    pub correlation_id: Option<Seq<char>>,
    pub metadata: Seq<u8>,
    pub expected: Seq<ExpectedView>,
    pub operations: Seq<OperationView>,
}

impl View for CommitBatch {
    type V = BatchView;

    open spec fn view(&self) -> BatchView {
        BatchView {
            transaction_id: self.transaction_id,
            committed_at_ms: self.committed_at_ms,
            correlation_id: opt_text(self.correlation_id),
            metadata: self.metadata@,
            expected: expected_views(self.expected@),
            operations: operation_views(self.operations@),
        }
    }
}

impl Clone for CommitBatch {
    fn clone(&self) -> (r: CommitBatch)
        ensures
            r@ == self@,
    {
        let mut expected: Vec<ExpectedStreamVersion> = Vec::new();
        let mut i: usize = 0;
        while i < self.expected.len()
            invariant
                i <= self.expected@.len(),
                expected@.len() == i,
                forall|k: int| 0 <= k < i ==> (#[trigger] expected@[k])@ == self.expected@[k]@,
            decreases self.expected@.len() - i,
        {
            expected.push(self.expected[i].clone());
            i += 1;
        }
        let mut operations: Vec<Operation> = Vec::new();
        let mut j: usize = 0;
        while j < self.operations.len()
            invariant
                j <= self.operations@.len(),
                operations@.len() == j,
                forall|k: int| 0 <= k < j ==> (#[trigger] operations@[k])@ == self.operations@[k]@,
            decreases self.operations@.len() - j,
        {
            operations.push(self.operations[j].clone());
            j += 1;
        }
        assert(expected_views(expected@) =~= expected_views(self.expected@));
        assert(operation_views(operations@) =~= operation_views(self.operations@));
        CommitBatch {
            transaction_id: self.transaction_id,
            committed_at_ms: self.committed_at_ms,
            correlation_id: copy_opt_text(&self.correlation_id),
            metadata: copy_bytes(&self.metadata),
            expected,
            operations,
        }
    }
}

/// A batch without operations.
pub open spec fn empty_batch(transaction_id: Id, committed_at_ms: i64) -> BatchView {
    BatchView {
        transaction_id,
        committed_at_ms,
        correlation_id: None,
        metadata: Seq::empty(),
        expected: Seq::empty(),
        operations: Seq::empty(),
    }
}

/// The batch with one more expectation.
pub open spec fn expecting(b: BatchView, stream_id: Seq<char>, version: u64) -> BatchView {
    BatchView { expected: b.expected.push(ExpectedView { stream_id, version }), ..b }
}

/// The batch with one more operation.
pub open spec fn operating(b: BatchView, o: OperationView) -> BatchView {
    BatchView { operations: b.operations.push(o), ..b }
}

impl CommitBatch {
    /// A batch without operations.
    pub fn new(transaction_id: Id, committed_at_ms: i64) -> (b: CommitBatch)
        ensures
            b@ == empty_batch(transaction_id, committed_at_ms),
    {
        let b = CommitBatch {
            transaction_id,
            committed_at_ms,
            correlation_id: None,
            metadata: Vec::new(),
            expected: Vec::new(),
            operations: Vec::new(),
        };
        assert(b@ =~= empty_batch(transaction_id, committed_at_ms));
        b
    }

    /// The batch with opaque metadata.
    pub fn with_metadata(self, metadata: Vec<u8>) -> (b: CommitBatch)
        ensures
            b@ == (BatchView { metadata: metadata@, ..self@ }),
    {
        CommitBatch { metadata, ..self }
    }

    /// Demands a version of a stream.
    pub fn expect_stream_version(self, stream_id: &str, version: u64) -> (b: CommitBatch)
        ensures
            b@ == expecting(self@, stream_id@, version),
    {
        let mut b = self;
        let ghost before = b@;
        b.expected.push(ExpectedStreamVersion { stream_id: stream_id.to_owned(), version });
        assert(b@.expected =~= before.expected.push(ExpectedView { stream_id: stream_id@, version }));
        b
    }

    fn operate(self, o: Operation) -> (b: CommitBatch)
        ensures
            b@ == operating(self@, o@),
    {
        let mut b = self;
        let ghost before = b@;
        b.operations.push(o);
        assert(b@.operations =~= before.operations.push(o@));
        b
    }

    /// Appends an event.
    pub fn append_event(self, event: Event) -> (b: CommitBatch)
        ensures
            b@ == operating(self@, OperationView::AppendEvent(event@)),
    {
        self.operate(Operation::AppendEvent(event))
    }

    /// Applies a projection patch.
    pub fn apply_projection_patch(self, patch: ProjectionPatch) -> (b: CommitBatch)
        ensures
            b@ == operating(self@, OperationView::ApplyProjectionPatch(patch@)),
    {
        self.operate(Operation::ApplyProjectionPatch(patch))
    }

    /// Enqueues a job.
    pub fn enqueue_job(self, spec: JobSpec) -> (b: CommitBatch)
        ensures
            b@ == operating(self@, OperationView::EnqueueJob(spec@)),
    {
        self.operate(Operation::EnqueueJob(spec))
    }

    /// Acknowledges a leased job.
    pub fn acknowledge_job(
        self,
        job_id: Id,
        lease_token: Id,
        result_digest: Option<Vec<u8>>,
    ) -> (b: CommitBatch)
        ensures
            b@ == operating(
                self@,
                OperationView::AcknowledgeJob((JobAck { job_id, lease_token, result_digest })@),
            ),
    {
        self.operate(Operation::AcknowledgeJob(JobAck { job_id, lease_token, result_digest }))
    }

    /// Reports the failure of a leased job.
    pub fn fail_job(
        self,
        job_id: Id,
        lease_token: Id,
        error_summary: &str,
        retry_after_ms: Option<i64>,
    ) -> (b: CommitBatch)
        ensures
            b@ == operating(
                self@,
                OperationView::FailJob(
                    (JobFailureView {
                        job_id,
                        lease_token,
                        error_summary: error_summary@,
                        retry_after_ms,
                    }),
                ),
            ),
    {
        self.operate(
            Operation::FailJob(
                JobFailure {
                    job_id,
                    lease_token,
                    error_summary: error_summary.to_owned(),
                    retry_after_ms,
                },
            ),
        )
    }

    /// Cancels a job.
    pub fn cancel_job(self, job_id: Id, lease_token: Option<Id>) -> (b: CommitBatch)
        ensures
            b@ == operating(
                self@,
                OperationView::CancelJob((JobCancellation { job_id, lease_token })),
            ),
    {
        self.operate(Operation::CancelJob(JobCancellation { job_id, lease_token }))
    }

    /// Resolves an uncertain job.
    pub fn resolve_uncertain_job(self, job_id: Id, resolution: Resolution) -> (b: CommitBatch)
        ensures
            b@ == operating(
                self@,
                OperationView::ResolveUncertainJob((JobResolution { job_id, resolution })),
            ),
    {
        self.operate(Operation::ResolveUncertainJob(JobResolution { job_id, resolution }))
    }

    /// Extends a lease.
    pub fn extend_lease(self, job_id: Id, lease_token: Id, new_expiry_ms: i64) -> (b: CommitBatch)
        ensures
            b@ == operating(
                self@,
                OperationView::ExtendLease((LeaseExtension { job_id, lease_token, new_expiry_ms })),
            ),
    {
        self.operate(Operation::ExtendLease(LeaseExtension { job_id, lease_token, new_expiry_ms }))
    }
}

} // verus!
