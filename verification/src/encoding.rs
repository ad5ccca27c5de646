//! The canonical bytes of a batch, whose digest tells a resubmitted batch from
//! another one under the same transaction identifier.
//!
//! Numbers and identifiers have a fixed width, texts and byte strings stand
//! behind their length, lists behind the number of their elements, and
//! variants behind a tag, so that no two batches have the same bytes.
use vstd::prelude::*;
use vstd::utf8::encode_utf8;

use crate::batch::{
    expected_views, mutation_views, operation_views, BatchView, CommitBatch, Event, EventView,
    ExpectedStreamVersion, ExpectedView, MutationView, Operation, OperationView, PatchView,
    ProjectionMutation, ProjectionPatch,
};
use crate::digest::{digest, digest_of};
use crate::id::{big_endian, bytes_of, Id};
use crate::jobs::{
    JobAckView, JobCancellation, JobFailureView, JobResolution, JobSpec, JobSpecView,
    LeaseExtension,
};
use crate::state::{EffectMode, Resolution};
use crate::values::{copy_bytes, opt_bytes, opt_text};

verus! {

/// A number in eight bytes.
pub open spec fn enc_u64(n: u64) -> Seq<u8> {
    big_endian(n as nat, 8)
}

/// A number in eight bytes, such that the least one is all zeros.
pub open spec fn enc_i64(n: i64) -> Seq<u8> {
    big_endian((n - i64::MIN) as nat, 8)
}

/// An identifier in sixteen bytes.
pub open spec fn enc_id(id: Id) -> Seq<u8> {
    big_endian(id.value as nat, 16)
}

/// Bytes behind their number.
pub open spec fn enc_bytes(b: Seq<u8>) -> Seq<u8> {
    big_endian(b.len(), 8) + b
}

/// A text: its UTF-8 bytes.
pub open spec fn enc_text(s: Seq<char>) -> Seq<u8> {
    enc_bytes(encode_utf8(s))
}

/// A tag, in front of an alternative.
pub open spec fn tagged(tag: u8, rest: Seq<u8>) -> Seq<u8> {
    seq![tag] + rest
}

/// An optional number.
pub open spec fn enc_opt_i64(o: Option<i64>) -> Seq<u8> {
    match o {
        None => tagged(0, Seq::empty()),
        Some(n) => tagged(1, enc_i64(n)),
    }
}

/// An optional identifier.
pub open spec fn enc_opt_id(o: Option<Id>) -> Seq<u8> {
    match o {
        None => tagged(0, Seq::empty()),
        Some(id) => tagged(1, enc_id(id)),
    }
}

/// An optional text.
pub open spec fn enc_opt_text(o: Option<Seq<char>>) -> Seq<u8> {
    match o {
        None => tagged(0, Seq::empty()),
        Some(s) => tagged(1, enc_text(s)),
    }
}

/// Optional bytes.
pub open spec fn enc_opt_bytes(o: Option<Seq<u8>>) -> Seq<u8> {
    match o {
        None => tagged(0, Seq::empty()),
        Some(b) => tagged(1, enc_bytes(b)),
    }
}

/// An event.
pub open spec fn enc_event(e: EventView) -> Seq<u8> {
    enc_id(e.event_id) + enc_text(e.stream_id) + enc_text(e.event_type) + enc_i64(e.occurred_at_ms)
        + enc_bytes(e.payload)
}

/// A mutation of a projection.
pub open spec fn enc_mutation(m: MutationView) -> Seq<u8> {
    match m {
        MutationView::Put { key, value } => tagged(0, enc_bytes(key) + enc_bytes(value)),
        MutationView::Delete { key } => tagged(1, enc_bytes(key)),
        MutationView::Clear => tagged(2, Seq::empty()),
    }
}

/// Mutations, one after the other.
pub open spec fn enc_mutations(s: Seq<MutationView>) -> Seq<u8>
    decreases s.len(),
{
    if s.len() == 0 {
        Seq::empty()
    } else {
        enc_mutations(s.drop_last()) + enc_mutation(s.last())
    }
}

/// A projection patch.
pub open spec fn enc_patch(p: PatchView) -> Seq<u8> {
    enc_text(p.projection) + enc_u64(p.expected_version) + enc_u64(p.new_version) + big_endian(
        p.mutations.len(),
        8,
    ) + enc_mutations(p.mutations)
}

/// An effect mode.
pub open spec fn enc_effect(m: EffectMode) -> Seq<u8> {
    match m {
        EffectMode::RequiresReconciliation => tagged(0, Seq::empty()),
        EffectMode::ExplicitlyIdempotent => tagged(1, Seq::empty()),
    }
}

/// A job specification.
pub open spec fn enc_spec(s: JobSpecView) -> Seq<u8> {
    enc_id(s.job_id) + enc_text(s.queue) + enc_text(s.partition_key) + enc_bytes(s.payload)
        + enc_i64(s.not_before_ms) + enc_u64(s.max_attempts as u64) + enc_effect(s.effect_mode)
        + enc_opt_text(s.idempotency_key)
}

/// An acknowledgement.
pub open spec fn enc_ack(a: JobAckView) -> Seq<u8> {
    enc_id(a.job_id) + enc_id(a.lease_token) + enc_opt_bytes(a.result_digest)
}

/// A failure.
pub open spec fn enc_failure(f: JobFailureView) -> Seq<u8> {
    enc_id(f.job_id) + enc_id(f.lease_token) + enc_text(f.error_summary) + enc_opt_i64(
        f.retry_after_ms,
    )
}

/// A cancellation.
pub open spec fn enc_cancellation(c: JobCancellation) -> Seq<u8> {
    enc_id(c.job_id) + enc_opt_id(c.lease_token)
}

/// A resolution.
pub open spec fn enc_resolution(r: JobResolution) -> Seq<u8> {
    enc_id(r.job_id) + match r.resolution {
        Resolution::Retry => tagged(0, Seq::empty()),
        Resolution::MarkSucceeded => tagged(1, Seq::empty()),
        Resolution::MarkDead => tagged(2, Seq::empty()),
    }
}

/// A lease extension.
pub open spec fn enc_extension(e: LeaseExtension) -> Seq<u8> {
    enc_id(e.job_id) + enc_id(e.lease_token) + enc_i64(e.new_expiry_ms)
}

/// An operation.
pub open spec fn enc_operation(o: OperationView) -> Seq<u8> {
    match o {
        OperationView::AppendEvent(e) => tagged(0, enc_event(e)),
        OperationView::ApplyProjectionPatch(p) => tagged(1, enc_patch(p)),
        OperationView::EnqueueJob(s) => tagged(2, enc_spec(s)),
        OperationView::AcknowledgeJob(a) => tagged(3, enc_ack(a)),
        OperationView::FailJob(f) => tagged(4, enc_failure(f)),
        OperationView::CancelJob(c) => tagged(5, enc_cancellation(c)),
        OperationView::ResolveUncertainJob(r) => tagged(6, enc_resolution(r)),
        OperationView::ExtendLease(e) => tagged(7, enc_extension(e)),
    }
}

/// Operations, one after the other.
pub open spec fn enc_operations(s: Seq<OperationView>) -> Seq<u8>
    decreases s.len(),
{
    if s.len() == 0 {
        Seq::empty()
    } else {
        enc_operations(s.drop_last()) + enc_operation(s.last())
    }
}

/// An expectation.
pub open spec fn enc_expected(e: ExpectedView) -> Seq<u8> {
    enc_text(e.stream_id) + enc_u64(e.version)
}

/// Expectations, one after the other.
pub open spec fn enc_expectations(s: Seq<ExpectedView>) -> Seq<u8>
    decreases s.len(),
{
    if s.len() == 0 {
        Seq::empty()
    } else {
        enc_expectations(s.drop_last()) + enc_expected(s.last())
    }
}

/// A batch.
pub open spec fn enc_batch(b: BatchView) -> Seq<u8> {
    enc_id(b.transaction_id) + enc_i64(b.committed_at_ms) + enc_opt_text(b.correlation_id)
        + enc_bytes(b.metadata) + big_endian(b.expected.len(), 8) + enc_expectations(b.expected)
        + big_endian(b.operations.len(), 8) + enc_operations(b.operations)
}

/// The digest of a batch.
pub open spec fn batch_digest(b: BatchView) -> Seq<u8> {
    digest_of(enc_batch(b))
}

fn put_u64(out: &mut Vec<u8>, n: u64)
    ensures
        final(out)@ == old(out)@ + enc_u64(n),
{
    let mut bytes = bytes_of(n as u128, 8);
    out.append(&mut bytes);
}

fn put_len(out: &mut Vec<u8>, n: usize)
    ensures
        final(out)@ == old(out)@ + big_endian(n as nat, 8),
{
    let mut bytes = bytes_of(n as u128, 8);
    out.append(&mut bytes);
}

fn put_i64(out: &mut Vec<u8>, n: i64)
    ensures
        final(out)@ == old(out)@ + enc_i64(n),
{
    let shifted: u128 = (n as i128 - i64::MIN as i128) as u128;
    let mut bytes = bytes_of(shifted, 8);
    out.append(&mut bytes);
}

fn put_id(out: &mut Vec<u8>, id: Id)
    ensures
        final(out)@ == old(out)@ + enc_id(id),
{
    let mut bytes = bytes_of(id.value, 16);
    out.append(&mut bytes);
}

fn put_bytes(out: &mut Vec<u8>, b: &Vec<u8>)
    ensures
        final(out)@ == old(out)@ + enc_bytes(b@),
{
    let ghost before = out@;
    put_len(out, b.len());
    let mut bytes = copy_bytes(b);
    out.append(&mut bytes);
    assert(out@ =~= before + enc_bytes(b@));
}

fn put_text(out: &mut Vec<u8>, s: &String)
    ensures
        final(out)@ == old(out)@ + enc_text(s@),
{
    let ghost before = out@;
    let bytes = s.as_str().as_bytes();
    put_len(out, bytes.len());
    out.extend_from_slice(bytes);
    assert(out@ =~= before + enc_text(s@));
}

fn put_tag(out: &mut Vec<u8>, tag: u8)
    ensures
        final(out)@ == old(out)@ + tagged(tag, Seq::empty()),
{
    let ghost before = out@;
    out.push(tag);
    assert(out@ =~= before + tagged(tag, Seq::empty()));
}

fn put_opt_i64(out: &mut Vec<u8>, o: &Option<i64>)
    ensures
        final(out)@ == old(out)@ + enc_opt_i64(*o),
{
    let ghost before = out@;
    match o {
        None => put_tag(out, 0),
        Some(n) => {
            put_tag(out, 1);
            put_i64(out, *n);
        }
    }
    assert(out@ =~= before + enc_opt_i64(*o));
}

fn put_opt_id(out: &mut Vec<u8>, o: &Option<Id>)
    ensures
        final(out)@ == old(out)@ + enc_opt_id(*o),
{
    let ghost before = out@;
    match o {
        None => put_tag(out, 0),
        Some(id) => {
            put_tag(out, 1);
            put_id(out, *id);
        }
    }
    assert(out@ =~= before + enc_opt_id(*o));
}

fn put_opt_text(out: &mut Vec<u8>, o: &Option<String>)
    ensures
        final(out)@ == old(out)@ + enc_opt_text(opt_text(*o)),
{
    let ghost before = out@;
    match o {
        None => put_tag(out, 0),
        Some(s) => {
            put_tag(out, 1);
            put_text(out, s);
        }
    }
    assert(out@ =~= before + enc_opt_text(opt_text(*o)));
}

fn put_opt_bytes(out: &mut Vec<u8>, o: &Option<Vec<u8>>)
    ensures
        final(out)@ == old(out)@ + enc_opt_bytes(opt_bytes(*o)),
{
    let ghost before = out@;
    match o {
        None => put_tag(out, 0),
        Some(b) => {
            put_tag(out, 1);
            put_bytes(out, b);
        }
    }
    assert(out@ =~= before + enc_opt_bytes(opt_bytes(*o)));
}

fn put_event(out: &mut Vec<u8>, e: &Event)
    ensures
        final(out)@ == old(out)@ + enc_event(e@),
{
    let ghost before = out@;
    put_id(out, e.event_id);
    put_text(out, &e.stream_id);
    put_text(out, &e.event_type);
    put_i64(out, e.occurred_at_ms);
    put_bytes(out, &e.payload);
    assert(out@ =~= before + enc_event(e@));
}

fn put_mutation(out: &mut Vec<u8>, m: &ProjectionMutation)
    ensures
        final(out)@ == old(out)@ + enc_mutation(m@),
{
    let ghost before = out@;
    match m {
        ProjectionMutation::Put { key, value } => {
            put_tag(out, 0);
            put_bytes(out, key);
            put_bytes(out, value);
        }
        ProjectionMutation::Delete { key } => {
            put_tag(out, 1);
            put_bytes(out, key);
        }
        ProjectionMutation::Clear => put_tag(out, 2),
    }
    assert(out@ =~= before + enc_mutation(m@));
}

fn put_patch(out: &mut Vec<u8>, p: &ProjectionPatch)
    ensures
        final(out)@ == old(out)@ + enc_patch(p@),
{
    let ghost before = out@;
    put_text(out, &p.projection);
    put_u64(out, p.expected_version);
    put_u64(out, p.new_version);
    put_len(out, p.mutations.len());
    let ghost head = out@;
    let ghost all = p@.mutations;
    let mut i: usize = 0;
    assert(all.take(0) =~= Seq::<MutationView>::empty());
    assert(out@ =~= head + enc_mutations(all.take(0)));
    while i < p.mutations.len()
        invariant
            i <= p.mutations@.len(),
            all == mutation_views(p.mutations@),
            out@ == head + enc_mutations(all.take(i as int)),
        decreases p.mutations@.len() - i,
    {
        put_mutation(out, &p.mutations[i]);
        proof {
            assert(all.take(i + 1).drop_last() =~= all.take(i as int));
            assert(all.take(i + 1).last() == p.mutations@[i as int]@);
            assert(out@ =~= head + enc_mutations(all.take(i + 1)));
        }
        i += 1;
    }
    assert(all.take(i as int) =~= all);
    assert(out@ =~= before + enc_patch(p@));
}

fn put_effect(out: &mut Vec<u8>, m: EffectMode)
    ensures
        final(out)@ == old(out)@ + enc_effect(m),
{
    match m {
        EffectMode::RequiresReconciliation => put_tag(out, 0),
        EffectMode::ExplicitlyIdempotent => put_tag(out, 1),
    }
}

fn put_spec(out: &mut Vec<u8>, s: &JobSpec)
    ensures
        final(out)@ == old(out)@ + enc_spec(s@),
{
    let ghost before = out@;
    put_id(out, s.job_id);
    put_text(out, &s.queue);
    put_text(out, &s.partition_key);
    put_bytes(out, &s.payload);
    put_i64(out, s.not_before_ms);
    put_u64(out, s.max_attempts as u64);
    put_effect(out, s.effect_mode);
    put_opt_text(out, &s.idempotency_key);
    assert(out@ =~= before + enc_spec(s@));
}

fn put_operation(out: &mut Vec<u8>, o: &Operation)
    ensures
        final(out)@ == old(out)@ + enc_operation(o@),
{
    let ghost before = out@;
    match o {
        Operation::AppendEvent(e) => {
            put_tag(out, 0);
            put_event(out, e);
        }
        Operation::ApplyProjectionPatch(p) => {
            put_tag(out, 1);
            put_patch(out, p);
        }
        Operation::EnqueueJob(s) => {
            put_tag(out, 2);
            put_spec(out, s);
        }
        Operation::AcknowledgeJob(a) => {
            put_tag(out, 3);
            put_id(out, a.job_id);
            put_id(out, a.lease_token);
            put_opt_bytes(out, &a.result_digest);
        }
        Operation::FailJob(f) => {
            put_tag(out, 4);
            put_id(out, f.job_id);
            put_id(out, f.lease_token);
            put_text(out, &f.error_summary);
            put_opt_i64(out, &f.retry_after_ms);
        }
        Operation::CancelJob(c) => {
            put_tag(out, 5);
            put_id(out, c.job_id);
            put_opt_id(out, &c.lease_token);
        }
        Operation::ResolveUncertainJob(r) => {
            put_tag(out, 6);
            put_id(out, r.job_id);
            match r.resolution {
                Resolution::Retry => put_tag(out, 0),
                Resolution::MarkSucceeded => put_tag(out, 1),
                Resolution::MarkDead => put_tag(out, 2),
            }
        }
        Operation::ExtendLease(e) => {
            put_tag(out, 7);
            put_id(out, e.job_id);
            put_id(out, e.lease_token);
            put_i64(out, e.new_expiry_ms);
        }
    }
    assert(out@ =~= before + enc_operation(o@));
}

fn put_operations(out: &mut Vec<u8>, operations: &Vec<Operation>)
    ensures
        final(out)@ == old(out)@ + enc_operations(operation_views(operations@)),
{
    let ghost head = out@;
    let ghost all = operation_views(operations@);
    let mut i: usize = 0;
    assert(all.take(0) =~= Seq::<OperationView>::empty());
    assert(out@ =~= head + enc_operations(all.take(0)));
    while i < operations.len()
        invariant
            i <= operations@.len(),
            all == operation_views(operations@),
            out@ == head + enc_operations(all.take(i as int)),
        decreases operations@.len() - i,
    {
        put_operation(out, &operations[i]);
        proof {
            assert(all.take(i + 1).drop_last() =~= all.take(i as int));
            assert(all.take(i + 1).last() == operations@[i as int]@);
            assert(out@ =~= head + enc_operations(all.take(i + 1)));
        }
        i += 1;
    }
    assert(all.take(i as int) =~= all);
}

fn put_expectations(out: &mut Vec<u8>, expected: &Vec<ExpectedStreamVersion>)
    ensures
        final(out)@ == old(out)@ + enc_expectations(expected_views(expected@)),
{
    let ghost head = out@;
    let ghost all = expected_views(expected@);
    let mut i: usize = 0;
    assert(all.take(0) =~= Seq::<ExpectedView>::empty());
    assert(out@ =~= head + enc_expectations(all.take(0)));
    while i < expected.len()
        invariant
            i <= expected@.len(),
            all == expected_views(expected@),
            out@ == head + enc_expectations(all.take(i as int)),
        decreases expected@.len() - i,
    {
        put_text(out, &expected[i].stream_id);
        put_u64(out, expected[i].version);
        proof {
            assert(all.take(i + 1).drop_last() =~= all.take(i as int));
            assert(all.take(i + 1).last() == expected@[i as int]@);
            assert(out@ =~= head + enc_expectations(all.take(i + 1)));
        }
        i += 1;
    }
    assert(all.take(i as int) =~= all);
}

impl CommitBatch {
    /// The digest of this batch.
    pub fn request_digest(&self) -> (digest_bytes: Vec<u8>)
        ensures
            digest_bytes@ == batch_digest(self@),
    {
        let mut out: Vec<u8> = Vec::new();
        put_id(&mut out, self.transaction_id);
        put_i64(&mut out, self.committed_at_ms);
        put_opt_text(&mut out, &self.correlation_id);
        put_bytes(&mut out, &self.metadata);
        put_len(&mut out, self.expected.len());
        put_expectations(&mut out, &self.expected);
        put_len(&mut out, self.operations.len());
        put_operations(&mut out, &self.operations);
        assert(out@ =~= enc_batch(self@));
        digest(out.as_slice())
    }
}

} // verus!
