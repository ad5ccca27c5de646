//! That no two batches have the same canonical bytes.
//!
//! Each lemma says of one encoding that it can be read back from the front of
//! a byte string: where two encoded values with something behind them are the
//! same bytes, the values are the same, and so is what stands behind them.
use vstd::prelude::*;
use vstd::utf8::{encode_utf8, encode_utf8_decode_utf8};

use crate::batch::{BatchView, EventView, ExpectedView, MutationView, OperationView, PatchView};
use crate::digest::digest_of;
use crate::encoding::{
    batch_digest, enc_ack, enc_batch, enc_bytes, enc_cancellation, enc_effect, enc_event,
    enc_expectations, enc_expected, enc_extension, enc_failure, enc_i64, enc_id, enc_mutation,
    enc_mutations, enc_operation, enc_operations, enc_opt_bytes, enc_opt_i64, enc_opt_id,
    enc_opt_text, enc_patch, enc_resolution, enc_spec, enc_text, enc_u64, tagged,
};
use crate::id::{
    big_endian, lemma_big_endian_inverse, lemma_pow_256_16, lemma_pow_256_8, pow_nat, Id,
};
use crate::jobs::{
    JobAckView, JobCancellation, JobFailureView, JobResolution, JobSpecView, LeaseExtension,
};
use crate::state::{EffectMode, Resolution};

verus! {

proof fn lemma_split(a: Seq<u8>, r: Seq<u8>, b: Seq<u8>, s: Seq<u8>)
    requires
        a + r == b + s,
        a.len() == b.len(),
    ensures
        a == b,
        r == s,
{
    let x = a + r;
    let y = b + s;
    assert(a =~= x.take(a.len() as int));
    assert(b =~= y.take(a.len() as int));
    assert(r =~= x.skip(a.len() as int));
    assert(s =~= y.skip(a.len() as int));
}

proof fn lemma_assoc(a: Seq<u8>, b: Seq<u8>, c: Seq<u8>)
    ensures
        (a + b) + c == a + (b + c),
{
    assert((a + b) + c =~= a + (b + c));
}

proof fn lemma_number(x: nat, r: Seq<u8>, y: nat, s: Seq<u8>, n: nat)
    requires
        big_endian(x, n) + r == big_endian(y, n) + s,
        x < pow_nat(256, n),
        y < pow_nat(256, n),
    ensures
        x == y,
        r == s,
{
    lemma_big_endian_inverse(x, n);
    lemma_big_endian_inverse(y, n);
    lemma_split(big_endian(x, n), r, big_endian(y, n), s);
}

proof fn lemma_u64(x: u64, r: Seq<u8>, y: u64, s: Seq<u8>)
    requires
        enc_u64(x) + r == enc_u64(y) + s,
    ensures
        x == y,
        r == s,
{
    lemma_pow_256_8();
    lemma_number(x as nat, r, y as nat, s, 8);
}

proof fn lemma_i64(x: i64, r: Seq<u8>, y: i64, s: Seq<u8>)
    requires
        enc_i64(x) + r == enc_i64(y) + s,
    ensures
        x == y,
        r == s,
{
    lemma_pow_256_8();
    lemma_number((x - i64::MIN) as nat, r, (y - i64::MIN) as nat, s, 8);
}

proof fn lemma_id(x: Id, r: Seq<u8>, y: Id, s: Seq<u8>)
    requires
        enc_id(x) + r == enc_id(y) + s,
    ensures
        x == y,
        r == s,
{
    lemma_pow_256_16();
    lemma_number(x.value as nat, r, y.value as nat, s, 16);
}

/// A length that a byte string in memory can have.
pub open spec fn storable(n: nat) -> bool {
    n <= u64::MAX
}

proof fn lemma_bytes(x: Seq<u8>, r: Seq<u8>, y: Seq<u8>, s: Seq<u8>)
    requires
        enc_bytes(x) + r == enc_bytes(y) + s,
        storable(x.len()),
        storable(y.len()),
    ensures
        x == y,
        r == s,
{
    lemma_pow_256_8();
    assert(enc_bytes(x) + r =~= big_endian(x.len(), 8) + (x + r));
    assert(enc_bytes(y) + s =~= big_endian(y.len(), 8) + (y + s));
    lemma_number(x.len(), x + r, y.len(), y + s, 8);
    lemma_split(x, r, y, s);
}

/// A text whose bytes fit in memory.
pub open spec fn storable_text(s: Seq<char>) -> bool {
    storable(encode_utf8(s).len())
}

/// An optional text whose bytes fit in memory.
pub open spec fn storable_opt_text(o: Option<Seq<char>>) -> bool {
    o matches Some(s) ==> storable_text(s)
}

proof fn lemma_text(x: Seq<char>, r: Seq<u8>, y: Seq<char>, s: Seq<u8>)
    requires
        enc_text(x) + r == enc_text(y) + s,
        storable_text(x),
        storable_text(y),
    ensures
        x == y,
        r == s,
{
    lemma_bytes(encode_utf8(x), r, encode_utf8(y), s);
    encode_utf8_decode_utf8(x);
    encode_utf8_decode_utf8(y);
}

proof fn lemma_tagged(a: u8, x: Seq<u8>, r: Seq<u8>, b: u8, y: Seq<u8>, s: Seq<u8>)
    requires
        tagged(a, x) + r == tagged(b, y) + s,
    ensures
        a == b,
        x + r == y + s,
{
    assert(tagged(a, x) + r =~= seq![a] + (x + r));
    assert(tagged(b, y) + s =~= seq![b] + (y + s));
    lemma_split(seq![a], x + r, seq![b], y + s);
    assert(seq![a][0] == seq![b][0]);
}

proof fn lemma_empty_tags(a: u8, r: Seq<u8>, b: u8, s: Seq<u8>)
    requires
        tagged(a, Seq::empty()) + r == tagged(b, Seq::empty()) + s,
    ensures
        a == b,
        r == s,
{
    lemma_tagged(a, Seq::empty(), r, b, Seq::empty(), s);
    assert(Seq::<u8>::empty() + r =~= r);
    assert(Seq::<u8>::empty() + s =~= s);
}

proof fn lemma_opt_i64(x: Option<i64>, r: Seq<u8>, y: Option<i64>, s: Seq<u8>)
    requires
        enc_opt_i64(x) + r == enc_opt_i64(y) + s,
    ensures
        x == y,
        r == s,
{
    match (x, y) {
        (Some(a), Some(b)) => {
            lemma_tagged(1, enc_i64(a), r, 1, enc_i64(b), s);
            lemma_i64(a, r, b, s);
        },
        (None, None) => {
            lemma_empty_tags(0, r, 0, s);
        },
        (Some(a), None) => {
            lemma_tagged(1, enc_i64(a), r, 0, Seq::empty(), s);
        },
        (None, Some(b)) => {
            lemma_tagged(0, Seq::empty(), r, 1, enc_i64(b), s);
        },
    }
}

proof fn lemma_opt_id(x: Option<Id>, r: Seq<u8>, y: Option<Id>, s: Seq<u8>)
    requires
        enc_opt_id(x) + r == enc_opt_id(y) + s,
    ensures
        x == y,
        r == s,
{
    match (x, y) {
        (Some(a), Some(b)) => {
            lemma_tagged(1, enc_id(a), r, 1, enc_id(b), s);
            lemma_id(a, r, b, s);
        },
        (None, None) => {
            lemma_empty_tags(0, r, 0, s);
        },
        (Some(a), None) => {
            lemma_tagged(1, enc_id(a), r, 0, Seq::empty(), s);
        },
        (None, Some(b)) => {
            lemma_tagged(0, Seq::empty(), r, 1, enc_id(b), s);
        },
    }
}

proof fn lemma_opt_text(x: Option<Seq<char>>, r: Seq<u8>, y: Option<Seq<char>>, s: Seq<u8>)
    requires
        enc_opt_text(x) + r == enc_opt_text(y) + s,
        storable_opt_text(x),
        storable_opt_text(y),
    ensures
        x == y,
        r == s,
{
    match (x, y) {
        (Some(a), Some(b)) => {
            lemma_tagged(1, enc_text(a), r, 1, enc_text(b), s);
            lemma_text(a, r, b, s);
        },
        (None, None) => {
            lemma_empty_tags(0, r, 0, s);
        },
        (Some(a), None) => {
            lemma_tagged(1, enc_text(a), r, 0, Seq::empty(), s);
        },
        (None, Some(b)) => {
            lemma_tagged(0, Seq::empty(), r, 1, enc_text(b), s);
        },
    }
}

/// Optional bytes that fit in memory.
pub open spec fn storable_opt_bytes(o: Option<Seq<u8>>) -> bool {
    o matches Some(b) ==> storable(b.len())
}

proof fn lemma_opt_bytes(x: Option<Seq<u8>>, r: Seq<u8>, y: Option<Seq<u8>>, s: Seq<u8>)
    requires
        enc_opt_bytes(x) + r == enc_opt_bytes(y) + s,
        storable_opt_bytes(x),
        storable_opt_bytes(y),
    ensures
        x == y,
        r == s,
{
    match (x, y) {
        (Some(a), Some(b)) => {
            lemma_tagged(1, enc_bytes(a), r, 1, enc_bytes(b), s);
            lemma_bytes(a, r, b, s);
        },
        (None, None) => {
            lemma_empty_tags(0, r, 0, s);
        },
        (Some(a), None) => {
            lemma_tagged(1, enc_bytes(a), r, 0, Seq::empty(), s);
        },
        (None, Some(b)) => {
            lemma_tagged(0, Seq::empty(), r, 1, enc_bytes(b), s);
        },
    }
}

/// An event that fits in memory.
pub open spec fn storable_event(e: EventView) -> bool {
    storable_text(e.stream_id) && storable_text(e.event_type) && storable(e.payload.len())
}

proof fn lemma_event(x: EventView, r: Seq<u8>, y: EventView, s: Seq<u8>)
    requires
        enc_event(x) + r == enc_event(y) + s,
        storable_event(x),
        storable_event(y),
    ensures
        x == y,
        r == s,
{
    let x4 = enc_bytes(x.payload) + r;
    let x3 = enc_i64(x.occurred_at_ms) + x4;
    let x2 = enc_text(x.event_type) + x3;
    let x1 = enc_text(x.stream_id) + x2;
    let y4 = enc_bytes(y.payload) + s;
    let y3 = enc_i64(y.occurred_at_ms) + y4;
    let y2 = enc_text(y.event_type) + y3;
    let y1 = enc_text(y.stream_id) + y2;
    assert(enc_event(x) + r =~= enc_id(x.event_id) + x1);
    assert(enc_event(y) + s =~= enc_id(y.event_id) + y1);
    lemma_id(x.event_id, x1, y.event_id, y1);
    lemma_text(x.stream_id, x2, y.stream_id, y2);
    lemma_text(x.event_type, x3, y.event_type, y3);
    lemma_i64(x.occurred_at_ms, x4, y.occurred_at_ms, y4);
    lemma_bytes(x.payload, r, y.payload, s);
}

/// A mutation that fits in memory.
pub open spec fn storable_mutation(m: MutationView) -> bool {
    match m {
        MutationView::Put { key, value } => storable(key.len()) && storable(value.len()),
        MutationView::Delete { key } => storable(key.len()),
        MutationView::Clear => true,
    }
}

proof fn lemma_mutation(x: MutationView, r: Seq<u8>, y: MutationView, s: Seq<u8>)
    requires
        enc_mutation(x) + r == enc_mutation(y) + s,
        storable_mutation(x),
        storable_mutation(y),
    ensures
        x == y,
        r == s,
{
    match (x, y) {
        (MutationView::Put { key: ka, value: va }, MutationView::Put { key: kb, value: vb }) => {
            lemma_tagged(0, enc_bytes(ka) + enc_bytes(va), r, 0, enc_bytes(kb) + enc_bytes(vb), s);
            assert(enc_bytes(ka) + enc_bytes(va) + r =~= enc_bytes(ka) + (enc_bytes(va) + r));
            assert(enc_bytes(kb) + enc_bytes(vb) + s =~= enc_bytes(kb) + (enc_bytes(vb) + s));
            lemma_bytes(ka, enc_bytes(va) + r, kb, enc_bytes(vb) + s);
            lemma_bytes(va, r, vb, s);
        },
        (MutationView::Delete { key: ka }, MutationView::Delete { key: kb }) => {
            lemma_tagged(1, enc_bytes(ka), r, 1, enc_bytes(kb), s);
            lemma_bytes(ka, r, kb, s);
        },
        (MutationView::Clear, MutationView::Clear) => {
            lemma_empty_tags(2, r, 2, s);
        },
        _ => {
            let a = (enc_mutation(x) + r)[0];
            let b = (enc_mutation(y) + s)[0];
            assert(a == b);
        },
    }
}

proof fn lemma_mutations(x: Seq<MutationView>, r: Seq<u8>, y: Seq<MutationView>, s: Seq<u8>)
    requires
        enc_mutations(x) + r == enc_mutations(y) + s,
        x.len() == y.len(),
        forall|i: int| 0 <= i < x.len() ==> storable_mutation(#[trigger] x[i]),
        forall|i: int| 0 <= i < y.len() ==> storable_mutation(#[trigger] y[i]),
    ensures
        x == y,
        r == s,
    decreases x.len(),
{
    if x.len() == 0 {
        assert(enc_mutations(x) + r =~= r);
        assert(enc_mutations(y) + s =~= s);
        assert(x =~= y);
    } else {
        let xr = enc_mutation(x.last()) + r;
        let ys = enc_mutation(y.last()) + s;
        assert(enc_mutations(x) + r =~= enc_mutations(x.drop_last()) + xr);
        assert(enc_mutations(y) + s =~= enc_mutations(y.drop_last()) + ys);
        lemma_mutations(x.drop_last(), xr, y.drop_last(), ys);
        assert(storable_mutation(x[x.len() - 1]) && storable_mutation(y[y.len() - 1]));
        lemma_mutation(x.last(), r, y.last(), s);
        assert(x =~= x.drop_last().push(x.last()));
        assert(y =~= y.drop_last().push(y.last()));
    }
}

/// A patch that fits in memory.
pub open spec fn storable_patch(p: PatchView) -> bool {
    storable_text(p.projection) && storable(p.mutations.len()) && forall|i: int|
        0 <= i < p.mutations.len() ==> storable_mutation(#[trigger] p.mutations[i])
}

proof fn lemma_patch(x: PatchView, r: Seq<u8>, y: PatchView, s: Seq<u8>)
    requires
        enc_patch(x) + r == enc_patch(y) + s,
        storable_patch(x),
        storable_patch(y),
    ensures
        x == y,
        r == s,
{
    let x4 = enc_mutations(x.mutations) + r;
    let x3 = big_endian(x.mutations.len(), 8) + x4;
    let x2 = enc_u64(x.new_version) + x3;
    let x1 = enc_u64(x.expected_version) + x2;
    let y4 = enc_mutations(y.mutations) + s;
    let y3 = big_endian(y.mutations.len(), 8) + y4;
    let y2 = enc_u64(y.new_version) + y3;
    let y1 = enc_u64(y.expected_version) + y2;
    assert(enc_patch(x) + r =~= enc_text(x.projection) + x1);
    assert(enc_patch(y) + s =~= enc_text(y.projection) + y1);
    lemma_text(x.projection, x1, y.projection, y1);
    lemma_u64(x.expected_version, x2, y.expected_version, y2);
    lemma_u64(x.new_version, x3, y.new_version, y3);
    lemma_pow_256_8();
    lemma_number(x.mutations.len(), x4, y.mutations.len(), y4, 8);
    lemma_mutations(x.mutations, r, y.mutations, s);
}

proof fn lemma_effect(x: EffectMode, r: Seq<u8>, y: EffectMode, s: Seq<u8>)
    requires
        enc_effect(x) + r == enc_effect(y) + s,
    ensures
        x == y,
        r == s,
{
    let a: u8 = if x is RequiresReconciliation {
        0
    } else {
        1
    };
    let b: u8 = if y is RequiresReconciliation {
        0
    } else {
        1
    };
    lemma_empty_tags(a, r, b, s);
}

/// A job specification that fits in memory.
pub open spec fn storable_spec(s: JobSpecView) -> bool {
    storable_text(s.queue) && storable_text(s.partition_key) && storable(s.payload.len())
        && storable_opt_text(s.idempotency_key)
}

/// A job specification with something behind it, bracketed from the right.
spec fn spec_fields(x: JobSpecView, r: Seq<u8>) -> Seq<u8> {
    enc_id(x.job_id) + (enc_text(x.queue) + (enc_text(x.partition_key) + (enc_bytes(x.payload) + (
    enc_i64(x.not_before_ms) + (enc_u64(x.max_attempts as u64) + (enc_effect(x.effect_mode) + (
    enc_opt_text(x.idempotency_key) + r)))))))
}

proof fn lemma_spec_fields(x: JobSpecView, r: Seq<u8>)
    ensures
        enc_spec(x) + r == spec_fields(x, r),
{
    let e1 = enc_id(x.job_id);
    let e2 = e1 + enc_text(x.queue);
    let e3 = e2 + enc_text(x.partition_key);
    let e4 = e3 + enc_bytes(x.payload);
    let e5 = e4 + enc_i64(x.not_before_ms);
    let e6 = e5 + enc_u64(x.max_attempts as u64);
    let e7 = e6 + enc_effect(x.effect_mode);
    let t7 = enc_opt_text(x.idempotency_key) + r;
    let t6 = enc_effect(x.effect_mode) + t7;
    let t5 = enc_u64(x.max_attempts as u64) + t6;
    let t4 = enc_i64(x.not_before_ms) + t5;
    let t3 = enc_bytes(x.payload) + t4;
    let t2 = enc_text(x.partition_key) + t3;
    lemma_assoc(e7, enc_opt_text(x.idempotency_key), r);
    lemma_assoc(e6, enc_effect(x.effect_mode), t7);
    lemma_assoc(e5, enc_u64(x.max_attempts as u64), t6);
    lemma_assoc(e4, enc_i64(x.not_before_ms), t5);
    lemma_assoc(e3, enc_bytes(x.payload), t4);
    lemma_assoc(e2, enc_text(x.partition_key), t3);
    lemma_assoc(e1, enc_text(x.queue), t2);
}

proof fn lemma_spec(x: JobSpecView, r: Seq<u8>, y: JobSpecView, s: Seq<u8>)
    requires
        enc_spec(x) + r == enc_spec(y) + s,
        storable_spec(x),
        storable_spec(y),
    ensures
        x == y,
        r == s,
{
    let x7 = enc_opt_text(x.idempotency_key) + r;
    let x6 = enc_effect(x.effect_mode) + x7;
    let x5 = enc_u64(x.max_attempts as u64) + x6;
    let x4 = enc_i64(x.not_before_ms) + x5;
    let x3 = enc_bytes(x.payload) + x4;
    let x2 = enc_text(x.partition_key) + x3;
    let x1 = enc_text(x.queue) + x2;
    let y7 = enc_opt_text(y.idempotency_key) + s;
    let y6 = enc_effect(y.effect_mode) + y7;
    let y5 = enc_u64(y.max_attempts as u64) + y6;
    let y4 = enc_i64(y.not_before_ms) + y5;
    let y3 = enc_bytes(y.payload) + y4;
    let y2 = enc_text(y.partition_key) + y3;
    let y1 = enc_text(y.queue) + y2;
    lemma_spec_fields(x, r);
    lemma_spec_fields(y, s);
    lemma_id(x.job_id, x1, y.job_id, y1);
    lemma_text(x.queue, x2, y.queue, y2);
    lemma_text(x.partition_key, x3, y.partition_key, y3);
    lemma_bytes(x.payload, x4, y.payload, y4);
    lemma_i64(x.not_before_ms, x5, y.not_before_ms, y5);
    lemma_u64(x.max_attempts as u64, x6, y.max_attempts as u64, y6);
    lemma_effect(x.effect_mode, x7, y.effect_mode, y7);
    lemma_opt_text(x.idempotency_key, r, y.idempotency_key, s);
}

proof fn lemma_ack(x: JobAckView, r: Seq<u8>, y: JobAckView, s: Seq<u8>)
    requires
        enc_ack(x) + r == enc_ack(y) + s,
        storable_opt_bytes(x.result_digest),
        storable_opt_bytes(y.result_digest),
    ensures
        x == y,
        r == s,
{
    let x2 = enc_opt_bytes(x.result_digest) + r;
    let x1 = enc_id(x.lease_token) + x2;
    let y2 = enc_opt_bytes(y.result_digest) + s;
    let y1 = enc_id(y.lease_token) + y2;
    assert(enc_ack(x) + r =~= enc_id(x.job_id) + x1);
    assert(enc_ack(y) + s =~= enc_id(y.job_id) + y1);
    lemma_id(x.job_id, x1, y.job_id, y1);
    lemma_id(x.lease_token, x2, y.lease_token, y2);
    lemma_opt_bytes(x.result_digest, r, y.result_digest, s);
}

proof fn lemma_failure(x: JobFailureView, r: Seq<u8>, y: JobFailureView, s: Seq<u8>)
    requires
        enc_failure(x) + r == enc_failure(y) + s,
        storable_text(x.error_summary),
        storable_text(y.error_summary),
    ensures
        x == y,
        r == s,
{
    let x3 = enc_opt_i64(x.retry_after_ms) + r;
    let x2 = enc_text(x.error_summary) + x3;
    let x1 = enc_id(x.lease_token) + x2;
    let y3 = enc_opt_i64(y.retry_after_ms) + s;
    let y2 = enc_text(y.error_summary) + y3;
    let y1 = enc_id(y.lease_token) + y2;
    assert(enc_failure(x) + r =~= enc_id(x.job_id) + x1);
    assert(enc_failure(y) + s =~= enc_id(y.job_id) + y1);
    lemma_id(x.job_id, x1, y.job_id, y1);
    lemma_id(x.lease_token, x2, y.lease_token, y2);
    lemma_text(x.error_summary, x3, y.error_summary, y3);
    lemma_opt_i64(x.retry_after_ms, r, y.retry_after_ms, s);
}

proof fn lemma_cancellation(x: JobCancellation, r: Seq<u8>, y: JobCancellation, s: Seq<u8>)
    requires
        enc_cancellation(x) + r == enc_cancellation(y) + s,
    ensures
        x == y,
        r == s,
{
    let x1 = enc_opt_id(x.lease_token) + r;
    let y1 = enc_opt_id(y.lease_token) + s;
    assert(enc_cancellation(x) + r =~= enc_id(x.job_id) + x1);
    assert(enc_cancellation(y) + s =~= enc_id(y.job_id) + y1);
    lemma_id(x.job_id, x1, y.job_id, y1);
    lemma_opt_id(x.lease_token, r, y.lease_token, s);
}

/// The tag of a resolution.
spec fn resolution_tag(r: Resolution) -> u8 {
    match r {
        Resolution::Retry => 0,
        Resolution::MarkSucceeded => 1,
        Resolution::MarkDead => 2,
    }
}

proof fn lemma_resolution(x: JobResolution, r: Seq<u8>, y: JobResolution, s: Seq<u8>)
    requires
        enc_resolution(x) + r == enc_resolution(y) + s,
    ensures
        x == y,
        r == s,
{
    let a = resolution_tag(x.resolution);
    let b = resolution_tag(y.resolution);
    let x1 = tagged(a, Seq::empty()) + r;
    let y1 = tagged(b, Seq::empty()) + s;
    assert(enc_resolution(x) + r =~= enc_id(x.job_id) + x1);
    assert(enc_resolution(y) + s =~= enc_id(y.job_id) + y1);
    lemma_id(x.job_id, x1, y.job_id, y1);
    lemma_empty_tags(a, r, b, s);
}

proof fn lemma_extension(x: LeaseExtension, r: Seq<u8>, y: LeaseExtension, s: Seq<u8>)
    requires
        enc_extension(x) + r == enc_extension(y) + s,
    ensures
        x == y,
        r == s,
{
    let x2 = enc_i64(x.new_expiry_ms) + r;
    let x1 = enc_id(x.lease_token) + x2;
    let y2 = enc_i64(y.new_expiry_ms) + s;
    let y1 = enc_id(y.lease_token) + y2;
    assert(enc_extension(x) + r =~= enc_id(x.job_id) + x1);
    assert(enc_extension(y) + s =~= enc_id(y.job_id) + y1);
    lemma_id(x.job_id, x1, y.job_id, y1);
    lemma_id(x.lease_token, x2, y.lease_token, y2);
    lemma_i64(x.new_expiry_ms, r, y.new_expiry_ms, s);
}

/// An operation that fits in memory.
pub open spec fn storable_operation(o: OperationView) -> bool {
    match o {
        OperationView::AppendEvent(e) => storable_event(e),
        OperationView::ApplyProjectionPatch(p) => storable_patch(p),
        OperationView::EnqueueJob(s) => storable_spec(s),
        OperationView::AcknowledgeJob(a) => storable_opt_bytes(a.result_digest),
        OperationView::FailJob(f) => storable_text(f.error_summary),
        OperationView::CancelJob(_) => true,
        OperationView::ResolveUncertainJob(_) => true,
        OperationView::ExtendLease(_) => true,
    }
}

/// The tag of an operation.
spec fn operation_tag(o: OperationView) -> u8 {
    match o {
        OperationView::AppendEvent(_) => 0,
        OperationView::ApplyProjectionPatch(_) => 1,
        OperationView::EnqueueJob(_) => 2,
        OperationView::AcknowledgeJob(_) => 3,
        OperationView::FailJob(_) => 4,
        OperationView::CancelJob(_) => 5,
        OperationView::ResolveUncertainJob(_) => 6,
        OperationView::ExtendLease(_) => 7,
    }
}

proof fn lemma_operation_tag(o: OperationView, r: Seq<u8>)
    ensures
        (enc_operation(o) + r)[0] == operation_tag(o),
{
}

proof fn lemma_operation(x: OperationView, r: Seq<u8>, y: OperationView, s: Seq<u8>)
    requires
        enc_operation(x) + r == enc_operation(y) + s,
        storable_operation(x),
        storable_operation(y),
    ensures
        x == y,
        r == s,
{
    lemma_operation_tag(x, r);
    lemma_operation_tag(y, s);
    match (x, y) {
        (OperationView::AppendEvent(a), OperationView::AppendEvent(b)) => {
            lemma_tagged(0, enc_event(a), r, 0, enc_event(b), s);
            lemma_event(a, r, b, s);
        },
        (OperationView::ApplyProjectionPatch(a), OperationView::ApplyProjectionPatch(b)) => {
            lemma_tagged(1, enc_patch(a), r, 1, enc_patch(b), s);
            lemma_patch(a, r, b, s);
        },
        (OperationView::EnqueueJob(a), OperationView::EnqueueJob(b)) => {
            lemma_tagged(2, enc_spec(a), r, 2, enc_spec(b), s);
            lemma_spec(a, r, b, s);
        },
        (OperationView::AcknowledgeJob(a), OperationView::AcknowledgeJob(b)) => {
            lemma_tagged(3, enc_ack(a), r, 3, enc_ack(b), s);
            lemma_ack(a, r, b, s);
        },
        (OperationView::FailJob(a), OperationView::FailJob(b)) => {
            lemma_tagged(4, enc_failure(a), r, 4, enc_failure(b), s);
            lemma_failure(a, r, b, s);
        },
        (OperationView::CancelJob(a), OperationView::CancelJob(b)) => {
            lemma_tagged(5, enc_cancellation(a), r, 5, enc_cancellation(b), s);
            lemma_cancellation(a, r, b, s);
        },
        (OperationView::ResolveUncertainJob(a), OperationView::ResolveUncertainJob(b)) => {
            lemma_tagged(6, enc_resolution(a), r, 6, enc_resolution(b), s);
            lemma_resolution(a, r, b, s);
        },
        (OperationView::ExtendLease(a), OperationView::ExtendLease(b)) => {
            lemma_tagged(7, enc_extension(a), r, 7, enc_extension(b), s);
            lemma_extension(a, r, b, s);
        },
        _ => {},
    }
}

proof fn lemma_operations(x: Seq<OperationView>, r: Seq<u8>, y: Seq<OperationView>, s: Seq<u8>)
    requires
        enc_operations(x) + r == enc_operations(y) + s,
        x.len() == y.len(),
        forall|i: int| 0 <= i < x.len() ==> storable_operation(#[trigger] x[i]),
        forall|i: int| 0 <= i < y.len() ==> storable_operation(#[trigger] y[i]),
    ensures
        x == y,
        r == s,
    decreases x.len(),
{
    if x.len() == 0 {
        assert(enc_operations(x) + r =~= r);
        assert(enc_operations(y) + s =~= s);
        assert(x =~= y);
    } else {
        let xr = enc_operation(x.last()) + r;
        let ys = enc_operation(y.last()) + s;
        assert(enc_operations(x) + r =~= enc_operations(x.drop_last()) + xr);
        assert(enc_operations(y) + s =~= enc_operations(y.drop_last()) + ys);
        lemma_operations(x.drop_last(), xr, y.drop_last(), ys);
        assert(storable_operation(x[x.len() - 1]) && storable_operation(y[y.len() - 1]));
        lemma_operation(x.last(), r, y.last(), s);
        assert(x =~= x.drop_last().push(x.last()));
        assert(y =~= y.drop_last().push(y.last()));
    }
}

proof fn lemma_expectations(x: Seq<ExpectedView>, r: Seq<u8>, y: Seq<ExpectedView>, s: Seq<u8>)
    requires
        enc_expectations(x) + r == enc_expectations(y) + s,
        x.len() == y.len(),
        forall|i: int| 0 <= i < x.len() ==> storable_text((#[trigger] x[i]).stream_id),
        forall|i: int| 0 <= i < y.len() ==> storable_text((#[trigger] y[i]).stream_id),
    ensures
        x == y,
        r == s,
    decreases x.len(),
{
    if x.len() == 0 {
        assert(enc_expectations(x) + r =~= r);
        assert(enc_expectations(y) + s =~= s);
        assert(x =~= y);
    } else {
        let a = x.last();
        let b = y.last();
        let xr = enc_expected(a) + r;
        let ys = enc_expected(b) + s;
        assert(enc_expectations(x) + r =~= enc_expectations(x.drop_last()) + xr);
        assert(enc_expectations(y) + s =~= enc_expectations(y.drop_last()) + ys);
        lemma_expectations(x.drop_last(), xr, y.drop_last(), ys);
        assert(storable_text(x[x.len() - 1].stream_id) && storable_text(y[y.len() - 1].stream_id));
        assert(xr =~= enc_text(a.stream_id) + (enc_u64(a.version) + r));
        assert(ys =~= enc_text(b.stream_id) + (enc_u64(b.version) + s));
        lemma_text(a.stream_id, enc_u64(a.version) + r, b.stream_id, enc_u64(b.version) + s);
        lemma_u64(a.version, r, b.version, s);
        assert(x =~= x.drop_last().push(a));
        assert(y =~= y.drop_last().push(b));
    }
}

/// A batch that fits in memory.
pub open spec fn storable_batch(b: BatchView) -> bool {
    &&& storable_opt_text(b.correlation_id)
    &&& storable(b.metadata.len())
    &&& storable(b.expected.len())
    &&& storable(b.operations.len())
    &&& forall|i: int|
        0 <= i < b.expected.len() ==> storable_text((#[trigger] b.expected[i]).stream_id)
    &&& forall|i: int|
        0 <= i < b.operations.len() ==> storable_operation(#[trigger] b.operations[i])
}

/// The canonical bytes of a batch, taken apart from the front.
proof fn lemma_batch_fields(b: BatchView)
    ensures
        enc_batch(b) == enc_id(b.transaction_id) + (enc_i64(b.committed_at_ms) + (enc_opt_text(
            b.correlation_id,
        ) + (enc_bytes(b.metadata) + (big_endian(b.expected.len(), 8) + (enc_expectations(
            b.expected,
        ) + (big_endian(b.operations.len(), 8) + (enc_operations(b.operations)
            + Seq::<u8>::empty()))))))),
{
    let t7 = enc_operations(b.operations) + Seq::<u8>::empty();
    let t6 = big_endian(b.operations.len(), 8) + t7;
    let t5 = enc_expectations(b.expected) + t6;
    let t4 = big_endian(b.expected.len(), 8) + t5;
    let t3 = enc_bytes(b.metadata) + t4;
    let t2 = enc_opt_text(b.correlation_id) + t3;
    let e1 = enc_id(b.transaction_id);
    let e2 = e1 + enc_i64(b.committed_at_ms);
    let e3 = e2 + enc_opt_text(b.correlation_id);
    let e4 = e3 + enc_bytes(b.metadata);
    let e5 = e4 + big_endian(b.expected.len(), 8);
    let e6 = e5 + enc_expectations(b.expected);
    assert(t7 =~= enc_operations(b.operations));
    lemma_assoc(e6, big_endian(b.operations.len(), 8), t7);
    lemma_assoc(e5, enc_expectations(b.expected), t6);
    lemma_assoc(e4, big_endian(b.expected.len(), 8), t5);
    lemma_assoc(e3, enc_bytes(b.metadata), t4);
    lemma_assoc(e2, enc_opt_text(b.correlation_id), t3);
    lemma_assoc(e1, enc_i64(b.committed_at_ms), t2);
}

/// Two batches that fit in memory and have the same canonical bytes are the
/// same, so that only a collision of the digest could take one for the other.
pub proof fn law_canonical_bytes_identify_a_batch(x: BatchView, y: BatchView)
    requires
        storable_batch(x),
        storable_batch(y),
        enc_batch(x) == enc_batch(y),
    ensures
        x == y,
{
    let e = Seq::<u8>::empty();
    let x7 = enc_operations(x.operations) + e;
    let x6 = big_endian(x.operations.len(), 8) + x7;
    let x5 = enc_expectations(x.expected) + x6;
    let x4 = big_endian(x.expected.len(), 8) + x5;
    let x3 = enc_bytes(x.metadata) + x4;
    let x2 = enc_opt_text(x.correlation_id) + x3;
    let x1 = enc_i64(x.committed_at_ms) + x2;
    let y7 = enc_operations(y.operations) + e;
    let y6 = big_endian(y.operations.len(), 8) + y7;
    let y5 = enc_expectations(y.expected) + y6;
    let y4 = big_endian(y.expected.len(), 8) + y5;
    let y3 = enc_bytes(y.metadata) + y4;
    let y2 = enc_opt_text(y.correlation_id) + y3;
    let y1 = enc_i64(y.committed_at_ms) + y2;
    lemma_batch_fields(x);
    lemma_batch_fields(y);
    lemma_id(x.transaction_id, x1, y.transaction_id, y1);
    lemma_i64(x.committed_at_ms, x2, y.committed_at_ms, y2);
    lemma_opt_text(x.correlation_id, x3, y.correlation_id, y3);
    lemma_bytes(x.metadata, x4, y.metadata, y4);
    lemma_pow_256_8();
    lemma_number(x.expected.len(), x5, y.expected.len(), y5, 8);
    lemma_expectations(x.expected, x6, y.expected, y6);
    lemma_number(x.operations.len(), x7, y.operations.len(), y7, 8);
    lemma_operations(x.operations, e, y.operations, e);
}

/// The digest of a batch is that of its canonical bytes.
pub proof fn law_digest_of_a_batch(b: BatchView)
    ensures
        batch_digest(b) == digest_of(enc_batch(b)),
{
}

} // verus!
