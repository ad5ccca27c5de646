//! What a batch input is built into, in terms of its lists and of the fresh
//! identifiers.
use vstd::prelude::*;

use crate::batch::{empty_batch, empty_patch, BatchView, MutationView, OperationView, PatchView};
use crate::id::{id_of_hex, Id};
use crate::node_error::{debug_text, JsErrorView};
use crate::node_input::{
    ack_of, acks_of, built, cancellation_of, cancellations_of, claim_of, failure_of, failures_of,
    id_or_fresh, lemma_all_err, listed_items, patch_of, resolution_of, resolutions_of, with_all,
    with_deletes, with_event, with_events, with_expectations, with_job_input, with_jobs,
    with_patches, with_puts, ClaimRequestInput, CommitBatchInput, EventInput,
    ExpectedStreamVersionInput, JobAckInput, JobCancellationInput, JobFailureInput,
    JobResolutionInput, JobSpecInput, ProjectionPatchInput, ProjectionPutInput,
};
use crate::values::{opt_bytes, opt_text};

verus! {

/// A list that is left out counts as an empty one, and any other as it is.
pub proof fn law_lists<A>(o: Option<Vec<A>>)
    ensures
        o matches Some(v) ==> listed_items(o) == v@,
        o is None ==> listed_items(o).len() == 0,
{
}

/// The identifier is the one that is given or, where none is, the fresh one with
/// this number.
pub open spec fn given_or_fresh(given: Option<String>, fresh: Seq<Id>, k: nat, id: Id) -> bool {
    match given {
        Some(hex) => id_of_hex(hex@) == Some(id),
        None => k < fresh.len() && id == fresh[k as int],
    }
}

/// How many of the first events have no identifier of their own.
pub open spec fn unnamed_events(s: Seq<EventInput>, n: int) -> nat
    decreases n,
{
    if n <= 0 {
        0
    } else {
        unnamed_events(s, n - 1) + (if s[n - 1].event_id is None {
            1nat
        } else {
            0nat
        })
    }
}

/// How many of the first jobs have no identifier of their own.
pub open spec fn unnamed_jobs(s: Seq<JobSpecInput>, n: int) -> nat
    decreases n,
{
    if n <= 0 {
        0
    } else {
        unnamed_jobs(s, n - 1) + (if s[n - 1].job_id is None {
            1nat
        } else {
            0nat
        })
    }
}

/// The operation appends this event, under its own identifier or the fresh one
/// with this number.
pub open spec fn appends(o: OperationView, e: EventInput, fresh: Seq<Id>, k: nat) -> bool {
    o matches OperationView::AppendEvent(v) && {
        &&& given_or_fresh(e.event_id, fresh, k, v.event_id)
        &&& v.stream_id == e.stream_id@
        &&& v.event_type == e.event_type@
        &&& v.occurred_at_ms == e.occurred_at_ms
        &&& e.payload matches Some(p) ==> v.payload == p@
        &&& e.payload is None ==> v.payload.len() == 0
    }
}

/// The patch puts the entries and deletes the keys of its input, in that order,
/// on top of the version that it expects.
pub open spec fn patches(o: OperationView, p: ProjectionPatchInput) -> bool {
    let puts = listed_items(p.puts);
    let deletes = listed_items(p.deletes);
    o matches OperationView::ApplyProjectionPatch(v) && {
        &&& v.projection == p.projection@
        &&& v.expected_version == p.expected_version as u64
        &&& p.expected_version >= 0 ==> v.expected_version == p.expected_version && v.new_version
            == p.expected_version + 1
        &&& v.mutations.len() == puts.len() + deletes.len()
        &&& forall|i: int|
            0 <= i < puts.len() ==> v.mutations[i] == (MutationView::Put {
                key: (#[trigger] puts[i]).key@,
                value: puts[i].value@,
            })
        &&& forall|i: int|
            0 <= i < deletes.len() ==> v.mutations[puts.len() + i] == (MutationView::Delete {
                key: (#[trigger] deletes[i])@,
            })
    }
}

/// The effect mode of the input is known, and one that needs a key has one.
pub open spec fn mode_ok(j: JobSpecInput) -> bool {
    j.effect_mode matches Some(m) ==> m@ == "reconcilable"@ || (m@ == "idempotent"@
        && j.idempotency_key is Some)
}

/// The operation enqueues this job, under its own identifier or the fresh one
/// with this number.
pub open spec fn enqueues(o: OperationView, j: JobSpecInput, fresh: Seq<Id>, k: nat) -> bool {
    o matches OperationView::EnqueueJob(v) && {
        let repeatable = j.effect_mode matches Some(m) && m@ == "idempotent"@;
        &&& given_or_fresh(j.job_id, fresh, k, v.job_id)
        &&& v.queue == j.queue@
        &&& v.partition_key == j.partition_key@
        &&& v.payload == j.payload@
        &&& j.not_before_ms matches Some(ms) ==> v.not_before_ms == ms
        &&& j.not_before_ms is None ==> v.not_before_ms == 0
        &&& j.max_attempts matches Some(n) ==> v.max_attempts == n
        &&& j.max_attempts is None ==> v.max_attempts == 3
        &&& repeatable ==> v.effect_mode is ExplicitlyIdempotent && v.idempotency_key == opt_text(
            j.idempotency_key,
        ) && v.idempotency_key is Some
        &&& !repeatable ==> v.effect_mode is RequiresReconciliation && v.idempotency_key is None
    }
}

/// The operation acknowledges this job.
pub open spec fn acknowledges(o: OperationView, a: JobAckInput) -> bool {
    o matches OperationView::AcknowledgeJob(v) && {
        &&& id_of_hex(a.job_id@) == Some(v.job_id)
        &&& id_of_hex(a.lease_token@) == Some(v.lease_token)
        &&& v.result_digest == opt_bytes(a.result_digest)
    }
}

/// The operation fails this job; the retry is counted from the time of the
/// batch.
pub open spec fn fails(o: OperationView, f: JobFailureInput, committed_at_ms: i64) -> bool {
    o matches OperationView::FailJob(v) && {
        &&& id_of_hex(f.job_id@) == Some(v.job_id)
        &&& id_of_hex(f.lease_token@) == Some(v.lease_token)
        &&& f.error_summary matches Some(s) ==> v.error_summary == s@
        &&& f.error_summary is None ==> v.error_summary.len() == 0
        &&& f.retry_after_ms is None ==> v.retry_after_ms is None
        &&& f.retry_after_ms matches Some(ms) ==> v.retry_after_ms is Some && v.retry_after_ms->0
            == committed_at_ms + ms
    }
}

/// The operation cancels this job.
pub open spec fn cancels(o: OperationView, c: JobCancellationInput) -> bool {
    o matches OperationView::CancelJob(v) && {
        &&& id_of_hex(c.job_id@) == Some(v.job_id)
        &&& match c.lease_token {
            Some(hex) => v.lease_token is Some && id_of_hex(hex@) == v.lease_token,
            None => v.lease_token is None,
        }
    }
}

/// The operation resolves this job.
pub open spec fn resolves(o: OperationView, r: JobResolutionInput) -> bool {
    o matches OperationView::ResolveUncertainJob(v) && {
        &&& id_of_hex(r.job_id@) == Some(v.job_id)
        &&& v.resolution is Retry ==> r.resolution@ == "retry"@
        &&& v.resolution is MarkSucceeded ==> r.resolution@ == "markSucceeded"@
        &&& v.resolution is MarkDead ==> r.resolution@ == "markDead"@
    }
}

/// The text names an identifier.
pub open spec fn names_id(text: Seq<char>) -> bool {
    id_of_hex(text) is Some
}

proof fn lemma_expectations(b: BatchView, s: Seq<ExpectedStreamVersionInput>)
    ensures
        ({
            let after = with_expectations(b, s);
            let n = b.expected.len() as int;
            &&& after == (BatchView { expected: after.expected, ..b })
            &&& after.expected.len() == n + s.len()
            &&& forall|i: int| 0 <= i < n ==> after.expected[i] == #[trigger] b.expected[i]
            &&& forall|i: int|
                0 <= i < s.len() ==> after.expected[n + i].stream_id == (#[trigger] s[i]).stream_id@
                    && after.expected[n + i].version == s[i].version as u64
        }),
    decreases s.len(),
{
    if s.len() > 0 {
        let front = s.drop_last();
        let n = b.expected.len() as int;
        lemma_expectations(b, front);
        let after = with_expectations(b, s);
        let mid = with_expectations(b, front);
        assert forall|i: int| 0 <= i < n implies after.expected[i] == #[trigger] b.expected[i] by {
            assert(after.expected[i] == mid.expected[i]);
        }
        assert forall|i: int| 0 <= i < s.len() implies after.expected[n + i].stream_id == (
        #[trigger] s[i]).stream_id@ && after.expected[n + i].version == s[i].version as u64 by {
            if i < front.len() {
                assert(front[i] == s[i]);
                assert(after.expected[n + i] == mid.expected[n + i]);
            }
        }
    }
}

/// `after` is `b` with more operations behind its own.
pub open spec fn extends(b: BatchView, after: BatchView) -> bool {
    &&& after.transaction_id == b.transaction_id
    &&& after.committed_at_ms == b.committed_at_ms
    &&& after.correlation_id == b.correlation_id
    &&& after.metadata == b.metadata
    &&& after.expected == b.expected
    &&& after.operations.len() >= b.operations.len()
    &&& forall|i: int|
        0 <= i < b.operations.len() ==> after.operations[i] == #[trigger] b.operations[i]
}

/// Every given identifier names one.
pub open spec fn events_named(s: Seq<EventInput>) -> bool {
    forall|i: int|
        0 <= i < s.len() ==> ((#[trigger] s[i]).event_id matches Some(hex) ==> names_id(hex@))
}

/// The error is that of an identifier that is none, in this field.
pub open spec fn bad_id(e: JsErrorView, field: Seq<char>, text: Seq<char>) -> bool {
    &&& !names_id(text)
    &&& e.code == "InvalidId"@
    &&& e.message == field + ": invalid id "@ + debug_text(text)
}

/// The error is that no fresh identifier is left.
pub open spec fn none_left(e: JsErrorView) -> bool {
    e.code == "Storage"@ && e.message == "no fresh identifier could be drawn"@
}

proof fn lemma_unnamed_events(s: Seq<EventInput>, front: Seq<EventInput>, n: int)
    requires
        0 <= n <= front.len() <= s.len(),
        forall|i: int| 0 <= i < front.len() ==> front[i] == #[trigger] s[i],
    ensures
        unnamed_events(s, n) == unnamed_events(front, n),
    decreases n,
{
    if n > 0 {
        lemma_unnamed_events(s, front, n - 1);
        assert(front[n - 1] == s[n - 1]);
    }
}

proof fn lemma_unnamed_jobs(s: Seq<JobSpecInput>, front: Seq<JobSpecInput>, n: int)
    requires
        0 <= n <= front.len() <= s.len(),
        forall|i: int| 0 <= i < front.len() ==> front[i] == #[trigger] s[i],
    ensures
        unnamed_jobs(s, n) == unnamed_jobs(front, n),
    decreases n,
{
    if n > 0 {
        lemma_unnamed_jobs(s, front, n - 1);
        assert(front[n - 1] == s[n - 1]);
    }
}

proof fn lemma_event_input(b: BatchView, used: nat, fresh: Seq<Id>, e: EventInput)
    ensures
        ({
            let r = with_event(b, used, fresh, e);
            let drawn: nat = if e.event_id is None {
                1
            } else {
                0
            };
            &&& r is Ok <==> (e.event_id matches Some(hex) ==> names_id(hex@)) && (drawn == 0 || used
                < fresh.len())
            &&& r matches Ok((after, next)) ==> {
                &&& next == used + drawn
                &&& extends(b, after)
                &&& after.operations.len() == b.operations.len() + 1
                &&& appends(after.operations[b.operations.len() as int], e, fresh, used)
            }
            &&& r matches Err(x) ==> (none_left(x) && drawn == 1 && used >= fresh.len()) || (
            e.event_id is Some && bad_id(x, "eventId"@, e.event_id->0@))
        }),
{
}

proof fn lemma_events(b: BatchView, used: nat, fresh: Seq<Id>, s: Seq<EventInput>)
    ensures
        ({
            let r = with_events(b, used, fresh, s);
            let n = b.operations.len() as int;
            let drawn = unnamed_events(s, s.len() as int);
            &&& r is Ok <==> events_named(s) && (drawn == 0 || used + drawn <= fresh.len())
            &&& r matches Ok((after, next)) ==> {
                &&& next == used + drawn
                &&& extends(b, after)
                &&& after.operations.len() == n + s.len()
                &&& forall|i: int|
                    0 <= i < s.len() ==> appends(
                        after.operations[n + i],
                        #[trigger] s[i],
                        fresh,
                        used + unnamed_events(s, i),
                    )
            }
            &&& r matches Err(e) ==> (none_left(e) && used + drawn > fresh.len()) || exists|i: int|
                0 <= i < s.len() && (#[trigger] s[i]).event_id is Some && bad_id(
                    e,
                    "eventId"@,
                    s[i].event_id->0@,
                )
        }),
    decreases s.len(),
{
    if s.len() > 0 {
        let front = s.drop_last();
        let m = front.len() as int;
        let n = b.operations.len() as int;
        lemma_events(b, used, fresh, front);
        assert forall|i: int| 0 <= i <= m implies #[trigger] unnamed_events(s, i)
            == unnamed_events(front, i) by {
            lemma_unnamed_events(s, front, i);
        }
        assert(unnamed_events(s, m) == unnamed_events(front, m));
        assert(s[m] == s.last());
        let r = with_events(b, used, fresh, s);
        let before = with_events(b, used, fresh, front);
        assert(events_named(s) <==> events_named(front) && (s[m].event_id matches Some(hex)
            ==> names_id(hex@))) by {
            if events_named(s) {
                assert forall|i: int| 0 <= i < front.len() implies ((
                #[trigger] front[i]).event_id matches Some(hex) ==> names_id(hex@)) by {
                    assert(front[i] == s[i]);
                }
            }
            if events_named(front) && (s[m].event_id matches Some(hex) ==> names_id(hex@)) {
                assert forall|i: int| 0 <= i < s.len() implies ((
                #[trigger] s[i]).event_id matches Some(hex) ==> names_id(hex@)) by {
                    if i < m {
                        assert(front[i] == s[i]);
                    }
                }
            }
        }
        if let Ok((mid, k)) = before {
            lemma_event_input(mid, k, fresh, s[m]);
            if let Ok((after, next)) = r {
                assert forall|i: int| 0 <= i < s.len() implies appends(
                    after.operations[n + i],
                    #[trigger] s[i],
                    fresh,
                    used + unnamed_events(s, i),
                ) by {
                    if i < m {
                        assert(front[i] == s[i]);
                        assert(unnamed_events(s, i) == unnamed_events(front, i));
                        assert(after.operations[n + i] == mid.operations[n + i]);
                    }
                }
                assert forall|i: int| 0 <= i < n implies after.operations[i]
                    == #[trigger] b.operations[i] by {
                    assert(after.operations[i] == mid.operations[i]);
                }
            }
        } else {
            let e = before->Err_0;
            if !(none_left(e) && used + unnamed_events(front, m) > fresh.len()) {
                let i = choose|i: int|
                    0 <= i < front.len() && (#[trigger] front[i]).event_id is Some && bad_id(
                        e,
                        "eventId"@,
                        front[i].event_id->0@,
                    );
                assert(front[i] == s[i]);
            }
        }
    }
}

proof fn lemma_puts(p: PatchView, s: Seq<ProjectionPutInput>)
    ensures
        ({
            let after = with_puts(p, s);
            let n = p.mutations.len() as int;
            &&& after == (PatchView { mutations: after.mutations, ..p })
            &&& after.mutations.len() == n + s.len()
            &&& forall|i: int| 0 <= i < n ==> after.mutations[i] == #[trigger] p.mutations[i]
            &&& forall|i: int|
                0 <= i < s.len() ==> after.mutations[n + i] == (MutationView::Put {
                    key: (#[trigger] s[i]).key@,
                    value: s[i].value@,
                })
        }),
    decreases s.len(),
{
    if s.len() > 0 {
        let front = s.drop_last();
        let n = p.mutations.len() as int;
        lemma_puts(p, front);
        let mid = with_puts(p, front);
        let after = with_puts(p, s);
        assert forall|i: int| 0 <= i < n implies after.mutations[i] == #[trigger] p.mutations[i] by {
            assert(after.mutations[i] == mid.mutations[i]);
        }
        assert forall|i: int| 0 <= i < s.len() implies after.mutations[n + i] == (
        MutationView::Put { key: (#[trigger] s[i]).key@, value: s[i].value@ }) by {
            if i < front.len() {
                assert(front[i] == s[i]);
                assert(after.mutations[n + i] == mid.mutations[n + i]);
            }
        }
    }
}

proof fn lemma_deletes(p: PatchView, s: Seq<Vec<u8>>)
    ensures
        ({
            let after = with_deletes(p, s);
            let n = p.mutations.len() as int;
            &&& after == (PatchView { mutations: after.mutations, ..p })
            &&& after.mutations.len() == n + s.len()
            &&& forall|i: int| 0 <= i < n ==> after.mutations[i] == #[trigger] p.mutations[i]
            &&& forall|i: int|
                0 <= i < s.len() ==> after.mutations[n + i] == (MutationView::Delete {
                    key: (#[trigger] s[i])@,
                })
        }),
    decreases s.len(),
{
    if s.len() > 0 {
        let front = s.drop_last();
        let n = p.mutations.len() as int;
        lemma_deletes(p, front);
        let mid = with_deletes(p, front);
        let after = with_deletes(p, s);
        assert forall|i: int| 0 <= i < n implies after.mutations[i] == #[trigger] p.mutations[i] by {
            assert(after.mutations[i] == mid.mutations[i]);
        }
        assert forall|i: int| 0 <= i < s.len() implies after.mutations[n + i] == (
        MutationView::Delete { key: (#[trigger] s[i])@ }) by {
            if i < front.len() {
                assert(front[i] == s[i]);
                assert(after.mutations[n + i] == mid.mutations[n + i]);
            }
        }
    }
}

proof fn lemma_patch(p: ProjectionPatchInput)
    ensures
        patches(OperationView::ApplyProjectionPatch(patch_of(p)), p),
{
    let base = empty_patch(p.projection@, p.expected_version as u64);
    let puts = listed_items(p.puts);
    let deletes = listed_items(p.deletes);
    let mid = with_puts(base, puts);
    lemma_puts(base, puts);
    lemma_deletes(mid, deletes);
    let v = patch_of(p);
    assert forall|i: int| 0 <= i < puts.len() implies v.mutations[i] == (MutationView::Put {
        key: (#[trigger] puts[i]).key@,
        value: puts[i].value@,
    }) by {
        assert(v.mutations[i] == mid.mutations[i]);
        assert(mid.mutations[0 + i] == (MutationView::Put {
            key: puts[i].key@,
            value: puts[i].value@,
        }));
    }
}

proof fn lemma_patches(b: BatchView, s: Seq<ProjectionPatchInput>)
    ensures
        ({
            let after = with_patches(b, s);
            let n = b.operations.len() as int;
            &&& extends(b, after)
            &&& after.operations.len() == n + s.len()
            &&& forall|i: int| 0 <= i < s.len() ==> patches(after.operations[n + i], #[trigger] s[i])
        }),
    decreases s.len(),
{
    if s.len() > 0 {
        let front = s.drop_last();
        let n = b.operations.len() as int;
        lemma_patches(b, front);
        lemma_patch(s.last());
        let mid = with_patches(b, front);
        let after = with_patches(b, s);
        assert forall|i: int| 0 <= i < n implies after.operations[i]
            == #[trigger] b.operations[i] by {
            assert(after.operations[i] == mid.operations[i]);
        }
        assert forall|i: int| 0 <= i < s.len() implies patches(
            after.operations[n + i],
            #[trigger] s[i],
        ) by {
            if i < front.len() {
                assert(front[i] == s[i]);
                assert(after.operations[n + i] == mid.operations[n + i]);
            }
        }
    }
}

/// Every given identifier names one, and every effect mode is in order.
pub open spec fn jobs_in_order(s: Seq<JobSpecInput>) -> bool {
    forall|i: int|
        0 <= i < s.len() ==> ((#[trigger] s[i]).job_id matches Some(hex) ==> names_id(hex@))
            && mode_ok(s[i])
}

/// The error is that of this job: its identifier is none, or its effect mode is
/// unknown or lacks its key.
pub open spec fn job_blamed(e: JsErrorView, j: JobSpecInput) -> bool {
    ||| j.job_id is Some && bad_id(e, "jobId"@, j.job_id->0@)
    ||| e.code == "Validation"@ && !mode_ok(j) && (if j.effect_mode->0@ == "idempotent"@ {
        e.message == "effect mode idempotent requires idempotencyKey"@
    } else {
        e.message == "unknown effect mode "@ + debug_text(j.effect_mode->0@)
    })
}

proof fn lemma_modes_differ()
    ensures
        "reconcilable"@ != "idempotent"@,
{
    reveal_strlit("reconcilable");
    reveal_strlit("idempotent");
    assert("reconcilable"@.len() == 12 && "idempotent"@.len() == 10);
}

proof fn lemma_job_input(b: BatchView, used: nat, fresh: Seq<Id>, j: JobSpecInput)
    ensures
        ({
            let r = with_job_input(b, used, fresh, j);
            let drawn: nat = if j.job_id is None {
                1
            } else {
                0
            };
            &&& r is Ok <==> (j.job_id matches Some(hex) ==> names_id(hex@)) && mode_ok(j) && (drawn
                == 0 || used < fresh.len())
            &&& r matches Ok((after, next)) ==> {
                &&& next == used + drawn
                &&& extends(b, after)
                &&& after.operations.len() == b.operations.len() + 1
                &&& enqueues(after.operations[b.operations.len() as int], j, fresh, used)
            }
            &&& r matches Err(e) ==> (none_left(e) && drawn == 1 && used >= fresh.len())
                || job_blamed(e, j)
        }),
{
    lemma_modes_differ();
}

proof fn lemma_jobs(b: BatchView, used: nat, fresh: Seq<Id>, s: Seq<JobSpecInput>)
    ensures
        ({
            let r = with_jobs(b, used, fresh, s);
            let n = b.operations.len() as int;
            let drawn = unnamed_jobs(s, s.len() as int);
            &&& r is Ok <==> jobs_in_order(s) && (drawn == 0 || used + drawn <= fresh.len())
            &&& r matches Ok((after, next)) ==> {
                &&& next == used + drawn
                &&& extends(b, after)
                &&& after.operations.len() == n + s.len()
                &&& forall|i: int|
                    0 <= i < s.len() ==> enqueues(
                        after.operations[n + i],
                        #[trigger] s[i],
                        fresh,
                        used + unnamed_jobs(s, i),
                    )
            }
            &&& r matches Err(e) ==> (none_left(e) && used + drawn > fresh.len()) || exists|i: int|
                0 <= i < s.len() && job_blamed(e, #[trigger] s[i])
        }),
    decreases s.len(),
{
    if s.len() > 0 {
        let front = s.drop_last();
        let m = front.len() as int;
        let n = b.operations.len() as int;
        lemma_jobs(b, used, fresh, front);
        assert forall|i: int| 0 <= i <= m implies #[trigger] unnamed_jobs(s, i) == unnamed_jobs(
            front,
            i,
        ) by {
            lemma_unnamed_jobs(s, front, i);
        }
        assert(unnamed_jobs(s, m) == unnamed_jobs(front, m));
        assert(s[m] == s.last());
        let r = with_jobs(b, used, fresh, s);
        let before = with_jobs(b, used, fresh, front);
        assert(jobs_in_order(s) <==> jobs_in_order(front) && (s[m].job_id matches Some(hex)
            ==> names_id(hex@)) && mode_ok(s[m])) by {
            if jobs_in_order(s) {
                assert forall|i: int| 0 <= i < front.len() implies ((
                #[trigger] front[i]).job_id matches Some(hex) ==> names_id(hex@)) && mode_ok(
                    front[i],
                ) by {
                    assert(front[i] == s[i]);
                }
            }
            if jobs_in_order(front) && (s[m].job_id matches Some(hex) ==> names_id(hex@))
                && mode_ok(s[m]) {
                assert forall|i: int| 0 <= i < s.len() implies ((
                #[trigger] s[i]).job_id matches Some(hex) ==> names_id(hex@)) && mode_ok(s[i]) by {
                    if i < m {
                        assert(front[i] == s[i]);
                    }
                }
            }
        }
        if let Ok((mid, k)) = before {
            lemma_job_input(mid, k, fresh, s[m]);
            if let Ok((after, next)) = r {
                assert forall|i: int| 0 <= i < s.len() implies enqueues(
                    after.operations[n + i],
                    #[trigger] s[i],
                    fresh,
                    used + unnamed_jobs(s, i),
                ) by {
                    if i < m {
                        assert(front[i] == s[i]);
                        assert(unnamed_jobs(s, i) == unnamed_jobs(front, i));
                        assert(after.operations[n + i] == mid.operations[n + i]);
                    }
                }
                assert forall|i: int| 0 <= i < n implies after.operations[i]
                    == #[trigger] b.operations[i] by {
                    assert(after.operations[i] == mid.operations[i]);
                }
            } else {
                let e = r->Err_0;
                if !none_left(e) {
                    assert(job_blamed(e, s[m]));
                }
            }
        } else {
            let e = before->Err_0;
            if !(none_left(e) && used + unnamed_jobs(front, m) > fresh.len()) {
                let i = choose|i: int| 0 <= i < front.len() && job_blamed(e, #[trigger] front[i]);
                assert(front[i] == s[i]);
            }
        }
    }
}

proof fn lemma_all(b: BatchView, s: Seq<Result<OperationView, JsErrorView>>)
    ensures
        ({
            let r = with_all(Ok(b), s);
            let n = b.operations.len() as int;
            &&& r is Ok <==> forall|i: int| 0 <= i < s.len() ==> (#[trigger] s[i]) is Ok
            &&& r matches Ok(after) ==> {
                &&& extends(b, after)
                &&& after.operations.len() == n + s.len()
                &&& forall|i: int|
                    0 <= i < s.len() ==> Ok::<OperationView, JsErrorView>(after.operations[n + i])
                        == #[trigger] s[i]
            }
            &&& r matches Err(e) ==> exists|i: int|
                0 <= i < s.len() && #[trigger] s[i] == Err::<OperationView, JsErrorView>(e)
        }),
    decreases s.len(),
{
    if s.len() > 0 {
        let front = s.drop_last();
        let m = front.len() as int;
        let n = b.operations.len() as int;
        lemma_all(b, front);
        let r = with_all(Ok(b), s);
        let before = with_all(Ok(b), front);
        assert(s[m] == s.last());
        if let Ok(after) = r {
            let mid = before->Ok_0;
            assert forall|i: int| 0 <= i < s.len() implies Ok::<OperationView, JsErrorView>(
                after.operations[n + i],
            ) == #[trigger] s[i] by {
                if i < m {
                    assert(front[i] == s[i]);
                    assert(after.operations[n + i] == mid.operations[n + i]);
                }
            }
            assert forall|i: int| 0 <= i < n implies after.operations[i]
                == #[trigger] b.operations[i] by {
                assert(after.operations[i] == mid.operations[i]);
            }
        } else {
            let e = r->Err_0;
            if before is Err {
                let i = choose|i: int|
                    0 <= i < front.len() && #[trigger] front[i] == Err::<
                        OperationView,
                        JsErrorView,
                    >(e);
                assert(front[i] == s[i]);
            }
        }
    }
}

/// How many fresh identifiers a batch without a transaction identifier of its own
/// takes for it.
pub open spec fn unnamed_batch(input: CommitBatchInput) -> nat {
    if input.transaction_id is None {
        1
    } else {
        0
    }
}

/// The two identifiers of an acknowledgement or a failure name ones.
pub open spec fn pair_named(job_id: String, lease_token: String) -> bool {
    names_id(job_id@) && names_id(lease_token@)
}

/// The failure names its job and token, and its retry has a timestamp.
pub open spec fn failure_ok(f: JobFailureInput, committed_at_ms: i64) -> bool {
    &&& pair_named(f.job_id, f.lease_token)
    &&& f.retry_after_ms matches Some(ms) ==> i64::MIN <= committed_at_ms + ms <= i64::MAX
}

/// The cancellation names its job, and its token where it has one.
pub open spec fn cancellation_ok(c: JobCancellationInput) -> bool {
    names_id(c.job_id@) && (c.lease_token matches Some(hex) ==> names_id(hex@))
}

/// The resolution names its job, and is one of the three.
pub open spec fn resolution_ok(r: JobResolutionInput) -> bool {
    names_id(r.job_id@) && (r.resolution@ == "retry"@ || r.resolution@ == "markSucceeded"@
        || r.resolution@ == "markDead"@)
}

proof fn lemma_ack(a: JobAckInput)
    ensures
        ack_of(a) is Ok <==> pair_named(a.job_id, a.lease_token),
        ack_of(a) matches Ok(o) ==> acknowledges(o, a),
        ack_of(a) matches Err(e) ==> bad_id(e, "jobId"@, a.job_id@) || bad_id(
            e,
            "leaseToken"@,
            a.lease_token@,
        ),
{
}

proof fn lemma_failure(f: JobFailureInput, at: i64)
    ensures
        failure_of(f, at) is Ok <==> failure_ok(f, at),
        failure_of(f, at) matches Ok(o) ==> fails(o, f, at),
        failure_of(f, at) matches Err(e) ==> failure_blamed(e, f, at),
{
}

proof fn lemma_cancellation(c: JobCancellationInput)
    ensures
        cancellation_of(c) is Ok <==> cancellation_ok(c),
        cancellation_of(c) matches Ok(o) ==> cancels(o, c),
        cancellation_of(c) matches Err(e) ==> bad_id(e, "jobId"@, c.job_id@) || (c.lease_token
            is Some && bad_id(e, "leaseToken"@, c.lease_token->0@)),
{
}

proof fn lemma_resolution(r: JobResolutionInput)
    ensures
        resolution_of(r) is Ok <==> resolution_ok(r),
        resolution_of(r) matches Ok(o) ==> resolves(o, r),
        resolution_of(r) matches Err(e) ==> resolution_blamed(e, r),
{
}

/// The error is that of this failure: an identifier is none, or the retry has no
/// timestamp.
pub open spec fn failure_blamed(e: JsErrorView, f: JobFailureInput, committed_at_ms: i64) -> bool {
    ||| bad_id(e, "jobId"@, f.job_id@)
    ||| bad_id(e, "leaseToken"@, f.lease_token@)
    ||| f.retry_after_ms is Some && !(i64::MIN <= committed_at_ms + f.retry_after_ms->0
        <= i64::MAX) && e.code == "Validation"@ && e.message
        == "retryAfterMs overflows the retry timestamp"@
}

/// The error is that of this resolution: its identifier is none, or it is
/// unknown.
pub open spec fn resolution_blamed(e: JsErrorView, r: JobResolutionInput) -> bool {
    ||| bad_id(e, "jobId"@, r.job_id@)
    ||| !(r.resolution@ == "retry"@) && !(r.resolution@ == "markSucceeded"@) && !(r.resolution@
        == "markDead"@) && e.code == "Validation"@ && e.message == "unknown resolution "@
        + debug_text(r.resolution@)
}

/// The batch that an input is built into: its expectations in their order, and
/// its operations list by list, each in its order: events, patches, jobs to
/// enqueue, acknowledgements, failures, cancellations, resolutions. What has no
/// identifier takes the next fresh one, the batch first, the events in their
/// order behind it, and behind them the jobs.
pub proof fn law_built_batch(input: CommitBatchInput, fresh: Seq<Id>)
    requires
        built(input, fresh) is Ok,
    ensures
        ({
            let b = built(input, fresh)->Ok_0;
            let expected = listed_items(input.expected_stream_versions);
            let events = listed_items(input.events);
            let patched = listed_items(input.projection_patches);
            let jobs = listed_items(input.enqueue_jobs);
            let acks = listed_items(input.ack_jobs);
            let failures = listed_items(input.fail_jobs);
            let cancellations = listed_items(input.cancel_jobs);
            let resolutions = listed_items(input.resolve_uncertain_jobs);
            let n0 = unnamed_batch(input);
            let n1 = n0 + unnamed_events(events, events.len() as int);
            let o1 = events.len() as int;
            let o2 = o1 + patched.len();
            let o3 = o2 + jobs.len();
            let o4 = o3 + acks.len();
            let o5 = o4 + failures.len();
            let o6 = o5 + cancellations.len();
            &&& given_or_fresh(input.transaction_id, fresh, 0, b.transaction_id)
            &&& b.committed_at_ms == input.committed_at_ms
            &&& b.correlation_id is None
            &&& b.metadata.len() == 0
            &&& b.expected.len() == expected.len()
            &&& forall|i: int|
                0 <= i < expected.len() ==> {
                    &&& b.expected[i].stream_id == (#[trigger] expected[i]).stream_id@
                    &&& b.expected[i].version == expected[i].version as u64
                    &&& expected[i].version >= 0 ==> b.expected[i].version == expected[i].version
                }
            &&& b.operations.len() == o6 + resolutions.len()
            &&& forall|i: int|
                0 <= i < events.len() ==> appends(
                    b.operations[i],
                    #[trigger] events[i],
                    fresh,
                    n0 + unnamed_events(events, i),
                )
            &&& forall|i: int|
                0 <= i < patched.len() ==> patches(b.operations[o1 + i], #[trigger] patched[i])
            &&& forall|i: int|
                0 <= i < jobs.len() ==> enqueues(
                    b.operations[o2 + i],
                    #[trigger] jobs[i],
                    fresh,
                    n1 + unnamed_jobs(jobs, i),
                )
            &&& forall|i: int|
                0 <= i < acks.len() ==> acknowledges(b.operations[o3 + i], #[trigger] acks[i])
            &&& forall|i: int|
                0 <= i < failures.len() ==> fails(
                    b.operations[o4 + i],
                    #[trigger] failures[i],
                    input.committed_at_ms,
                )
            &&& forall|i: int|
                0 <= i < cancellations.len() ==> cancels(
                    b.operations[o5 + i],
                    #[trigger] cancellations[i],
                )
            &&& forall|i: int|
                0 <= i < resolutions.len() ==> resolves(
                    b.operations[o6 + i],
                    #[trigger] resolutions[i],
                )
        }),
{
    let b = built(input, fresh)->Ok_0;
    let at = input.committed_at_ms;
    let expected = listed_items(input.expected_stream_versions);
    let events = listed_items(input.events);
    let patched = listed_items(input.projection_patches);
    let jobs = listed_items(input.enqueue_jobs);
    let acks = listed_items(input.ack_jobs);
    let failures = listed_items(input.fail_jobs);
    let cancellations = listed_items(input.cancel_jobs);
    let resolutions = listed_items(input.resolve_uncertain_jobs);
    let (tx, n0) = id_or_fresh("transactionId"@, opt_text(input.transaction_id), fresh, 0)->Ok_0;
    let b0 = empty_batch(tx, at);
    let b1 = with_expectations(b0, expected);
    lemma_expectations(b0, expected);
    lemma_events(b1, n0, fresh, events);
    let (b2, n1) = with_events(b1, n0, fresh, events)->Ok_0;
    lemma_patches(b2, patched);
    let b3 = with_patches(b2, patched);
    lemma_jobs(b3, n1, fresh, jobs);
    let (b4, n2) = with_jobs(b3, n1, fresh, jobs)->Ok_0;
    let ra = with_all(Ok(b4), acks_of(acks));
    let rf = with_all(ra, failures_of(failures, at));
    let rc = with_all(rf, cancellations_of(cancellations));
    assert(with_all(rc, resolutions_of(resolutions)) == Ok::<BatchView, JsErrorView>(b));
    lemma_failed_stage(rf, cancellations_of(cancellations), resolutions_of(resolutions));
    lemma_failed_stage(ra, failures_of(failures, at), cancellations_of(cancellations));
    lemma_failed_stage(Ok(b4), acks_of(acks), failures_of(failures, at));
    let (b5, b6, b7) = (ra->Ok_0, rf->Ok_0, rc->Ok_0);
    assert(ra == Ok::<BatchView, JsErrorView>(b5));
    assert(rf == Ok::<BatchView, JsErrorView>(b6));
    assert(rc == Ok::<BatchView, JsErrorView>(b7));
    lemma_all(b4, acks_of(acks));
    lemma_all(b5, failures_of(failures, at));
    lemma_all(b6, cancellations_of(cancellations));
    lemma_all(b7, resolutions_of(resolutions));
    let o1 = events.len() as int;
    let o2 = o1 + patched.len();
    let o3 = o2 + jobs.len();
    let o4 = o3 + acks.len();
    let o5 = o4 + failures.len();
    let o6 = o5 + cancellations.len();
    lemma_extends(b2, b3, b4);
    lemma_extends(b2, b4, b5);
    lemma_extends(b2, b5, b6);
    lemma_extends(b2, b6, b7);
    lemma_extends(b2, b7, b);
    lemma_extends(b3, b4, b5);
    lemma_extends(b3, b5, b6);
    lemma_extends(b3, b6, b7);
    lemma_extends(b3, b7, b);
    lemma_extends(b4, b5, b6);
    lemma_extends(b4, b6, b7);
    lemma_extends(b4, b7, b);
    lemma_extends(b5, b6, b7);
    lemma_extends(b5, b7, b);
    lemma_extends(b6, b7, b);
    assert forall|i: int| 0 <= i < expected.len() implies {
        &&& b.expected[i].stream_id == (#[trigger] expected[i]).stream_id@
        &&& b.expected[i].version == expected[i].version as u64
        &&& expected[i].version >= 0 ==> b.expected[i].version == expected[i].version
    } by {
        assert(b.expected[0 + i].stream_id == expected[i].stream_id@);
    }
    assert forall|i: int| 0 <= i < events.len() implies appends(
        b.operations[i],
        #[trigger] events[i],
        fresh,
        n0 + unnamed_events(events, i),
    ) by {
        assert(b.operations[i] == b2.operations[i]);
        assert(b2.operations[0 + i] == b2.operations[i]);
    }
    assert forall|i: int| 0 <= i < patched.len() implies patches(
        b.operations[o1 + i],
        #[trigger] patched[i],
    ) by {
        assert(b.operations[o1 + i] == b3.operations[o1 + i]);
    }
    assert forall|i: int| 0 <= i < jobs.len() implies enqueues(
        b.operations[o2 + i],
        #[trigger] jobs[i],
        fresh,
        n1 + unnamed_jobs(jobs, i),
    ) by {
        assert(b.operations[o2 + i] == b4.operations[o2 + i]);
    }
    assert forall|i: int| 0 <= i < acks.len() implies acknowledges(
        b.operations[o3 + i],
        #[trigger] acks[i],
    ) by {
        lemma_ack(acks[i]);
        assert(acks_of(acks)[i] == ack_of(acks[i]));
        assert(b.operations[o3 + i] == b5.operations[o3 + i]);
    }
    assert forall|i: int| 0 <= i < failures.len() implies fails(
        b.operations[o4 + i],
        #[trigger] failures[i],
        at,
    ) by {
        lemma_failure(failures[i], at);
        assert(failures_of(failures, at)[i] == failure_of(failures[i], at));
        assert(b.operations[o4 + i] == b6.operations[o4 + i]);
    }
    assert forall|i: int| 0 <= i < cancellations.len() implies cancels(
        b.operations[o5 + i],
        #[trigger] cancellations[i],
    ) by {
        lemma_cancellation(cancellations[i]);
        assert(cancellations_of(cancellations)[i] == cancellation_of(cancellations[i]));
        assert(b.operations[o5 + i] == b7.operations[o5 + i]);
    }
    assert forall|i: int| 0 <= i < resolutions.len() implies resolves(
        b.operations[o6 + i],
        #[trigger] resolutions[i],
    ) by {
        lemma_resolution(resolutions[i]);
        assert(resolutions_of(resolutions)[i] == resolution_of(resolutions[i]));
    }
}

proof fn lemma_extends(a: BatchView, b: BatchView, c: BatchView)
    requires
        extends(a, b),
        extends(b, c),
    ensures
        extends(a, c),
{
    assert forall|i: int| 0 <= i < a.operations.len() implies c.operations[i]
        == #[trigger] a.operations[i] by {
        assert(c.operations[i] == b.operations[i]);
    }
}

/// Operations behind ones that failed do not mend the batch.
proof fn lemma_failed_stage(
    b: Result<BatchView, JsErrorView>,
    s: Seq<Result<OperationView, JsErrorView>>,
    next: Seq<Result<OperationView, JsErrorView>>,
)
    ensures
        with_all(b, s) is Err ==> with_all(with_all(b, s), next) == with_all(b, s),
{
    if with_all(b, s) is Err {
        lemma_all_err(with_all(b, s), next);
    }
}

/// An input is built exactly when every identifier in it names one, every effect
/// mode and resolution is in order, every retry has a timestamp, and there are
/// as many fresh identifiers as it takes.
pub proof fn law_what_can_be_built(input: CommitBatchInput, fresh: Seq<Id>)
    ensures
        ({
            let events = listed_items(input.events);
            let jobs = listed_items(input.enqueue_jobs);
            let acks = listed_items(input.ack_jobs);
            let failures = listed_items(input.fail_jobs);
            let cancellations = listed_items(input.cancel_jobs);
            let resolutions = listed_items(input.resolve_uncertain_jobs);
            built(input, fresh) is Ok <==> {
                &&& input.transaction_id matches Some(hex) ==> names_id(hex@)
                &&& events_named(events)
                &&& jobs_in_order(jobs)
                &&& unnamed_batch(input) + unnamed_events(events, events.len() as int)
                    + unnamed_jobs(jobs, jobs.len() as int) <= fresh.len()
                &&& forall|i: int|
                    0 <= i < acks.len() ==> pair_named(
                        (#[trigger] acks[i]).job_id,
                        acks[i].lease_token,
                    )
                &&& forall|i: int|
                    0 <= i < failures.len() ==> failure_ok(
                        #[trigger] failures[i],
                        input.committed_at_ms,
                    )
                &&& forall|i: int|
                    0 <= i < cancellations.len() ==> cancellation_ok(#[trigger] cancellations[i])
                &&& forall|i: int|
                    0 <= i < resolutions.len() ==> resolution_ok(#[trigger] resolutions[i])
            }
        }),
{
    let at = input.committed_at_ms;
    let expected = listed_items(input.expected_stream_versions);
    let events = listed_items(input.events);
    let patched = listed_items(input.projection_patches);
    let jobs = listed_items(input.enqueue_jobs);
    let acks = listed_items(input.ack_jobs);
    let failures = listed_items(input.fail_jobs);
    let cancellations = listed_items(input.cancel_jobs);
    let resolutions = listed_items(input.resolve_uncertain_jobs);
    let first = id_or_fresh("transactionId"@, opt_text(input.transaction_id), fresh, 0);
    if let Ok((tx, n0)) = first {
        let b1 = with_expectations(empty_batch(tx, at), expected);
        lemma_events(b1, n0, fresh, events);
        if let Ok((b2, n1)) = with_events(b1, n0, fresh, events) {
            let b3 = with_patches(b2, patched);
            lemma_jobs(b3, n1, fresh, jobs);
            if let Ok((b4, n2)) = with_jobs(b3, n1, fresh, jobs) {
                lemma_stages(b4, acks, failures, cancellations, resolutions, at);
            }
        }
    }
}

/// What the last four lists of an input do to a batch: they succeed exactly when
/// every item is in order, and an error is that of an item.
proof fn lemma_stages(
    b: BatchView,
    acks: Seq<JobAckInput>,
    failures: Seq<JobFailureInput>,
    cancellations: Seq<JobCancellationInput>,
    resolutions: Seq<JobResolutionInput>,
    at: i64,
)
    ensures
        ({
            let r = with_all(
                with_all(
                    with_all(with_all(Ok(b), acks_of(acks)), failures_of(failures, at)),
                    cancellations_of(cancellations),
                ),
                resolutions_of(resolutions),
            );
            &&& r is Ok <==> {
                &&& forall|i: int|
                    0 <= i < acks.len() ==> pair_named(
                        (#[trigger] acks[i]).job_id,
                        acks[i].lease_token,
                    )
                &&& forall|i: int|
                    0 <= i < failures.len() ==> failure_ok(#[trigger] failures[i], at)
                &&& forall|i: int|
                    0 <= i < cancellations.len() ==> cancellation_ok(#[trigger] cancellations[i])
                &&& forall|i: int|
                    0 <= i < resolutions.len() ==> resolution_ok(#[trigger] resolutions[i])
            }
            &&& r matches Err(e) ==> late_blame(e, acks, failures, cancellations, resolutions, at)
        }),
{
    let sa = acks_of(acks);
    let sf = failures_of(failures, at);
    let sc = cancellations_of(cancellations);
    let sr = resolutions_of(resolutions);
    let ra = with_all(Ok(b), sa);
    let rf = with_all(ra, sf);
    let rc = with_all(rf, sc);
    lemma_failed_stage(Ok(b), sa, sf);
    lemma_failed_stage(ra, sf, sc);
    lemma_failed_stage(rf, sc, sr);
    lemma_all(b, sa);
    assert forall|i: int| 0 <= i < acks.len() implies (#[trigger] sa[i] is Ok) == pair_named(
        acks[i].job_id,
        acks[i].lease_token,
    ) by {
        lemma_ack(acks[i]);
    }
    assert forall|i: int| 0 <= i < failures.len() implies (#[trigger] sf[i] is Ok) == failure_ok(
        failures[i],
        at,
    ) by {
        lemma_failure(failures[i], at);
    }
    assert forall|i: int| 0 <= i < cancellations.len() implies (#[trigger] sc[i] is Ok)
        == cancellation_ok(cancellations[i]) by {
        lemma_cancellation(cancellations[i]);
    }
    assert forall|i: int| 0 <= i < resolutions.len() implies (#[trigger] sr[i] is Ok)
        == resolution_ok(resolutions[i]) by {
        lemma_resolution(resolutions[i]);
    }
    if let Ok(b5) = ra {
        assert forall|i: int| 0 <= i < acks.len() implies pair_named(
            (#[trigger] acks[i]).job_id,
            acks[i].lease_token,
        ) by {
            assert(sa[i] is Ok);
        }
        lemma_all(b5, sf);
        if let Ok(b6) = rf {
            assert forall|i: int| 0 <= i < failures.len() implies failure_ok(
                #[trigger] failures[i],
                at,
            ) by {
                assert(sf[i] is Ok);
            }
            lemma_all(b6, sc);
            if let Ok(b7) = rc {
                assert forall|i: int| 0 <= i < cancellations.len() implies cancellation_ok(
                    #[trigger] cancellations[i],
                ) by {
                    assert(sc[i] is Ok);
                }
                lemma_all(b7, sr);
                if let Ok(b8) = with_all(rc, sr) {
                    assert forall|i: int| 0 <= i < resolutions.len() implies resolution_ok(
                        #[trigger] resolutions[i],
                    ) by {
                        assert(sr[i] is Ok);
                    }
                } else {
                    let e = with_all(rc, sr)->Err_0;
                    let i = choose|i: int|
                        0 <= i < sr.len() && #[trigger] sr[i] == Err::<
                            OperationView,
                            JsErrorView,
                        >(e);
                    lemma_resolution(resolutions[i]);
                    assert(!resolution_ok(resolutions[i]));
                }
            } else {
                let e = rc->Err_0;
                let i = choose|i: int|
                    0 <= i < sc.len() && #[trigger] sc[i] == Err::<OperationView, JsErrorView>(e);
                lemma_cancellation(cancellations[i]);
                assert(!cancellation_ok(cancellations[i]));
            }
        } else {
            let e = rf->Err_0;
            let i = choose|i: int|
                0 <= i < sf.len() && #[trigger] sf[i] == Err::<OperationView, JsErrorView>(e);
            lemma_failure(failures[i], at);
            assert(!failure_ok(failures[i], at));
        }
    } else {
        let e = ra->Err_0;
        let i = choose|i: int|
            0 <= i < sa.len() && #[trigger] sa[i] == Err::<OperationView, JsErrorView>(e);
        lemma_ack(acks[i]);
        assert(!pair_named(acks[i].job_id, acks[i].lease_token));
    }
}

/// The error is that of an item of the last four lists.
pub open spec fn late_blame(
    e: JsErrorView,
    acks: Seq<JobAckInput>,
    failures: Seq<JobFailureInput>,
    cancellations: Seq<JobCancellationInput>,
    resolutions: Seq<JobResolutionInput>,
    at: i64,
) -> bool {
    ||| exists|i: int|
        0 <= i < acks.len() && (bad_id(e, "jobId"@, (#[trigger] acks[i]).job_id@) || bad_id(
            e,
            "leaseToken"@,
            acks[i].lease_token@,
        ))
    ||| exists|i: int| 0 <= i < failures.len() && failure_blamed(e, #[trigger] failures[i], at)
    ||| exists|i: int|
        0 <= i < cancellations.len() && (bad_id(
            e,
            "jobId"@,
            (#[trigger] cancellations[i]).job_id@,
        ) || (cancellations[i].lease_token is Some && bad_id(
            e,
            "leaseToken"@,
            cancellations[i].lease_token->0@,
        )))
    ||| exists|i: int| 0 <= i < resolutions.len() && resolution_blamed(e, #[trigger] resolutions[i])
}

/// An input that cannot be built is refused for something that is wrong in it,
/// and the error says what: an identifier that is none, with its field and text,
/// a lack of fresh identifiers, or the mode, retry or resolution at fault.
pub proof fn law_build_errors(input: CommitBatchInput, fresh: Seq<Id>)
    requires
        built(input, fresh) is Err,
    ensures
        ({
            let e = built(input, fresh)->Err_0;
            let events = listed_items(input.events);
            let jobs = listed_items(input.enqueue_jobs);
            ||| none_left(e) && unnamed_batch(input) + unnamed_events(events, events.len() as int)
                + unnamed_jobs(jobs, jobs.len() as int) > fresh.len()
            ||| input.transaction_id is Some && bad_id(
                e,
                "transactionId"@,
                input.transaction_id->0@,
            )
            ||| exists|i: int|
                0 <= i < events.len() && (#[trigger] events[i]).event_id is Some && bad_id(
                    e,
                    "eventId"@,
                    events[i].event_id->0@,
                )
            ||| exists|i: int| 0 <= i < jobs.len() && job_blamed(e, #[trigger] jobs[i])
            ||| late_blame(
                e,
                listed_items(input.ack_jobs),
                listed_items(input.fail_jobs),
                listed_items(input.cancel_jobs),
                listed_items(input.resolve_uncertain_jobs),
                input.committed_at_ms,
            )
        }),
{
    let at = input.committed_at_ms;
    let events = listed_items(input.events);
    let jobs = listed_items(input.enqueue_jobs);
    let first = id_or_fresh("transactionId"@, opt_text(input.transaction_id), fresh, 0);
    if let Ok((tx, n0)) = first {
        let b1 = with_expectations(
            empty_batch(tx, at),
            listed_items(input.expected_stream_versions),
        );
        lemma_events(b1, n0, fresh, events);
        if let Ok((b2, n1)) = with_events(b1, n0, fresh, events) {
            let b3 = with_patches(b2, listed_items(input.projection_patches));
            lemma_jobs(b3, n1, fresh, jobs);
            if let Ok((b4, n2)) = with_jobs(b3, n1, fresh, jobs) {
                lemma_stages(
                    b4,
                    listed_items(input.ack_jobs),
                    listed_items(input.fail_jobs),
                    listed_items(input.cancel_jobs),
                    listed_items(input.resolve_uncertain_jobs),
                    at,
                );
            }
        }
    }
}

/// A claim asks for what its input says.
pub proof fn law_claim_input(input: ClaimRequestInput)
    ensures
        ({
            let req = claim_of(input);
            &&& req.queue == input.queue@
            &&& req.worker_id == input.worker_id@
            &&& req.now_ms == input.now_ms
            &&& req.lease_ms == input.lease_ms
            &&& req.limit == input.limit
            &&& req.partition_key is Some <==> input.partition_key is Some
            &&& input.partition_key matches Some(key) ==> req.partition_key == Some(key@)
        }),
{
}

} // verus!
