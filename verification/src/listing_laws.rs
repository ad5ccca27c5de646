//! What the listings show, in terms of the jobs of the store.
use vstd::prelude::*;

use crate::error::ErrorView;
use crate::jobs::JobInfoView;
use crate::listing::{infos, page_result, wanted, wanted_jobs};
use crate::row::{info_of, JobRowView};
use crate::seqs::{at_most, lemma_filter_indices};
use crate::state::JobState;
use crate::tables::{sound, Tables};
use crate::text::decimal;

verus! {

/// The listed job shows this row.
pub open spec fn shows_row(i: JobInfoView, r: JobRowView) -> bool {
    &&& i.job_id == r.job_id
    &&& i.spec.job_id == r.job_id
    &&& i.spec.queue == r.queue
    &&& i.spec.partition_key == r.partition_key
    &&& i.spec.payload == r.payload
    &&& i.spec.not_before_ms == r.not_before_ms
    &&& i.spec.max_attempts == r.max_attempts
    &&& i.spec.effect_mode == r.effect_mode
    &&& i.spec.idempotency_key == r.idempotency_key
    &&& i.state == r.state
    &&& i.attempt == r.attempt
    &&& i.lease_expires_at_ms == r.lease_expires_at_ms
    &&& i.worker_id == r.worker_id
    &&& i.retry_after_ms == r.retry_after_ms
    &&& i.terminal_at_ms == r.terminal_at_ms
    &&& i.result_digest == r.result_digest
    &&& i.error_summary == r.error_summary
}

/// The job is of the queue and in the state, where they are given.
pub open spec fn asked_for(r: JobRowView, queue: Option<Seq<char>>, state: Option<JobState>) -> bool {
    &&& queue is None || r.queue == queue->0
    &&& state is None || r.state == state->0
}

/// The job is behind the sequence number, where one is given.
pub open spec fn behind(r: JobRowView, after: Option<int>) -> bool {
    after is None || r.enqueue_sequence > after->0
}

/// The listing shows, in their order, the first of the jobs that are asked for
/// behind a sequence number; one that it does not show is behind all that it
/// shows, and there are as many of these as the limit allows.
pub open spec fn lists(
    t: Tables,
    queue: Option<Seq<char>>,
    state: Option<JobState>,
    after: Option<int>,
    limit: nat,
    shown: Seq<JobInfoView>,
    at: Seq<int>,
) -> bool {
    &&& at.len() == shown.len() <= limit
    &&& forall|i: int|
        0 <= i < at.len() ==> {
            let k = #[trigger] at[i];
            &&& 0 <= k < t.jobs.len()
            &&& asked_for(t.jobs[k], queue, state)
            &&& behind(t.jobs[k], after)
            &&& shows_row(shown[i], t.jobs[k])
        }
    &&& forall|i: int, j: int| 0 <= i < j < at.len() ==> #[trigger] at[i] < #[trigger] at[j]
    &&& forall|k: int|
        0 <= k < t.jobs.len() && asked_for(#[trigger] t.jobs[k], queue, state)
            && behind(t.jobs[k], after) && !at.contains(k) ==> shown.len() == limit
            && forall|i: int| 0 <= i < at.len() ==> #[trigger] at[i] < k
}

/// What is shown of a job is what is stored of it.
pub proof fn law_job_info(r: JobRowView)
    ensures
        shows_row(info_of(r), r),
{
}

proof fn lemma_lists(
    t: Tables,
    queue: Option<Seq<char>>,
    state: Option<JobState>,
    after: Option<int>,
    limit: nat,
) -> (at: Seq<int>)
    requires
        sound(t),
    ensures
        lists(
            t,
            queue,
            state,
            after,
            limit,
            infos(at_most(wanted_jobs(t, queue, state, after), limit)),
            at,
        ),
        forall|i: int|
            0 <= i < at.len() ==> at_most(wanted_jobs(t, queue, state, after), limit)[i]
                == t.jobs[#[trigger] at[i]],
{
    let pred = wanted(queue, state, after);
    let all = wanted_jobs(t, queue, state, after);
    let page = at_most(all, limit);
    let idx = lemma_filter_indices(t.jobs, pred);
    let at = idx.take(page.len() as int);
    t.jobs.filter_lemma(pred);
    assert forall|i: int| 0 <= i < at.len() implies {
        let k = #[trigger] at[i];
        &&& 0 <= k < t.jobs.len()
        &&& asked_for(t.jobs[k], queue, state)
        &&& behind(t.jobs[k], after)
        &&& shows_row(infos(page)[i], t.jobs[k])
        &&& page[i] == t.jobs[k]
    } by {
        assert(at[i] == idx[i]);
        assert(pred(t.jobs[idx[i]]));
    }
    assert forall|i: int, j: int| 0 <= i < j < at.len() implies #[trigger] at[i]
        < #[trigger] at[j] by {
        assert(idx[i] < idx[j]);
    }
    assert forall|k: int|
        0 <= k < t.jobs.len() && asked_for(#[trigger] t.jobs[k], queue, state)
            && behind(t.jobs[k], after) && !at.contains(k) implies page.len() == limit
        && forall|i: int| 0 <= i < at.len() ==> #[trigger] at[i] < k by {
        assert(pred(t.jobs[k]));
        assert(all.contains(t.jobs[k]));
        let m = choose|m: int| 0 <= m < all.len() && all[m] == t.jobs[k];
        assert(t.jobs[idx[m]] == t.jobs[k]);
        if idx[m] < k {
            assert(t.jobs[idx[m]].enqueue_sequence < t.jobs[k].enqueue_sequence);
        } else if k < idx[m] {
            assert(t.jobs[k].enqueue_sequence < t.jobs[idx[m]].enqueue_sequence);
        }
        if m < page.len() {
            assert(at[m] == k);
        }
        assert forall|i: int| 0 <= i < at.len() implies #[trigger] at[i] < k by {
            assert(idx[i] < idx[m]);
        }
    }
    at
}

/// A listing shows the first jobs that are asked for, in enqueue order.
pub proof fn law_list_jobs(
    t: Tables,
    queue: Option<Seq<char>>,
    state: Option<JobState>,
    limit: nat,
)
    requires
        sound(t),
    ensures
        exists|at: Seq<int>| #[trigger]
            lists(
                t,
                queue,
                state,
                None,
                limit,
                infos(at_most(wanted_jobs(t, queue, state, None), limit)),
                at,
            ),
{
    let at = lemma_lists(t, queue, state, None, limit);
}

/// A page is refused exactly where its cursor or its limit is no signed number
/// of 64 bits. Otherwise it shows the first jobs behind the cursor that are
/// asked for, and the next cursor is the sequence number of the last job shown,
/// or the same cursor where none is.
pub proof fn law_list_jobs_page(
    t: Tables,
    queue: Option<Seq<char>>,
    state: Option<JobState>,
    after_sequence: u64,
    limit: usize,
)
    requires
        sound(t),
    ensures
        ({
            let r = page_result(t, queue, state, after_sequence, limit);
            &&& r is Ok <==> after_sequence <= i64::MAX && limit <= i64::MAX
            &&& after_sequence > i64::MAX ==> r == Err::<(Seq<JobInfoView>, u64), ErrorView>(
                ErrorView::Validation(
                    "jobs_page after_sequence "@ + decimal(after_sequence as nat)
                        + " exceeds the supported range"@,
                ),
            )
            &&& after_sequence <= i64::MAX && limit > i64::MAX ==> r == Err::<
                (Seq<JobInfoView>, u64),
                ErrorView,
            >(
                ErrorView::Validation(
                    "jobs_page limit "@ + decimal(limit as nat) + " exceeds the supported range"@,
                ),
            )
            &&& r matches Ok((shown, cursor)) ==> exists|at: Seq<int>| #[trigger]
                lists(t, queue, state, Some(after_sequence as int), limit as nat, shown, at)
                    && cursor == (if at.len() == 0 {
                    after_sequence as int
                } else {
                    t.jobs[at.last()].enqueue_sequence as int
                })
        }),
{
    if after_sequence <= i64::MAX && limit <= i64::MAX {
        let at = lemma_lists(t, queue, state, Some(after_sequence as int), limit as nat);
        if at.len() > 0 {
            let m = at.len() - 1;
            assert(at[m] == at.last());
            assert(behind(t.jobs[at[m]], Some(after_sequence as int)));
        }
        let (shown, cursor) = page_result(t, queue, state, after_sequence, limit)->Ok_0;
        assert(cursor == (if at.len() == 0 {
            after_sequence as int
        } else {
            t.jobs[at.last()].enqueue_sequence as int
        }));
    }
}

} // verus!
