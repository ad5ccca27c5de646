//! Reading jobs: one, a list, a page.
use vstd::prelude::*;

use crate::error::{Error, ErrorView, ValidationError};
use crate::id::Id;
use crate::jobs::{info_views, JobInfo, JobInfoView};
use crate::row::{info_of, row_views, JobRow, JobRowView};
use crate::seqs::{at_most, lemma_filter_all, lemma_filter_indices, lemma_filter_narrower};
use crate::state::JobState;
use crate::store::ControlPlaneStore;
use crate::tables::{find_job, sound, Tables};
use crate::text::{decimal, decimal_text, join3, same_text};
use crate::transitions::opt_str;

verus! {

/// A job of this queue, in this state and enqueued behind `after`, where they
/// are given.
pub open spec fn wanted(
    queue: Option<Seq<char>>,
    state: Option<JobState>,
    after: Option<int>,
) -> spec_fn(JobRowView) -> bool {
    |r: JobRowView|
        {
            &&& queue matches Some(q) ==> r.queue == q
            &&& state matches Some(s) ==> r.state == s
            &&& after matches Some(n) ==> r.enqueue_sequence > n
        }
}

/// A number that is given or not.
pub open spec fn opt_int(o: Option<i64>) -> Option<int> {
    match o {
        Some(n) => Some(n as int),
        None => None,
    }
}

/// The wanted jobs, in enqueue order.
pub open spec fn wanted_jobs(
    t: Tables,
    queue: Option<Seq<char>>,
    state: Option<JobState>,
    after: Option<int>,
) -> Seq<JobRowView> {
    t.jobs.filter(wanted(queue, state, after))
}

/// The jobs as readers see them.
pub open spec fn infos(rows: Seq<JobRowView>) -> Seq<JobInfoView> {
    rows.map_values(|r: JobRowView| info_of(r))
}

/// The cursor for the next page: the sequence of the last job of this one or,
/// where it is empty, the cursor it was asked with.
pub open spec fn next_cursor(page: Seq<JobRowView>, after: u64) -> u64 {
    if page.len() == 0 {
        after
    } else {
        page.last().enqueue_sequence as u64
    }
}

/// The error for a number that does not fit the store.
pub open spec fn out_of_range(what: Seq<char>, n: nat) -> ErrorView {
    ErrorView::Validation(what + decimal(n) + " exceeds the supported range"@)
}

/// What a page holds, and the cursor for the next one.
pub open spec fn page_result(
    t: Tables,
    queue: Option<Seq<char>>,
    state: Option<JobState>,
    after_sequence: u64,
    limit: usize,
) -> Result<(Seq<JobInfoView>, u64), ErrorView> {
    if after_sequence > i64::MAX {
        Err(out_of_range("jobs_page after_sequence "@, after_sequence as nat))
    } else if limit > i64::MAX {
        Err(out_of_range("jobs_page limit "@, limit as nat))
    } else {
        let page = at_most(wanted_jobs(t, queue, state, Some(after_sequence as int)), limit as nat);
        Ok((infos(page), next_cursor(page, after_sequence)))
    }
}

/// Pages neither skip nor repeat a job: what is wanted behind a cursor is the
/// page at that cursor, followed by what is wanted behind the next cursor.
pub proof fn law_pages_follow_each_other(
    t: Tables,
    queue: Option<Seq<char>>,
    state: Option<JobState>,
    after_sequence: u64,
    limit: nat,
)
    requires
        sound(t),
    ensures
        ({
            let page = at_most(wanted_jobs(t, queue, state, Some(after_sequence as int)), limit);
            wanted_jobs(t, queue, state, Some(after_sequence as int)) == page + wanted_jobs(
                t,
                queue,
                state,
                Some(next_cursor(page, after_sequence) as int),
            )
        }),
{
    let pred = wanted(queue, state, Some(after_sequence as int));
    let all = t.jobs.filter(pred);
    let page = at_most(all, limit);
    let rest = all.skip(page.len() as int);
    assert(all =~= page + rest);
    if page.len() == 0 {
        assert(rest =~= all);
        assert(all =~= page + all);
    } else {
        let cursor = page.last().enqueue_sequence;
        let next = wanted(queue, state, Some(cursor as int));
        let idx = lemma_filter_indices(t.jobs, pred);
        assert forall|i: int, j: int| 0 <= i < j < all.len() implies (
        #[trigger] all[i]).enqueue_sequence < (#[trigger] all[j]).enqueue_sequence by {
            assert(idx[i] < idx[j]);
            assert(t.jobs[idx[i]].enqueue_sequence < t.jobs[idx[j]].enqueue_sequence);
        }
        assert(pred(t.jobs[idx[page.len() - 1]]));
        // Nothing on the page is behind the cursor, all the rest is.
        lemma_filter_narrower(t.jobs, pred, next);
        Seq::filter_distributes_over_add(page, rest, next);
        assert forall|i: int| 0 <= i < page.len() implies !next(#[trigger] page[i]) by {
            if i < page.len() - 1 {
                assert(all[i].enqueue_sequence < all[page.len() - 1].enqueue_sequence);
            }
        }
        lemma_filter_all(page, next);
        assert forall|i: int| 0 <= i < rest.len() implies next(#[trigger] rest[i]) by {
            assert(all[page.len() - 1].enqueue_sequence < all[page.len() + i].enqueue_sequence);
            assert(pred(t.jobs[idx[page.len() + i]]));
        }
        lemma_filter_all(rest, next);
        assert(page.filter(next) + rest.filter(next) =~= rest);
    }
}

fn is_wanted(
    row: &JobRow,
    queue: Option<&str>,
    state: Option<JobState>,
    after: Option<i64>,
) -> (r: bool)
    ensures
        r == wanted(opt_str(queue), state, opt_int(after))(row@),
{
    let in_queue = match queue {
        Some(q) => same_text(row.queue.as_str(), q),
        None => true,
    };
    let in_state = match state {
        Some(s) => row.state == s,
        None => true,
    };
    let behind = match after {
        Some(n) => row.enqueue_sequence > n,
        None => true,
    };
    in_queue && in_state && behind
}

impl ControlPlaneStore {
    /// The job with this identifier.
    pub fn get_job(&self, job_id: Id) -> (r: Option<JobInfo>)
        requires
            self.wf(),
        ensures
            match r {
                Some(info) => find_job(self@.jobs, job_id) matches Some(row) && info@ == info_of(
                    row,
                ),
                None => find_job(self@.jobs, job_id) is None,
            },
    {
        match self.load_job(job_id) {
            Some(row) => Some(row.into_info()),
            None => None,
        }
    }

    /// The first wanted jobs, behind a sequence number where it is given, and the
    /// sequence number of the last of them.
    fn select_jobs(
        &self,
        queue: Option<&str>,
        state: Option<JobState>,
        after: Option<i64>,
        limit: usize,
    ) -> (r: (Vec<JobInfo>, Option<i64>))
        ensures
            ({
                let page = at_most(
                    wanted_jobs(self@, opt_str(queue), state, opt_int(after)),
                    limit as nat,
                );
                &&& info_views(r.0@) == infos(page)
                &&& r.1 == if page.len() == 0 {
                    None::<i64>
                } else {
                    Some(page.last().enqueue_sequence)
                }
            }),
    {
        let rows = self.job_rows();
        let ghost all = self@.jobs;
        let ghost pred = wanted(opt_str(queue), state, opt_int(after));
        let mut found: Vec<JobInfo> = Vec::new();
        let mut last: Option<i64> = None;
        let mut i: usize = 0;
        proof {
            reveal(Seq::filter);
            assert(info_views(found@) =~= infos(all.take(0).filter(pred)));
        }
        while i < rows.len() && found.len() < limit
            invariant
                i <= rows@.len(),
                row_views(rows@) == all,
                pred == wanted(opt_str(queue), state, opt_int(after)),
                found@.len() <= limit,
                info_views(found@) == infos(all.take(i as int).filter(pred)),
                last == if found@.len() == 0 {
                    None::<i64>
                } else {
                    Some(all.take(i as int).filter(pred).last().enqueue_sequence)
                },
            decreases rows@.len() - i,
        {
            let row = &rows[i];
            let ghost found_before = found@;
            proof {
                reveal(Seq::filter);
                assert(all.take(i + 1).drop_last() =~= all.take(i as int));
                assert(all.take(i + 1).last() == row@);
                assert(info_views(found@).len() == found@.len());
            }
            if is_wanted(row, queue, state, after) {
                last = Some(row.enqueue_sequence);
                found.push(row.clone().into_info());
                proof {
                    let kept = all.take(i as int).filter(pred);
                    assert(all.take(i + 1).filter(pred) == kept.push(row@));
                    assert(infos(kept.push(row@)) =~= infos(kept).push(info_of(row@)));
                    assert(info_views(found@) =~= info_views(found_before).push(info_of(row@)));
                }
            }
            i += 1;
        }
        proof {
            let kept = all.take(i as int).filter(pred);
            assert(info_views(found@).len() == found@.len());
            assert(infos(kept).len() == kept.len());
            assert(all =~= all.take(i as int) + all.skip(i as int));
            Seq::filter_distributes_over_add(all.take(i as int), all.skip(i as int), pred);
            if i == rows@.len() {
                assert(all.take(i as int) =~= all);
            }
            assert(at_most(all.filter(pred), limit as nat) =~= kept);
        }
        (found, last)
    }

    /// The jobs of a queue and in a state, where they are given, in enqueue
    /// order and up to a limit.
    pub fn list_jobs(&self, queue: Option<&str>, state: Option<JobState>, limit: usize) -> (jobs:
        Vec<JobInfo>)
        requires
            self.wf(),
        ensures
            info_views(jobs@) == infos(
                at_most(wanted_jobs(self@, opt_str(queue), state, None), limit as nat),
            ),
    {
        let (jobs, _) = self.select_jobs(queue, state, None, limit);
        jobs
    }

    /// One page of jobs behind a pagination cursor, and the cursor for the
    /// next page.
    pub fn list_jobs_page(
        &self,
        queue: Option<&str>,
        state: Option<JobState>,
        after_sequence: u64,
        limit: usize,
    ) -> (r: Result<(Vec<JobInfo>, u64), Error>)
        requires
            self.wf(),
        ensures
            match r {
                Ok((jobs, cursor)) => page_result(
                    self@,
                    opt_str(queue),
                    state,
                    after_sequence,
                    limit,
                ) == Ok::<(Seq<JobInfoView>, u64), ErrorView>((info_views(jobs@), cursor)),
                Err(e) => page_result(self@, opt_str(queue), state, after_sequence, limit) == Err::<
                    (Seq<JobInfoView>, u64),
                    ErrorView,
                >(e@),
            },
    {
        if after_sequence > i64::MAX as u64 {
            let n = decimal_text(after_sequence);
            return Err(
                Error::Validation(
                    ValidationError(
                        join3(
                            "jobs_page after_sequence ",
                            n.as_str(),
                            " exceeds the supported range",
                        ),
                    ),
                ),
            );
        }
        if limit as u64 > i64::MAX as u64 {
            let n = decimal_text(limit as u64);
            return Err(
                Error::Validation(
                    ValidationError(
                        join3("jobs_page limit ", n.as_str(), " exceeds the supported range"),
                    ),
                ),
            );
        }
        let (jobs, last) = self.select_jobs(queue, state, Some(after_sequence as i64), limit);
        let cursor = match last {
            Some(sequence) => sequence as u64,
            None => after_sequence,
        };
        Ok((jobs, cursor))
    }
}

/// Every job is listed by [`ControlPlaneStore::list_jobs`] where the limit leaves
/// room and nothing else is asked for.
pub proof fn law_unfiltered_listing_is_complete(t: Tables, limit: nat)
    requires
        t.jobs.len() <= limit,
    ensures
        at_most(wanted_jobs(t, None, None, None), limit) == t.jobs,
{
    lemma_filter_all(t.jobs, wanted(None, None, None));
}

} // verus!
