//! Planning a claim: which expired leases to repair and which jobs to lease.
//!
//! Both plans are made from the same state, so a job whose expired lease is
//! repaired by a claim is never leased by that claim.
use vstd::prelude::*;

use crate::error::{Error, ErrorView, StorageError, StorageErrorView};
use crate::id::Id;
use crate::jobs::{ClaimRequest, ClaimRequestView};
use crate::row::{row_views, JobRow, JobRowView};
use crate::rows::partition_views;
use crate::seqs::{at_most, lemma_filter_indices, lemma_filter_map_prefix, lemma_filter_starts};
use crate::state::{EffectMode, JobState};
use crate::store::ControlPlaneStore;
use crate::tables::{active_in, find_cursor, PartitionRowView, Tables};
use crate::text::{text_before, text_lt};
use crate::values::opt_text;

verus! {

/// The greatest number of expired leases that one claim repairs.
pub const MAINTENANCE_LIMIT: usize = 64;

/// The lease of this job has expired: it ran out before `now_ms`.
pub open spec fn lease_expired(
    queue: Seq<char>,
    now_ms: i64,
) -> spec_fn(JobRowView) -> bool {
    |r: JobRowView|
        r.queue == queue && r.state is Leased && (r.lease_expires_at_ms matches Some(expiry)
            && expiry < now_ms)
}

/// The time at which a lease runs out.
pub open spec fn expiry(r: JobRowView) -> i64 {
    match r.lease_expires_at_ms {
        Some(ms) => ms,
        None => i64::MIN,
    }
}

/// Inserts a job into jobs that stand in the order of their expiry, behind
/// those that expire at the same time.
pub open spec fn insert_by_expiry(sorted: Seq<JobRowView>, r: JobRowView) -> Seq<JobRowView>
    decreases sorted.len(),
{
    if sorted.len() == 0 || expiry(sorted.last()) <= expiry(r) {
        sorted.push(r)
    } else {
        insert_by_expiry(sorted.drop_last(), r).push(sorted.last())
    }
}

/// The jobs in the order of their expiry; those that expire at the same time
/// keep their order.
pub open spec fn by_expiry(rows: Seq<JobRowView>) -> Seq<JobRowView>
    decreases rows.len(),
{
    if rows.len() == 0 {
        rows
    } else {
        insert_by_expiry(by_expiry(rows.drop_last()), rows.last())
    }
}

/// The jobs whose lease a claim repairs: the expired ones of the queue, those
/// that expired first coming first, up to the limit.
pub open spec fn repairs(t: Tables, queue: Seq<char>, now_ms: i64) -> Seq<JobRowView> {
    at_most(by_expiry(t.jobs.filter(lease_expired(queue, now_ms))), MAINTENANCE_LIMIT as nat)
}

/// What becomes of a job whose lease has expired.
pub open spec fn repaired_state(r: JobRowView) -> JobState {
    match r.effect_mode {
        EffectMode::RequiresReconciliation => JobState::Uncertain,
        EffectMode::ExplicitlyIdempotent => if r.attempt >= r.max_attempts {
            JobState::Dead
        } else {
            JobState::Pending
        },
    }
}

/// An unfinished job of this partition.
pub open spec fn in_partition(
    queue: Seq<char>,
    partition_key: Seq<char>,
) -> spec_fn(JobRowView) -> bool {
    |r: JobRowView| active_in(r, queue, partition_key)
}

/// The head of a partition: its first unfinished job.
pub open spec fn head(
    jobs: Seq<JobRowView>,
    queue: Seq<char>,
    partition_key: Seq<char>,
) -> Option<JobRowView> {
    let mine = jobs.filter(in_partition(queue, partition_key));
    if mine.len() == 0 {
        None
    } else {
        Some(mine[0])
    }
}

/// The job may be leased now.
pub open spec fn ready(r: JobRowView, now_ms: i64) -> bool {
    match r.state {
        JobState::Pending => r.not_before_ms <= now_ms,
        JobState::RetryWait => r.not_before_ms <= now_ms && match r.retry_after_ms {
            Some(ms) => ms <= now_ms,
            None => true,
        },
        _ => false,
    }
}

/// The head of a partition, if it may be leased now.
pub open spec fn head_if_ready(
    jobs: Seq<JobRowView>,
    queue: Seq<char>,
    partition_key: Seq<char>,
    now_ms: i64,
) -> Option<JobRowView> {
    match head(jobs, queue, partition_key) {
        Some(r) => if ready(r, now_ms) {
            Some(r)
        } else {
            None
        },
        None => None,
    }
}

/// The same, for every partition of a queue.
pub open spec fn ready_heads_of(
    jobs: Seq<JobRowView>,
    queue: Seq<char>,
    now_ms: i64,
) -> spec_fn(Seq<char>) -> Option<JobRowView> {
    |key: Seq<char>| head_if_ready(jobs, queue, key, now_ms)
}

/// Inserts a key into keys in text order.
pub open spec fn insert_key(sorted: Seq<Seq<char>>, key: Seq<char>) -> Seq<Seq<char>>
    decreases sorted.len(),
{
    if sorted.len() == 0 || !text_lt(key, sorted.last()) {
        sorted.push(key)
    } else {
        insert_key(sorted.drop_last(), key).push(sorted.last())
    }
}

/// The keys of the listed partitions of a queue, in text order.
pub open spec fn sorted_keys(
    partitions: Seq<PartitionRowView>,
    queue: Seq<char>,
) -> Seq<Seq<char>>
    decreases partitions.len(),
{
    if partitions.len() == 0 {
        Seq::empty()
    } else {
        let rest = sorted_keys(partitions.drop_last(), queue);
        if partitions.last().queue == queue {
            insert_key(rest, partitions.last().partition_key)
        } else {
            rest
        }
    }
}

/// A key behind the cursor.
pub open spec fn behind(cursor: Seq<char>) -> spec_fn(Seq<char>) -> bool {
    |key: Seq<char>| text_lt(cursor, key)
}

/// A key up to the cursor.
pub open spec fn up_to(cursor: Seq<char>) -> spec_fn(Seq<char>) -> bool {
    |key: Seq<char>| !text_lt(cursor, key)
}

/// The order in which a claim visits the partitions of a queue: the keys in
/// text order, starting behind the cursor and wrapping around.
pub open spec fn visiting_order(t: Tables, queue: Seq<char>) -> Seq<Seq<char>> {
    let keys = sorted_keys(t.partitions, queue);
    match find_cursor(t.cursors, queue) {
        Some(cursor) => keys.filter(behind(cursor)) + keys.filter(up_to(cursor)),
        None => keys,
    }
}

/// The jobs that a claim leases: the ready head of the named partition or,
/// where none is named, the ready heads of the partitions in visiting order;
/// in either case no more than the limit.
pub open spec fn leases(t: Tables, req: ClaimRequestView) -> Seq<JobRowView> {
    match req.partition_key {
        Some(key) => match head_if_ready(t.jobs, req.queue, key, req.now_ms) {
            Some(r) => at_most(seq![r], req.limit),
            None => Seq::empty(),
        },
        None => at_most(
            visiting_order(t, req.queue).filter_map(
                ready_heads_of(t.jobs, req.queue, req.now_ms),
            ),
            req.limit,
        ),
    }
}

/// The partition that the cursor moves to: that of the last lease. A claim of
/// one partition does not move it.
pub open spec fn moved_cursor(t: Tables, req: ClaimRequestView) -> Option<Seq<char>> {
    if req.partition_key is Some || leases(t, req).len() == 0 {
        None
    } else {
        Some(leases(t, req).last().partition_key)
    }
}

/// The error when no fresh identifier is left.
pub open spec fn no_identifier() -> StorageErrorView {
    StorageErrorView::Identifier("no fresh identifier could be drawn"@)
}

proof fn lemma_insert_by_expiry_at(sorted: Seq<JobRowView>, r: JobRowView, k: int)
    requires
        0 <= k <= sorted.len(),
        k == 0 || expiry(sorted[k - 1]) <= expiry(r),
        forall|j: int| k <= j < sorted.len() ==> expiry(#[trigger] sorted[j]) > expiry(r),
    ensures
        insert_by_expiry(sorted, r) == sorted.insert(k, r),
    decreases sorted.len(),
{
    if sorted.len() == k {
        assert(sorted.insert(k, r) =~= sorted.push(r));
    } else {
        assert(expiry(sorted[sorted.len() - 1]) > expiry(r));
        lemma_insert_by_expiry_at(sorted.drop_last(), r, k);
        assert(sorted.insert(k, r) =~= sorted.drop_last().insert(k, r).push(sorted.last()));
    }
}

proof fn lemma_insert_key_at(sorted: Seq<Seq<char>>, key: Seq<char>, k: int)
    requires
        0 <= k <= sorted.len(),
        k == 0 || !text_lt(key, sorted[k - 1]),
        forall|j: int| k <= j < sorted.len() ==> text_lt(key, #[trigger] sorted[j]),
    ensures
        insert_key(sorted, key) == sorted.insert(k, key),
    decreases sorted.len(),
{
    if sorted.len() == k {
        assert(sorted.insert(k, key) =~= sorted.push(key));
    } else {
        assert(text_lt(key, sorted[sorted.len() - 1]));
        lemma_insert_key_at(sorted.drop_last(), key, k);
        assert(sorted.insert(k, key) =~= sorted.drop_last().insert(k, key).push(sorted.last()));
    }
}

/// The views of a list of texts.
pub open spec fn text_views(s: Seq<String>) -> Seq<Seq<char>> {
    s.map_values(|t: String| t@)
}

/// A repair planned from the state before the claim.
pub struct MaintenanceAction {
    pub job: JobRow,
    pub to: JobState,
}

/// A lease planned from the state before the claim.
pub struct ProposedLease {
    pub job: JobRow,
    pub lease_token: Id,
}

/// The jobs of planned repairs.
pub open spec fn action_jobs(s: Seq<MaintenanceAction>) -> Seq<JobRowView> {
    s.map_values(|a: MaintenanceAction| a.job@)
}

/// The jobs of planned leases.
pub open spec fn lease_jobs(s: Seq<ProposedLease>) -> Seq<JobRowView> {
    s.map_values(|l: ProposedLease| l.job@)
}

/// The tokens of planned leases.
pub open spec fn lease_tokens(s: Seq<ProposedLease>) -> Seq<Id> {
    s.map_values(|l: ProposedLease| l.lease_token)
}

fn expiry_of(row: &JobRow) -> (ms: i64)
    ensures
        ms == expiry(row@),
{
    match row.lease_expires_at_ms {
        Some(ms) => ms,
        None => i64::MIN,
    }
}

/// Inserts a row behind those that expire no later.
fn place_by_expiry(sorted: &mut Vec<JobRow>, row: JobRow)
    ensures
        row_views(final(sorted)@) == insert_by_expiry(row_views(old(sorted)@), row@),
{
    let ghost before = row_views(sorted@);
    let mine = expiry_of(&row);
    let mut k: usize = sorted.len();
    while k > 0 && expiry_of(&sorted[k - 1]) > mine
        invariant
            k <= sorted@.len(),
            sorted@ == old(sorted)@,
            before == row_views(sorted@),
            mine == expiry(row@),
            forall|j: int| k <= j < before.len() ==> expiry(#[trigger] before[j]) > mine,
        decreases k,
    {
        assert(before[k - 1] == sorted@[k - 1]@);
        k -= 1;
    }
    proof {
        if k > 0 {
            assert(before[k - 1] == sorted@[k - 1]@);
        }
        lemma_insert_by_expiry_at(before, row@, k as int);
    }
    sorted.insert(k, row);
    assert(row_views(sorted@) =~= before.insert(k as int, row@));
}

/// Inserts a key behind those that do not come after it.
fn place_key(sorted: &mut Vec<String>, key: String)
    ensures
        text_views(final(sorted)@) == insert_key(text_views(old(sorted)@), key@),
{
    let ghost before = text_views(sorted@);
    let mut k: usize = sorted.len();
    while k > 0 && text_before(key.as_str(), sorted[k - 1].as_str())
        invariant
            k <= sorted@.len(),
            sorted@ == old(sorted)@,
            before == text_views(sorted@),
            forall|j: int| k <= j < before.len() ==> text_lt(key@, #[trigger] before[j]),
        decreases k,
    {
        assert(before[k - 1] == sorted@[k - 1]@);
        k -= 1;
    }
    proof {
        if k > 0 {
            assert(before[k - 1] == sorted@[k - 1]@);
        }
        lemma_insert_key_at(before, key@, k as int);
    }
    sorted.insert(k, key);
    assert(text_views(sorted@) =~= before.insert(k as int, key@));
}

/// The part of `keys` behind the cursor, or the part up to it.
fn keys_around(keys: &Vec<String>, cursor: &String, want_behind: bool) -> (part: Vec<String>)
    ensures
        want_behind ==> text_views(part@) == text_views(keys@).filter(behind(cursor@)),
        !want_behind ==> text_views(part@) == text_views(keys@).filter(up_to(cursor@)),
{
    let ghost pred = if want_behind {
        behind(cursor@)
    } else {
        up_to(cursor@)
    };
    let ghost all = text_views(keys@);
    let mut part: Vec<String> = Vec::new();
    let mut i: usize = 0;
    proof {
        reveal(Seq::filter);
        assert(text_views(part@) =~= all.take(0).filter(pred));
    }
    while i < keys.len()
        invariant
            i <= keys@.len(),
            all == text_views(keys@),
            pred == if want_behind {
                behind(cursor@)
            } else {
                up_to(cursor@)
            },
            text_views(part@) == all.take(i as int).filter(pred),
        decreases keys@.len() - i,
    {
        let ghost part_before = part@;
        proof {
            reveal(Seq::filter);
            assert(all.take(i + 1).drop_last() =~= all.take(i as int));
            assert(all.take(i + 1).last() == keys@[i as int]@);
        }
        if text_before(cursor.as_str(), keys[i].as_str()) == want_behind {
            part.push(keys[i].clone());
            assert(text_views(part@) =~= text_views(part_before).push(keys@[i as int]@));
        }
        i += 1;
    }
    assert(all.take(i as int) =~= all);
    part
}

impl ControlPlaneStore {
    /// Plans the repair of expired leases.
    pub fn plan_maintenance(&self, request: &ClaimRequest) -> (actions: Vec<MaintenanceAction>)
        requires
            self.wf(),
        ensures
            action_jobs(actions@) == repairs(self@, request@.queue, request@.now_ms),
            forall|i: int|
                0 <= i < actions@.len() ==> (#[trigger] actions@[i]).to == repaired_state(
                    actions@[i].job@,
                ),
    {
        let rows = self.job_rows();
        let ghost jobs = self@.jobs;
        let ghost pred = lease_expired(request@.queue, request@.now_ms);
        let mut sorted: Vec<JobRow> = Vec::new();
        let mut i: usize = 0;
        proof {
            reveal(Seq::filter);
            assert(row_views(sorted@) =~= by_expiry(jobs.take(0).filter(pred)));
        }
        while i < rows.len()
            invariant
                i <= rows@.len(),
                row_views(rows@) == jobs,
                pred == lease_expired(request@.queue, request@.now_ms),
                row_views(sorted@) == by_expiry(jobs.take(i as int).filter(pred)),
            decreases rows@.len() - i,
        {
            proof {
                reveal(Seq::filter);
                assert(jobs.take(i + 1).drop_last() =~= jobs.take(i as int));
                assert(jobs.take(i + 1).last() == rows@[i as int]@);
                let kept = jobs.take(i as int).filter(pred);
                assert(kept.push(rows@[i as int]@).drop_last() =~= kept);
            }
            let row = &rows[i];
            let expired = row.queue == request.queue && row.state == JobState::Leased && match row.lease_expires_at_ms {
                Some(ms) => ms < request.now_ms,
                None => false,
            };
            if expired {
                place_by_expiry(&mut sorted, row.clone());
            }
            i += 1;
        }
        assert(jobs.take(i as int) =~= jobs);
        let ghost all = row_views(sorted@);
        if sorted.len() > MAINTENANCE_LIMIT {
            sorted.truncate(MAINTENANCE_LIMIT);
            assert(row_views(sorted@) =~= all.take(MAINTENANCE_LIMIT as int));
        }
        let mut actions: Vec<MaintenanceAction> = Vec::new();
        let mut j: usize = 0;
        while j < sorted.len()
            invariant
                j <= sorted@.len(),
                actions@.len() == j,
                forall|k: int|
                    0 <= k < j ==> (#[trigger] actions@[k]).job@ == sorted@[k]@ && actions@[k].to
                        == repaired_state(sorted@[k]@),
            decreases sorted@.len() - j,
        {
            let job = sorted[j].clone();
            let to = match job.effect_mode {
                EffectMode::RequiresReconciliation => JobState::Uncertain,
                EffectMode::ExplicitlyIdempotent => {
                    if job.attempt >= job.max_attempts {
                        JobState::Dead
                    } else {
                        JobState::Pending
                    }
                }
            };
            actions.push(MaintenanceAction { job, to });
            j += 1;
        }
        assert(action_jobs(actions@) =~= row_views(sorted@));
        actions
    }

    /// The head of a partition, if it may be leased now.
    pub fn ready_head(&self, request: &ClaimRequest, partition: &String) -> (r: Option<JobRow>)
        requires
            self.wf(),
        ensures
            match r {
                Some(row) => head_if_ready(
                    self@.jobs,
                    request@.queue,
                    partition@,
                    request@.now_ms,
                ) == Some(row@),
                None => head_if_ready(
                    self@.jobs,
                    request@.queue,
                    partition@,
                    request@.now_ms,
                ) is None,
            },
    {
        let rows = self.job_rows();
        let ghost jobs = self@.jobs;
        let ghost pred = in_partition(request@.queue, partition@);
        let mut i: usize = 0;
        proof {
            reveal(Seq::filter);
            assert(jobs.take(0).filter(pred).len() == 0);
        }
        while i < rows.len()
            invariant
                i <= rows@.len(),
                row_views(rows@) == jobs,
                pred == in_partition(request@.queue, partition@),
                jobs == self@.jobs,
                jobs.take(i as int).filter(pred).len() == 0,
            decreases rows@.len() - i,
        {
            proof {
                reveal(Seq::filter);
                assert(jobs.take(i + 1).drop_last() =~= jobs.take(i as int));
                assert(jobs.take(i + 1).last() == rows@[i as int]@);
            }
            let row = &rows[i];
            if row.queue == request.queue && row.partition_key == *partition
                && !row.state.is_terminal() {
                proof {
                    lemma_filter_starts(jobs, pred, i as int);
                }
                let is_ready = match row.state {
                    JobState::Pending => row.not_before_ms <= request.now_ms,
                    JobState::RetryWait => {
                        row.not_before_ms <= request.now_ms && match row.retry_after_ms {
                            Some(ms) => ms <= request.now_ms,
                            None => true,
                        }
                    }
                    _ => false,
                };
                return if is_ready {
                    Some(row.clone())
                } else {
                    None
                };
            }
            i += 1;
        }
        assert(jobs.take(i as int) =~= jobs);
        None
    }

    /// The keys of the listed partitions of a queue, in text order.
    fn active_keys(&self, queue: &String) -> (keys: Vec<String>)
        ensures
            text_views(keys@) == sorted_keys(self@.partitions, queue@),
    {
        let rows = self.partition_rows();
        let ghost all = self@.partitions;
        let mut keys: Vec<String> = Vec::new();
        let mut i: usize = 0;
        assert(text_views(keys@) =~= sorted_keys(all.take(0), queue@));
        while i < rows.len()
            invariant
                i <= rows@.len(),
                partition_views(rows@) == all,
                text_views(keys@) == sorted_keys(all.take(i as int), queue@),
            decreases rows@.len() - i,
        {
            proof {
                assert(all.take(i + 1).drop_last() =~= all.take(i as int));
                assert(all.take(i + 1).last() == rows@[i as int]@);
            }
            if rows[i].queue == *queue {
                place_key(&mut keys, rows[i].partition_key.clone());
            }
            i += 1;
        }
        assert(all.take(i as int) =~= all);
        keys
    }

    /// The order in which a claim visits the partitions of a queue.
    fn visit(&self, queue: &String) -> (order: Vec<String>)
        requires
            self.wf(),
        ensures
            text_views(order@) == visiting_order(self@, queue@),
    {
        let keys = self.active_keys(queue);
        match self.cursor(queue.as_str()) {
            Some(cursor) => {
                let mut order = keys_around(&keys, &cursor, true);
                let mut wrapped = keys_around(&keys, &cursor, false);
                let ghost first = order@;
                let ghost second = wrapped@;
                order.append(&mut wrapped);
                assert(text_views(order@) =~= text_views(first) + text_views(second));
                order
            }
            None => keys,
        }
    }

    /// Plans the leases of a claim, and where the cursor moves. Each lease
    /// takes the next of the fresh identifiers as its token.
    pub fn plan_leases(&self, request: &ClaimRequest, fresh: &Vec<Id>) -> (r: Result<
        (Vec<ProposedLease>, Option<String>),
        Error,
    >)
        requires
            self.wf(),
        ensures
            match r {
                Ok((planned, cursor)) => {
                    &&& leases(self@, request@).len() <= fresh@.len()
                    &&& lease_jobs(planned@) == leases(self@, request@)
                    &&& lease_tokens(planned@) == fresh@.take(leases(self@, request@).len() as int)
                    &&& opt_text(cursor) == moved_cursor(self@, request@)
                },
                Err(e) => {
                    &&& leases(self@, request@).len() > fresh@.len()
                    &&& e@ == ErrorView::Storage(no_identifier())
                },
            },
    {
        let mut planned: Vec<ProposedLease> = Vec::new();
        if request.limit == 0 {
            proof {
                assert(lease_jobs(planned@) =~= leases(self@, request@));
                assert(lease_tokens(planned@) =~= fresh@.take(0));
            }
            return Ok((planned, None));
        }
        if let Some(partition) = &request.partition_key {
            if let Some(job) = self.ready_head(request, partition) {
                if fresh.len() == 0 {
                    return Err(
                        Error::Storage(
                            StorageError::Identifier(
                                "no fresh identifier could be drawn".to_owned(),
                            ),
                        ),
                    );
                }
                planned.push(ProposedLease { job, lease_token: fresh[0] });
                assert(lease_tokens(planned@) =~= fresh@.take(1));
            } else {
                assert(lease_tokens(planned@) =~= fresh@.take(0));
            }
            // A claim of one partition never moves the cursor.
            assert(lease_jobs(planned@) =~= leases(self@, request@));
            return Ok((planned, None));
        }
        let order = self.visit(&request.queue);
        let ghost keys = text_views(order@);
        let ghost f = ready_heads_of(self@.jobs, request@.queue, request@.now_ms);
        let mut last_leased: Option<String> = None;
        let mut i: usize = 0;
        assert(lease_jobs(planned@) =~= keys.take(0).filter_map(f));
        assert(lease_tokens(planned@) =~= fresh@.take(0));
        while i < order.len() && planned.len() < request.limit
            invariant
                i <= order@.len(),
                self.wf(),
                keys == text_views(order@),
                keys == visiting_order(self@, request@.queue),
                request@.partition_key is None,
                f == ready_heads_of(self@.jobs, request@.queue, request@.now_ms),
                planned@.len() <= request.limit,
                planned@.len() <= fresh@.len(),
                lease_jobs(planned@) == keys.take(i as int).filter_map(f),
                lease_tokens(planned@) == fresh@.take(planned@.len() as int),
                match last_leased {
                    Some(s) => planned@.len() > 0 && s@ == planned@.last().job@.partition_key,
                    None => planned@.len() == 0,
                },
            decreases order@.len() - i,
        {
            let ghost planned_before = planned@;
            proof {
                assert(keys.take(i + 1).drop_last() =~= keys.take(i as int));
                assert(keys.take(i + 1).last() == order@[i as int]@);
                lemma_filter_map_prefix(keys, f, i + 1);
            }
            let partition = &order[i];
            if let Some(job) = self.ready_head(request, partition) {
                let ghost row = job@;
                proof {
                    reveal(Seq::filter_map);
                    lemma_head_in_partition(self@.jobs, request@.queue, partition@);
                    assert(keys.take(i + 1).filter_map(f) =~= keys.take(i as int).filter_map(f).push(
                        row,
                    ));
                }
                if planned.len() >= fresh.len() {
                    return Err(
                        Error::Storage(
                            StorageError::Identifier(
                                "no fresh identifier could be drawn".to_owned(),
                            ),
                        ),
                    );
                }
                last_leased = Some(partition.clone());
                let lease_token = fresh[planned.len()];
                planned.push(ProposedLease { job, lease_token });
                assert(lease_jobs(planned@) =~= lease_jobs(planned_before).push(row));
                assert(lease_tokens(planned@) =~= fresh@.take(planned@.len() as int));
            } else {
                proof {
                    reveal(Seq::filter_map);
                }
            }
            i += 1;
        }
        proof {
            lemma_filter_map_prefix(keys, f, i as int);
            assert(keys.take(keys.len() as int) =~= keys);
            assert(lease_jobs(planned@) =~= leases(self@, request@));
            if planned@.len() > 0 {
                assert(lease_jobs(planned@).last() == planned@.last().job@);
            }
        }
        Ok((planned, last_leased))
    }
}

/// The head of a partition is an unfinished job of that partition.
pub proof fn lemma_head_in_partition(
    jobs: Seq<JobRowView>,
    queue: Seq<char>,
    partition_key: Seq<char>,
)
    ensures
        head(jobs, queue, partition_key) matches Some(r) ==> active_in(r, queue, partition_key)
            && exists|i: int| 0 <= i < jobs.len() && r == #[trigger] jobs[i],
{
    let pred = in_partition(queue, partition_key);
    let idx = lemma_filter_indices(jobs, pred);
    if jobs.filter(pred).len() > 0 {
        assert(jobs.filter(pred)[0] == jobs[idx[0]]);
    }
}

} // verus!
