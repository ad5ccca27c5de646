//! What every claim plan satisfies.
use vstd::prelude::*;

use crate::jobs::ClaimRequestView;
use crate::plan::{
    behind, by_expiry, expiry, head, head_if_ready, in_partition, insert_by_expiry, insert_key,
    lease_expired, leases, lemma_head_in_partition, ready, ready_heads_of, repairs, sorted_keys,
    up_to, visiting_order, MAINTENANCE_LIMIT,
};
use crate::row::JobRowView;
use crate::seqs::{lemma_filter_indices, lemma_filter_map_contains, lemma_filter_map_indices};
use crate::state::terminal;
use crate::tables::{
    active_in, consistent, find_cursor, find_job, has_active, ids_distinct, lemma_find_at, listed,
    partitions_distinct, sequences_ascend, sound, PartitionRowView, Tables,
};
use crate::text::{
    lemma_text_lt_irreflexive, lemma_text_lt_total, lemma_text_lt_transitive, text_lt,
};

verus! {

/// One job is repaired before another: its lease expired earlier or, at the
/// same time, it was enqueued earlier.
pub open spec fn repaired_before(a: JobRowView, b: JobRowView) -> bool {
    expiry(a) < expiry(b) || expiry(a) == expiry(b) && a.enqueue_sequence < b.enqueue_sequence
}

/// The jobs stand in the order of repair.
pub open spec fn in_repair_order(s: Seq<JobRowView>) -> bool {
    forall|i: int, j: int|
        0 <= i < j < s.len() ==> repaired_before(#[trigger] s[i], #[trigger] s[j])
}

proof fn lemma_insert_by_expiry(sorted: Seq<JobRowView>, r: JobRowView)
    requires
        in_repair_order(sorted),
        forall|i: int|
            0 <= i < sorted.len() ==> (#[trigger] sorted[i]).enqueue_sequence < r.enqueue_sequence,
    ensures
        insert_by_expiry(sorted, r).len() == sorted.len() + 1,
        in_repair_order(insert_by_expiry(sorted, r)),
        insert_by_expiry(sorted, r).contains(r),
        forall|x: JobRowView| #[trigger]
            insert_by_expiry(sorted, r).contains(x) <==> sorted.contains(x) || x == r,
    decreases sorted.len(),
{
    let after = insert_by_expiry(sorted, r);
    if sorted.len() == 0 || expiry(sorted.last()) <= expiry(r) {
        assert(after[sorted.len() as int] == r);
        assert forall|i: int, j: int| 0 <= i < j < after.len() implies repaired_before(
            #[trigger] after[i],
            #[trigger] after[j],
        ) by {
            if j == sorted.len() && i < sorted.len() - 1 {
                assert(repaired_before(sorted[i], sorted[sorted.len() - 1]));
            }
        }
        assert forall|x: JobRowView| #[trigger] after.contains(x) <==> sorted.contains(x) || x
            == r by {
            if sorted.contains(x) {
                let i = choose|i: int| 0 <= i < sorted.len() && sorted[i] == x;
                assert(after[i] == x);
            }
        }
    } else {
        let front = sorted.drop_last();
        let last = sorted.last();
        assert forall|i: int, j: int| 0 <= i < j < front.len() implies repaired_before(
            #[trigger] front[i],
            #[trigger] front[j],
        ) by {
            assert(repaired_before(sorted[i], sorted[j]));
        }
        lemma_insert_by_expiry(front, r);
        let mid = insert_by_expiry(front, r);
        let n = mid.len() as int;
        assert(after[n] == last);
        assert forall|i: int, j: int| 0 <= i < j < after.len() implies repaired_before(
            #[trigger] after[i],
            #[trigger] after[j],
        ) by {
            assert(after[i] == mid[i]);
            if j < n {
                assert(after[j] == mid[j]);
            } else {
                assert(mid.contains(mid[i]));
                if mid[i] != r {
                    let k = choose|k: int| 0 <= k < front.len() && front[k] == mid[i];
                    assert(repaired_before(sorted[k], sorted[sorted.len() - 1]));
                }
            }
        }
        assert forall|x: JobRowView| #[trigger] after.contains(x) <==> sorted.contains(x) || x
            == r by {
            if sorted.contains(x) {
                let i = choose|i: int| 0 <= i < sorted.len() && sorted[i] == x;
                if i < front.len() {
                    assert(front[i] == x);
                    assert(mid.contains(x));
                    let k = choose|k: int| 0 <= k < mid.len() && mid[k] == x;
                    assert(after[k] == x);
                }
            }
            if x == r {
                let k = choose|k: int| 0 <= k < mid.len() && mid[k] == r;
                assert(after[k] == r);
            }
            if after.contains(x) {
                let k = choose|k: int| 0 <= k < after.len() && after[k] == x;
                if k < n {
                    assert(mid[k] == x);
                    assert(mid.contains(x));
                    if front.contains(x) {
                        let i = choose|i: int| 0 <= i < front.len() && front[i] == x;
                        assert(sorted[i] == x);
                    }
                } else {
                    assert(sorted[sorted.len() - 1] == x);
                }
            }
        }
    }
}

proof fn lemma_by_expiry(rows: Seq<JobRowView>)
    requires
        sequences_ascend(rows),
    ensures
        by_expiry(rows).len() == rows.len(),
        in_repair_order(by_expiry(rows)),
        forall|x: JobRowView| #[trigger] by_expiry(rows).contains(x) <==> rows.contains(x),
    decreases rows.len(),
{
    if rows.len() > 0 {
        let front = rows.drop_last();
        let last = rows.last();
        assert forall|i: int, j: int| 0 <= i < j < front.len() implies (
        #[trigger] front[i]).enqueue_sequence < (#[trigger] front[j]).enqueue_sequence by {
            assert(rows[i].enqueue_sequence < rows[j].enqueue_sequence);
        }
        lemma_by_expiry(front);
        let sorted = by_expiry(front);
        assert forall|i: int| 0 <= i < sorted.len() implies (
        #[trigger] sorted[i]).enqueue_sequence < last.enqueue_sequence by {
            assert(sorted.contains(sorted[i]));
            let k = choose|k: int| 0 <= k < front.len() && front[k] == sorted[i];
            assert(rows[k].enqueue_sequence < rows[rows.len() - 1].enqueue_sequence);
        }
        lemma_insert_by_expiry(sorted, last);
        assert forall|x: JobRowView| #[trigger] by_expiry(rows).contains(x) <==> rows.contains(
            x,
        ) by {
            assert(sorted.contains(x) <==> front.contains(x));
            if front.contains(x) {
                let k = choose|k: int| 0 <= k < front.len() && front[k] == x;
                assert(rows[k] == x);
            }
            if x == last {
                assert(rows[rows.len() - 1] == x);
            }
            if rows.contains(x) {
                let k = choose|k: int| 0 <= k < rows.len() && rows[k] == x;
                if k < front.len() {
                    assert(front[k] == x);
                }
            }
        }
    }
}

/// The repairs of a claim are expired leases of its queue, in the order in
/// which they expired, and no more than the limit; an expired lease that is
/// not repaired expired no earlier than any that is, and is left out only
/// where the limit is reached.
pub proof fn law_repairs(t: Tables, queue: Seq<char>, now_ms: i64)
    requires
        sound(t),
    ensures
        repairs(t, queue, now_ms).len() <= MAINTENANCE_LIMIT,
        in_repair_order(repairs(t, queue, now_ms)),
        forall|i: int|
            0 <= i < repairs(t, queue, now_ms).len() ==> {
                let r = #[trigger] repairs(t, queue, now_ms)[i];
                &&& find_job(t.jobs, r.job_id) == Some(r)
                &&& lease_expired(queue, now_ms)(r)
            },
        forall|k: int|
            0 <= k < t.jobs.len() && lease_expired(queue, now_ms)(#[trigger] t.jobs[k])
                && !repairs(t, queue, now_ms).contains(t.jobs[k]) ==> {
                &&& repairs(t, queue, now_ms).len() == MAINTENANCE_LIMIT
                &&& forall|i: int|
                    0 <= i < MAINTENANCE_LIMIT ==> repaired_before(
                        #[trigger] repairs(t, queue, now_ms)[i],
                        t.jobs[k],
                    )
            },
{
    let pred = lease_expired(queue, now_ms);
    let found = t.jobs.filter(pred);
    let idx = lemma_filter_indices(t.jobs, pred);
    assert forall|i: int, j: int| 0 <= i < j < found.len() implies (
    #[trigger] found[i]).enqueue_sequence < (#[trigger] found[j]).enqueue_sequence by {
        assert(idx[i] < idx[j]);
        assert(t.jobs[idx[i]].enqueue_sequence < t.jobs[idx[j]].enqueue_sequence);
    }
    lemma_by_expiry(found);
    let all = by_expiry(found);
    let fixed = repairs(t, queue, now_ms);
    assert forall|i: int, j: int| 0 <= i < j < fixed.len() implies repaired_before(
        #[trigger] fixed[i],
        #[trigger] fixed[j],
    ) by {
        assert(repaired_before(all[i], all[j]));
    }
    assert forall|i: int| 0 <= i < fixed.len() implies find_job(
        t.jobs,
        (#[trigger] fixed[i]).job_id,
    ) == Some(fixed[i]) && pred(fixed[i]) by {
        assert(all.contains(all[i]));
        let k = choose|k: int| 0 <= k < found.len() && found[k] == all[i];
        assert(found[k] == t.jobs[idx[k]]);
        lemma_find_at(t.jobs, idx[k]);
    }
    assert forall|k: int|
        0 <= k < t.jobs.len() && pred(#[trigger] t.jobs[k]) && !fixed.contains(t.jobs[k]) implies {
        &&& fixed.len() == MAINTENANCE_LIMIT
        &&& forall|i: int|
            0 <= i < MAINTENANCE_LIMIT ==> repaired_before(#[trigger] fixed[i], t.jobs[k])
    } by {
        t.jobs.filter_lemma(pred);
        assert(found.contains(t.jobs[k]));
        assert(all.contains(t.jobs[k]));
        let m = choose|m: int| 0 <= m < all.len() && all[m] == t.jobs[k];
        if all.len() <= MAINTENANCE_LIMIT {
            assert(fixed[m] == t.jobs[k]);
        }
        assert forall|i: int| 0 <= i < MAINTENANCE_LIMIT implies repaired_before(
            #[trigger] fixed[i],
            t.jobs[k],
        ) by {
            if m < MAINTENANCE_LIMIT {
                assert(fixed[m] == t.jobs[k]);
            }
            assert(repaired_before(all[i], all[m]));
        }
    }
}

/// No two of the keys are equal, and they stand in text order.
pub open spec fn keys_ascend(keys: Seq<Seq<char>>) -> bool {
    forall|i: int, j: int| 0 <= i < j < keys.len() ==> text_lt(#[trigger] keys[i], #[trigger] keys[j])
}

proof fn lemma_insert_key(sorted: Seq<Seq<char>>, key: Seq<char>)
    requires
        keys_ascend(sorted),
        !sorted.contains(key),
    ensures
        keys_ascend(insert_key(sorted, key)),
        insert_key(sorted, key).len() == sorted.len() + 1,
        forall|x: Seq<char>| #[trigger]
            insert_key(sorted, key).contains(x) <==> sorted.contains(x) || x == key,
    decreases sorted.len(),
{
    let after = insert_key(sorted, key);
    if sorted.len() == 0 || !text_lt(key, sorted.last()) {
        assert(after[sorted.len() as int] == key);
        assert forall|i: int, j: int| 0 <= i < j < after.len() implies text_lt(
            #[trigger] after[i],
            #[trigger] after[j],
        ) by {
            if j == sorted.len() {
                lemma_text_lt_total(key, sorted.last());
                assert(sorted.contains(sorted[sorted.len() - 1]));
                if i < sorted.len() - 1 {
                    assert(text_lt(sorted[i], sorted[sorted.len() - 1]));
                    lemma_text_lt_transitive(sorted[i], sorted.last(), key);
                }
            }
        }
        assert forall|x: Seq<char>| #[trigger] after.contains(x) <==> sorted.contains(x) || x
            == key by {
            if sorted.contains(x) {
                let i = choose|i: int| 0 <= i < sorted.len() && sorted[i] == x;
                assert(after[i] == x);
            }
        }
    } else {
        let front = sorted.drop_last();
        let last = sorted.last();
        assert forall|i: int, j: int| 0 <= i < j < front.len() implies text_lt(
            #[trigger] front[i],
            #[trigger] front[j],
        ) by {
            assert(text_lt(sorted[i], sorted[j]));
        }
        if front.contains(key) {
            let i = choose|i: int| 0 <= i < front.len() && front[i] == key;
            assert(sorted[i] == key);
        }
        lemma_insert_key(front, key);
        let mid = insert_key(front, key);
        let n = mid.len() as int;
        assert(after[n] == last);
        assert forall|i: int, j: int| 0 <= i < j < after.len() implies text_lt(
            #[trigger] after[i],
            #[trigger] after[j],
        ) by {
            assert(after[i] == mid[i]);
            if j < n {
                assert(after[j] == mid[j]);
            } else {
                assert(mid.contains(mid[i]));
                if mid[i] != key {
                    let k = choose|k: int| 0 <= k < front.len() && front[k] == mid[i];
                    assert(text_lt(sorted[k], sorted[sorted.len() - 1]));
                }
            }
        }
        assert forall|x: Seq<char>| #[trigger] after.contains(x) <==> sorted.contains(x) || x
            == key by {
            if sorted.contains(x) {
                let i = choose|i: int| 0 <= i < sorted.len() && sorted[i] == x;
                if i < front.len() {
                    assert(front[i] == x);
                    assert(mid.contains(x));
                    let k = choose|k: int| 0 <= k < mid.len() && mid[k] == x;
                    assert(after[k] == x);
                }
            }
            if x == key {
                assert(mid.contains(key));
                let k = choose|k: int| 0 <= k < mid.len() && mid[k] == key;
                assert(after[k] == key);
            }
            if after.contains(x) {
                let k = choose|k: int| 0 <= k < after.len() && after[k] == x;
                if k < n {
                    assert(mid[k] == x);
                    assert(mid.contains(x));
                    if front.contains(x) {
                        let i = choose|i: int| 0 <= i < front.len() && front[i] == x;
                        assert(sorted[i] == x);
                    }
                } else {
                    assert(sorted[sorted.len() - 1] == x);
                }
            }
        }
    }
}

proof fn lemma_sorted_keys(partitions: Seq<PartitionRowView>, queue: Seq<char>)
    requires
        partitions_distinct(partitions),
    ensures
        keys_ascend(sorted_keys(partitions, queue)),
        forall|key: Seq<char>| #[trigger]
            sorted_keys(partitions, queue).contains(key) <==> listed(partitions, queue, key),
    decreases partitions.len(),
{
    if partitions.len() > 0 {
        let front = partitions.drop_last();
        let last = partitions.last();
        assert forall|i: int, j: int| 0 <= i < j < front.len() implies (#[trigger] front[i]).queue
            != (#[trigger] front[j]).queue || front[i].partition_key != front[j].partition_key by {
            assert(partitions[i].queue != partitions[j].queue || partitions[i].partition_key
                != partitions[j].partition_key);
        }
        lemma_sorted_keys(front, queue);
        let rest = sorted_keys(front, queue);
        if last.queue == queue {
            if rest.contains(last.partition_key) {
                assert(listed(front, queue, last.partition_key));
                let i = choose|i: int|
                    0 <= i < front.len() && (#[trigger] front[i]).queue == queue
                        && front[i].partition_key == last.partition_key;
                assert(partitions[i].queue != partitions[partitions.len() - 1].queue
                    || partitions[i].partition_key != partitions[partitions.len()
                    - 1].partition_key);
            }
            lemma_insert_key(rest, last.partition_key);
        }
        assert forall|key: Seq<char>| #[trigger]
            sorted_keys(partitions, queue).contains(key) <==> listed(partitions, queue, key) by {
            assert(rest.contains(key) <==> listed(front, queue, key));
            if listed(front, queue, key) {
                let i = choose|i: int|
                    0 <= i < front.len() && (#[trigger] front[i]).queue == queue
                        && front[i].partition_key == key;
                assert(partitions[i].queue == queue);
            }
            if last.queue == queue && last.partition_key == key {
                assert(partitions[partitions.len() - 1].queue == queue);
            }
            if listed(partitions, queue, key) {
                let i = choose|i: int|
                    0 <= i < partitions.len() && (#[trigger] partitions[i]).queue == queue
                        && partitions[i].partition_key == key;
                if i < front.len() {
                    assert(front[i].queue == queue);
                }
            }
        }
    }
}

/// One key is visited before another when the cursor stands at `cursor`: keys
/// behind the cursor come first, and otherwise the text order decides.
pub open spec fn visited_before(cursor: Option<Seq<char>>, a: Seq<char>, b: Seq<char>) -> bool {
    match cursor {
        Some(c) => if text_lt(c, a) == text_lt(c, b) {
            text_lt(a, b)
        } else {
            text_lt(c, a)
        },
        None => text_lt(a, b),
    }
}

/// A claim visits every listed partition of its queue once, and no other, in
/// the order that starts behind the cursor and wraps around. On consistent
/// tables these are the partitions that have an unfinished job.
pub proof fn law_visiting_order(t: Tables, queue: Seq<char>)
    requires
        sound(t),
    ensures
        forall|key: Seq<char>| #[trigger]
            visiting_order(t, queue).contains(key) <==> listed(t.partitions, queue, key),
        consistent(t) ==> forall|key: Seq<char>| #[trigger]
            visiting_order(t, queue).contains(key) <==> has_active(t.jobs, queue, key),
        forall|i: int, j: int|
            0 <= i < j < visiting_order(t, queue).len() ==> visited_before(
                find_cursor(t.cursors, queue),
                #[trigger] visiting_order(t, queue)[i],
                #[trigger] visiting_order(t, queue)[j],
            ),
        visiting_order(t, queue).no_duplicates(),
{
    let keys = sorted_keys(t.partitions, queue);
    let order = visiting_order(t, queue);
    lemma_sorted_keys(t.partitions, queue);
    match find_cursor(t.cursors, queue) {
        None => {},
        Some(c) => {
            let first = keys.filter(behind(c));
            let second = keys.filter(up_to(c));
            let fi = lemma_filter_indices(keys, behind(c));
            let si = lemma_filter_indices(keys, up_to(c));
            keys.filter_lemma(behind(c));
            keys.filter_lemma(up_to(c));
            assert forall|i: int, j: int| 0 <= i < j < order.len() implies visited_before(
                Some(c),
                #[trigger] order[i],
                #[trigger] order[j],
            ) by {
                let n = first.len() as int;
                if j < n {
                    assert(order[i] == first[i] && order[j] == first[j]);
                    assert(fi[i] < fi[j]);
                    assert(text_lt(keys[fi[i]], keys[fi[j]]));
                    assert(behind(c)(keys[fi[i]]) && behind(c)(keys[fi[j]]));
                } else if i < n {
                    assert(order[i] == first[i] && order[j] == second[j - n]);
                    assert(behind(c)(keys[fi[i]]) && up_to(c)(keys[si[j - n]]));
                } else {
                    assert(order[i] == second[i - n] && order[j] == second[j - n]);
                    assert(si[i - n] < si[j - n]);
                    assert(text_lt(keys[si[i - n]], keys[si[j - n]]));
                    assert(up_to(c)(keys[si[i - n]]) && up_to(c)(keys[si[j - n]]));
                }
            }
            assert forall|key: Seq<char>| #[trigger] order.contains(key) <==> keys.contains(
                key,
            ) by {
                if order.contains(key) {
                    let i = choose|i: int| 0 <= i < order.len() && order[i] == key;
                    if i < first.len() {
                        assert(keys[fi[i]] == key);
                    } else {
                        assert(keys[si[i - first.len()]] == key);
                    }
                }
                if keys.contains(key) {
                    let i = choose|i: int| 0 <= i < keys.len() && keys[i] == key;
                    if behind(c)(key) {
                        assert(first.contains(key));
                        let k = choose|k: int| 0 <= k < first.len() && first[k] == key;
                        assert(order[k] == key);
                    } else {
                        assert(up_to(c)(key));
                        assert(second.contains(key));
                        let k = choose|k: int| 0 <= k < second.len() && second[k] == key;
                        assert(order[first.len() + k] == key);
                    }
                }
            }
        },
    }
    assert forall|key: Seq<char>| #[trigger] order.contains(key) <==> listed(
        t.partitions,
        queue,
        key,
    ) by {
        assert(keys.contains(key) <==> listed(t.partitions, queue, key));
    }
    if consistent(t) {
        assert forall|key: Seq<char>| #[trigger] order.contains(key) <==> has_active(
            t.jobs,
            queue,
            key,
        ) by {
            assert(listed(t.partitions, queue, key) <==> has_active(t.jobs, queue, key));
        }
    }
    assert forall|i: int, j: int| 0 <= i < order.len() && 0 <= j < order.len() && i != j implies order[i]
        != order[j] by {
        if i < j {
            assert(visited_before(find_cursor(t.cursors, queue), order[i], order[j]));
        } else {
            assert(visited_before(find_cursor(t.cursors, queue), order[j], order[i]));
        }
        lemma_text_lt_irreflexive(order[i]);
    }
}

/// Every job that a claim leases is the head of its partition, ready now, of
/// the claimed queue and, where the claim names one, of the named partition;
/// no two of them belong to one partition, and there are no more than the
/// limit.
pub proof fn law_leases(t: Tables, req: ClaimRequestView)
    requires
        sound(t),
    ensures
        leases(t, req).len() <= req.limit,
        forall|i: int|
            0 <= i < leases(t, req).len() ==> {
                let r = #[trigger] leases(t, req)[i];
                &&& find_job(t.jobs, r.job_id) == Some(r)
                &&& r.queue == req.queue
                &&& req.partition_key matches Some(key) ==> r.partition_key == key
                &&& head(t.jobs, r.queue, r.partition_key) == Some(r)
                &&& ready(r, req.now_ms)
            },
        forall|i: int, j: int|
            0 <= i < j < leases(t, req).len() ==> (#[trigger] leases(t, req)[i]).partition_key != (
            #[trigger] leases(t, req)[j]).partition_key,
        ids_distinct(leases(t, req)),
{
    let granted = leases(t, req);
    match req.partition_key {
        Some(key) => {
            lemma_head_in_partition(t.jobs, req.queue, key);
            if granted.len() > 0 {
                let r = granted[0];
                let k = choose|k: int| 0 <= k < t.jobs.len() && r == #[trigger] t.jobs[k];
                lemma_find_at(t.jobs, k);
            }
        },
        None => {
            let order = visiting_order(t, req.queue);
            let f = ready_heads_of(t.jobs, req.queue, req.now_ms);
            let idx = lemma_filter_map_indices(order, f);
            law_visiting_order(t, req.queue);
            assert forall|i: int| 0 <= i < granted.len() implies {
                let r = #[trigger] granted[i];
                &&& find_job(t.jobs, r.job_id) == Some(r)
                &&& r.queue == req.queue
                &&& r.partition_key == order[idx[i]]
                &&& head(t.jobs, r.queue, r.partition_key) == Some(r)
                &&& ready(r, req.now_ms)
            } by {
                let r = granted[i];
                assert(f(order[idx[i]]) == Some(r));
                lemma_head_in_partition(t.jobs, req.queue, order[idx[i]]);
                let k = choose|k: int| 0 <= k < t.jobs.len() && r == #[trigger] t.jobs[k];
                lemma_find_at(t.jobs, k);
            }
            assert forall|i: int, j: int| 0 <= i < j < granted.len() implies (
            #[trigger] granted[i]).partition_key != (#[trigger] granted[j]).partition_key by {
                assert(idx[i] < idx[j]);
                assert(order[idx[i]] != order[idx[j]]);
            }
        },
    }
    assert forall|i: int, j: int| 0 <= i < j < granted.len() implies (#[trigger] granted[i]).job_id
        != (#[trigger] granted[j]).job_id by {
        assert(granted[i].partition_key != granted[j].partition_key);
    }
}

/// A claim repairs no job that it leases.
pub proof fn law_repaired_jobs_are_not_leased(t: Tables, req: ClaimRequestView)
    requires
        sound(t),
    ensures
        forall|i: int, j: int|
            0 <= i < repairs(t, req.queue, req.now_ms).len() && 0 <= j < leases(t, req).len()
                ==> (#[trigger] repairs(t, req.queue, req.now_ms)[i]).job_id != (
            #[trigger] leases(t, req)[j]).job_id,
{
    law_repairs(t, req.queue, req.now_ms);
    law_leases(t, req);
    let fixed = repairs(t, req.queue, req.now_ms);
    let granted = leases(t, req);
    assert forall|i: int, j: int| 0 <= i < fixed.len() && 0 <= j < granted.len() implies (
    #[trigger] fixed[i]).job_id != (#[trigger] granted[j]).job_id by {
        assert(find_job(t.jobs, fixed[i].job_id) == Some(fixed[i]));
        assert(find_job(t.jobs, granted[j].job_id) == Some(granted[j]));
        assert(lease_expired(req.queue, req.now_ms)(fixed[i]));
        assert(ready(granted[j], req.now_ms));
    }
}

/// Within a partition jobs are leased in the order in which they were
/// enqueued: every earlier job of the partition has finished.
pub proof fn law_leased_in_enqueue_order(t: Tables, req: ClaimRequestView, i: int, k: int)
    requires
        sound(t),
        0 <= i < leases(t, req).len(),
        0 <= k < t.jobs.len(),
        t.jobs[k].queue == leases(t, req)[i].queue,
        t.jobs[k].partition_key == leases(t, req)[i].partition_key,
        t.jobs[k].enqueue_sequence < leases(t, req)[i].enqueue_sequence,
    ensures
        terminal(t.jobs[k].state),
{
    law_leases(t, req);
    let r = leases(t, req)[i];
    if !terminal(t.jobs[k].state) {
        let pred = in_partition(r.queue, r.partition_key);
        let idx = lemma_filter_indices(t.jobs, pred);
        t.jobs.filter_lemma(pred);
        assert(pred(t.jobs[k]));
        let mine = t.jobs.filter(pred);
        assert(mine.contains(t.jobs[k]));
        let m = choose|m: int| 0 <= m < mine.len() && mine[m] == t.jobs[k];
        assert(mine[0] == r);
        assert(t.jobs[idx[0]] == r && t.jobs[idx[m]] == t.jobs[k]);
        if m > 0 {
            assert(idx[0] < idx[m]);
            assert(t.jobs[idx[0]].enqueue_sequence < t.jobs[idx[m]].enqueue_sequence);
        }
    }
}

/// A claim leases as much as it may: where fewer jobs are leased than the
/// limit allows, every partition that the claim covers and whose head is
/// ready has its head leased.
pub proof fn law_no_ready_head_is_skipped(t: Tables, req: ClaimRequestView, key: Seq<char>)
    requires
        consistent(t),
        leases(t, req).len() < req.limit,
        req.partition_key matches Some(named) ==> named == key,
        head_if_ready(t.jobs, req.queue, key, req.now_ms) is Some,
    ensures
        leases(t, req).contains(head_if_ready(t.jobs, req.queue, key, req.now_ms)->0),
{
    let granted = leases(t, req);
    let r = head_if_ready(t.jobs, req.queue, key, req.now_ms)->0;
    match req.partition_key {
        Some(_) => {
            assert(granted[0] == r);
        },
        None => {
            let order = visiting_order(t, req.queue);
            let f = ready_heads_of(t.jobs, req.queue, req.now_ms);
            law_visiting_order(t, req.queue);
            lemma_head_in_partition(t.jobs, req.queue, key);
            let k = choose|k: int| 0 <= k < t.jobs.len() && r == #[trigger] t.jobs[k];
            assert(active_in(t.jobs[k], req.queue, key));
            assert(has_active(t.jobs, req.queue, key));
            assert(order.contains(key));
            let i = choose|i: int| 0 <= i < order.len() && order[i] == key;
            lemma_filter_map_contains(order, f, i);
        },
    }
}

} // verus!
