//! Facts about filtered, mapped and shortened sequences.
use vstd::prelude::*;

verus! {

/// At most the first `n` elements.
pub open spec fn at_most<A>(s: Seq<A>, n: nat) -> Seq<A> {
    if s.len() <= n {
        s
    } else {
        s.take(n as int)
    }
}

/// A filtered sequence picks elements at increasing indices.
pub proof fn lemma_filter_indices<A>(s: Seq<A>, pred: spec_fn(A) -> bool) -> (idx: Seq<int>)
    ensures
        idx.len() == s.filter(pred).len(),
        forall|i: int|
            0 <= i < idx.len() ==> 0 <= #[trigger] idx[i] < s.len() && s.filter(pred)[i]
                == s[idx[i]] && pred(s[idx[i]]),
        forall|i: int, j: int| 0 <= i < j < idx.len() ==> #[trigger] idx[i] < #[trigger] idx[j],
    decreases s.len(),
{
    reveal(Seq::filter);
    if s.len() == 0 {
        Seq::empty()
    } else {
        let rest = lemma_filter_indices(s.drop_last(), pred);
        if pred(s.last()) {
            rest.push(s.len() - 1)
        } else {
            rest
        }
    }
}

/// A filter that every element passes keeps the sequence, and one that none
/// passes empties it.
pub proof fn lemma_filter_all<A>(s: Seq<A>, pred: spec_fn(A) -> bool)
    ensures
        (forall|i: int| 0 <= i < s.len() ==> pred(#[trigger] s[i])) ==> s.filter(pred) == s,
        (forall|i: int| 0 <= i < s.len() ==> !pred(#[trigger] s[i])) ==> s.filter(pred).len() == 0,
    decreases s.len(),
{
    reveal(Seq::filter);
    if s.len() > 0 {
        lemma_filter_all(s.drop_last(), pred);
        assert(forall|i: int| 0 <= i < s.len() - 1 ==> #[trigger] s.drop_last()[i] == s[i]);
        if forall|i: int| 0 <= i < s.len() ==> pred(#[trigger] s[i]) {
            assert(pred(s[s.len() - 1]));
            assert(s.filter(pred) =~= s);
        }
        if forall|i: int| 0 <= i < s.len() ==> !pred(#[trigger] s[i]) {
            assert(!pred(s[s.len() - 1]));
        }
    } else {
        assert(s.filter(pred) =~= s);
    }
}

/// Once an element passes, it is the first of the filtered sequence if none
/// before it passes.
pub proof fn lemma_filter_starts<A>(s: Seq<A>, pred: spec_fn(A) -> bool, i: int)
    requires
        0 <= i < s.len(),
        s.take(i).filter(pred).len() == 0,
        pred(s[i]),
    ensures
        s.filter(pred).len() > 0,
        s.filter(pred)[0] == s[i],
{
    reveal(Seq::filter);
    assert(s.take(i + 1).drop_last() =~= s.take(i));
    assert(s =~= s.take(i + 1) + s.skip(i + 1));
    Seq::filter_distributes_over_add(s.take(i + 1), s.skip(i + 1), pred);
}

/// Filtering and mapping a prefix gives a prefix.
pub proof fn lemma_filter_map_prefix<A, B>(s: Seq<A>, f: spec_fn(A) -> Option<B>, i: int)
    requires
        0 <= i <= s.len(),
    ensures
        s.take(i).filter_map(f).len() <= s.filter_map(f).len(),
        s.filter_map(f).take(s.take(i).filter_map(f).len() as int) == s.take(i).filter_map(f),
    decreases s.len() - i,
{
    if i == s.len() {
        assert(s.take(i) =~= s);
        assert(s.filter_map(f).take(s.filter_map(f).len() as int) =~= s.filter_map(f));
    } else {
        lemma_filter_map_prefix(s, f, i + 1);
        reveal(Seq::filter_map);
        assert(s.take(i + 1).drop_last() =~= s.take(i));
        let shorter = s.take(i).filter_map(f);
        let longer = s.take(i + 1).filter_map(f);
        assert(longer.take(shorter.len() as int) =~= shorter);
        assert(s.filter_map(f).take(shorter.len() as int) =~= s.filter_map(f).take(
            longer.len() as int,
        ).take(shorter.len() as int));
    }
}

/// A filtered and mapped sequence picks elements at increasing indices.
pub proof fn lemma_filter_map_indices<A, B>(s: Seq<A>, f: spec_fn(A) -> Option<B>) -> (idx: Seq<int>)
    ensures
        idx.len() == s.filter_map(f).len(),
        forall|i: int|
            0 <= i < idx.len() ==> 0 <= #[trigger] idx[i] < s.len() && f(s[idx[i]]) == Some(
                s.filter_map(f)[i],
            ),
        forall|i: int, j: int| 0 <= i < j < idx.len() ==> #[trigger] idx[i] < #[trigger] idx[j],
    decreases s.len(),
{
    reveal(Seq::filter_map);
    if s.len() == 0 {
        Seq::empty()
    } else {
        let rest = lemma_filter_map_indices(s.drop_last(), f);
        if f(s.last()) is Some {
            rest.push(s.len() - 1)
        } else {
            rest
        }
    }
}

/// Where an element maps to something, that is in the filtered and mapped
/// sequence.
pub proof fn lemma_filter_map_contains<A, B>(s: Seq<A>, f: spec_fn(A) -> Option<B>, i: int)
    requires
        0 <= i < s.len(),
        f(s[i]) is Some,
    ensures
        s.filter_map(f).contains(f(s[i])->0),
    decreases s.len(),
{
    reveal(Seq::filter_map);
    let rest = s.drop_last().filter_map(f);
    if i == s.len() - 1 {
        assert(s.filter_map(f)[rest.len() as int] == f(s[i])->0);
    } else {
        lemma_filter_map_contains(s.drop_last(), f, i);
        let k = choose|k: int| 0 <= k < rest.len() && rest[k] == f(s[i])->0;
        assert(s.filter_map(f)[k] == f(s[i])->0);
    }
}

/// A narrower filter gives the same on what a wider one let pass.
pub proof fn lemma_filter_narrower<A>(s: Seq<A>, wide: spec_fn(A) -> bool, narrow: spec_fn(A) -> bool)
    requires
        forall|x: A| #[trigger] narrow(x) ==> wide(x),
    ensures
        s.filter(narrow) == s.filter(wide).filter(narrow),
    decreases s.len(),
{
    reveal(Seq::filter);
    if s.len() > 0 {
        lemma_filter_narrower(s.drop_last(), wide, narrow);
        let rest = s.drop_last().filter(wide);
        if wide(s.last()) {
            assert(rest.push(s.last()).drop_last() =~= rest);
        }
    }
}

} // verus!
