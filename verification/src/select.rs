//! Selection of the k-th smallest element by partial partitioning.
use vstd::prelude::*;
use crate::counting::{
    below, is_kth_smallest, kth_smallest, lemma_count_at_least, lemma_count_at_most,
    lemma_count_permutation, lemma_kth_smallest_is, lemma_kth_smallest_is_element,
};
use crate::error::StatsError;

verus! {

/// Positions `lo..=hi` of `s` are fenced: nothing before the window is
/// greater than anything from its start on, and nothing up to its end is
/// greater than anything after it.
pub open spec fn fenced(s: Seq<i64>, lo: int, hi: int) -> bool {
    &&& forall|i: int, j: int| 0 <= i < lo <= j < s.len() ==> s[i] <= s[j]
    &&& forall|i: int, j: int| 0 <= i <= hi < j < s.len() ==> s[i] <= s[j]
}

/// Position `k` of `s` splits it: nothing before `k` is greater than `s[k]`
/// and nothing after it is smaller.
pub open spec fn split_at(s: Seq<i64>, k: int) -> bool {
    &&& 0 <= k < s.len()
    &&& forall|i: int| 0 <= i < k ==> s[i] <= s[k]
    &&& forall|j: int| k < j < s.len() ==> s[k] <= s[j]
}

/// The element at a position that splits the sample is its `k`-th smallest.
pub proof fn lemma_split_is_kth_smallest(s: Seq<i64>, k: int)
    requires
        split_at(s, k),
    ensures
        is_kth_smallest(s, k, s[k]),
{
    let v = s[k];
    lemma_count_at_most(s, k, below(v as int));
    lemma_count_at_least(s, k + 1, below(v + 1));
}

fn exchange(sample: &mut Vec<i64>, i: usize, j: usize)
    requires
        i < old(sample)@.len(),
        j < old(sample)@.len(),
    ensures
        final(sample)@ == old(sample)@.update(i as int, old(sample)@[j as int]).update(
            j as int,
            old(sample)@[i as int],
        ),
        final(sample)@.to_multiset() == old(sample)@.to_multiset(),
{
    let a: i64 = sample[i];
    let b: i64 = sample[j];
    sample.set(i, b);
    sample.set(j, a);
    proof {
        let s0 = old(sample)@;
        let s1 = s0.update(i as int, b);
        vstd::seq_lib::to_multiset_update(s0, i as int, b);
        vstd::seq_lib::to_multiset_update(s1, j as int, a);
        s0.to_multiset_ensures();
        assert(s1.update(j as int, a).to_multiset() =~= s0.to_multiset());
    }
}

/// Rearranges positions `lo..=hi` around the value that stood in the middle
/// of the window and returns where that value came to rest.
fn partition(sample: &mut Vec<i64>, lo: usize, hi: usize) -> (p: usize)
    requires
        lo < hi < old(sample)@.len(),
        fenced(old(sample)@, lo as int, hi as int),
    ensures
        lo <= p <= hi,
        final(sample)@.len() == old(sample)@.len(),
        final(sample)@.to_multiset() == old(sample)@.to_multiset(),
        fenced(final(sample)@, lo as int, hi as int),
        forall|i: int| lo <= i < p ==> final(sample)@[i] <= final(sample)@[p as int],
        forall|j: int| p < j <= hi ==> final(sample)@[p as int] <= final(sample)@[j],
{
    let mid: usize = lo + (hi - lo) / 2;
    exchange(sample, mid, hi);
    let pivot: i64 = sample[hi];
    let mut store: usize = lo;
    let mut scan: usize = lo;
    while scan < hi
        invariant
            lo <= store <= scan <= hi,
            hi < sample@.len(),
            sample@.len() == old(sample)@.len(),
            sample@.to_multiset() == old(sample)@.to_multiset(),
            fenced(sample@, lo as int, hi as int),
            sample@[hi as int] == pivot,
            forall|i: int| lo <= i < store ==> sample@[i] < pivot,
            forall|i: int| store <= i < scan ==> sample@[i] >= pivot,
        decreases hi - scan,
    {
        if sample[scan] < pivot {
            exchange(sample, store, scan);
            store = store + 1;
        }
        scan = scan + 1;
    }
    exchange(sample, store, hi);
    store
}

/// Rearranges `sample` so that position `k` holds its `k`-th smallest element
/// (position 0 holds the minimum) and returns that element.
///
/// Only the part of the sample that can still hold position `k` is
/// partitioned again, so the sample is not sorted as a whole. An empty sample
/// is refused with `EmptyInput`, a position past the end with `OutOfRange`;
/// the sample is then left as it was.
pub fn select(sample: &mut Vec<i64>, k: usize) -> (r: Result<i64, StatsError>)
    ensures
        old(sample)@.len() == 0 ==> r == Err::<i64, StatsError>(StatsError::EmptyInput),
        0 < old(sample)@.len() <= k ==> r == Err::<i64, StatsError>(StatsError::OutOfRange),
        k < old(sample)@.len() ==> r == Ok::<i64, StatsError>(kth_smallest(old(sample)@, k as int)),
        r is Err ==> final(sample)@ == old(sample)@,
        final(sample)@.to_multiset() == old(sample)@.to_multiset(),
        final(sample)@.len() == old(sample)@.len(),
        r is Ok ==> split_at(final(sample)@, k as int) && final(sample)@[k as int] == r->Ok_0,
        r is Ok ==> is_kth_smallest(old(sample)@, k as int, r->Ok_0),
        r is Ok ==> old(sample)@.contains(r->Ok_0),
{
    let n: usize = sample.len();
    if n == 0 {
        return Err(StatsError::EmptyInput);
    }
    if k >= n {
        return Err(StatsError::OutOfRange);
    }
    let mut lo: usize = 0;
    let mut hi: usize = n - 1;
    while lo < hi
        invariant
            sample@.len() == n,
            lo <= k <= hi < n,
            sample@.to_multiset() == old(sample)@.to_multiset(),
            fenced(sample@, lo as int, hi as int),
        decreases hi - lo,
    {
        let p: usize = partition(sample, lo, hi);
        if k < p {
            hi = p - 1;
        } else if k > p {
            lo = p + 1;
        } else {
            lo = p;
            hi = p;
        }
    }
    let v: i64 = sample[k];
    proof {
        lemma_split_is_kth_smallest(sample@, k as int);
        lemma_count_permutation(sample@, old(sample)@, below(v as int));
        lemma_count_permutation(sample@, old(sample)@, below(v + 1));
        lemma_kth_smallest_is(old(sample)@, k as int, v);
        lemma_kth_smallest_is_element(old(sample)@, k as int);
        sample@.to_multiset_ensures();
        old(sample)@.to_multiset_ensures();
    }
    Ok(v)
}

} // verus!
