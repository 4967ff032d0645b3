//! The counting model that all contracts of this crate are stated over.
//!
//! A sample is viewed as a `Seq<i64>`. Its order statistics are characterised
//! by how many elements lie below a bound, which does not depend on the order
//! of the elements.
use vstd::prelude::*;

verus! {

/// How many elements of `s` satisfy `f`.
pub open spec fn count_if<T>(s: Seq<T>, f: spec_fn(T) -> bool) -> nat
    decreases s.len(),
{
    if s.len() == 0 {
        0
    } else {
        count_if(s.drop_last(), f) + if f(s.last()) {
            1nat
        } else {
            0nat
        }
    }
}

/// The predicate "is less than `v`".
pub open spec fn below(v: int) -> spec_fn(i64) -> bool {
    |x: i64| x < v
}

/// How many elements of `s` are less than `v`.
pub open spec fn count_below(s: Seq<i64>, v: int) -> nat {
    count_if(s, below(v))
}

/// How many elements of `s` are equal to `v`.
pub open spec fn count_equal(s: Seq<i64>, v: int) -> int {
    count_below(s, v + 1) - count_below(s, v)
}

/// `v` is the `k`-th smallest element of `s`, counting from zero: at most `k`
/// elements are less than `v`, and more than `k` are less than or equal to it.
pub open spec fn is_kth_smallest(s: Seq<i64>, k: int, v: i64) -> bool {
    count_below(s, v as int) <= k < count_below(s, v + 1)
}

/// The `k`-th smallest element of `s`, counting from zero.
pub open spec fn kth_smallest(s: Seq<i64>, k: int) -> i64 {
    choose|v: i64| is_kth_smallest(s, k, v)
}

/// A count never exceeds the length.
pub proof fn lemma_count_bound<T>(s: Seq<T>, f: spec_fn(T) -> bool)
    ensures
        count_if(s, f) <= s.len(),
    decreases s.len(),
{
    if s.len() > 0 {
        lemma_count_bound(s.drop_last(), f);
    }
}

/// Removing one element takes one off the count exactly when it satisfies `f`.
pub proof fn lemma_count_remove<T>(s: Seq<T>, i: int, f: spec_fn(T) -> bool)
    requires
        0 <= i < s.len(),
    ensures
        count_if(s, f) == count_if(s.remove(i), f) + if f(s[i]) { 1nat } else { 0nat },
    decreases s.len(),
{
    if i == s.len() - 1 {
        assert(s.remove(i) =~= s.drop_last());
    } else {
        lemma_count_remove(s.drop_last(), i, f);
        assert(s.remove(i).drop_last() =~= s.drop_last().remove(i));
        assert(s.remove(i).last() == s.last());
    }
}

/// Counts do not depend on the order of the elements.
pub proof fn lemma_count_permutation<T>(a: Seq<T>, b: Seq<T>, f: spec_fn(T) -> bool)
    requires
        a.to_multiset() == b.to_multiset(),
    ensures
        count_if(a, f) == count_if(b, f),
    decreases a.len(),
{
    a.to_multiset_ensures();
    b.to_multiset_ensures();
    if a.len() > 0 {
        let x = a.last();
        assert(a.contains(x));
        assert(b.to_multiset().count(x) > 0);
        assert(b.contains(x));
        let j = choose|j: int| 0 <= j < b.len() && b[j] == x;
        assert(a.remove(a.len() - 1) =~= a.drop_last());
        assert(a.drop_last().to_multiset() == b.remove(j).to_multiset());
        lemma_count_permutation(a.drop_last(), b.remove(j), f);
        lemma_count_remove(b, j, f);
    }
}

/// If no element from position `k` on satisfies `f`, at most `k` elements do.
pub proof fn lemma_count_at_most<T>(s: Seq<T>, k: int, f: spec_fn(T) -> bool)
    requires
        0 <= k <= s.len(),
        forall|j: int| k <= j < s.len() ==> !f(#[trigger] s[j]),
    ensures
        count_if(s, f) <= k,
    decreases s.len(),
{
    if s.len() > k {
        lemma_count_at_most(s.drop_last(), k, f);
    } else {
        lemma_count_bound(s, f);
    }
}

/// If every element before position `k` satisfies `f`, at least `k` elements do.
pub proof fn lemma_count_at_least<T>(s: Seq<T>, k: int, f: spec_fn(T) -> bool)
    requires
        0 <= k <= s.len(),
        forall|j: int| 0 <= j < k ==> f(#[trigger] s[j]),
    ensures
        count_if(s, f) >= k,
    decreases s.len(),
{
    if s.len() > k {
        lemma_count_at_least(s.drop_last(), k, f);
    } else if s.len() > 0 {
        lemma_count_at_least(s.drop_last(), k - 1, f);
    }
}

/// A larger bound has at least as many elements below it.
pub proof fn lemma_count_below_monotone(s: Seq<i64>, v: int, w: int)
    requires
        v <= w,
    ensures
        count_below(s, v) <= count_below(s, w),
    decreases s.len(),
{
    if s.len() > 0 {
        lemma_count_below_monotone(s.drop_last(), v, w);
    }
}

/// Nothing lies below the least `i64`, and everything lies below any bound
/// above the greatest.
pub proof fn lemma_count_below_extremes(s: Seq<i64>)
    ensures
        count_below(s, i64::MIN as int) == 0,
        count_below(s, i64::MAX + 1) == s.len(),
    decreases s.len(),
{
    if s.len() > 0 {
        lemma_count_below_extremes(s.drop_last());
    }
}

/// At most one value is the `k`-th smallest.
pub proof fn lemma_kth_smallest_unique(s: Seq<i64>, k: int, v: i64, w: i64)
    requires
        is_kth_smallest(s, k, v),
        is_kth_smallest(s, k, w),
    ensures
        v == w,
{
    if v < w {
        lemma_count_below_monotone(s, v + 1, w as int);
    } else if w < v {
        lemma_count_below_monotone(s, w + 1, v as int);
    }
}

/// A value that meets the counting condition is the `k`-th smallest.
pub proof fn lemma_kth_smallest_is(s: Seq<i64>, k: int, v: i64)
    requires
        is_kth_smallest(s, k, v),
    ensures
        kth_smallest(s, k) == v,
{
    lemma_kth_smallest_unique(s, k, v, kth_smallest(s, k));
}

proof fn lemma_kth_smallest_search(s: Seq<i64>, k: int, v: int)
    requires
        0 <= k < s.len(),
        i64::MIN <= v <= i64::MAX + 1,
        count_below(s, v) <= k,
    ensures
        exists|w: i64| is_kth_smallest(s, k, w),
    decreases i64::MAX + 1 - v,
{
    lemma_count_below_extremes(s);
    if count_below(s, v + 1) > k {
        assert(is_kth_smallest(s, k, v as i64));
    } else {
        lemma_count_below_monotone(s, v + 1, i64::MAX + 1);
        lemma_kth_smallest_search(s, k, v + 1);
    }
}

/// Every position of a sample has a `k`-th smallest element.
pub proof fn lemma_kth_smallest_exists(s: Seq<i64>, k: int)
    requires
        0 <= k < s.len(),
    ensures
        is_kth_smallest(s, k, kth_smallest(s, k)),
{
    lemma_count_below_extremes(s);
    lemma_kth_smallest_search(s, k, i64::MIN as int);
}

/// The `k`-th smallest element does not depend on the order of the elements.
pub proof fn lemma_kth_smallest_permutation(a: Seq<i64>, b: Seq<i64>, k: int)
    requires
        a.to_multiset() == b.to_multiset(),
        0 <= k < a.len(),
    ensures
        kth_smallest(a, k) == kth_smallest(b, k),
{
    let v = kth_smallest(a, k);
    lemma_kth_smallest_exists(a, k);
    lemma_count_permutation(a, b, below(v as int));
    lemma_count_permutation(a, b, below(v + 1));
    lemma_kth_smallest_is(b, k, v);
}

/// Order statistics ascend with the position.
pub proof fn lemma_kth_smallest_monotone(s: Seq<i64>, j: int, k: int)
    requires
        0 <= j <= k < s.len(),
    ensures
        kth_smallest(s, j) <= kth_smallest(s, k),
{
    lemma_kth_smallest_exists(s, j);
    lemma_kth_smallest_exists(s, k);
    let v = kth_smallest(s, j);
    let w = kth_smallest(s, k);
    if w < v {
        lemma_count_below_monotone(s, w + 1, v as int);
    }
}

proof fn lemma_count_equal_absent(s: Seq<i64>, v: int)
    requires
        forall|i: int| 0 <= i < s.len() ==> s[i] != v,
    ensures
        count_equal(s, v) == 0,
    decreases s.len(),
{
    if s.len() > 0 {
        lemma_count_equal_absent(s.drop_last(), v);
    }
}

/// The `k`-th smallest element is an element of the sample.
pub proof fn lemma_kth_smallest_is_element(s: Seq<i64>, k: int)
    requires
        0 <= k < s.len(),
    ensures
        s.contains(kth_smallest(s, k)),
{
    let v = kth_smallest(s, k);
    lemma_kth_smallest_exists(s, k);
    if !s.contains(v) {
        lemma_count_equal_absent(s, v as int);
    }
}

proof fn lemma_count_none<T>(s: Seq<T>, f: spec_fn(T) -> bool)
    requires
        count_if(s, f) == 0,
    ensures
        forall|i: int| 0 <= i < s.len() ==> !f(#[trigger] s[i]),
    decreases s.len(),
{
    if s.len() > 0 {
        lemma_count_none(s.drop_last(), f);
        assert forall|i: int| 0 <= i < s.len() implies !f(#[trigger] s[i]) by {
            if i < s.len() - 1 {
                assert(s.drop_last()[i] == s[i]);
            }
        }
    }
}

proof fn lemma_count_all<T>(s: Seq<T>, f: spec_fn(T) -> bool)
    requires
        count_if(s, f) == s.len(),
    ensures
        forall|i: int| 0 <= i < s.len() ==> f(#[trigger] s[i]),
    decreases s.len(),
{
    if s.len() > 0 {
        lemma_count_bound(s.drop_last(), f);
        lemma_count_all(s.drop_last(), f);
        assert forall|i: int| 0 <= i < s.len() implies f(#[trigger] s[i]) by {
            if i < s.len() - 1 {
                assert(s.drop_last()[i] == s[i]);
            }
        }
    }
}

/// The first order statistic is the minimum of the sample and the last one
/// its maximum.
pub proof fn lemma_kth_smallest_extremes(s: Seq<i64>)
    requires
        0 < s.len(),
    ensures
        forall|i: int|
            0 <= i < s.len() ==> kth_smallest(s, 0) <= #[trigger] s[i] <= kth_smallest(
                s,
                s.len() - 1,
            ),
        s.contains(kth_smallest(s, 0)),
        s.contains(kth_smallest(s, s.len() - 1)),
{
    let least = kth_smallest(s, 0);
    let greatest = kth_smallest(s, s.len() - 1);
    lemma_kth_smallest_exists(s, 0);
    lemma_kth_smallest_exists(s, s.len() - 1);
    lemma_kth_smallest_is_element(s, 0);
    lemma_kth_smallest_is_element(s, s.len() - 1);
    lemma_count_none(s, below(least as int));
    lemma_count_bound(s, below(greatest + 1));
    lemma_count_all(s, below(greatest + 1));
}

} // verus!
