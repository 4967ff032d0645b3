//! Rank assignment with a choice of how equal values share their ranks.
//!
//! The rank of an element is stated by counting: how many elements of the
//! sample are smaller, how many are equal, and how many of the equal ones
//! stand earlier. A rank is kept as whole units and an optional half, so that
//! the mean rank of a block of equal values is exact.
use vstd::prelude::*;
use crate::counting::{
    below, count_below, count_equal, count_if, lemma_count_at_least, lemma_count_at_most,
    lemma_count_bound, lemma_count_permutation,
};
use crate::error::StatsError;
use crate::sorting::{ascending_pairs, sort_pairs};

verus! {

/// How equal values share the ranks that they occupy together.
#[derive(Clone, Copy, Debug, PartialEq, Eq, Structural)]
pub enum RankTieBreaker {
    /// Each gets the mean of the ranks of the block.
    Average,
    /// Each gets the lowest rank of the block.
    Min,
    /// Each gets the highest rank of the block.
    Max,
    /// They get the ranks of the block in the order in which they stand in
    /// the sample.
    First,
}

/// A rank: `whole` units, and one half more where `half` is set.
#[derive(Clone, Copy, Debug, PartialEq, Eq, Structural)]
pub struct Rank {
    pub whole: usize,
    pub half: bool,
}

impl Rank {
    /// Twice the rank, which is always an integer.
    pub open spec fn twice(self) -> int {
        2 * self.whole + if self.half {
            1int
        } else {
            0int
        }
    }
}

/// The lowest rank of the elements equal to `s[i]`: one more than the number
/// of smaller elements.
pub open spec fn min_rank(s: Seq<i64>, i: int) -> int {
    count_below(s, s[i] as int) as int + 1
}

/// The highest rank of the elements equal to `s[i]`: the number of elements
/// that are not greater.
pub open spec fn max_rank(s: Seq<i64>, i: int) -> int {
    count_below(s, s[i] + 1) as int
}

/// The rank of `s[i]` where equal elements are ranked in the order in which
/// they stand: after the smaller elements and the equal ones before `i`.
pub open spec fn first_rank(s: Seq<i64>, i: int) -> int {
    count_below(s, s[i] as int) + count_equal(s.take(i), s[i] as int) + 1
}

/// Twice the rank of `s[i]` under `policy`.
pub open spec fn twice_rank(s: Seq<i64>, i: int, policy: RankTieBreaker) -> int {
    match policy {
        RankTieBreaker::Average => min_rank(s, i) + max_rank(s, i),
        RankTieBreaker::Min => 2 * min_rank(s, i),
        RankTieBreaker::Max => 2 * max_rank(s, i),
        RankTieBreaker::First => 2 * first_rank(s, i),
    }
}

impl RankTieBreaker {
    /// Twice the rank that falls to sorted position `at` of a block of equal
    /// values at sorted positions `start..end`, all counted from zero.
    pub open spec fn twice_in_block(self, start: int, end: int, at: int) -> int {
        match self {
            RankTieBreaker::Average => start + 1 + end,
            RankTieBreaker::Min => 2 * (start + 1),
            RankTieBreaker::Max => 2 * end,
            RankTieBreaker::First => 2 * (at + 1),
        }
    }

    /// The rank that falls to sorted position `at` of a block of equal values
    /// at sorted positions `start..end`, all counted from zero.
    pub fn rank_in_block(self, start: usize, end: usize, at: usize) -> (r: Rank)
        requires
            start <= at < end,
        ensures
            r.twice() == self.twice_in_block(start as int, end as int, at as int),
    {
        match self {
            RankTieBreaker::Average => {
                let span: usize = end - 1 - start;
                Rank { whole: start + 1 + span / 2, half: span % 2 == 1 }
            },
            RankTieBreaker::Min => Rank { whole: start + 1, half: false },
            RankTieBreaker::Max => Rank { whole: end, half: false },
            RankTieBreaker::First => Rank { whole: at + 1, half: false },
        }
    }
}

/// The sample with each element tagged by its position.
pub open spec fn tagged(s: Seq<i64>) -> Seq<(i64, usize)> {
    Seq::new(s.len(), |j: int| (s[j], j as usize))
}

/// The predicate "stands before the pair `(v, i)`": by value first, by
/// position among equal values.
pub open spec fn before(v: int, i: int) -> spec_fn((i64, usize)) -> bool {
    |e: (i64, usize)| e.0 < v || (e.0 == v && e.1 < i)
}

proof fn lemma_count_prefix<T>(s: Seq<T>, k: int, f: spec_fn(T) -> bool)
    requires
        0 <= k <= s.len(),
        forall|j: int| 0 <= j < k ==> f(#[trigger] s[j]),
        forall|j: int| k <= j < s.len() ==> !f(#[trigger] s[j]),
    ensures
        count_if(s, f) == k,
{
    lemma_count_at_most(s, k, f);
    lemma_count_at_least(s, k, f);
}

/// Among the first `m` tagged elements, those before `(v, i)` are the smaller
/// ones and the equal ones at positions before `i`.
proof fn lemma_count_tagged(s: Seq<i64>, m: int, v: int, i: int)
    requires
        0 <= m <= s.len() <= usize::MAX,
        0 <= i,
    ensures
        count_if(tagged(s).take(m), before(v, i)) == count_below(s.take(m), v) + count_equal(
            s.take(if m < i { m } else { i }),
            v,
        ),
    decreases m,
{
    if m > 0 {
        lemma_count_tagged(s, m - 1, v, i);
        assert(tagged(s).take(m).drop_last() =~= tagged(s).take(m - 1));
        assert(s.take(m).drop_last() =~= s.take(m - 1));
        if m - 1 < i {
            assert(s.take(m) =~= s.take(m - 1).push(s[m - 1]));
        }
    } else {
        assert(s.take(0) =~= Seq::<i64>::empty());
    }
}

/// What the sorted position of a tagged element says of its counts: the block
/// of equal values starts after the smaller elements and ends after the equal
/// ones, and within the block the elements stand by position.
proof fn lemma_block_counts(
    s: Seq<i64>,
    p: Seq<(i64, usize)>,
    start: int,
    end: int,
    at: int,
)
    requires
        s.len() <= usize::MAX,
        p.to_multiset() == tagged(s).to_multiset(),
        p.no_duplicates(),
        ascending_pairs(p),
        0 <= start <= at < end <= p.len(),
        forall|q: int| 0 <= q < start ==> (#[trigger] p[q]).0 < p[at].0,
        forall|q: int| start <= q < end ==> (#[trigger] p[q]).0 == p[at].0,
        forall|q: int| end <= q < p.len() ==> (#[trigger] p[q]).0 > p[at].0,
    ensures
        start == count_below(s, p[at].0 as int),
        end == count_below(s, p[at].0 + 1),
        at == count_below(s, p[at].0 as int) + count_equal(
            s.take(p[at].1 as int),
            p[at].0 as int,
        ),
        p[at].1 < s.len(),
        s[p[at].1 as int] == p[at].0,
{
    let v = p[at].0 as int;
    let i = p[at].1 as int;
    let n = s.len() as int;
    let t = tagged(s);
    p.to_multiset_ensures();
    t.to_multiset_ensures();
    assert(t.take(n) =~= t);
    assert(s.take(n) =~= s);
    assert(s.take(0) =~= Seq::<i64>::empty());
    assert(p.contains(p[at]));
    assert(p.to_multiset().count(p[at]) > 0);
    assert(t.to_multiset().count(p[at]) > 0);
    assert(t.contains(p[at]));
    lemma_count_prefix(p, start, before(v, 0));
    lemma_count_permutation(p, t, before(v, 0));
    lemma_count_tagged(s, n, v, 0);
    lemma_count_prefix(p, end, before(v + 1, 0));
    lemma_count_permutation(p, t, before(v + 1, 0));
    lemma_count_tagged(s, n, v + 1, 0);
    assert forall|q: int| 0 <= q < at implies before(v, i)(#[trigger] p[q]) by {
        assert(p[q] != p[at]);
    }
    assert forall|q: int| at <= q < p.len() implies !before(v, i)(#[trigger] p[q]) by {
        if q > at {
            assert(p[q] != p[at]);
        }
    }
    lemma_count_prefix(p, at, before(v, i));
    lemma_count_permutation(p, t, before(v, i));
    lemma_count_tagged(s, n, v, i);
}

/// Every position of the sample stands somewhere among the sorted pairs.
proof fn lemma_position_is_tagged(s: Seq<i64>, p: Seq<(i64, usize)>, i: int)
    requires
        s.len() <= usize::MAX,
        p.to_multiset() == tagged(s).to_multiset(),
        0 <= i < s.len(),
    ensures
        exists|q: int| 0 <= q < p.len() && (#[trigger] p[q]).1 == i,
{
    let t = tagged(s);
    p.to_multiset_ensures();
    t.to_multiset_ensures();
    assert(t.contains(t[i]));
    assert(t.to_multiset().count(t[i]) > 0);
    assert(p.to_multiset().count(t[i]) > 0);
    assert(p.contains(t[i]));
    let q = choose|q: int| 0 <= q < p.len() && p[q] == t[i];
    assert(p[q].1 == i);
}

/// The rank of every element of `sample` under `policy`, in the order of the
/// sample: the smallest element has rank one, and equal elements share the
/// ranks of their block as `policy` says. The sample is left as it is.
///
/// An empty sample is refused with `EmptyInput`.
pub fn ranks(sample: &Vec<i64>, policy: RankTieBreaker) -> (r: Result<Vec<Rank>, StatsError>)
    ensures
        sample@.len() == 0 ==> r is Err && r->Err_0 == StatsError::EmptyInput,
        sample@.len() > 0 ==> r is Ok && r->Ok_0@.len() == sample@.len(),
        r is Ok ==> forall|i: int|
            0 <= i < sample@.len() ==> (#[trigger] r->Ok_0@[i]).twice() == twice_rank(
                sample@,
                i,
                policy,
            ),
        r is Ok ==> forall|i: int|
            0 <= i < sample@.len() ==> 1 <= (#[trigger] r->Ok_0@[i]).whole <= sample@.len(),
        r is Ok && policy != RankTieBreaker::Average ==> forall|i: int|
            0 <= i < sample@.len() ==> !(#[trigger] r->Ok_0@[i]).half,
        r is Ok && policy == RankTieBreaker::Average ==> twice_total(r->Ok_0@) == sample@.len() * (
            sample@.len() + 1),
{
    let n: usize = sample.len();
    if n == 0 {
        return Err(StatsError::EmptyInput);
    }
    let mut unsorted: Vec<(i64, usize)> = Vec::new();
    let mut out: Vec<Rank> = Vec::new();
    let mut i: usize = 0;
    while i < n
        invariant
            i <= n,
            n == sample@.len(),
            unsorted@ =~= tagged(sample@).take(i as int),
            out@.len() == i,
            forall|j: int| 0 <= j < i ==> (#[trigger] out@[j]).twice() == 0,
        decreases n - i,
    {
        unsorted.push((sample[i], i));
        out.push(Rank { whole: 0, half: false });
        i = i + 1;
    }
    proof {
        assert(unsorted@ =~= tagged(sample@));
        assert(unsorted@.no_duplicates());
        unsorted@.lemma_multiset_has_no_duplicates();
    }
    let pairs: Vec<(i64, usize)> = sort_pairs(&unsorted);
    proof {
        pairs@.lemma_multiset_has_no_duplicates_conv();
        pairs@.to_multiset_ensures();
        tagged(sample@).to_multiset_ensures();
    }
    let mut start: usize = 0;
    while start < n
        invariant
            start <= n,
            n == sample@.len(),
            n == pairs@.len(),
            n == out@.len(),
            pairs@.to_multiset() == tagged(sample@).to_multiset(),
            pairs@.no_duplicates(),
            ascending_pairs(pairs@),
            forall|q: int, b: int|
                0 <= q < start <= b < n ==> (#[trigger] pairs@[q]).0 < (#[trigger] pairs@[b]).0,
            forall|j: int|
                0 <= j < n ==> (#[trigger] out@[j]).twice() == 0 || out@[j].twice() == twice_rank(
                    sample@,
                    j,
                    policy,
                ),
            forall|q: int|
                0 <= q < start ==> (#[trigger] pairs@[q]).1 < n && out@[pairs@[q].1 as int].twice()
                    != 0,
        decreases n - start,
    {
        let v: i64 = pairs[start].0;
        let mut end: usize = start + 1;
        while end < n && pairs[end].0 == v
            invariant
                start < end <= n,
                n == pairs@.len(),
                forall|q: int| start <= q < end ==> (#[trigger] pairs@[q]).0 == v,
            decreases n - end,
        {
            end = end + 1;
        }
        let mut at: usize = start;
        while at < end
            invariant
                start <= at <= end <= n,
                n == sample@.len(),
                n == pairs@.len(),
                n == out@.len(),
                pairs@.to_multiset() == tagged(sample@).to_multiset(),
                pairs@.no_duplicates(),
                ascending_pairs(pairs@),
                forall|q: int| 0 <= q < start ==> (#[trigger] pairs@[q]).0 < v,
                forall|q: int| start <= q < end ==> (#[trigger] pairs@[q]).0 == v,
                forall|q: int| end <= q < n ==> (#[trigger] pairs@[q]).0 > v,
                forall|j: int|
                    0 <= j < n ==> (#[trigger] out@[j]).twice() == 0 || out@[j].twice()
                        == twice_rank(sample@, j, policy),
                forall|q: int|
                    0 <= q < at ==> (#[trigger] pairs@[q]).1 < n && out@[pairs@[q].1 as int].twice()
                        != 0,
            decreases end - at,
        {
            let idx: usize = pairs[at].1;
            let rank: Rank = policy.rank_in_block(start, end, at);
            proof {
                lemma_block_counts(sample@, pairs@, start as int, end as int, at as int);
            }
            out.set(idx, rank);
            at = at + 1;
        }
        start = end;
    }
    proof {
        assert forall|i: int| 0 <= i < n implies (#[trigger] out@[i]).twice() == twice_rank(
            sample@,
            i,
            policy,
        ) by {
            lemma_position_is_tagged(sample@, pairs@, i);
        }
        assert forall|i: int| 0 <= i < n implies 1 <= (#[trigger] out@[i]).whole <= n && (policy
            != RankTieBreaker::Average ==> !out@[i].half) by {
            lemma_rank_bounds(sample@, i, policy);
        }
        if policy == RankTieBreaker::Average {
            lemma_average_ranks_total(sample@, out@);
        }
    }
    Ok(out)
}

/// A longer prefix of a sample holds at least as many elements equal to `v`.
proof fn lemma_count_equal_prefix(s: Seq<i64>, a: int, b: int, v: int)
    requires
        0 <= a <= b <= s.len(),
    ensures
        0 <= count_equal(s.take(a), v) <= count_equal(s.take(b), v),
    decreases b,
{
    if a < b {
        lemma_count_equal_prefix(s, a, b - 1, v);
        assert(s.take(b).drop_last() =~= s.take(b - 1));
    } else if a > 0 {
        lemma_count_equal_prefix(s, a - 1, a - 1, v);
        assert(s.take(a).drop_last() =~= s.take(a - 1));
    }
}

/// Every rank lies between one and the length of the sample, and all but the
/// mean ranks are whole.
pub proof fn lemma_rank_bounds(s: Seq<i64>, i: int, policy: RankTieBreaker)
    requires
        0 <= i < s.len(),
    ensures
        2 <= twice_rank(s, i, policy) <= 2 * s.len(),
        policy != RankTieBreaker::Average ==> twice_rank(s, i, policy) % 2 == 0,
        1 <= min_rank(s, i) <= first_rank(s, i) <= max_rank(s, i) <= s.len(),
{
    let v = s[i] as int;
    let n = s.len() as int;
    lemma_count_bound(s, below(v + 1));
    lemma_count_equal_prefix(s, 0, i, v);
    lemma_count_equal_prefix(s, i + 1, n, v);
    assert(s.take(n) =~= s);
    assert(s.take(i + 1).drop_last() =~= s.take(i));
    assert(s.take(i + 1).last() == s[i]);
}

/// Twice the sum of the ranks of the first `m` elements of `s` under `policy`.
pub open spec fn twice_rank_sum(s: Seq<i64>, m: int, policy: RankTieBreaker) -> int
    decreases m,
{
    if m <= 0 {
        0
    } else {
        twice_rank_sum(s, m - 1, policy) + twice_rank(s, m - 1, policy)
    }
}

/// What one more element at the end adds to the mean ranks of the first `m`
/// elements: each gains a half for the new element being smaller or equal,
/// and another half for it being smaller.
proof fn lemma_average_sum_push(s: Seq<i64>, x: i64, m: int)
    requires
        0 <= m <= s.len(),
    ensures
        twice_rank_sum(s.push(x), m, RankTieBreaker::Average) == twice_rank_sum(
            s,
            m,
            RankTieBreaker::Average,
        ) + 2 * m - count_below(s.take(m), x + 1) - count_below(s.take(m), x as int),
    decreases m,
{
    if m > 0 {
        lemma_average_sum_push(s, x, m - 1);
        let y = s[m - 1];
        assert(s.push(x)[m - 1] == y);
        assert(s.push(x).drop_last() =~= s);
        assert(s.take(m).drop_last() =~= s.take(m - 1));
        assert(s.take(m).last() == y);
    } else {
        assert(s.take(0) =~= Seq::<i64>::empty());
    }
}

/// The mean ranks of a sample of `n` elements add up to `n * (n + 1) / 2`,
/// whatever values are equal.
pub proof fn lemma_average_rank_sum(s: Seq<i64>)
    ensures
        twice_rank_sum(s, s.len() as int, RankTieBreaker::Average) == s.len() * (s.len() + 1),
    decreases s.len(),
{
    let n = s.len() as int;
    if n > 0 {
        let r = s.drop_last();
        let x = s.last();
        assert(r.push(x) =~= s);
        assert(r.take(n - 1) =~= r);
        lemma_average_rank_sum(r);
        lemma_average_sum_push(r, x, n - 1);
        assert((n - 1) * n + 2 * (n - 1) + 2 == n * (n + 1)) by (nonlinear_arith);
    }
}

/// Twice the sum of the ranks in `r`.
pub open spec fn twice_total(r: Seq<Rank>) -> int
    decreases r.len(),
{
    if r.len() == 0 {
        0
    } else {
        twice_total(r.drop_last()) + r.last().twice()
    }
}

proof fn lemma_total_is_rank_sum(s: Seq<i64>, r: Seq<Rank>, m: int, policy: RankTieBreaker)
    requires
        0 <= m <= r.len(),
        forall|i: int| 0 <= i < m ==> (#[trigger] r[i]).twice() == twice_rank(s, i, policy),
    ensures
        twice_total(r.take(m)) == twice_rank_sum(s, m, policy),
    decreases m,
{
    if m > 0 {
        lemma_total_is_rank_sum(s, r, m - 1, policy);
        assert(r.take(m).drop_last() =~= r.take(m - 1));
        assert(r.take(m).last() == r[m - 1]);
    }
}

/// Mean ranks that were assigned to a sample of `n` elements add up to
/// `n * (n + 1) / 2`.
pub proof fn lemma_average_ranks_total(s: Seq<i64>, r: Seq<Rank>)
    requires
        r.len() == s.len(),
        forall|i: int|
            0 <= i < s.len() ==> (#[trigger] r[i]).twice() == twice_rank(
                s,
                i,
                RankTieBreaker::Average,
            ),
    ensures
        twice_total(r) == s.len() * (s.len() + 1),
{
    lemma_total_is_rank_sum(s, r, r.len() as int, RankTieBreaker::Average);
    assert(r.take(r.len() as int) =~= r);
    lemma_average_rank_sum(s);
}

} // verus!
