//! Order statistics by rank, and quantiles with linear interpolation.
//!
//! A probability is a fraction of two integers, and a quantile is returned as
//! an exact fraction over the same denominator, so that no rounding enters
//! the result.
use vstd::prelude::*;
use crate::counting::{
    is_kth_smallest, kth_smallest, lemma_kth_smallest_extremes, lemma_kth_smallest_is,
    lemma_kth_smallest_is_element, lemma_kth_smallest_monotone, lemma_kth_smallest_permutation,
};
use crate::error::StatsError;
use crate::select::{lemma_split_is_kth_smallest, select, split_at};

verus! {

/// A non-negative fraction `num / den`. A zero denominator stands for a value
/// that is not a number.
#[derive(Clone, Copy, Debug, PartialEq, Eq, Structural)]
pub struct Fraction {
    pub num: u64,
    pub den: u64,
}

impl Fraction {
    /// The fraction lies in the closed interval from 0 to 1.
    pub open spec fn is_probability(self) -> bool {
        0 < self.den && self.num <= self.den
    }

    pub fn new(num: u64, den: u64) -> (f: Fraction)
        ensures
            f.num == num,
            f.den == den,
    {
        Fraction { num, den }
    }
}

/// An exact quantile: the value `numer / denom`, with `denom > 0`.
#[derive(Clone, Copy, Debug, PartialEq, Eq, Structural)]
pub struct Quantile {
    pub numer: i128,
    pub denom: u64,
}

impl Quantile {
    /// The denominator is positive, so that the fraction has a value.
    pub open spec fn wf(self) -> bool {
        0 < self.denom
    }
}

/// The continuous position of the quantile at `t` in a sample of `n` elements,
/// counted from zero and scaled by the denominator of `t`.
pub open spec fn scaled_position(n: int, t: Fraction) -> int {
    (n - 1) * t.num
}

/// The position of the order statistic at or just before the quantile.
pub open spec fn lower_index(n: int, t: Fraction) -> int {
    scaled_position(n, t) / (t.den as int)
}

/// How far the quantile lies past `lower_index`, scaled by the denominator.
pub open spec fn weight(n: int, t: Fraction) -> int {
    scaled_position(n, t) % (t.den as int)
}

/// The position of the order statistic at or just after the quantile.
pub open spec fn upper_index(n: int, t: Fraction) -> int {
    if weight(n, t) == 0 {
        lower_index(n, t)
    } else {
        lower_index(n, t) + 1
    }
}

/// The quantile of `s` at `t`, scaled by the denominator of `t`: the two
/// neighbouring order statistics, interpolated linearly.
pub open spec fn quantile_numer(s: Seq<i64>, t: Fraction) -> int {
    let n = s.len() as int;
    kth_smallest(s, lower_index(n, t)) * (t.den - weight(n, t)) + kth_smallest(
        s,
        upper_index(n, t),
    ) * weight(n, t)
}

/// The neighbouring positions of a quantile lie inside the sample.
pub proof fn lemma_indices_in_range(n: int, t: Fraction)
    requires
        0 < n,
        t.is_probability(),
    ensures
        0 <= lower_index(n, t) <= upper_index(n, t) < n,
        0 <= weight(n, t) < t.den,
        scaled_position(n, t) == t.den * lower_index(n, t) + weight(n, t),
{
    let h = scaled_position(n, t);
    let d = t.den as int;
    assert(0 <= h <= (n - 1) * d) by (nonlinear_arith)
        requires
            h == (n - 1) * t.num,
            0 <= t.num <= d,
            0 < n,
    ;
    assert(0 <= h / d <= n - 1 && 0 <= h % d < d && h == d * (h / d) + h % d
        && (h / d == n - 1 ==> h % d == 0)) by (nonlinear_arith)
        requires
            0 <= h <= (n - 1) * d,
            0 < d,
    ;
}

proof fn lemma_interpolation_fits(a: int, b: int, d: int, w: int)
    requires
        i64::MIN <= a <= i64::MAX,
        i64::MIN <= b <= i64::MAX,
        0 <= w < d <= u64::MAX,
    ensures
        i128::MIN <= a * (d - w) <= i128::MAX,
        i128::MIN <= b * w <= i128::MAX,
        i128::MIN <= a * (d - w) + b * w <= i128::MAX,
{
    assert(-0x8000_0000_0000_0000 * (d - w) <= a * (d - w) <= 0x8000_0000_0000_0000 * (d - w))
        by (nonlinear_arith)
        requires
            -0x8000_0000_0000_0000 <= a <= 0x8000_0000_0000_0000,
            0 <= d - w,
    ;
    assert(-0x8000_0000_0000_0000 * w <= b * w <= 0x8000_0000_0000_0000 * w) by (nonlinear_arith)
        requires
            -0x8000_0000_0000_0000 <= b <= 0x8000_0000_0000_0000,
            0 <= w,
    ;
}

/// The `k`-th order statistic of `sample`, with `k` counted from one: `k = 1`
/// gives the minimum, `k = n` the maximum. The sample is rearranged.
pub fn order_statistic(sample: &mut Vec<i64>, k: usize) -> (r: Result<i64, StatsError>)
    ensures
        old(sample)@.len() == 0 ==> r == Err::<i64, StatsError>(StatsError::EmptyInput),
        old(sample)@.len() > 0 && (k == 0 || k > old(sample)@.len()) ==> r == Err::<
            i64,
            StatsError,
        >(StatsError::OutOfRange),
        1 <= k <= old(sample)@.len() ==> r == Ok::<i64, StatsError>(
            kth_smallest(old(sample)@, k - 1),
        ) && is_kth_smallest(old(sample)@, k - 1, r->Ok_0) && old(sample)@.contains(r->Ok_0),
        r is Err ==> final(sample)@ == old(sample)@,
        final(sample)@.to_multiset() == old(sample)@.to_multiset(),
        final(sample)@.len() == old(sample)@.len(),
{
    if sample.len() == 0 {
        Err(StatsError::EmptyInput)
    } else if k == 0 {
        Err(StatsError::OutOfRange)
    } else {
        select(sample, k - 1)
    }
}

/// The quantile of `sample` at the probability `t`, between the order
/// statistics next to the position `(n - 1) * t`. The sample is rearranged.
///
/// Refused with `BadParams` where the sample is empty or `t` is no
/// probability; the sample is then left as it was.
pub fn quantile(sample: &mut Vec<i64>, t: Fraction) -> (r: Result<Quantile, StatsError>)
    ensures
        old(sample)@.len() == 0 || !t.is_probability() ==> r == Err::<Quantile, StatsError>(
            StatsError::BadParams,
        ),
        old(sample)@.len() > 0 && t.is_probability() ==> r is Ok && r->Ok_0.denom == t.den
            && r->Ok_0.numer == quantile_numer(old(sample)@, t) && r->Ok_0.wf(),
        old(sample)@.len() == 1 && t.is_probability() ==> r->Ok_0.numer == old(sample)@[0]
            * t.den,
        r is Ok ==> kth_smallest(old(sample)@, 0) * t.den <= r->Ok_0.numer <= kth_smallest(
            old(sample)@,
            old(sample)@.len() - 1,
        ) * t.den,
        r is Err ==> final(sample)@ == old(sample)@,
        final(sample)@.to_multiset() == old(sample)@.to_multiset(),
        final(sample)@.len() == old(sample)@.len(),
{
    let n: usize = sample.len();
    if n == 0 || t.den == 0 || t.num > t.den {
        return Err(StatsError::BadParams);
    }
    proof {
        lemma_indices_in_range(n as int, t);
        assert(0 <= (n - 1) * t.num <= 0xffff_ffff_ffff_ffff * 0xffff_ffff_ffff_ffff)
            by (nonlinear_arith)
            requires
                0 <= n - 1 <= 0xffff_ffff_ffff_ffff,
                0 <= t.num <= 0xffff_ffff_ffff_ffff,
        ;
    }
    let h: u128 = ((n - 1) as u128) * (t.num as u128);
    let lo: usize = (h / (t.den as u128)) as usize;
    let w: u64 = (h % (t.den as u128)) as u64;
    let lower: i64 = match select(sample, lo) {
        Ok(v) => v,
        Err(e) => {
            return Err(e);
        },
    };
    let ghost mid = sample@;
    let upper: i64 = if w == 0 {
        lower
    } else {
        match select(sample, lo + 1) {
            Ok(v) => v,
            Err(e) => {
                return Err(e);
            },
        }
    };
    proof {
        old(sample)@.to_multiset_ensures();
        mid.to_multiset_ensures();
        if w != 0 {
            lemma_kth_smallest_permutation(mid, old(sample)@, lo + 1);
        }
        lemma_interpolation_fits(lower as int, upper as int, t.den as int, w as int);
        if n == 1 {
            lemma_quantile_of_single(old(sample)@, t);
        }
        lemma_quantile_between_extremes(old(sample)@, t);
    }
    let numer: i128 = (lower as i128) * ((t.den - w) as i128) + (upper as i128) * (w as i128);
    Ok(Quantile { numer, denom: t.den })
}

/// The median of `sample`: its quantile at one half.
pub fn median(sample: &mut Vec<i64>) -> (r: Result<Quantile, StatsError>)
    ensures
        old(sample)@.len() == 0 ==> r == Err::<Quantile, StatsError>(StatsError::BadParams),
        old(sample)@.len() > 0 ==> r is Ok && r->Ok_0.denom == 2 && r->Ok_0.numer
            == quantile_numer(old(sample)@, (Fraction { num: 1, den: 2 })),
        r is Err ==> final(sample)@ == old(sample)@,
        final(sample)@.to_multiset() == old(sample)@.to_multiset(),
        final(sample)@.len() == old(sample)@.len(),
{
    quantile(sample, Fraction { num: 1, den: 2 })
}

/// The percentile `p` of `sample`: its quantile at `p / 100`.
///
/// Refused with `BadParams` where `p` is above 100 or the sample is empty.
pub fn percentile(sample: &mut Vec<i64>, p: u64) -> (r: Result<Quantile, StatsError>)
    ensures
        old(sample)@.len() == 0 || p > 100 ==> r == Err::<Quantile, StatsError>(
            StatsError::BadParams,
        ),
        old(sample)@.len() > 0 && p <= 100 ==> r is Ok && r->Ok_0.denom == 100 && r->Ok_0.numer
            == quantile_numer(old(sample)@, (Fraction { num: p, den: 100 })),
        r is Err ==> final(sample)@ == old(sample)@,
        final(sample)@.to_multiset() == old(sample)@.to_multiset(),
        final(sample)@.len() == old(sample)@.len(),
{
    quantile(sample, Fraction { num: p, den: 100 })
}

/// The lower quartile of `sample`: its quantile at one quarter.
pub fn lower_quartile(sample: &mut Vec<i64>) -> (r: Result<Quantile, StatsError>)
    ensures
        old(sample)@.len() == 0 ==> r == Err::<Quantile, StatsError>(StatsError::BadParams),
        old(sample)@.len() > 0 ==> r is Ok && r->Ok_0.denom == 4 && r->Ok_0.numer
            == quantile_numer(old(sample)@, (Fraction { num: 1, den: 4 })),
        r is Err ==> final(sample)@ == old(sample)@,
        final(sample)@.to_multiset() == old(sample)@.to_multiset(),
        final(sample)@.len() == old(sample)@.len(),
{
    quantile(sample, Fraction { num: 1, den: 4 })
}

/// The upper quartile of `sample`: its quantile at three quarters.
pub fn upper_quartile(sample: &mut Vec<i64>) -> (r: Result<Quantile, StatsError>)
    ensures
        old(sample)@.len() == 0 ==> r == Err::<Quantile, StatsError>(StatsError::BadParams),
        old(sample)@.len() > 0 ==> r is Ok && r->Ok_0.denom == 4 && r->Ok_0.numer
            == quantile_numer(old(sample)@, (Fraction { num: 3, den: 4 })),
        r is Err ==> final(sample)@ == old(sample)@,
        final(sample)@.to_multiset() == old(sample)@.to_multiset(),
        final(sample)@.len() == old(sample)@.len(),
{
    quantile(sample, Fraction { num: 3, den: 4 })
}

/// The `k`-th order statistic of `sample`, with `k` counted from one, taken
/// on a copy: the sample keeps its order.
pub fn order_statistic_of(sample: &Vec<i64>, k: usize) -> (r: Result<i64, StatsError>)
    ensures
        sample@.len() == 0 ==> r == Err::<i64, StatsError>(StatsError::EmptyInput),
        sample@.len() > 0 && (k == 0 || k > sample@.len()) ==> r == Err::<i64, StatsError>(
            StatsError::OutOfRange,
        ),
        1 <= k <= sample@.len() ==> r == Ok::<i64, StatsError>(kth_smallest(sample@, k - 1)),
{
    let mut copy: Vec<i64> = sample.clone();
    order_statistic(&mut copy, k)
}

/// The quantile of `sample` at the probability `t`, taken on a copy: the
/// sample keeps its order.
pub fn quantile_of(sample: &Vec<i64>, t: Fraction) -> (r: Result<Quantile, StatsError>)
    ensures
        sample@.len() == 0 || !t.is_probability() ==> r == Err::<Quantile, StatsError>(
            StatsError::BadParams,
        ),
        sample@.len() > 0 && t.is_probability() ==> r is Ok && r->Ok_0.denom == t.den
            && r->Ok_0.numer == quantile_numer(sample@, t),
{
    let mut copy: Vec<i64> = sample.clone();
    quantile(&mut copy, t)
}

/// The spread between the quartiles of `sample`: its upper quartile less its
/// lower quartile, which is never negative. The sample is rearranged.
pub fn interquartile_range(sample: &mut Vec<i64>) -> (r: Result<Quantile, StatsError>)
    ensures
        old(sample)@.len() == 0 ==> r == Err::<Quantile, StatsError>(StatsError::BadParams),
        old(sample)@.len() > 0 ==> r is Ok && r->Ok_0.denom == 4 && r->Ok_0.numer
            == quantile_numer(old(sample)@, (Fraction { num: 3, den: 4 })) - quantile_numer(
            old(sample)@,
            (Fraction { num: 1, den: 4 }),
        ) && r->Ok_0.numer >= 0,
        r is Err ==> final(sample)@ == old(sample)@,
        final(sample)@.to_multiset() == old(sample)@.to_multiset(),
        final(sample)@.len() == old(sample)@.len(),
{
    let upper: Quantile = match upper_quartile(sample) {
        Ok(q) => q,
        Err(e) => {
            return Err(e);
        },
    };
    let ghost mid = sample@;
    let lower: Quantile = match lower_quartile(sample) {
        Ok(q) => q,
        Err(e) => {
            return Err(e);
        },
    };
    proof {
        let s = old(sample)@;
        let quarter = Fraction { num: 1, den: 4 };
        let three_quarters = Fraction { num: 3, den: 4 };
        s.to_multiset_ensures();
        mid.to_multiset_ensures();
        lemma_quantile_permutation(mid, s, quarter);
        lemma_quantile_within(s, quarter, i64::MIN as int, i64::MAX as int);
        lemma_quantile_within(s, three_quarters, i64::MIN as int, i64::MAX as int);
        lemma_quantile_monotone(s, quarter, three_quarters);
    }
    Ok(Quantile { numer: upper.numer - lower.numer, denom: 4 })
}

/// A quantile does not depend on the order of the elements.
pub proof fn lemma_quantile_permutation(a: Seq<i64>, b: Seq<i64>, t: Fraction)
    requires
        a.to_multiset() == b.to_multiset(),
        0 < a.len(),
        t.is_probability(),
    ensures
        quantile_numer(a, t) == quantile_numer(b, t),
{
    a.to_multiset_ensures();
    b.to_multiset_ensures();
    let n = a.len() as int;
    lemma_indices_in_range(n, t);
    lemma_kth_smallest_permutation(a, b, lower_index(n, t));
    lemma_kth_smallest_permutation(a, b, upper_index(n, t));
}

/// Every quantile of a sample of one element is that element.
pub proof fn lemma_quantile_of_single(s: Seq<i64>, t: Fraction)
    requires
        s.len() == 1,
        t.is_probability(),
    ensures
        quantile_numer(s, t) == s[0] * t.den,
{
    lemma_indices_in_range(1, t);
    assert(split_at(s, 0));
    lemma_split_is_kth_smallest(s, 0);
    lemma_kth_smallest_is(s, 0, s[0]);
}

proof fn lemma_interpolation_between(x: int, y: int, d: int, w: int)
    requires
        x <= y,
        0 <= w <= d,
    ensures
        x * d <= x * (d - w) + y * w <= y * d,
{
    assert(x * (d - w) + y * w - x * d == (y - x) * w) by (nonlinear_arith);
    assert(y * d - (x * (d - w) + y * w) == (y - x) * (d - w)) by (nonlinear_arith);
    assert(0 <= (y - x) * w) by (nonlinear_arith)
        requires
            0 <= y - x,
            0 <= w,
    ;
    assert(0 <= (y - x) * (d - w)) by (nonlinear_arith)
        requires
            0 <= y - x,
            0 <= d - w,
    ;
}

/// Every quantile lies within any bounds that hold all elements of the
/// sample, and so between its minimum and its maximum.
pub proof fn lemma_quantile_within(s: Seq<i64>, t: Fraction, least: int, greatest: int)
    requires
        0 < s.len(),
        t.is_probability(),
        forall|i: int| 0 <= i < s.len() ==> least <= #[trigger] s[i] <= greatest,
    ensures
        least * t.den <= quantile_numer(s, t) <= greatest * t.den,
{
    let n = s.len() as int;
    lemma_indices_in_range(n, t);
    let x = kth_smallest(s, lower_index(n, t)) as int;
    let y = kth_smallest(s, upper_index(n, t)) as int;
    let d = t.den as int;
    let w = weight(n, t);
    lemma_kth_smallest_is_element(s, lower_index(n, t));
    lemma_kth_smallest_is_element(s, upper_index(n, t));
    lemma_kth_smallest_monotone(s, lower_index(n, t), upper_index(n, t));
    lemma_interpolation_between(x, y, d, w);
    assert(least * d <= x * d && y * d <= greatest * d) by (nonlinear_arith)
        requires
            least <= x,
            y <= greatest,
            0 < d,
    ;
}

/// Every quantile lies between the minimum and the maximum of the sample,
/// its first and its last order statistic.
pub proof fn lemma_quantile_between_extremes(s: Seq<i64>, t: Fraction)
    requires
        0 < s.len(),
        t.is_probability(),
    ensures
        kth_smallest(s, 0) * t.den <= quantile_numer(s, t) <= kth_smallest(s, s.len() - 1)
            * t.den,
{
    lemma_kth_smallest_extremes(s);
    lemma_quantile_within(s, t, kth_smallest(s, 0) as int, kth_smallest(s, s.len() - 1) as int);
}

proof fn lemma_cross_step(q1: int, q2: int, y1: int, x2: int, d1: int, d2: int)
    requires
        q1 <= y1 * d1,
        x2 * d2 <= q2,
        y1 <= x2,
        0 < d1,
        0 < d2,
    ensures
        q1 * d2 <= q2 * d1,
{
    assert(q1 * d2 <= (y1 * d1) * d2) by (nonlinear_arith)
        requires
            q1 <= y1 * d1,
            0 < d2,
    ;
    assert((y1 * d1) * d2 <= (x2 * d2) * d1) by (nonlinear_arith)
        requires
            y1 <= x2,
            0 < d1,
            0 < d2,
    ;
    assert((x2 * d2) * d1 <= q2 * d1) by (nonlinear_arith)
        requires
            x2 * d2 <= q2,
            0 < d1,
    ;
}

proof fn lemma_cross_weights(x: int, y: int, d1: int, w1: int, d2: int, w2: int)
    requires
        x <= y,
        w1 * d2 <= w2 * d1,
    ensures
        (x * (d1 - w1) + y * w1) * d2 <= (x * (d2 - w2) + y * w2) * d1,
{
    let z = y - x;
    let a = x * (d1 - w1) + y * w1;
    let b = x * (d2 - w2) + y * w2;
    assert(a == x * d1 + z * w1) by (nonlinear_arith)
        requires
            a == x * (d1 - w1) + y * w1,
            z == y - x,
    ;
    assert(b == x * d2 + z * w2) by (nonlinear_arith)
        requires
            b == x * (d2 - w2) + y * w2,
            z == y - x,
    ;
    assert(a * d2 == (x * d1) * d2 + (z * w1) * d2) by (nonlinear_arith)
        requires
            a == x * d1 + z * w1,
    ;
    assert(b * d1 == (x * d2) * d1 + (z * w2) * d1) by (nonlinear_arith)
        requires
            b == x * d2 + z * w2,
    ;
    assert((x * d1) * d2 == (x * d2) * d1) by (nonlinear_arith);
    assert((z * w1) * d2 == z * (w1 * d2)) by (nonlinear_arith);
    assert((z * w2) * d1 == z * (w2 * d1)) by (nonlinear_arith);
    assert(z * (w1 * d2) <= z * (w2 * d1)) by (nonlinear_arith)
        requires
            0 <= z,
            w1 * d2 <= w2 * d1,
    ;
}

proof fn lemma_positions_ordered(h1: int, d1: int, l1: int, w1: int, h2: int, d2: int, l2: int, w2: int)
    requires
        h1 == d1 * l1 + w1,
        h2 == d2 * l2 + w2,
        0 <= w1 < d1,
        0 <= w2 < d2,
        h1 * d2 <= h2 * d1,
    ensures
        l1 <= l2,
        l1 == l2 ==> w1 * d2 <= w2 * d1,
{
    assert(h1 * d2 == (d1 * d2) * l1 + w1 * d2) by (nonlinear_arith)
        requires
            h1 == d1 * l1 + w1,
    ;
    assert(h2 * d1 == (d1 * d2) * l2 + w2 * d1) by (nonlinear_arith)
        requires
            h2 == d2 * l2 + w2,
    ;
    assert(0 <= w1 * d2 && w2 * d1 < d1 * d2) by (nonlinear_arith)
        requires
            0 <= w1,
            0 < d2,
            w2 < d2,
            0 < d1,
    ;
    if l1 > l2 {
        assert((d1 * d2) * l1 >= (d1 * d2) * l2 + d1 * d2) by (nonlinear_arith)
            requires
                l1 >= l2 + 1,
                0 < d1 * d2,
        ;
    }
}

/// Quantiles ascend with the probability: where `t1 <= t2`, the quantile at
/// `t1` is not greater than the quantile at `t2`.
pub proof fn lemma_quantile_monotone(s: Seq<i64>, t1: Fraction, t2: Fraction)
    requires
        0 < s.len(),
        t1.is_probability(),
        t2.is_probability(),
        t1.num * t2.den <= t2.num * t1.den,
    ensures
        quantile_numer(s, t1) * t2.den <= quantile_numer(s, t2) * t1.den,
{
    let n = s.len() as int;
    let d1 = t1.den as int;
    let d2 = t2.den as int;
    let h1 = scaled_position(n, t1);
    let h2 = scaled_position(n, t2);
    let l1 = lower_index(n, t1);
    let l2 = lower_index(n, t2);
    let u1 = upper_index(n, t1);
    let u2 = upper_index(n, t2);
    let w1 = weight(n, t1);
    let w2 = weight(n, t2);
    lemma_indices_in_range(n, t1);
    lemma_indices_in_range(n, t2);
    assert(h1 * d2 <= h2 * d1) by (nonlinear_arith)
        requires
            h1 == (n - 1) * t1.num,
            h2 == (n - 1) * t2.num,
            t1.num * d2 <= t2.num * d1,
            0 <= n - 1,
    ;
    lemma_positions_ordered(h1, d1, l1, w1, h2, d2, l2, w2);
    let x1 = kth_smallest(s, l1) as int;
    let y1 = kth_smallest(s, u1) as int;
    let x2 = kth_smallest(s, l2) as int;
    let y2 = kth_smallest(s, u2) as int;
    lemma_kth_smallest_monotone(s, l1, u1);
    lemma_kth_smallest_monotone(s, l2, u2);
    lemma_interpolation_between(x1, y1, d1, w1);
    lemma_interpolation_between(x2, y2, d2, w2);
    if l1 < l2 {
        lemma_kth_smallest_monotone(s, u1, l2);
        lemma_cross_step(quantile_numer(s, t1), quantile_numer(s, t2), y1, x2, d1, d2);
    } else if w1 == 0 {
        lemma_cross_step(quantile_numer(s, t1), quantile_numer(s, t2), x1, x2, d1, d2);
    } else {
        assert(0 < w2) by (nonlinear_arith)
            requires
                0 < w1,
                0 < d2,
                0 < d1,
                0 <= w2,
                w1 * d2 <= w2 * d1,
        ;
        lemma_cross_weights(x1, y1, d1, w1, d2, w2);
    }
}

} // verus!
