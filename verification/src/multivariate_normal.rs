//! What the multivariate normal distribution asks of its parameters before
//! any matrix is decomposed: a mean without NaN and a square covariance that
//! is symmetric as doubles.
//!
//! Doubles are held as their bit patterns, the covariance row by row.
use vstd::prelude::*;
use crate::error::StatsError;
use crate::keys::{
    equal_doubles, is_nan, is_nan_key, key_of, same_double, INFINITY_BITS, NEG_INFINITY_BITS,
};

verus! {

/// The entry in row `i` and column `j` of a square matrix of `n` rows that is
/// held row by row.
pub open spec fn entry(cov: Seq<u64>, n: int, i: int, j: int) -> u64 {
    cov[i * n + j]
}

/// The entries at `(i, j)` and `(j, i)` are equal as doubles, so neither is
/// NaN.
pub open spec fn symmetric_at(cov: Seq<u64>, n: int, i: int, j: int) -> bool {
    same_double(entry(cov, n, i, j), entry(cov, n, j, i))
}

/// The mean holds no NaN, and the covariance is square, of the mean's
/// dimension, and symmetric as doubles.
pub open spec fn admissible(mean: Seq<u64>, cov: Seq<u64>) -> bool {
    let n = mean.len() as int;
    &&& cov.len() == n * n
    &&& forall|i: int| 0 <= i < n ==> !is_nan_key(key_of(#[trigger] mean[i]))
    &&& forall|i: int, j: int| 0 <= i < n && 0 <= j < n ==> #[trigger] symmetric_at(cov, n, i, j)
}

/// Whether `mean` and `cov` can be the parameters of a multivariate normal
/// distribution as far as symmetry and NaN go. That the covariance is
/// positive definite is not tested here.
pub fn covariance_admissible(mean: &Vec<u64>, cov: &Vec<u64>) -> (ok: bool)
    ensures
        ok == admissible(mean@, cov@),
{
    let n: usize = mean.len();
    proof {
        assert(0 <= n * n <= 0xffff_ffff_ffff_ffff * 0xffff_ffff_ffff_ffff) by (nonlinear_arith)
            requires
                0 <= n <= 0xffff_ffff_ffff_ffff,
        ;
    }
    if (cov.len() as u128) != (n as u128) * (n as u128) {
        return false;
    }
    let mut k: usize = 0;
    while k < n
        invariant
            k <= n,
            n == mean@.len(),
            forall|i: int| 0 <= i < k ==> !is_nan_key(key_of(#[trigger] mean@[i])),
        decreases n - k,
    {
        if is_nan(mean[k]) {
            return false;
        }
        k = k + 1;
    }
    let mut i: usize = 0;
    while i < n
        invariant
            i <= n,
            n == mean@.len(),
            cov@.len() == n * n,
            n * n <= usize::MAX,
            forall|a: int, b: int|
                0 <= a < i && 0 <= b < n ==> #[trigger] symmetric_at(cov@, n as int, a, b),
        decreases n - i,
    {
        let mut j: usize = 0;
        while j < n
            invariant
                i < n,
                j <= n,
                n == mean@.len(),
                cov@.len() == n * n,
            n * n <= usize::MAX,
                forall|b: int| 0 <= b < j ==> #[trigger] symmetric_at(cov@, n as int, i as int, b),
            decreases n - j,
        {
            proof {
                assert(0 <= i * n <= i * n + j < n * n && 0 <= j * n <= j * n + i < n * n)
                    by (nonlinear_arith)
                    requires
                        0 <= i < n,
                        0 <= j < n,
                ;
            }
            if !equal_doubles(cov[i * n + j], cov[j * n + i]) {
                proof {
                    assert(!symmetric_at(cov@, n as int, i as int, j as int));
                }
                return false;
            }
            j = j + 1;
        }
        i = i + 1;
    }
    true
}

/// A multivariate normal distribution: the bit patterns of its mean and of
/// its covariance, row by row.
#[derive(Clone, Debug)]
pub struct MultivariateNormal {
    pub mean: Vec<u64>,
    pub cov: Vec<u64>,
}

fn filled(n: usize, bits: u64) -> (v: Vec<u64>)
    ensures
        v@.len() == n,
        forall|i: int| 0 <= i < n ==> #[trigger] v@[i] == bits,
{
    let mut v: Vec<u64> = Vec::new();
    let mut i: usize = 0;
    while i < n
        invariant
            i <= n,
            v@.len() == i,
            forall|k: int| 0 <= k < i ==> #[trigger] v@[k] == bits,
        decreases n - i,
    {
        v.push(bits);
        i = i + 1;
    }
    v
}

impl MultivariateNormal {
    /// Mean and covariance are admissible.
    pub open spec fn wf(&self) -> bool {
        admissible(self.mean@, self.cov@)
    }

    /// A multivariate normal distribution with the given mean and covariance.
    /// `positive_definite` says whether the covariance has a Cholesky
    /// factorization, which the caller has from a matrix library.
    ///
    /// Refused with `BadParams` where mean and covariance are not admissible
    /// or the covariance is not positive definite.
    pub fn new(mean: Vec<u64>, cov: Vec<u64>, positive_definite: bool) -> (r: Result<
        MultivariateNormal,
        StatsError,
    >)
        ensures
            !admissible(mean@, cov@) || !positive_definite ==> r is Err && r->Err_0
                == StatsError::BadParams,
            admissible(mean@, cov@) && positive_definite ==> r is Ok && r->Ok_0.mean@ == mean@
                && r->Ok_0.cov@ == cov@ && r->Ok_0.wf(),
    {
        if !covariance_admissible(&mean, &cov) || !positive_definite {
            Err(StatsError::BadParams)
        } else {
            Ok(MultivariateNormal { mean, cov })
        }
    }

    /// The least value of the distribution: negative infinity in every
    /// component.
    pub fn min(&self) -> (v: Vec<u64>)
        ensures
            v@.len() == self.mean@.len(),
            forall|i: int| 0 <= i < v@.len() ==> #[trigger] v@[i] == NEG_INFINITY_BITS,
    {
        filled(self.mean.len(), NEG_INFINITY_BITS)
    }

    /// The greatest value of the distribution: positive infinity in every
    /// component.
    pub fn max(&self) -> (v: Vec<u64>)
        ensures
            v@.len() == self.mean@.len(),
            forall|i: int| 0 <= i < v@.len() ==> #[trigger] v@[i] == INFINITY_BITS,
    {
        filled(self.mean.len(), INFINITY_BITS)
    }

    /// The mean that the distribution was made with.
    pub fn mean(&self) -> (v: Vec<u64>)
        ensures
            v@ == self.mean@,
    {
        self.mean.clone()
    }

    /// The covariance that the distribution was made with, row by row.
    pub fn variance(&self) -> (v: Vec<u64>)
        ensures
            v@ == self.cov@,
    {
        self.cov.clone()
    }

    /// The mode of the distribution: its mean.
    pub fn mode(&self) -> (v: Vec<u64>)
        ensures
            v@ == self.mean@,
    {
        self.mean.clone()
    }
}

} // verus!
