//! The parameters of the Pareto distribution and what its functions decide
//! before any arithmetic: which parameters are admitted, and on which
//! arguments a function has a fixed value.
//!
//! Doubles are held as their bit patterns and compared through their keys.
use vstd::prelude::*;
use crate::error::StatsError;
use crate::keys::{
    at_most, is_nan, is_nan_key, key_le, key_lt, key_of, less_than, INFINITY_BITS,
    NEG_INFINITY_BITS, ONE_BITS, THREE_BITS, TWO_BITS, ZERO_BITS,
};

verus! {

/// The double with key `k` is NaN, negative or a zero.
pub open spec fn not_positive(k: int) -> bool {
    is_nan_key(k) || k <= 0
}

/// A Pareto distribution: the bit patterns of its scale `x_m` and its shape
/// `alpha`.
#[derive(Clone, Copy, Debug, PartialEq, Eq, Structural)]
pub struct Pareto {
    pub scale: u64,
    pub shape: u64,
}

impl Pareto {
    /// Scale and shape are positive and neither is NaN.
    pub open spec fn wf(self) -> bool {
        !not_positive(key_of(self.scale)) && !not_positive(key_of(self.shape))
    }

    /// A Pareto distribution with the given scale and shape.
    ///
    /// Refused with `BadParams` where either is NaN or not positive.
    pub fn new(scale: u64, shape: u64) -> (r: Result<Pareto, StatsError>)
        ensures
            not_positive(key_of(scale)) || not_positive(key_of(shape)) ==> r == Err::<
                Pareto,
                StatsError,
            >(StatsError::BadParams),
            !(not_positive(key_of(scale)) || not_positive(key_of(shape))) ==> r == Ok::<
                Pareto,
                StatsError,
            >((Pareto { scale, shape })) && r->Ok_0.wf(),
    {
        let either_nan: bool = is_nan(scale) || is_nan(shape);
        if either_nan || at_most(scale, ZERO_BITS) || at_most(shape, ZERO_BITS) {
            Err(StatsError::BadParams)
        } else {
            Ok(Pareto { scale, shape })
        }
    }

    /// The scale.
    pub fn scale(&self) -> (bits: u64)
        ensures
            bits == self.scale,
    {
        self.scale
    }

    /// The shape.
    pub fn shape(&self) -> (bits: u64)
        ensures
            bits == self.shape,
    {
        self.shape
    }

    /// The least value of the distribution: the scale.
    pub fn min(&self) -> (bits: u64)
        ensures
            bits == self.scale,
    {
        self.scale
    }

    /// The greatest value of the distribution: positive infinity.
    pub fn max(&self) -> (bits: u64)
        ensures
            bits == INFINITY_BITS,
    {
        INFINITY_BITS
    }

    /// The mode of the distribution: the scale.
    pub fn mode(&self) -> (bits: u64)
        ensures
            bits == self.scale,
    {
        self.scale
    }

    /// The cumulative distribution function where it is fixed: zero below the
    /// scale. From the scale on, and for NaN, it is `1 - (x_m / x)^alpha`,
    /// and `None` is returned.
    pub fn cdf_fixed(&self, x: u64) -> (r: Option<u64>)
        ensures
            key_lt(key_of(x), key_of(self.scale)) ==> r == Some(ZERO_BITS),
            !key_lt(key_of(x), key_of(self.scale)) ==> r == None::<u64>,
    {
        if less_than(x, self.scale) {
            Some(ZERO_BITS)
        } else {
            None
        }
    }

    /// The density where it is fixed: zero below the scale. From the scale
    /// on, and for NaN, it is `alpha * x_m^alpha / x^(alpha + 1)`, and `None`
    /// is returned.
    pub fn pdf_fixed(&self, x: u64) -> (r: Option<u64>)
        ensures
            key_lt(key_of(x), key_of(self.scale)) ==> r == Some(ZERO_BITS),
            !key_lt(key_of(x), key_of(self.scale)) ==> r == None::<u64>,
    {
        if less_than(x, self.scale) {
            Some(ZERO_BITS)
        } else {
            None
        }
    }

    /// The logarithm of the density where it is fixed: negative infinity
    /// below the scale. From the scale on, and for NaN, it is
    /// `ln(alpha) + alpha * ln(x_m) - (alpha + 1) * ln(x)`, and `None` is
    /// returned.
    pub fn ln_pdf_fixed(&self, x: u64) -> (r: Option<u64>)
        ensures
            key_lt(key_of(x), key_of(self.scale)) ==> r == Some(NEG_INFINITY_BITS),
            !key_lt(key_of(x), key_of(self.scale)) ==> r == None::<u64>,
    {
        if less_than(x, self.scale) {
            Some(NEG_INFINITY_BITS)
        } else {
            None
        }
    }

    /// The mean where it is fixed: infinite for a shape of at most one. Above
    /// that it is `alpha * x_m / (alpha - 1)`, and `None` is returned.
    pub fn mean_fixed(&self) -> (r: Option<u64>)
        ensures
            key_le(key_of(self.shape), key_of(ONE_BITS)) ==> r == Some(INFINITY_BITS),
            !key_le(key_of(self.shape), key_of(ONE_BITS)) ==> r == None::<u64>,
    {
        if at_most(self.shape, ONE_BITS) {
            Some(INFINITY_BITS)
        } else {
            None
        }
    }

    /// The variance where it is fixed: infinite for a shape of at most two.
    /// Above that it is `(x_m / (alpha - 1))^2 * alpha / (alpha - 2)`, and
    /// `None` is returned.
    pub fn variance_fixed(&self) -> (r: Option<u64>)
        ensures
            key_le(key_of(self.shape), key_of(TWO_BITS)) ==> r == Some(INFINITY_BITS),
            !key_le(key_of(self.shape), key_of(TWO_BITS)) ==> r == None::<u64>,
    {
        if at_most(self.shape, TWO_BITS) {
            Some(INFINITY_BITS)
        } else {
            None
        }
    }

    /// Whether the skewness is defined: the shape is greater than three.
    pub fn skewness_defined(&self) -> (r: bool)
        ensures
            r == key_lt(key_of(THREE_BITS), key_of(self.shape)),
    {
        less_than(THREE_BITS, self.shape)
    }
}

} // verus!
