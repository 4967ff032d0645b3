//! Order statistics over finite integer samples: selection of the k-th
//! smallest value, quantiles with linear interpolation as exact fractions,
//! and rank assignment under several tie-breaking policies.
//!
//! Every executable function carries a contract over the counting model in
//! [`counting`], and the contracts are proved. Samples of doubles are served
//! through the integer keys of [`keys`], and so are the decisions that the
//! Pareto and the multivariate normal distribution make on their parameters
//! and arguments.
pub mod counting;
pub mod error;
pub mod keys;
pub mod multivariate_normal;
pub mod pareto;
pub mod quantile;
pub mod ranks;
pub mod select;
pub mod sorting;
