use order_stats::keys::{
    at_most, equal_doubles, is_nan, less_than, INFINITY_BITS, INFINITY_KEY, NEG_INFINITY_BITS,
    ONE_BITS, THREE_BITS, TWO_BITS, ZERO_BITS,
};
use order_stats::keys::ordered_key;
use order_stats::multivariate_normal::covariance_admissible;

fn grid() -> Vec<f64> {
    vec![
        f64::NAN,
        -f64::NAN,
        f64::from_bits(0x7ff0_0000_0000_0001),
        f64::from_bits(0xfff0_0000_0000_0001),
        f64::NEG_INFINITY,
        f64::MIN,
        -3.0,
        -1.0,
        -f64::MIN_POSITIVE,
        -5e-324,
        -0.0,
        0.0,
        5e-324,
        f64::MIN_POSITIVE,
        0.75,
        1.0,
        2.0,
        3.0,
        f64::MAX,
        f64::INFINITY,
    ]
}

fn bits(xs: &[f64]) -> Vec<u64> {
    xs.iter().map(|x| x.to_bits()).collect()
}

#[test]
fn named_patterns_are_the_doubles_they_are_named_after() {
    assert_eq!(ZERO_BITS, 0.0f64.to_bits());
    assert_eq!(ONE_BITS, 1.0f64.to_bits());
    assert_eq!(TWO_BITS, 2.0f64.to_bits());
    assert_eq!(THREE_BITS, 3.0f64.to_bits());
    assert_eq!(INFINITY_BITS, f64::INFINITY.to_bits());
    assert_eq!(NEG_INFINITY_BITS, f64::NEG_INFINITY.to_bits());
    assert_eq!(INFINITY_KEY, ordered_key(f64::INFINITY.to_bits()));
    assert_eq!(-1 - INFINITY_KEY, ordered_key(f64::NEG_INFINITY.to_bits()));
}

#[test]
fn comparisons_agree_with_the_doubles() {
    for a in grid() {
        assert_eq!(is_nan(a.to_bits()), a.is_nan());
        for b in grid() {
            assert_eq!(less_than(a.to_bits(), b.to_bits()), a < b, "{} < {}", a, b);
            assert_eq!(at_most(a.to_bits(), b.to_bits()), a <= b, "{} <= {}", a, b);
            assert_eq!(equal_doubles(a.to_bits(), b.to_bits()), a == b, "{} == {}", a, b);
        }
    }
}

#[test]
fn covariance_of_identity_is_admissible() {
    let mean = bits(&[0.0, 0.0]);
    let cov = bits(&[1.0, 0.0, 0.0, 1.0]);
    assert!(covariance_admissible(&mean, &cov));
    let cov = bits(&[1.0, -0.0, 0.0, 1.0]);
    assert!(covariance_admissible(&mean, &cov));
    let mean = bits(&[1.0, -2.0, f64::INFINITY]);
    let cov = bits(&[2.0, 0.5, -1.0, 0.5, 3.0, 0.25, -1.0, 0.25, 4.0]);
    assert!(covariance_admissible(&mean, &cov));
    assert!(covariance_admissible(&vec![], &vec![]));
}

#[test]
fn covariance_that_is_not_symmetric_is_refused() {
    let mean = bits(&[0.0, 0.0]);
    assert!(!covariance_admissible(&mean, &bits(&[1.0, 0.5, 0.25, 1.0])));
    let mean = bits(&[0.0, 0.0, 0.0]);
    let cov = bits(&[2.0, 0.5, -1.0, 0.5, 3.0, 0.25, -1.0, 0.2500000000000001, 4.0]);
    assert!(!covariance_admissible(&mean, &cov));
}

#[test]
fn covariance_or_mean_with_nan_is_refused() {
    let mean = bits(&[0.0, f64::NAN]);
    assert!(!covariance_admissible(&mean, &bits(&[1.0, 0.0, 0.0, 1.0])));
    let mean = bits(&[0.0, 0.0]);
    assert!(!covariance_admissible(&mean, &bits(&[f64::NAN, 0.0, 0.0, 1.0])));
    assert!(!covariance_admissible(&mean, &bits(&[1.0, f64::NAN, f64::NAN, 1.0])));
    assert!(!covariance_admissible(&mean, &bits(&[1.0, 0.0, 0.0, f64::NAN])));
}

#[test]
fn covariance_of_another_size_is_refused() {
    let mean = bits(&[0.0, 0.0]);
    assert!(!covariance_admissible(&mean, &bits(&[1.0, 0.0, 0.0])));
    assert!(!covariance_admissible(&mean, &bits(&[1.0])));
    assert!(!covariance_admissible(&mean, &bits(&[1.0, 0.0, 0.0, 1.0, 0.0])));
    assert!(!covariance_admissible(&vec![], &bits(&[1.0])));
}

#[test]
fn multivariate_normal_keeps_admissible_parameters() {
    let mean = bits(&[1.0, -2.0]);
    let cov = bits(&[2.0, 0.5, 0.5, 3.0]);
    let d = order_stats::multivariate_normal::MultivariateNormal::new(mean.clone(), cov.clone(), true)
        .unwrap();
    assert_eq!(d.mean(), mean);
    assert_eq!(d.mode(), mean);
    assert_eq!(d.variance(), cov);
    assert_eq!(d.min(), bits(&[f64::NEG_INFINITY, f64::NEG_INFINITY]));
    assert_eq!(d.max(), bits(&[f64::INFINITY, f64::INFINITY]));
}

#[test]
fn multivariate_normal_refuses_with_bad_params() {
    let mean = bits(&[0.0, 0.0]);
    let identity = bits(&[1.0, 0.0, 0.0, 1.0]);
    let refused = |mean: &Vec<u64>, cov: &Vec<u64>, definite: bool| {
        match order_stats::multivariate_normal::MultivariateNormal::new(
            mean.clone(),
            cov.clone(),
            definite,
        ) {
            Ok(_) => false,
            Err(e) => e == order_stats::error::StatsError::BadParams,
        }
    };
    assert!(!refused(&mean, &identity, true));
    assert!(refused(&mean, &identity, false));
    assert!(refused(&mean, &bits(&[1.0, 0.5, 0.25, 1.0]), true));
    assert!(refused(&bits(&[0.0, f64::NAN]), &identity, true));
    assert!(refused(&mean, &bits(&[1.0, 0.0, 0.0]), true));
}
