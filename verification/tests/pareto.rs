use order_stats::error::StatsError;
use order_stats::pareto::Pareto;
use std::f64;

fn almost_eq(a: f64, b: f64, acc: f64) -> bool {
    if a.is_infinite() || b.is_infinite() {
        return a == b;
    }
    if a.is_nan() || b.is_nan() {
        return false;
    }
    (a - b).abs() < acc
}

fn scale_of(p: &Pareto) -> f64 {
    f64::from_bits(p.scale())
}

fn shape_of(p: &Pareto) -> f64 {
    f64::from_bits(p.shape())
}

fn variance(p: Pareto) -> f64 {
    match p.variance_fixed() {
        Some(bits) => f64::from_bits(bits),
        None => {
            let a = scale_of(&p) / (shape_of(&p) - 1.0);
            a * a * shape_of(&p) / (shape_of(&p) - 2.0)
        }
    }
}

fn mean(p: Pareto) -> f64 {
    match p.mean_fixed() {
        Some(bits) => f64::from_bits(bits),
        None => (shape_of(&p) * scale_of(&p)) / (shape_of(&p) - 1.0),
    }
}

fn cdf(p: Pareto, x: f64) -> f64 {
    match p.cdf_fixed(x.to_bits()) {
        Some(bits) => f64::from_bits(bits),
        None => 1.0 - (scale_of(&p) / x).powf(shape_of(&p)),
    }
}

fn pdf(p: Pareto, x: f64) -> f64 {
    match p.pdf_fixed(x.to_bits()) {
        Some(bits) => f64::from_bits(bits),
        None => (shape_of(&p) * scale_of(&p).powf(shape_of(&p))) / x.powf(shape_of(&p) + 1.0),
    }
}

fn ln_pdf(p: Pareto, x: f64) -> f64 {
    match p.ln_pdf_fixed(x.to_bits()) {
        Some(bits) => f64::from_bits(bits),
        None => {
            shape_of(&p).ln() + shape_of(&p) * scale_of(&p).ln() - (shape_of(&p) + 1.0) * x.ln()
        }
    }
}

fn try_create(scale: f64, shape: f64) -> Pareto {
    let p = Pareto::new(scale.to_bits(), shape.to_bits());
    assert!(p.is_ok());
    p.unwrap()
}

fn create_case(scale: f64, shape: f64) {
    let p = try_create(scale, shape);
    assert_eq!(scale, scale_of(&p));
    assert_eq!(shape, shape_of(&p));
}

fn bad_create_case(scale: f64, shape: f64) {
    let p = Pareto::new(scale.to_bits(), shape.to_bits());
    assert!(p.is_err());
}

fn test_case<F>(scale: f64, shape: f64, expected: f64, eval: F)
where
    F: Fn(Pareto) -> f64,
{
    let p = try_create(scale, shape);
    let x = eval(p);
    assert_eq!(expected, x);
}

fn test_almost<F>(scale: f64, shape: f64, expected: f64, acc: f64, eval: F)
where
    F: Fn(Pareto) -> f64,
{
    let p = try_create(scale, shape);
    let x = eval(p);
    assert!(almost_eq(expected, x, acc), "expected {} and got {}", expected, x);
}

#[test]
fn test_create() {
    create_case(10.0, 0.1);
    create_case(5.0, 1.0);
    create_case(0.1, 10.0);
    create_case(10.0, 100.0);
    create_case(1.0, f64::INFINITY);
    create_case(f64::INFINITY, f64::INFINITY);
}

#[test]
fn test_bad_create() {
    bad_create_case(0.0, 0.0);
    bad_create_case(1.0, -1.0);
    bad_create_case(-1.0, 1.0);
    bad_create_case(-1.0, -1.0);
    bad_create_case(f64::NAN, 1.0);
    bad_create_case(1.0, f64::NAN);
    bad_create_case(f64::NAN, f64::NAN);
}

#[test]
fn test_variance() {
    test_case(1.0, 1.0, f64::INFINITY, |x| variance(x)); // shape <= 2.0
    test_case(1.0, 2.0, f64::INFINITY, |x| variance(x)); // shape <= 2.0
    test_case(1.0, 3.0, 0.75, |x| variance(x));
    test_almost(10.0, 10.0, 125.0 / 81.0, 1e-13, |x| variance(x));
}

#[test]
fn test_mode() {
    test_case(0.1, 1.0, 0.1, |x| f64::from_bits(x.mode()));
    test_case(2.0, 1.0, 2.0, |x| f64::from_bits(x.mode()));
    test_case(10.0, f64::INFINITY, 10.0, |x| f64::from_bits(x.mode()));
    test_case(f64::INFINITY, 1.0, f64::INFINITY, |x| f64::from_bits(x.mode()));
}

#[test]
fn test_min_max() {
    test_case(0.2, f64::INFINITY, 0.2, |x| f64::from_bits(x.min()));
    test_case(10.0, f64::INFINITY, 10.0, |x| f64::from_bits(x.min()));
    test_case(f64::INFINITY, 1.0, f64::INFINITY, |x| f64::from_bits(x.min()));
    test_case(1.0, 0.1, f64::INFINITY, |x| f64::from_bits(x.max()));
    test_case(3.0, 10.0, f64::INFINITY, |x| f64::from_bits(x.max()));
}

#[test]
fn test_pdf() {
    test_case(1.0, 1.0, 0.0, |x| pdf(x, 0.1));
    test_case(1.0, 1.0, 1.0, |x| pdf(x, 1.0));
    test_case(1.0, 1.0, 4.0 / 9.0, |x| pdf(x, 1.5));
    test_case(1.0, 1.0, 1.0 / 25.0, |x| pdf(x, 5.0));
    test_case(1.0, 1.0, 1.0 / 2500.0, |x| pdf(x, 50.0));
    test_case(1.0, 4.0, 4.0, |x| pdf(x, 1.0));
    test_case(1.0, 4.0, 128.0 / 243.0, |x| pdf(x, 1.5));
    test_case(1.0, 4.0, 1.0 / 78125000.0, |x| pdf(x, 50.0));
    test_case(3.0, 2.0, 2.0 / 3.0, |x| pdf(x, 3.0));
    test_case(3.0, 2.0, 18.0 / 125.0, |x| pdf(x, 5.0));
    test_almost(25.0, 100.0, 1.5777218104420236e-30, 1e-50, |x| pdf(x, 50.0));
    test_almost(100.0, 25.0, 6.6003546737276816e-6, 1e-16, |x| pdf(x, 150.0));
}

#[test]
fn test_ln_pdf() {
    test_case(1.0, 1.0, f64::NEG_INFINITY, |x| ln_pdf(x, 0.1));
    test_case(1.0, 1.0, 0.0, |x| ln_pdf(x, 1.0));
    test_almost(1.0, 1.0, 4.0_f64.ln() - 9.0_f64.ln(), 1e-14, |x| ln_pdf(x, 1.5));
    test_almost(1.0, 1.0, -25.0_f64.ln(), 1e-14, |x| ln_pdf(x, 5.0));
    test_almost(1.0, 1.0, -2500.0_f64.ln(), 1e-14, |x| ln_pdf(x, 50.0));
    test_almost(1.0, 4.0, 4.0_f64.ln(), 1e-14, |x| ln_pdf(x, 1.0));
    test_almost(1.0, 4.0, 128.0_f64.ln() - 243.0_f64.ln(), 1e-14, |x| ln_pdf(x, 1.5));
    test_almost(1.0, 4.0, -78125000.0_f64.ln(), 1e-14, |x| ln_pdf(x, 50.0));
    test_almost(3.0, 2.0, 2.0_f64.ln() - 3.0_f64.ln(), 1e-14, |x| ln_pdf(x, 3.0));
    test_almost(3.0, 2.0, 18.0_f64.ln() - 125.0_f64.ln(), 1e-14, |x| ln_pdf(x, 5.0));
    test_almost(25.0, 100.0, 1.5777218104420236e-30_f64.ln(), 1e-12, |x| ln_pdf(x, 50.0));
    test_almost(100.0, 25.0, 6.6003546737276816e-6_f64.ln(), 1e-12, |x| ln_pdf(x, 150.0));
}

#[test]
fn pareto_new_keeps_what_it_admits() {
    let p = Pareto::new(1.0f64.to_bits(), f64::INFINITY.to_bits());
    assert_eq!(
        p,
        Ok(Pareto { scale: 1.0f64.to_bits(), shape: f64::INFINITY.to_bits() })
    );
    let p = Pareto::new(f64::MIN_POSITIVE.to_bits(), 1u64);
    assert_eq!(p, Ok(Pareto { scale: f64::MIN_POSITIVE.to_bits(), shape: 1 }));
}

#[test]
fn pareto_new_refuses_with_bad_params() {
    for (scale, shape) in [
        (0.0f64, 1.0f64),
        (-0.0, 1.0),
        (1.0, 0.0),
        (1.0, -0.0),
        (f64::NEG_INFINITY, 1.0),
        (1.0, f64::NEG_INFINITY),
        (f64::NAN, 1.0),
        (1.0, -f64::NAN),
    ] {
        assert_eq!(Pareto::new(scale.to_bits(), shape.to_bits()), Err(StatsError::BadParams));
    }
}

#[test]
fn cdf_is_zero_below_the_scale_only() {
    let p = try_create(5.0, 2.0);
    assert_eq!(p.cdf_fixed(f64::NEG_INFINITY.to_bits()), Some(0));
    assert_eq!(p.cdf_fixed((-5.0f64).to_bits()), Some(0));
    assert_eq!(p.cdf_fixed(4.999f64.to_bits()), Some(0));
    assert_eq!(p.cdf_fixed(5.0f64.to_bits()), None);
    assert_eq!(p.cdf_fixed(6.0f64.to_bits()), None);
    assert_eq!(p.cdf_fixed(f64::INFINITY.to_bits()), None);
    assert_eq!(p.cdf_fixed(f64::NAN.to_bits()), None);
    assert_eq!(cdf(p, f64::NEG_INFINITY), 0.0);
    assert_eq!(cdf(p, 5.0), 0.0);
    assert_eq!(cdf(p, 10.0), 0.75);
}

#[test]
fn pdf_and_ln_pdf_are_fixed_below_the_scale_only() {
    let p = try_create(1.0, 1.0);
    assert_eq!(p.pdf_fixed(0.1f64.to_bits()), Some(0.0f64.to_bits()));
    assert_eq!(p.pdf_fixed(1.0f64.to_bits()), None);
    assert_eq!(p.pdf_fixed(f64::NAN.to_bits()), None);
    assert_eq!(p.ln_pdf_fixed(0.1f64.to_bits()), Some(f64::NEG_INFINITY.to_bits()));
    assert_eq!(p.ln_pdf_fixed(1.0f64.to_bits()), None);
    assert_eq!(p.ln_pdf_fixed(f64::NAN.to_bits()), None);
}

#[test]
fn mean_is_infinite_up_to_shape_one() {
    test_case(1.0, 0.5, f64::INFINITY, |x| mean(x));
    test_case(1.0, 1.0, f64::INFINITY, |x| mean(x));
    test_case(1.0, 2.0, 2.0, |x| mean(x));
    test_case(3.0, 4.0, 4.0, |x| mean(x));
    assert_eq!(try_create(1.0, 1.0000000000000002).mean_fixed(), None);
    assert_eq!(try_create(1.0, f64::INFINITY).mean_fixed(), None);
}

#[test]
fn variance_is_infinite_up_to_shape_two() {
    assert_eq!(try_create(1.0, 2.0).variance_fixed(), Some(f64::INFINITY.to_bits()));
    assert_eq!(try_create(1.0, 0.1).variance_fixed(), Some(f64::INFINITY.to_bits()));
    assert_eq!(try_create(1.0, 2.0000000000000004).variance_fixed(), None);
    assert_eq!(try_create(1.0, f64::INFINITY).variance_fixed(), None);
}

#[test]
fn skewness_is_defined_above_shape_three() {
    assert!(!try_create(1.0, 0.1).skewness_defined());
    assert!(!try_create(1.0, 3.0).skewness_defined());
    assert!(try_create(1.0, 3.0000000000000004).skewness_defined());
    assert!(try_create(1.0, 10.0).skewness_defined());
    assert!(try_create(1.0, f64::INFINITY).skewness_defined());
}
