use braid_engine::{FingerprintState, Generator, IncrementalUpdate};
use num_complex::Complex;

/// Evaluates a Laurent polynomial at a complex value of the parameter `t`.
fn eval_poly(p: &braid_engine::poly::LaurentPoly, t: Complex<f64>) -> Complex<f64> {
    let mut acc = Complex::new(0.0, 0.0);
    for (i, c) in p.coeffs.iter().enumerate() {
        let e = p.lo + i as i64;
        acc += Complex::new(*c as f64, 0.0) * t.powi(e as i32);
    }
    acc
}

/// The session's unit-circle parameter.
fn t_param() -> Complex<f64> {
    Complex::new(1.0_f64.cos(), 1.0_f64.sin())
}

#[test]
fn test_initial_state() {
    let state = FingerprintState::new(4);
    assert_eq!(state.writhe, 0);
    assert_eq!(state.crossing_count, 0);
    assert_eq!(state.jones_poly_cache, None);
    assert_eq!(state.dimension, 4);

    // Burau matrix should be identity
    assert!(state.burau_matrix.is_identity());
}

#[test]
fn test_update_sigma() {
    let mut state = FingerprintState::new(4);
    state.update(&Generator::Sigma(1));
    assert_eq!(state.writhe, 1);
    assert_eq!(state.crossing_count, 1);
    // Burau matrix should no longer be identity
    assert!(!state.burau_matrix.is_identity());
}

#[test]
fn test_update_inverse_sigma() {
    let mut state = FingerprintState::new(4);
    state.update(&Generator::InverseSigma(1));
    assert_eq!(state.writhe, -1);
    assert_eq!(state.crossing_count, 1);
    // Burau matrix should no longer be identity
    assert!(!state.burau_matrix.is_identity());
}

#[test]
fn test_update_mixed() {
    let mut state = FingerprintState::new(4);
    state.update(&Generator::Sigma(1));
    state.update(&Generator::Sigma(2));
    state.update(&Generator::InverseSigma(1));
    assert_eq!(state.writhe, 1); // +1 +1 -1 = 1
    assert_eq!(state.crossing_count, 3);
}

#[test]
fn test_reset() {
    let mut state = FingerprintState::new(4);
    state.update(&Generator::Sigma(1));
    state.update(&Generator::Sigma(2));
    state.reset();
    assert_eq!(state.writhe, 0);
    assert_eq!(state.crossing_count, 0);
    // Burau matrix should be reset to identity
    assert!(state.burau_matrix.is_identity());
}

#[test]
fn test_sigma_inverse_cancellation() {
    // sigma_1 * sigma_1^{-1} should approximately return to identity
    let mut state = FingerprintState::new(4);
    state.update(&Generator::Sigma(1));
    state.update(&Generator::InverseSigma(1));

    // Evaluated at the session parameter, every entry should be within
    // floating-point tolerance of the identity matrix.
    let t = t_param();
    let mut max_diff: f64 = 0.0;
    for i in 0..4 {
        for j in 0..4 {
            let v = eval_poly(state.burau_matrix.entry(i, j), t);
            let want = if i == j {
                Complex::new(1.0, 0.0)
            } else {
                Complex::new(0.0, 0.0)
            };
            let d = (v - want).norm();
            if d > max_diff {
                max_diff = d;
            }
        }
    }
    assert!(max_diff < 1e-10, "Matrix should be close to identity after cancellation");
}
