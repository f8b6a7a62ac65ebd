use braid_engine::{normalize, BraidWord, Generator};

#[test]
fn test_normalize_empty() {
    let mut word = BraidWord::new();
    normalize(&mut word);
    assert!(word.is_empty());
}

#[test]
fn test_normalize_simple_cancellation() {
    let mut word = BraidWord::from_generators(vec![
        Generator::Sigma(1),
        Generator::InverseSigma(1),
    ]);
    normalize(&mut word);
    assert!(word.is_empty(), "σ_1 · σ_1^{{-1}} should reduce to empty");
}

#[test]
fn test_normalize_inverse_cancellation() {
    let mut word = BraidWord::from_generators(vec![
        Generator::InverseSigma(2),
        Generator::Sigma(2),
    ]);
    normalize(&mut word);
    assert!(word.is_empty(), "σ_2^{{-1}} · σ_2 should reduce to empty");
}

#[test]
fn test_normalize_multiple_cancellations() {
    let mut word = BraidWord::from_generators(vec![
        Generator::Sigma(1),
        Generator::Sigma(2),
        Generator::InverseSigma(2),
        Generator::InverseSigma(1),
    ]);
    normalize(&mut word);
    assert!(word.is_empty(), "Should reduce to empty after multiple cancellations");
}

#[test]
fn test_normalize_no_cancellation() {
    let mut word = BraidWord::from_generators(vec![
        Generator::Sigma(1),
        Generator::Sigma(2),
        Generator::Sigma(1),
    ]);
    let original_len = word.len();
    normalize(&mut word);
    assert_eq!(word.len(), original_len, "No cancellation should occur");
}

#[test]
fn test_normalize_partial_cancellation() {
    let mut word = BraidWord::from_generators(vec![
        Generator::Sigma(1),
        Generator::Sigma(2),
        Generator::InverseSigma(2),
        Generator::Sigma(3),
    ]);
    normalize(&mut word);
    // Should reduce to: sigma_1, sigma_3
    assert_eq!(word.len(), 2);
    let generators: Vec<Generator> = word.iter().clone();
    assert_eq!(generators[0], Generator::Sigma(1));
    assert_eq!(generators[1], Generator::Sigma(3));
}

#[test]
fn test_normalize_nested_cancellations() {
    let mut word = BraidWord::from_generators(vec![
        Generator::Sigma(1),
        Generator::Sigma(2),
        Generator::InverseSigma(2),
        Generator::InverseSigma(1),
    ]);
    normalize(&mut word);
    assert!(word.is_empty(), "Nested cancellations should reduce to empty");
}

#[test]
fn test_normalize_complex_sequence() {
    let mut word = BraidWord::from_generators(vec![
        Generator::Sigma(1),
        Generator::Sigma(2),
        Generator::Sigma(1),
        Generator::InverseSigma(1),
        Generator::InverseSigma(2),
        Generator::Sigma(1),
    ]);
    normalize(&mut word);
    assert_eq!(word.len(), 2, "Should reduce to σ_1, σ_1");
    let generators: Vec<Generator> = word.iter().clone();
    assert_eq!(generators[0], Generator::Sigma(1));
    assert_eq!(generators[1], Generator::Sigma(1));
}
