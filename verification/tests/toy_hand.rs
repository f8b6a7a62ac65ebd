use braid_engine::{
    expand_action, normalize, Action, ActionType, BraidWord, FingerprintState, Generator,
    IncrementalUpdate, Seat,
};

/// Integration test for a small hand among four players.
///
/// Actions: Seat 1 Raise -> Seat 3 Call -> Seat 2 Raise -> Seat 4 Call ->
/// Seat 1 Re-Raise. Verifies that the braid word matches the expected
/// expansion and that the fingerprint state updates the writhe correctly.
#[test]
fn test_toy_hand() {
    const TOTAL_SEATS: usize = 4;

    // Define the action sequence
    let actions = vec![
        Action::new(Seat::new(1), ActionType::Raise, 100),
        Action::new(Seat::new(3), ActionType::Call, 100),
        Action::new(Seat::new(2), ActionType::Raise, 200),
        Action::new(Seat::new(4), ActionType::Call, 200),
        Action::new(Seat::new(1), ActionType::ReRaise, 400),
    ];

    // Build the braid word by tracking action flow
    let mut braid_word = BraidWord::new();
    let mut current_seat = actions[0].seat;

    for action in &actions[1..] {
        let target_seat = action.seat;
        let generators = expand_action(current_seat, target_seat, TOTAL_SEATS);
        for gen in &generators {
            braid_word.push(*gen);
        }
        current_seat = target_seat;
    }

    // Expected expansion:
    // 1 -> 3: s1, s2
    // 3 -> 2: s2^-1
    // 2 -> 4: s2, s3
    // 4 -> 1: s3^-1, s2^-1, s1^-1
    let expected_generators = vec![
        Generator::Sigma(1),
        Generator::Sigma(2),
        Generator::InverseSigma(2),
        Generator::Sigma(2),
        Generator::Sigma(3),
        Generator::InverseSigma(3),
        Generator::InverseSigma(2),
        Generator::InverseSigma(1),
    ];

    let actual_generators: Vec<Generator> = braid_word.iter().clone();
    assert_eq!(
        actual_generators, expected_generators,
        "Braid word expansion does not match expected generators"
    );

    // Verify the fingerprint state
    let mut fingerprint = FingerprintState::new(TOTAL_SEATS);
    for gen in braid_word.iter() {
        fingerprint.update(gen);
    }

    // sigma: +1, each inverse: -1; total writhe is zero
    let expected_writhe = 0;
    assert_eq!(
        fingerprint.writhe, expected_writhe,
        "Writhe count does not match expected value"
    );

    assert_eq!(
        fingerprint.crossing_count,
        expected_generators.len(),
        "Crossing count should equal the number of generators"
    );

    // The action flow returns to seat 1 and the word freely reduces to the
    // empty word, so the exact representation returns to the identity;
    // only rounding error could make it differ. Mid-hand, before the flow
    // returns, the matrix does show topological content.
    assert!(fingerprint.burau_matrix.is_identity());
    let mut mid = FingerprintState::new(TOTAL_SEATS);
    for gen in expected_generators.iter().take(5) {
        mid.update(gen);
    }
    assert!(
        !mid.burau_matrix.is_identity(),
        "Burau matrix should not be identity mid-hand"
    );

    println!("✓ Toy Hand test passed!");
    println!("  Braid word length: {}", braid_word.len());
    println!("  Writhe: {}", fingerprint.writhe);
    println!("  Crossing count: {}", fingerprint.crossing_count);
}

/// Verifies the action flow logic step by step.
#[test]
fn test_action_flow_sequence() {
    const TOTAL_SEATS: usize = 4;

    // Seat 1 Raise -> Seat 3 Call -> Seat 2 Raise -> Seat 4 Call -> Seat 1 Re-Raise
    let mut braid_word = BraidWord::new();
    let mut current = Seat::new(1);

    // Action 2: Seat 3 Call (1 -> 3)
    let gen_1_to_3 = expand_action(current, Seat::new(3), TOTAL_SEATS);
    assert_eq!(gen_1_to_3, vec![Generator::Sigma(1), Generator::Sigma(2)]);
    for gen in &gen_1_to_3 {
        braid_word.push(*gen);
    }
    current = Seat::new(3);

    // Action 3: Seat 2 Raise (3 -> 2)
    let gen_3_to_2 = expand_action(current, Seat::new(2), TOTAL_SEATS);
    assert_eq!(gen_3_to_2, vec![Generator::InverseSigma(2)]);
    for gen in &gen_3_to_2 {
        braid_word.push(*gen);
    }
    current = Seat::new(2);

    // Action 4: Seat 4 Call (2 -> 4)
    let gen_2_to_4 = expand_action(current, Seat::new(4), TOTAL_SEATS);
    assert_eq!(gen_2_to_4, vec![Generator::Sigma(2), Generator::Sigma(3)]);
    for gen in &gen_2_to_4 {
        braid_word.push(*gen);
    }
    current = Seat::new(4);

    // Action 5: Seat 1 Re-Raise (4 -> 1)
    let gen_4_to_1 = expand_action(current, Seat::new(1), TOTAL_SEATS);
    assert_eq!(
        gen_4_to_1,
        vec![
            Generator::InverseSigma(3),
            Generator::InverseSigma(2),
            Generator::InverseSigma(1)
        ]
    );
    for gen in &gen_4_to_1 {
        braid_word.push(*gen);
    }

    assert_eq!(braid_word.len(), 8);

    let mut fingerprint = FingerprintState::new(TOTAL_SEATS);
    for gen in braid_word.iter() {
        fingerprint.update(gen);
    }
    assert_eq!(fingerprint.writhe, 0);
}

/// Braid word normalization: free reduction of adjacent inverse pairs.
#[test]
fn test_normalization() {
    // A word with adjacent inverse pairs: s1, s2, s2^-1, s1^-1
    let mut word = BraidWord::from_generators(vec![
        Generator::Sigma(1),
        Generator::Sigma(2),
        Generator::InverseSigma(2),
        Generator::InverseSigma(1),
    ]);

    normalize(&mut word);
    assert!(
        word.is_empty(),
        "Word [σ₁, σ₂, σ₂⁻¹, σ₁⁻¹] should reduce to empty"
    );
}
