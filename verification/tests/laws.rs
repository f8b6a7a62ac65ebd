use braid_engine::parser::{parse_record, ParseError};
use braid_engine::pokernow::{parse_row, PokerNowRow};
use braid_engine::{
    expand_action, normalize, parse_action_string, process_action, Action, ActionType, BraidWord,
    FingerprintState, Generator, IncrementalUpdate, Seat, SeatResolver, ServerState,
};
use csv::StringRecord;
use num_complex::Complex;

fn eval_poly(p: &braid_engine::poly::LaurentPoly, t: Complex<f64>) -> Complex<f64> {
    let mut acc = Complex::new(0.0, 0.0);
    for (i, c) in p.coeffs.iter().enumerate() {
        let e = p.lo + i as i64;
        acc += Complex::new(*c as f64, 0.0) * t.powi(e as i32);
    }
    acc
}

#[test]
fn test_fresh_trace_magnitude_equals_dimension() {
    // A fresh state of any dimension has writhe 0, crossing count 0, and a
    // trace magnitude equal to the dimension.
    for dim in 2..8usize {
        let state = FingerprintState::new(dim);
        assert_eq!(state.writhe, 0);
        assert_eq!(state.crossing_count, 0);
        let trace = state.burau_trace().unwrap();
        // exactly the constant polynomial `dim`
        assert!(trace.equals_const(dim as i64));
        let t = Complex::new(1.0_f64.cos(), 1.0_f64.sin());
        let magnitude = eval_poly(&trace, t).norm();
        assert!((magnitude - dim as f64).abs() < 1e-12);
    }
}

#[test]
fn test_generator_inverse_restores_identity_exactly() {
    // Applying a generator and then its inverse restores the matrix exactly,
    // not merely within tolerance: the representation is exact.
    for k in 1..4usize {
        let mut state = FingerprintState::new(4);
        state.update(&Generator::Sigma(k));
        assert!(!state.burau_matrix.is_identity());
        state.update(&Generator::InverseSigma(k));
        assert!(state.burau_matrix.is_identity());

        let mut state = FingerprintState::new(4);
        state.update(&Generator::InverseSigma(k));
        state.update(&Generator::Sigma(k));
        assert!(state.burau_matrix.is_identity());
    }
}

#[test]
fn test_normalize_idempotent() {
    let mut word = BraidWord::from_generators(vec![
        Generator::Sigma(1),
        Generator::Sigma(2),
        Generator::Sigma(1),
        Generator::InverseSigma(1),
        Generator::InverseSigma(2),
        Generator::Sigma(1),
    ]);
    normalize(&mut word);
    let once: Vec<Generator> = word.iter().clone();
    normalize(&mut word);
    let twice: Vec<Generator> = word.iter().clone();
    assert_eq!(once, twice, "normalizing a normalized word is a no-op");
}

#[test]
fn test_expand_length_is_absolute_difference() {
    // |to' - from'| where both endpoints are reduced by safe_seat
    assert_eq!(expand_action(Seat::new(1), Seat::new(4), 9).len(), 3);
    assert_eq!(expand_action(Seat::new(7), Seat::new(2), 9).len(), 5);
    // 10 reduces to 1, 18 reduces to 9: length 8
    assert_eq!(expand_action(Seat::new(10), Seat::new(18), 9).len(), 8);
    // ascending walks are all overcrossings, descending all undercrossings
    for g in expand_action(Seat::new(2), Seat::new(6), 9) {
        assert!(g.is_overcrossing());
    }
    for g in expand_action(Seat::new(6), Seat::new(2), 9) {
        assert!(g.is_undercrossing());
    }
}

#[test]
fn test_update_for_seat_out_of_range_creates_no_entry() {
    let mut state = FingerprintState::new(4);
    state.update_for_seat(&Generator::Sigma(1), 0, "Nobody".to_string());
    state.update_for_seat(&Generator::Sigma(1), 5, "Nobody".to_string());
    for seat in 0..7usize {
        assert!(state.seat_metrics(seat).is_none());
    }
    // the global counters still moved
    assert_eq!(state.writhe, 2);
    assert_eq!(state.crossing_count, 2);
}

#[test]
fn test_update_for_seat_tracks_metrics() {
    let mut state = FingerprintState::new(4);
    state.update_for_seat(&Generator::Sigma(1), 2, "Alice".to_string());
    state.update_for_seat(&Generator::InverseSigma(1), 2, String::new());
    state.update_for_seat(&Generator::InverseSigma(2), 2, "Alice2".to_string());
    let m = state.seat_metrics(2).unwrap();
    // an empty name keeps the stored one; a non-empty name overwrites it
    assert_eq!(m.name, "Alice2");
    assert_eq!(m.writhe, -1);
    // the out-of-range generator index 0 left the matrix alone at identity,
    // so the stored complexity is the identity diagonal entry
    let mut state2 = FingerprintState::new(4);
    state2.update_for_seat(&Generator::Sigma(0), 1, "Bob".to_string());
    let m2 = state2.seat_metrics(1).unwrap();
    assert!(m2.complexity.equals_const(1));
    assert_eq!(state2.crossing_count, 1, "counters move even when the matrix does not");
}

#[test]
fn test_reset_keeps_polynomial_cache_slot() {
    // reset clears counters, matrix and per-seat metrics, but the on-demand
    // polynomial cache slot is not part of the reset lifecycle
    let mut state = FingerprintState::new(4);
    state.jones_poly_cache = Some("pending".to_string());
    state.update(&Generator::Sigma(1));
    state.reset();
    assert_eq!(state.jones_poly_cache, Some("pending".to_string()));
}

#[test]
fn test_reset_preserves_dimension() {
    let mut state = FingerprintState::new(7);
    state.update(&Generator::Sigma(3));
    state.update_for_seat(&Generator::Sigma(2), 4, "Dana".to_string());
    state.reset();
    assert_eq!(state.dimension(), 7);
    assert_eq!(state.writhe, 0);
    assert_eq!(state.crossing_count, 0);
    assert!(state.burau_matrix.is_identity());
    assert!(state.seat_metrics(4).is_none());
}

#[test]
fn test_process_action_counts_generators() {
    let mut state = FingerprintState::new(4);
    let action = Action::new(Seat::new(3), ActionType::Call, 50);
    let n = state.process_action(&action, Some(Seat::new(1)));
    assert_eq!(n, 2);
    assert_eq!(state.crossing_count, 2);
    // a reset action restores the fresh state and applies nothing
    let reset = Action::new(Seat::new(1), ActionType::Reset, 0);
    let n = state.process_action(&reset, None);
    assert_eq!(n, 0);
    assert_eq!(state.crossing_count, 0);
    assert!(state.burau_matrix.is_identity());
}

#[test]
fn test_parse_record_error_variants() {
    let mut resolver = SeatResolver::new();

    let mut record = StringRecord::new();
    record.push_field("Alice");
    record.push_field("raise");
    assert_eq!(
        parse_record(&record, &mut resolver).unwrap_err(),
        ParseError::TooFewFields
    );

    let mut record = StringRecord::new();
    record.push_field("Alice");
    record.push_field("dance");
    record.push_field("100");
    assert_eq!(
        parse_record(&record, &mut resolver).unwrap_err(),
        ParseError::UnknownAction
    );

    let mut record = StringRecord::new();
    record.push_field("Alice");
    record.push_field("raise");
    record.push_field("12x");
    assert_eq!(
        parse_record(&record, &mut resolver).unwrap_err(),
        ParseError::InvalidAmount
    );
}

#[test]
fn test_seat_resolver_name_update_keeps_seat() {
    let mut resolver = SeatResolver::new();
    let s1 = resolver.get_or_assign_seat("Alice_p1");
    let s2 = resolver.get_or_assign_seat("Bob_p2");
    // a corrected display name with the same identity part keeps the seat
    let s1b = resolver.get_or_assign_seat("[S5] Alice_p1");
    assert_eq!(s1b.value(), s1.value());
    assert_eq!(resolver.player_count(), 2);
    assert_eq!(resolver.get_player_name(s1), "[S5] Alice_p1");
    assert_eq!(resolver.get_player_name(s2), "Bob_p2");
}

#[test]
fn test_get_player_name_fallback_label() {
    let resolver = SeatResolver::new();
    assert_eq!(resolver.get_player_name(Seat::new(42)), "Seat 42");
}

#[test]
fn test_parse_row_decimal_amount_truncates() {
    let row = PokerNowRow {
        entry: "Dave @ p4 bets 90.5".to_string(),
        at: String::new(),
        order: 1,
    };
    let (_, action_type, amount) = parse_row(&row).unwrap();
    assert_eq!(action_type, ActionType::Bet);
    assert_eq!(amount, 90);
}

#[test]
fn test_parse_row_timestamp_backtracking() {
    // a line that looks like a timestamp but has no action after it is
    // reparsed from the start, with the would-be timestamp as the name
    let row = PokerNowRow {
        entry: "1:23 folds".to_string(),
        at: String::new(),
        order: 1,
    };
    let (player_id, action_type, amount) = parse_row(&row).unwrap();
    assert_eq!(player_id, "1:23_generated");
    assert_eq!(action_type, ActionType::Fold);
    assert_eq!(amount, 0);
}

#[test]
fn test_parse_row_keyword_needs_no_boundary() {
    // the keyword match does not require a word boundary after it
    let row = PokerNowRow {
        entry: "X callsy".to_string(),
        at: String::new(),
        order: 1,
    };
    let (player_id, action_type, amount) = parse_row(&row).unwrap();
    assert_eq!(player_id, "X_generated");
    assert_eq!(action_type, ActionType::Call);
    assert_eq!(amount, 0);
}

#[test]
fn test_parse_row_identity_may_contain_separator() {
    // the shortest name wins, and the identity stretches to the keyword
    let row = PokerNowRow {
        entry: "A @ B @ C folds".to_string(),
        at: String::new(),
        order: 1,
    };
    let (player_id, action_type, _) = parse_row(&row).unwrap();
    assert_eq!(player_id, "A_B @ C");
    assert_eq!(action_type, ActionType::Fold);
}

#[test]
fn test_session_end_to_end() {
    // the toy hand through the full session layer, with per-seat tracking
    let mut state = ServerState::new(false);
    // dimension is 12 here, so the flow 1 -> 3 -> 2 -> 4 -> 1 expands to the
    // same eight generators as with four seats
    let seats = [1usize, 3, 2, 4, 1];
    let mut total = 0usize;
    let mut last = None;
    for (i, s) in seats.iter().enumerate() {
        let action = Action::new(
            Seat::new(*s),
            if i == 0 { ActionType::Raise } else { ActionType::Call },
            100,
        );
        let summary = process_action(action, &mut state);
        total += 1;
        last = Some(summary);
    }
    assert_eq!(total, 5);
    let summary = last.unwrap();
    assert_eq!(summary.step, 5);
    assert_eq!(summary.action, "Seat 1 call ($100)");
    assert_eq!(summary.writhe, 0);
    assert_eq!(state.fingerprint.crossing_count, 8);
    // the flow returned to its starting seat, so the word reduces to the
    // empty word and the exact matrix is the identity again
    assert!(state.fingerprint.burau_matrix.is_identity());
}

#[test]
fn test_parse_action_string_resolves_seats() {
    let mut state = ServerState::new(false);
    let action = parse_action_string("Alice @ p1 calls 50", &mut state).unwrap();
    assert_eq!(action.seat.value(), 1);
    assert_eq!(action.action_type, ActionType::Call);
    assert_eq!(action.amount, 50);
    let action2 = parse_action_string("Bob @ p2 raises to 200", &mut state).unwrap();
    assert_eq!(action2.seat.value(), 2);
    assert_eq!(
        parse_action_string("no such line", &mut state).unwrap_err(),
        ParseError::UnrecognizedLine
    );
}

#[test]
fn test_session_reset_line() {
    let mut state = ServerState::new(false);
    let bet = Action::new(Seat::new(2), ActionType::Bet, 10);
    process_action(bet, &mut state);
    let call = Action::new(Seat::new(3), ActionType::Call, 10);
    process_action(call, &mut state);
    assert!(state.fingerprint.crossing_count > 0);
    let reset = parse_action_string("-- starting hand #2 --", &mut state).unwrap();
    assert_eq!(reset.action_type, ActionType::Reset);
    let summary = process_action(reset, &mut state);
    assert_eq!(summary.step, 0);
    assert_eq!(summary.action, "--- HAND RESET ---");
    assert_eq!(state.fingerprint.crossing_count, 0);
    assert!(state.fingerprint.burau_matrix.is_identity());
}
