use braid_engine::{expand_action, safe_seat, Generator, Seat};

#[test]
fn test_adjacent_forward() {
    let from = Seat::new(1);
    let to = Seat::new(2);
    let result = expand_action(from, to, 4);
    assert_eq!(result, vec![Generator::Sigma(1)]);
}

#[test]
fn test_adjacent_backward() {
    let from = Seat::new(2);
    let to = Seat::new(1);
    let result = expand_action(from, to, 4);
    assert_eq!(result, vec![Generator::InverseSigma(1)]);
}

#[test]
fn test_jump_forward() {
    let from = Seat::new(1);
    let to = Seat::new(3);
    let result = expand_action(from, to, 4);
    assert_eq!(result, vec![Generator::Sigma(1), Generator::Sigma(2)]);
}

#[test]
fn test_jump_backward() {
    let from = Seat::new(4);
    let to = Seat::new(2);
    let result = expand_action(from, to, 4);
    assert_eq!(result, vec![Generator::InverseSigma(3), Generator::InverseSigma(2)]);
}

#[test]
fn test_same_seat() {
    let seat = Seat::new(2);
    let result = expand_action(seat, seat, 4);
    assert_eq!(result, Vec::<Generator>::new());
}

#[test]
fn test_seat_modulo_wrapping() {
    // Seat 10 with dimension 9 should wrap to 1
    let from = Seat::new(10);
    let to = Seat::new(11);
    let result = expand_action(from, to, 9);
    // 10 wraps to 1, 11 wraps to 2, so 1->2 = sigma_1
    assert_eq!(result, vec![Generator::Sigma(1)]);
}

#[test]
fn test_seat_modulo_large_numbers() {
    let from = Seat::new(25);
    let to = Seat::new(26);
    let result = expand_action(from, to, 9);
    // 25 % 9 = 7, 26 % 9 = 8, so 7->8 = sigma_7
    assert_eq!(result, vec![Generator::Sigma(7)]);
}

#[test]
fn test_safe_seat_function() {
    assert_eq!(safe_seat(10, 9), 1); // 10 wraps to 1
    assert_eq!(safe_seat(12, 9), 3); // 12 wraps to 3
    assert_eq!(safe_seat(5, 9), 5); // Already in range
    assert_eq!(safe_seat(18, 9), 9); // 18 wraps to 9
    assert_eq!(safe_seat(1, 9), 1); // Edge case: minimum
    assert_eq!(safe_seat(9, 9), 9); // Edge case: maximum
}
