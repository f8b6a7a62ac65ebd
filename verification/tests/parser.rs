use braid_engine::parser::parse_record;
use braid_engine::{ActionType, SeatResolver};
use braid_engine::parser::parse_action_type;
use csv::StringRecord;

#[test]
fn test_parse_action_type() {
    assert_eq!(parse_action_type("bet").unwrap(), ActionType::Bet);
    assert_eq!(parse_action_type("raise").unwrap(), ActionType::Raise);
    assert_eq!(parse_action_type("check").unwrap(), ActionType::Check);
    assert_eq!(parse_action_type("call").unwrap(), ActionType::Call);
    assert_eq!(parse_action_type("fold").unwrap(), ActionType::Fold);
    assert_eq!(parse_action_type("reraise").unwrap(), ActionType::ReRaise);
    assert_eq!(parse_action_type("allin").unwrap(), ActionType::AllIn);
}

#[test]
fn test_parse_action_type_case_insensitive() {
    assert_eq!(parse_action_type("BET").unwrap(), ActionType::Bet);
    assert_eq!(parse_action_type("Raise").unwrap(), ActionType::Raise);
    assert_eq!(parse_action_type("  call  ").unwrap(), ActionType::Call);
}

#[test]
fn test_seat_resolver() {
    let mut resolver = SeatResolver::new();

    let seat1 = resolver.get_or_assign_seat("Alice");
    assert_eq!(seat1.value(), 1);

    let seat2 = resolver.get_or_assign_seat("Bob");
    assert_eq!(seat2.value(), 2);

    // Alice should get the same seat
    let seat1_again = resolver.get_or_assign_seat("Alice");
    assert_eq!(seat1_again.value(), 1);

    assert_eq!(resolver.player_count(), 2);
    assert_eq!(resolver.max_seat(), 2);
}

#[test]
fn test_parse_record() {
    let mut resolver = SeatResolver::new();
    let mut record = StringRecord::new();
    record.push_field("Alice");
    record.push_field("raise");
    record.push_field("100");

    let action = parse_record(&record, &mut resolver).unwrap();
    assert_eq!(action.seat.value(), 1);
    assert_eq!(action.action_type, ActionType::Raise);
    assert_eq!(action.amount, 100);
}
