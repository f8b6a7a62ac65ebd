use braid_engine::pokernow::{parse_row, PokerNowRow};
use braid_engine::ActionType;

#[test]
fn test_parse_fold() {
    let row = PokerNowRow {
        entry: "Alice @ p1 folds".to_string(),
        at: "2025-01-01T12:00:00".to_string(),
        order: 1,
    };

    let result = parse_row(&row);
    assert!(result.is_some());
    let (player_id, action_type, amount) = result.unwrap();
    assert_eq!(player_id, "Alice_p1");
    assert_eq!(action_type, ActionType::Fold);
    assert_eq!(amount, 0);
}

#[test]
fn test_parse_check() {
    let row = PokerNowRow {
        entry: "Bob @ p2 checks".to_string(),
        at: "2025-01-01T12:00:01".to_string(),
        order: 2,
    };

    let result = parse_row(&row);
    assert!(result.is_some());
    let (player_id, action_type, amount) = result.unwrap();
    assert_eq!(player_id, "Bob_p2");
    assert_eq!(action_type, ActionType::Check);
    assert_eq!(amount, 0);
}

#[test]
fn test_parse_call() {
    let row = PokerNowRow {
        entry: "Charlie @ p3 calls 50".to_string(),
        at: "2025-01-01T12:00:02".to_string(),
        order: 3,
    };

    let result = parse_row(&row);
    assert!(result.is_some());
    let (player_id, action_type, amount) = result.unwrap();
    assert_eq!(player_id, "Charlie_p3");
    assert_eq!(action_type, ActionType::Call);
    assert_eq!(amount, 50);
}

#[test]
fn test_parse_bet() {
    let row = PokerNowRow {
        entry: "Dave @ p4 bets 100".to_string(),
        at: "2025-01-01T12:00:03".to_string(),
        order: 4,
    };

    let result = parse_row(&row);
    assert!(result.is_some());
    let (player_id, action_type, amount) = result.unwrap();
    assert_eq!(player_id, "Dave_p4");
    assert_eq!(action_type, ActionType::Bet);
    assert_eq!(amount, 100);
}

#[test]
fn test_parse_raises_to() {
    let row = PokerNowRow {
        entry: "Alice @ p1 raises to 200".to_string(),
        at: "2025-01-01T12:00:04".to_string(),
        order: 5,
    };

    let result = parse_row(&row);
    assert!(result.is_some());
    let (player_id, action_type, amount) = result.unwrap();
    assert_eq!(player_id, "Alice_p1");
    assert_eq!(action_type, ActionType::Raise);
    assert_eq!(amount, 200);
}

#[test]
fn test_parse_shows_filtered() {
    let row = PokerNowRow {
        entry: "Alice @ p1 shows hand ...".to_string(),
        at: "2025-01-01T12:00:05".to_string(),
        order: 6,
    };

    let result = parse_row(&row);
    assert!(result.is_none(), "Shows action should be filtered out");
}

#[test]
fn test_parse_system_message_filtered() {
    let row = PokerNowRow {
        entry: "System: Player xyz joined".to_string(),
        at: "2025-01-01T12:00:06".to_string(),
        order: 7,
    };

    let result = parse_row(&row);
    assert!(result.is_none(), "System messages should be filtered out");
}

#[test]
fn test_player_id_uniqueness() {
    // The same name with different identities gets different player ids
    let row1 = PokerNowRow {
        entry: "Alice @ p1 calls 50".to_string(),
        at: "2025-01-01T12:00:00".to_string(),
        order: 1,
    };

    let row2 = PokerNowRow {
        entry: "Alice @ p2 calls 50".to_string(),
        at: "2025-01-01T12:00:01".to_string(),
        order: 2,
    };

    let result1 = parse_row(&row1);
    let result2 = parse_row(&row2);

    assert!(result1.is_some());
    assert!(result2.is_some());

    assert_eq!(result1.unwrap().0, "Alice_p1");
    assert_eq!(result2.unwrap().0, "Alice_p2");
}

#[test]
fn test_parse_live_dom_format_with_timestamp() {
    // Live DOM format: "23:18 le_chiffre calls 90"
    let row = PokerNowRow {
        entry: "23:18 le_chiffre calls 90".to_string(),
        at: "2025-01-01T12:00:00".to_string(),
        order: 1,
    };

    let result = parse_row(&row);
    assert!(result.is_some(), "Should parse live DOM format with timestamp");
    let (player_id, action_type, amount) = result.unwrap();
    assert_eq!(player_id, "le_chiffre_generated", "Should generate ID when missing");
    assert_eq!(action_type, ActionType::Call);
    assert_eq!(amount, 90);
}

#[test]
fn test_parse_live_dom_format_without_timestamp() {
    let row = PokerNowRow {
        entry: "le_chiffre calls 90".to_string(),
        at: "2025-01-01T12:00:00".to_string(),
        order: 1,
    };

    let result = parse_row(&row);
    assert!(result.is_some(), "Should parse live DOM format without timestamp");
    let (player_id, action_type, amount) = result.unwrap();
    assert_eq!(player_id, "le_chiffre_generated");
    assert_eq!(action_type, ActionType::Call);
    assert_eq!(amount, 90);
}

#[test]
fn test_parse_mixed_formats() {
    let csv_row = PokerNowRow {
        entry: "Alice @ p1 raises to 200".to_string(),
        at: "2025-01-01T12:00:00".to_string(),
        order: 1,
    };

    let live_row = PokerNowRow {
        entry: "23:18 Bob bets 100".to_string(),
        at: "2025-01-01T12:00:01".to_string(),
        order: 2,
    };

    let csv_result = parse_row(&csv_row);
    let live_result = parse_row(&live_row);

    assert!(csv_result.is_some());
    assert!(live_result.is_some());

    assert_eq!(csv_result.unwrap().0, "Alice_p1");
    assert_eq!(live_result.unwrap().0, "Bob_generated");
}

#[test]
fn test_parse_hand_reset() {
    let row = PokerNowRow {
        entry: "-- starting hand #5 --".to_string(),
        at: "2025-01-01T12:00:00".to_string(),
        order: 1,
    };

    let result = parse_row(&row);
    assert!(result.is_some(), "Should parse hand reset delimiter");
    let (player_id, action_type, amount) = result.unwrap();
    assert_eq!(player_id, "system_reset");
    assert_eq!(action_type, ActionType::Reset);
    assert_eq!(amount, 0);
}

#[test]
fn test_parse_hand_reset_with_timestamp() {
    let row = PokerNowRow {
        entry: "23:18 -- starting hand #3 --".to_string(),
        at: "2025-01-01T12:00:00".to_string(),
        order: 1,
    };

    let result = parse_row(&row);
    assert!(result.is_some(), "Should parse hand reset with timestamp");
    let (player_id, action_type, _) = result.unwrap();
    assert_eq!(player_id, "system_reset");
    assert_eq!(action_type, ActionType::Reset);
}

#[test]
fn test_parse_posts_action() {
    // "posts" (blinds) maps to Bet
    let row = PokerNowRow {
        entry: "Alice @ p1 posts 10".to_string(),
        at: "2025-01-01T12:00:00".to_string(),
        order: 1,
    };

    let result = parse_row(&row);
    assert!(result.is_some(), "Should parse posts action");
    let (_, action_type, amount) = result.unwrap();
    assert_eq!(action_type, ActionType::Bet);
    assert_eq!(amount, 10);
}
