use ewar_bot::submission::{parse_game_time, signatures_needed, validate_placement, BadPlacement, GameTimeError};

#[test]
fn game_time_forms() {
    assert_eq!(parse_game_time("45"), Ok(45));
    assert_eq!(parse_game_time("2:05"), Ok(125));
    assert_eq!(parse_game_time("1:02:03"), Ok(3723));
    assert_eq!(parse_game_time("0:90"), Ok(90));
    assert_eq!(parse_game_time("+5"), Ok(5));
    assert_eq!(parse_game_time("007"), Ok(7));
}

#[test]
fn game_time_errors() {
    assert_eq!(parse_game_time(""), Err(GameTimeError::BadFormat));
    assert_eq!(parse_game_time("1::2"), Err(GameTimeError::BadFormat));
    assert_eq!(parse_game_time("1:2:3:4"), Err(GameTimeError::BadFormat));
    assert_eq!(parse_game_time(":30"), Err(GameTimeError::BadFormat));
    assert_eq!(parse_game_time("a:10"), Err(GameTimeError::NotANumber));
    assert_eq!(parse_game_time("-5"), Err(GameTimeError::NotANumber));
    assert_eq!(parse_game_time("+"), Err(GameTimeError::NotANumber));
    assert_eq!(parse_game_time("4294967296"), Err(GameTimeError::NotANumber));
    assert_eq!(parse_game_time("4294967295"), Ok(4294967295));
    assert_eq!(parse_game_time("4294967295:0"), Err(GameTimeError::TooLong));
}

#[test]
fn signoff_counts() {
    assert_eq!(signatures_needed(2), 2);
    assert_eq!(signatures_needed(3), 3);
    assert_eq!(signatures_needed(4), 3);
    assert_eq!(signatures_needed(5), 3);
    assert_eq!(signatures_needed(11), 6);
}

#[test]
fn placement_checks() {
    let placement = vec![100, 200, 300];
    let found = vec![Some(1), Some(2), Some(3)];
    assert_eq!(validate_placement(200, false, &placement, &found), Ok(vec![1, 2, 3]));
    assert_eq!(validate_placement(999, false, &placement, &found), Err(BadPlacement::NotAParty));
    assert_eq!(validate_placement(999, true, &placement, &found), Ok(vec![1, 2, 3]));
    let dup = vec![100, 200, 100];
    assert_eq!(validate_placement(100, false, &dup, &found), Err(BadPlacement::DuplicateUser));
    let missing = vec![Some(1), None, None];
    assert_eq!(
        validate_placement(100, false, &placement, &missing),
        Err(BadPlacement::UserNotFound { offending: 200 })
    );
}
