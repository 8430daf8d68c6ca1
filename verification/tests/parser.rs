use roll::{parse_and_validate, parse_dice_expression, DiceError, DiceRequest, RollMode};

#[test]
fn test_parse_dice_simple() {
    let (_, res) = parse_dice_expression("1d20").unwrap();
    assert_eq!(
        res,
        DiceRequest {
            count: 1,
            sides: 20,
            mode: RollMode::Normal
        }
    );
}

#[test]
fn test_parse_dice_advantage() {
    let (_, res) = parse_dice_expression("1d20a").unwrap();
    assert_eq!(
        res,
        DiceRequest {
            count: 1,
            sides: 20,
            mode: RollMode::Advantage
        }
    );
}

#[test]
fn test_parse_dice_disadvantage() {
    let (_, res) = parse_dice_expression("1d20d").unwrap();
    assert_eq!(
        res,
        DiceRequest {
            count: 1,
            sides: 20,
            mode: RollMode::Disadvantage
        }
    );
}

#[test]
fn test_parse_dice_implicit_count() {
    let (_, res) = parse_dice_expression("d6").unwrap();
    assert_eq!(
        res,
        DiceRequest {
            count: 1,
            sides: 6,
            mode: RollMode::Normal
        }
    );
}

#[test]
fn test_parse_dice_multiple() {
    let (_, res) = parse_dice_expression("10d100").unwrap();
    assert_eq!(
        res,
        DiceRequest {
            count: 10,
            sides: 100,
            mode: RollMode::Normal
        }
    );
}

#[test]
fn test_parse_dice_invalid() {
    assert!(parse_dice_expression("invalid").is_err());
    let (rem, _) = parse_dice_expression("1d20extra").unwrap();
    assert_eq!(rem, "extra");
}

#[test]
fn implicit_count_equals_explicit_one() {
    let a = parse_and_validate("d6").unwrap();
    let b = parse_and_validate("1d6").unwrap();
    assert_eq!(a, b);
}

#[test]
fn mode_letter_collides_with_trailing_content() {
    // the first trailing letter is the mode; anything after it is trailing
    let (rem, res) = parse_dice_expression("1d20dd").unwrap();
    assert_eq!(res.mode, RollMode::Disadvantage);
    assert_eq!(rem, "d");
    assert!(matches!(
        parse_and_validate("1d20dd"),
        Err(DiceError::TrailingContent { .. })
    ));
}

#[test]
fn validate_rejects_syntax() {
    let err = parse_and_validate("invalid").unwrap_err();
    match &err {
        DiceError::Syntax { token } => assert_eq!(token, "invalid"),
        other => panic!("expected a syntax error, got {:?}", other),
    }
    assert_eq!(
        err.message(),
        "Error: Failed to parse dice expression 'invalid'. Expected format 'NdS' (e.g. 1d20, 4d8)."
    );
}

#[test]
fn validate_rejects_trailing_content() {
    let err = parse_and_validate("1d20extra").unwrap_err();
    match &err {
        DiceError::TrailingContent { token, rest } => {
            assert_eq!(token, "1d20extra");
            assert_eq!(rest, "extra");
        }
        other => panic!("expected a trailing-content error, got {:?}", other),
    }
    assert_eq!(
        err.message(),
        "Error: Invalid dice format '1d20extra'. Unparsed content: 'extra'"
    );
}

#[test]
fn validate_rejects_zero_sides() {
    let err = parse_and_validate("2d0").unwrap_err();
    assert!(matches!(err, DiceError::ZeroSides));
    assert_eq!(err.message(), "Error: Dice cannot have 0 sides.");
}

#[test]
fn validate_accepts_whole_token() {
    let res = parse_and_validate("10d100").unwrap();
    assert_eq!(res.count, 10);
    assert_eq!(res.sides, 100);
    assert_eq!(res.mode, RollMode::Normal);
}

#[test]
fn zero_count_is_rejected() {
    // a request always names at least one die: an explicit zero count fails
    let err = parse_and_validate("0d6").unwrap_err();
    match &err {
        DiceError::Syntax { token } => assert_eq!(token, "0d6"),
        other => panic!("expected a syntax error, got {:?}", other),
    }
    // the zero-sides check comes first, as in the validation order
    assert!(matches!(
        parse_and_validate("0d0"),
        Err(DiceError::ZeroSides)
    ));
}

#[test]
fn count_too_large_is_syntax_error() {
    // a count that does not fit in 32 bits fails the numeric parse
    assert!(parse_and_validate("99999999999d6").is_err());
    assert!(parse_and_validate("1d99999999999").is_err());
}

#[test]
fn canonical_text_is_exact() {
    let req = parse_and_validate("2d20a").unwrap();
    assert_eq!(roll::canonical(&req), "2d20a");
    let req = parse_and_validate("d6").unwrap();
    assert_eq!(roll::canonical(&req), "1d6");
    let req = parse_and_validate("3d10d").unwrap();
    assert_eq!(roll::canonical(&req), "3d10d");
}

#[test]
fn largest_values_still_parse() {
    let (_, res) = parse_dice_expression("4294967295d4294967295").unwrap();
    assert_eq!(res.count, u32::MAX);
    assert_eq!(res.sides, u32::MAX);
    assert!(parse_dice_expression("4294967296d6").is_err());
}

#[test]
fn canonical_round_trip() {
    for token in ["1d20", "4d8a", "10d100", "3d6d", "d6"] {
        let req = parse_and_validate(token).unwrap();
        let text = roll::canonical(&req);
        let again = parse_and_validate(text.as_str()).unwrap();
        assert_eq!(req, again);
    }
}
