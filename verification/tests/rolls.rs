use dice_engine::dice::{
    DiceRoll, Options, RollError, Sides, MAX_DICE_SIDES, MAX_ROLLED_DICE,
};
use dice_engine::engine::roll_expression;
use dice_engine::rng::{ChaChaSource, ThreadSource};
use dice_engine::scan::contains_dice_term;
use rand::SeedableRng;

fn test_rng() -> ChaChaSource {
    ChaChaSource::new(rand_chacha::ChaCha20Rng::from_seed([0; 32]))
}

fn roll_expressions(msg: &str, rng: &mut ChaChaSource) -> Result<(String, String), RollError> {
    dice_engine::engine::roll_expressions(msg, rng).map(|(_, dice, vals)| (dice, vals))
}

#[test]
fn check_regex() {
    assert!(contains_dice_term("(1d20)"));
    assert!(contains_dice_term("1d20"));
    assert!(contains_dice_term("2 + 1d20"));
    assert!(contains_dice_term("4 + (5d11 / 2)"));
}

#[test]
fn dice_roll_from_str() {
    assert_eq!(
        DiceRoll::from_str("1d1", &mut ThreadSource::new()).unwrap(),
        DiceRoll {
            options: Options {
                number_of_dice: 1,
                dice_sides: Sides::Numbered(1),
                explode: None,
                filter: None,
            },
            rolls: vec![1],
        }
    );
}

#[test]
fn roll_expression_simple() {
    assert_eq!(
        roll_expressions("(1d1+1d1)", &mut test_rng()).unwrap(),
        ("([1]+[1])".to_string(), "(1+1)".to_string())
    );
    assert_eq!(
        roll_expressions("(1d1 + 1d1)", &mut test_rng()).unwrap(),
        ("([1] + [1])".to_string(), "(1 + 1)".to_string())
    );
    assert_eq!(
        roll_expressions("(5d11<5)", &mut test_rng()).unwrap(),
        (
            "([~~7~~, 2, ~~9~~, ~~7~~, 3])".to_string(),
            "(5)".to_string()
        )
    );
}

#[test]
fn roll_expression_exploded() {
    assert_eq!(
        roll_expressions("11d3!", &mut test_rng()).unwrap(),
        (
            "[2, 1, 1, 3, 2, 1, 1, 2, 2, 1, 2, 3, 2]".to_string(),
            "23".to_string()
        )
    );
}

#[test]
fn roll_expression_compounded() {
    assert_eq!(
        roll_expressions("11d3!!", &mut test_rng()).unwrap(),
        (
            "[2, 1, 1, 5, 1, 1, 2, 2, 1, 2, 5]".to_string(),
            "23".to_string()
        )
    );
}

#[test]
fn roll_negative() {
    assert!(roll_expression("-1d-1").is_err());
}

#[test]
fn roll_oversized_sides() {
    assert!(roll_expression("2d4294967295").is_err());
}

#[test]
fn roll_oversized_dice() {
    assert!(roll_expression("4294967295d2").is_err());
}

#[test]
fn roll_oversized_result() {
    assert!(roll_expression("999999999d999999999").is_err());
}

#[test]
fn roll_oversized_unparseable() {
    {
        let roll = roll_expression("999999999999999999d1");
        assert!(roll.is_err(), "{roll:?}");
    }
    {
        let roll = roll_expression("1d999999999999999999999999");
        assert!(roll.is_err(), "{roll:?}");
    }
}

#[test]
fn roll_barely_acceptably_sized() {
    {
        let roll = roll_expression(&format!("{}d1", MAX_ROLLED_DICE - 1));
        assert!(roll.is_ok(), "{roll:?}");
    }
    {
        let roll = roll_expression(&format!("1d{}", MAX_DICE_SIDES - 1));
        assert!(roll.is_ok(), "{roll:?}");
    }
    {
        let roll = roll_expression(&format!("{}d{}", MAX_ROLLED_DICE - 1, MAX_DICE_SIDES - 1));
        assert!(roll.is_ok(), "{roll:?}");
    }
}

#[test]
fn handle_overflow_in_sum() {
    assert!(DiceRoll {
        options: Options {
            number_of_dice: 1,
            dice_sides: Sides::Numbered(1),
            explode: None,
            filter: None,
        },
        rolls: vec![i64::MAX - 1, 2],
    }
    .val()
    .is_err())
}

#[test]
fn roll_fudge() {
    assert_eq!(
        roll_expressions("4dF", &mut test_rng()).unwrap(),
        ("[0, -3, -3, 3]".to_string(), "-3".to_string())
    );
}

#[test]
fn roll_expression_without_spaces() {
    assert_eq!(
        roll_expressions("(1d1*10)", &mut test_rng()).unwrap(),
        ("([1]*10)".to_string(), "(1*10)".to_string())
    );
    assert_eq!(
        roll_expressions("(1d1/10)", &mut test_rng()).unwrap(),
        ("([1]/10)".to_string(), "(1/10)".to_string())
    );
    assert_eq!(
        roll_expressions("(1d1+10)", &mut test_rng()).unwrap(),
        ("([1]+10)".to_string(), "(1+10)".to_string())
    );
    assert_eq!(
        roll_expressions("(1d1-10)", &mut test_rng()).unwrap(),
        ("([1]-10)".to_string(), "(1-10)".to_string())
    );
}
