use dice_engine::dice::{DiceRoll, Options, RollError, Sides};
use dice_engine::engine::roll_expressions;
use dice_engine::rng::ChaChaSource;
use rand::SeedableRng;

fn seeded(seed: u8) -> ChaChaSource {
    ChaChaSource::new(rand_chacha::ChaCha20Rng::from_seed([seed; 32]))
}

#[test]
fn plain_term_entry_count_and_sum() {
    // Without explosion or filter, the breakdown holds one entry per die
    // and the rendered value is their arithmetic sum.
    for seed in 0..8u8 {
        let (_, dice, vals) = roll_expressions("3d6", &mut seeded(seed)).unwrap();
        let inner = dice.trim_start_matches('[').trim_end_matches(']');
        let entries: Vec<i64> = inner.split(", ").map(|p| p.parse().unwrap()).collect();
        assert_eq!(entries.len(), 3);
        let total: i64 = entries.iter().sum();
        assert_eq!(vals, total.to_string());
    }
}

#[test]
fn one_sided_die_is_deterministic() {
    for seed in 0..8u8 {
        let (total, dice, vals) = roll_expressions("1d1", &mut seeded(seed)).unwrap();
        assert_eq!(total, 1);
        assert_eq!(dice, "[1]");
        assert_eq!(vals, "1");
    }
}

#[test]
fn overflow_error_kind() {
    let roll = DiceRoll {
        options: Options {
            number_of_dice: 1,
            dice_sides: Sides::Numbered(1),
            explode: None,
            filter: None,
        },
        rolls: vec![i64::MAX - 1, 2],
    };
    assert_eq!(roll.val(), Err(RollError::Overflow));
    let fine = DiceRoll {
        options: Options {
            number_of_dice: 1,
            dice_sides: Sides::Numbered(1),
            explode: None,
            filter: None,
        },
        rolls: vec![i64::MAX - 1, 1],
    };
    assert_eq!(fine.val(), Ok(i64::MAX));
}

#[test]
fn bound_error_kinds() {
    assert_eq!(
        roll_expressions("2d4294967295", &mut seeded(0)),
        Err(RollError::OutOfRange)
    );
    assert_eq!(
        roll_expressions("4294967295d2", &mut seeded(0)),
        Err(RollError::OutOfRange)
    );
    assert_eq!(
        roll_expressions("0d6", &mut seeded(0)),
        Err(RollError::OutOfRange)
    );
}

#[test]
fn unparseable_error_kinds() {
    assert_eq!(
        roll_expressions("999999999999999999d1", &mut seeded(0)),
        Err(RollError::Syntax)
    );
    assert_eq!(
        roll_expressions("1d999999999999999999999999", &mut seeded(0)),
        Err(RollError::Syntax)
    );
}

#[test]
fn negative_term_is_a_syntax_error() {
    assert_eq!(
        roll_expressions("-1d-1", &mut seeded(0)),
        Err(RollError::Syntax)
    );
}

#[test]
fn division_by_zero_error_kind() {
    assert_eq!(
        roll_expressions("1d1/0", &mut seeded(0)),
        Err(RollError::DivisionByZero)
    );
}

#[test]
fn explosion_limit_error_kind() {
    // A one-sided exploding die shows its maximum forever and must hit the
    // iteration cap instead of running unbounded.
    assert_eq!(
        roll_expressions("1d1!", &mut seeded(0)),
        Err(RollError::ExplosionLimit)
    );
}

#[test]
fn fudge_entries_stay_in_face_set() {
    for seed in 0..16u8 {
        let (_, dice, _) = roll_expressions("4dF", &mut seeded(seed)).unwrap();
        let inner = dice.trim_start_matches('[').trim_end_matches(']');
        for part in inner.split(", ") {
            let v: i64 = part.parse().unwrap();
            assert!(v == -3 || v == 0 || v == 3, "unexpected fudge entry {v}");
        }
    }
}

#[test]
fn seeded_rolls_are_reproducible() {
    for msg in ["11d3!", "4 + (5d11 / 2)", "2d20>10 * 3dF"] {
        let a = roll_expressions(msg, &mut seeded(7));
        let b = roll_expressions(msg, &mut seeded(7));
        assert_eq!(a, b);
    }
}

#[test]
fn greater_or_equal_filter_keeps_high_entries() {
    // Same seed as the `5d11<5` case: the rolls are 7, 2, 9, 7, 3, and the
    // `>5` comparison keeps values of at least 5.
    let (total, dice, vals) = roll_expressions("5d11>5", &mut seeded(0)).unwrap();
    assert_eq!(dice, "[7, ~~2~~, 9, 7, ~~3~~]");
    assert_eq!(vals, "23");
    assert_eq!(total, 23);
}

#[test]
fn text_outside_terms_is_copied_verbatim() {
    let (total, dice, vals) =
        roll_expressions("  2 + (1d1 * 3)  ", &mut seeded(0)).unwrap();
    assert_eq!(dice, "  2 + ([1] * 3)  ");
    assert_eq!(vals, "  2 + (1 * 3)  ");
    assert_eq!(total, 5);
}

#[test]
fn arithmetic_precedence_and_unary_minus() {
    let (total, _, _) = roll_expressions("10-1d1*3", &mut seeded(0)).unwrap();
    assert_eq!(total, 7);
    let (total, _, _) = roll_expressions("(1d1+1)*3", &mut seeded(0)).unwrap();
    assert_eq!(total, 6);
    let (total, _, _) = roll_expressions("-1d1", &mut seeded(0)).unwrap();
    assert_eq!(total, -1);
    let (total, _, _) = roll_expressions("1d1 - -1d1", &mut seeded(0)).unwrap();
    assert_eq!(total, 2);
    let (total, _, _) = roll_expressions("1d1/10", &mut seeded(0)).unwrap();
    assert_eq!(total, 0);
    let (total, _, _) = roll_expressions("-7/2", &mut seeded(0)).unwrap();
    assert_eq!(total, -3);
}

#[test]
fn default_count_is_one_die() {
    let (total, dice, vals) = roll_expressions("d1", &mut seeded(0)).unwrap();
    assert_eq!(dice, "[1]");
    assert_eq!(vals, "1");
    assert_eq!(total, 1);
}

#[test]
fn unbalanced_parenthesis_is_a_syntax_error() {
    assert_eq!(
        roll_expressions("(1d1+1", &mut seeded(0)),
        Err(RollError::Syntax)
    );
    assert_eq!(
        roll_expressions("1d1)+1", &mut seeded(0)),
        Err(RollError::Syntax)
    );
}
