//! The die roller: simulates one validated term against the caller's random
//! source, resolving explosion and compounding with a per-die iteration cap.

use vstd::prelude::*;
use crate::dice::{DiceRoll, Explode, Options, RollError, Sides, MAX_EXPLOSIONS};
use crate::rng::RandomSource;

verus! {

/// The bounds one resolved entry obeys: a numbered die shows a face in
/// `1..=n`, a fudge die one of `{-3, 0, 3}`; a compounded entry merges at
/// most `MAX_EXPLOSIONS` re-rolls into one value.
pub open spec fn roll_entry_ok(opts: Options, v: i64) -> bool {
    match opts.dice_sides {
        Sides::Numbered(n) => if opts.explode == Some(Explode::Compound) {
            1 <= v <= n * (MAX_EXPLOSIONS + 1)
        } else {
            1 <= v <= n
        },
        Sides::Fudge => if opts.explode == Some(Explode::Compound) {
            -3 * (MAX_EXPLOSIONS + 1) <= v <= 3 * (MAX_EXPLOSIONS + 1)
        } else {
            v == -3 || v == 0 || v == 3
        },
    }
}

/// The shape every successful roll has: one entry per die unless exploding
/// appended extra entries, never more than the explosion cap allows, each
/// entry within its die's bounds.
pub open spec fn rolls_ok(opts: Options, rolls: Seq<i64>) -> bool {
    &&& opts.number_of_dice <= rolls.len()
    &&& (opts.explode != Some(Explode::Explode) ==> rolls.len() == opts.number_of_dice)
    &&& rolls.len() <= opts.number_of_dice * (MAX_EXPLOSIONS + 1)
    &&& forall|k: int| 0 <= k < rolls.len() ==> roll_entry_ok(opts, #[trigger] rolls[k])
}

/// One possible outcome of a validated term: every numbered die shows 1,
/// every fudge die 0.
pub open spec fn default_rolls(o: Options) -> Seq<i64> {
    Seq::new(
        o.number_of_dice as nat,
        |i: int|
            match o.dice_sides {
                Sides::Numbered(_) => 1i64,
                Sides::Fudge => 0i64,
            },
    )
}

/// The default outcome is a possible outcome.
pub proof fn lemma_default_rolls_ok(o: Options)
    requires
        o.wf(),
    ensures
        rolls_ok(o, default_rolls(o)),
{
    let w = default_rolls(o);
    assert(o.number_of_dice <= o.number_of_dice * (MAX_EXPLOSIONS + 1)) by (nonlinear_arith)
        requires
            o.number_of_dice >= 1,
            MAX_EXPLOSIONS >= 0,
    ;
    match o.dice_sides {
        Sides::Numbered(n) => {
            assert(1 <= n * (MAX_EXPLOSIONS + 1)) by (nonlinear_arith)
                requires
                    n >= 1,
                    MAX_EXPLOSIONS >= 0,
            ;
            assert(forall|k: int| 0 <= k < w.len() ==> roll_entry_ok(o, #[trigger] w[k]));
        },
        Sides::Fudge => {
            assert(forall|k: int| 0 <= k < w.len() ==> roll_entry_ok(o, #[trigger] w[k]));
        },
    }
}

/// Roll one validated term. Draws are consumed die by die, in order, each
/// explosion drawing immediately after its trigger; the only failure is a
/// die whose explosion chain exceeds [`MAX_EXPLOSIONS`].
pub fn roll_dice<R: RandomSource>(opts: &Options, rng: &mut R) -> (r: Result<DiceRoll, RollError>)
    requires
        opts.wf(),
    ensures
        r is Ok ==> r->Ok_0.options == *opts && rolls_ok(*opts, r->Ok_0.rolls@),
        opts.explode is None ==> r is Ok,
        r is Err ==> r->Err_0 == RollError::ExplosionLimit && opts.explode is Some,
{
    let n: usize = opts.number_of_dice as usize;
    let (lo, hi): (i64, i64) = match opts.dice_sides {
        Sides::Numbered(sides) => (1, sides as i64),
        Sides::Fudge => (-1, 1),
    };
    let fudge = match opts.dice_sides {
        Sides::Numbered(_) => false,
        Sides::Fudge => true,
    };
    let mut rolls: Vec<i64> = Vec::new();
    let mut die: usize = 0;
    while die < n
        invariant
            opts.wf(),
            n == opts.number_of_dice,
            die <= n,
            fudge == (opts.dice_sides is Fudge),
            fudge ==> lo == -1 && hi == 1,
            !fudge ==> lo == 1 && hi == opts.dice_sides->Numbered_0,
            die <= rolls@.len() <= die * (MAX_EXPLOSIONS + 1),
            opts.explode != Some(Explode::Explode) ==> rolls@.len() == die,
            forall|k: int| 0 <= k < rolls@.len() ==> roll_entry_ok(*opts, #[trigger] rolls@[k]),
        decreases n - die,
    {
        let face = rng.sample(lo, hi);
        let entry: i64 = if fudge {
            3 * face
        } else {
            face
        };
        match opts.explode {
            None => {
                rolls.push(entry);
            },
            Some(Explode::Explode) => {
                rolls.push(entry);
                let mut last = face;
                let mut chain: u32 = 0;
                while last == hi
                    invariant
                        opts.wf(),
                        die < n == opts.number_of_dice,
                        opts.explode == Some(Explode::Explode),
                        fudge == (opts.dice_sides is Fudge),
                        fudge ==> lo == -1 && hi == 1,
                        !fudge ==> lo == 1 && hi == opts.dice_sides->Numbered_0,
                        chain <= MAX_EXPLOSIONS,
                        die + 1 <= rolls@.len(),
                        rolls@.len() <= die * (MAX_EXPLOSIONS + 1) + chain + 1,
                        forall|k: int|
                            0 <= k < rolls@.len() ==> roll_entry_ok(*opts, #[trigger] rolls@[k]),
                    decreases MAX_EXPLOSIONS - chain,
                {
                    if chain >= MAX_EXPLOSIONS {
                        return Err(RollError::ExplosionLimit);
                    }
                    last = rng.sample(lo, hi);
                    let extra: i64 = if fudge {
                        3 * last
                    } else {
                        last
                    };
                    rolls.push(extra);
                    chain += 1;
                }
                proof {
                    assert(rolls@.len() <= die * (MAX_EXPLOSIONS + 1) + (MAX_EXPLOSIONS + 1));
                }
            },
            Some(Explode::Compound) => {
                let mut sum: i64 = entry;
                let mut last = face;
                let mut chain: u32 = 0;
                while last == hi
                    invariant
                        opts.wf(),
                        opts.explode == Some(Explode::Compound),
                        fudge == (opts.dice_sides is Fudge),
                        fudge ==> lo == -1 && hi == 1,
                        !fudge ==> lo == 1 && hi == opts.dice_sides->Numbered_0,
                        chain <= MAX_EXPLOSIONS,
                        fudge ==> -3 * (chain + 1) <= sum <= 3 * (chain + 1),
                        !fudge ==> 1 <= sum <= hi * (chain + 1),
                        hi <= crate::dice::MAX_DICE_SIDES,
                    decreases MAX_EXPLOSIONS - chain,
                {
                    if chain >= MAX_EXPLOSIONS {
                        return Err(RollError::ExplosionLimit);
                    }
                    last = rng.sample(lo, hi);
                    let extra: i64 = if fudge {
                        3 * last
                    } else {
                        last
                    };
                    proof {
                        if !fudge {
                            assert(hi * (chain + 1) + hi == hi * (chain + 2)) by (nonlinear_arith);
                            assert(hi * (chain + 2) <= crate::dice::MAX_DICE_SIDES * (
                            MAX_EXPLOSIONS + 2)) by (nonlinear_arith)
                                requires
                                    1 <= hi <= crate::dice::MAX_DICE_SIDES,
                                    chain + 2 <= MAX_EXPLOSIONS + 2,
                            ;
                        }
                    }
                    sum = sum + extra;
                    chain += 1;
                }
                proof {
                    if !fudge {
                        assert(hi * (chain + 1) <= hi * (MAX_EXPLOSIONS + 1)) by (nonlinear_arith)
                            requires
                                1 <= hi,
                                chain + 1 <= MAX_EXPLOSIONS + 1,
                        ;
                    }
                }
                rolls.push(sum);
            },
        }
        proof {
            assert((die + 1) * (MAX_EXPLOSIONS + 1) == die * (MAX_EXPLOSIONS + 1) + (
            MAX_EXPLOSIONS + 1)) by (nonlinear_arith);
            assert(die + 1 <= (die + 1) * (MAX_EXPLOSIONS + 1)) by (nonlinear_arith)
                requires
                    die >= 0,
            ;
        }
        die += 1;
    }
    Ok(DiceRoll { options: *opts, rolls })
}

} // verus!
