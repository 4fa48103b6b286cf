//! The data model of a dice term: its options, the resulting roll, and the
//! errors an evaluation can end in.

use vstd::prelude::*;

verus! {

/// Upper bound (exclusive) on the number of dice a single term may roll.
pub const MAX_ROLLED_DICE: u32 = 1000;

/// Upper bound (exclusive) on the face count of a single die.
pub const MAX_DICE_SIDES: u32 = 1000000;

/// Most explosion re-rolls allowed for a single die before the roll is
/// refused; this bound keeps every evaluation's work finite even when every
/// face of a die is its maximum.
pub const MAX_EXPLOSIONS: u32 = 100;

/// Why an evaluation failed. Every error aborts the whole evaluation; there
/// is no partial result.
#[derive(Clone, Copy, Debug, PartialEq, Eq, Structural)]
pub enum RollError {
    /// The text does not conform to the grammar: an unparseable numeral, or
    /// arithmetic text that is not a well-formed expression.
    Syntax,
    /// A count or sides value parses but lies outside the policy bounds.
    OutOfRange,
    /// Accumulating values overflowed the engine's signed 64-bit width.
    Overflow,
    /// A die's explosion chain exceeded the iteration cap.
    ExplosionLimit,
    /// The arithmetic pass attempted to divide by zero.
    DivisionByZero,
}

/// What happens when a die shows its maximum face.
#[derive(Clone, Copy, Debug, PartialEq, Eq, Structural)]
pub enum Explode {
    /// Append the re-roll as a new, separate entry.
    Explode,
    /// Merge the re-roll into the same entry.
    Compound,
}

/// A keep-versus-strike threshold comparison applied to each final entry.
#[derive(Clone, Copy, Debug, PartialEq, Eq, Structural)]
pub enum Filter {
    /// Keep an entry exactly when its value is below the threshold.
    LessThan(i64),
    /// Keep an entry exactly when its value is at least the threshold.
    GreaterOrEqual(i64),
}

/// The face set of one die.
#[derive(Clone, Copy, Debug, PartialEq, Eq, Structural)]
pub enum Sides {
    /// Faces `1..=n`, all equally likely.
    Numbered(u32),
    /// A fudge die: a face is drawn from `{-1, 0, 1}` and recorded scaled by
    /// its three faces, so an entry is one of `{-3, 0, 3}`.
    Fudge,
}

/// A validated dice term.
#[derive(Clone, Copy, Debug, PartialEq, Eq, Structural)]
pub struct Options {
    /// How many dice the term rolls.
    pub number_of_dice: u32,
    /// The face set shared by all of the term's dice.
    pub dice_sides: Sides,
    /// The explosion mode, if the term carries `!` or `!!`.
    pub explode: Option<Explode>,
    /// The keep-versus-strike comparison, if the term carries one.
    pub filter: Option<Filter>,
}

impl Options {
    /// The bounds every term must meet before it is rolled.
    pub open spec fn wf(self) -> bool {
        &&& 1 <= self.number_of_dice < MAX_ROLLED_DICE
        &&& match self.dice_sides {
            Sides::Numbered(n) => 1 <= n < MAX_DICE_SIDES,
            Sides::Fudge => true,
        }
    }
}

/// Whether the filter keeps an entry of value `v`.
pub open spec fn spec_keeps(filter: Option<Filter>, v: i64) -> bool {
    match filter {
        None => true,
        Some(Filter::LessThan(t)) => v < t,
        Some(Filter::GreaterOrEqual(t)) => v >= t,
    }
}

/// Exec mirror of [`spec_keeps`].
pub fn keeps(filter: &Option<Filter>, v: i64) -> (r: bool)
    ensures
        r == spec_keeps(*filter, v),
{
    match filter {
        None => true,
        Some(Filter::LessThan(t)) => v < *t,
        Some(Filter::GreaterOrEqual(t)) => v >= *t,
    }
}

/// The mathematical sum of the kept entries of `rolls`.
pub open spec fn kept_sum(rolls: Seq<i64>, filter: Option<Filter>) -> int
    decreases rolls.len(),
{
    if rolls.len() == 0 {
        0
    } else {
        kept_sum(rolls.drop_last(), filter) + if spec_keeps(filter, rolls.last()) {
            rolls.last() as int
        } else {
            0
        }
    }
}

/// Whether every prefix of the kept running sum stays within `i64`; the
/// engine accumulates left to right with checked addition, so this is
/// exactly when summation succeeds.
pub open spec fn sum_fits(rolls: Seq<i64>, filter: Option<Filter>) -> bool {
    forall|k: int|
        0 <= k <= rolls.len() ==> i64::MIN <= kept_sum(#[trigger] rolls.take(k), filter)
            <= i64::MAX
}

/// One evaluated dice term: its options and its entries, one per die after
/// explosion and compounding are resolved.
#[derive(Debug, PartialEq, Eq)]
pub struct DiceRoll {
    /// The term that was rolled.
    pub options: Options,
    /// The entries in roll order; struck entries are still present, the
    /// filter only excludes them from the sum.
    pub rolls: Vec<i64>,
}

impl DiceRoll {
    /// The sum of the kept entries, accumulated left to right with
    /// overflow-checked addition in signed 64-bit arithmetic.
    pub fn val(&self) -> (r: Result<i64, RollError>)
        ensures
            sum_fits(self.rolls@, self.options.filter) ==> r == Ok::<i64, RollError>(
                kept_sum(self.rolls@, self.options.filter) as i64,
            ),
            !sum_fits(self.rolls@, self.options.filter) ==> r == Err::<i64, RollError>(
                RollError::Overflow,
            ),
    {
        let mut acc: i64 = 0;
        let mut i: usize = 0;
        proof {
            assert(self.rolls@.take(0) =~= Seq::<i64>::empty());
        }
        while i < self.rolls.len()
            invariant
                0 <= i <= self.rolls@.len(),
                acc == kept_sum(self.rolls@.take(i as int), self.options.filter),
                forall|k: int|
                    0 <= k <= i ==> i64::MIN <= kept_sum(
                        #[trigger] self.rolls@.take(k),
                        self.options.filter,
                    ) <= i64::MAX,
            decreases self.rolls@.len() - i,
        {
            let v = self.rolls[i];
            proof {
                assert(self.rolls@.take(i + 1).drop_last() =~= self.rolls@.take(i as int));
                assert(self.rolls@.take(i + 1).last() == v);
            }
            if keeps(&self.options.filter, v) {
                match acc.checked_add(v) {
                    Some(s) => {
                        acc = s;
                    },
                    None => {
                        proof {
                            assert(!sum_fits(self.rolls@, self.options.filter)) by {
                                assert(kept_sum(self.rolls@.take(i + 1), self.options.filter)
                                    == acc + v);
                            }
                        }
                        return Err(RollError::Overflow);
                    },
                }
            }
            i += 1;
        }
        proof {
            assert(self.rolls@.take(self.rolls@.len() as int) =~= self.rolls@);
            assert(sum_fits(self.rolls@, self.options.filter));
        }
        Ok(acc)
    }
}

} // verus!
