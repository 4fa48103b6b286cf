//! The engine's general guarantees, stated and proved once over the spec
//! model that every contract speaks of.

use vstd::prelude::*;
use crate::dice::{kept_sum, spec_keeps, Explode, Filter, Options, RollError, Sides};
use crate::eval::{lemma_eval_numeral, spec_eval_text};
use crate::render::{entries_repr, entry_repr, value_repr_of};
use crate::roll::{roll_entry_ok, rolls_ok};
use crate::text::i64_dec;

verus! {

/// The plain sum of all entries, kept or not.
pub open spec fn total_sum(rolls: Seq<i64>) -> int
    decreases rolls.len(),
{
    if rolls.len() == 0 {
        0
    } else {
        total_sum(rolls.drop_last()) + rolls.last()
    }
}

/// The subsequence of entries the filter keeps, in roll order.
pub open spec fn kept_entries(rolls: Seq<i64>, filter: Option<Filter>) -> Seq<i64>
    decreases rolls.len(),
{
    if rolls.len() == 0 {
        Seq::empty()
    } else if spec_keeps(filter, rolls.last()) {
        kept_entries(rolls.drop_last(), filter).push(rolls.last())
    } else {
        kept_entries(rolls.drop_last(), filter)
    }
}

/// Without a filter every entry is kept, and the kept sum is the plain
/// arithmetic sum of all rolled values.
pub proof fn lemma_kept_sum_no_filter(rolls: Seq<i64>)
    ensures
        kept_sum(rolls, None) == total_sum(rolls),
    decreases rolls.len(),
{
    if rolls.len() > 0 {
        lemma_kept_sum_no_filter(rolls.drop_last());
    }
}

/// The kept sum is exactly the plain sum of the kept subsequence.
pub proof fn lemma_kept_sum_is_kept_entries_sum(rolls: Seq<i64>, filter: Option<Filter>)
    ensures
        kept_sum(rolls, filter) == total_sum(kept_entries(rolls, filter)),
    decreases rolls.len(),
{
    if rolls.len() > 0 {
        lemma_kept_sum_is_kept_entries_sum(rolls.drop_last(), filter);
        if spec_keeps(filter, rolls.last()) {
            assert(kept_entries(rolls, filter).drop_last() =~= kept_entries(
                rolls.drop_last(),
                filter,
            ));
        }
    }
}

/// For a term with no explosion mode and no filter, the kept sum equals
/// the arithmetic sum of all rolled values, and the number of entries
/// equals the number of dice.
pub proof fn law_plain_term_sums_all(opts: Options, rolls: Seq<i64>)
    requires
        opts.explode is None,
        opts.filter is None,
        rolls_ok(opts, rolls),
    ensures
        rolls.len() == opts.number_of_dice,
        kept_sum(rolls, opts.filter) == total_sum(rolls),
{
    lemma_kept_sum_no_filter(rolls);
}

/// A single one-sided die is deterministic: whatever the random source
/// holds, the one entry is `1`.
pub proof fn law_one_sided_die(opts: Options, rolls: Seq<i64>)
    requires
        opts.number_of_dice == 1,
        opts.dice_sides == Sides::Numbered(1u32),
        opts.explode is None,
        rolls_ok(opts, rolls),
    ensures
        rolls =~= seq![1i64],
{
    assert(roll_entry_ok(opts, rolls[0]));
}

/// A fudge die's entry records its face — drawn from `{-1, 0, 1}` — scaled
/// by its three faces, so outside compounding every entry is one of
/// `{-3, 0, 3}`.
pub proof fn law_fudge_entries(opts: Options, rolls: Seq<i64>)
    requires
        opts.dice_sides is Fudge,
        opts.explode != Some(Explode::Compound),
        rolls_ok(opts, rolls),
    ensures
        forall|k: int|
            0 <= k < rolls.len() ==> rolls[k] == -3 || rolls[k] == 0 || #[trigger] rolls[k] == 3,
{
    assert forall|k: int|
        0 <= k < rolls.len() implies rolls[k] == -3 || rolls[k] == 0 || #[trigger] rolls[k]
        == 3 by {
        assert(roll_entry_ok(opts, rolls[k]));
    }
}

/// The value view of one term — the decimal numeral of its kept sum —
/// evaluates back to exactly that sum: the arithmetic pass agrees with the
/// renderer on every total the roller can hand it.
pub proof fn law_value_view_evaluates_to_kept_sum(rolls: Seq<i64>, filter: Option<Filter>)
    requires
        i64::MIN < kept_sum(rolls, filter) <= i64::MAX,
    ensures
        spec_eval_text(value_repr_of(rolls, filter)) == Ok::<i64, RollError>(
            kept_sum(rolls, filter) as i64,
        ),
{
    lemma_eval_numeral(kept_sum(rolls, filter));
}

/// The filter strikes exactly the entries whose value fails its
/// comparison: a struck entry renders wrapped in the strikethrough marker,
/// a kept one renders plain, and the value view's numeral is the sum of
/// the kept entries alone.
pub proof fn law_filter_strikes_exactly(rolls: Seq<i64>, filter: Option<Filter>)
    ensures
        forall|k: int|
            0 <= k < rolls.len() && !spec_keeps(filter, rolls[k]) ==> #[trigger] entry_repr(
                filter,
                rolls[k],
            ) == seq!['~', '~'] + i64_dec(rolls[k] as int) + seq!['~', '~'],
        forall|k: int|
            0 <= k < rolls.len() && spec_keeps(filter, rolls[k]) ==> #[trigger] entry_repr(
                filter,
                rolls[k],
            ) == i64_dec(rolls[k] as int),
        value_repr_of(rolls, filter) == i64_dec(total_sum(kept_entries(rolls, filter))),
{
    lemma_kept_sum_is_kept_entries_sum(rolls, filter);
}

} // verus!
