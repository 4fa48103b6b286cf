//! The term parser: turns one matched span into a validated [`Options`]
//! value, or fails. All numerals are read first — one whose value does not
//! fit the 32-bit counting width is unparseable — and only then are the
//! policy bounds enforced.

use vstd::prelude::*;
use crate::dice::{Explode, Filter, Options, RollError, Sides, MAX_DICE_SIDES, MAX_ROLLED_DICE};
use crate::scan::{shape_wf, TermShape};
use crate::text::{digits_val, lemma_digits_val_nonneg, parse_u32_digits};

verus! {

/// The dice count a span denotes: 1 when no digits precede the `d`.
pub open spec fn spec_count_val(s: Seq<char>, sh: TermShape) -> int {
    if sh.d_pos == sh.start {
        1
    } else {
        digits_val(s.subrange(sh.start as int, sh.d_pos as int))
    }
}

/// The sides value a span denotes; unused for fudge terms.
pub open spec fn spec_sides_val(s: Seq<char>, sh: TermShape) -> int {
    digits_val(s.subrange(sh.d_pos + 1, sh.sides_end as int))
}

/// The filter threshold a span denotes; unused when there is no filter.
pub open spec fn spec_threshold_val(s: Seq<char>, sh: TermShape) -> int {
    digits_val(s.subrange(sh.bang_end() + 1, sh.end as int))
}

/// The explosion mode the span's `!` marks denote.
pub open spec fn spec_explode_of(sh: TermShape) -> Option<Explode> {
    if sh.bangs == 2 {
        Some(Explode::Compound)
    } else if sh.bangs == 1 {
        Some(Explode::Explode)
    } else {
        None
    }
}

/// What parsing a matched span yields: a numeral beyond the counting width
/// is a syntax failure; a count or sides value outside the policy bounds is
/// out of range; otherwise the validated options.
pub open spec fn spec_parse_term(s: Seq<char>, sh: TermShape) -> Result<Options, RollError> {
    let cv = spec_count_val(s, sh);
    let sv = spec_sides_val(s, sh);
    let tv = spec_threshold_val(s, sh);
    if cv > u32::MAX || (!sh.fudge && sv > u32::MAX) || (sh.filt && tv > u32::MAX) {
        Err(RollError::Syntax)
    } else if !(1 <= cv < MAX_ROLLED_DICE) || (!sh.fudge && !(1 <= sv < MAX_DICE_SIDES)) {
        Err(RollError::OutOfRange)
    } else {
        Ok(
            Options {
                number_of_dice: cv as u32,
                dice_sides: if sh.fudge {
                    Sides::Fudge
                } else {
                    Sides::Numbered(sv as u32)
                },
                explode: spec_explode_of(sh),
                filter: if sh.filt {
                    if s[sh.bang_end()] == '<' {
                        Some(Filter::LessThan(tv as i64))
                    } else {
                        Some(Filter::GreaterOrEqual(tv as i64))
                    }
                } else {
                    None
                },
            },
        )
    }
}

/// A parsed term meets the policy bounds.
pub proof fn lemma_parse_term_wf(s: Seq<char>, sh: TermShape)
    requires
        spec_parse_term(s, sh) is Ok,
    ensures
        spec_parse_term(s, sh)->Ok_0.wf(),
{
}

/// Exec mirror of [`spec_parse_term`].
pub fn parse_term(chars: &Vec<char>, sh: &TermShape) -> (r: Result<Options, RollError>)
    requires
        shape_wf(chars@, *sh),
    ensures
        r == spec_parse_term(chars@, *sh),
{
    let count: u32 = if sh.d_pos == sh.start {
        1
    } else {
        match parse_u32_digits(chars, sh.start, sh.d_pos) {
            Ok(v) => v,
            Err(e) => {
                return Err(e);
            },
        }
    };
    let sides: u32 = if sh.fudge {
        1
    } else {
        match parse_u32_digits(chars, sh.d_pos + 1, sh.sides_end) {
            Ok(v) => v,
            Err(e) => {
                return Err(e);
            },
        }
    };
    let bang_end: usize = sh.sides_end + sh.bangs;
    let threshold: u32 = if sh.filt {
        match parse_u32_digits(chars, bang_end + 1, sh.end) {
            Ok(v) => v,
            Err(e) => {
                return Err(e);
            },
        }
    } else {
        0
    };
    proof {
        if sh.d_pos != sh.start {
            lemma_digits_val_nonneg(chars@.subrange(sh.start as int, sh.d_pos as int));
            assert(spec_count_val(chars@, *sh) == count);
        }
        if !sh.fudge {
            lemma_digits_val_nonneg(chars@.subrange(sh.d_pos + 1, sh.sides_end as int));
            assert(spec_sides_val(chars@, *sh) == sides);
        }
        if sh.filt {
            assert(chars@.subrange((bang_end + 1) as int, sh.end as int) =~= chars@.subrange(
                sh.bang_end() + 1,
                sh.end as int,
            ));
            lemma_digits_val_nonneg(chars@.subrange(sh.bang_end() + 1, sh.end as int));
            assert(spec_threshold_val(chars@, *sh) == threshold);
        }
    }
    if !(1 <= count && count < MAX_ROLLED_DICE) || (!sh.fudge && !(1 <= sides && sides
        < MAX_DICE_SIDES)) {
        return Err(RollError::OutOfRange);
    }
    let explode: Option<Explode> = if sh.bangs == 2 {
        Some(Explode::Compound)
    } else if sh.bangs == 1 {
        Some(Explode::Explode)
    } else {
        None
    };
    let filter: Option<Filter> = if sh.filt {
        if chars[bang_end] == '<' {
            Some(Filter::LessThan(threshold as i64))
        } else {
            Some(Filter::GreaterOrEqual(threshold as i64))
        }
    } else {
        None
    };
    Ok(
        Options {
            number_of_dice: count,
            dice_sides: if sh.fudge {
                Sides::Fudge
            } else {
                Sides::Numbered(sides)
            },
            explode,
            filter,
        },
    )
}

} // verus!
