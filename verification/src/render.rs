//! The expression renderer: replaces each matched term span with its
//! rendered text — a bracketed roll breakdown for one view, the kept sum's
//! numeral for the other — and copies every character outside the spans
//! through unchanged.

use vstd::prelude::*;
use crate::dice::{kept_sum, spec_keeps, DiceRoll, Filter};
use crate::scan::TermShape;
use crate::text::{fmt_i64, i64_dec};

verus! {

/// One rendered entry: the numeral of its value, wrapped in the
/// strikethrough marker when the filter strikes it.
pub open spec fn entry_repr(filter: Option<Filter>, v: i64) -> Seq<char> {
    if spec_keeps(filter, v) {
        i64_dec(v as int)
    } else {
        seq!['~', '~'] + i64_dec(v as int) + seq!['~', '~']
    }
}

/// The rendered entries in roll order, separated by a comma and a space.
pub open spec fn entries_repr(rolls: Seq<i64>, filter: Option<Filter>) -> Seq<char>
    decreases rolls.len(),
{
    if rolls.len() == 0 {
        Seq::empty()
    } else if rolls.len() == 1 {
        entry_repr(filter, rolls[0])
    } else {
        entries_repr(rolls.drop_last(), filter) + seq![',', ' '] + entry_repr(filter, rolls.last())
    }
}

/// The bracketed roll breakdown that replaces a term span in the dice view.
pub open spec fn dice_repr_of(rolls: Seq<i64>, filter: Option<Filter>) -> Seq<char> {
    seq!['['] + entries_repr(rolls, filter) + seq![']']
}

/// The numeral that replaces a term span in the value view.
pub open spec fn value_repr_of(rolls: Seq<i64>, filter: Option<Filter>) -> Seq<char> {
    i64_dec(kept_sum(rolls, filter))
}

/// The text with each term span replaced by its replacement, scanning from
/// `pos`: the characters between spans are copied verbatim.
pub open spec fn splice(s: Seq<char>, terms: Seq<TermShape>, repls: Seq<Seq<char>>, pos: int)
    -> Seq<char>
    decreases terms.len(),
{
    if terms.len() == 0 {
        s.subrange(pos, s.len() as int)
    } else {
        s.subrange(pos, terms[0].start as int) + repls[0] + splice(
            s,
            terms.drop_first(),
            repls.drop_first(),
            terms[0].end as int,
        )
    }
}

/// The copied-through pieces of the text: what lies before, between and
/// after the term spans.
pub open spec fn gaps_of(s: Seq<char>, terms: Seq<TermShape>, pos: int) -> Seq<Seq<char>>
    decreases terms.len(),
{
    if terms.len() == 0 {
        seq![s.subrange(pos, s.len() as int)]
    } else {
        seq![s.subrange(pos, terms[0].start as int)] + gaps_of(
            s,
            terms.drop_first(),
            terms[0].end as int,
        )
    }
}

/// Alternate gap text with replacements: `g0 + r0 + g1 + r1 + … + gn`.
pub open spec fn weave(gaps: Seq<Seq<char>>, repls: Seq<Seq<char>>) -> Seq<char>
    decreases repls.len(),
{
    if repls.len() == 0 {
        if gaps.len() > 0 {
            gaps[0]
        } else {
            Seq::empty()
        }
    } else {
        gaps[0] + repls[0] + weave(gaps.drop_first(), repls.drop_first())
    }
}

/// Splicing is exactly weaving the untouched gap text with the
/// replacements: every character outside a term span is reproduced, in
/// order, whatever the replacements are.
pub proof fn lemma_splice_weave(s: Seq<char>, terms: Seq<TermShape>, repls: Seq<Seq<char>>, pos: int)
    requires
        repls.len() == terms.len(),
    ensures
        splice(s, terms, repls, pos) == weave(gaps_of(s, terms, pos), repls),
    decreases terms.len(),
{
    if terms.len() == 0 {
    } else {
        lemma_splice_weave(s, terms.drop_first(), repls.drop_first(), terms[0].end as int);
        assert(gaps_of(s, terms, pos).drop_first() =~= gaps_of(
            s,
            terms.drop_first(),
            terms[0].end as int,
        ));
    }
}

/// Both renderings copy the same gap text: the dice view and the value view
/// of one scan differ only inside the replaced spans.
pub proof fn law_format_fidelity(
    s: Seq<char>,
    terms: Seq<TermShape>,
    dice_repls: Seq<Seq<char>>,
    value_repls: Seq<Seq<char>>,
)
    requires
        dice_repls.len() == terms.len(),
        value_repls.len() == terms.len(),
    ensures
        splice(s, terms, dice_repls, 0) == weave(gaps_of(s, terms, 0), dice_repls),
        splice(s, terms, value_repls, 0) == weave(gaps_of(s, terms, 0), value_repls),
{
    lemma_splice_weave(s, terms, dice_repls, 0);
    lemma_splice_weave(s, terms, value_repls, 0);
}

/// Append a copy of every character of `src` to `out`.
pub fn append_all(out: &mut Vec<char>, src: &Vec<char>)
    ensures
        final(out)@ == old(out)@ + src@,
{
    let mut j: usize = 0;
    proof {
        assert(out@ =~= old(out)@ + src@.take(0));
    }
    while j < src.len()
        invariant
            j <= src@.len(),
            out@ == old(out)@ + src@.take(j as int),
        decreases src@.len() - j,
    {
        proof {
            assert(src@.take(j + 1) =~= src@.take(j as int).push(src@[j as int]));
            assert(old(out)@ + src@.take(j + 1) =~= (old(out)@ + src@.take(j as int)).push(
                src@[j as int],
            ));
        }
        out.push(src[j]);
        j += 1;
    }
    proof {
        assert(src@.take(src@.len() as int) =~= src@);
    }
}

/// Append a copy of `src[from..to]` to `out`.
pub fn append_range(out: &mut Vec<char>, src: &Vec<char>, from: usize, to: usize)
    requires
        from <= to <= src@.len(),
    ensures
        final(out)@ == old(out)@ + src@.subrange(from as int, to as int),
{
    let mut j: usize = from;
    proof {
        assert(out@ =~= old(out)@ + src@.subrange(from as int, from as int));
    }
    while j < to
        invariant
            from <= j <= to <= src@.len(),
            out@ == old(out)@ + src@.subrange(from as int, j as int),
        decreases to - j,
    {
        proof {
            assert(src@.subrange(from as int, j + 1) =~= src@.subrange(from as int, j as int).push(
                src@[j as int],
            ));
            assert(old(out)@ + src@.subrange(from as int, j + 1) =~= (old(out)@ + src@.subrange(
                from as int,
                j as int,
            )).push(src@[j as int]));
        }
        out.push(src[j]);
        j += 1;
    }
}

/// The bracketed roll breakdown of one term, struck entries wrapped in the
/// strikethrough marker.
pub fn fmt_entries(dr: &DiceRoll) -> (out: Vec<char>)
    ensures
        out@ == dice_repr_of(dr.rolls@, dr.options.filter),
{
    let ghost filter = dr.options.filter;
    let mut out: Vec<char> = Vec::new();
    out.push('[');
    let mut i: usize = 0;
    proof {
        assert(entries_repr(dr.rolls@.take(0), filter) =~= Seq::<char>::empty());
        assert(out@ =~= seq!['['] + entries_repr(dr.rolls@.take(0), filter));
    }
    while i < dr.rolls.len()
        invariant
            i <= dr.rolls@.len(),
            filter == dr.options.filter,
            out@ == seq!['['] + entries_repr(dr.rolls@.take(i as int), filter),
        decreases dr.rolls@.len() - i,
    {
        let v = dr.rolls[i];
        proof {
            assert(dr.rolls@.take(i + 1).drop_last() =~= dr.rolls@.take(i as int));
            assert(dr.rolls@.take(i + 1).last() == v);
            assert(dr.rolls@.take(i + 1)[0] == dr.rolls@[0]);
        }
        if i > 0 {
            out.push(',');
            out.push(' ');
        }
        let kept = crate::dice::keeps(&dr.options.filter, v);
        if !kept {
            out.push('~');
            out.push('~');
        }
        let mut num = fmt_i64(v);
        append_all(&mut out, &num);
        if !kept {
            out.push('~');
            out.push('~');
        }
        proof {
            if i == 0 {
                assert(dr.rolls@.take(1).len() == 1);
                assert(out@ =~= seq!['['] + entries_repr(dr.rolls@.take(1), filter));
            } else {
                assert(dr.rolls@.take(i + 1).len() >= 2);
                assert(entries_repr(dr.rolls@.take(i + 1), filter) =~= entries_repr(
                    dr.rolls@.take(i as int),
                    filter,
                ) + seq![',', ' '] + entry_repr(filter, v));
                assert(out@ =~= seq!['['] + entries_repr(dr.rolls@.take(i + 1), filter));
            }
        }
        i += 1;
    }
    out.push(']');
    proof {
        assert(dr.rolls@.take(dr.rolls@.len() as int) =~= dr.rolls@);
        assert(out@ =~= seq!['['] + entries_repr(dr.rolls@, filter) + seq![']']);
    }
    out
}

/// The spans are in text order, disjoint, and inside the text.
pub open spec fn terms_ordered(s: Seq<char>, terms: Seq<TermShape>) -> bool {
    &&& forall|k: int|
        0 <= k < terms.len() ==> (#[trigger] terms[k]).start < terms[k].end <= s.len()
    &&& forall|k: int| 0 < k < terms.len() ==> (#[trigger] terms[k]).start >= terms[k - 1].end
}

/// Replace every term span with its replacement, copying all other text
/// through byte for byte.
pub fn splice_render(chars: &Vec<char>, terms: &Vec<TermShape>, repls: &Vec<Vec<char>>) -> (out:
    Vec<char>)
    requires
        terms_ordered(chars@, terms@),
        repls@.len() == terms@.len(),
    ensures
        out@ == splice(chars@, terms@, repls@.map_values(|v: Vec<char>| v@), 0),
{
    let ghost s = chars@;
    let ghost rviews = repls@.map_values(|v: Vec<char>| v@);
    let mut out: Vec<char> = Vec::new();
    let mut pos: usize = 0;
    let mut k: usize = 0;
    proof {
        assert(terms@.skip(0) =~= terms@);
        assert(rviews.skip(0) =~= rviews);
        assert(out@ + splice(s, terms@, rviews, 0) =~= splice(s, terms@, rviews, 0));
    }
    while k < terms.len()
        invariant
            s == chars@,
            rviews == repls@.map_values(|v: Vec<char>| v@),
            repls@.len() == terms@.len(),
            terms_ordered(s, terms@),
            k <= terms@.len(),
            k < terms@.len() ==> pos <= terms@[k as int].start,
            k == terms@.len() ==> pos <= s.len(),
            splice(s, terms@, rviews, 0) == out@ + splice(
                s,
                terms@.skip(k as int),
                rviews.skip(k as int),
                pos as int,
            ),
        decreases terms@.len() - k,
    {
        let sh = terms[k];
        proof {
            assert(terms@.skip(k as int)[0] == sh);
            assert(terms@.skip(k as int).drop_first() =~= terms@.skip(k + 1));
            assert(rviews.skip(k as int).drop_first() =~= rviews.skip(k + 1));
            assert(rviews.skip(k as int)[0] == repls@[k as int]@);
        }
        append_range(&mut out, chars, pos, sh.start);
        append_all(&mut out, &repls[k]);
        proof {
            assert(splice(s, terms@.skip(k as int), rviews.skip(k as int), pos as int)
                =~= s.subrange(pos as int, sh.start as int) + repls@[k as int]@ + splice(
                s,
                terms@.skip(k + 1),
                rviews.skip(k + 1),
                sh.end as int,
            ));
            assert(out@ + splice(s, terms@.skip(k + 1), rviews.skip(k + 1), sh.end as int)
                =~= splice(s, terms@, rviews, 0));
        }
        pos = sh.end;
        k += 1;
    }
    append_range(&mut out, chars, pos, chars.len());
    proof {
        assert(terms@.skip(terms@.len() as int).len() == 0);
        assert(splice(s, terms@.skip(terms@.len() as int), rviews.skip(terms@.len() as int),
            pos as int) =~= s.subrange(pos as int, s.len() as int));
        assert(out@ =~= splice(s, terms@, rviews, 0));
    }
    out
}

} // verus!
