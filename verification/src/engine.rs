//! The engine's entry points: scan the text, validate and roll every term,
//! render both views, and evaluate the value view to the total.

use vstd::prelude::*;
use crate::dice::{kept_sum, sum_fits, DiceRoll, Options, RollError};
use crate::eval::{eval_chars, lemma_eval_text_err_kind, spec_eval_text};
use crate::parse::{lemma_parse_term_wf, parse_term, spec_parse_term};
use crate::render::{
    dice_repr_of, fmt_entries, splice, splice_render, terms_ordered, value_repr_of,
};
use crate::rng::{RandomSource, ThreadSource};
use crate::roll::{default_rolls, lemma_default_rolls_ok, roll_dice, rolls_ok};
use crate::scan::{
    lemma_match_at_wf, lemma_scan_wf, match_term_at, scan_terms, shape_wf, spec_match_at,
    spec_scan, TermShape,
};
use crate::text::{chars_to_string, fmt_i64, str_to_chars};

verus! {

/// Parse every scanned term from the `k`-th on, left to right; the first
/// failure is the whole evaluation's failure.
pub open spec fn spec_parse_all(s: Seq<char>, terms: Seq<TermShape>, k: int) -> Result<
    Seq<Options>,
    RollError,
>
    decreases terms.len() - k,
    when 0 <= k <= terms.len()
{
    if k >= terms.len() {
        Ok(Seq::empty())
    } else {
        match spec_parse_term(s, terms[k]) {
            Err(e) => Err(e),
            Ok(o) => match spec_parse_all(s, terms, k + 1) {
                Err(e) => Err(e),
                Ok(rest) => Ok(seq![o] + rest),
            },
        }
    }
}

/// The dice-view replacement of each rolled term.
pub open spec fn dice_repls_of(rollsets: Seq<Seq<i64>>, opts: Seq<Options>) -> Seq<Seq<char>> {
    Seq::new(rollsets.len(), |k: int| dice_repr_of(rollsets[k], opts[k].filter))
}

/// The value-view replacement of each rolled term.
pub open spec fn value_repls_of(rollsets: Seq<Seq<i64>>, opts: Seq<Options>) -> Seq<Seq<char>> {
    Seq::new(rollsets.len(), |k: int| value_repr_of(rollsets[k], opts[k].filter))
}

/// No validated term carries an explosion mark.
pub open spec fn no_explosions(opts: Seq<Options>) -> bool {
    forall|k: int| 0 <= k < opts.len() ==> (#[trigger] opts[k]).explode is None
}

/// Every term's entries are a possible outcome of its validated options.
pub open spec fn all_rolls_ok(opts: Seq<Options>, rollsets: Seq<Seq<i64>>) -> bool {
    &&& rollsets.len() == opts.len()
    &&& forall|k: int| 0 <= k < opts.len() ==> rolls_ok(opts[k], #[trigger] rollsets[k])
}

/// Every term's kept running sum stays within the engine's integer width.
pub open spec fn all_sums_fit(opts: Seq<Options>, rollsets: Seq<Seq<i64>>) -> bool {
    forall|k: int| 0 <= k < opts.len() ==> sum_fits(#[trigger] rollsets[k], opts[k].filter)
}

/// A consistently rolled prefix, the entries of the term being rolled, and
/// a default outcome for each term not yet rolled: one complete possible
/// outcome of the whole scan.
pub open spec fn filled_rollsets(
    opts: Seq<Options>,
    prefix: Seq<Seq<i64>>,
    cur: Seq<i64>,
    k: int,
) -> Seq<Seq<i64>> {
    prefix.push(cur) + Seq::new(
        (opts.len() - k - 1) as nat,
        |j: int| default_rolls(opts[k + 1 + j]),
    )
}

/// Filling out a consistent prefix yields a complete consistent outcome
/// that still holds the entries of the term being rolled at its place.
pub proof fn lemma_filled_rollsets_ok(
    opts: Seq<Options>,
    prefix: Seq<Seq<i64>>,
    cur: Seq<i64>,
    k: int,
)
    requires
        0 <= k < opts.len(),
        prefix.len() == k,
        forall|j: int| 0 <= j < k ==> rolls_ok(opts[j], #[trigger] prefix[j]),
        rolls_ok(opts[k], cur),
        forall|j: int| 0 <= j < opts.len() ==> (#[trigger] opts[j]).wf(),
    ensures
        all_rolls_ok(opts, filled_rollsets(opts, prefix, cur, k)),
        filled_rollsets(opts, prefix, cur, k)[k] == cur,
{
    let w = filled_rollsets(opts, prefix, cur, k);
    assert(w.len() == opts.len());
    assert forall|j: int| 0 <= j < opts.len() implies rolls_ok(opts[j], #[trigger] w[j]) by {
        if j < k {
            assert(w[j] == prefix[j]);
        } else if j == k {
            assert(w[j] == cur);
        } else {
            assert(w[j] == default_rolls(opts[j]));
            lemma_default_rolls_ok(opts[j]);
        }
    }
}

/// Success is owed when every term validates, none carries an explosion
/// mark, and every possible outcome both sums within the integer width and
/// leaves an evaluable value view: no draw is left that could decide
/// failure.
pub open spec fn success_forced(s: Seq<char>) -> bool {
    let terms = spec_scan(s, 0);
    let opts = spec_parse_all(s, terms, 0)->Ok_0;
    &&& spec_parse_all(s, terms, 0) is Ok
    &&& no_explosions(opts)
    &&& forall|w: Seq<Seq<i64>>|
        #[trigger] all_rolls_ok(opts, w) ==> all_sums_fit(opts, w) && spec_eval_text(
            splice(s, terms, value_repls_of(w, opts), 0),
        ) is Ok
}

/// Evaluate every dice term of `msg` against the caller's random source.
///
/// On success the result carries the arithmetic total, the dice view (each
/// term replaced by its bracketed breakdown) and the value view (each term
/// replaced by its kept sum); both views copy all text outside the term
/// spans verbatim, and the total is exactly the arithmetic value of the
/// value view. A term that fails validation fails the whole evaluation
/// with its own error, before anything is rolled. Success is owed whenever
/// no draw could decide failure ([`success_forced`]); any failure after
/// validation is accounted for: an explosion chain over the cap, a possible
/// outcome whose kept sum leaves the integer width, or the arithmetic pass
/// itself.
#[verifier::rlimit(100)]
#[verifier::spinoff_prover]
pub fn roll_expressions<R: RandomSource>(msg: &str, rng: &mut R) -> (r: Result<
    (i64, String, String),
    RollError,
>)
    ensures
        spec_parse_all(msg@, spec_scan(msg@, 0), 0) is Err ==> r == Err::<
            (i64, String, String),
            RollError,
        >(spec_parse_all(msg@, spec_scan(msg@, 0), 0)->Err_0),
        r is Ok ==> spec_parse_all(msg@, spec_scan(msg@, 0), 0) is Ok,
        r is Ok ==> ({
            let terms = spec_scan(msg@, 0);
            let opts = spec_parse_all(msg@, terms, 0)->Ok_0;
            exists|rollsets: Seq<Seq<i64>>|
                #![auto]
                {
                    &&& rollsets.len() == terms.len()
                    &&& forall|k: int| 0 <= k < terms.len() ==> rolls_ok(opts[k], rollsets[k])
                    &&& forall|k: int|
                        0 <= k < terms.len() ==> sum_fits(rollsets[k], opts[k].filter)
                    &&& r->Ok_0.1@ == splice(msg@, terms, dice_repls_of(rollsets, opts), 0)
                    &&& r->Ok_0.2@ == splice(msg@, terms, value_repls_of(rollsets, opts), 0)
                    &&& spec_eval_text(r->Ok_0.2@) == Ok::<i64, RollError>(r->Ok_0.0)
                }
        }),
        spec_scan(msg@, 0).len() == 0 ==> {
            &&& (r is Ok <==> spec_eval_text(msg@) is Ok)
            &&& (r is Ok ==> r->Ok_0.0 == spec_eval_text(msg@)->Ok_0 && r->Ok_0.1@ == msg@
                && r->Ok_0.2@ == msg@)
            &&& (r is Err ==> r->Err_0 == spec_eval_text(msg@)->Err_0)
        },
        spec_parse_all(msg@, spec_scan(msg@, 0), 0) is Ok && no_explosions(
            spec_parse_all(msg@, spec_scan(msg@, 0), 0)->Ok_0,
        ) && r is Err ==> r->Err_0 == RollError::Overflow || r->Err_0 == RollError::Syntax
            || r->Err_0 == RollError::DivisionByZero,
        success_forced(msg@) ==> r is Ok,
        r is Err && spec_parse_all(msg@, spec_scan(msg@, 0), 0) is Ok ==> ({
            let terms = spec_scan(msg@, 0);
            let opts = spec_parse_all(msg@, terms, 0)->Ok_0;
            ||| (r->Err_0 == RollError::ExplosionLimit && !no_explosions(opts))
            ||| (exists|w: Seq<Seq<i64>>|
                #![auto]
                all_rolls_ok(opts, w) && ((r->Err_0 == RollError::Overflow && !all_sums_fit(
                    opts,
                    w,
                )) || spec_eval_text(splice(msg@, terms, value_repls_of(w, opts), 0)) == Err::<
                    i64,
                    RollError,
                >(r->Err_0)))
        }),
{
    let chars = str_to_chars(msg);
    let ghost s = msg@;
    let terms = scan_terms(&chars);
    proof {
        assert(chars.len() == chars@.len());
        lemma_scan_wf(s, 0);
    }
    let ghost tseq = terms@;

    // Validate every term before anything is rolled.
    let mut opts_v: Vec<Options> = Vec::new();
    let mut k: usize = 0;
    while k < terms.len()
        invariant
            s == msg@ && s == chars@,
            tseq == terms@ && tseq == spec_scan(s, 0),
            forall|j: int|
                0 <= j < tseq.len() ==> shape_wf(s, #[trigger] tseq[j]) && tseq[j].start
                    < tseq[j].end,
            k <= tseq.len(),
            opts_v@.len() == k,
            forall|j: int| 0 <= j < k ==> (#[trigger] opts_v@[j]).wf(),
            spec_parse_all(s, tseq, k as int) is Ok ==> spec_parse_all(s, tseq, 0) == Ok::<
                Seq<Options>,
                RollError,
            >(opts_v@ + spec_parse_all(s, tseq, k as int)->Ok_0),
            spec_parse_all(s, tseq, k as int) is Err ==> spec_parse_all(s, tseq, 0)
                == spec_parse_all(s, tseq, k as int),
        decreases tseq.len() - k,
    {
        let sh = terms[k];
        match parse_term(&chars, &sh) {
            Ok(o) => {
                proof {
                    lemma_parse_term_wf(s, tseq[k as int]);
                    if spec_parse_all(s, tseq, k + 1) is Ok {
                        assert(opts_v@ + (seq![o] + spec_parse_all(s, tseq, k + 1)->Ok_0)
                            =~= opts_v@.push(o) + spec_parse_all(s, tseq, k + 1)->Ok_0);
                    }
                }
                opts_v.push(o);
            },
            Err(e) => {
                return Err(e);
            },
        }
        k += 1;
    }
    proof {
        assert(opts_v@ + Seq::<Options>::empty() =~= opts_v@);
        assert(spec_parse_all(s, tseq, 0) == Ok::<Seq<Options>, RollError>(opts_v@));
    }

    // Roll each term in text order, consuming the source sequentially.
    let mut dice_repls: Vec<Vec<char>> = Vec::new();
    let mut value_repls: Vec<Vec<char>> = Vec::new();
    let ghost mut rollsets: Seq<Seq<i64>> = Seq::empty();
    let mut k2: usize = 0;
    while k2 < terms.len()
        invariant
            s == msg@ && s == chars@,
            tseq == terms@ && tseq == spec_scan(s, 0),
            forall|j: int|
                0 <= j < tseq.len() ==> shape_wf(s, #[trigger] tseq[j]) && tseq[j].start
                    < tseq[j].end,
            opts_v@.len() == tseq.len(),
            forall|j: int| 0 <= j < tseq.len() ==> (#[trigger] opts_v@[j]).wf(),
            spec_parse_all(s, tseq, 0) == Ok::<Seq<Options>, RollError>(opts_v@),
            k2 <= tseq.len(),
            dice_repls@.len() == k2 && value_repls@.len() == k2 && rollsets.len() == k2,
            forall|j: int| 0 <= j < k2 ==> rolls_ok(opts_v@[j], #[trigger] rollsets[j]),
            forall|j: int| 0 <= j < k2 ==> sum_fits(#[trigger] rollsets[j], opts_v@[j].filter),
            forall|j: int|
                0 <= j < k2 ==> (#[trigger] dice_repls@[j])@ == dice_repr_of(
                    rollsets[j],
                    opts_v@[j].filter,
                ),
            forall|j: int|
                0 <= j < k2 ==> (#[trigger] value_repls@[j])@ == value_repr_of(
                    rollsets[j],
                    opts_v@[j].filter,
                ),
        decreases tseq.len() - k2,
    {
        let dr = match roll_dice(&opts_v[k2], rng) {
            Ok(d) => d,
            Err(e) => {
                proof {
                    assert(opts_v@[k2 as int].explode is Some);
                    assert(!no_explosions(opts_v@));
                }
                return Err(e);
            },
        };
        let sum = match dr.val() {
            Ok(v) => v,
            Err(e) => {
                proof {
                    assert(dr.options == opts_v@[k2 as int]);
                    assert(!sum_fits(dr.rolls@, opts_v@[k2 as int].filter));
                    lemma_filled_rollsets_ok(opts_v@, rollsets, dr.rolls@, k2 as int);
                    let w = filled_rollsets(opts_v@, rollsets, dr.rolls@, k2 as int);
                    assert(!all_sums_fit(opts_v@, w));
                    let terms_g = spec_scan(msg@, 0);
                    let opts_g = spec_parse_all(msg@, terms_g, 0)->Ok_0;
                    assert(opts_g == opts_v@);
                    if success_forced(msg@) {
                        assert(all_rolls_ok(opts_g, w));
                        assert(false);
                    }
                    assert(exists|w2: Seq<Seq<i64>>|
                        #![auto]
                        all_rolls_ok(opts_g, w2) && ((e == RollError::Overflow && !all_sums_fit(
                            opts_g,
                            w2,
                        )) || spec_eval_text(splice(msg@, terms_g, value_repls_of(w2, opts_g), 0))
                            == Err::<i64, RollError>(e))) by {
                        assert(all_rolls_ok(opts_g, w) && e == RollError::Overflow
                            && !all_sums_fit(opts_g, w));
                    }
                }
                return Err(e);
            },
        };
        let db = fmt_entries(&dr);
        let vb = fmt_i64(sum);
        proof {
            assert(dr.options == opts_v@[k2 as int]);
            assert(dr.rolls@.take(dr.rolls@.len() as int) =~= dr.rolls@);
            assert(sum == kept_sum(dr.rolls@, dr.options.filter));
            assert(vb@ == value_repr_of(dr.rolls@, dr.options.filter));
            rollsets = rollsets.push(dr.rolls@);
            assert(rollsets[k2 as int] == dr.rolls@);
        }
        dice_repls.push(db);
        value_repls.push(vb);
        k2 += 1;
    }

    // Substitute both views over the one scan, then total the value view.
    proof {
        assert(terms_ordered(s, tseq));
    }
    let dice_out = splice_render(&chars, &terms, &dice_repls);
    let value_out = splice_render(&chars, &terms, &value_repls);
    proof {
        assert(dice_repls@.map_values(|v: Vec<char>| v@) =~= dice_repls_of(rollsets, opts_v@));
        assert(value_repls@.map_values(|v: Vec<char>| v@) =~= value_repls_of(rollsets, opts_v@));
        if tseq.len() == 0 {
            assert(value_out@ =~= s);
            assert(dice_out@ =~= s);
        }
    }
    let total = match eval_chars(&value_out) {
        Ok(t) => t,
        Err(e) => {
            proof {
                lemma_eval_text_err_kind(value_out@);
                let terms_g = spec_scan(msg@, 0);
                let opts_g = spec_parse_all(msg@, terms_g, 0)->Ok_0;
                assert(opts_g == opts_v@);
                assert(all_rolls_ok(opts_g, rollsets));
                assert(value_out@ == splice(msg@, terms_g, value_repls_of(rollsets, opts_g), 0));
                if success_forced(msg@) {
                    assert(false);
                }
                assert(exists|w2: Seq<Seq<i64>>|
                    #![auto]
                    all_rolls_ok(opts_g, w2) && ((e == RollError::Overflow && !all_sums_fit(
                        opts_g,
                        w2,
                    )) || spec_eval_text(splice(msg@, terms_g, value_repls_of(w2, opts_g), 0))
                        == Err::<i64, RollError>(e))) by {
                    assert(all_rolls_ok(opts_g, rollsets) && spec_eval_text(
                        splice(msg@, terms_g, value_repls_of(rollsets, opts_g), 0),
                    ) == Err::<i64, RollError>(e));
                }
            }
            return Err(e);
        },
    };
    let dice_str = chars_to_string(&dice_out);
    let value_str = chars_to_string(&value_out);
    let r = Ok((total, dice_str, value_str));
    proof {
        let terms_g = spec_scan(msg@, 0);
        let opts_g = spec_parse_all(msg@, terms_g, 0)->Ok_0;
        assert(opts_g == opts_v@);
        assert(exists|w: Seq<Seq<i64>>|
            #![auto]
            {
                &&& w.len() == terms_g.len()
                &&& forall|j: int| 0 <= j < terms_g.len() ==> rolls_ok(opts_g[j], w[j])
                &&& forall|j: int| 0 <= j < terms_g.len() ==> sum_fits(w[j], opts_g[j].filter)
                &&& dice_out@ == splice(msg@, terms_g, dice_repls_of(w, opts_g), 0)
                &&& value_out@ == splice(msg@, terms_g, value_repls_of(w, opts_g), 0)
                &&& spec_eval_text(value_out@) == Ok::<i64, RollError>(total)
            }) by {
            assert({
                &&& rollsets.len() == terms_g.len()
                &&& forall|j: int| 0 <= j < terms_g.len() ==> rolls_ok(opts_g[j], rollsets[j])
                &&& forall|j: int|
                    0 <= j < terms_g.len() ==> sum_fits(rollsets[j], opts_g[j].filter)
                &&& dice_out@ == splice(msg@, terms_g, dice_repls_of(rollsets, opts_g), 0)
                &&& value_out@ == splice(msg@, terms_g, value_repls_of(rollsets, opts_g), 0)
                &&& spec_eval_text(value_out@) == Ok::<i64, RollError>(total)
            });
        }
    }
    r
}

/// Evaluate `msg` with the process-local random source; validation and
/// bound failures do not depend on the source at all.
pub fn roll_expression(msg: &str) -> (r: Result<(i64, String, String), RollError>)
    ensures
        spec_parse_all(msg@, spec_scan(msg@, 0), 0) is Err ==> r == Err::<
            (i64, String, String),
            RollError,
        >(spec_parse_all(msg@, spec_scan(msg@, 0), 0)->Err_0),
        r is Ok ==> spec_parse_all(msg@, spec_scan(msg@, 0), 0) is Ok,
        r is Ok ==> ({
            let terms = spec_scan(msg@, 0);
            let opts = spec_parse_all(msg@, terms, 0)->Ok_0;
            exists|rollsets: Seq<Seq<i64>>|
                #![auto]
                {
                    &&& rollsets.len() == terms.len()
                    &&& forall|k: int| 0 <= k < terms.len() ==> rolls_ok(opts[k], rollsets[k])
                    &&& forall|k: int|
                        0 <= k < terms.len() ==> sum_fits(rollsets[k], opts[k].filter)
                    &&& r->Ok_0.1@ == splice(msg@, terms, dice_repls_of(rollsets, opts), 0)
                    &&& r->Ok_0.2@ == splice(msg@, terms, value_repls_of(rollsets, opts), 0)
                    &&& spec_eval_text(r->Ok_0.2@) == Ok::<i64, RollError>(r->Ok_0.0)
                }
        }),
        spec_scan(msg@, 0).len() == 0 ==> {
            &&& (r is Ok <==> spec_eval_text(msg@) is Ok)
            &&& (r is Err ==> r->Err_0 == spec_eval_text(msg@)->Err_0)
        },
        spec_parse_all(msg@, spec_scan(msg@, 0), 0) is Ok && no_explosions(
            spec_parse_all(msg@, spec_scan(msg@, 0), 0)->Ok_0,
        ) && r is Err ==> r->Err_0 == RollError::Overflow || r->Err_0 == RollError::Syntax
            || r->Err_0 == RollError::DivisionByZero,
        success_forced(msg@) ==> r is Ok,
        r is Err && spec_parse_all(msg@, spec_scan(msg@, 0), 0) is Ok ==> ({
            let terms = spec_scan(msg@, 0);
            let opts = spec_parse_all(msg@, terms, 0)->Ok_0;
            ||| (r->Err_0 == RollError::ExplosionLimit && !no_explosions(opts))
            ||| (exists|w: Seq<Seq<i64>>|
                #![auto]
                all_rolls_ok(opts, w) && ((r->Err_0 == RollError::Overflow && !all_sums_fit(
                    opts,
                    w,
                )) || spec_eval_text(splice(msg@, terms, value_repls_of(w, opts), 0)) == Err::<
                    i64,
                    RollError,
                >(r->Err_0)))
        }),
{
    let mut src = ThreadSource::new();
    roll_expressions(msg, &mut src)
}

impl DiceRoll {
    /// Parse `text` as exactly one dice term spanning the whole input, and
    /// roll it against the caller's random source.
    pub fn from_str<R: RandomSource>(text: &str, rng: &mut R) -> (r: Result<DiceRoll, RollError>)
        ensures
            ({
                let m = spec_match_at(text@, 0);
                &&& (m is None || m->Some_0.end != text@.len()) ==> r == Err::<
                    DiceRoll,
                    RollError,
                >(RollError::Syntax)
                &&& (m is Some && m->Some_0.end == text@.len()) ==> {
                    let pr = spec_parse_term(text@, m->Some_0);
                    &&& (pr is Err ==> r == Err::<DiceRoll, RollError>(pr->Err_0))
                    &&& (pr is Ok ==> {
                        &&& (r is Ok ==> r->Ok_0.options == pr->Ok_0 && rolls_ok(
                            pr->Ok_0,
                            r->Ok_0.rolls@,
                        ))
                        &&& (pr->Ok_0.explode is None ==> r is Ok)
                        &&& (r is Err ==> r->Err_0 == RollError::ExplosionLimit)
                    })
                }
            }),
    {
        let chars = str_to_chars(text);
        match match_term_at(&chars, 0) {
            None => Err(RollError::Syntax),
            Some(sh) => {
                if sh.end != chars.len() {
                    return Err(RollError::Syntax);
                }
                proof {
                    lemma_match_at_wf(chars@, 0);
                }
                match parse_term(&chars, &sh) {
                    Err(e) => Err(e),
                    Ok(o) => {
                        proof {
                            lemma_parse_term_wf(chars@, sh);
                        }
                        roll_dice(&o, rng)
                    },
                }
            },
        }
    }
}

} // verus!
