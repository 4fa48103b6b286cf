//! The term grammar matcher: recognizes dice-term substrings of the form
//! `[N]d(S|F)[!|!!][<N|>N]` inside free text, scanning left to right and
//! producing disjoint spans. A bare number with no `d` is never matched, and
//! text outside the spans passes through untouched.

use vstd::prelude::*;
use crate::text::{all_digits, is_digit_char};

verus! {

/// The component boundaries of one matched term inside the scanned text.
/// `start..end` is the whole span; `d_pos` is the `d` (or `D`);
/// the sides (digits, or the fudge `F`) end at `sides_end`; `bangs`
/// explosion marks follow; a filter comparison, when present, runs from
/// `sides_end + bangs` to `end`.
#[derive(Clone, Copy, Debug)]
pub struct TermShape {
    /// First character of the term.
    pub start: usize,
    /// Position of the `d` marker; count digits occupy `start..d_pos`.
    pub d_pos: usize,
    /// One past the sides digits, or past the `F`.
    pub sides_end: usize,
    /// Whether the sides are the fudge marker.
    pub fudge: bool,
    /// How many `!` marks follow the sides (0, 1 or 2).
    pub bangs: usize,
    /// Whether a filter suffix follows the explosion marks.
    pub filt: bool,
    /// One past the whole term.
    pub end: usize,
}

impl TermShape {
    /// One past the explosion marks; the filter comparison character sits
    /// here when `filt` holds.
    pub open spec fn bang_end(self) -> int {
        self.sides_end + self.bangs
    }
}

/// The structural facts that hold of every shape the matcher returns; the
/// parser relies on them to read the numerals back out.
pub open spec fn shape_wf(s: Seq<char>, sh: TermShape) -> bool {
    &&& sh.start <= sh.d_pos
    &&& sh.d_pos + 2 <= sh.sides_end
    &&& sh.bangs <= 2
    &&& sh.sides_end <= sh.bang_end() <= sh.end <= s.len()
    &&& s[sh.d_pos as int] == 'd' || s[sh.d_pos as int] == 'D'
    &&& all_digits(s.subrange(sh.start as int, sh.d_pos as int))
    &&& (sh.fudge ==> sh.sides_end == sh.d_pos + 2 && s[sh.d_pos + 1] == 'F')
    &&& (!sh.fudge ==> all_digits(s.subrange(sh.d_pos + 1, sh.sides_end as int)))
    &&& (sh.filt ==> sh.bang_end() + 2 <= sh.end && (s[sh.bang_end()] == '<' || s[sh.bang_end()]
        == '>') && all_digits(s.subrange(sh.bang_end() + 1, sh.end as int)))
    &&& (!sh.filt ==> sh.end == sh.bang_end())
}

/// The first position at or after `i` that does not hold a digit.
pub open spec fn digit_run_end(s: Seq<char>, i: int) -> int
    decreases s.len() - i,
{
    if i < 0 || i >= s.len() || !is_digit_char(s[i]) {
        i
    } else {
        digit_run_end(s, i + 1)
    }
}

/// What [`digit_run_end`] delimits: a run of digits ending at the first
/// non-digit.
pub proof fn lemma_digit_run_end(s: Seq<char>, i: int)
    requires
        0 <= i <= s.len(),
    ensures
        i <= digit_run_end(s, i) <= s.len(),
        all_digits(s.subrange(i, digit_run_end(s, i))),
        digit_run_end(s, i) == s.len() || !is_digit_char(s[digit_run_end(s, i)]),
    decreases s.len() - i,
{
    if i < s.len() && is_digit_char(s[i]) {
        lemma_digit_run_end(s, i + 1);
        let e = digit_run_end(s, i);
        assert(forall|k: int|
            i + 1 <= k < e ==> is_digit_char(#[trigger] s.subrange(i + 1, e)[k - i - 1]));
        assert(forall|k: int| i <= k < e ==> is_digit_char(#[trigger] s[k])) by {
            assert(forall|k: int|
                i + 1 <= k < e ==> s.subrange(i + 1, e)[k - i - 1] == #[trigger] s[k]);
        }
        assert(forall|k: int|
            0 <= k < e - i ==> is_digit_char(#[trigger] s.subrange(i, e)[k]));
    }
}

/// A run of digits reaching the end of the text ends the digit run there.
pub proof fn lemma_digit_run_full(s: Seq<char>, i: int)
    requires
        0 <= i <= s.len(),
        forall|j: int| i <= j < s.len() ==> is_digit_char(#[trigger] s[j]),
    ensures
        digit_run_end(s, i) == s.len(),
    decreases s.len() - i,
{
    if i < s.len() {
        lemma_digit_run_full(s, i + 1);
    }
}

/// The explosion marks, filter suffix and overall end of a term whose count,
/// `d` and sides have been recognized.
pub open spec fn finish_shape(s: Seq<char>, start: int, d_pos: int, sides_end: int, fudge: bool)
    -> TermShape {
    let bangs: int = if sides_end < s.len() && s[sides_end] == '!' {
        if sides_end + 1 < s.len() && s[sides_end + 1] == '!' {
            2
        } else {
            1
        }
    } else {
        0
    };
    let be = sides_end + bangs;
    if be < s.len() && (s[be] == '<' || s[be] == '>') && digit_run_end(s, be + 1) > be + 1 {
        TermShape {
            start: start as usize,
            d_pos: d_pos as usize,
            sides_end: sides_end as usize,
            fudge,
            bangs: bangs as usize,
            filt: true,
            end: digit_run_end(s, be + 1) as usize,
        }
    } else {
        TermShape {
            start: start as usize,
            d_pos: d_pos as usize,
            sides_end: sides_end as usize,
            fudge,
            bangs: bangs as usize,
            filt: false,
            end: be as usize,
        }
    }
}

/// The term the grammar recognizes at position `i`, if any: optional count
/// digits, a case-insensitive `d`, sides digits or `F`, then explosion and
/// filter suffixes, each taken greedily.
pub open spec fn spec_match_at(s: Seq<char>, i: int) -> Option<TermShape> {
    let d_pos = digit_run_end(s, i);
    if d_pos >= s.len() || !(s[d_pos] == 'd' || s[d_pos] == 'D') {
        None
    } else if d_pos + 1 < s.len() && s[d_pos + 1] == 'F' {
        Some(finish_shape(s, i, d_pos, d_pos + 2, true))
    } else if digit_run_end(s, d_pos + 1) > d_pos + 1 {
        Some(finish_shape(s, i, d_pos, digit_run_end(s, d_pos + 1), false))
    } else {
        None
    }
}

/// A matched shape starts where matching began, ends strictly later, and is
/// structurally well-formed.
pub proof fn lemma_match_at_wf(s: Seq<char>, i: int)
    requires
        0 <= i <= s.len(),
        s.len() <= usize::MAX,
        spec_match_at(s, i) is Some,
    ensures
        ({
            let sh = spec_match_at(s, i)->Some_0;
            &&& sh.start == i
            &&& i < sh.end
            &&& shape_wf(s, sh)
        }),
{
    let d_pos = digit_run_end(s, i);
    lemma_digit_run_end(s, i);
    let sh = spec_match_at(s, i)->Some_0;
    if d_pos + 1 < s.len() && s[d_pos + 1] == 'F' {
        lemma_finish_shape_wf(s, i, d_pos, d_pos + 2, true);
    } else {
        lemma_digit_run_end(s, d_pos + 1);
        lemma_finish_shape_wf(s, i, d_pos, digit_run_end(s, d_pos + 1), false);
    }
}

proof fn lemma_finish_shape_wf(s: Seq<char>, start: int, d_pos: int, sides_end: int, fudge: bool)
    requires
        0 <= start <= d_pos,
        s.len() <= usize::MAX,
        d_pos + 2 <= sides_end <= s.len(),
        s[d_pos] == 'd' || s[d_pos] == 'D',
        all_digits(s.subrange(start, d_pos)),
        fudge ==> sides_end == d_pos + 2 && s[d_pos + 1] == 'F',
        !fudge ==> all_digits(s.subrange(d_pos + 1, sides_end)),
    ensures
        ({
            let sh = finish_shape(s, start, d_pos, sides_end, fudge);
            &&& sh.start == start
            &&& sh.end > start
            &&& shape_wf(s, sh)
        }),
{
    let sh = finish_shape(s, start, d_pos, sides_end, fudge);
    let be = sh.bang_end();
    if be < s.len() && (s[be] == '<' || s[be] == '>') && digit_run_end(s, be + 1) > be + 1 {
        lemma_digit_run_end(s, be + 1);
    }
}

/// Exec mirror of [`is_digit_char`].
pub(crate) fn is_digit_c(c: char) -> (r: bool)
    ensures
        r == is_digit_char(c),
{
    let u = c as u32;
    48 <= u && u <= 57
}

/// Exec mirror of [`digit_run_end`].
pub(crate) fn digit_run_end_at(chars: &Vec<char>, i: usize) -> (r: usize)
    requires
        i <= chars@.len(),
    ensures
        r == digit_run_end(chars@, i as int),
        i <= r <= chars@.len(),
{
    let mut j: usize = i;
    while j < chars.len() && is_digit_c(chars[j])
        invariant
            i <= j <= chars@.len(),
            digit_run_end(chars@, i as int) == digit_run_end(chars@, j as int),
        decreases chars@.len() - j,
    {
        j += 1;
    }
    proof {
        lemma_digit_run_end(chars@, i as int);
    }
    j
}

/// Exec mirror of [`spec_match_at`].
pub fn match_term_at(chars: &Vec<char>, i: usize) -> (r: Option<TermShape>)
    requires
        i <= chars@.len(),
    ensures
        r == spec_match_at(chars@, i as int),
{
    let d_pos = digit_run_end_at(chars, i);
    if d_pos >= chars.len() || !(chars[d_pos] == 'd' || chars[d_pos] == 'D') {
        return None;
    }
    let sides_start = d_pos + 1;
    let (sides_end, fudge) = if sides_start < chars.len() && chars[sides_start] == 'F' {
        (d_pos + 2, true)
    } else {
        let se = digit_run_end_at(chars, sides_start);
        if se == sides_start {
            return None;
        }
        (se, false)
    };
    // Explosion marks, then the filter suffix, both taken greedily.
    let bangs: usize = if sides_end < chars.len() && chars[sides_end] == '!' {
        if sides_end + 1 < chars.len() && chars[sides_end + 1] == '!' {
            2
        } else {
            1
        }
    } else {
        0
    };
    let be = sides_end + bangs;
    if be < chars.len() && (chars[be] == '<' || chars[be] == '>') {
        let fe = digit_run_end_at(chars, be + 1);
        if fe > be + 1 {
            return Some(
                TermShape { start: i, d_pos, sides_end, fudge, bangs, filt: true, end: fe },
            );
        }
    }
    Some(TermShape { start: i, d_pos, sides_end, fudge, bangs, filt: false, end: be })
}

/// The disjoint term spans of `s`, scanned left to right: wherever the
/// grammar matches, the match is taken whole and scanning resumes after it.
pub open spec fn spec_scan(s: Seq<char>, i: int) -> Seq<TermShape>
    decreases s.len() - i,
    when 0 <= i <= s.len() && s.len() <= usize::MAX
    via spec_scan_decreases
{
    if i >= s.len() {
        Seq::empty()
    } else {
        match spec_match_at(s, i) {
            Some(sh) => seq![sh] + spec_scan(s, sh.end as int),
            None => spec_scan(s, i + 1),
        }
    }
}

#[via_fn]
proof fn spec_scan_decreases(s: Seq<char>, i: int) {
    if i < s.len() && s.len() <= usize::MAX {
        if spec_match_at(s, i) is Some {
            lemma_match_at_wf(s, i);
        }
    }
}

/// Every scanned shape is well-formed, and consecutive spans are disjoint
/// and in text order.
pub proof fn lemma_scan_wf(s: Seq<char>, i: int)
    requires
        0 <= i <= s.len(),
        s.len() <= usize::MAX,
    ensures
        ({
            let terms = spec_scan(s, i);
            &&& forall|k: int|
                0 <= k < terms.len() ==> shape_wf(s, #[trigger] terms[k]) && i <= terms[k].start
                    < terms[k].end
            &&& forall|k: int|
                0 < k < terms.len() ==> (#[trigger] terms[k]).start >= terms[k - 1].end
        }),
    decreases s.len() - i,
{
    if i < s.len() {
        match spec_match_at(s, i) {
            Some(sh) => {
                lemma_match_at_wf(s, i);
                lemma_scan_wf(s, sh.end as int);
                let terms = spec_scan(s, i);
                let rest = spec_scan(s, sh.end as int);
                assert forall|k: int|
                    0 <= k < terms.len() implies shape_wf(s, #[trigger] terms[k]) && i
                    <= terms[k].start < terms[k].end by {
                    if k == 0 {
                        assert(terms[k] == sh);
                    } else {
                        assert(terms[k] == rest[k - 1]);
                    }
                }
                assert forall|k: int|
                    0 < k < terms.len() implies (#[trigger] terms[k]).start >= terms[k - 1].end by {
                    assert(terms[k] == rest[k - 1]);
                    if k == 1 {
                        assert(terms[0] == sh);
                    } else {
                        assert(terms[k - 1] == rest[k - 2]);
                    }
                }
            },
            None => {
                lemma_scan_wf(s, i + 1);
                assert(spec_scan(s, i) == spec_scan(s, i + 1));
            },
        }
    } else {
        assert(spec_scan(s, i) =~= Seq::<TermShape>::empty());
    }
}

/// Exec mirror of [`spec_scan`]: all term spans of the text.
pub fn scan_terms(chars: &Vec<char>) -> (terms: Vec<TermShape>)
    ensures
        terms@ == spec_scan(chars@, 0),
{
    let ghost s = chars@;
    let mut terms: Vec<TermShape> = Vec::new();
    let mut i: usize = 0;
    while i < chars.len()
        invariant
            0 <= i <= s.len(),
            s == chars@,
            spec_scan(s, 0) == terms@ + spec_scan(s, i as int),
        decreases s.len() - i,
    {
        match match_term_at(chars, i) {
            Some(sh) => {
                proof {
                    lemma_match_at_wf(s, i as int);
                    assert((terms@ + spec_scan(s, i as int)) =~= (terms@.push(sh) + spec_scan(
                        s,
                        sh.end as int,
                    )));
                }
                terms.push(sh);
                i = sh.end;
            },
            None => {
                i += 1;
            },
        }
    }
    proof {
        assert(spec_scan(s, i as int) =~= Seq::<TermShape>::empty());
        assert(spec_scan(s, 0) =~= terms@);
    }
    terms
}

/// Whether the text holds at least one dice term.
pub fn contains_dice_term(msg: &str) -> (r: bool)
    ensures
        r == (spec_scan(msg@, 0).len() > 0),
{
    let chars = crate::text::str_to_chars(msg);
    let terms = scan_terms(&chars);
    terms.len() > 0
}

} // verus!
