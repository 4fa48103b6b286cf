//! The arithmetic evaluator: parses the value rendering as an infix
//! expression over signed 64-bit integers with `+ - * /`, unary minus and
//! parentheses, conventional precedence and left-to-right associativity.
//! Division truncates toward zero; dividing by zero is a reported error.

use vstd::prelude::*;
use crate::dice::RollError;
use crate::scan::{
    digit_run_end, digit_run_end_at, is_digit_c, lemma_digit_run_end, lemma_digit_run_full,
};
use crate::text::{
    dec_digits, digits_val, i64_dec, is_digit_char, lemma_dec_digits_value, parse_i64_digits,
};

verus! {

/// One token of the value rendering.
#[derive(Clone, Copy, Debug, PartialEq, Eq, Structural)]
pub enum Tok {
    /// A decimal numeral.
    Num(i64),
    /// `+`
    Plus,
    /// `-`
    Minus,
    /// `*`
    Star,
    /// `/`
    Slash,
    /// `(`
    LParen,
    /// `)`
    RParen,
}

/// One postfix operation after precedence resolution.
#[derive(Clone, Copy, Debug, PartialEq, Eq, Structural)]
pub enum ROp {
    /// Push a number.
    Num(i64),
    /// Binary addition.
    Add,
    /// Binary subtraction.
    Sub,
    /// Binary multiplication.
    Mul,
    /// Binary truncating division.
    Div,
    /// Unary negation.
    Neg,
}

/// One pending operator on the shunting stack.
#[derive(Clone, Copy, Debug, PartialEq, Eq, Structural)]
pub enum OpTok {
    /// Binary addition.
    Add,
    /// Binary subtraction.
    Sub,
    /// Binary multiplication.
    Mul,
    /// Binary truncating division.
    Div,
    /// Unary negation.
    Neg,
    /// An open parenthesis, holding its group.
    Open,
}

/// Binding strength: unary minus over `*` and `/` over `+` and `-`.
pub open spec fn spec_prec(op: OpTok) -> int {
    match op {
        OpTok::Add => 1,
        OpTok::Sub => 1,
        OpTok::Mul => 2,
        OpTok::Div => 2,
        OpTok::Neg => 3,
        OpTok::Open => 0,
    }
}

/// The postfix operation a pending operator becomes; never applied to an
/// open parenthesis.
pub open spec fn rop_of(op: OpTok) -> ROp {
    match op {
        OpTok::Add => ROp::Add,
        OpTok::Sub => ROp::Sub,
        OpTok::Mul => ROp::Mul,
        OpTok::Div => ROp::Div,
        OpTok::Neg => ROp::Neg,
        OpTok::Open => ROp::Add,
    }
}

/// Move every pending operator of precedence at least `p` to the output;
/// an open parenthesis stops the drain.
pub open spec fn pop_ge(out: Seq<ROp>, ops: Seq<OpTok>, p: int) -> (Seq<ROp>, Seq<OpTok>)
    decreases ops.len(),
{
    if ops.len() > 0 && ops.last() != OpTok::Open && spec_prec(ops.last()) >= p {
        pop_ge(out.push(rop_of(ops.last())), ops.drop_last(), p)
    } else {
        (out, ops)
    }
}

/// Drain pending operators to the output until the matching open
/// parenthesis, which is discarded; fails when there is none.
pub open spec fn pop_to_open(out: Seq<ROp>, ops: Seq<OpTok>) -> Option<(Seq<ROp>, Seq<OpTok>)>
    decreases ops.len(),
{
    if ops.len() == 0 {
        None
    } else if ops.last() == OpTok::Open {
        Some((out, ops.drop_last()))
    } else {
        pop_to_open(out.push(rop_of(ops.last())), ops.drop_last())
    }
}

/// Drain every pending operator at the end of the input; an open
/// parenthesis left on the stack is an unbalanced group.
pub open spec fn pop_rest(out: Seq<ROp>, ops: Seq<OpTok>) -> Option<Seq<ROp>>
    decreases ops.len(),
{
    if ops.len() == 0 {
        Some(out)
    } else if ops.last() == OpTok::Open {
        None
    } else {
        pop_rest(out.push(rop_of(ops.last())), ops.drop_last())
    }
}

/// The shunting pass over `toks[i..]`: `expect` records whether an operand
/// must come next, which also decides whether `-` is unary.
pub open spec fn shunt_all(
    toks: Seq<Tok>,
    i: int,
    out: Seq<ROp>,
    ops: Seq<OpTok>,
    expect: bool,
) -> Result<Seq<ROp>, RollError>
    decreases toks.len() - i,
    when 0 <= i <= toks.len()
{
    if i >= toks.len() {
        if expect {
            Err(RollError::Syntax)
        } else {
            match pop_rest(out, ops) {
                Some(o) => Ok(o),
                None => Err(RollError::Syntax),
            }
        }
    } else {
        match toks[i] {
            Tok::Num(v) => if expect {
                shunt_all(toks, i + 1, out.push(ROp::Num(v)), ops, false)
            } else {
                Err(RollError::Syntax)
            },
            Tok::LParen => if expect {
                shunt_all(toks, i + 1, out, ops.push(OpTok::Open), true)
            } else {
                Err(RollError::Syntax)
            },
            Tok::RParen => if expect {
                Err(RollError::Syntax)
            } else {
                match pop_to_open(out, ops) {
                    Some(os) => shunt_all(toks, i + 1, os.0, os.1, false),
                    None => Err(RollError::Syntax),
                }
            },
            Tok::Minus => if expect {
                shunt_all(toks, i + 1, out, ops.push(OpTok::Neg), true)
            } else {
                let os = pop_ge(out, ops, 1);
                shunt_all(toks, i + 1, os.0, os.1.push(OpTok::Sub), true)
            },
            Tok::Plus => if expect {
                Err(RollError::Syntax)
            } else {
                let os = pop_ge(out, ops, 1);
                shunt_all(toks, i + 1, os.0, os.1.push(OpTok::Add), true)
            },
            Tok::Star => if expect {
                Err(RollError::Syntax)
            } else {
                let os = pop_ge(out, ops, 2);
                shunt_all(toks, i + 1, os.0, os.1.push(OpTok::Mul), true)
            },
            Tok::Slash => if expect {
                Err(RollError::Syntax)
            } else {
                let os = pop_ge(out, ops, 2);
                shunt_all(toks, i + 1, os.0, os.1.push(OpTok::Div), true)
            },
        }
    }
}

/// Truncating division, the semantics of `/` on the engine's signed
/// integers; zero divisors are guarded before it is applied.
pub open spec fn trunc_div(x: int, d: int) -> int {
    if d == 0 {
        0
    } else if x == 0 {
        0
    } else if x > 0 && d > 0 {
        x / d
    } else if x < 0 && d < 0 {
        ((x * -1) / (d * -1))
    } else if x < 0 {
        ((x * -1) / d) * -1
    } else {
        (x / (d * -1)) * -1
    }
}

/// Run the postfix program `prog[i..]` against the value stack: the single
/// remaining value is the total; a leftover or missing operand is a syntax
/// failure, and every operation is overflow-checked.
pub open spec fn rpn_eval(prog: Seq<ROp>, i: int, stack: Seq<i64>) -> Result<i64, RollError>
    decreases prog.len() - i,
    when 0 <= i <= prog.len()
{
    if i >= prog.len() {
        if stack.len() == 1 {
            Ok(stack[0])
        } else {
            Err(RollError::Syntax)
        }
    } else {
        match prog[i] {
            ROp::Num(v) => rpn_eval(prog, i + 1, stack.push(v)),
            ROp::Neg => if stack.len() < 1 {
                Err(RollError::Syntax)
            } else {
                let v = -(stack.last() as int);
                if v > i64::MAX {
                    Err(RollError::Overflow)
                } else {
                    rpn_eval(prog, i + 1, stack.drop_last().push(v as i64))
                }
            },
            ROp::Div => if stack.len() < 2 {
                Err(RollError::Syntax)
            } else {
                let b = stack.last();
                let a = stack[stack.len() - 2];
                if b == 0 {
                    Err(RollError::DivisionByZero)
                } else {
                    let v = trunc_div(a as int, b as int);
                    if v < i64::MIN || v > i64::MAX {
                        Err(RollError::Overflow)
                    } else {
                        rpn_eval(prog, i + 1, stack.drop_last().drop_last().push(v as i64))
                    }
                }
            },
            _ => if stack.len() < 2 {
                Err(RollError::Syntax)
            } else {
                let b = stack.last() as int;
                let a = stack[stack.len() - 2] as int;
                let v = match prog[i] {
                    ROp::Add => a + b,
                    ROp::Sub => a - b,
                    _ => a * b,
                };
                if v < i64::MIN || v > i64::MAX {
                    Err(RollError::Overflow)
                } else {
                    rpn_eval(prog, i + 1, stack.drop_last().drop_last().push(v as i64))
                }
            },
        }
    }
}

/// The tokens of the value rendering: numerals, operators and parentheses,
/// with whitespace skipped; any other character, or a numeral beyond the
/// signed 64-bit width, is a syntax failure.
pub open spec fn spec_tokenize(s: Seq<char>, i: int) -> Result<Seq<Tok>, RollError>
    decreases s.len() - i,
    when 0 <= i <= s.len()
    via spec_tokenize_decreases
{
    if i >= s.len() {
        Ok(Seq::empty())
    } else {
        let c = s[i];
        if c == ' ' || c == '\t' || c == '\n' || c == '\r' {
            spec_tokenize(s, i + 1)
        } else if is_digit_char(c) {
            let e = digit_run_end(s, i);
            let v = digits_val(s.subrange(i, e));
            if v > i64::MAX {
                Err(RollError::Syntax)
            } else {
                cons_tok(Tok::Num(v as i64), spec_tokenize(s, e))
            }
        } else if c == '+' {
            cons_tok(Tok::Plus, spec_tokenize(s, i + 1))
        } else if c == '-' {
            cons_tok(Tok::Minus, spec_tokenize(s, i + 1))
        } else if c == '*' {
            cons_tok(Tok::Star, spec_tokenize(s, i + 1))
        } else if c == '/' {
            cons_tok(Tok::Slash, spec_tokenize(s, i + 1))
        } else if c == '(' {
            cons_tok(Tok::LParen, spec_tokenize(s, i + 1))
        } else if c == ')' {
            cons_tok(Tok::RParen, spec_tokenize(s, i + 1))
        } else {
            Err(RollError::Syntax)
        }
    }
}

/// Prepend a token to a tokenization result, keeping its failure.
pub open spec fn cons_tok(t: Tok, r: Result<Seq<Tok>, RollError>) -> Result<Seq<Tok>, RollError> {
    match r {
        Ok(rest) => Ok(seq![t] + rest),
        Err(e) => Err(e),
    }
}

#[via_fn]
proof fn spec_tokenize_decreases(s: Seq<char>, i: int) {
    if 0 <= i < s.len() {
        if is_digit_char(s[i]) {
            lemma_digit_run_end(s, i + 1);
            assert(digit_run_end(s, i) == digit_run_end(s, i + 1));
        }
    }
}

/// What evaluating the value rendering yields: tokenize, resolve
/// precedence, then run the postfix program.
pub open spec fn spec_eval_text(s: Seq<char>) -> Result<i64, RollError> {
    match spec_tokenize(s, 0) {
        Err(e) => Err(e),
        Ok(toks) => match shunt_all(toks, 0, Seq::empty(), Seq::empty(), true) {
            Err(e) => Err(e),
            Ok(prog) => rpn_eval(prog, 0, Seq::empty()),
        },
    }
}

/// Tokenization fails only at the syntax level.
pub proof fn lemma_tokenize_err_kind(s: Seq<char>, i: int)
    requires
        0 <= i <= s.len(),
        spec_tokenize(s, i) is Err,
    ensures
        spec_tokenize(s, i)->Err_0 == RollError::Syntax,
    decreases s.len() - i,
{
    if i < s.len() {
        let c = s[i];
        if c == ' ' || c == '\t' || c == '\n' || c == '\r' {
            lemma_tokenize_err_kind(s, i + 1);
        } else if is_digit_char(c) {
            let e = digit_run_end(s, i);
            lemma_digit_run_end(s, i);
            if digits_val(s.subrange(i, e)) <= i64::MAX {
                lemma_tokenize_err_kind(s, e);
            }
        } else if c == '+' || c == '-' || c == '*' || c == '/' || c == '(' || c == ')' {
            lemma_tokenize_err_kind(s, i + 1);
        }
    }
}

/// Precedence resolution fails only at the syntax level.
pub proof fn lemma_shunt_err_kind(toks: Seq<Tok>, i: int, out: Seq<ROp>, ops: Seq<OpTok>, expect: bool)
    requires
        0 <= i <= toks.len(),
        shunt_all(toks, i, out, ops, expect) is Err,
    ensures
        shunt_all(toks, i, out, ops, expect)->Err_0 == RollError::Syntax,
    decreases toks.len() - i,
{
    if i < toks.len() {
        match toks[i] {
            Tok::Num(v) => {
                if expect {
                    lemma_shunt_err_kind(toks, i + 1, out.push(ROp::Num(v)), ops, false);
                }
            },
            Tok::LParen => {
                if expect {
                    lemma_shunt_err_kind(toks, i + 1, out, ops.push(OpTok::Open), true);
                }
            },
            Tok::RParen => {
                if !expect {
                    match pop_to_open(out, ops) {
                        Some(os) => {
                            lemma_shunt_err_kind(toks, i + 1, os.0, os.1, false);
                        },
                        None => {},
                    }
                }
            },
            Tok::Minus => {
                if expect {
                    lemma_shunt_err_kind(toks, i + 1, out, ops.push(OpTok::Neg), true);
                } else {
                    let os = pop_ge(out, ops, 1);
                    lemma_shunt_err_kind(toks, i + 1, os.0, os.1.push(OpTok::Sub), true);
                }
            },
            Tok::Plus => {
                if !expect {
                    let os = pop_ge(out, ops, 1);
                    lemma_shunt_err_kind(toks, i + 1, os.0, os.1.push(OpTok::Add), true);
                }
            },
            Tok::Star => {
                if !expect {
                    let os = pop_ge(out, ops, 2);
                    lemma_shunt_err_kind(toks, i + 1, os.0, os.1.push(OpTok::Mul), true);
                }
            },
            Tok::Slash => {
                if !expect {
                    let os = pop_ge(out, ops, 2);
                    lemma_shunt_err_kind(toks, i + 1, os.0, os.1.push(OpTok::Div), true);
                }
            },
        }
    }
}

/// Running the postfix program fails only with a syntax, overflow or
/// division-by-zero error.
pub proof fn lemma_rpn_err_kind(prog: Seq<ROp>, i: int, stack: Seq<i64>)
    requires
        0 <= i <= prog.len(),
        rpn_eval(prog, i, stack) is Err,
    ensures
        rpn_eval(prog, i, stack)->Err_0 == RollError::Syntax || rpn_eval(prog, i, stack)->Err_0
            == RollError::Overflow || rpn_eval(prog, i, stack)->Err_0
            == RollError::DivisionByZero,
    decreases prog.len() - i,
{
    if i < prog.len() {
        match prog[i] {
            ROp::Num(v) => {
                lemma_rpn_err_kind(prog, i + 1, stack.push(v));
            },
            ROp::Neg => {
                if stack.len() >= 1 {
                    let v = -(stack.last() as int);
                    if v <= i64::MAX {
                        lemma_rpn_err_kind(prog, i + 1, stack.drop_last().push(v as i64));
                    }
                }
            },
            ROp::Div => {
                if stack.len() >= 2 {
                    let b = stack.last();
                    let a = stack[stack.len() - 2];
                    if b != 0 {
                        let v = trunc_div(a as int, b as int);
                        if i64::MIN <= v <= i64::MAX {
                            lemma_rpn_err_kind(
                                prog,
                                i + 1,
                                stack.drop_last().drop_last().push(v as i64),
                            );
                        }
                    }
                }
            },
            _ => {
                if stack.len() >= 2 {
                    let b = stack.last() as int;
                    let a = stack[stack.len() - 2] as int;
                    let v = match prog[i] {
                        ROp::Add => a + b,
                        ROp::Sub => a - b,
                        _ => a * b,
                    };
                    if i64::MIN <= v <= i64::MAX {
                        lemma_rpn_err_kind(
                            prog,
                            i + 1,
                            stack.drop_last().drop_last().push(v as i64),
                        );
                    }
                }
            },
        }
    }
}

/// The arithmetic pass fails only with a syntax, overflow or
/// division-by-zero error; it never reports a rolling failure.
pub proof fn lemma_eval_text_err_kind(s: Seq<char>)
    requires
        spec_eval_text(s) is Err,
    ensures
        spec_eval_text(s)->Err_0 == RollError::Syntax || spec_eval_text(s)->Err_0
            == RollError::Overflow || spec_eval_text(s)->Err_0 == RollError::DivisionByZero,
{
    match spec_tokenize(s, 0) {
        Err(_) => {
            lemma_tokenize_err_kind(s, 0);
        },
        Ok(toks) => {
            match shunt_all(toks, 0, Seq::empty(), Seq::empty(), true) {
                Err(_) => {
                    lemma_shunt_err_kind(toks, 0, Seq::empty(), Seq::empty(), true);
                },
                Ok(prog) => {
                    lemma_rpn_err_kind(prog, 0, Seq::empty());
                },
            }
        },
    }
}

/// A decimal digit run standing alone tokenizes to its one numeral.
proof fn lemma_tokenize_digits(s: Seq<char>, i: int, m: int)
    requires
        0 <= i <= s.len(),
        s.subrange(i, s.len() as int) == dec_digits(m),
        0 <= m <= i64::MAX,
    ensures
        spec_tokenize(s, i) == Ok::<Seq<Tok>, RollError>(seq![Tok::Num(m as i64)]),
{
    lemma_dec_digits_value(m);
    assert(i < s.len());
    assert forall|j: int| i <= j < s.len() implies is_digit_char(#[trigger] s[j]) by {
        assert(s[j] == s.subrange(i, s.len() as int)[j - i]);
    }
    lemma_digit_run_full(s, i);
    assert(digits_val(s.subrange(i, digit_run_end(s, i))) == m);
    assert(spec_tokenize(s, s.len() as int) == Ok::<Seq<Tok>, RollError>(Seq::empty()));
    assert(seq![Tok::Num(m as i64)] + Seq::<Tok>::empty() =~= seq![Tok::Num(m as i64)]);
}

/// A rendered numeral evaluates to itself: the arithmetic pass agrees with
/// the decimal formatting on every total that fits the signed 64-bit width.
pub proof fn lemma_eval_numeral(n: int)
    requires
        i64::MIN < n <= i64::MAX,
    ensures
        spec_eval_text(i64_dec(n)) == Ok::<i64, RollError>(n as i64),
{
    if n >= 0 {
        let s = i64_dec(n);
        lemma_dec_digits_value(n);
        assert(s.subrange(0, s.len() as int) =~= s);
        lemma_tokenize_digits(s, 0, n);
        let toks = seq![Tok::Num(n as i64)];
        let out = seq![ROp::Num(n as i64)];
        assert(shunt_all(toks, 0, Seq::empty(), Seq::empty(), true) == shunt_all(
            toks,
            1,
            Seq::<ROp>::empty().push(ROp::Num(n as i64)),
            Seq::empty(),
            false,
        ));
        assert(Seq::<ROp>::empty().push(ROp::Num(n as i64)) =~= out);
        assert(pop_rest(out, Seq::empty()) == Some(out));
        assert(shunt_all(toks, 0, Seq::empty(), Seq::empty(), true) == Ok::<Seq<ROp>, RollError>(
            out,
        ));
        assert(rpn_eval(out, 0, Seq::empty()) == rpn_eval(
            out,
            1,
            Seq::<i64>::empty().push(n as i64),
        ));
        assert(Seq::<i64>::empty().push(n as i64) =~= seq![n as i64]);
        assert(rpn_eval(out, 1, seq![n as i64]) == Ok::<i64, RollError>(n as i64));
    } else {
        let m = -n;
        let s = i64_dec(n);
        lemma_dec_digits_value(m);
        assert(s =~= seq!['-'] + dec_digits(m));
        assert(s[0] == '-');
        assert(s.subrange(1, s.len() as int) =~= dec_digits(m));
        lemma_tokenize_digits(s, 1, m);
        assert(spec_tokenize(s, 0) == cons_tok(Tok::Minus, spec_tokenize(s, 1)));
        let toks = seq![Tok::Minus, Tok::Num(m as i64)];
        assert(seq![Tok::Minus] + seq![Tok::Num(m as i64)] =~= toks);
        assert(spec_tokenize(s, 0) == Ok::<Seq<Tok>, RollError>(toks));
        let ops = seq![OpTok::Neg];
        let out = seq![ROp::Num(m as i64)];
        assert(shunt_all(toks, 0, Seq::empty(), Seq::empty(), true) == shunt_all(
            toks,
            1,
            Seq::empty(),
            Seq::<OpTok>::empty().push(OpTok::Neg),
            true,
        ));
        assert(Seq::<OpTok>::empty().push(OpTok::Neg) =~= ops);
        assert(shunt_all(toks, 1, Seq::empty(), ops, true) == shunt_all(
            toks,
            2,
            Seq::<ROp>::empty().push(ROp::Num(m as i64)),
            ops,
            false,
        ));
        assert(Seq::<ROp>::empty().push(ROp::Num(m as i64)) =~= out);
        assert(ops.last() == OpTok::Neg && ops.drop_last() =~= Seq::<OpTok>::empty());
        assert(pop_rest(out, ops) == pop_rest(out.push(ROp::Neg), Seq::empty()));
        let prog = seq![ROp::Num(m as i64), ROp::Neg];
        assert(out.push(ROp::Neg) =~= prog);
        assert(shunt_all(toks, 0, Seq::empty(), Seq::empty(), true) == Ok::<Seq<ROp>, RollError>(
            prog,
        ));
        assert(rpn_eval(prog, 0, Seq::empty()) == rpn_eval(
            prog,
            1,
            Seq::<i64>::empty().push(m as i64),
        ));
        let stack = seq![m as i64];
        assert(Seq::<i64>::empty().push(m as i64) =~= stack);
        assert(stack.len() == 1 && stack.last() == m as i64);
        assert(-(stack.last() as int) == n);
        assert(stack.drop_last().push(n as i64) =~= seq![n as i64]);
        assert(rpn_eval(prog, 1, stack) == rpn_eval(prog, 2, seq![n as i64]));
        assert(rpn_eval(prog, 2, seq![n as i64]) == Ok::<i64, RollError>(n as i64));
    }
}

/// Exec mirror of [`spec_tokenize`].
pub fn tokenize(chars: &Vec<char>) -> (r: Result<Vec<Tok>, RollError>)
    ensures
        r is Ok ==> spec_tokenize(chars@, 0) == Ok::<Seq<Tok>, RollError>(r->Ok_0@),
        r is Err ==> spec_tokenize(chars@, 0) == Err::<Seq<Tok>, RollError>(r->Err_0),
{
    let ghost s = chars@;
    let mut toks: Vec<Tok> = Vec::new();
    let mut i: usize = 0;
    while i < chars.len()
        invariant
            0 <= i <= s.len(),
            s == chars@,
            spec_tokenize(s, i as int) is Ok ==> spec_tokenize(s, 0) == Ok::<Seq<Tok>, RollError>(
                toks@ + spec_tokenize(s, i as int)->Ok_0,
            ),
            spec_tokenize(s, i as int) is Err ==> spec_tokenize(s, 0) == spec_tokenize(
                s,
                i as int,
            ),
        decreases s.len() - i,
    {
        let c = chars[i];
        if c == ' ' || c == '\t' || c == '\n' || c == '\r' {
            i += 1;
        } else if is_digit_c(c) {
            let e = digit_run_end_at(chars, i);
            proof {
                lemma_digit_run_end(s, i as int);
            }
            match parse_i64_digits(chars, i, e) {
                Ok(v) => {
                    proof {
                        if spec_tokenize(s, e as int) is Ok {
                            assert(toks@ + (seq![Tok::Num(v)] + spec_tokenize(s, e as int)->Ok_0)
                                =~= toks@.push(Tok::Num(v)) + spec_tokenize(s, e as int)->Ok_0);
                        }
                    }
                    toks.push(Tok::Num(v));
                    i = e;
                },
                Err(er) => {
                    return Err(er);
                },
            }
        } else if c == '+' || c == '-' || c == '*' || c == '/' || c == '(' || c == ')' {
            let t: Tok = if c == '+' {
                Tok::Plus
            } else if c == '-' {
                Tok::Minus
            } else if c == '*' {
                Tok::Star
            } else if c == '/' {
                Tok::Slash
            } else if c == '(' {
                Tok::LParen
            } else {
                Tok::RParen
            };
            proof {
                if spec_tokenize(s, i + 1) is Ok {
                    assert(toks@ + (seq![t] + spec_tokenize(s, i + 1)->Ok_0) =~= toks@.push(t)
                        + spec_tokenize(s, i + 1)->Ok_0);
                }
            }
            toks.push(t);
            i += 1;
        } else {
            return Err(RollError::Syntax);
        }
    }
    proof {
        assert(toks@ + Seq::<Tok>::empty() =~= toks@);
    }
    Ok(toks)
}

/// Exec mirror of [`spec_prec`].
fn prec_of(op: &OpTok) -> (p: u32)
    ensures
        p == spec_prec(*op),
{
    match op {
        OpTok::Add => 1,
        OpTok::Sub => 1,
        OpTok::Mul => 2,
        OpTok::Div => 2,
        OpTok::Neg => 3,
        OpTok::Open => 0,
    }
}

/// Exec mirror of [`rop_of`].
fn rop_exec(op: &OpTok) -> (r: ROp)
    ensures
        r == rop_of(*op),
{
    match op {
        OpTok::Add => ROp::Add,
        OpTok::Sub => ROp::Sub,
        OpTok::Mul => ROp::Mul,
        OpTok::Div => ROp::Div,
        OpTok::Neg => ROp::Neg,
        OpTok::Open => ROp::Add,
    }
}

/// Whether the top pending operator should drain for precedence `p`.
fn should_pop_ge(ops: &Vec<OpTok>, p: u32) -> (b: bool)
    ensures
        b == (ops@.len() > 0 && ops@.last() != OpTok::Open && spec_prec(ops@.last()) >= p),
{
    if ops.len() == 0 {
        return false;
    }
    let top = ops[ops.len() - 1];
    match top {
        OpTok::Open => false,
        _ => prec_of(&top) >= p,
    }
}

/// Whether the operator stack still has a non-parenthesis top to drain.
fn has_closed_top(ops: &Vec<OpTok>) -> (b: bool)
    ensures
        b == (ops@.len() > 0 && ops@.last() != OpTok::Open),
{
    if ops.len() == 0 {
        return false;
    }
    match ops[ops.len() - 1] {
        OpTok::Open => false,
        _ => true,
    }
}

/// Exec mirror of [`pop_ge`].
fn do_pop_ge(out: Vec<ROp>, ops: Vec<OpTok>, p: u32) -> (r: (Vec<ROp>, Vec<OpTok>))
    ensures
        (r.0@, r.1@) == pop_ge(out@, ops@, p as int),
{
    let ghost out0 = out@;
    let ghost ops0 = ops@;
    let mut out = out;
    let mut ops = ops;
    while should_pop_ge(&ops, p)
        invariant
            pop_ge(out@, ops@, p as int) == pop_ge(out0, ops0, p as int),
        decreases ops@.len(),
    {
        let top = ops.pop().unwrap();
        out.push(rop_exec(&top));
    }
    (out, ops)
}

/// Exec mirror of [`pop_to_open`].
fn do_pop_to_open(out: Vec<ROp>, ops: Vec<OpTok>) -> (r: Option<(Vec<ROp>, Vec<OpTok>)>)
    ensures
        r is Some ==> pop_to_open(out@, ops@) == Some::<(Seq<ROp>, Seq<OpTok>)>(
            ((r->Some_0).0@, (r->Some_0).1@),
        ),
        r is None ==> pop_to_open(out@, ops@) is None,
{
    let ghost out0 = out@;
    let ghost ops0 = ops@;
    let mut out = out;
    let mut ops = ops;
    while has_closed_top(&ops)
        invariant
            pop_to_open(out@, ops@) == pop_to_open(out0, ops0),
        decreases ops@.len(),
    {
        let top = ops.pop().unwrap();
        out.push(rop_exec(&top));
    }
    if ops.len() == 0 {
        None
    } else {
        ops.pop();
        Some((out, ops))
    }
}

/// Exec mirror of [`pop_rest`].
fn do_pop_rest(out: Vec<ROp>, ops: Vec<OpTok>) -> (r: Option<Vec<ROp>>)
    ensures
        r is Some ==> pop_rest(out@, ops@) == Some::<Seq<ROp>>(r->Some_0@),
        r is None ==> pop_rest(out@, ops@) is None,
{
    let ghost out0 = out@;
    let ghost ops0 = ops@;
    let mut out = out;
    let mut ops = ops;
    while has_closed_top(&ops)
        invariant
            pop_rest(out@, ops@) == pop_rest(out0, ops0),
        decreases ops@.len(),
    {
        let top = ops.pop().unwrap();
        out.push(rop_exec(&top));
    }
    if ops.len() == 0 {
        Some(out)
    } else {
        None
    }
}

/// Exec mirror of [`shunt_all`]: resolve precedence into a postfix program.
pub fn shunt(toks: &Vec<Tok>) -> (r: Result<Vec<ROp>, RollError>)
    ensures
        r is Ok ==> shunt_all(toks@, 0, Seq::empty(), Seq::empty(), true) == Ok::<
            Seq<ROp>,
            RollError,
        >(r->Ok_0@),
        r is Err ==> shunt_all(toks@, 0, Seq::empty(), Seq::empty(), true) == Err::<
            Seq<ROp>,
            RollError,
        >(r->Err_0),
{
    let ghost ts = toks@;
    let mut out: Vec<ROp> = Vec::new();
    let mut ops: Vec<OpTok> = Vec::new();
    let mut expect: bool = true;
    let mut i: usize = 0;
    while i < toks.len()
        invariant
            0 <= i <= ts.len(),
            ts == toks@,
            shunt_all(ts, 0, Seq::empty(), Seq::empty(), true) == shunt_all(
                ts,
                i as int,
                out@,
                ops@,
                expect,
            ),
        decreases ts.len() - i,
    {
        let t = toks[i];
        match t {
            Tok::Num(v) => {
                if !expect {
                    return Err(RollError::Syntax);
                }
                out.push(ROp::Num(v));
                expect = false;
            },
            Tok::LParen => {
                if !expect {
                    return Err(RollError::Syntax);
                }
                ops.push(OpTok::Open);
            },
            Tok::RParen => {
                if expect {
                    return Err(RollError::Syntax);
                }
                match do_pop_to_open(out, ops) {
                    Some(os) => {
                        out = os.0;
                        ops = os.1;
                    },
                    None => {
                        return Err(RollError::Syntax);
                    },
                }
            },
            Tok::Minus => {
                if expect {
                    ops.push(OpTok::Neg);
                } else {
                    let os = do_pop_ge(out, ops, 1);
                    out = os.0;
                    ops = os.1;
                    ops.push(OpTok::Sub);
                    expect = true;
                }
            },
            Tok::Plus => {
                if expect {
                    return Err(RollError::Syntax);
                }
                let os = do_pop_ge(out, ops, 1);
                out = os.0;
                ops = os.1;
                ops.push(OpTok::Add);
                expect = true;
            },
            Tok::Star => {
                if expect {
                    return Err(RollError::Syntax);
                }
                let os = do_pop_ge(out, ops, 2);
                out = os.0;
                ops = os.1;
                ops.push(OpTok::Mul);
                expect = true;
            },
            Tok::Slash => {
                if expect {
                    return Err(RollError::Syntax);
                }
                let os = do_pop_ge(out, ops, 2);
                out = os.0;
                ops = os.1;
                ops.push(OpTok::Div);
                expect = true;
            },
        }
        i += 1;
    }
    if expect {
        return Err(RollError::Syntax);
    }
    match do_pop_rest(out, ops) {
        Some(o) => Ok(o),
        None => Err(RollError::Syntax),
    }
}

/// Exec mirror of [`rpn_eval`]: run the postfix program.
pub fn rpn_run(prog: &Vec<ROp>) -> (r: Result<i64, RollError>)
    ensures
        r == rpn_eval(prog@, 0, Seq::empty()),
{
    let ghost ps = prog@;
    let mut stack: Vec<i64> = Vec::new();
    let mut i: usize = 0;
    while i < prog.len()
        invariant
            0 <= i <= ps.len(),
            ps == prog@,
            rpn_eval(ps, 0, Seq::empty()) == rpn_eval(ps, i as int, stack@),
        decreases ps.len() - i,
    {
        match prog[i] {
            ROp::Num(v) => {
                stack.push(v);
            },
            ROp::Neg => {
                let a = match stack.pop() {
                    Some(x) => x,
                    None => {
                        return Err(RollError::Syntax);
                    },
                };
                let v = match (0i64).checked_sub(a) {
                    Some(x) => x,
                    None => {
                        return Err(RollError::Overflow);
                    },
                };
                stack.push(v);
            },
            ROp::Div => {
                if stack.len() < 2 {
                    return Err(RollError::Syntax);
                }
                let b = stack.pop().unwrap();
                let a = stack.pop().unwrap();
                if b == 0 {
                    return Err(RollError::DivisionByZero);
                }
                let v = match a.checked_div(b) {
                    Some(x) => x,
                    None => {
                        return Err(RollError::Overflow);
                    },
                };
                stack.push(v);
            },
            ROp::Add => {
                if stack.len() < 2 {
                    return Err(RollError::Syntax);
                }
                let b = stack.pop().unwrap();
                let a = stack.pop().unwrap();
                let v = match a.checked_add(b) {
                    Some(x) => x,
                    None => {
                        return Err(RollError::Overflow);
                    },
                };
                stack.push(v);
            },
            ROp::Sub => {
                if stack.len() < 2 {
                    return Err(RollError::Syntax);
                }
                let b = stack.pop().unwrap();
                let a = stack.pop().unwrap();
                let v = match a.checked_sub(b) {
                    Some(x) => x,
                    None => {
                        return Err(RollError::Overflow);
                    },
                };
                stack.push(v);
            },
            ROp::Mul => {
                if stack.len() < 2 {
                    return Err(RollError::Syntax);
                }
                let b = stack.pop().unwrap();
                let a = stack.pop().unwrap();
                let v = match a.checked_mul(b) {
                    Some(x) => x,
                    None => {
                        return Err(RollError::Overflow);
                    },
                };
                stack.push(v);
            },
        }
        proof {
            assert(stack@ =~= stack@);
        }
        i += 1;
    }
    if stack.len() == 1 {
        Ok(stack[0])
    } else {
        Err(RollError::Syntax)
    }
}

/// Evaluate the value rendering, as [`spec_eval_text`] states.
pub fn eval_chars(chars: &Vec<char>) -> (r: Result<i64, RollError>)
    ensures
        r == spec_eval_text(chars@),
{
    let toks = match tokenize(chars) {
        Ok(t) => t,
        Err(e) => {
            return Err(e);
        },
    };
    let prog = match shunt(&toks) {
        Ok(p) => p,
        Err(e) => {
            return Err(e);
        },
    };
    rpn_run(&prog)
}

} // verus!
