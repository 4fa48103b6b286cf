//! Characters, decimal numerals, and the conversions between text and the
//! character sequences the engine scans.

use vstd::prelude::*;
use vstd::string::StrSliceExecFns;
use crate::dice::RollError;

verus! {

/// Whether `c` is a decimal digit.
pub open spec fn is_digit_char(c: char) -> bool {
    '0' as u32 <= c as u32 <= '9' as u32
}

/// The value of the digit `c`.
pub open spec fn digit_val(c: char) -> int {
    c as u32 - '0' as u32
}

/// Whether every character of `s` is a decimal digit.
pub open spec fn all_digits(s: Seq<char>) -> bool {
    forall|i: int| 0 <= i < s.len() ==> is_digit_char(#[trigger] s[i])
}

/// The number a run of decimal digits denotes, most significant first.
pub open spec fn digits_val(s: Seq<char>) -> int
    decreases s.len(),
{
    if s.len() == 0 {
        0
    } else {
        digits_val(s.drop_last()) * 10 + digit_val(s.last())
    }
}

/// A digit run denotes a non-negative number.
pub proof fn lemma_digits_val_nonneg(s: Seq<char>)
    requires
        all_digits(s),
    ensures
        digits_val(s) >= 0,
    decreases s.len(),
{
    if s.len() > 0 {
        assert(all_digits(s.drop_last()));
        lemma_digits_val_nonneg(s.drop_last());
    }
}

/// A prefix of a digit run never denotes more than the whole run.
pub proof fn lemma_digits_val_prefix(s: Seq<char>, k: int)
    requires
        all_digits(s),
        0 <= k <= s.len(),
    ensures
        digits_val(s.take(k)) <= digits_val(s),
    decreases s.len() - k,
{
    if k < s.len() {
        lemma_digits_val_prefix(s, k + 1);
        assert(s.take(k + 1).drop_last() =~= s.take(k));
        assert(all_digits(s.take(k)));
        lemma_digits_val_nonneg(s.take(k));
        assert(digits_val(s.take(k + 1)) == digits_val(s.take(k)) * 10 + digit_val(s[k]));
        assert(digits_val(s.take(k)) * 10 >= digits_val(s.take(k))) by {
            lemma_digits_val_nonneg(s.take(k));
        }
    } else {
        assert(s.take(k) =~= s);
    }
}

/// Read the digits `chars[start..end]` as a `u32`. A run whose value does
/// not fit the 32-bit counting width is unparseable, a syntax failure
/// distinct from the policy bounds.
pub fn parse_u32_digits(chars: &Vec<char>, start: usize, end: usize) -> (r: Result<u32, RollError>)
    requires
        start <= end <= chars@.len(),
        all_digits(chars@.subrange(start as int, end as int)),
    ensures
        ({
            let v = digits_val(chars@.subrange(start as int, end as int));
            if v <= u32::MAX {
                r == Ok::<u32, RollError>(v as u32)
            } else {
                r == Err::<u32, RollError>(RollError::Syntax)
            }
        }),
{
    let ghost s = chars@.subrange(start as int, end as int);
    let mut acc: u32 = 0;
    let mut i: usize = start;
    proof {
        assert(s.take(0) =~= Seq::<char>::empty());
    }
    while i < end
        invariant
            start <= i <= end <= chars@.len(),
            s == chars@.subrange(start as int, end as int),
            all_digits(s),
            acc == digits_val(s.take(i - start)),
        decreases end - i,
    {
        let c = chars[i];
        proof {
            assert(s[i - start] == c);
            assert(is_digit_char(c));
            assert(s.take(i - start + 1).drop_last() =~= s.take(i - start));
            assert(s.take(i - start + 1).last() == c);
        }
        let d: u32 = (c as u32) - ('0' as u32);
        let wide: u64 = (acc as u64) * 10 + (d as u64);
        if wide > u32::MAX as u64 {
            proof {
                assert(digits_val(s.take(i - start + 1)) == wide);
                lemma_digits_val_prefix(s, i - start + 1);
            }
            return Err(RollError::Syntax);
        }
        acc = wide as u32;
        i += 1;
    }
    proof {
        assert(s.take(end - start) =~= s);
    }
    Ok(acc)
}

/// Read the digits `chars[start..end]` as an `i64` total; a run whose value
/// exceeds the signed 64-bit width is a syntax failure.
pub fn parse_i64_digits(chars: &Vec<char>, start: usize, end: usize) -> (r: Result<
    i64,
    RollError,
>)
    requires
        start <= end <= chars@.len(),
        all_digits(chars@.subrange(start as int, end as int)),
    ensures
        ({
            let v = digits_val(chars@.subrange(start as int, end as int));
            if v <= i64::MAX {
                r == Ok::<i64, RollError>(v as i64)
            } else {
                r == Err::<i64, RollError>(RollError::Syntax)
            }
        }),
{
    let ghost s = chars@.subrange(start as int, end as int);
    let mut acc: u64 = 0;
    let mut i: usize = start;
    proof {
        assert(s.take(0) =~= Seq::<char>::empty());
    }
    while i < end
        invariant
            start <= i <= end <= chars@.len(),
            s == chars@.subrange(start as int, end as int),
            all_digits(s),
            acc <= i64::MAX,
            acc == digits_val(s.take(i - start)),
        decreases end - i,
    {
        let c = chars[i];
        proof {
            assert(s[i - start] == c);
            assert(is_digit_char(c));
            assert(s.take(i - start + 1).drop_last() =~= s.take(i - start));
            assert(s.take(i - start + 1).last() == c);
        }
        let d: u64 = ((c as u32) - ('0' as u32)) as u64;
        if acc > (i64::MAX as u64 - d) / 10 {
            proof {
                assert(digits_val(s.take(i - start + 1)) == acc * 10 + d);
                lemma_digits_val_prefix(s, i - start + 1);
            }
            return Err(RollError::Syntax);
        }
        acc = acc * 10 + d;
        i += 1;
    }
    proof {
        assert(s.take(end - start) =~= s);
    }
    Ok(acc as i64)
}

/// The character of the digit `d`.
pub open spec fn digit_char(d: int) -> char {
    (('0' as u8) + d) as char
}

/// The decimal numeral of a non-negative number.
pub open spec fn dec_digits(n: int) -> Seq<char>
    decreases n,
{
    if n < 10 {
        seq![digit_char(n)]
    } else {
        dec_digits(n / 10).push(digit_char(n % 10))
    }
}

/// The decimal numeral of a non-negative number holds only digits, is
/// never empty, and reads back as that number.
pub proof fn lemma_dec_digits_value(m: int)
    requires
        0 <= m,
    ensures
        all_digits(dec_digits(m)),
        digits_val(dec_digits(m)) == m,
        1 <= dec_digits(m).len() <= m + 1,
    decreases m,
{
    if m < 10 {
        assert(dec_digits(m) =~= seq![digit_char(m)]);
        assert(is_digit_char(digit_char(m)));
        assert(seq![digit_char(m)].drop_last() =~= Seq::<char>::empty());
        assert(digits_val(Seq::<char>::empty()) == 0);
        assert(digits_val(seq![digit_char(m)]) == digit_val(digit_char(m)));
        assert(digit_val(digit_char(m)) == m);
    } else {
        lemma_dec_digits_value(m / 10);
        let d = dec_digits(m);
        assert(d == dec_digits(m / 10).push(digit_char(m % 10)));
        assert(d.drop_last() =~= dec_digits(m / 10));
        assert(d.last() == digit_char(m % 10));
        assert(is_digit_char(digit_char(m % 10)));
        assert(all_digits(d)) by {
            assert(forall|k: int|
                0 <= k < d.len() - 1 ==> #[trigger] d[k] == dec_digits(m / 10)[k]);
        }
        assert(digits_val(d) == digits_val(dec_digits(m / 10)) * 10 + digit_val(
            digit_char(m % 10),
        ));
        assert((m / 10) * 10 + m % 10 == m) by {
            vstd::arithmetic::div_mod::lemma_fundamental_div_mod(m, 10);
        }
    }
}

/// The decimal numeral of `n`, with a leading `-` when `n` is negative.
pub open spec fn i64_dec(n: int) -> Seq<char> {
    if n < 0 {
        seq!['-'] + dec_digits(-n)
    } else {
        dec_digits(n)
    }
}

/// Format `n` in unsigned decimal.
fn fmt_u64(m: u64) -> (out: Vec<char>)
    ensures
        out@ == dec_digits(m as int),
{
    let mut out: Vec<char> = Vec::new();
    if m < 10 {
        out.push((('0' as u8) + (m as u8)) as char);
        return out;
    }
    let mut cur: u64 = m;
    while cur > 0
        invariant
            cur > 0 ==> dec_digits(m as int) =~= dec_digits(cur as int) + out@,
            cur == 0 ==> dec_digits(m as int) =~= out@,
        decreases cur,
    {
        let d: u64 = cur % 10;
        let next: u64 = cur / 10;
        let c: char = (('0' as u8) + (d as u8)) as char;
        proof {
            if next > 0 {
                assert(dec_digits(cur as int) =~= dec_digits(next as int).push(digit_char(d as int)));
                assert(dec_digits(next as int).push(c) + out@ =~= dec_digits(next as int) + (seq![c]
                    + out@));
            } else {
                assert(dec_digits(cur as int) =~= seq![c]);
            }
        }
        out.insert(0, c);
        cur = next;
    }
    out
}

/// Format `n` in signed decimal, matching [`i64_dec`].
pub fn fmt_i64(n: i64) -> (out: Vec<char>)
    ensures
        out@ == i64_dec(n as int),
{
    if n >= 0 {
        fmt_u64(n as u64)
    } else {
        let m: u64 = if n == i64::MIN {
            9223372036854775808u64
        } else {
            (-n) as u64
        };
        let mut out = fmt_u64(m);
        out.insert(0, '-');
        proof {
            assert(out@ =~= seq!['-'] + dec_digits(m as int));
        }
        out
    }
}

/// The characters of `s`, in order.
pub fn str_to_chars(s: &str) -> (v: Vec<char>)
    ensures
        v@ == s@,
{
    let n = s.unicode_len();
    let mut v: Vec<char> = Vec::new();
    let mut i: usize = 0;
    proof {
        assert(s@.take(0) =~= Seq::<char>::empty());
    }
    while i < n
        invariant
            i <= n,
            n == s@.len(),
            v@ == s@.take(i as int),
        decreases n - i,
    {
        let c = s.get_char(i);
        proof {
            assert(s@.take(i + 1) =~= s@.take(i as int).push(c));
        }
        v.push(c);
        i += 1;
    }
    proof {
        assert(s@.take(n as int) =~= s@);
    }
    v
}

/// Relies on `String`'s `FromIterator` impl: collecting characters builds
/// the string holding exactly those characters in order.
#[verifier::external_body]
pub fn chars_to_string(v: &Vec<char>) -> (s: String)
    ensures
        s@ == v@,
{
    v.iter().collect()
}

} // verus!
