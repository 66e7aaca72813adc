//! The number syntaxes that values are recognized by: `isize::from_str` and
//! the grammar that `f64::from_str` accepts.

use vstd::prelude::*;
use crate::text::{run_end, find_run_end, slice_chars, CharClass};
use vstd::arithmetic::power2::{pow2, lemma_pow2_pos, lemma_pow2_unfold};
use vstd::arithmetic::div_mod::{lemma_div_denominator, lemma_fundamental_div_mod};

verus! {

pub open spec fn is_digit(c: char) -> bool {
    '0' <= c && c <= '9'
}

pub open spec fn all_digits(d: Seq<char>) -> bool {
    forall|i: int| 0 <= i < d.len() ==> is_digit(#[trigger] d[i])
}

/// The number that a sequence of decimal digits stands for.
pub open spec fn digits_value(d: Seq<char>) -> int
    decreases d.len(),
{
    if d.len() == 0 {
        0
    } else {
        digits_value(d.drop_last()) * 10 + (d.last() as int - '0' as int)
    }
}

/// The sign of an optional `+` or `-` in front, and the rest.
pub open spec fn split_sign(v: Seq<char>) -> (bool, Seq<char>) {
    if v.len() > 0 && v[0] == '-' {
        (true, v.drop_first())
    } else if v.len() > 0 && v[0] == '+' {
        (false, v.drop_first())
    } else {
        (false, v)
    }
}

/// `isize::from_str`: an optional sign followed by at least one decimal digit,
/// whose value lies in the range of `isize`.
pub open spec fn parse_isize(v: Seq<char>) -> Option<int> {
    let (neg, d) = split_sign(v);
    if d.len() == 0 || !all_digits(d) {
        None
    } else {
        let n = if neg {
            -digits_value(d)
        } else {
            digits_value(d)
        };
        if isize::MIN <= n && n <= isize::MAX {
            Some(n)
        } else {
            None
        }
    }
}

pub proof fn lemma_digits_value_step(d: Seq<char>, i: int)
    requires
        0 <= i < d.len(),
    ensures
        digits_value(d.take(i + 1)) == digits_value(d.take(i)) * 10 + (d[i] as int - '0' as int),
{
    assert(d.take(i + 1).drop_last() =~= d.take(i));
}

pub proof fn lemma_digits_value_grows(d: Seq<char>, i: int, j: int)
    requires
        0 <= i <= j <= d.len(),
        all_digits(d),
    ensures
        digits_value(d.take(i)) <= digits_value(d.take(j)),
    decreases j - i,
{
    if i < j {
        lemma_digits_value_grows(d, i, j - 1);
        lemma_digits_value_step(d, j - 1);
        assert(is_digit(d[j - 1]));
        assert(digits_value(d.take(j - 1)) >= 0) by {
            lemma_digits_value_nonneg(d.take(j - 1));
        }
    }
}

pub proof fn lemma_digits_value_nonneg(d: Seq<char>)
    requires
        all_digits(d),
    ensures
        digits_value(d) >= 0,
    decreases d.len(),
{
    if d.len() > 0 {
        assert(all_digits(d.drop_last())) by {
            assert forall|i: int| 0 <= i < d.drop_last().len() implies is_digit(
                #[trigger] d.drop_last()[i],
            ) by {
                assert(d.drop_last()[i] == d[i]);
            }
        }
        lemma_digits_value_nonneg(d.drop_last());
        assert(is_digit(d[d.len() - 1]));
    }
}

/// Executes `parse_isize`.
pub fn parse_isize_exec(v: &Vec<char>) -> (r: Option<isize>)
    ensures
        match r {
            Some(n) => parse_isize(v@) == Some(n as int),
            None => parse_isize(v@) is None,
        },
{
    let mut start: usize = 0;
    let mut neg = false;
    if v.len() > 0 && v[0] == '-' {
        start = 1;
        neg = true;
    } else if v.len() > 0 && v[0] == '+' {
        start = 1;
    }
    let ghost d = split_sign(v@).1;
    assert(d =~= v@.subrange(start as int, v@.len() as int));
    if start >= v.len() {
        return None;
    }
    let bound: i128 = (isize::MAX as i128) + 1;
    let mut val: i128 = 0;
    let mut i = start;
    while i < v.len()
        invariant
            start <= i <= v.len(),
            d == v@.subrange(start as int, v@.len() as int),
            split_sign(v@) == (neg, d),
            bound == isize::MAX + 1,
            0 <= val <= bound,
            val == digits_value(d.take(i - start)),
            forall|j: int| 0 <= j < i - start ==> is_digit(#[trigger] d[j]),
        decreases v.len() - i,
    {
        let c = v[i];
        if !('0' <= c && c <= '9') {
            assert(!is_digit(d[i - start]));
            return None;
        }
        proof {
            lemma_digits_value_step(d, i - start);
        }
        val = val * 10 + ((c as u32) - ('0' as u32)) as i128;
        i = i + 1;
        if val > bound {
            proof {
                if all_digits(d) {
                    lemma_digits_value_grows(d, i - start, d.len() as int);
                    assert(d.take(d.len() as int) =~= d);
                }
            }
            return None;
        }
    }
    assert(d.take(d.len() as int) =~= d);
    assert(all_digits(d));
    if neg {
        if val > bound {
            return None;
        }
        let n: i128 = -val;
        if n < (isize::MIN as i128) {
            return None;
        }
        Some(n as isize)
    } else {
        if val > (isize::MAX as i128) {
            return None;
        }
        Some(val as isize)
    }
}

/// `a` is the lowercase ASCII letter `l` or its uppercase form.
pub open spec fn ci(a: char, l: char) -> bool {
    a == l || a as int == l as int - 32
}

/// Executes `ci` for a lowercase ASCII letter.
pub fn ci_exec(a: char, l: char) -> (r: bool)
    requires
        'a' <= l <= 'z',
    ensures
        r == ci(a, l),
{
    a == l || (a as u32) + 32 == (l as u32)
}

/// `b` spells the lowercase word `w`, ignoring ASCII case.
pub open spec fn ci_word(b: Seq<char>, w: Seq<char>) -> bool {
    b.len() == w.len() && forall|i: int| 0 <= i < b.len() ==> ci(#[trigger] b[i], w[i])
}

/// An exponent from position `i` to the end: `e` or `E`, an optional sign and
/// at least one digit.
pub open spec fn exponent_at(b: Seq<char>, i: int) -> bool {
    &&& 0 <= i < b.len()
    &&& ci(b[i], 'e')
    &&& {
        let j = if i + 1 < b.len() && (b[i + 1] == '+' || b[i + 1] == '-') {
            i + 2
        } else {
            i + 1
        };
        let k = run_end(b, j, CharClass::Digit);
        k == b.len() && k > j
    }
}

/// A decimal number: digits with an optional fraction and an optional
/// exponent, with at least one digit before the exponent.
pub open spec fn decimal(b: Seq<char>) -> bool {
    let a = run_end(b, 0, CharClass::Digit);
    if a == b.len() {
        a > 0
    } else if b[a] == '.' {
        let c = run_end(b, a + 1, CharClass::Digit);
        (a > 0 || c > a + 1) && (c == b.len() || exponent_at(b, c))
    } else {
        a > 0 && exponent_at(b, a)
    }
}

/// The strings that `f64::from_str` accepts: an optional sign followed by
/// `inf`, `infinity`, `nan` (in any ASCII case) or a decimal number.
pub open spec fn float_syntax(v: Seq<char>) -> bool {
    let b = split_sign(v).1;
    ci_word(b, seq!['i', 'n', 'f']) || ci_word(b, seq!['i', 'n', 'f', 'i', 'n', 'i', 't', 'y'])
        || ci_word(b, seq!['n', 'a', 'n']) || decimal(b)
}

/// Executes `ci_word`.
fn ci_word_exec(b: &Vec<char>, w: &Vec<char>) -> (r: bool)
    requires
        forall|i: int| 0 <= i < w@.len() ==> 'a' <= #[trigger] w@[i] <= 'z',
    ensures
        r == ci_word(b@, w@),
{
    if b.len() != w.len() {
        return false;
    }
    let mut i: usize = 0;
    while i < b.len()
        invariant
            b@.len() == w@.len(),
            i <= b.len(),
            forall|j: int| 0 <= j < w@.len() ==> 'a' <= #[trigger] w@[j] <= 'z',
            forall|j: int| 0 <= j < i ==> ci(#[trigger] b@[j], w@[j]),
        decreases b.len() - i,
    {
        if !ci_exec(b[i], w[i]) {
            return false;
        }
        i = i + 1;
    }
    true
}

/// Executes `exponent_at`.
fn exponent_at_exec(b: &Vec<char>, i: usize) -> (r: bool)
    ensures
        r == exponent_at(b@, i as int),
{
    if i >= b.len() || !ci_exec(b[i], 'e') {
        return false;
    }
    let j = if i + 1 < b.len() && (b[i + 1] == '+' || b[i + 1] == '-') {
        i + 2
    } else {
        i + 1
    };
    let k = find_run_end(b, j, CharClass::Digit);
    k == b.len() && k > j
}

/// Executes `decimal`.
fn decimal_exec(b: &Vec<char>) -> (r: bool)
    ensures
        r == decimal(b@),
{
    let a = find_run_end(b, 0, CharClass::Digit);
    if a == b.len() {
        a > 0
    } else if b[a] == '.' {
        let c = find_run_end(b, a + 1, CharClass::Digit);
        (a > 0 || c > a + 1) && (c == b.len() || exponent_at_exec(b, c))
    } else {
        a > 0 && exponent_at_exec(b, a)
    }
}

/// Executes `float_syntax`.
pub fn float_syntax_exec(v: &Vec<char>) -> (r: bool)
    ensures
        r == float_syntax(v@),
{
    let start: usize = if v.len() > 0 && (v[0] == '-' || v[0] == '+') {
        1
    } else {
        0
    };
    let b = slice_chars(v, start, v.len());
    assert(b@ =~= split_sign(v@).1);
    let inf = vec!['i', 'n', 'f'];
    let infinity = vec!['i', 'n', 'f', 'i', 'n', 'i', 't', 'y'];
    let nan = vec!['n', 'a', 'n'];
    assert(inf@ =~= seq!['i', 'n', 'f']);
    assert(infinity@ =~= seq!['i', 'n', 'f', 'i', 'n', 'i', 't', 'y']);
    assert(nan@ =~= seq!['n', 'a', 'n']);
    ci_word_exec(&b, &inf) || ci_word_exec(&b, &infinity) || ci_word_exec(&b, &nan)
        || decimal_exec(&b)
}

/// `usize::from_str`: an optional `+` followed by at least one decimal digit,
/// whose value lies in the range of `usize`.
pub open spec fn parse_usize(v: Seq<char>) -> Option<int> {
    let d = if v.len() > 0 && v[0] == '+' {
        v.drop_first()
    } else {
        v
    };
    if d.len() == 0 || !all_digits(d) || digits_value(d) > usize::MAX {
        None
    } else {
        Some(digits_value(d))
    }
}

/// Executes `parse_usize`.
pub fn parse_usize_exec(v: &Vec<char>) -> (r: Option<usize>)
    ensures
        match r {
            Some(n) => parse_usize(v@) == Some(n as int),
            None => parse_usize(v@) is None,
        },
{
    let start: usize = if v.len() > 0 && v[0] == '+' {
        1
    } else {
        0
    };
    let ghost d = if v@.len() > 0 && v@[0] == '+' {
        v@.drop_first()
    } else {
        v@
    };
    assert(d =~= v@.subrange(start as int, v@.len() as int));
    if start >= v.len() {
        return None;
    }
    let bound: u128 = usize::MAX as u128;
    let mut val: u128 = 0;
    let mut i = start;
    while i < v.len()
        invariant
            start <= i <= v.len(),
            d == v@.subrange(start as int, v@.len() as int),
            d == (if v@.len() > 0 && v@[0] == '+' {
                v@.drop_first()
            } else {
                v@
            }),
            bound == usize::MAX,
            0 <= val <= bound,
            val == digits_value(d.take(i - start)),
            forall|j: int| 0 <= j < i - start ==> is_digit(#[trigger] d[j]),
        decreases v.len() - i,
    {
        let c = v[i];
        if !('0' <= c && c <= '9') {
            assert(!is_digit(d[i - start]));
            return None;
        }
        proof {
            lemma_digits_value_step(d, i - start);
        }
        val = val * 10 + ((c as u32) - ('0' as u32)) as u128;
        i = i + 1;
        if val > bound {
            proof {
                if all_digits(d) {
                    lemma_digits_value_grows(d, i - start, d.len() as int);
                    assert(d.take(d.len() as int) =~= d);
                }
            }
            return None;
        }
    }
    assert(d.take(d.len() as int) =~= d);
    Some(val as usize)
}

/// How many low bits of `n` a 64-bit float cannot hold: none below 2^53,
/// one more for each doubling above.
pub open spec fn ulp_shift(n: nat) -> nat
    decreases n,
{
    if n < 0x20000000000000 {
        0
    } else {
        1 + ulp_shift(n / 2)
    }
}

/// The natural number `n` rounded to the nearest 64-bit float, ties to the
/// even one, as `as f64` rounds.
pub open spec fn round_nat(n: nat) -> nat {
    let sh = ulp_shift(n);
    if sh == 0 {
        n
    } else {
        let unit = pow2(sh);
        let q = n / unit;
        let rem = n % unit;
        let half = pow2((sh - 1) as nat);
        let m = if rem > half || (rem == half && q % 2 == 1) {
            q + 1
        } else {
            q
        };
        m * unit
    }
}

/// The value of `x as f64` for an integer `x`: its magnitude rounded to the
/// nearest float, with its sign.
pub open spec fn as_f64_value(x: int) -> int {
    if x < 0 {
        -(round_nat((-x) as nat) as int)
    } else {
        round_nat(x as nat) as int
    }
}

/// The value of `x as f64`, which is an integer (see `as_f64_value`).
pub fn rounded_to_f64(x: isize) -> (r: i128)
    ensures
        r == as_f64_value(x as int),
{
    let neg = x < 0;
    let wide: i128 = x as i128;
    let n: u128 = if neg {
        (-wide) as u128
    } else {
        wide as u128
    };
    assert(n <= 0x8000_0000_0000_0000);
    let mut q: u128 = n;
    let mut unit: u128 = 1;
    let ghost mut k: nat = 0;
    proof {
        assert(pow2(0) == 1) by {
            vstd::arithmetic::power2::lemma_pow2(0);
            vstd::arithmetic::power::lemma_pow0(2);
        }
    }
    while q >= 0x20000000000000
        invariant
            n <= 0x8000_0000_0000_0000,
            unit == pow2(k),
            q == n as nat / pow2(k),
            unit * q <= n,
            1 <= unit <= n || (k == 0 && unit == 1),
            ulp_shift(n as nat) == k + ulp_shift(q as nat),
        decreases q,
    {
        proof {
            lemma_pow2_pos(k);
            lemma_pow2_unfold(k + 1);
            lemma_div_denominator(n as int, pow2(k) as int, 2);
            lemma_fundamental_div_mod(q as int, 2);
            assert(unit * 2 * (q / 2) <= unit * q) by (nonlinear_arith)
                requires
                    q >= 0,
                    unit >= 1,
            ;
            assert(unit * 2 <= unit * q) by (nonlinear_arith)
                requires
                    q >= 2,
                    unit >= 1,
            ;
        }
        q = q / 2;
        unit = unit * 2;
        proof {
            k = k + 1;
        }
    }
    let m: u128 = if unit == 1 {
        n
    } else {
        let rem = n % unit;
        let half = unit / 2;
        proof {
            assert(k > 0);
            lemma_pow2_unfold(k);
            lemma_fundamental_div_mod(n as int, unit as int);
            assert(rem == n as nat % pow2(k));
            assert(half == pow2((k - 1) as nat));
        }
        if rem > half || (rem == half && q % 2 == 1) {
            proof {
                assert((q + 1) * unit == q * unit + unit) by (nonlinear_arith);
            }
            (q + 1) * unit
        } else {
            q * unit
        }
    };
    proof {
        assert(ulp_shift(q as nat) == 0);
        if unit != 1 {
            assert(k != 0);
        } else {
            if k != 0 {
                lemma_pow2_unfold(k);
                lemma_pow2_pos((k - 1) as nat);
            }
        }
    }
    if neg {
        -(m as i128)
    } else {
        m as i128
    }
}

} // verus!
