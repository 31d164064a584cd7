//! Reading numeric literals: an optional minus sign, digits, and at most
//! one decimal point with digits on both sides.
//!
//! A literal is read exactly: the mantissa is every digit in order, and the
//! fraction length counts the digits after the point. Literals of more than
//! 38 digits exceed the engine's mantissa capacity and are rejected.

use vstd::prelude::*;
use vstd::arithmetic::power::{lemma_pow0, lemma_pow1, lemma_pow_adds};

use crate::decimal::pow10;

verus! {

/// The number of digits a mantissa may carry; `10^MAX_DIGITS - 1` fits in
/// a `u128`.
pub const MAX_DIGITS: u32 = 38;

/// Whether `c` is a decimal digit.
pub open spec fn is_digit(c: char) -> bool {
    48 <= c as int <= 57
}

/// The value of a digit character.
pub open spec fn digit_val(c: char) -> nat {
    (c as int - 48) as nat
}

/// Whether every character of `t` is a decimal digit.
pub open spec fn all_digits(t: Seq<char>) -> bool {
    forall|j: int| 0 <= j < t.len() ==> is_digit(t[j])
}

/// The number a digit sequence denotes, most significant digit first.
pub open spec fn digits_val(t: Seq<char>) -> nat
    decreases t.len(),
{
    if t.len() == 0 {
        0
    } else {
        digits_val(t.drop_last()) * 10 + digit_val(t.last())
    }
}

/// Whether position `i` of `t` splits it into digits, a point, and digits.
pub open spec fn dot_split_at(t: Seq<char>, i: int) -> bool {
    &&& 1 <= i
    &&& i + 1 < t.len()
    &&& t[i] == '.'
    &&& all_digits(t.take(i))
    &&& all_digits(t.skip(i + 1))
}

/// The part of a literal after the optional minus sign.
pub open spec fn lit_body(s: Seq<char>) -> Seq<char> {
    if s.len() > 0 && s[0] == '-' {
        s.skip(1)
    } else {
        s
    }
}

/// Whether the literal carries a minus sign.
pub open spec fn lit_neg(s: Seq<char>) -> bool {
    s.len() > 0 && s[0] == '-'
}

/// Whether the body is digits, or digits around a single decimal point.
pub open spec fn body_ok(t: Seq<char>) -> bool {
    (t.len() >= 1 && all_digits(t)) || (exists|i: int| dot_split_at(t, i))
}

/// The digits of the body, the decimal point removed.
pub open spec fn body_digit_seq(t: Seq<char>) -> Seq<char> {
    if exists|i: int| dot_split_at(t, i) {
        let i = choose|i: int| dot_split_at(t, i);
        t.take(i) + t.skip(i + 1)
    } else {
        t
    }
}

/// The number of digits after the decimal point of the body.
pub open spec fn body_frac(t: Seq<char>) -> nat {
    if exists|i: int| dot_split_at(t, i) {
        let i = choose|i: int| dot_split_at(t, i);
        (t.len() - i - 1) as nat
    } else {
        0
    }
}

/// Whether `s` is a well-shaped literal.
pub open spec fn lit_valid(s: Seq<char>) -> bool {
    body_ok(lit_body(s))
}

/// The digit sequence of the literal's mantissa.
pub open spec fn lit_mant_seq(s: Seq<char>) -> Seq<char> {
    body_digit_seq(lit_body(s))
}

/// The literal's mantissa: all its digits read as one number.
pub open spec fn lit_mantissa(s: Seq<char>) -> nat {
    digits_val(lit_mant_seq(s))
}

/// How many digits of the literal stand after the decimal point.
pub open spec fn lit_frac(s: Seq<char>) -> nat {
    body_frac(lit_body(s))
}

/// Whether `s` is a well-shaped literal within the mantissa capacity.
pub open spec fn lit_ok(s: Seq<char>) -> bool {
    lit_valid(s) && lit_mant_seq(s).len() <= MAX_DIGITS
}

/// The signed mantissa of a literal.
pub open spec fn lit_num(s: Seq<char>) -> int {
    if lit_neg(s) {
        -(lit_mantissa(s) as int)
    } else {
        lit_mantissa(s) as int
    }
}

/// A body has at most one splitting point.
pub proof fn lemma_dot_unique(t: Seq<char>, i: int, j: int)
    requires
        dot_split_at(t, i),
        dot_split_at(t, j),
    ensures
        i == j,
{
    if i < j {
        assert(t.skip(i + 1)[j - i - 1] == t[j]);
        assert(is_digit(t[j]));
    }
    if j < i {
        assert(t.skip(j + 1)[i - j - 1] == t[i]);
        assert(is_digit(t[i]));
    }
}

/// Positions away from the splitting point hold digits.
pub proof fn lemma_not_dot_elsewhere(t: Seq<char>, i: int, j: int)
    requires
        dot_split_at(t, i),
        0 <= j < t.len(),
        j != i,
    ensures
        is_digit(t[j]),
{
    if j < i {
        assert(t.take(i)[j] == t[j]);
    } else {
        assert(t.skip(i + 1)[j - i - 1] == t[j]);
    }
}

/// A digit sequence of length `n` denotes a number below `10^n`.
pub proof fn lemma_digits_val_bound(t: Seq<char>)
    requires
        all_digits(t),
    ensures
        digits_val(t) < pow10(t.len()),
    decreases t.len(),
{
    if t.len() == 0 {
        lemma_pow0(10);
    } else {
        lemma_digits_val_bound(t.drop_last());
        lemma_pow_adds(10, (t.len() - 1) as nat, 1);
        lemma_pow1(10);
        assert(is_digit(t.last()));
    }
}

/// Appending a digit multiplies the value by ten and adds the digit.
pub proof fn lemma_digits_val_snoc(t: Seq<char>, c: char)
    ensures
        digits_val(t.push(c)) == digits_val(t) * 10 + digit_val(c),
{
    assert(t.push(c).drop_last() =~= t);
    assert(t.push(c).last() == c);
}

/// Every character of a valid literal's mantissa is a digit.
pub proof fn lemma_mant_seq_digits(s: Seq<char>)
    requires
        lit_valid(s),
    ensures
        all_digits(lit_mant_seq(s)),
{
    let t = lit_body(s);
    if exists|i: int| dot_split_at(t, i) {
        let i = choose|i: int| dot_split_at(t, i);
        let m = t.take(i) + t.skip(i + 1);
        assert forall|j: int| 0 <= j < m.len() implies is_digit(m[j]) by {
            if j < i {
                assert(m[j] == t.take(i)[j]);
            } else {
                assert(m[j] == t.skip(i + 1)[j - i]);
            }
        }
    }
}

/// A misplaced or repeated decimal point leaves the body malformed.
proof fn lemma_invalid_dot(t: Seq<char>, k: int, seen_dot: bool, dot_k: int)
    requires
        0 <= k < t.len(),
        t[k] == '.',
        seen_dot ==> 0 <= dot_k < k && t[dot_k] == '.',
        !seen_dot ==> k == 0 || k + 1 == t.len(),
    ensures
        !body_ok(t),
{
    if body_ok(t) {
        if t.len() >= 1 && all_digits(t) {
            assert(is_digit(t[k]));
        } else {
            let i = choose|i: int| dot_split_at(t, i);
            if i != k {
                lemma_not_dot_elsewhere(t, i, k);
            } else {
                assert(seen_dot);
                lemma_not_dot_elsewhere(t, i, dot_k);
            }
        }
    }
}

/// A thirty-ninth digit puts the literal beyond the mantissa capacity.
proof fn lemma_too_many_digits(s: Seq<char>, t: Seq<char>, k: int, seen_dot: bool, dot_k: int)
    requires
        t == lit_body(s),
        0 <= k < t.len(),
        is_digit(t[k]),
        seen_dot ==> 1 <= dot_k < k && t[dot_k] == '.' && k - 1 >= MAX_DIGITS,
        !seen_dot ==> k >= MAX_DIGITS && all_digits(t.take(k)),
    ensures
        !lit_ok(s),
{
    if lit_ok(s) {
        assert(body_ok(t));
        if exists|i: int| dot_split_at(t, i) {
            let i = choose|i: int| dot_split_at(t, i);
            assert(lit_mant_seq(s) == t.take(i) + t.skip(i + 1));
            assert(lit_mant_seq(s).len() == t.len() - 1);
            if seen_dot {
                assert(t.len() - 1 > MAX_DIGITS);
            } else {
                if i < k {
                    assert(t.take(k)[i] == t[i]);
                    assert(is_digit(t[i]));
                }
                assert(i > k);
                assert(t.len() - 1 > MAX_DIGITS);
            }
        } else {
            assert(lit_mant_seq(s) == t);
            if seen_dot {
                assert(all_digits(t));
                assert(is_digit(t[dot_k]));
            }
            assert(t.len() > MAX_DIGITS);
        }
    }
}

/// Reads a literal: its sign, its mantissa and its fraction length.
/// Returns nothing exactly when the string is not a literal, or when its
/// digits exceed the mantissa capacity.
pub fn parse_literal(s: &str) -> (r: Option<(bool, u128, u32)>)
    ensures
        r is Some <==> lit_ok(s@),
        r matches Some(t) ==> {
            &&& t.0 == lit_neg(s@)
            &&& t.1 == lit_mantissa(s@)
            &&& t.2 == lit_frac(s@)
        },
{
    let len: usize = s.unicode_len();
    if len == 0 {
        return None;
    }
    let first: char = s.get_char(0);
    let neg: bool = first == '-';
    let start: usize = if neg {
        1
    } else {
        0
    };
    let ghost b = lit_body(s@);
    proof {
        assert(b =~= s@.skip(start as int));
        lemma_pow0(10);
    }
    let mut i: usize = start;
    let mut mant: u128 = 0;
    let mut ndigits: u32 = 0;
    let mut frac: u32 = 0;
    let mut seen_dot: bool = false;
    let mut dot_k: usize = 0;
    while i < len
        invariant
            s@.len() == len,
            neg == lit_neg(s@),
            start == if neg {
                1int
            } else {
                0int
            },
            start <= i <= len,
            b == lit_body(s@),
            b =~= s@.skip(start as int),
            b.len() == len - start,
            ndigits <= MAX_DIGITS,
            mant < pow10(ndigits as nat),
            !seen_dot ==> {
                &&& all_digits(b.take(i - start))
                &&& ndigits == i - start
                &&& mant == digits_val(b.take(i - start))
                &&& frac == 0
            },
            seen_dot ==> {
                &&& 1 <= dot_k
                &&& dot_k + 1 < b.len()
                &&& dot_k < i - start
                &&& b[dot_k as int] == '.'
                &&& all_digits(b.take(dot_k as int))
                &&& all_digits(b.subrange(dot_k + 1, i - start))
                &&& ndigits == i - start - 1
                &&& frac == i - start - 1 - dot_k
                &&& mant == digits_val(b.take(dot_k as int) + b.subrange(dot_k + 1, i - start))
            },
        decreases len - i,
    {
        let c: char = s.get_char(i);
        let ghost k = i - start;
        proof {
            assert(b[k as int] == s@[i as int]);
        }
        if c == '.' {
            if seen_dot || ndigits == 0 || i + 1 == len {
                proof {
                    lemma_invalid_dot(b, k as int, seen_dot, dot_k as int);
                }
                return None;
            }
            seen_dot = true;
            dot_k = i - start;
            proof {
                assert(b.subrange(dot_k + 1, dot_k + 1) =~= Seq::<char>::empty());
                assert(b.take(dot_k as int) + b.subrange(dot_k + 1, dot_k + 1) =~= b.take(
                    dot_k as int,
                ));
            }
        } else {
            let cu: u32 = c as u32;
            if cu < 48 || cu > 57 {
                proof {
                    assert(!is_digit(b[k as int]));
                    if body_ok(b) {
                        if b.len() >= 1 && all_digits(b) {
                        } else {
                            let w = choose|i0: int| dot_split_at(b, i0);
                            if w != k {
                                lemma_not_dot_elsewhere(b, w, k as int);
                            }
                        }
                    }
                }
                return None;
            }
            if ndigits >= MAX_DIGITS {
                proof {
                    assert(is_digit(b[k as int]));
                    lemma_too_many_digits(s@, b, k as int, seen_dot, dot_k as int);
                }
                return None;
            }
            let d: u32 = cu - 48;
            proof {
                lemma_pow_adds(10, ndigits as nat, 1);
                lemma_pow1(10);
                crate::decimal::lemma_pow10_fits((ndigits + 1) as nat);
                assert(is_digit(b[k as int]));
                assert(digit_val(b[k as int]) == d);
                if seen_dot {
                    let old_seq = b.take(dot_k as int) + b.subrange(dot_k + 1, k);
                    assert(b.take(dot_k as int) + b.subrange(dot_k + 1, k + 1) =~= old_seq.push(
                        b[k as int],
                    ));
                    lemma_digits_val_snoc(old_seq, b[k as int]);
                } else {
                    assert(b.take(k + 1) =~= b.take(k).push(b[k as int]));
                    lemma_digits_val_snoc(b.take(k), b[k as int]);
                }
            }
            mant = mant * 10 + d as u128;
            ndigits = ndigits + 1;
            if seen_dot {
                frac = frac + 1;
            }
        }
        i = i + 1;
    }
    if ndigits == 0 {
        proof {
            assert(b.len() == 0);
        }
        return None;
    }
    proof {
        let blen = b.len() as int;
        if seen_dot {
            assert(b.subrange(dot_k + 1, blen) =~= b.skip(dot_k + 1));
            assert(dot_split_at(b, dot_k as int));
            let w = choose|i0: int| dot_split_at(b, i0);
            lemma_dot_unique(b, w, dot_k as int);
            assert(lit_mant_seq(s@) == b.take(dot_k as int) + b.skip(dot_k + 1));
            assert(lit_mant_seq(s@).len() == blen - 1);
        } else {
            assert(b.take(blen) =~= b);
            if exists|i0: int| dot_split_at(b, i0) {
                let w = choose|i0: int| dot_split_at(b, i0);
                assert(b[w] == '.');
                assert(is_digit(b[w]));
            }
            assert(lit_mant_seq(s@) == b);
        }
    }
    Some((neg, mant, frac))
}

} // verus!
