//! A scale-aware fixed-point number: a signed mantissa displayed at an
//! explicit number of fractional digits.
//!
//! The represented value of a [`Dec`] is `num / 10^digits`, where `num` is
//! the signed mantissa. Addition, subtraction and comparison are defined
//! only between operands of the same scale; multiplication and division set
//! the result's scale explicitly. Rounding is always half away from zero.

use vstd::prelude::*;
use vstd::arithmetic::power::{
    pow, lemma_pow_adds, lemma_pow1, lemma_pow_positive, lemma_pow_increases,
};
use vstd::arithmetic::div_mod::{lemma_fundamental_div_mod, lemma_fundamental_div_mod_converse};
use vstd::arithmetic::mul::lemma_mul_unary_negation;

use crate::errors::Error;

verus! {

/// Largest number of fractional digits a value may carry. `10^MAX_SCALE`
/// still fits in a `u128`, so a scale factor is always representable.
pub const MAX_SCALE: u32 = 38;

/// `10^e` as a mathematical integer.
pub open spec fn pow10(e: nat) -> int {
    pow(10, e)
}

/// `n / d` rounded to the nearest integer, halves away from zero, for
/// `n >= 0` and `d > 0`.
pub open spec fn rha(n: int, d: int) -> int
    recommends
        n >= 0,
        d > 0,
{
    (2 * n + d) / (2 * d)
}

/// `n / d` rounded to the nearest integer, halves away from zero, for any
/// sign of `n` and any `d != 0`.
pub open spec fn rha_signed(n: int, d: int) -> int
    recommends
        d != 0,
{
    let an = if n >= 0 { n } else { -n };
    let ad = if d > 0 { d } else { -d };
    if (n >= 0) == (d > 0) {
        rha(an, ad)
    } else {
        -rha(an, ad)
    }
}

/// `10^e` is strictly positive.
pub proof fn lemma_pow10_pos(e: nat)
    ensures
        pow10(e) >= 1,
{
    lemma_pow_positive(10, e);
}

/// The concrete value of `10^MAX_SCALE`, which bounds every scale factor.
pub proof fn lemma_pow10_max()
    ensures
        pow10(MAX_SCALE as nat) == 100000000000000000000000000000000000000int,
{
    reveal_with_fuel(pow, 40);
}

/// The concrete values of the small powers of ten the engine's scales
/// use.
pub proof fn lemma_pow10_small()
    ensures
        pow10(0) == 1,
        pow10(1) == 10,
        pow10(2) == 100,
        pow10(3) == 1000,
        pow10(5) == 100000,
        pow10(6) == 1000000,
{
    reveal_with_fuel(pow, 8);
}

/// A scale factor within `MAX_SCALE` fits in a `u128`.
pub proof fn lemma_pow10_fits(e: nat)
    requires
        e <= MAX_SCALE,
    ensures
        1 <= pow10(e) <= 100000000000000000000000000000000000000int,
{
    lemma_pow10_pos(e);
    lemma_pow10_max();
    if e < MAX_SCALE {
        lemma_pow_increases(10, e, MAX_SCALE as nat);
    }
}

/// A scale-aware fixed-point decimal: the value `num() / 10^digits`.
///
/// The sign of zero is canonical: a well-formed zero is never negative.
#[derive(Clone, Copy, Debug, PartialEq, Eq, Structural)]
pub struct Dec {
    /// True when the value is strictly negative.
    pub neg: bool,
    /// The magnitude of the mantissa.
    pub mag: u128,
    /// The scale: how many fractional digits the value is displayed at.
    pub digits: u32,
}

impl Dec {
    /// The signed mantissa; the represented value is `num() / 10^digits`.
    pub open spec fn num(self) -> int {
        if self.neg {
            -(self.mag as int)
        } else {
            self.mag as int
        }
    }

    /// Well-formed: scale within bounds and a canonical sign for zero.
    pub open spec fn wf(self) -> bool {
        &&& self.digits <= MAX_SCALE
        &&& self.mag == 0 ==> !self.neg
    }

    /// Builds a value from a sign, a mantissa magnitude and a scale.
    pub fn from_parts(neg: bool, mag: u128, digits: u32) -> (r: Dec)
        requires
            digits <= MAX_SCALE,
        ensures
            r.wf(),
            r.digits == digits,
            r.num() == if neg {
                -(mag as int)
            } else {
                mag as int
            },
    {
        Dec { neg: neg && mag > 0, mag, digits }
    }

    /// A non-negative value from a mantissa magnitude and a scale.
    pub fn from_u128(mag: u128, digits: u32) -> (r: Dec)
        requires
            digits <= MAX_SCALE,
        ensures
            r.wf(),
            r.digits == digits,
            r.num() == mag as int,
    {
        Dec { neg: false, mag, digits }
    }

    /// Zero at the given scale.
    pub fn zero(digits: u32) -> (r: Dec)
        requires
            digits <= MAX_SCALE,
        ensures
            r.wf(),
            r.digits == digits,
            r.num() == 0,
    {
        Dec { neg: false, mag: 0, digits }
    }

    /// The scale: how many fractional digits the value carries.
    pub fn scale(&self) -> (r: u32)
        ensures
            r == self.digits,
    {
        self.digits
    }

    /// The magnitude of the mantissa.
    pub fn magnitude(&self) -> (r: u128)
        ensures
            r == self.mag,
    {
        self.mag
    }

    /// Whether the value is strictly negative.
    pub fn is_negative(&self) -> (r: bool)
        requires
            self.wf(),
        ensures
            r == (self.num() < 0),
    {
        self.neg
    }

    /// Whether the value is zero.
    pub fn is_zero(&self) -> (r: bool)
        ensures
            r == (self.num() == 0),
    {
        self.mag == 0
    }
}

/// `10^e` as a `u128`.
pub fn pow10_u128(e: u32) -> (r: u128)
    requires
        e <= MAX_SCALE,
    ensures
        r == pow10(e as nat),
{
    let mut r: u128 = 1;
    let mut i: u32 = 0;
    proof {
        vstd::arithmetic::power::lemma_pow0(10);
    }
    while i < e
        invariant
            i <= e,
            e <= MAX_SCALE,
            r == pow10(i as nat),
        decreases e - i,
    {
        proof {
            lemma_pow_adds(10, i as nat, 1);
            lemma_pow1(10);
            lemma_pow10_fits((i + 1) as nat);
        }
        r = r * 10;
        i = i + 1;
    }
    r
}

/// `n / d` rounded half away from zero, on machine integers.
pub fn rha_div_u128(n: u128, d: u128) -> (q: u128)
    requires
        d >= 1,
    ensures
        q == rha(n as int, d as int),
{
    let q0: u128 = n / d;
    let r: u128 = n % d;
    proof {
        lemma_fundamental_div_mod(n as int, d as int);
    }
    if r >= d - r {
        proof {
            // A round-up never overflows: with d == 1 the remainder is 0 and
            // this branch is unreachable, and with d >= 2 the quotient is at
            // most half of n.
            assert(d >= 2);
            assert(q0 < u128::MAX) by {
                vstd::arithmetic::div_mod::lemma_div_is_ordered_by_denominator(n as int, 2, d as int);
            }
            let ni = n as int;
            let di = d as int;
            let q0i = q0 as int;
            let ri = r as int;
            assert(2 * ni + di == (q0i + 1) * (2 * di) + (2 * ri - di)) by (nonlinear_arith)
                requires
                    ni == di * q0i + ri,
            ;
            lemma_fundamental_div_mod_converse(2 * ni + di, 2 * di, q0i + 1, 2 * ri - di);
        }
        q0 + 1
    } else {
        proof {
            let ni = n as int;
            let di = d as int;
            let q0i = q0 as int;
            let ri = r as int;
            assert(2 * ni + di == q0i * (2 * di) + (2 * ri + di)) by (nonlinear_arith)
                requires
                    ni == di * q0i + ri,
            ;
            lemma_fundamental_div_mod_converse(2 * ni + di, 2 * di, q0i, 2 * ri + di);
        }
        q0
    }
}

/// The magnitude of an integer.
pub open spec fn abs_val(n: int) -> int {
    if n >= 0 {
        n
    } else {
        -n
    }
}

/// Rounding half away from zero never exceeds the numerator.
pub proof fn lemma_rha_le(n: int, d: int)
    requires
        n >= 0,
        d >= 1,
    ensures
        0 <= rha(n, d) <= n,
{
    vstd::arithmetic::div_mod::lemma_div_pos_is_pos(2 * n + d, 2 * d);
    assert(2 * n + d < (2 * d) * (n + 1)) by (nonlinear_arith)
        requires
            n >= 0,
            d >= 1,
    ;
    vstd::arithmetic::div_mod::lemma_multiply_divide_lt(2 * n + d, 2 * d, n + 1);
}

/// A numerator of less than half the denominator rounds to zero.
pub proof fn lemma_rha_small(n: int, d: int)
    requires
        n >= 0,
        2 * n < d,
    ensures
        rha(n, d) == 0,
{
    vstd::arithmetic::div_mod::lemma_basic_div(2 * n + d, 2 * d);
}

/// Signed rounding is bounded by the numerator's magnitude.
pub proof fn lemma_rha_signed_le(n: int, d: int)
    requires
        d != 0,
    ensures
        abs_val(rha_signed(n, d)) <= abs_val(n),
{
    let an = if n >= 0 {
        n
    } else {
        -n
    };
    let ad = if d > 0 {
        d
    } else {
        -d
    };
    lemma_rha_le(an, ad);
}

/// `(2 * x * k + k) / (2 * k) == x`: the exact quotient of a multiple,
/// under round-half-away division.
proof fn lemma_rha_formula(x: int, k: int)
    requires
        x >= 0,
        k >= 1,
    ensures
        (2 * (x * k) + k) / (2 * k) == x,
{
    assert((x * k) * 2 + k == (2 * x + 1) * k) by (nonlinear_arith);
    vstd::arithmetic::div_mod::lemma_div_by_multiple(2 * x + 1, k);
    vstd::arithmetic::div_mod::lemma_div_denominator((2 * x + 1) * k, k, 2);
    assert((2 * x + 1) / 2 == x) by {
        lemma_fundamental_div_mod_converse(2 * x + 1, 2, x, 1);
    }
}

/// Dividing an exact multiple of the divisor gives back the factor, for
/// any signs.
pub proof fn lemma_rha_signed_cancel(x: int, k: int)
    requires
        k != 0,
    ensures
        rha_signed(x * k, k) == x,
{
    let n = x * k;
    if k >= 1 {
        if x >= 0 {
            assert(n >= 0) by (nonlinear_arith)
                requires
                    x >= 0,
                    k >= 1,
                    n == x * k,
            ;
            lemma_rha_formula(x, k);
        } else {
            assert(n < 0 && -n == (-x) * k) by (nonlinear_arith)
                requires
                    x < 0,
                    k >= 1,
                    n == x * k,
            ;
            lemma_rha_formula(-x, k);
        }
    } else {
        let k2 = -k;
        if x > 0 {
            assert(n < 0 && -n == x * k2) by (nonlinear_arith)
                requires
                    x > 0,
                    k <= -1,
                    k2 == -k,
                    n == x * k,
            ;
            lemma_rha_formula(x, k2);
        } else {
            assert(n >= 0 && n == (-x) * k2) by (nonlinear_arith)
                requires
                    x <= 0,
                    k <= -1,
                    k2 == -k,
                    n == x * k,
            ;
            lemma_rha_formula(-x, k2);
        }
    }
}

/// The mantissa of a value after moving it from scale `s` to scale `s2`:
/// exact zero-padding upward, rounding half away from zero downward.
pub open spec fn rescale_num(n: int, s: nat, s2: nat) -> int {
    if s2 >= s {
        n * pow10((s2 - s) as nat)
    } else {
        rha_signed(n, pow10((s - s2) as nat))
    }
}

/// Law: rescaling to scale zero is idempotent. A value already at scale
/// zero is returned unchanged, so a normalized value rescaled to zero,
/// and rescaled to zero once more, never moves.
pub proof fn lemma_rescale_zero_idempotent(n: int, s: nat)
    ensures
        rescale_num(rescale_num(n, s, 0), 0, 0) == rescale_num(n, s, 0),
{
    vstd::arithmetic::power::lemma_pow0(10);
}

/// The mantissa of `a / b` displayed at scale `s`, rounded half away from
/// zero; meaningful only when `b` is nonzero.
pub open spec fn div_num(a: Dec, b: Dec, s: nat) -> int {
    rha_signed(a.num() * pow10((s + b.digits) as nat), b.num() * pow10(a.digits as nat))
}

impl Dec {
    /// Moves the value to `new_digits` fractional digits: zero-pads upward,
    /// rounds half away from zero downward.
    pub fn rescale(self, new_digits: u32) -> (r: Dec)
        requires
            self.wf(),
            new_digits <= MAX_SCALE,
            new_digits > self.digits ==> self.mag * pow10((new_digits - self.digits) as nat)
                <= u128::MAX,
        ensures
            r.wf(),
            r.digits == new_digits,
            r.num() == rescale_num(self.num(), self.digits as nat, new_digits as nat),
    {
        if new_digits == self.digits {
            proof {
                vstd::arithmetic::power::lemma_pow0(10);
            }
            self
        } else if new_digits > self.digits {
            let f: u128 = pow10_u128(new_digits - self.digits);
            proof {
                lemma_pow10_pos((new_digits - self.digits) as nat);
                assert(self.mag * f <= u128::MAX);
                assert(self.mag <= self.mag * f) by (nonlinear_arith)
                    requires
                        f >= 1,
                        self.mag >= 0,
                ;
                lemma_mul_unary_negation(self.mag as int, f as int);
            }
            let m: u128 = self.mag * f;
            Dec { neg: self.neg && m > 0, mag: m, digits: new_digits }
        } else {
            let f: u128 = pow10_u128(self.digits - new_digits);
            proof {
                lemma_pow10_pos((self.digits - new_digits) as nat);
            }
            let m: u128 = rha_div_u128(self.mag, f);
            Dec { neg: self.neg && m > 0, mag: m, digits: new_digits }
        }
    }

    /// The value with its sign flipped.
    pub fn negate(self) -> (r: Dec)
        requires
            self.wf(),
        ensures
            r.wf(),
            r.digits == self.digits,
            r.num() == -self.num(),
    {
        Dec { neg: !self.neg && self.mag > 0, mag: self.mag, digits: self.digits }
    }

    /// The sum of two values of the same scale.
    pub fn add(self, other: Dec) -> (r: Dec)
        requires
            self.wf(),
            other.wf(),
            self.digits == other.digits,
            self.num() + other.num() <= u128::MAX,
            -(self.num() + other.num()) <= u128::MAX,
        ensures
            r.wf(),
            r.digits == self.digits,
            r.num() == self.num() + other.num(),
    {
        if self.neg == other.neg {
            let m: u128 = self.mag + other.mag;
            Dec { neg: self.neg && m > 0, mag: m, digits: self.digits }
        } else if self.mag >= other.mag {
            let m: u128 = self.mag - other.mag;
            Dec { neg: self.neg && m > 0, mag: m, digits: self.digits }
        } else {
            let m: u128 = other.mag - self.mag;
            Dec { neg: other.neg && m > 0, mag: m, digits: self.digits }
        }
    }

    /// The difference of two values of the same scale.
    pub fn sub(self, other: Dec) -> (r: Dec)
        requires
            self.wf(),
            other.wf(),
            self.digits == other.digits,
            self.num() - other.num() <= u128::MAX,
            -(self.num() - other.num()) <= u128::MAX,
        ensures
            r.wf(),
            r.digits == self.digits,
            r.num() == self.num() - other.num(),
    {
        self.add(other.negate())
    }

    /// The product of two values; the result's scale is the sum of the
    /// operands' scales.
    pub fn mul(self, other: Dec) -> (r: Dec)
        requires
            self.wf(),
            other.wf(),
            self.digits + other.digits <= MAX_SCALE,
            self.mag * other.mag <= u128::MAX,
        ensures
            r.wf(),
            r.digits == self.digits + other.digits,
            r.num() == self.num() * other.num(),
    {
        proof {
            lemma_mul_unary_negation(self.mag as int, other.mag as int);
            lemma_mul_unary_negation(-(self.mag as int), other.mag as int);
            lemma_mul_unary_negation(other.mag as int, self.mag as int);
            vstd::arithmetic::mul::lemma_mul_is_commutative(self.mag as int, other.mag as int);
            vstd::arithmetic::mul::lemma_mul_is_commutative(-(self.mag as int), other.mag as int);
        }
        let m: u128 = self.mag * other.mag;
        Dec { neg: (self.neg != other.neg) && m > 0, mag: m, digits: self.digits + other.digits }
    }

    /// The quotient of two values, displayed at `new_digits` fractional
    /// digits, rounded half away from zero. A zero divisor is an error,
    /// never a sentinel.
    pub fn div_rescale(self, other: Dec, new_digits: u32) -> (r: Result<Dec, Error>)
        requires
            self.wf(),
            other.wf(),
            new_digits + other.digits <= MAX_SCALE,
            self.mag * pow10((new_digits + other.digits) as nat) <= u128::MAX,
            other.mag * pow10(self.digits as nat) <= u128::MAX,
        ensures
            other.mag == 0 <==> r is Err,
            r matches Err(e) ==> e is DivisionByZero,
            r matches Ok(q) ==> {
                &&& q.wf()
                &&& q.digits == new_digits
                &&& q.num() == div_num(self, other, new_digits as nat)
            },
    {
        if other.mag == 0 {
            return Err(Error::DivisionByZero);
        }
        let nf: u128 = pow10_u128(new_digits + other.digits);
        let df: u128 = pow10_u128(self.digits);
        proof {
            lemma_pow10_pos((new_digits + other.digits) as nat);
            lemma_pow10_pos(self.digits as nat);
            assert(self.mag * nf >= 0) by (nonlinear_arith);
            assert(other.mag * df >= 1) by (nonlinear_arith)
                requires
                    other.mag >= 1,
                    df >= 1,
            ;
            lemma_mul_unary_negation(self.mag as int, nf as int);
            lemma_mul_unary_negation(other.mag as int, df as int);
        }
        let n: u128 = self.mag * nf;
        let d: u128 = other.mag * df;
        let m: u128 = rha_div_u128(n, d);
        proof {
            let e1 = (new_digits + other.digits) as nat;
            let e2 = self.digits as nat;
            let nn = self.num() * pow10(e1);
            let dd = other.num() * pow10(e2);
            assert(self.mag >= 1 ==> n >= 1) by (nonlinear_arith)
                requires
                    n == self.mag * nf,
                    nf >= 1,
            ;
            assert(self.mag == 0 ==> n == 0) by (nonlinear_arith)
                requires
                    n == self.mag * nf,
            ;
            assert(d >= 1) by (nonlinear_arith)
                requires
                    d == other.mag * df,
                    other.mag >= 1,
                    df >= 1,
            ;
            assert(nn == if self.neg {
                -(n as int)
            } else {
                n as int
            });
            assert(dd == if other.neg {
                -(d as int)
            } else {
                d as int
            });
            if self.neg != other.neg {
                assert(rha_signed(nn, dd) == -rha(n as int, d as int));
            } else {
                assert(rha_signed(nn, dd) == rha(n as int, d as int));
            }
        }
        Ok(Dec { neg: (self.neg != other.neg) && m > 0, mag: m, digits: new_digits })
    }

    /// Whether this value is strictly below another of the same scale.
    pub fn lt(self, other: Dec) -> (r: bool)
        requires
            self.wf(),
            other.wf(),
            self.digits == other.digits,
        ensures
            r == (self.num() < other.num()),
    {
        if self.neg != other.neg {
            self.neg
        } else if self.neg {
            other.mag < self.mag
        } else {
            self.mag < other.mag
        }
    }
}

} // verus!
