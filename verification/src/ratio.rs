//! The ratio calculator: hedge ratio, organic-vs-total split, and
//! collateralization ratios over normalized decimal values, with zero
//! denominators reported as errors, never as sentinels.

use vstd::prelude::*;
use vstd::arithmetic::power::{lemma_pow0, lemma_pow1, lemma_pow_adds};
use vstd::arithmetic::mul::lemma_mul_is_associative;

use crate::decimal::{div_num, pow10, rha_signed, Dec};
use crate::errors::Error;

verus! {

/// The mantissa of the hedge ratio at scale two: one hundred times the
/// hedged amount over the user-held stock, both at scale zero, rounded
/// half away from zero.
pub open spec fn hedge_ratio_num(hedge: Dec, stock: Dec) -> int {
    rha_signed(hedge.num() * 10000, stock.num())
}

/// The percentage of a user-held stock that is hedged:
/// `(total_hedge_amount / stock_user) * 100`, displayed at scale two.
///
/// An asset with zero user-held stock has an undefined hedge ratio: the
/// division fails, and is never reported as zero or one hundred percent.
pub fn hedge_ratio(total_hedge_amount: &Dec, stock_user: &Dec) -> (r: Result<Dec, Error>)
    requires
        total_hedge_amount.wf(),
        stock_user.wf(),
        total_hedge_amount.digits == 0,
        stock_user.digits == 0,
        total_hedge_amount.mag * 10000 <= u128::MAX,
    ensures
        stock_user.num() == 0 <==> r is Err,
        r matches Err(e) ==> e is DivisionByZero,
        r matches Ok(q) ==> {
            &&& q.wf()
            &&& q.digits == 2
            &&& q.num() == hedge_ratio_num(*total_hedge_amount, *stock_user)
        },
{
    proof {
        lemma_pow0(10);
        lemma_pow_adds(10, 1, 1);
        lemma_pow1(10);
        assert(pow10(2) == 100);
        lemma_mul_is_associative(total_hedge_amount.num(), 100, 100);
        assert(total_hedge_amount.mag * 100 * 100 == total_hedge_amount.mag * 10000)
            by (nonlinear_arith);
        assert(total_hedge_amount.num() * 100 * 100 == total_hedge_amount.num() * 10000)
            by (nonlinear_arith);
    }
    let hundred: Dec = Dec::from_u128(100, 0);
    let scaled = total_hedge_amount.mul(hundred);
    scaled.div_rescale(*stock_user, 2)
}

/// The mantissa of the organic amount: the total clamped at zero after
/// the pooled and margin amounts are taken out.
pub open spec fn organic_num(total: Dec, pooled: Dec, margin: Dec) -> int {
    if total.num() > pooled.num() + margin.num() {
        total.num() - (pooled.num() + margin.num())
    } else {
        0
    }
}

/// The organically backed amount:
/// `max(0, total_assets - (pooled_amount + margin_amount))`.
///
/// The subtraction can go negative under transient on-chain states; the
/// clamp at zero is deliberate, not an error, so the result is never
/// negative.
pub fn organic_amount(total_assets: &Dec, pooled_amount: &Dec, margin_amount: &Dec) -> (r: Dec)
    requires
        total_assets.wf(),
        pooled_amount.wf(),
        margin_amount.wf(),
        pooled_amount.digits == total_assets.digits,
        margin_amount.digits == total_assets.digits,
        pooled_amount.num() + margin_amount.num() <= u128::MAX,
        -(pooled_amount.num() + margin_amount.num()) <= u128::MAX,
        total_assets.num() - (pooled_amount.num() + margin_amount.num()) <= u128::MAX,
    ensures
        r.wf(),
        r.digits == total_assets.digits,
        r.num() == organic_num(*total_assets, *pooled_amount, *margin_amount),
        r.num() >= 0,
{
    let taken = pooled_amount.add(*margin_amount);
    if taken.lt(*total_assets) {
        total_assets.sub(taken)
    } else {
        Dec::zero(total_assets.scale())
    }
}

/// The collateralization ratio: `backing_value / minted_value`, displayed
/// at scale two. A zero minted value is an error, never a sentinel.
pub fn collateralization_ratio(backing_value: &Dec, minted_value: &Dec) -> (r: Result<Dec, Error>)
    requires
        backing_value.wf(),
        minted_value.wf(),
        2 + minted_value.digits <= crate::decimal::MAX_SCALE,
        backing_value.mag * pow10((2 + minted_value.digits) as nat) <= u128::MAX,
        minted_value.mag * pow10(backing_value.digits as nat) <= u128::MAX,
    ensures
        minted_value.num() == 0 <==> r is Err,
        r matches Err(e) ==> e is DivisionByZero,
        r matches Ok(q) ==> {
            &&& q.wf()
            &&& q.digits == 2
            &&& q.num() == div_num(*backing_value, *minted_value, 2)
        },
{
    backing_value.div_rescale(*minted_value, 2)
}

} // verus!
