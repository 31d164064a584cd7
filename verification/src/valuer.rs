//! The position valuer: the worth of a balance held directly, or held as
//! a pro-rata share of a pooled liquidity venue.
//!
//! Two venue kinds exist: a constant-product pool, valued through the
//! owner's fraction of the LP supply applied to the pool's underlying
//! balance, and a stable-swap pool, valued through a redemption (virtual)
//! price per LP token. Stable-swap venues are included only when the LP
//! token's name or symbol textually contains the target asset's symbol: a
//! heuristic filter over a configured venue list. A venue whose figures
//! could not be retrieved contributes zero and is recorded, never fatal.

use vstd::prelude::*;
use vstd::arithmetic::power::lemma_pow0;
use vstd::arithmetic::mul::lemma_mul_is_associative;

use crate::decimal::{
    abs_val, lemma_rha_signed_cancel, lemma_rha_signed_le, pow10, rescale_num, rha_signed, Dec,
    MAX_SCALE,
};
use crate::errors::Error;

verus! {

/// The largest mantissa a normalized amount may carry: one quadrillion
/// whole tokens at scale zero. Keeps every product in the engine inside
/// a `u128`.
pub const AMOUNT_CAP: u128 = 1000000000000000;

/// The largest mantissa a unit price may carry, at scale three: a price
/// of one billion per token.
pub const PRICE_CAP: u128 = 1000000000000;

/// The most venues one position may aggregate.
pub const MAX_VENUES: usize = 10000;

/// A normalized amount: scale zero, magnitude within the engine's cap.
pub open spec fn amount_ok(d: Dec) -> bool {
    &&& d.wf()
    &&& d.digits == 0
    &&& d.mag <= AMOUNT_CAP
}

/// A quarantined oracle price: non-negative, scale three, magnitude
/// within the engine's cap.
pub open spec fn price_ok(d: Dec) -> bool {
    &&& d.wf()
    &&& !d.neg
    &&& d.digits == 3
    &&& d.mag <= PRICE_CAP
}

/// The worth of a directly-held balance: `balance * unit_price`.
pub fn value_direct(balance: &Dec, unit_price: &Dec) -> (r: Dec)
    requires
        balance.wf(),
        unit_price.wf(),
        balance.digits + unit_price.digits <= MAX_SCALE,
        balance.mag * unit_price.mag <= u128::MAX,
    ensures
        r.wf(),
        r.digits == balance.digits + unit_price.digits,
        r.num() == balance.num() * unit_price.num(),
{
    balance.mul(*unit_price)
}

/// The mantissa of a pro-rata pool share at the balance's own scale:
/// `underlying_balance * owned_lp / lp_total_supply`, rounded half away
/// from zero. Meaningful only for a nonzero supply.
pub open spec fn share_num(owned: Dec, supply: Dec, bal: Dec) -> int {
    rha_signed(
        bal.num() * owned.num() * pow10((bal.digits + supply.digits) as nat),
        supply.num() * pow10((bal.digits + owned.digits) as nat),
    )
}

/// The worth of a pro-rata share of a pooled venue:
/// `pool_underlying_balance * (owned_lp / lp_total_supply)`, at the
/// balance's own scale.
///
/// A zero LP supply is an error. Full ownership returns the balance
/// exactly, and a zero owned balance or a zero underlying balance
/// contributes exactly zero.
pub fn value_pool_share(owned_lp: &Dec, lp_total_supply: &Dec, pool_underlying_balance: &Dec) -> (r:
    Result<Dec, Error>)
    requires
        owned_lp.wf(),
        lp_total_supply.wf(),
        pool_underlying_balance.wf(),
        pool_underlying_balance.digits + owned_lp.digits <= MAX_SCALE,
        pool_underlying_balance.digits + lp_total_supply.digits <= MAX_SCALE,
        pool_underlying_balance.mag * owned_lp.mag <= u128::MAX,
        (pool_underlying_balance.mag * owned_lp.mag) * pow10(
            (pool_underlying_balance.digits + lp_total_supply.digits) as nat,
        ) <= u128::MAX,
        lp_total_supply.mag * pow10((pool_underlying_balance.digits + owned_lp.digits) as nat)
            <= u128::MAX,
    ensures
        lp_total_supply.num() == 0 <==> r is Err,
        r matches Err(e) ==> e is DivisionByZero,
        r matches Ok(q) ==> {
            &&& q.wf()
            &&& q.digits == pool_underlying_balance.digits
            &&& q.num() == share_num(*owned_lp, *lp_total_supply, *pool_underlying_balance)
        },
        r matches Ok(q) ==> ((owned_lp.num() == lp_total_supply.num() && owned_lp.digits
            == lp_total_supply.digits) ==> q.num() == pool_underlying_balance.num()),
        r matches Ok(q) ==> ((owned_lp.num() == 0 || pool_underlying_balance.num() == 0)
            ==> q.num() == 0),
{
    let b = *pool_underlying_balance;
    let o = *owned_lp;
    let s = *lp_total_supply;
    proof {
        assert(abs_val(b.num() * o.num()) == b.mag * o.mag) by (nonlinear_arith)
            requires
                abs_val(b.num()) == b.mag,
                abs_val(o.num()) == o.mag,
        ;
    }
    let t = b.mul(o);
    let r = t.div_rescale(s, b.scale());
    proof {
        if s.num() != 0 {
            let p = pow10((b.digits + s.digits) as nat);
            crate::decimal::lemma_pow10_pos((b.digits + s.digits) as nat);
            let k = s.num() * p;
            assert(k != 0 && abs_val(k) == s.mag * p) by (nonlinear_arith)
                requires
                    s.num() != 0,
                    p >= 1,
                    k == s.num() * p,
                    abs_val(s.num()) == s.mag,
            ;
            if o.num() == s.num() && o.digits == s.digits {
                lemma_mul_is_associative(b.num(), s.num(), p);
                lemma_rha_signed_cancel(b.num(), k);
            }
            if o.num() == 0 || b.num() == 0 {
                assert(b.num() * o.num() == 0) by (nonlinear_arith)
                    requires
                        o.num() == 0 || b.num() == 0,
                ;
                assert(b.num() * o.num() * p == 0) by (nonlinear_arith)
                    requires
                        b.num() * o.num() == 0,
                ;
                let p2 = pow10((b.digits + o.digits) as nat);
                crate::decimal::lemma_pow10_pos((b.digits + o.digits) as nat);
                let dd = s.num() * p2;
                assert(dd != 0) by (nonlinear_arith)
                    requires
                        s.num() != 0,
                        p2 >= 1,
                        dd == s.num() * p2,
                ;
                lemma_rha_signed_le(0, dd);
            }
        }
    }
    r
}

/// The staked-rewards balance, or zero when there is none.
pub open spec fn staked_num(staked: Option<Dec>) -> int {
    match staked {
        Some(s) => s.num(),
        None => 0,
    }
}

/// The worth of a stable-swap pool position:
/// `(owned_lp + staked_rewards) * virtual_price`. The optional staked
/// balance is the same LP token held by the same owner, so it accumulates
/// before the multiplication.
pub fn value_stable_pool_share(owned_lp: &Dec, staked_rewards: &Option<Dec>, virtual_price: &Dec)
    -> (r: Dec)
    requires
        owned_lp.wf(),
        virtual_price.wf(),
        staked_rewards matches Some(s) ==> s.wf() && s.digits == owned_lp.digits,
        owned_lp.digits + virtual_price.digits <= MAX_SCALE,
        owned_lp.num() + staked_num(*staked_rewards) <= u128::MAX,
        -(owned_lp.num() + staked_num(*staked_rewards)) <= u128::MAX,
        abs_val(owned_lp.num() + staked_num(*staked_rewards)) * virtual_price.mag <= u128::MAX,
    ensures
        r.wf(),
        r.digits == owned_lp.digits + virtual_price.digits,
        r.num() == (owned_lp.num() + staked_num(*staked_rewards)) * virtual_price.num(),
{
    let base = match staked_rewards {
        Some(s) => owned_lp.add(*s),
        None => *owned_lp,
    };
    base.mul(*virtual_price)
}

/// Whether `p` occurs contiguously inside `t`.
pub open spec fn is_substring(t: Seq<char>, p: Seq<char>) -> bool {
    exists|i: int|
        0 <= i && i + p.len() <= t.len() && #[trigger] t.subrange(i, i + p.len() as int) == p
}

/// Whether `p` occurs in `t` starting at position `i`.
fn match_at(t: &str, p: &str, i: usize) -> (r: bool)
    requires
        i + p@.len() <= t@.len(),
        t@.len() <= usize::MAX,
    ensures
        r <==> t@.subrange(i as int, i as int + p@.len() as int) == p@,
{
    let plen: usize = p.unicode_len();
    let mut j: usize = 0;
    while j < plen
        invariant
            plen == p@.len(),
            i + plen <= t@.len(),
            t@.len() <= usize::MAX,
            0 <= j <= plen,
            forall|j0: int| 0 <= j0 < j ==> t@[i + j0] == p@[j0],
        decreases plen - j,
    {
        if t.get_char(i + j) != p.get_char(j) {
            proof {
                assert(t@.subrange(i as int, i as int + plen as int)[j as int] == t@[i + j]);
            }
            return false;
        }
        j = j + 1;
    }
    proof {
        assert(t@.subrange(i as int, i as int + plen as int) =~= p@);
    }
    true
}

/// Whether the pattern occurs anywhere inside the text.
pub fn contains_str(t: &str, p: &str) -> (r: bool)
    ensures
        r == is_substring(t@, p@),
{
    let tlen: usize = t.unicode_len();
    let plen: usize = p.unicode_len();
    if plen > tlen {
        return false;
    }
    if plen == 0 {
        proof {
            assert(t@.subrange(0, 0 + p@.len() as int) =~= p@);
        }
        return true;
    }
    let mut i: usize = 0;
    while i <= tlen - plen
        invariant
            tlen == t@.len(),
            plen == p@.len(),
            1 <= plen <= tlen,
            0 <= i <= tlen - plen + 1,
            forall|i0: int| 0 <= i0 < i ==> #[trigger] t@.subrange(i0, i0 + plen as int) != p@,
        decreases tlen - plen + 1 - i,
    {
        if match_at(t, p, i) {
            return true;
        }
        i = i + 1;
    }
    false
}

/// The figures of one liquidity venue.
#[derive(Debug)]
pub enum VenueFigures {
    /// A constant-product pool: the owner's LP balance, the pool's total
    /// LP supply, and its underlying balance of the target asset.
    ConstantProduct { owned_lp: Dec, lp_total_supply: Dec, underlying_balance: Dec },
    /// A stable-swap pool: the owner's LP balance, an optional staked
    /// balance of the same LP token, and the redemption price per token.
    StableSwap { owned_lp: Dec, staked_rewards: Option<Dec>, virtual_price: Dec },
}

/// One liquidity venue of a configured list.
#[derive(Debug)]
pub struct Venue {
    /// The venue's LP token name.
    pub name: String,
    /// The venue's LP token symbol.
    pub symbol: String,
    /// The venue's figures; nothing when retrieval failed.
    pub figures: Option<VenueFigures>,
}

/// Well-formed venue figures: amounts and prices within the engine caps.
pub open spec fn venue_ok(v: Venue) -> bool {
    match v.figures {
        None => true,
        Some(VenueFigures::ConstantProduct { owned_lp, lp_total_supply, underlying_balance }) => {
            &&& amount_ok(owned_lp)
            &&& amount_ok(lp_total_supply)
            &&& amount_ok(underlying_balance)
        },
        Some(VenueFigures::StableSwap { owned_lp, staked_rewards, virtual_price }) => {
            &&& amount_ok(owned_lp)
            &&& price_ok(virtual_price)
            &&& (staked_rewards matches Some(s) ==> amount_ok(s))
        },
    }
}

/// Whether a stable-swap venue belongs to the target asset: its LP token
/// name or symbol contains the asset's symbol.
pub open spec fn venue_included(v: Venue, asset_symbol: Seq<char>) -> bool {
    is_substring(v.name@, asset_symbol) || is_substring(v.symbol@, asset_symbol)
}

/// What one venue adds to the position, at scale zero: zero when its
/// figures are unavailable or a stable-swap venue is filtered out.
pub open spec fn venue_contrib_num(v: Venue, asset_symbol: Seq<char>) -> int {
    match v.figures {
        None => 0,
        Some(VenueFigures::ConstantProduct { owned_lp, lp_total_supply, underlying_balance }) => {
            share_num(owned_lp, lp_total_supply, underlying_balance)
        },
        Some(VenueFigures::StableSwap { owned_lp, staked_rewards, virtual_price }) => {
            if venue_included(v, asset_symbol) {
                rescale_num((owned_lp.num() + staked_num(staked_rewards)) * virtual_price.num(), 3, 0)
            } else {
                0
            }
        },
    }
}

/// A venue whose figures make the share undefined: a constant-product
/// pool with zero LP supply.
pub open spec fn venue_failed(v: Venue) -> bool {
    match v.figures {
        Some(VenueFigures::ConstantProduct { lp_total_supply, .. }) => lp_total_supply.num() == 0,
        _ => false,
    }
}

/// The sum of every venue's contribution, in source order.
pub open spec fn sum_contribs(vs: Seq<Venue>, asset_symbol: Seq<char>) -> int
    decreases vs.len(),
{
    if vs.len() == 0 {
        0
    } else {
        sum_contribs(vs.drop_last(), asset_symbol) + venue_contrib_num(vs.last(), asset_symbol)
    }
}

/// What one available venue contributes, at scale zero.
///
/// Unavailable figures are an error under the venue's name; a zero LP
/// supply in a constant-product pool is a division by zero.
pub fn venue_contribution(v: &Venue, asset_symbol: &str) -> (r: Result<Dec, Error>)
    requires
        venue_ok(*v),
    ensures
        r is Err <==> (v.figures is None || venue_failed(*v)),
        v.figures is None ==> (r matches Err(e) && (e matches Error::VenueUnavailable { venue }
            && venue@ == v.name@)),
        venue_failed(*v) ==> (r matches Err(e) && e is DivisionByZero),
        r matches Ok(q) ==> {
            &&& q.wf()
            &&& q.digits == 0
            &&& q.num() == venue_contrib_num(*v, asset_symbol@)
            &&& abs_val(q.num()) <= AMOUNT_CAP * AMOUNT_CAP
        },
{
    proof {
        lemma_pow0(10);
    }
    match &v.figures {
        None => Err(Error::VenueUnavailable { venue: v.name.clone() }),
        Some(VenueFigures::ConstantProduct { owned_lp, lp_total_supply, underlying_balance }) => {
            proof {
                assert(underlying_balance.mag * owned_lp.mag <= AMOUNT_CAP * AMOUNT_CAP)
                    by (nonlinear_arith)
                    requires
                        underlying_balance.mag <= AMOUNT_CAP,
                        owned_lp.mag <= AMOUNT_CAP,
                ;
            }
            match value_pool_share(owned_lp, lp_total_supply, underlying_balance) {
                Ok(q) => {
                    proof {
                        let p = pow10(0);
                        let nn = underlying_balance.num() * owned_lp.num() * p;
                        let dd = lp_total_supply.num() * p;
                        assert(abs_val(nn) <= AMOUNT_CAP * AMOUNT_CAP && dd != 0)
                            by (nonlinear_arith)
                            requires
                                p == 1,
                                abs_val(underlying_balance.num()) <= AMOUNT_CAP,
                                abs_val(owned_lp.num()) <= AMOUNT_CAP,
                                lp_total_supply.num() != 0,
                                nn == underlying_balance.num() * owned_lp.num() * p,
                                dd == lp_total_supply.num() * p,
                        ;
                        lemma_rha_signed_le(nn, dd);
                    }
                    Ok(q)
                },
                Err(e) => Err(e),
            }
        },
        Some(VenueFigures::StableSwap { owned_lp, staked_rewards, virtual_price }) => {
            let included = contains_str(v.name.as_str(), asset_symbol) || contains_str(
                v.symbol.as_str(),
                asset_symbol,
            );
            if included {
                proof {
                    assert(abs_val(owned_lp.num() + staked_num(*staked_rewards))
                        * virtual_price.mag <= u128::MAX) by (nonlinear_arith)
                        requires
                            abs_val(owned_lp.num() + staked_num(*staked_rewards)) <= 2
                                * AMOUNT_CAP,
                            virtual_price.mag <= PRICE_CAP,
                    ;
                }
                let val = value_stable_pool_share(owned_lp, staked_rewards, virtual_price);
                let q = val.rescale(0);
                proof {
                    crate::decimal::lemma_pow10_pos(3);
                    lemma_rha_signed_le(val.num(), pow10(3));
                    assert(abs_val(val.num()) <= (2 * AMOUNT_CAP) * PRICE_CAP)
                        by (nonlinear_arith)
                        requires
                            abs_val(owned_lp.num() + staked_num(*staked_rewards)) <= 2
                                * AMOUNT_CAP,
                            abs_val(virtual_price.num()) <= PRICE_CAP,
                            val.num() == (owned_lp.num() + staked_num(*staked_rewards))
                                * virtual_price.num(),
                    ;
                    assert((2 * AMOUNT_CAP) * PRICE_CAP <= AMOUNT_CAP * AMOUNT_CAP)
                        by (nonlinear_arith);
                }
                Ok(q)
            } else {
                Ok(Dec::zero(0))
            }
        },
    }
}

/// The aggregate worth of one asset position, at scale zero: the directly
/// held balance, the primary-pool and manager-held amounts, and every
/// included venue's pro-rata share. A venue whose figures are unavailable
/// contributes zero and its index is recorded in source order; a
/// constant-product venue with zero LP supply fails the aggregate.
pub fn aggregate_position(
    direct: &Dec,
    primary_pool: &Dec,
    manager_held: &Dec,
    venues: &Vec<Venue>,
    asset_symbol: &str,
) -> (r: Result<(Dec, Vec<usize>), Error>)
    requires
        amount_ok(*direct),
        amount_ok(*primary_pool),
        amount_ok(*manager_held),
        venues@.len() <= MAX_VENUES,
        forall|i: int| 0 <= i < venues@.len() ==> venue_ok(#[trigger] venues@[i]),
    ensures
        r is Err <==> (exists|i: int| 0 <= i < venues@.len() && venue_failed(
            #[trigger] venues@[i],
        )),
        r matches Err(e) ==> e is DivisionByZero,
        r matches Ok(t) ==> {
            &&& t.0.wf()
            &&& t.0.digits == 0
            &&& t.0.num() == direct.num() + primary_pool.num() + manager_held.num() + sum_contribs(
                venues@,
                asset_symbol@,
            )
            &&& forall|j: int| 0 <= j < t.1@.len() ==> t.1@[j] < venues@.len() && venues@[
                t.1@[j] as int
            ].figures is None
            &&& forall|j1: int, j2: int| 0 <= j1 < j2 < t.1@.len() ==> t.1@[j1] < t.1@[j2]
            &&& forall|i: int| 0 <= i < venues@.len() && venues@[i].figures is None
                ==> t.1@.contains(i as usize)
        },
{
    let mut total = direct.add(*primary_pool).add(*manager_held);
    let mut omitted: Vec<usize> = Vec::new();
    let ghost sym = asset_symbol@;
    let mut idx: usize = 0;
    proof {
        assert(venues@.take(0) =~= Seq::<Venue>::empty());
    }
    while idx < venues.len()
        invariant
            venues@.len() <= MAX_VENUES,
            forall|i: int| 0 <= i < venues@.len() ==> venue_ok(#[trigger] venues@[i]),
            amount_ok(*direct),
            amount_ok(*primary_pool),
            amount_ok(*manager_held),
            sym == asset_symbol@,
            0 <= idx <= venues@.len(),
            total.wf(),
            total.digits == 0,
            total.num() == direct.num() + primary_pool.num() + manager_held.num() + sum_contribs(
                venues@.take(idx as int),
                sym,
            ),
            abs_val(total.num()) <= 3 * (AMOUNT_CAP as int) + idx * (AMOUNT_CAP * AMOUNT_CAP),
            forall|i: int| 0 <= i < idx ==> !venue_failed(#[trigger] venues@[i]),
            forall|j: int| 0 <= j < omitted@.len() ==> omitted@[j] < idx && venues@[
                omitted@[j] as int
            ].figures is None,
            forall|j1: int, j2: int| 0 <= j1 < j2 < omitted@.len() ==> omitted@[j1] < omitted@[j2],
            forall|i: int| 0 <= i < idx && venues@[i].figures is None ==> omitted@.contains(
                i as usize,
            ),
        decreases venues@.len() - idx,
    {
        let ghost prefix = venues@.take(idx as int);
        proof {
            assert(venues@.take(idx + 1).drop_last() =~= prefix);
            assert(venues@.take(idx + 1).last() == venues@[idx as int]);
            assert(idx * (AMOUNT_CAP * AMOUNT_CAP) + (AMOUNT_CAP * AMOUNT_CAP) == (idx + 1) * (
            AMOUNT_CAP * AMOUNT_CAP)) by (nonlinear_arith);
        }
        let v = &venues[idx];
        match &v.figures {
            None => {
                let ghost old_om = omitted@;
                omitted.push(idx);
                proof {
                    assert(omitted@ =~= old_om.push(idx));
                    assert forall|i: int|
                        0 <= i < idx + 1 && venues@[i].figures is None implies omitted@.contains(
                        i as usize,
                    ) by {
                        if i < idx {
                            assert(old_om.contains(i as usize));
                            let j = choose|j: int|
                                0 <= j < old_om.len() && old_om[j] == i as usize;
                            assert(omitted@[j] == i as usize);
                        } else {
                            assert(omitted@[old_om.len() as int] == i as usize);
                        }
                    }
                }
            },
            Some(_) => {
                match venue_contribution(v, asset_symbol) {
                    Ok(q) => {
                        total = total.add(q);
                    },
                    Err(_) => {
                        return Err(Error::DivisionByZero);
                    },
                }
            },
        }
        idx = idx + 1;
    }
    proof {
        assert(venues@.take(venues@.len() as int) =~= venues@);
    }
    Ok((total, omitted))
}

} // verus!
