//! The report aggregator: one linear pass over typed collateral records.
//!
//! Each asset's raw record is normalized, valued and ratio-computed
//! independently; a per-asset failure either fails the whole run or drops
//! the asset with its omission recorded, as the caller's policy decides.
//! A failure on a portfolio-level field is always fatal. An undefined
//! ratio (zero denominator) stays in the report as explicitly undefined.
//! The final sequence of per-asset reports preserves source order.

use vstd::prelude::*;

use crate::decimal::{abs_val, lemma_pow10_small, pow10, rescale_num, rha_signed, Dec};
use crate::errors::Error;
use crate::literal::{lit_frac, lit_mantissa, lit_neg, lit_ok};
use crate::normalize::{norm_num, normalize, RawAmount};
use crate::ratio::{collateralization_ratio, hedge_ratio, organic_amount};
use crate::valuer::{amount_ok, price_ok, AMOUNT_CAP, PRICE_CAP};

verus! {

/// The most collateral assets one report may aggregate.
pub const MAX_ASSETS: usize = 10000;

/// What a per-asset failure does to the run: fail it whole, for
/// reproducibility (the default), or drop the asset and record the
/// omission.
#[derive(Clone, Copy, PartialEq, Eq, Structural, Debug)]
pub enum Policy {
    /// A per-asset failure fails the whole run.
    FailFast,
    /// A failing asset is dropped; its index is recorded.
    DropAsset,
}

/// One asset's raw collateral record, as the indexed source delivers it:
/// every field may be absent.
#[derive(Debug)]
pub struct CollateralRecord {
    /// The asset's symbol.
    pub collat_name: Option<String>,
    /// The token's own decimals, as an integer string.
    pub decimals: Option<String>,
    /// Amount in the secondary liquidity program, recorded at an extra
    /// eighteen decimals on top of the token's own.
    pub stock_slp: Option<String>,
    /// User-held stock, recorded at eighteen decimals.
    pub stock_user: Option<String>,
    /// Total recorded assets, at the token's own decimals.
    pub total_asset: Option<String>,
    /// Hedged amount, recorded at eighteen decimals.
    pub total_hedge_amount: Option<String>,
    /// Posted margin, at the token's own decimals.
    pub total_margin: Option<String>,
}

/// The indexed source's record for one stablecoin.
#[derive(Debug)]
pub struct StableRecord {
    /// Total minted supply, recorded at eighteen decimals.
    pub total_minted: Option<String>,
    /// Per-asset collateral records, in source order.
    pub collaterals: Vec<CollateralRecord>,
}

/// One asset's finished report. Amounts and values are displayed at scale
/// zero, the hedge ratio at scale two; an undefined hedge ratio is
/// explicitly absent, never a numeric placeholder.
#[derive(Debug)]
pub struct CollateralReport {
    /// The asset's symbol.
    pub asset_name: String,
    /// Hedged percentage of the user-held stock; absent when undefined.
    pub hedge_ratio: Option<Dec>,
    /// Organically backed amount.
    pub organic_tvl: Dec,
    /// Its value.
    pub organic_tvl_value: Dec,
    /// Amount in the secondary liquidity program.
    pub slp_tvl: Dec,
    /// Its value.
    pub slp_tvl_value: Dec,
    /// Total backing amount.
    pub total_tvl: Dec,
    /// Its value.
    pub total_tvl_value: Dec,
}

impl CollateralReport {
    /// Builds a per-asset report from a completed valuation.
    pub fn new(
        asset_name: String,
        hedge_ratio: Option<Dec>,
        organic_tvl: Dec,
        organic_tvl_value: Dec,
        slp_tvl: Dec,
        slp_tvl_value: Dec,
        total_tvl: Dec,
        total_tvl_value: Dec,
    ) -> (r: CollateralReport)
        ensures
            r == (CollateralReport {
                asset_name,
                hedge_ratio,
                organic_tvl,
                organic_tvl_value,
                slp_tvl,
                slp_tvl_value,
                total_tvl,
                total_tvl_value,
            }),
    {
        CollateralReport {
            asset_name,
            hedge_ratio,
            organic_tvl,
            organic_tvl_value,
            slp_tvl,
            slp_tvl_value,
            total_tvl,
            total_tvl_value,
        }
    }

    /// The asset's symbol.
    pub fn asset_name(&self) -> (r: &String)
        ensures
            r == &self.asset_name,
    {
        &self.asset_name
    }

    /// The hedge ratio, absent when undefined.
    pub fn hedge_ratio(&self) -> (r: Option<Dec>)
        ensures
            r == self.hedge_ratio,
    {
        self.hedge_ratio
    }

    /// The organically backed amount.
    pub fn organic_tvl(&self) -> (r: Dec)
        ensures
            r == self.organic_tvl,
    {
        self.organic_tvl
    }

    /// The organically backed value.
    pub fn organic_tvl_value(&self) -> (r: Dec)
        ensures
            r == self.organic_tvl_value,
    {
        self.organic_tvl_value
    }

    /// The secondary-program amount.
    pub fn slp_tvl(&self) -> (r: Dec)
        ensures
            r == self.slp_tvl,
    {
        self.slp_tvl
    }

    /// The secondary-program value.
    pub fn slp_tvl_value(&self) -> (r: Dec)
        ensures
            r == self.slp_tvl_value,
    {
        self.slp_tvl_value
    }

    /// The total backing amount.
    pub fn total_tvl(&self) -> (r: Dec)
        ensures
            r == self.total_tvl,
    {
        self.total_tvl
    }

    /// The total backing value.
    pub fn total_tvl_value(&self) -> (r: Dec)
        ensures
            r == self.total_tvl_value,
    {
        self.total_tvl_value
    }
}

/// The portfolio-level report: totals, ratios, and the per-asset reports
/// in source order. Currency figures are displayed at scale zero, the
/// collateralization ratios at scale two; an undefined ratio is
/// explicitly absent.
#[derive(Debug)]
pub struct AngleStablecoinReport {
    /// Total minted supply.
    pub total_minted: Dec,
    /// Its value at the exchange rate.
    pub total_minted_value: Dec,
    /// Sum of the organically backed values.
    pub organic_tvl: Dec,
    /// Sum of the total backing values.
    pub total_tvl: Dec,
    /// Organic backing over minted value; absent when undefined.
    pub organic_collateralization_ratio: Option<Dec>,
    /// Total backing over minted value; absent when undefined.
    pub total_collateralization_ratio: Option<Dec>,
    /// Per-asset reports, in source order.
    pub collateral_reports: Vec<CollateralReport>,
    /// Source indices of assets dropped under the drop policy, ascending.
    pub omitted_assets: Vec<usize>,
}

impl AngleStablecoinReport {
    /// The total minted supply.
    pub fn total_minted(&self) -> (r: Dec)
        ensures
            r == self.total_minted,
    {
        self.total_minted
    }

    /// The minted supply's value.
    pub fn total_minted_value(&self) -> (r: Dec)
        ensures
            r == self.total_minted_value,
    {
        self.total_minted_value
    }

    /// The organic backing value.
    pub fn organic_tvl(&self) -> (r: Dec)
        ensures
            r == self.organic_tvl,
    {
        self.organic_tvl
    }

    /// The total backing value.
    pub fn total_tvl(&self) -> (r: Dec)
        ensures
            r == self.total_tvl,
    {
        self.total_tvl
    }

    /// The organic collateralization ratio, absent when undefined.
    pub fn organic_collateralization_ratio(&self) -> (r: Option<Dec>)
        ensures
            r == self.organic_collateralization_ratio,
    {
        self.organic_collateralization_ratio
    }

    /// The total collateralization ratio, absent when undefined.
    pub fn total_collateralization_ratio(&self) -> (r: Option<Dec>)
        ensures
            r == self.total_collateralization_ratio,
    {
        self.total_collateralization_ratio
    }

    /// The per-asset reports, in source order.
    pub fn collateral_reports(&self) -> (r: &Vec<CollateralReport>)
        ensures
            r == &self.collateral_reports,
    {
        &self.collateral_reports
    }

    /// The indices of dropped assets, ascending.
    pub fn omitted_assets(&self) -> (r: &Vec<usize>)
        ensures
            r == &self.omitted_assets,
    {
        &self.omitted_assets
    }
}

/// A decimals field: an unsigned integer literal that fits a `u32`.
pub open spec fn decimals_ok(s: Seq<char>) -> bool {
    &&& lit_ok(s)
    &&& !lit_neg(s)
    &&& lit_frac(s) == 0
    &&& lit_mantissa(s) <= u32::MAX
}

/// An amount field: a literal whose normalized value is within the
/// engine's amount cap.
pub open spec fn amount_field_ok(s: Seq<char>, k: nat) -> bool {
    &&& lit_ok(s)
    &&& abs_val(norm_num(s, k)) <= AMOUNT_CAP
}

/// The token decimals a record declares.
pub open spec fn a_decimals(rec: CollateralRecord) -> nat {
    match rec.decimals {
        Some(s) => lit_mantissa(s@),
        None => 0,
    }
}

/// The normalized secondary-program amount.
pub open spec fn a_slp(rec: CollateralRecord) -> int {
    match rec.stock_slp {
        Some(s) => norm_num(s@, a_decimals(rec) + 18),
        None => 0,
    }
}

/// The normalized user-held stock.
pub open spec fn a_user(rec: CollateralRecord) -> int {
    match rec.stock_user {
        Some(s) => norm_num(s@, 18),
        None => 0,
    }
}

/// The normalized hedged amount.
pub open spec fn a_hedge(rec: CollateralRecord) -> int {
    match rec.total_hedge_amount {
        Some(s) => norm_num(s@, 18),
        None => 0,
    }
}

/// The normalized posted margin.
pub open spec fn a_margin(rec: CollateralRecord) -> int {
    match rec.total_margin {
        Some(s) => norm_num(s@, a_decimals(rec)),
        None => 0,
    }
}

/// The normalized total assets.
pub open spec fn a_total(rec: CollateralRecord) -> int {
    match rec.total_asset {
        Some(s) => norm_num(s@, a_decimals(rec)),
        None => 0,
    }
}

/// The asset's symbol.
pub open spec fn a_name(rec: CollateralRecord) -> Seq<char> {
    match rec.collat_name {
        Some(s) => s@,
        None => Seq::empty(),
    }
}

/// The hedge ratio mantissa at scale two, undefined on zero stock.
pub open spec fn a_hedge_ratio(rec: CollateralRecord) -> Option<int> {
    if a_user(rec) == 0 {
        None
    } else {
        Some(rha_signed(a_hedge(rec) * 10000, a_user(rec)))
    }
}

/// The organic amount: the total clamped at zero after the program and
/// margin amounts are taken out.
pub open spec fn a_organic(rec: CollateralRecord) -> int {
    if a_total(rec) > a_slp(rec) + a_margin(rec) {
        a_total(rec) - (a_slp(rec) + a_margin(rec))
    } else {
        0
    }
}

/// The first thing wrong with a record, in field order; the code is 0 for
/// a missing field, 1 for a malformed number, 2 for an unavailable price.
pub open spec fn asset_failure(rec: CollateralRecord, price: Option<Dec>) -> Option<
    (int, Seq<char>),
> {
    match rec.decimals {
        None => Some((0int, "decimals"@)),
        Some(ds) => if !decimals_ok(ds@) {
            Some((1int, "decimals"@))
        } else {
            let k = lit_mantissa(ds@);
            match rec.stock_slp {
                None => Some((0int, "stockSLP"@)),
                Some(s1) => if !amount_field_ok(s1@, k + 18) {
                    Some((1int, "stockSLP"@))
                } else {
                    match rec.stock_user {
                        None => Some((0int, "stockUser"@)),
                        Some(s2) => if !amount_field_ok(s2@, 18) {
                            Some((1int, "stockUser"@))
                        } else {
                            match rec.total_hedge_amount {
                                None => Some((0int, "totalHedgeAmount"@)),
                                Some(s3) => if !amount_field_ok(s3@, 18) {
                                    Some((1int, "totalHedgeAmount"@))
                                } else {
                                    match rec.total_margin {
                                        None => Some((0int, "totalMargin"@)),
                                        Some(s4) => if !amount_field_ok(s4@, k) {
                                            Some((1int, "totalMargin"@))
                                        } else {
                                            match rec.collat_name {
                                                None => Some((0int, "collatName"@)),
                                                Some(_) => if price is None {
                                                    Some((2int, ""@))
                                                } else {
                                                    match rec.total_asset {
                                                        None => Some((0int, "totalAsset"@)),
                                                        Some(s5) => if !amount_field_ok(s5@, k) {
                                                            Some((1int, "totalAsset"@))
                                                        } else {
                                                            None
                                                        },
                                                    }
                                                },
                                            }
                                        },
                                    }
                                },
                            }
                        },
                    }
                },
            }
        },
    }
}

/// Whether an error value reports the given failure.
pub open spec fn err_matches(e: Error, f: (int, Seq<char>)) -> bool {
    if f.0 == 0 {
        e matches Error::MissingField { expected_field } && expected_field@ == f.1
    } else if f.0 == 1 {
        e matches Error::MalformedNumber { expected_field } && expected_field@ == f.1
    } else {
        e is UpstreamUnavailable
    }
}

/// Whether a per-asset report carries exactly the record's metrics at the
/// given price.
pub open spec fn asset_report_matches(rec: CollateralRecord, p: Dec, cr: CollateralReport) -> bool {
    &&& cr.asset_name@ == a_name(rec)
    &&& match (cr.hedge_ratio, a_hedge_ratio(rec)) {
        (None, None) => true,
        (Some(h), Some(v)) => h.wf() && h.digits == 2 && h.num() == v,
        _ => false,
    }
    &&& cr.organic_tvl.wf() && cr.organic_tvl.digits == 0 && cr.organic_tvl.num() == a_organic(rec)
    &&& cr.organic_tvl_value.wf() && cr.organic_tvl_value.digits == 0
        && cr.organic_tvl_value.num() == rescale_num(a_organic(rec) * p.num(), 3, 0)
    &&& cr.slp_tvl.wf() && cr.slp_tvl.digits == 0 && cr.slp_tvl.num() == a_slp(rec)
    &&& cr.slp_tvl_value.wf() && cr.slp_tvl_value.digits == 0 && cr.slp_tvl_value.num()
        == rescale_num(a_slp(rec) * p.num(), 3, 0)
    &&& cr.total_tvl.wf() && cr.total_tvl.digits == 0 && cr.total_tvl.num() == a_total(rec)
    &&& cr.total_tvl_value.wf() && cr.total_tvl_value.digits == 0 && cr.total_tvl_value.num()
        == rescale_num(a_total(rec) * p.num(), 3, 0)
}

/// The price's mantissa, zero when unavailable.
pub open spec fn price_num(p: Option<Dec>) -> int {
    match p {
        Some(d) => d.num(),
        None => 0,
    }
}

/// The full-precision sum of the organic values of the first `n` assets
/// that pass validation.
pub open spec fn org_value_sum(recs: Seq<CollateralRecord>, ps: Seq<Option<Dec>>, n: int) -> int
    decreases n,
{
    if n <= 0 {
        0
    } else {
        org_value_sum(recs, ps, n - 1) + if asset_failure(recs[n - 1], ps[n - 1]) is None {
            a_organic(recs[n - 1]) * price_num(ps[n - 1])
        } else {
            0
        }
    }
}

/// The full-precision sum of the total values of the first `n` assets
/// that pass validation.
pub open spec fn tot_value_sum(recs: Seq<CollateralRecord>, ps: Seq<Option<Dec>>, n: int) -> int
    decreases n,
{
    if n <= 0 {
        0
    } else {
        tot_value_sum(recs, ps, n - 1) + if asset_failure(recs[n - 1], ps[n - 1]) is None {
            a_total(recs[n - 1]) * price_num(ps[n - 1])
        } else {
            0
        }
    }
}

/// The source indices, ascending, of the first `n` assets that pass
/// validation.
pub open spec fn included_idx(recs: Seq<CollateralRecord>, ps: Seq<Option<Dec>>, n: int) -> Seq<
    int,
>
    decreases n,
{
    if n <= 0 {
        Seq::empty()
    } else {
        let pre = included_idx(recs, ps, n - 1);
        if asset_failure(recs[n - 1], ps[n - 1]) is None {
            pre.push(n - 1)
        } else {
            pre
        }
    }
}

/// The source indices, ascending, of the first `n` assets that fail
/// validation.
pub open spec fn failed_idx(recs: Seq<CollateralRecord>, ps: Seq<Option<Dec>>, n: int) -> Seq<int>
    decreases n,
{
    if n <= 0 {
        Seq::empty()
    } else {
        let pre = failed_idx(recs, ps, n - 1);
        if asset_failure(recs[n - 1], ps[n - 1]) is Some {
            pre.push(n - 1)
        } else {
            pre
        }
    }
}

/// Whether a finished portfolio report carries exactly the model of the
/// given inputs.
pub open spec fn report_matches(
    stable: StableRecord,
    ps: Seq<Option<Dec>>,
    rate: Dec,
    rep: AngleStablecoinReport,
) -> bool {
    let recs = stable.collaterals@;
    let n = recs.len() as int;
    let m = match stable.total_minted {
        Some(s) => norm_num(s@, 18),
        None => 0,
    };
    let mv = m * rate.num();
    let orgs = org_value_sum(recs, ps, n);
    let tots = tot_value_sum(recs, ps, n);
    let inc = included_idx(recs, ps, n);
    let failed = failed_idx(recs, ps, n);
    &&& rep.total_minted.wf() && rep.total_minted.digits == 0 && rep.total_minted.num() == m
    &&& rep.total_minted_value.wf() && rep.total_minted_value.digits == 0
        && rep.total_minted_value.num() == rescale_num(mv, 3, 0)
    &&& rep.organic_tvl.wf() && rep.organic_tvl.digits == 0 && rep.organic_tvl.num()
        == rescale_num(orgs, 3, 0)
    &&& rep.total_tvl.wf() && rep.total_tvl.digits == 0 && rep.total_tvl.num() == rescale_num(
        tots,
        3,
        0,
    )
    &&& match rep.organic_collateralization_ratio {
        None => mv == 0,
        Some(q) => mv != 0 && q.wf() && q.digits == 2 && q.num() == rha_signed(
            orgs * pow10(5),
            mv * pow10(3),
        ),
    }
    &&& match rep.total_collateralization_ratio {
        None => mv == 0,
        Some(q) => mv != 0 && q.wf() && q.digits == 2 && q.num() == rha_signed(
            tots * pow10(5),
            mv * pow10(3),
        ),
    }
    &&& rep.collateral_reports@.len() == inc.len()
    &&& forall|j: int|
        0 <= j < inc.len() ==> (ps[inc[j]] matches Some(p) && asset_report_matches(
            recs[inc[j]],
            p,
            #[trigger] rep.collateral_reports@[j],
        ))
    &&& rep.omitted_assets@.len() == failed.len()
    &&& forall|j: int| 0 <= j < failed.len() ==> #[trigger] rep.omitted_assets@[j] == failed[j]
}

/// Reads the decimals field of a record.
fn parse_decimals_field(field: &Option<String>) -> (r: Result<u32, Error>)
    ensures
        field is None ==> (r matches Err(e) && (e matches Error::MissingField { expected_field }
            && expected_field@ == "decimals"@)),
        field matches Some(s) ==> {
            &&& decimals_ok(s@) ==> (r matches Ok(k) && k == lit_mantissa(s@))
            &&& !decimals_ok(s@) ==> (r matches Err(e) && (e matches Error::MalformedNumber {
                expected_field,
            } && expected_field@ == "decimals"@))
        },
{
    match field {
        None => Err(Error::MissingField { expected_field: "decimals".to_owned() }),
        Some(s) => match crate::literal::parse_literal(s.as_str()) {
            None => Err(Error::MalformedNumber { expected_field: "decimals".to_owned() }),
            Some((ng, mant, frac)) => {
                if ng || frac > 0 || mant > u32::MAX as u128 {
                    Err(Error::MalformedNumber { expected_field: "decimals".to_owned() })
                } else {
                    Ok(mant as u32)
                }
            },
        },
    }
}

/// Normalizes one amount field and holds it to the engine's amount cap.
fn norm_amount_field(field: &Option<String>, field_name: &str, decimals: u32, offset: u32) -> (r:
    Result<Dec, Error>)
    ensures
        field is None ==> (r matches Err(e) && (e matches Error::MissingField { expected_field }
            && expected_field@ == field_name@)),
        field matches Some(s) ==> {
            &&& amount_field_ok(s@, (decimals + offset) as nat) ==> (r matches Ok(d) && amount_ok(
                d,
            ) && d.num() == norm_num(s@, (decimals + offset) as nat))
            &&& !amount_field_ok(s@, (decimals + offset) as nat) ==> (r matches Err(e) && (
            e matches Error::MalformedNumber { expected_field } && expected_field@ == field_name@))
        },
{
    let raw: Option<RawAmount> = match field {
        Some(s) => Some(RawAmount { magnitude: s.clone(), decimals }),
        None => None,
    };
    match normalize(&raw, field_name, offset) {
        Err(e) => Err(e),
        Ok(d) => {
            if d.magnitude() > AMOUNT_CAP {
                Err(Error::MalformedNumber { expected_field: field_name.to_owned() })
            } else {
                Ok(d)
            }
        },
    }
}

/// Normalizes, values and ratio-computes one asset's record against its
/// price. A failing field is the asset's failure; an undefined hedge
/// ratio is not a failure. Returns the per-asset report and the
/// full-precision organic and total values at scale three.
fn asset_step(rec: &CollateralRecord, price: &Option<Dec>) -> (r: Result<
    (CollateralReport, Dec, Dec),
    Error,
>)
    requires
        (*price) matches Some(p) ==> price_ok(p),
    ensures
        r is Err <==> asset_failure(*rec, *price) is Some,
        asset_failure(*rec, *price) matches Some(f) ==> (r matches Err(e) && err_matches(e, f)),
        asset_failure(*rec, *price) is None ==> (r matches Ok(t) && (*price) matches Some(p) && {
            &&& asset_report_matches(*rec, p, t.0)
            &&& t.1.wf() && t.1.digits == 3 && t.1.num() == a_organic(*rec) * p.num()
            &&& abs_val(t.1.num()) <= 3 * (AMOUNT_CAP * PRICE_CAP)
            &&& t.2.wf() && t.2.digits == 3 && t.2.num() == a_total(*rec) * p.num()
            &&& abs_val(t.2.num()) <= AMOUNT_CAP * PRICE_CAP
        }),
{
    let decimals: u32 = match parse_decimals_field(&rec.decimals) {
        Ok(k) => k,
        Err(e) => {
            return Err(e);
        },
    };
    let slp = match norm_amount_field(&rec.stock_slp, "stockSLP", decimals, 18) {
        Ok(v) => v,
        Err(e) => {
            return Err(e);
        },
    };
    let user = match norm_amount_field(&rec.stock_user, "stockUser", 18, 0) {
        Ok(v) => v,
        Err(e) => {
            return Err(e);
        },
    };
    let hedge = match norm_amount_field(&rec.total_hedge_amount, "totalHedgeAmount", 18, 0) {
        Ok(v) => v,
        Err(e) => {
            return Err(e);
        },
    };
    let margin = match norm_amount_field(&rec.total_margin, "totalMargin", decimals, 0) {
        Ok(v) => v,
        Err(e) => {
            return Err(e);
        },
    };
    let name: String = match &rec.collat_name {
        Some(s) => s.clone(),
        None => {
            return Err(Error::MissingField { expected_field: "collatName".to_owned() });
        },
    };
    let p: Dec = match price {
        Some(p0) => *p0,
        None => {
            return Err(Error::UpstreamUnavailable);
        },
    };
    let total = match norm_amount_field(&rec.total_asset, "totalAsset", decimals, 0) {
        Ok(v) => v,
        Err(e) => {
            return Err(e);
        },
    };
    proof {
        lemma_pow10_small();
        assert(hedge.mag * 10000 <= u128::MAX) by (nonlinear_arith)
            requires
                hedge.mag <= AMOUNT_CAP,
        ;
        assert(total.mag * p.mag <= AMOUNT_CAP * PRICE_CAP) by (nonlinear_arith)
            requires
                total.mag <= AMOUNT_CAP,
                p.mag <= PRICE_CAP,
        ;
        assert(slp.mag * p.mag <= AMOUNT_CAP * PRICE_CAP) by (nonlinear_arith)
            requires
                slp.mag <= AMOUNT_CAP,
                p.mag <= PRICE_CAP,
        ;
    }
    let hr: Option<Dec> = match hedge_ratio(&hedge, &user) {
        Ok(q) => Some(q),
        Err(_) => None,
    };
    let organic = organic_amount(&total, &slp, &margin);
    proof {
        assert(organic.mag * p.mag <= 3 * (AMOUNT_CAP * PRICE_CAP)) by (nonlinear_arith)
            requires
                organic.mag <= 3 * AMOUNT_CAP,
                p.mag <= PRICE_CAP,
        ;
        assert(abs_val(organic.num() * p.num()) == organic.mag * p.mag) by (nonlinear_arith)
            requires
                abs_val(organic.num()) == organic.mag,
                abs_val(p.num()) == p.mag,
        ;
        assert(abs_val(total.num() * p.num()) == total.mag * p.mag) by (nonlinear_arith)
            requires
                abs_val(total.num()) == total.mag,
                abs_val(p.num()) == p.mag,
        ;
    }
    let total_value = total.mul(p);
    let slp_value = slp.mul(p);
    let organic_value = organic.mul(p);
    let cr = CollateralReport::new(
        name,
        hr,
        organic,
        organic_value.rescale(0),
        slp,
        slp_value.rescale(0),
        total,
        total_value.rescale(0),
    );
    Ok((cr, organic_value, total_value))
}

/// An index recorded as included points at a validated record.
proof fn lemma_included_ok(recs: Seq<CollateralRecord>, ps: Seq<Option<Dec>>, n: int, j: int)
    requires
        0 <= j < included_idx(recs, ps, n).len(),
    ensures
        0 <= included_idx(recs, ps, n)[j] < n,
        asset_failure(recs[included_idx(recs, ps, n)[j]], ps[included_idx(recs, ps, n)[j]])
            is None,
    decreases n,
{
    if n > 0 {
        let pre = included_idx(recs, ps, n - 1);
        if asset_failure(recs[n - 1], ps[n - 1]) is None {
            if j < pre.len() {
                lemma_included_ok(recs, ps, n - 1, j);
            }
        } else {
            lemma_included_ok(recs, ps, n - 1, j);
        }
    }
}

/// All failures before index `i` being absent, index `i`'s failure is the
/// first recorded one.
proof fn lemma_first_failed(
    recs: Seq<CollateralRecord>,
    ps: Seq<Option<Dec>>,
    i: int,
    m: int,
)
    requires
        0 <= i < m,
        forall|j: int| 0 <= j < i ==> asset_failure(#[trigger] recs[j], ps[j]) is None,
        asset_failure(recs[i], ps[i]) is Some,
    ensures
        failed_idx(recs, ps, m).len() > 0,
        failed_idx(recs, ps, m)[0] == i,
    decreases m,
{
    if m == i + 1 {
        lemma_no_failures_empty(recs, ps, i);
    } else {
        lemma_first_failed(recs, ps, i, m - 1);
    }
}

/// With no failing asset among the first `n`, nothing is recorded.
proof fn lemma_no_failures_empty(recs: Seq<CollateralRecord>, ps: Seq<Option<Dec>>, n: int)
    requires
        forall|j: int| 0 <= j < n ==> asset_failure(#[trigger] recs[j], ps[j]) is None,
    ensures
        failed_idx(recs, ps, n).len() == 0,
    decreases n,
{
    if n > 0 {
        lemma_no_failures_empty(recs, ps, n - 1);
    }
}

/// Builds the portfolio report from one stablecoin's records, the
/// per-asset prices, and the exchange rate.
///
/// A missing or malformed minted supply is fatal. A per-asset failure
/// fails the run under `FailFast` (with the first failing asset's error),
/// or drops the asset with its index recorded under `DropAsset`. An
/// undefined ratio stays in the report as explicitly undefined. The
/// per-asset reports keep source order.
#[verifier::loop_isolation(false)]
#[verifier::rlimit(100)]
pub fn create_report(
    stable: &StableRecord,
    prices: &Vec<Option<Dec>>,
    exchange_rate: &Dec,
    policy: Policy,
) -> (r: Result<AngleStablecoinReport, Error>)
    requires
        prices@.len() == stable.collaterals@.len(),
        stable.collaterals@.len() <= MAX_ASSETS,
        price_ok(*exchange_rate),
        forall|i: int| 0 <= i < prices@.len() ==> (#[trigger] prices@[i] matches Some(p)
            ==> price_ok(p)),
    ensures
        stable.total_minted is None ==> (r matches Err(e) && (e matches Error::MissingField {
            expected_field,
        } && expected_field@ == "totalMinted"@)),
        stable.total_minted matches Some(s) ==> {
            &&& !amount_field_ok(s@, 18) ==> (r matches Err(e) && (
            e matches Error::MalformedNumber { expected_field } && expected_field@
                == "totalMinted"@))
            &&& amount_field_ok(s@, 18) ==> {
                let recs = stable.collaterals@;
                let n = recs.len() as int;
                let failed = failed_idx(recs, prices@, n);
                &&& (policy == Policy::FailFast && failed.len() > 0) ==> (r matches Err(e)
                    && asset_failure(recs[failed[0]], prices@[failed[0]]) matches Some(f)
                    && err_matches(e, f))
                &&& (policy == Policy::DropAsset || failed.len() == 0) ==> (r matches Ok(rep)
                    && report_matches(*stable, prices@, *exchange_rate, rep))
            }
        },
{
    let minted = match norm_amount_field(&stable.total_minted, "totalMinted", 18, 0) {
        Ok(v) => v,
        Err(e) => {
            return Err(e);
        },
    };
    proof {
        lemma_pow10_small();
        assert(minted.mag * exchange_rate.mag <= AMOUNT_CAP * PRICE_CAP) by (nonlinear_arith)
            requires
                minted.mag <= AMOUNT_CAP,
                exchange_rate.mag <= PRICE_CAP,
        ;
        assert(abs_val(minted.num() * exchange_rate.num()) == minted.mag * exchange_rate.mag)
            by (nonlinear_arith)
            requires
                abs_val(minted.num()) == minted.mag,
                abs_val(exchange_rate.num()) == exchange_rate.mag,
        ;
    }
    let minted_value = minted.mul(*exchange_rate);
    let ghost recs = stable.collaterals@;
    let ghost ps = prices@;
    let mut reports: Vec<CollateralReport> = Vec::new();
    let mut omitted: Vec<usize> = Vec::new();
    let mut org_sum = Dec::zero(3);
    let mut tot_sum = Dec::zero(3);
    let n: usize = stable.collaterals.len();
    let mut idx: usize = 0;
    while idx < n
        invariant
            recs == stable.collaterals@,
            ps == prices@,
            n == recs.len(),
            n <= MAX_ASSETS,
            ps.len() == recs.len(),
            forall|i: int| 0 <= i < ps.len() ==> (#[trigger] ps[i] matches Some(p) ==> price_ok(
                p,
            )),
            0 <= idx <= n,
            org_sum.wf(),
            org_sum.digits == 3,
            org_sum.num() == org_value_sum(recs, ps, idx as int),
            abs_val(org_sum.num()) <= idx * (3 * (AMOUNT_CAP * PRICE_CAP)),
            tot_sum.wf(),
            tot_sum.digits == 3,
            tot_sum.num() == tot_value_sum(recs, ps, idx as int),
            abs_val(tot_sum.num()) <= idx * (AMOUNT_CAP * PRICE_CAP),
            policy == Policy::FailFast ==> forall|i: int|
                0 <= i < idx ==> asset_failure(#[trigger] recs[i], ps[i]) is None,
            reports@.len() == included_idx(recs, ps, idx as int).len(),
            forall|j: int|
                0 <= j < included_idx(recs, ps, idx as int).len() ==> (ps[included_idx(
                    recs,
                    ps,
                    idx as int,
                )[j]] matches Some(p) && asset_report_matches(
                    recs[included_idx(recs, ps, idx as int)[j]],
                    p,
                    #[trigger] reports@[j],
                )),
            forall|j: int|
                0 <= j < included_idx(recs, ps, idx as int).len() ==> #[trigger] ps[included_idx(
                    recs,
                    ps,
                    idx as int,
                )[j]] is Some,
            omitted@.len() == failed_idx(recs, ps, idx as int).len(),
            forall|j: int|
                0 <= j < omitted@.len() ==> #[trigger] omitted@[j] == failed_idx(
                    recs,
                    ps,
                    idx as int,
                )[j],
        decreases n - idx,
    {
        proof {
            assert(idx * (3 * (AMOUNT_CAP * PRICE_CAP)) + 3 * (AMOUNT_CAP * PRICE_CAP) == (idx
                + 1) * (3 * (AMOUNT_CAP * PRICE_CAP))) by (nonlinear_arith);
            assert(idx * (AMOUNT_CAP * PRICE_CAP) + (AMOUNT_CAP * PRICE_CAP) == (idx + 1) * (
            AMOUNT_CAP * PRICE_CAP)) by (nonlinear_arith);
        }
        let rec = &stable.collaterals[idx];
        let price = &prices[idx];
        match asset_step(rec, price) {
            Ok((cr, ov, tv)) => {
                let ghost old_reports = reports@;
                reports.push(cr);
                proof {
                    assert(reports@ =~= old_reports.push(cr));
                    assert forall|j: int|
                        0 <= j < included_idx(recs, ps, idx + 1).len() implies (ps[included_idx(
                        recs,
                        ps,
                        idx + 1,
                    )[j]] matches Some(p) && asset_report_matches(
                        recs[included_idx(recs, ps, idx + 1)[j]],
                        p,
                        #[trigger] reports@[j],
                    )) by {
                        lemma_included_ok(recs, ps, idx + 1, j);
                        if j < included_idx(recs, ps, idx as int).len() {
                            assert(reports@[j] == old_reports[j]);
                        } else {
                            assert(reports@[j] == cr);
                        }
                    }
                    assert forall|j: int|
                        0 <= j < included_idx(recs, ps, idx + 1).len() implies #[trigger] ps[included_idx(
                        recs,
                        ps,
                        idx + 1,
                    )[j]] is Some by {
                        lemma_included_ok(recs, ps, idx + 1, j);
                    }
                    assert(abs_val(ov.num()) <= 3 * (AMOUNT_CAP * PRICE_CAP));
                    assert(abs_val(org_sum.num()) + abs_val(ov.num()) <= (idx + 1) * (3 * (
                    AMOUNT_CAP * PRICE_CAP)));
                    assert((idx + 1) * (3 * (AMOUNT_CAP * PRICE_CAP)) <= 10000 * (3 * (AMOUNT_CAP
                        * PRICE_CAP))) by (nonlinear_arith)
                        requires
                            idx + 1 <= 10000,
                    ;
                    assert(abs_val(tot_sum.num()) + abs_val(tv.num()) <= (idx + 1) * (AMOUNT_CAP
                        * PRICE_CAP));
                    assert((idx + 1) * (AMOUNT_CAP * PRICE_CAP) <= 10000 * (AMOUNT_CAP
                        * PRICE_CAP)) by (nonlinear_arith)
                        requires
                            idx + 1 <= 10000,
                    ;
                }
                org_sum = org_sum.add(ov);
                tot_sum = tot_sum.add(tv);
            },
            Err(e) => {
                match policy {
                    Policy::FailFast => {
                        proof {
                            lemma_first_failed(recs, ps, idx as int, recs.len() as int);
                        }
                        return Err(e);
                    },
                    Policy::DropAsset => {
                        omitted.push(idx);
                        proof {
                            assert(included_idx(recs, ps, idx + 1) == included_idx(
                                recs,
                                ps,
                                idx as int,
                            ));
                        }
                    },
                }
            },
        }
        idx = idx + 1;
    }
    proof {
        if policy == Policy::FailFast {
            lemma_no_failures_empty(recs, ps, n as int);
        }
        assert(org_sum.mag * pow10(5) <= u128::MAX);
        assert(tot_sum.mag * pow10(5) <= u128::MAX);
        assert(minted_value.mag * pow10(3) <= u128::MAX);
    }
    let org_ratio: Option<Dec> = match collateralization_ratio(&org_sum, &minted_value) {
        Ok(q) => Some(q),
        Err(_) => None,
    };
    let tot_ratio: Option<Dec> = match collateralization_ratio(&tot_sum, &minted_value) {
        Ok(q) => Some(q),
        Err(_) => None,
    };
    let ghost reps_v = reports@;
    let ghost om_v = omitted@;
    let rep = AngleStablecoinReport {
        total_minted: minted,
        total_minted_value: minted_value.rescale(0),
        organic_tvl: org_sum.rescale(0),
        total_tvl: tot_sum.rescale(0),
        organic_collateralization_ratio: org_ratio,
        total_collateralization_ratio: tot_ratio,
        collateral_reports: reports,
        omitted_assets: omitted,
    };
    proof {
        let recs2 = stable.collaterals@;
        let n2 = recs2.len() as int;
        assert(rep.collateral_reports@ == reps_v);
        assert(rep.omitted_assets@ == om_v);
        assert forall|j: int| 0 <= j < included_idx(recs2, ps, n2).len() implies (ps[included_idx(
            recs2,
            ps,
            n2,
        )[j]] matches Some(p) && asset_report_matches(
            recs2[included_idx(recs2, ps, n2)[j]],
            p,
            #[trigger] rep.collateral_reports@[j],
        )) by {
            lemma_included_ok(recs2, ps, n2, j);
            assert(rep.collateral_reports@[j] == reps_v[j]);
        }
        assert forall|j: int|
            0 <= j < included_idx(recs2, ps, n2).len() implies #[trigger] ps[included_idx(
            recs2,
            ps,
            n2,
        )[j]] is Some by {
            lemma_included_ok(recs2, ps, n2, j);
        }
    }
    Ok(rep)
}

} // verus!
