//! Rendering the portfolio report as text, and the laws tying that text
//! back to the values: re-parsing a formatted numeric field recovers the
//! value exactly.
//!
//! Figures are written sign first, then the integer digits, then — for a
//! scaled value — a decimal point and exactly `digits` fraction digits.
//! The two minted figures carry thousands separators, as the delivery
//! channel expects; a separator-stripped figure parses back too.

use vstd::prelude::*;
use vstd::arithmetic::power::{lemma_pow0, lemma_pow1, lemma_pow_adds};
use vstd::arithmetic::div_mod::{lemma_fundamental_div_mod, lemma_multiply_divide_lt};
use vstd::arithmetic::mul::lemma_mul_is_associative;

use crate::decimal::{pow10, pow10_u128, Dec};
use crate::literal::{
    all_digits, body_ok, digit_val, digits_val, dot_split_at, is_digit, lemma_digits_val_snoc,
    lemma_dot_unique, lemma_not_dot_elsewhere, lit_body, lit_frac, lit_mantissa, lit_neg, lit_ok,
    MAX_DIGITS,
};
use crate::report::{AngleStablecoinReport, CollateralReport};

verus! {

/// The digit character for a value below ten.
pub open spec fn digit_char(d: nat) -> char {
    if d == 0 {
        '0'
    } else if d == 1 {
        '1'
    } else if d == 2 {
        '2'
    } else if d == 3 {
        '3'
    } else if d == 4 {
        '4'
    } else if d == 5 {
        '5'
    } else if d == 6 {
        '6'
    } else if d == 7 {
        '7'
    } else if d == 8 {
        '8'
    } else {
        '9'
    }
}

/// The decimal digits of `n`, most significant first, no leading zeros.
pub open spec fn digits_of(n: nat) -> Seq<char>
    decreases n,
{
    if n < 10 {
        seq![digit_char(n)]
    } else {
        digits_of(n / 10).push(digit_char(n % 10))
    }
}

/// The last `k` decimal digits of `m`, zero-padded to width `k`.
pub open spec fn padded(m: nat, k: nat) -> Seq<char>
    decreases k,
{
    if k == 0 {
        Seq::empty()
    } else {
        padded(m / 10, (k - 1) as nat).push(digit_char(m % 10))
    }
}

/// Digit groups of three, separated by commas, from the right.
pub open spec fn grouped(s: Seq<char>) -> Seq<char>
    decreases s.len(),
{
    if s.len() <= 3 {
        s
    } else {
        grouped(s.take(s.len() - 3)) + seq![','] + s.skip(s.len() - 3)
    }
}

/// The sequence with its commas removed.
pub open spec fn strip_commas(s: Seq<char>) -> Seq<char>
    decreases s.len(),
{
    if s.len() == 0 {
        Seq::empty()
    } else {
        strip_commas(s.drop_last()) + (if s.last() == ',' {
            Seq::empty()
        } else {
            seq![s.last()]
        })
    }
}

/// The text of a decimal value: sign, integer digits, and — at a nonzero
/// scale — a point and exactly `digits` fraction digits.
pub open spec fn dec_text(d: Dec) -> Seq<char> {
    let sign: Seq<char> = if d.neg {
        seq!['-']
    } else {
        Seq::empty()
    };
    if d.digits == 0 {
        sign + digits_of(d.mag as nat)
    } else {
        sign + digits_of((d.mag as int / pow10(d.digits as nat)) as nat) + seq!['.'] + padded(
            (d.mag as int % pow10(d.digits as nat)) as nat,
            d.digits as nat,
        )
    }
}

/// The text of a scale-zero value with thousands separators.
pub open spec fn dec_grouped_text(d: Dec) -> Seq<char> {
    (if d.neg {
        seq!['-']
    } else {
        Seq::empty()
    }) + grouped(digits_of(d.mag as nat))
}

/// A ratio's text: its value, or the word for an undefined one.
pub open spec fn opt_ratio_text(o: Option<Dec>) -> Seq<char> {
    match o {
        Some(d) => dec_text(d),
        None => "undefined"@,
    }
}

/// The digits of `n` read back as a number.
pub proof fn lemma_digits_of_val(n: nat)
    ensures
        all_digits(digits_of(n)),
        digits_of(n).len() >= 1,
        digits_val(digits_of(n)) == n,
    decreases n,
{
    if n < 10 {
        assert(digits_val(Seq::<char>::empty()) == 0);
        assert(seq![digit_char(n)].drop_last() =~= Seq::<char>::empty());
        assert(seq![digit_char(n)].last() == digit_char(n));
    } else {
        lemma_digits_of_val(n / 10);
        lemma_digits_val_snoc(digits_of(n / 10), digit_char(n % 10));
        assert(n / 10 * 10 + n % 10 == n) by {
            lemma_fundamental_div_mod(n as int, 10);
        }
    }
}

/// A number below `10^k` has at most `k` digits.
pub proof fn lemma_digits_of_len(n: nat, k: nat)
    requires
        1 <= k,
        n < pow10(k),
    ensures
        digits_of(n).len() <= k,
    decreases k,
{
    if n >= 10 {
        lemma_pow1(10);
        if k == 1 {
            assert(false);
        }
        lemma_pow_adds(10, (k - 1) as nat, 1);
        lemma_multiply_divide_lt(n as int, 10, pow10((k - 1) as nat));
        lemma_digits_of_len(n / 10, (k - 1) as nat);
    }
}

/// The padded digits of `m` read back as `m`, when `m` fits the width.
pub proof fn lemma_padded_val(m: nat, k: nat)
    requires
        m < pow10(k),
    ensures
        all_digits(padded(m, k)),
        padded(m, k).len() == k,
        digits_val(padded(m, k)) == m,
    decreases k,
{
    if k == 0 {
        lemma_pow0(10);
    } else {
        lemma_pow_adds(10, (k - 1) as nat, 1);
        lemma_pow1(10);
        lemma_multiply_divide_lt(m as int, 10, pow10((k - 1) as nat));
        lemma_padded_val(m / 10, (k - 1) as nat);
        lemma_digits_val_snoc(padded(m / 10, (k - 1) as nat), digit_char(m % 10));
        assert(m / 10 * 10 + m % 10 == m) by {
            lemma_fundamental_div_mod(m as int, 10);
        }
    }
}

/// Reading a concatenation: the left digits shifted by the right width.
pub proof fn lemma_digits_val_concat(a: Seq<char>, b: Seq<char>)
    ensures
        digits_val(a + b) == digits_val(a) * pow10(b.len()) + digits_val(b),
    decreases b.len(),
{
    if b.len() == 0 {
        assert(a + b =~= a);
        lemma_pow0(10);
    } else {
        assert((a + b).drop_last() =~= a + b.drop_last());
        assert((a + b).last() == b.last());
        lemma_digits_val_concat(a, b.drop_last());
        lemma_pow_adds(10, (b.len() - 1) as nat, 1);
        lemma_pow1(10);
        lemma_mul_is_associative(digits_val(a) as int, pow10((b.len() - 1) as nat), 10);
    }
}

/// Stripping distributes over concatenation.
pub proof fn lemma_strip_concat(a: Seq<char>, b: Seq<char>)
    ensures
        strip_commas(a + b) == strip_commas(a) + strip_commas(b),
    decreases b.len(),
{
    if b.len() == 0 {
        assert(a + b =~= a);
        assert(strip_commas(a) + strip_commas(b) =~= strip_commas(a));
    } else {
        assert((a + b).drop_last() =~= a + b.drop_last());
        assert((a + b).last() == b.last());
        lemma_strip_concat(a, b.drop_last());
        assert(strip_commas(a + b) =~= strip_commas(a) + strip_commas(b));
    }
}

/// Stripping leaves a digit sequence alone.
pub proof fn lemma_strip_digits(s: Seq<char>)
    requires
        all_digits(s),
    ensures
        strip_commas(s) == s,
    decreases s.len(),
{
    if s.len() > 0 {
        assert(is_digit(s.last()));
        lemma_strip_digits(s.drop_last());
        assert(strip_commas(s) =~= s);
    }
}

/// Law: removing the separators of a grouped digit sequence gives back
/// the digits.
pub proof fn lemma_strip_grouped(s: Seq<char>)
    requires
        all_digits(s),
    ensures
        strip_commas(grouped(s)) == s,
    decreases s.len(),
{
    if s.len() <= 3 {
        lemma_strip_digits(s);
    } else {
        let left = s.take(s.len() - 3);
        let right = s.skip(s.len() - 3);
        assert(all_digits(left));
        assert(all_digits(right));
        lemma_strip_grouped(left);
        lemma_strip_digits(right);
        lemma_strip_concat(grouped(left) + seq![','], right);
        lemma_strip_concat(grouped(left), seq![',']);
        assert(strip_commas(Seq::<char>::empty()) =~= Seq::<char>::empty());
        assert(seq![','].drop_last() =~= Seq::<char>::empty());
        assert(seq![','].last() == ',');
        assert(strip_commas(seq![',']) =~= Seq::<char>::empty());
        assert(left + right =~= s);
        assert(strip_commas(grouped(s)) =~= s);
    }
}

/// Law: a grouped figure, separators removed, reads back as the number.
pub proof fn lemma_grouped_round_trip(n: nat)
    ensures
        digits_val(strip_commas(grouped(digits_of(n)))) == n,
{
    lemma_digits_of_val(n);
    lemma_strip_grouped(digits_of(n));
}

/// Law: the text of a well-formed value is a literal that reads back to
/// exactly the same sign, mantissa and scale. Formatting then re-parsing
/// a report's numeric field recovers its value unchanged.
pub proof fn lemma_dec_text_parse(d: Dec)
    requires
        d.wf(),
        d.mag < pow10(MAX_DIGITS as nat),
        d.digits < MAX_DIGITS,
    ensures
        lit_ok(dec_text(d)),
        lit_neg(dec_text(d)) == d.neg,
        lit_mantissa(dec_text(d)) == d.mag,
        lit_frac(dec_text(d)) == d.digits,
{
    let t = dec_text(d);
    let sign: Seq<char> = if d.neg {
        seq!['-']
    } else {
        Seq::empty()
    };
    if d.digits == 0 {
        let a = digits_of(d.mag as nat);
        lemma_digits_of_val(d.mag as nat);
        lemma_digits_of_len(d.mag as nat, MAX_DIGITS as nat);
        assert(t =~= sign + a);
        assert(lit_body(t) =~= a);
        assert(lit_neg(t) == d.neg);
        assert(body_ok(a));
        if exists|i: int| dot_split_at(a, i) {
            let i = choose|i: int| dot_split_at(a, i);
            assert(is_digit(a[i]));
        }
        assert(lit_mantissa(t) == d.mag);
        assert(lit_frac(t) == 0);
    } else {
        let p = pow10(d.digits as nat);
        crate::decimal::lemma_pow10_pos(d.digits as nat);
        let ipn = (d.mag as int / p) as nat;
        let fpn = (d.mag as int % p) as nat;
        let a = digits_of(ipn);
        let b = padded(fpn, d.digits as nat);
        lemma_digits_of_val(ipn);
        vstd::arithmetic::div_mod::lemma_mod_pos_bound(d.mag as int, p);
        lemma_padded_val(fpn, d.digits as nat);
        lemma_pow_adds(10, (MAX_DIGITS - d.digits) as nat, d.digits as nat);
        lemma_multiply_divide_lt(d.mag as int, p, pow10((MAX_DIGITS - d.digits) as nat));
        lemma_digits_of_len(ipn, (MAX_DIGITS - d.digits) as nat);
        let body = a + seq!['.'] + b;
        assert(t =~= sign + body);
        assert(lit_body(t) =~= body);
        assert(lit_neg(t) == d.neg);
        let i = a.len() as int;
        assert(body[i] == '.');
        assert(body.take(i) =~= a);
        assert(body.skip(i + 1) =~= b);
        assert(dot_split_at(body, i));
        let w = choose|i0: int| dot_split_at(body, i0);
        lemma_dot_unique(body, w, i);
        assert(body.take(w) + body.skip(w + 1) =~= a + b);
        lemma_digits_val_concat(a, b);
        assert(p * (d.mag as int / p) + (d.mag as int % p) == d.mag) by {
            lemma_fundamental_div_mod(d.mag as int, p);
        }
        assert(digits_val(a) * pow10(b.len()) == ipn * p) by (nonlinear_arith)
            requires
                digits_val(a) == ipn,
                pow10(b.len()) == p,
        ;
        assert(lit_mantissa(t) == d.mag);
        assert(lit_frac(t) == d.digits);
        assert(lit_ok(t));
    }
}

/// Law: every numeric field of a well-formed report, once formatted,
/// re-parses to exactly the sign, mantissa and scale it was formatted
/// from, so re-reading the report's figures recovers the values.
pub proof fn lemma_report_round_trip(rep: AngleStablecoinReport)
    requires
        report_wf(rep),
        rep.total_minted.mag < pow10(MAX_DIGITS as nat),
        rep.total_minted.digits < MAX_DIGITS,
        rep.total_minted_value.mag < pow10(MAX_DIGITS as nat),
        rep.total_minted_value.digits < MAX_DIGITS,
        rep.total_collateralization_ratio matches Some(q) ==> q.mag < pow10(MAX_DIGITS as nat)
            && q.digits < MAX_DIGITS,
        rep.organic_collateralization_ratio matches Some(q) ==> q.mag < pow10(MAX_DIGITS as nat)
            && q.digits < MAX_DIGITS,
    ensures
        lit_ok(dec_text(rep.total_minted)) && lit_neg(dec_text(rep.total_minted))
            == rep.total_minted.neg && lit_mantissa(dec_text(rep.total_minted))
            == rep.total_minted.mag && lit_frac(dec_text(rep.total_minted))
            == rep.total_minted.digits,
        lit_ok(dec_text(rep.total_minted_value)) && lit_mantissa(dec_text(rep.total_minted_value))
            == rep.total_minted_value.mag && lit_frac(dec_text(rep.total_minted_value))
            == rep.total_minted_value.digits,
        rep.total_collateralization_ratio matches Some(q) ==> lit_ok(dec_text(q)) && lit_neg(
            dec_text(q),
        ) == q.neg && lit_mantissa(dec_text(q)) == q.mag && lit_frac(dec_text(q)) == q.digits,
        rep.organic_collateralization_ratio matches Some(q) ==> lit_ok(dec_text(q)) && lit_neg(
            dec_text(q),
        ) == q.neg && lit_mantissa(dec_text(q)) == q.mag && lit_frac(dec_text(q)) == q.digits,
        digits_val(strip_commas(grouped(digits_of(rep.total_minted.mag as nat))))
            == rep.total_minted.mag,
{
    lemma_dec_text_parse(rep.total_minted);
    lemma_dec_text_parse(rep.total_minted_value);
    if let Some(q) = rep.total_collateralization_ratio {
        lemma_dec_text_parse(q);
    }
    if let Some(q) = rep.organic_collateralization_ratio {
        lemma_dec_text_parse(q);
    }
    lemma_grouped_round_trip(rep.total_minted.mag as nat);
}

/// The digit character of a value below ten, as a one-character string.
fn digit_str(d: u128) -> (r: &'static str)
    requires
        d < 10,
    ensures
        r@ == seq![digit_char(d as nat)],
{
    let r: &'static str = match d {
        0 => "0",
        1 => "1",
        2 => "2",
        3 => "3",
        4 => "4",
        5 => "5",
        6 => "6",
        7 => "7",
        8 => "8",
        _ => "9",
    };
    proof {
        reveal_strlit("0");
        reveal_strlit("1");
        reveal_strlit("2");
        reveal_strlit("3");
        reveal_strlit("4");
        reveal_strlit("5");
        reveal_strlit("6");
        reveal_strlit("7");
        reveal_strlit("8");
        reveal_strlit("9");
        assert(r@ =~= seq![digit_char(d as nat)]);
    }
    r
}

/// The decimal digits of `n`, most significant first.
pub fn fmt_u128(n: u128) -> (r: String)
    ensures
        r@ == digits_of(n as nat),
    decreases n,
{
    if n < 10 {
        digit_str(n).to_owned()
    } else {
        let mut s = fmt_u128(n / 10);
        s.append(digit_str(n % 10));
        proof {
            assert(digits_of((n / 10) as nat) + seq![digit_char((n % 10) as nat)] =~= digits_of(
                (n / 10) as nat,
            ).push(digit_char((n % 10) as nat)));
        }
        s
    }
}

/// The last `k` digits of `m`, zero-padded to width `k`.
fn fmt_padded(m: u128, k: u32) -> (r: String)
    ensures
        r@ == padded(m as nat, k as nat),
    decreases k,
{
    if k == 0 {
        String::new()
    } else {
        let mut s = fmt_padded(m / 10, k - 1);
        s.append(digit_str(m % 10));
        proof {
            assert(padded((m / 10) as nat, (k - 1) as nat) + seq![digit_char((m % 10) as nat)]
                =~= padded((m / 10) as nat, (k - 1) as nat).push(digit_char((m % 10) as nat)));
        }
        s
    }
}

/// Regroups a digit string with commas, three digits from the right.
fn group_str(s: &str) -> (r: String)
    ensures
        r@ == grouped(s@),
    decreases s@.len(),
{
    let len: usize = s.unicode_len();
    if len <= 3 {
        s.to_owned()
    } else {
        let left = s.substring_char(0, len - 3);
        let right = s.substring_char(len - 3, len);
        let mut g = group_str(left);
        g.append(",");
        g.append(right);
        proof {
            reveal_strlit(",");
            assert(","@ =~= seq![',']);
            assert(left@ =~= s@.take(s@.len() - 3));
            assert(right@ =~= s@.skip(s@.len() - 3));
        }
        g
    }
}

/// A number with thousands separators: the verified counterpart of the
/// delivery formatting the report's minted figures use.
pub fn format_grouped(n: u128) -> (r: String)
    ensures
        r@ == grouped(digits_of(n as nat)),
{
    let s = fmt_u128(n);
    group_str(s.as_str())
}

/// A decimal value as text: sign, integer digits, and — at a nonzero
/// scale — a point and exactly `digits` fraction digits.
pub fn fmt_dec(d: &Dec) -> (r: String)
    requires
        d.wf(),
    ensures
        r@ == dec_text(*d),
{
    let mut s = String::new();
    if d.neg {
        s.append("-");
        proof {
            reveal_strlit("-");
        }
    }
    proof {
        assert(s@ =~= (if d.neg {
            seq!['-']
        } else {
            Seq::<char>::empty()
        }));
    }
    if d.digits == 0 {
        s.append(fmt_u128(d.mag).as_str());
        s
    } else {
        let f = pow10_u128(d.digits);
        proof {
            crate::decimal::lemma_pow10_pos(d.digits as nat);
        }
        s.append(fmt_u128(d.mag / f).as_str());
        s.append(".");
        s.append(fmt_padded(d.mag % f, d.digits).as_str());
        proof {
            reveal_strlit(".");
            assert("."@ =~= seq!['.']);
        }
        s
    }
}

/// A scale-zero value with thousands separators.
pub fn fmt_dec_grouped(d: &Dec) -> (r: String)
    requires
        d.wf(),
    ensures
        r@ == dec_grouped_text(*d),
{
    let mut s = String::new();
    if d.neg {
        s.append("-");
        proof {
            reveal_strlit("-");
        }
    }
    proof {
        assert(s@ =~= (if d.neg {
            seq!['-']
        } else {
            Seq::<char>::empty()
        }));
    }
    s.append(format_grouped(d.mag).as_str());
    s
}

/// A ratio as text, or the word for an undefined one.
fn fmt_opt_ratio(o: &Option<Dec>) -> (r: String)
    requires
        o matches Some(d) ==> d.wf(),
    ensures
        r@ == opt_ratio_text(*o),
{
    match o {
        Some(d) => fmt_dec(d),
        None => {
            let s: &'static str = "undefined";
            s.to_owned()
        },
    }
}

/// One asset's block of the report text.
pub open spec fn asset_block(cr: CollateralReport) -> Seq<char> {
    "-----------\n"@ + "Asset - "@ + cr.asset_name@ + "\n"@
        + "Percentage of volatility hedged: "@ + opt_ratio_text(cr.hedge_ratio) + "%\n"@
        + "Organic TVL: $"@ + dec_text(cr.organic_tvl_value) + "\n"@ + "Total TVL: $"@ + dec_text(
        cr.total_tvl_value,
    ) + "\n"@
}

/// The per-asset blocks, in report order.
pub open spec fn blocks(rs: Seq<CollateralReport>) -> Seq<char>
    decreases rs.len(),
{
    if rs.len() == 0 {
        Seq::empty()
    } else {
        blocks(rs.drop_last()) + asset_block(rs.last())
    }
}

/// The whole report as one text block: a title, a separator, the
/// portfolio totals and ratios, then one block per asset.
pub open spec fn report_text(rep: AngleStablecoinReport) -> Seq<char> {
    "Daily Angle Report\n"@ + "-----------\n"@ + "Total agEUR minted: "@ + dec_grouped_text(
        rep.total_minted,
    ) + " ($"@ + dec_grouped_text(rep.total_minted_value) + ")\n"@
        + "Total collateralization ratio: "@ + opt_ratio_text(rep.total_collateralization_ratio)
        + "\n"@ + "Organic collateralization ratio: "@ + opt_ratio_text(
        rep.organic_collateralization_ratio,
    ) + "\n"@ + blocks(rep.collateral_reports@)
}

/// Whether every decimal of the report is well-formed, so that each can
/// be rendered.
pub open spec fn report_wf(rep: AngleStablecoinReport) -> bool {
    &&& rep.total_minted.wf()
    &&& rep.total_minted_value.wf()
    &&& (rep.total_collateralization_ratio matches Some(q) ==> q.wf())
    &&& (rep.organic_collateralization_ratio matches Some(q) ==> q.wf())
    &&& forall|i: int|
        0 <= i < rep.collateral_reports@.len() ==> {
            &&& ((#[trigger] rep.collateral_reports@[i]).hedge_ratio matches Some(h) ==> h.wf())
            &&& rep.collateral_reports@[i].organic_tvl_value.wf()
            &&& rep.collateral_reports@[i].total_tvl_value.wf()
        }
}

/// One asset's block of the report, as text.
fn fmt_asset_block(cr: &CollateralReport) -> (r: String)
    requires
        cr.hedge_ratio matches Some(h) ==> h.wf(),
        cr.organic_tvl_value.wf(),
        cr.total_tvl_value.wf(),
    ensures
        r@ == asset_block(*cr),
{
    let mut s: String = "-----------\n".to_owned();
    s.append("Asset - ");
    s.append(cr.asset_name.as_str());
    s.append("\n");
    s.append("Percentage of volatility hedged: ");
    s.append(fmt_opt_ratio(&cr.hedge_ratio).as_str());
    s.append("%\n");
    s.append("Organic TVL: $");
    s.append(fmt_dec(&cr.organic_tvl_value).as_str());
    s.append("\n");
    s.append("Total TVL: $");
    s.append(fmt_dec(&cr.total_tvl_value).as_str());
    s.append("\n");
    proof {
        assert(s@ =~= asset_block(*cr));
    }
    s
}

/// Renders the finished report as the text block handed to the delivery
/// sink: title, separator, portfolio totals and ratios, then one block
/// per asset, in report order. An undefined ratio is written out as
/// undefined, never as a numeric placeholder.
#[verifier::loop_isolation(false)]
#[verifier::rlimit(100)]
pub fn format_report(rep: &AngleStablecoinReport) -> (r: String)
    requires
        report_wf(*rep),
    ensures
        r@ == report_text(*rep),
{
    let mut s: String = "Daily Angle Report\n".to_owned();
    s.append("-----------\n");
    s.append("Total agEUR minted: ");
    s.append(fmt_dec_grouped(&rep.total_minted).as_str());
    s.append(" ($");
    s.append(fmt_dec_grouped(&rep.total_minted_value).as_str());
    s.append(")\n");
    s.append("Total collateralization ratio: ");
    s.append(fmt_opt_ratio(&rep.total_collateralization_ratio).as_str());
    s.append("\n");
    s.append("Organic collateralization ratio: ");
    s.append(fmt_opt_ratio(&rep.organic_collateralization_ratio).as_str());
    s.append("\n");
    let ghost head = s@;
    let n: usize = rep.collateral_reports.len();
    let mut idx: usize = 0;
    proof {
        assert(rep.collateral_reports@.take(0) =~= Seq::<CollateralReport>::empty());
    }
    while idx < n
        invariant
            report_wf(*rep),
            n == rep.collateral_reports@.len(),
            0 <= idx <= n,
            s@ == head + blocks(rep.collateral_reports@.take(idx as int)),
        decreases n - idx,
    {
        let cr = &rep.collateral_reports[idx];
        proof {
            assert(rep.collateral_reports@.take(idx + 1).drop_last() =~= rep.collateral_reports@
                .take(idx as int));
            assert(rep.collateral_reports@.take(idx + 1).last() == rep.collateral_reports@[
            idx as int]);
        }
        s.append(fmt_asset_block(cr).as_str());
        idx = idx + 1;
    }
    proof {
        assert(rep.collateral_reports@.take(n as int) =~= rep.collateral_reports@);
        assert(s@ =~= report_text(*rep));
    }
    s
}

} // verus!
