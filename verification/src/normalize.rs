//! The scale normalizer: turns raw integer-string token amounts, each
//! tagged with a decimals count and an optional protocol scale offset,
//! into decimal values at scale zero.
//!
//! The offset exists because some ledgers record a figure with an extra
//! fixed number of decimals (an observed `+18`) on top of the token's own;
//! it is configured per field by the caller, never inferred.

use vstd::prelude::*;
use vstd::arithmetic::power::{lemma_pow1, lemma_pow_adds, lemma_pow_increases};

use crate::decimal::{
    pow10, pow10_u128, rha_signed, rha_div_u128, lemma_pow10_fits, lemma_pow10_pos, lemma_rha_le,
    lemma_rha_small, Dec, MAX_SCALE,
};
use crate::errors::Error;
use crate::literal::{
    lit_frac, lit_mant_seq, lit_mantissa, lit_neg, lit_num, lit_ok, lemma_digits_val_bound,
    lemma_mant_seq_digits, parse_literal,
};

verus! {

/// A raw amount: an integer-string magnitude and the fixed-point scale it
/// was recorded at.
#[derive(Debug)]
pub struct RawAmount {
    /// The magnitude, as the source wrote it.
    pub magnitude: String,
    /// How many fractional digits the recording convention implies.
    pub decimals: u32,
}

/// The scale-zero mantissa a raw literal normalizes to: its signed value
/// divided by `10^(k + fraction digits)`, rounded half away from zero.
pub open spec fn norm_num(s: Seq<char>, k: nat) -> int {
    rha_signed(lit_num(s), pow10(k + lit_frac(s)))
}

/// Normalizes a raw amount: the literal's value divided by
/// `10^(decimals + protocol_scale_offset)`, rounded half away from zero
/// to a value at scale zero.
///
/// An absent field is reported as `MissingField` under the given name; a
/// string that is not a literal within the mantissa capacity as
/// `MalformedNumber`.
pub fn normalize(raw: &Option<RawAmount>, field_name: &str, protocol_scale_offset: u32) -> (r:
    Result<Dec, Error>)
    ensures
        raw is None ==> (r matches Err(e) && (e matches Error::MissingField { expected_field }
            && expected_field@ == field_name@)),
        raw matches Some(a) ==> {
            &&& lit_ok(a.magnitude@) ==> (r matches Ok(d) && d.wf() && d.digits == 0 && d.num()
                == norm_num(a.magnitude@, (a.decimals + protocol_scale_offset) as nat))
            &&& !lit_ok(a.magnitude@) ==> (r matches Err(e) && (e matches Error::MalformedNumber {
                expected_field,
            } && expected_field@ == field_name@))
        },
{
    match raw {
        None => Err(Error::MissingField { expected_field: field_name.to_owned() }),
        Some(a) => {
            match parse_literal(a.magnitude.as_str()) {
                None => Err(Error::MalformedNumber { expected_field: field_name.to_owned() }),
                Some((ng, mant, frac)) => {
                    let ghost s = a.magnitude@;
                    let ghost e = (a.decimals + protocol_scale_offset) as nat + lit_frac(s);
                    let e64: u64 = a.decimals as u64 + protocol_scale_offset as u64 + frac as u64;
                    proof {
                        lemma_mant_seq_digits(s);
                        lemma_digits_val_bound(lit_mant_seq(s));
                        lemma_pow10_fits(lit_mant_seq(s).len());
                        if lit_mant_seq(s).len() < MAX_SCALE {
                            lemma_pow_increases(10, lit_mant_seq(s).len(), MAX_SCALE as nat);
                        }
                        // mant < pow10(MAX_SCALE)
                    }
                    if e64 > MAX_SCALE as u64 {
                        proof {
                            lemma_pow_adds(10, MAX_SCALE as nat, (e - MAX_SCALE) as nat);
                            lemma_pow10_pos((e - MAX_SCALE) as nat);
                            assert(pow10((e - MAX_SCALE) as nat) >= 10) by {
                                lemma_pow1(10);
                                lemma_pow_increases(10, 1, (e - MAX_SCALE) as nat);
                            }
                            assert(pow10(e) >= pow10(MAX_SCALE as nat) * 2) by (nonlinear_arith)
                                requires
                                    pow10(e) == pow10(MAX_SCALE as nat) * pow10(
                                        (e - MAX_SCALE) as nat,
                                    ),
                                    pow10((e - MAX_SCALE) as nat) >= 10,
                                    pow10(MAX_SCALE as nat) >= 1,
                            ;
                            lemma_rha_small(mant as int, pow10(e));
                        }
                        Ok(Dec::zero(0))
                    } else {
                        let f: u128 = pow10_u128(e64 as u32);
                        proof {
                            lemma_pow10_pos(e);
                        }
                        let m: u128 = rha_div_u128(mant, f);
                        proof {
                            lemma_rha_le(mant as int, f as int);
                        }
                        Ok(Dec::from_parts(ng, m, 0))
                    }
                },
            }
        },
    }
}

/// Builds a decimal value from an integer or decimal literal and a scale:
/// the literal's digits become the mantissa, displayed at `decimals` plus
/// the literal's own fraction digits. Nothing is rounded.
///
/// Fails with `MalformedNumber` exactly when the string is not a literal
/// within the mantissa capacity, or the combined scale exceeds `MAX_SCALE`.
pub fn of_integer_string(s: &str, decimals: u32) -> (r: Result<Dec, Error>)
    ensures
        r is Ok <==> lit_ok(s@) && decimals + lit_frac(s@) <= MAX_SCALE,
        r matches Ok(d) ==> {
            &&& d.wf()
            &&& d.digits == decimals + lit_frac(s@)
            &&& d.num() == lit_num(s@)
        },
        r matches Err(e) ==> (e matches Error::MalformedNumber { expected_field }
            && expected_field@ == s@),
{
    match parse_literal(s) {
        None => Err(Error::MalformedNumber { expected_field: s.to_owned() }),
        Some((ng, mant, frac)) => {
            if decimals > MAX_SCALE || frac > MAX_SCALE - decimals {
                Err(Error::MalformedNumber { expected_field: s.to_owned() })
            } else {
                Ok(Dec::from_parts(ng, mant, decimals + frac))
            }
        },
    }
}

} // verus!
