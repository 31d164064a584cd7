use gazelle::decimal::Dec;
use gazelle::errors::Error;
use gazelle::normalize::{normalize, of_integer_string, RawAmount};
use gazelle::ratio::{collateralization_ratio, hedge_ratio, organic_amount};
use gazelle::valuer::{
    aggregate_position, contains_str, value_direct, value_pool_share, value_stable_pool_share,
    venue_contribution, Venue, VenueFigures,
};

fn amount(m: u128) -> Dec {
    Dec::from_u128(m, 0)
}

fn price(m: u128) -> Dec {
    Dec::from_u128(m, 3)
}

#[test]
fn rescale_pads_upward_exactly() {
    let d = amount(5).rescale(2);
    assert_eq!(d.scale(), 2);
    assert_eq!(d.magnitude(), 500);
    assert!(!d.is_negative());
}

#[test]
fn rescale_rounds_half_away_from_zero() {
    assert_eq!(Dec::from_u128(125, 1).rescale(0).magnitude(), 13);
    assert_eq!(Dec::from_u128(124, 1).rescale(0).magnitude(), 12);
    let n = Dec::from_parts(true, 125, 1).rescale(0);
    assert!(n.is_negative());
    assert_eq!(n.magnitude(), 13);
}

#[test]
fn add_and_sub_handle_signs() {
    let a = Dec::from_parts(true, 30, 0);
    let b = amount(50);
    let s = a.add(b);
    assert!(!s.is_negative());
    assert_eq!(s.magnitude(), 20);
    let d = amount(30).sub(amount(50));
    assert!(d.is_negative());
    assert_eq!(d.magnitude(), 20);
}

#[test]
fn mul_multiplies_mantissas_and_adds_scales() {
    let p = Dec::from_parts(true, 3, 0).mul(Dec::from_u128(4, 1));
    assert!(p.is_negative());
    assert_eq!(p.magnitude(), 12);
    assert_eq!(p.scale(), 1);
}

#[test]
fn div_rescale_rounds_at_requested_scale() {
    let q = amount(1).div_rescale(amount(3), 2).unwrap();
    assert_eq!(q.scale(), 2);
    assert_eq!(q.magnitude(), 33);
    let h = amount(1).div_rescale(amount(2), 0).unwrap();
    assert_eq!(h.magnitude(), 1);
}

#[test]
fn div_by_zero_is_an_error_not_a_sentinel() {
    assert!(matches!(amount(5).div_rescale(amount(0), 2), Err(Error::DivisionByZero)));
}

#[test]
fn normalize_divides_by_scale_and_offset() {
    let raw = Some(RawAmount { magnitude: "1000000000000000000000000".to_string(), decimals: 18 });
    let d = normalize(&raw, "totalMinted", 0).unwrap();
    assert_eq!(d.scale(), 0);
    assert_eq!(d.magnitude(), 1000000);

    let raw = Some(RawAmount { magnitude: "5000000000000000000000000".to_string(), decimals: 6 });
    let d = normalize(&raw, "stockSLP", 18).unwrap();
    assert_eq!(d.magnitude(), 5);
}

#[test]
fn normalize_rounds_half_away_and_keeps_sign() {
    let raw = Some(RawAmount { magnitude: "1235".to_string(), decimals: 1 });
    assert_eq!(normalize(&raw, "x", 0).unwrap().magnitude(), 124);
    let raw = Some(RawAmount { magnitude: "-1235".to_string(), decimals: 1 });
    let d = normalize(&raw, "x", 0).unwrap();
    assert!(d.is_negative());
    assert_eq!(d.magnitude(), 124);
}

#[test]
fn normalize_with_huge_divisor_rounds_to_zero() {
    let raw = Some(RawAmount { magnitude: "123456".to_string(), decimals: 50 });
    let d = normalize(&raw, "x", 18).unwrap();
    assert!(d.is_zero());
}

#[test]
fn normalize_reports_missing_field_by_name() {
    match normalize(&None, "totalMinted", 0) {
        Err(Error::MissingField { expected_field }) => assert_eq!(expected_field, "totalMinted"),
        other => panic!("unexpected: {:?}", other),
    }
}

#[test]
fn normalize_reports_malformed_number_by_name() {
    let raw = Some(RawAmount { magnitude: "12a".to_string(), decimals: 0 });
    match normalize(&raw, "stockUser", 0) {
        Err(Error::MalformedNumber { expected_field }) => assert_eq!(expected_field, "stockUser"),
        other => panic!("unexpected: {:?}", other),
    }
}

#[test]
fn of_integer_string_reads_literals_exactly() {
    let d = of_integer_string("12.5", 1).unwrap();
    assert_eq!(d.magnitude(), 125);
    assert_eq!(d.scale(), 2);
    assert!(!d.is_negative());
    let d = of_integer_string("00123", 0).unwrap();
    assert_eq!(d.magnitude(), 123);
    let d = of_integer_string("-0", 0).unwrap();
    assert!(d.is_zero());
    assert!(!d.is_negative());
}

#[test]
fn of_integer_string_rejects_malformed_literals() {
    for s in ["", "-", ".", "12.", ".5", "1.2.3", "12a", "+5"] {
        assert!(matches!(of_integer_string(s, 0), Err(Error::MalformedNumber { .. })), "{}", s);
    }
}

#[test]
fn of_integer_string_enforces_mantissa_capacity() {
    let thirty_eight = "9".repeat(38);
    assert!(of_integer_string(&thirty_eight, 0).is_ok());
    let thirty_nine = "9".repeat(39);
    assert!(of_integer_string(&thirty_nine, 0).is_err());
}

// A normalized value is already at scale zero: rescaling it to zero once
// or twice changes nothing.
#[test]
fn normalize_then_rescale_zero_is_idempotent() {
    let raw = Some(RawAmount { magnitude: "123456789".to_string(), decimals: 3 });
    let d = normalize(&raw, "x", 0).unwrap();
    assert_eq!(d.rescale(0), d);
    assert_eq!(d.rescale(0).rescale(0), d.rescale(0));
}

#[test]
fn hedge_ratio_of_450_over_500_is_90_percent() {
    let q = hedge_ratio(&amount(450), &amount(500)).unwrap();
    assert_eq!(q.scale(), 2);
    assert_eq!(q.magnitude(), 9000);
    assert!(!q.is_negative());
}

#[test]
fn hedge_ratio_on_zero_stock_fails_with_division_by_zero() {
    assert!(matches!(hedge_ratio(&amount(450), &amount(0)), Err(Error::DivisionByZero)));
}

#[test]
fn collateralization_ratio_is_backing_over_minted() {
    let q = collateralization_ratio(&amount(1200), &amount(1000)).unwrap();
    assert_eq!(q.scale(), 2);
    assert_eq!(q.magnitude(), 120);
}

#[test]
fn collateralization_ratio_on_zero_minted_fails_with_division_by_zero() {
    assert!(matches!(
        collateralization_ratio(&amount(1200), &amount(0)),
        Err(Error::DivisionByZero)
    ));
}

#[test]
fn organic_amount_clamps_at_zero() {
    let r = organic_amount(&amount(100), &amount(60), &amount(50));
    assert!(r.is_zero());
    assert!(!r.is_negative());
}

#[test]
fn organic_amount_subtracts_when_positive() {
    let r = organic_amount(&amount(200), &amount(60), &amount(50));
    assert_eq!(r.magnitude(), 90);
}

#[test]
fn value_direct_multiplies_balance_by_price() {
    let v = value_direct(&amount(100), &price(1050));
    assert_eq!(v.scale(), 3);
    assert_eq!(v.magnitude(), 105000);
}

#[test]
fn pool_share_with_zero_owned_contributes_zero_without_error() {
    let q = value_pool_share(&amount(0), &amount(1000), &amount(500)).unwrap();
    assert!(q.is_zero());
}

#[test]
fn pool_share_with_full_ownership_returns_the_balance_exactly() {
    let q = value_pool_share(&amount(1000), &amount(1000), &amount(777)).unwrap();
    assert_eq!(q.magnitude(), 777);
}

#[test]
fn pool_share_with_zero_balance_contributes_zero() {
    let q = value_pool_share(&amount(10), &amount(1000), &amount(0)).unwrap();
    assert!(q.is_zero());
}

#[test]
fn pool_share_with_zero_supply_fails_with_division_by_zero() {
    assert!(matches!(
        value_pool_share(&amount(10), &amount(0), &amount(500)),
        Err(Error::DivisionByZero)
    ));
}

#[test]
fn pool_share_is_pro_rata() {
    let q = value_pool_share(&amount(10), &amount(100), &amount(1000)).unwrap();
    assert_eq!(q.magnitude(), 100);
}

#[test]
fn stable_pool_share_accumulates_staked_rewards() {
    let v = value_stable_pool_share(&amount(10), &Some(amount(5)), &price(1050));
    assert_eq!(v.scale(), 3);
    assert_eq!(v.magnitude(), 15750);
}

#[test]
fn contains_str_finds_substrings() {
    assert!(contains_str("agEUR-LP", "EUR"));
    assert!(contains_str("abc", ""));
    assert!(!contains_str("ab", "abc"));
    assert!(!contains_str("somethingelse", "USDC"));
}

#[test]
fn unavailable_venue_is_an_error_under_its_name() {
    let v = Venue { name: "deadpool".to_string(), symbol: "dp".to_string(), figures: None };
    match venue_contribution(&v, "USDC") {
        Err(Error::VenueUnavailable { venue }) => assert_eq!(venue, "deadpool"),
        other => panic!("unexpected: {:?}", other),
    }
}

#[test]
fn aggregate_position_sums_terms_and_records_omissions() {
    let venues = vec![
        Venue {
            name: "pair".to_string(),
            symbol: "pr".to_string(),
            figures: Some(VenueFigures::ConstantProduct {
                owned_lp: amount(10),
                lp_total_supply: amount(100),
                underlying_balance: amount(1000),
            }),
        },
        Venue {
            name: "crvUSDCpool".to_string(),
            symbol: "crvUSDC".to_string(),
            figures: Some(VenueFigures::StableSwap {
                owned_lp: amount(10),
                staked_rewards: None,
                virtual_price: price(2000),
            }),
        },
        Venue {
            name: "somethingelse".to_string(),
            symbol: "xyz".to_string(),
            figures: Some(VenueFigures::StableSwap {
                owned_lp: amount(10),
                staked_rewards: None,
                virtual_price: price(2000),
            }),
        },
        Venue { name: "deadpool".to_string(), symbol: "dp".to_string(), figures: None },
    ];
    let (total, omitted) =
        aggregate_position(&amount(100), &amount(50), &amount(25), &venues, "USDC").unwrap();
    assert_eq!(total.magnitude(), 295);
    assert_eq!(total.scale(), 0);
    assert_eq!(omitted, vec![3]);
}

#[test]
fn aggregate_position_fails_on_zero_supply_venue() {
    let venues = vec![Venue {
        name: "pair".to_string(),
        symbol: "pr".to_string(),
        figures: Some(VenueFigures::ConstantProduct {
            owned_lp: amount(10),
            lp_total_supply: amount(0),
            underlying_balance: amount(1000),
        }),
    }];
    assert!(matches!(
        aggregate_position(&amount(0), &amount(0), &amount(0), &venues, "USDC"),
        Err(Error::DivisionByZero)
    ));
}
