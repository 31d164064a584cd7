use gazelle::decimal::Dec;
use gazelle::errors::Error;
use gazelle::report::{create_report, CollateralRecord, Policy, StableRecord};

fn record(name: &str) -> CollateralRecord {
    CollateralRecord {
        collat_name: Some(name.to_string()),
        decimals: Some("6".to_string()),
        stock_slp: Some("0".to_string()),
        stock_user: Some("500000000000000000000".to_string()),
        total_asset: Some("100000000".to_string()),
        total_hedge_amount: Some("450000000000000000000".to_string()),
        total_margin: Some("0".to_string()),
    }
}

fn minted_million() -> Option<String> {
    Some("1000000000000000000000000".to_string())
}

fn rate_1_050() -> Dec {
    Dec::from_u128(1050, 3)
}

fn unit_price() -> Option<Dec> {
    Some(Dec::from_u128(1000, 3))
}

#[test]
fn minted_million_at_rate_1_050_is_worth_1_050_000() {
    let stable = StableRecord { total_minted: minted_million(), collaterals: vec![] };
    let prices: Vec<Option<Dec>> = vec![];
    let rep = create_report(&stable, &prices, &rate_1_050(), Policy::FailFast).unwrap();
    assert_eq!(rep.total_minted().magnitude(), 1000000);
    assert_eq!(rep.total_minted().scale(), 0);
    assert_eq!(rep.total_minted_value().magnitude(), 1050000);
    assert_eq!(rep.total_minted_value().scale(), 0);
}

#[test]
fn report_computes_per_asset_metrics() {
    let stable = StableRecord { total_minted: minted_million(), collaterals: vec![record("USDC")] };
    let prices = vec![unit_price()];
    let rep = create_report(&stable, &prices, &rate_1_050(), Policy::FailFast).unwrap();
    assert_eq!(rep.collateral_reports().len(), 1);
    let cr = &rep.collateral_reports()[0];
    assert_eq!(cr.asset_name().as_str(), "USDC");
    let hedge = cr.hedge_ratio().unwrap();
    assert_eq!(hedge.scale(), 2);
    assert_eq!(hedge.magnitude(), 9000);
    assert_eq!(cr.organic_tvl().magnitude(), 100);
    assert_eq!(cr.organic_tvl_value().magnitude(), 100);
    assert_eq!(cr.slp_tvl().magnitude(), 0);
    assert_eq!(cr.total_tvl().magnitude(), 100);
    assert_eq!(cr.total_tvl_value().magnitude(), 100);
    assert!(rep.omitted_assets().is_empty());
}

#[test]
fn zero_stock_makes_hedge_ratio_undefined_without_dropping_the_asset() {
    let mut rec = record("USDC");
    rec.stock_user = Some("0".to_string());
    let stable = StableRecord { total_minted: minted_million(), collaterals: vec![rec] };
    let prices = vec![unit_price()];
    let rep = create_report(&stable, &prices, &rate_1_050(), Policy::FailFast).unwrap();
    assert_eq!(rep.collateral_reports().len(), 1);
    assert!(rep.collateral_reports()[0].hedge_ratio().is_none());
    assert!(rep.omitted_assets().is_empty());
}

#[test]
fn report_preserves_source_order() {
    let stable = StableRecord {
        total_minted: minted_million(),
        collaterals: vec![record("B"), record("A")],
    };
    let prices = vec![unit_price(), unit_price()];
    let rep = create_report(&stable, &prices, &rate_1_050(), Policy::FailFast).unwrap();
    assert_eq!(rep.collateral_reports().len(), 2);
    assert_eq!(rep.collateral_reports()[0].asset_name().as_str(), "B");
    assert_eq!(rep.collateral_reports()[1].asset_name().as_str(), "A");
}

#[test]
fn missing_minted_supply_is_fatal() {
    let stable = StableRecord { total_minted: None, collaterals: vec![] };
    let prices: Vec<Option<Dec>> = vec![];
    match create_report(&stable, &prices, &rate_1_050(), Policy::FailFast) {
        Err(Error::MissingField { expected_field }) => assert_eq!(expected_field, "totalMinted"),
        other => panic!("unexpected: {:?}", other),
    }
}

#[test]
fn malformed_minted_supply_is_fatal() {
    let stable = StableRecord { total_minted: Some("12x".to_string()), collaterals: vec![] };
    let prices: Vec<Option<Dec>> = vec![];
    match create_report(&stable, &prices, &rate_1_050(), Policy::FailFast) {
        Err(Error::MalformedNumber { expected_field }) => assert_eq!(expected_field, "totalMinted"),
        other => panic!("unexpected: {:?}", other),
    }
}

#[test]
fn fail_fast_reports_the_first_failing_assets_error() {
    let mut bad = record("DAI");
    bad.total_asset = None;
    let stable = StableRecord {
        total_minted: minted_million(),
        collaterals: vec![record("USDC"), bad],
    };
    let prices = vec![unit_price(), unit_price()];
    match create_report(&stable, &prices, &rate_1_050(), Policy::FailFast) {
        Err(Error::MissingField { expected_field }) => assert_eq!(expected_field, "totalAsset"),
        other => panic!("unexpected: {:?}", other),
    }
}

#[test]
fn drop_policy_records_the_omitted_asset() {
    let mut bad = record("DAI");
    bad.total_asset = None;
    let stable = StableRecord {
        total_minted: minted_million(),
        collaterals: vec![record("USDC"), bad],
    };
    let prices = vec![unit_price(), unit_price()];
    let rep = create_report(&stable, &prices, &rate_1_050(), Policy::DropAsset).unwrap();
    assert_eq!(rep.collateral_reports().len(), 1);
    assert_eq!(rep.collateral_reports()[0].asset_name().as_str(), "USDC");
    assert_eq!(rep.omitted_assets(), &vec![1]);
}

#[test]
fn unavailable_price_fails_the_asset_as_upstream() {
    let stable = StableRecord { total_minted: minted_million(), collaterals: vec![record("USDC")] };
    let prices = vec![None];
    match create_report(&stable, &prices, &rate_1_050(), Policy::FailFast) {
        Err(Error::UpstreamUnavailable) => {},
        other => panic!("unexpected: {:?}", other),
    }
}

#[test]
fn zero_minted_value_leaves_ratios_undefined() {
    let stable = StableRecord {
        total_minted: Some("0".to_string()),
        collaterals: vec![record("USDC")],
    };
    let prices = vec![unit_price()];
    let rep = create_report(&stable, &prices, &rate_1_050(), Policy::FailFast).unwrap();
    assert!(rep.total_collateralization_ratio().is_none());
    assert!(rep.organic_collateralization_ratio().is_none());
}

#[test]
fn ratios_divide_collateral_value_by_minted_value() {
    // Minted 100 at rate 1.000; one asset worth 120 at price 1.000:
    // both ratios are 1.20.
    let mut rec = record("USDC");
    rec.total_asset = Some("120000000".to_string());
    let stable = StableRecord {
        total_minted: Some("100000000000000000000".to_string()),
        collaterals: vec![rec],
    };
    let prices = vec![unit_price()];
    let rate = Dec::from_u128(1000, 3);
    let rep = create_report(&stable, &prices, &rate, Policy::FailFast).unwrap();
    let tot = rep.total_collateralization_ratio().unwrap();
    assert_eq!(tot.scale(), 2);
    assert_eq!(tot.magnitude(), 120);
    let org = rep.organic_collateralization_ratio().unwrap();
    assert_eq!(org.magnitude(), 120);
    assert_eq!(rep.organic_tvl().magnitude(), 120);
    assert_eq!(rep.total_tvl().magnitude(), 120);
}

#[test]
fn organic_excludes_program_and_margin_amounts() {
    // total 100, program 60, margin 50: organic clamps at zero while the
    // total stays 100.
    let mut rec = record("USDC");
    rec.stock_slp = Some("60000000000000000000000000".to_string());
    rec.total_margin = Some("50000000".to_string());
    let stable = StableRecord { total_minted: minted_million(), collaterals: vec![rec] };
    let prices = vec![unit_price()];
    let rep = create_report(&stable, &prices, &rate_1_050(), Policy::FailFast).unwrap();
    let cr = &rep.collateral_reports()[0];
    assert_eq!(cr.slp_tvl().magnitude(), 60);
    assert_eq!(cr.organic_tvl().magnitude(), 0);
    assert_eq!(cr.total_tvl().magnitude(), 100);
}
