use gazelle::decimal::Dec;
use gazelle::normalize::of_integer_string;
use gazelle::report::{AngleStablecoinReport, CollateralReport};
use gazelle::text::{fmt_dec, fmt_u128, format_grouped, format_report};

#[test]
fn fmt_u128_writes_plain_digits() {
    assert_eq!(fmt_u128(0).as_str(), "0");
    assert_eq!(fmt_u128(7).as_str(), "7");
    assert_eq!(fmt_u128(1234567).as_str(), "1234567");
}

#[test]
fn format_grouped_separates_thousands() {
    assert_eq!(format_grouped(0).as_str(), "0");
    assert_eq!(format_grouped(123).as_str(), "123");
    assert_eq!(format_grouped(1234).as_str(), "1,234");
    assert_eq!(format_grouped(1050000).as_str(), "1,050,000");
    assert_eq!(format_grouped(1000000000).as_str(), "1,000,000,000");
}

#[test]
fn fmt_dec_writes_scale_many_fraction_digits() {
    assert_eq!(fmt_dec(&Dec::from_u128(42, 0)).as_str(), "42");
    assert_eq!(fmt_dec(&Dec::from_u128(9000, 2)).as_str(), "90.00");
    assert_eq!(fmt_dec(&Dec::from_u128(1050, 3)).as_str(), "1.050");
    assert_eq!(fmt_dec(&Dec::from_u128(5, 2)).as_str(), "0.05");
    assert_eq!(fmt_dec(&Dec::from_parts(true, 12345, 2)).as_str(), "-123.45");
}

// Formatting a figure and re-parsing it recovers the value exactly.
#[test]
fn formatted_figures_parse_back_unchanged() {
    let samples = vec![
        Dec::from_u128(0, 0),
        Dec::from_u128(42, 0),
        Dec::from_u128(9000, 2),
        Dec::from_u128(1050, 3),
        Dec::from_u128(5, 2),
        Dec::from_parts(true, 12345, 2),
        Dec::from_u128(1050000, 0),
    ];
    for d in samples {
        let text = fmt_dec(&d);
        let back = of_integer_string(text.as_str(), 0).unwrap();
        assert_eq!(back, d, "{}", text);
    }
}

// A grouped figure, separators removed, parses back to the same number.
#[test]
fn grouped_figures_parse_back_once_stripped() {
    for n in [0u128, 5, 999, 1000, 1050000, 123456789] {
        let text = format_grouped(n);
        let stripped: String = text.chars().filter(|c| *c != ',').collect();
        let back = of_integer_string(stripped.as_str(), 0).unwrap();
        assert_eq!(back.magnitude(), n);
        assert!(!back.is_negative());
    }
}

fn sample_report() -> AngleStablecoinReport {
    AngleStablecoinReport {
        total_minted: Dec::from_u128(1000000, 0),
        total_minted_value: Dec::from_u128(1050000, 0),
        organic_tvl: Dec::from_u128(100, 0),
        total_tvl: Dec::from_u128(100, 0),
        organic_collateralization_ratio: None,
        total_collateralization_ratio: Some(Dec::from_u128(105, 2)),
        collateral_reports: vec![
            CollateralReport::new(
                "USDC".to_string(),
                Some(Dec::from_u128(9000, 2)),
                Dec::from_u128(100, 0),
                Dec::from_u128(100, 0),
                Dec::from_u128(0, 0),
                Dec::from_u128(0, 0),
                Dec::from_u128(100, 0),
                Dec::from_u128(100, 0),
            ),
        ],
        omitted_assets: vec![],
    }
}

#[test]
fn report_renders_as_the_expected_text_block() {
    let expected = "Daily Angle Report\n-----------\nTotal agEUR minted: 1,000,000 ($1,050,000)\nTotal collateralization ratio: 1.05\nOrganic collateralization ratio: undefined\n-----------\nAsset - USDC\nPercentage of volatility hedged: 90.00%\nOrganic TVL: $100\nTotal TVL: $100\n";
    assert_eq!(format_report(&sample_report()).as_str(), expected);
}

#[test]
fn report_numeric_fields_round_trip_through_their_text() {
    let rep = sample_report();
    let minted_back =
        of_integer_string(fmt_dec(&rep.total_minted).as_str(), 0).unwrap();
    assert_eq!(minted_back, rep.total_minted);
    let ratio = rep.total_collateralization_ratio.unwrap();
    let ratio_back = of_integer_string(fmt_dec(&ratio).as_str(), 0).unwrap();
    assert_eq!(ratio_back, ratio);
    let hedge = rep.collateral_reports[0].hedge_ratio().unwrap();
    let hedge_back = of_integer_string(fmt_dec(&hedge).as_str(), 0).unwrap();
    assert_eq!(hedge_back.rescale(2), hedge);
}
