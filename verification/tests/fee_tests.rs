//! Fee arithmetic: exact values, the round trip, and overflow rejection.
use nft_bid_market::common::MarketError;
use nft_bid_market::fee::{
    calculate_actual_amount, calculate_origins, calculate_price_with_fees, PAYOUT_TOTAL_VALUE,
    PROTOCOL_FEE,
};

#[test]
fn constants_are_the_documented_percentages() {
    assert_eq!(PAYOUT_TOTAL_VALUE, 10_000);
    assert_eq!(PROTOCOL_FEE, 300);
}

#[test]
fn price_with_fees_without_origins() {
    // 10_000 * 10_300 / 10_000 = 10_300: the buyer pays 3% on top.
    assert_eq!(calculate_price_with_fees(10_000, None), Ok(10_300));
    assert_eq!(calculate_price_with_fees(1, None), Ok(1));
    assert_eq!(calculate_price_with_fees(0, None), Ok(0));
}

#[test]
fn price_with_fees_with_origins() {
    let origins = vec![("origin1".to_string(), 100u32)];
    // 10_000 * (10_000 + 300 + 100) / 10_000 = 10_400.
    assert_eq!(calculate_price_with_fees(10_000, Some(&origins)), Ok(10_400));
}

#[test]
fn price_with_fees_overflow_is_rejected() {
    assert_eq!(
        calculate_price_with_fees(u128::MAX / 2, None),
        Err(MarketError::Overflow)
    );
}

#[test]
fn actual_amount_strips_the_fees() {
    // 10_300 - 10_300 * 300 / 10_300 = 10_000.
    assert_eq!(calculate_actual_amount(10_300, 0), 10_000);
    // 10_400 - 10_400 * 400 / 10_400 = 10_000.
    assert_eq!(calculate_actual_amount(10_400, 100), 10_000);
}

#[test]
fn round_trip_is_exact_on_samples() {
    for &p in &[0u128, 1, 2, 3, 9_999, 10_000, 123_456_789, 1_000_000_000_000] {
        for &w in &[0u32, 1, 100, 250, 4_699] {
            let origins = vec![("o".to_string(), w)];
            let gross = calculate_price_with_fees(p, Some(&origins)).unwrap();
            let back = calculate_actual_amount(gross, w);
            assert!(back == p || (p > 0 && back == p - 1), "p={} w={} back={}", p, w, back);
            assert_eq!(back, p);
        }
    }
}

#[test]
fn origins_total_is_the_sum() {
    let origins = vec![
        ("a".to_string(), 100u32),
        ("b".to_string(), 250u32),
        ("c".to_string(), 4_000u32),
    ];
    assert_eq!(calculate_origins(&origins), Ok(4_350));
    assert_eq!(calculate_origins(&Vec::new()), Ok(0));
}

#[test]
fn origins_total_overflow_is_rejected() {
    let origins = vec![
        ("a".to_string(), u32::MAX),
        ("b".to_string(), u32::MAX),
    ];
    assert_eq!(calculate_origins(&origins), Err(MarketError::Overflow));
}
