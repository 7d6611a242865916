use std::str::FromStr;

use st0x_finance::{Float, FractionalShares, HasZero, SharesConversionError, U256};

fn float(text: &str) -> Float {
    Float::parse(text.to_string()).unwrap()
}

fn shares(text: &str) -> FractionalShares {
    FractionalShares::new(float(text))
}

fn u256(text: &str) -> U256 {
    U256::from_limbs(alloy_primitives::U256::from_str(text).unwrap().into_limbs())
}

#[test]
fn add_succeeds() {
    let result = (shares("1") + shares("2")).unwrap();
    assert!(result.inner().eq(float("3")).unwrap());
}

#[test]
fn sub_succeeds() {
    let result = (shares("5") - shares("2")).unwrap();
    assert!(result.inner().eq(float("3")).unwrap());
}

#[test]
fn abs_returns_absolute_value() {
    let result = shares("-1").abs().unwrap();
    assert!(result.inner().eq(float("1")).unwrap());
}

#[test]
fn into_float_extracts_inner_value() {
    let value: Float = shares("42").into();
    assert!(value.eq(float("42")).unwrap());
}

#[test]
fn mul_float_succeeds() {
    let result = (shares("100") * float("0.5")).unwrap();
    assert!(result.inner().eq(float("50")).unwrap());
}

#[test]
fn is_whole_returns_true_for_whole_numbers() {
    assert!(shares("1").is_whole().unwrap());
    assert!(shares("42").is_whole().unwrap());
}

#[test]
fn is_whole_returns_false_for_fractional_values() {
    assert!(!shares("1.5").is_whole().unwrap());
    assert!(!shares("0.001").is_whole().unwrap());
}

#[test]
fn truncate_to_decimals_returns_retained_value_and_dust() {
    let original = shares("0.450574852280275235");

    let (truncated, dust) = original.truncate_to_decimals(9).unwrap();

    assert_eq!(truncated, shares("0.450574852"));
    assert_eq!(dust, shares("0.000000000280275235"));
    assert_eq!((truncated + dust).unwrap(), original);
}

#[test]
fn truncate_to_decimals_returns_zero_dust_at_requested_precision() {
    let original = shares("0.123456789");

    let (truncated, dust) = original.truncate_to_decimals(9).unwrap();

    assert_eq!(truncated, original);
    assert_eq!(dust, FractionalShares::zero());
}

#[test]
fn truncate_to_decimals_preserves_whole_numbers_and_zero() {
    let whole = shares("100");

    assert_eq!(
        whole.truncate_to_decimals(9).unwrap(),
        (whole, FractionalShares::zero())
    );
    assert_eq!(
        FractionalShares::zero().truncate_to_decimals(9).unwrap(),
        (FractionalShares::zero(), FractionalShares::zero())
    );
}

#[test]
fn truncate_to_decimals_truncates_negative_values_toward_zero() {
    let original = shares("-1.1234567899");

    let (truncated, dust) = original.truncate_to_decimals(9).unwrap();

    assert_eq!(truncated, shares("-1.123456789"));
    assert_eq!(dust, shares("-0.0000000009"));
    assert_eq!((truncated + dust).unwrap(), original);
}

#[test]
fn truncate_to_zero_decimals_returns_fraction_as_dust() {
    let original = shares("42.75");

    let (truncated, dust) = original.truncate_to_decimals(0).unwrap();

    assert_eq!(truncated, shares("42"));
    assert_eq!(dust, shares("0.75"));
}

#[test]
fn truncated_and_dust_u256_values_conserve_the_original() {
    let original = shares("0.450574852280275235");
    let (truncated, dust) = original.truncate_to_decimals(9).unwrap();

    let sum = alloy_primitives::U256::from_limbs(truncated.to_u256_18_decimals().unwrap().into_limbs())
        + alloy_primitives::U256::from_limbs(dust.to_u256_18_decimals().unwrap().into_limbs());
    assert_eq!(
        U256::from_limbs(sum.into_limbs()),
        original.to_u256_18_decimals().unwrap()
    );
}

#[test]
fn zero_constant_is_zero() {
    assert!(HasZero::is_zero(&FractionalShares::zero()).unwrap());
}

#[test]
fn to_u256_18_decimals_zero_returns_zero() {
    let result = FractionalShares::zero().to_u256_18_decimals().unwrap();
    assert_eq!(result, U256::zero());
}

#[test]
fn to_u256_18_decimals_one_returns_10_pow_18() {
    let result = shares("1").to_u256_18_decimals().unwrap();
    assert_eq!(result, u256("1000000000000000000"));
}

#[test]
fn to_u256_18_decimals_fractional_value() {
    let result = shares("1.5").to_u256_18_decimals().unwrap();
    assert_eq!(result, u256("1500000000000000000"));
}

#[test]
fn to_u256_18_decimals_negative_returns_error() {
    let err = shares("-1").to_u256_18_decimals().unwrap_err();
    assert!(
        matches!(err, SharesConversionError::NegativeValue(_)),
        "Expected NegativeValue error, got: {err:?}"
    );
}

#[test]
fn from_u256_18_decimals_zero_returns_zero() {
    let result = FractionalShares::from_u256_18_decimals(U256::zero()).unwrap();
    assert_eq!(result, FractionalShares::zero());
}

#[test]
fn from_u256_18_decimals_one_whole_share() {
    let one_share = u256("1000000000000000000");
    let result = FractionalShares::from_u256_18_decimals(one_share).unwrap();
    assert!(result.inner().eq(float("1")).unwrap());
}

#[test]
fn from_u256_18_decimals_fractional_amount() {
    let one_and_a_half = u256("1500000000000000000");
    let result = FractionalShares::from_u256_18_decimals(one_and_a_half).unwrap();
    assert!(result.inner().eq(float("1.5")).unwrap());
}

#[test]
fn display_formats_as_decimal() {
    let value = shares("42.5");
    assert_eq!(value.to_string(), "42.5");
}

#[test]
fn from_str_parses_decimal_text() {
    let value = FractionalShares::from_str("42.5").unwrap();
    assert_eq!(value, shares("42.5"));
    assert!(FractionalShares::from_str("4x").is_err());
}

#[test]
fn u256_round_trip_keeps_the_number() {
    for text in ["0", "1", "123.45", "0.000000000000000001", "1000000"] {
        let value = shares(text);
        let amount = value.to_u256_18_decimals().unwrap();
        let back = FractionalShares::from_u256_18_decimals(amount).unwrap();
        assert_eq!(back, value);
    }
}

#[test]
fn to_u256_18_decimals_truncates_precision_beyond_18_places() {
    let value = shares("0.0000000000000000019");
    assert_eq!(value.to_u256_18_decimals().unwrap(), u256("1"));
}

#[test]
fn ordering_compares_numbers() {
    assert!(shares("1") < shares("2"));
    assert!(shares("-5") < shares("0.5"));
    assert_eq!(
        shares("1").partial_cmp(&shares("1.0")),
        Some(std::cmp::Ordering::Equal)
    );
    assert!(shares("10") > shares("9.99"));
}

#[test]
fn equality_is_numeric() {
    assert_eq!(shares("1"), shares("1.00"));
    assert_ne!(shares("1"), shares("1.01"));
}

#[test]
fn is_whole_on_large_and_negative_values() {
    assert!(shares("10000000000").is_whole().unwrap());
    assert!(shares("-7").is_whole().unwrap());
    assert!(!shares("-7.25").is_whole().unwrap());
}

#[test]
fn ordering_is_antisymmetric_on_samples() {
    let values = ["-2", "-0.5", "0", "0.5", "1", "1.0", "3"];
    for a in values {
        for b in values {
            let (x, y) = (shares(a), shares(b));
            assert_eq!(
                x.partial_cmp(&y) == Some(std::cmp::Ordering::Less),
                y.partial_cmp(&x) == Some(std::cmp::Ordering::Greater)
            );
            assert_eq!(x == y, x.partial_cmp(&y) == Some(std::cmp::Ordering::Equal));
        }
    }
}

#[test]
fn truncation_dust_adds_back_for_several_precisions() {
    for decimals in [0, 1, 5, 9, 18] {
        let original = shares("-98765.4321987654321");
        let (truncated, dust) = original.truncate_to_decimals(decimals).unwrap();
        assert_eq!((truncated + dust).unwrap(), original);
    }
}

#[test]
fn amount_to_shares_and_back_is_the_same_amount() {
    for text in ["0", "1", "1000000000000000000", "123456789012345678901234567890"] {
        let amount = u256(text);
        let shares = FractionalShares::from_u256_18_decimals(amount).unwrap();
        assert_eq!(shares.to_u256_18_decimals().unwrap(), amount);
    }
}

#[test]
fn truncation_succeeds_when_the_scaled_value_fits() {
    let value = shares("1.5");
    let (kept, dust) = value.truncate_to_decimals(2_000_000_000).unwrap();
    assert_eq!(kept, value);
    assert!(dust.inner().is_zero().unwrap());
    let (kept, dust) = shares("-2.75").truncate_to_decimals(0).unwrap();
    assert_eq!(kept, shares("-2"));
    assert_eq!(dust, shares("-0.75"));
}

#[test]
fn comparisons_succeed_on_any_bytes() {
    for byte in [0x00u8, 0x7f, 0x80, 0xde, 0xff] {
        let value = FractionalShares::new(Float::from_raw([byte; 32]));
        assert!(value.is_zero().is_ok());
        assert!(value.is_negative().is_ok());
        assert!(value.is_whole().is_ok());
    }
}
