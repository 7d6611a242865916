use std::str::FromStr;

use st0x_finance::{Decimal, DecimalShares, DecimalSharesConversionError, Float, FractionalShares, U256};

fn float(text: &str) -> Float {
    Float::parse(text.to_string()).unwrap()
}

fn decimal(text: &str) -> Decimal {
    Decimal::from_str_exact(text).unwrap()
}

fn from_rust(value: rust_decimal::Decimal) -> Decimal {
    Decimal::deserialize(value.serialize())
}

fn u256(text: &str) -> U256 {
    U256::from_limbs(alloy_primitives::U256::from_str(text).unwrap().into_limbs())
}

#[test]
fn display_preserves_decimal_scale() {
    let quantity = "100.50".parse::<DecimalShares>().unwrap();

    assert_eq!(quantity.to_string(), "100.50");
}

#[test]
fn parser_contract_is_explicit() {
    let max_scale_zero = "0.0000000000000000000000000000"
        .parse::<DecimalShares>()
        .unwrap();
    assert_eq!(max_scale_zero.inner().scale(), 28);
    assert!(matches!(
        "0.00000000000000000000000000000".parse::<DecimalShares>(),
        Err(rust_decimal::Error::Underflow)
    ));
    assert!(matches!(
        "1e3".parse::<DecimalShares>(),
        Err(rust_decimal::Error::ErrorString(_))
    ));
    assert_eq!(
        "1_000.50".parse::<DecimalShares>().unwrap().to_string(),
        "1000.50"
    );
}

#[test]
fn equality_is_numeric_while_wire_comparison_preserves_scale() {
    let two_places = "100.50".parse::<DecimalShares>().unwrap();
    let one_place = "100.5".parse::<DecimalShares>().unwrap();

    assert_eq!(two_places, one_place);
    assert!(!two_places.has_same_wire_representation(one_place));
    assert!(two_places.has_same_wire_representation(two_places));

    let positive_zero = DecimalShares::new(Decimal::zero());
    let negative_zero = DecimalShares::new(from_rust(-rust_decimal::Decimal::ZERO));
    assert_eq!(positive_zero, negative_zero);
    assert!(!positive_zero.has_same_wire_representation(negative_zero));
}

#[test]
fn wire_comparison_distinguishes_scale_for_equal_mantissas() {
    let scaled = "1.00".parse::<DecimalShares>().unwrap();
    let whole = "100".parse::<DecimalShares>().unwrap();

    assert_eq!(scaled.inner().mantissa(), whole.inner().mantissa());
    assert!(!scaled.has_same_wire_representation(whole));
}

#[test]
fn converts_directly_to_rain_float_backed_shares() {
    let quantity = "100.50".parse::<DecimalShares>().unwrap();

    assert_eq!(
        quantity.to_fractional_shares().unwrap(),
        FractionalShares::new(float("100.5"))
    );
}

#[test]
fn converts_from_rain_float_backed_shares() {
    let quantity =
        DecimalShares::from_fractional_shares(FractionalShares::new(float("100.5"))).unwrap();

    assert_eq!(quantity, "100.5".parse().unwrap());
    assert_eq!(quantity.to_string(), "100.5");
}

#[test]
fn rain_float_conversion_rejects_decimal_precision_loss() {
    let exact = FractionalShares::new(float("0.0000000000000000000000000001"));
    let inexact = FractionalShares::new(float("0.00000000000000000000000000025"));

    assert_eq!(
        DecimalShares::from_fractional_shares(exact).unwrap(),
        "0.0000000000000000000000000001".parse().unwrap()
    );
    assert!(matches!(
        DecimalShares::from_fractional_shares(inexact),
        Err(DecimalSharesConversionError::Decimal(_))
    ));
}

#[test]
fn truncates_for_alpaca_and_returns_dust() {
    let original = "0.450574852280275235".parse::<DecimalShares>().unwrap();

    let (truncated, dust) = original.truncate_for_alpaca().unwrap();

    assert_eq!(truncated, "0.450574852".parse().unwrap());
    assert_eq!(dust, "0.000000000280275235".parse().unwrap());
    assert_eq!(
        (truncated.to_fractional_shares().unwrap() + dust.to_fractional_shares().unwrap())
            .unwrap(),
        original.to_fractional_shares().unwrap()
    );
}

#[test]
fn truncation_matches_legacy_decimal_scale() {
    for value in ["1.100000000", "1.123456789123456789", "1.1"] {
        let original = rust_decimal::Decimal::from_str(value).unwrap();
        let multiplier = rust_decimal::Decimal::from(10_u64.pow(9));
        let legacy_truncated = (original * multiplier).trunc() / multiplier;
        let legacy_dust = original - legacy_truncated;
        let quantity = DecimalShares::new(from_rust(original));

        let (truncated, dust) = quantity.truncate_for_alpaca().unwrap();

        assert_eq!(truncated.inner(), from_rust(legacy_truncated));
        assert_eq!(truncated.inner().scale(), legacy_truncated.scale());
        assert_eq!(dust.inner(), from_rust(legacy_dust));
        assert_eq!(dust.inner().scale(), legacy_dust.scale());
    }
}

#[test]
fn legacy_scale_rejects_values_that_only_match_after_rounding() {
    let rain_float = "1.234".parse::<DecimalShares>().unwrap();
    let legacy = decimal("1.23");

    assert!(matches!(
        rain_float.with_legacy_scale(legacy),
        Err(DecimalSharesConversionError::TruncationMismatch { .. })
    ));
}

#[test]
fn legacy_scale_copies_trailing_zeroes_for_equal_values() {
    let rain_float = "1.1".parse::<DecimalShares>().unwrap();
    let legacy = decimal("1.10");

    assert_eq!(
        rain_float.with_legacy_scale(legacy).unwrap().to_string(),
        "1.10"
    );
}

#[test]
fn truncation_preserves_whole_numbers_and_zero() {
    for value in ["100", "0"] {
        let original = value.parse::<DecimalShares>().unwrap();
        let (truncated, dust) = original.truncate_for_alpaca().unwrap();

        assert_eq!(truncated, original);
        assert_eq!(dust, DecimalShares::default());
    }
}

#[test]
fn truncation_rejects_legacy_multiplier_overflow() {
    let quantity = "1".parse::<DecimalShares>().unwrap();

    assert!(matches!(
        quantity.truncate_to_decimals(100),
        Err(DecimalSharesConversionError::ArithmeticOverflow)
    ));
}

#[test]
fn exact_18_decimal_conversion_succeeds() {
    let quantity = "0.123456789012345678".parse::<DecimalShares>().unwrap();

    assert_eq!(
        quantity.to_u256_18_decimals().unwrap(),
        U256::from_u128(123456789012345678)
    );
}

#[test]
fn conversion_preserves_legacy_decimal_range() {
    let largest = "79228162514".parse::<DecimalShares>().unwrap();
    let overflowing = "79228162515".parse::<DecimalShares>().unwrap();

    assert_eq!(
        largest.to_u256_18_decimals().unwrap(),
        U256::from_u128(79_228_162_514_000_000_000_000_000_000_u128)
    );
    assert!(matches!(
        overflowing.to_u256_18_decimals(),
        Err(DecimalSharesConversionError::ArithmeticOverflow)
    ));
}

#[test]
fn conversion_rejects_non_zero_precision_beyond_18_decimals() {
    let quantity = "0.0000000000000000001".parse::<DecimalShares>().unwrap();

    assert!(matches!(
        quantity.to_u256_18_decimals(),
        Err(DecimalSharesConversionError::PrecisionLoss { .. })
    ));
}

#[test]
fn conversion_accepts_redundant_zeroes_beyond_18_decimals() {
    let quantity = "0.1000000000000000000".parse::<DecimalShares>().unwrap();

    assert_eq!(
        quantity.to_u256_18_decimals().unwrap(),
        U256::from_u128(100_000_000_000_000_000_u128)
    );
}

#[test]
fn conversion_rejects_negative_values() {
    let quantity = "-1".parse::<DecimalShares>().unwrap();

    assert!(matches!(
        quantity.to_u256_18_decimals(),
        Err(DecimalSharesConversionError::NegativeValue { .. })
    ));
}

#[test]
fn conversion_rejects_negative_zero_like_legacy_quantity() {
    let quantity = DecimalShares::new(from_rust(-rust_decimal::Decimal::ZERO));

    assert!(matches!(
        quantity.to_u256_18_decimals(),
        Err(DecimalSharesConversionError::NegativeValue { .. })
    ));
}

#[test]
fn inverse_u256_conversion_preserves_precision() {
    let quantity = DecimalShares::from_u256_18_decimals(U256::from_u128(123456789012345678)).unwrap();

    assert_eq!(quantity, "0.123456789012345678".parse().unwrap());
}

#[test]
fn u256_conversion_roundtrips() {
    let original = "123.45".parse::<DecimalShares>().unwrap();
    let fixed = original.to_u256_18_decimals().unwrap();

    assert_eq!(
        DecimalShares::from_u256_18_decimals(fixed).unwrap(),
        original
    );
}

#[test]
fn inverse_u256_conversion_rejects_values_outside_decimal_range() {
    assert!(matches!(
        DecimalShares::from_u256_18_decimals(U256::from_limbs([u64::MAX; 4])),
        Err(DecimalSharesConversionError::Decimal(_))
    ));
}

#[test]
fn decimal_constructor_keeps_numeric_equality() {
    let one = DecimalShares::new(decimal("1"));
    let scaled_one = DecimalShares::new(decimal("1.00"));

    assert_eq!(one, scaled_one);
    assert!(!one.has_same_wire_representation(scaled_one));
}

#[test]
fn truncation_to_zero_places_keeps_legacy_scale() {
    let quantity = "42.75".parse::<DecimalShares>().unwrap();
    let (truncated, dust) = quantity.truncate_to_decimals(0).unwrap();
    assert_eq!(truncated, "42".parse().unwrap());
    assert_eq!(dust, "0.75".parse().unwrap());
}

#[test]
fn truncation_of_negative_quantity_keeps_sign_on_dust() {
    let quantity = "-1.1234567899".parse::<DecimalShares>().unwrap();
    let (truncated, dust) = quantity.truncate_for_alpaca().unwrap();
    assert_eq!(truncated, "-1.123456789".parse().unwrap());
    assert_eq!(dust, "-0.0000000009".parse().unwrap());
}

#[test]
fn to_fractional_shares_reports_float_failures() {
    let quantity = "79228162514264337593543950335".parse::<DecimalShares>().unwrap();
    let shares = quantity.to_fractional_shares().unwrap();
    assert!(shares.inner().eq(float("79228162514264337593543950335")).unwrap());
}

#[test]
fn wei_conversion_of_u256_integer_from_text() {
    let quantity = DecimalShares::from_u256_18_decimals(u256("1500000000000000000")).unwrap();
    assert_eq!(quantity, "1.5".parse().unwrap());
}

#[test]
fn truncation_matches_legacy_decimal_value_and_scale_on_samples() {
    let mut state: u64 = 0x9E37_79B9_7F4A_7C15;
    let mut next = move || {
        state = state
            .wrapping_mul(6364136223846793005)
            .wrapping_add(1442695040888963407);
        state
    };
    for _ in 0..200 {
        let high = (next() >> 32) as i128;
        let low = next() as i128;
        let magnitude = ((high << 64) | low) % 79_228_162_514_264_337_593_543_950_335_i128;
        let mantissa = if next() % 2 == 0 { magnitude } else { -magnitude };
        let scale = (next() % 29) as u32;
        let decimals = (next() % 20) as u32;
        let original = rust_decimal::Decimal::from_i128_with_scale(mantissa, scale);
        let multiplier = rust_decimal::Decimal::from(10_u64.pow(decimals));
        let legacy = original
            .checked_mul(multiplier)
            .map(|scaled| scaled.trunc() / multiplier)
            .map(|truncated| (truncated, original - truncated));

        let result = DecimalShares::new(from_rust(original)).truncate_to_decimals(decimals);

        match legacy {
            Some((legacy_truncated, legacy_dust)) => {
                let (truncated, dust) = result.unwrap();
                assert_eq!(truncated.to_string(), legacy_truncated.to_string());
                assert_eq!(dust.to_string(), legacy_dust.to_string());
            }
            None => assert!(matches!(
                result,
                Err(DecimalSharesConversionError::ArithmeticOverflow)
            )),
        }
    }
}

#[test]
fn same_wire_representation_means_equal_quantities() {
    for text in ["0", "1.50", "-3.000", "79228162514264337593543950335"] {
        let a = text.parse::<DecimalShares>().unwrap();
        let b = text.parse::<DecimalShares>().unwrap();
        assert!(a.has_same_wire_representation(b));
        assert_eq!(a, b);
    }
}

#[test]
fn truncate_to_decimals_dust_adds_back_to_original() {
    let original = "12.3456789012345".parse::<DecimalShares>().unwrap();
    let (truncated, dust) = original.truncate_to_decimals(4).unwrap();
    assert_eq!(truncated.to_string(), "12.3456");
    let sum = (truncated.to_fractional_shares().unwrap() + dust.to_fractional_shares().unwrap())
        .unwrap();
    assert_eq!(sum, original.to_fractional_shares().unwrap());
}

#[test]
fn wire_conversions_keep_the_number() {
    for text in ["0", "-0.000", "100.50", "-1.1234567899", "0.000000000000000000000000001"] {
        let wire = text.parse::<DecimalShares>().unwrap();
        let shares = wire.to_fractional_shares().unwrap();
        assert_eq!(shares, FractionalShares::new(float(text)));
        let back = DecimalShares::from_fractional_shares(shares).unwrap();
        assert_eq!(back, wire);
    }
}

#[test]
fn scientific_display_is_refused_as_a_wire_decimal() {
    let tiny = FractionalShares::new(float("1e-1100"));
    let text = tiny.to_string();
    assert!(text.contains('e'), "expected a scientific spelling, got {text}");
    assert!(matches!(
        DecimalShares::from_fractional_shares(tiny),
        Err(DecimalSharesConversionError::Decimal(_))
    ));
}

#[test]
fn truncation_parts_add_up_in_decimal_arithmetic() {
    for (text, places) in [("12.3456789012345", 4), ("-0.999999999999", 9), ("5", 0), ("0.5", 0)] {
        let original = text.parse::<DecimalShares>().unwrap();
        let (kept, dust) = original.truncate_to_decimals(places).unwrap();
        let kept = rust_decimal::Decimal::deserialize(kept.inner().serialize());
        let dust = rust_decimal::Decimal::deserialize(dust.inner().serialize());
        let whole = rust_decimal::Decimal::deserialize(original.inner().serialize());
        assert_eq!(kept + dust, whole);
        assert_eq!(kept, whole.trunc_with_scale(places));
    }
}

#[test]
fn wire_amount_round_trip_keeps_the_amount() {
    for text in ["0", "1", "1500000000000000000", "123456789012345678", "79228162514264337593543950335"] {
        let amount = u256(text);
        let quantity = DecimalShares::from_u256_18_decimals(amount).unwrap();
        assert_eq!(quantity.to_u256_18_decimals().unwrap(), amount);
    }
    assert!(matches!(
        DecimalShares::from_u256_18_decimals(u256("79228162514264337593543950336")),
        Err(DecimalSharesConversionError::Decimal(_))
    ));
}

#[test]
fn eighteen_decimal_amount_is_exact_for_full_precision() {
    let quantity = "0.123456789012345678".parse::<DecimalShares>().unwrap();
    assert_eq!(quantity.to_u256_18_decimals().unwrap(), u256("123456789012345678"));
}

#[test]
fn same_wire_representation_matches_equal_text() {
    let mut negative_zero = [0u8; 16];
    negative_zero[2] = 1;
    negative_zero[3] = 0x80;
    let negative_zero = DecimalShares::new(Decimal::deserialize(negative_zero));
    let zero = "0.0".parse::<DecimalShares>().unwrap();
    assert_eq!(negative_zero.to_string(), "-0.0");
    assert_eq!(negative_zero, zero);
    assert!(!negative_zero.has_same_wire_representation(zero));
    let a = "100.50".parse::<DecimalShares>().unwrap();
    let b = "100.5".parse::<DecimalShares>().unwrap();
    assert_eq!(a.has_same_wire_representation(b), a.to_string() == b.to_string());
    assert_eq!(a.has_same_wire_representation(a), true);
}

#[test]
fn wire_truncation_twice_keeps_the_value() {
    let quantity = "-12.3456789012345".parse::<DecimalShares>().unwrap();
    let (kept, _) = quantity.truncate_to_decimals(4).unwrap();
    let (again, dust) = kept.truncate_to_decimals(4).unwrap();
    assert_eq!(again, kept);
    assert_eq!(dust, "0".parse().unwrap());
}

#[test]
fn shares_converted_to_wire_and_back_keep_the_number() {
    let shares = FractionalShares::new(float("2.500"));
    let wire = DecimalShares::from_fractional_shares(shares).unwrap();
    assert_eq!(wire.to_string(), "2.5");
    assert_eq!(wire.to_fractional_shares().unwrap(), shares);
}
