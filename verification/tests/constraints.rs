use st0x_finance::{
    Float, FloatError, FractionalShares, HasZero, NonNegative, NotNonNegative, NotPositive,
    Positive, ToWholeSharesError,
};

fn float(text: &str) -> Float {
    Float::parse(text.to_string()).unwrap()
}

fn shares(text: &str) -> FractionalShares {
    FractionalShares::new(float(text))
}

#[derive(Debug, Clone, Copy, PartialEq, Eq)]
struct ComparisonFails;

impl HasZero for ComparisonFails {
    fn zero() -> Self {
        Self
    }

    fn is_zero(&self) -> Result<bool, FloatError> {
        Err(FloatError::InvalidHex("comparison failed".to_owned()))
    }

    fn is_negative(&self) -> Result<bool, FloatError> {
        Err(FloatError::InvalidHex("comparison failed".to_owned()))
    }
}

impl From<ComparisonFails> for Float {
    fn from(_: ComparisonFails) -> Self {
        Float::from_raw([0u8; 32])
    }
}

#[test]
fn positive_rejects_zero() {
    let error = Positive::new(FractionalShares::zero()).unwrap_err();
    assert!(matches!(
        error,
        NotPositive::Constraint { value }
            if value == FractionalShares::zero()
    ));
}

#[test]
fn positive_rejects_negative() {
    let negative = shares("-1");
    let error = Positive::new(negative).unwrap_err();
    assert!(matches!(
        error,
        NotPositive::Constraint { value } if value == negative
    ));
}

#[test]
fn positive_accepts_positive_value() {
    let value = shares("1");
    let positive = Positive::new(value).unwrap();
    assert_eq!(positive.inner(), value);
}

#[test]
fn positive_preserves_comparison_failure() {
    let error = Positive::new(ComparisonFails).unwrap_err();
    assert!(matches!(
        error,
        NotPositive::Comparison {
            value: ComparisonFails,
            source: FloatError::InvalidHex(message),
        } if message == "comparison failed"
    ));
}

#[test]
fn to_whole_shares_succeeds_for_whole_number() {
    let positive = Positive::new(shares("42")).unwrap();
    assert_eq!(positive.to_whole_shares().unwrap(), 42);
}

#[test]
fn to_whole_shares_rejects_fractional() {
    let positive = Positive::new(shares("1.5")).unwrap();
    let error = positive.to_whole_shares().unwrap_err();
    assert!(matches!(error, ToWholeSharesError::Fractional(_)));
}

#[test]
fn to_whole_shares_handles_values_above_one_billion() {
    let positive = Positive::new(shares("10000000000")).unwrap();
    assert_eq!(positive.to_whole_shares().unwrap(), 10_000_000_000);
}

#[test]
fn non_negative_accepts_zero() {
    let non_neg = NonNegative::new(FractionalShares::zero()).unwrap();
    assert_eq!(non_neg.inner(), FractionalShares::zero());
}

#[test]
fn non_negative_accepts_positive_value() {
    let value = shares("5");
    let non_neg = NonNegative::new(value).unwrap();
    assert_eq!(non_neg.inner(), value);
}

#[test]
fn non_negative_rejects_negative() {
    let negative = shares("-1");
    let error = NonNegative::new(negative).unwrap_err();
    assert!(matches!(
        error,
        NotNonNegative::Constraint { value } if value == negative
    ));
}

#[test]
fn non_negative_preserves_comparison_failure() {
    let error = NonNegative::new(ComparisonFails).unwrap_err();
    assert!(matches!(
        error,
        NotNonNegative::Comparison {
            value: ComparisonFails,
            source: FloatError::InvalidHex(message),
        } if message == "comparison failed"
    ));
}

#[test]
fn float_from_raw_all_bytes_are_valid() {
    // Every 32-byte pattern is a valid Float: a 32-bit signed exponent and a
    // 224-bit signed coefficient.
    let patterns: Vec<[u8; 32]> = vec![[0xff; 32], [0x00; 32], [0x80; 32], [0xde; 32]];

    for bytes in patterns {
        let raw = Float::from_raw(bytes);
        assert_eq!(raw.get_inner(), bytes);

        raw.format_with_scientific(true).unwrap();
        raw.is_zero().unwrap();
        raw.abs().unwrap();
        raw.add(float("0")).unwrap();
    }
}

#[test]
fn float_zero_constant_is_numeric_zero() {
    let zero = <Float as HasZero>::zero();
    assert!(HasZero::is_zero(&zero).unwrap());
    assert!(!HasZero::is_negative(&zero).unwrap());
}

#[test]
fn to_whole_shares_reports_values_beyond_u64_as_overflow() {
    let positive = Positive::new(shares("18446744073709551616")).unwrap();
    let error = positive.to_whole_shares().unwrap_err();
    assert!(matches!(error, ToWholeSharesError::Overflow(_)));
    let largest = Positive::new(shares("18446744073709551615")).unwrap();
    assert_eq!(largest.to_whole_shares().unwrap(), u64::MAX);
}

#[test]
fn positive_shares_wrapper_keeps_the_value_above_zero() {
    let positive = Positive::new(shares("0.001")).unwrap();
    assert!(!HasZero::is_negative(&positive.inner()).unwrap());
    assert!(!HasZero::is_zero(&positive.inner()).unwrap());
}

#[test]
fn whole_share_count_ignores_the_encoding() {
    let plain = Positive::new(shares("42")).unwrap().to_whole_shares().unwrap();
    let padded = Positive::new(shares("42.000")).unwrap().to_whole_shares().unwrap();
    assert_eq!(plain, padded);
    assert!(matches!(
        Positive::new(shares("1.50")).unwrap().to_whole_shares(),
        Err(ToWholeSharesError::Fractional(_))
    ));
}

#[test]
fn whole_share_count_refuses_large_values_as_overflow_for_any_encoding() {
    for text in ["18446744073709551616", "18446744073709551616.000", "1e30"] {
        assert!(matches!(
            Positive::new(shares(text)).unwrap().to_whole_shares(),
            Err(ToWholeSharesError::Overflow(_))
        ));
    }
}
