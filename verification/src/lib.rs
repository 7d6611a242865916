//! Shared financial primitives: fractional and decimal share quantities with
//! checked arithmetic, and wrappers that guarantee a sign constraint.
mod constraint;
mod decimal;
mod decimal_shares;
mod float;
mod float_proofs;
mod shares;
mod text;
mod uint;

pub use constraint::{NonNegative, NotNonNegative, NotPositive, Positive};
pub use decimal::Decimal;
pub use decimal_shares::{DecimalShares, DecimalSharesConversionError, ALPACA_MAX_DECIMALS};
pub use float::Float;
pub use shares::{FractionalShares, SharesConversionError};
pub use rain_math_float::FloatError;
pub use uint::U256;

use float::float_format;
use shares::whole_outcome;
use text::{integer_part, integer_part_of, parse_u64, parsed_u64};
use vstd::arithmetic::power::pow;
use vstd::prelude::*;

verus! {

/// Types that have a zero value and can be compared to it.
///
/// Comparisons are fallible because the underlying Float EVM-based
/// operations can technically fail on malformed data. An implementation
/// answers each comparison the same way every time for the same value:
/// `zero_outcome` and `negative_outcome` name those answers (the error for
/// a failure), and the checked constructors are stated over them.
pub trait HasZero: Sized + Copy {
    /// What `is_zero` answers for this value (by default: some error).
    open spec fn zero_outcome(&self) -> Result<bool, FloatError> {
        Err(vstd::pervasive::arbitrary())
    }

    /// What `is_negative` answers for this value (by default: some error).
    open spec fn negative_outcome(&self) -> Result<bool, FloatError> {
        Err(vstd::pervasive::arbitrary())
    }

    /// The zero value.
    fn zero() -> Self;

    /// Whether the value is zero.
    fn is_zero(&self) -> (r: Result<bool, FloatError>)
        ensures
            r == self.zero_outcome(),
    ;

    /// Whether the value is smaller than zero.
    fn is_negative(&self) -> (r: Result<bool, FloatError>)
        ensures
            r == self.negative_outcome(),
    ;
}

impl HasZero for Float {
    open spec fn zero_outcome(&self) -> Result<bool, FloatError> {
        Ok(float::float_coefficient(self@) == 0)
    }

    open spec fn negative_outcome(&self) -> Result<bool, FloatError> {
        Ok(float::float_coefficient(self@) < 0)
    }

    fn zero() -> (r: Self)
        ensures
            r@ == float::zero_bytes(),
    {
        Float::zero()
    }

    fn is_zero(&self) -> (r: Result<bool, FloatError>)
        ensures
            r is Ok,
            r == Ok::<bool, FloatError>(float::float_coefficient(self@) == 0),
    {
        Float::is_zero(*self)
    }

    fn is_negative(&self) -> (r: Result<bool, FloatError>)
        ensures
            r is Ok,
            r == Ok::<bool, FloatError>(float::float_coefficient(self@) < 0),
    {
        proof {
            float::lemma_less_than_zero(self@);
        }
        self.lt(Float::zero())
    }
}

/// The integer part of the plain (not scientific) decimal spelling of `value`.
fn float_integer_string(value: Float) -> (r: Result<String, FloatError>)
    ensures
        r is Ok <==> float_format(value@, false) is Some,
        r matches Ok(t) ==> t@ == integer_part(float_format(value@, false).unwrap()),
        float::is_whole_value(float::float_coefficient(value@), float::float_exponent(value@))
            && -pow(10, 1000) < float::truncated_scaled(
            float::float_coefficient(value@),
            float::float_exponent(value@),
        ) < pow(10, 1000) ==> r is Ok,
        r matches Ok(t) ==> (float::is_whole_value(float::float_coefficient(value@), float::float_exponent(value@))
            ==> t@ == integer_part(float::signed_decimal_text(float::truncated_scaled(
            float::float_coefficient(value@),
            float::float_exponent(value@),
        )))),
{
    let formatted = match value.format_with_scientific(false) {
        Ok(t) => t,
        Err(e) => return Err(e),
    };
    let integer = integer_part_of(formatted.as_str());
    Ok(integer.to_owned())
}

/// Errors converting positive fractional shares to a whole number of shares.
#[derive(Debug)]
pub enum ToWholeSharesError {
    /// The value has a fractional part.
    Fractional(FractionalShares),
    /// The value exceeds the `u64` range.
    Overflow(FractionalShares),
    /// A Float operation failed.
    Float(FloatError),
}

impl From<FloatError> for ToWholeSharesError {
    fn from(error: FloatError) -> (r: Self) {
        ToWholeSharesError::Float(error)
    }
}

impl vstd::std_specs::convert::FromSpecImpl<FloatError> for ToWholeSharesError {
    open spec fn obeys_from_spec() -> bool {
        true
    }

    open spec fn from_spec(error: FloatError) -> ToWholeSharesError {
        ToWholeSharesError::Float(error)
    }
}

impl Positive<FractionalShares> {
    /// Converts to whole shares count, returning error if value has a
    /// fractional part or exceeds u64 range. Use this when the target
    /// API does not support fractional shares.
    ///
    /// The count is read from the plain decimal spelling of the value, up to
    /// its decimal point.
    ///
    /// # Errors
    ///
    /// Returns [`ToWholeSharesError::Fractional`] if the value has a
    /// fractional part, or [`ToWholeSharesError::Overflow`] if it
    /// exceeds `u64` range.
    pub fn to_whole_shares(self) -> (r: Result<u64, ToWholeSharesError>)
        ensures
            match whole_outcome(self@@) {
                None => r matches Err(ToWholeSharesError::Float(_)),
                Some(false) => r matches Err(ToWholeSharesError::Fractional(v)) && v@ == self@@,
                Some(true) => match float_format(self@@, false) {
                    None => r matches Err(ToWholeSharesError::Float(_)),
                    Some(text) => match parsed_u64(integer_part(text)) {
                        None => r matches Err(ToWholeSharesError::Overflow(v)) && v@ == self@@,
                        Some(n) => r == Ok::<u64, ToWholeSharesError>(n),
                    },
                },
            },
            r is Ok ==> float::is_whole_value(
                float::float_coefficient(self@@),
                float::float_exponent(self@@),
            ),
            r matches Ok(n) ==> n as int == float::truncated_scaled(
                float::float_coefficient(self@@),
                float::float_exponent(self@@),
            ),
            r matches Err(ToWholeSharesError::Overflow(_)) ==> float::truncated_scaled(
                float::float_coefficient(self@@),
                float::float_exponent(self@@),
            ) > u64::MAX,
            r matches Err(ToWholeSharesError::Overflow(_)) ==> float::is_whole_value(
                float::float_coefficient(self@@),
                float::float_exponent(self@@),
            ),
            r matches Err(ToWholeSharesError::Fractional(_)) ==> !float::is_whole_value(
                float::float_coefficient(self@@),
                float::float_exponent(self@@),
            ),
            !float::is_whole_value(float::float_coefficient(self@@), float::float_exponent(self@@))
                ==> (r matches Err(ToWholeSharesError::Fractional(v)) && v@ == self@@),
            float::is_whole_value(float::float_coefficient(self@@), float::float_exponent(self@@))
                && float::truncated_scaled(float::float_coefficient(self@@), float::float_exponent(self@@))
                <= u64::MAX ==> r == Ok::<u64, ToWholeSharesError>(
                float::truncated_scaled(float::float_coefficient(self@@), float::float_exponent(self@@))
                    as u64,
            ),
            float::is_whole_value(float::float_coefficient(self@@), float::float_exponent(self@@))
                && u64::MAX < float::truncated_scaled(
                float::float_coefficient(self@@),
                float::float_exponent(self@@),
            ) < pow(10, 1000) ==> (r matches Err(ToWholeSharesError::Overflow(v)) && v@ == self@@),
    {
        let inner = self.inner();
        let whole = match inner.is_whole() {
            Ok(b) => b,
            Err(e) => return Err(ToWholeSharesError::Float(e)),
        };
        if !whole {
            return Err(ToWholeSharesError::Fractional(inner));
        }
        proof {
            reveal_with_fuel(pow, 21);
            vstd::arithmetic::power::lemma_pow_increases(10, 20, 1000);
            vstd::arithmetic::power::lemma_pow_positive(10, 1000);
            assert(pow(10, 1000) > u64::MAX);
            let c = float::float_coefficient(inner@);
            let e = float::float_exponent(inner@);
            if e >= 0 {
                vstd::arithmetic::power::lemma_pow_positive(10, e as nat);
                vstd::arithmetic::mul::lemma_mul_nonnegative(c, pow(10, e as nat));
            } else {
                vstd::arithmetic::power::lemma_pow_positive(10, (-e) as nat);
                vstd::arithmetic::div_mod::lemma_div_pos_is_pos(c, pow(10, (-e) as nat));
            }
        }
        let integer_text = match float_integer_string(inner.inner()) {
            Ok(t) => t,
            Err(e) => return Err(ToWholeSharesError::Float(e)),
        };
        proof {
            let c = float::float_coefficient(inner@);
            let e = float::float_exponent(inner@);
            let v = float::truncated_scaled(c, e);
            assert(c > 0);
            if e >= 0 {
                vstd::arithmetic::power::lemma_pow_positive(10, e as nat);
                vstd::arithmetic::mul::lemma_mul_strictly_positive(c, vstd::arithmetic::power::pow(10, e as nat));
            } else {
                vstd::arithmetic::power::lemma_pow_positive(10, (-e) as nat);
                vstd::arithmetic::div_mod::lemma_div_pos_is_pos(c, vstd::arithmetic::power::pow(10, (-e) as nat));
            }
            assert(v >= 0);
            text::lemma_decimal_digits_parse(v as nat);
        }
        match parse_u64(integer_text.as_str()) {
            Some(n) => Ok(n),
            None => Err(ToWholeSharesError::Overflow(inner)),
        }
    }
}

} // verus!
