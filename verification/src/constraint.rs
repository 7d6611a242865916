//! Wrappers that guarantee the sign of the value they hold.
use crate::float::{float_coefficient, Float};
use crate::shares::FractionalShares;
use crate::HasZero;
use rain_math_float::FloatError;
use vstd::prelude::*;

verus! {

/// What checking "zero or negative" gives for `value`: the answer, or the
/// error of the first of the two comparisons with zero that fails (the zero
/// check comes first, and the negative check is only made after it succeeded).
pub open spec fn not_positive_outcome<T: HasZero>(value: T) -> Result<bool, FloatError> {
    match value.zero_outcome() {
        Ok(zero) => match value.negative_outcome() {
            Ok(negative) => Ok(zero || negative),
            Err(e) => Err(e),
        },
        Err(e) => Err(e),
    }
}

/// What checking "negative" gives for `value`: the answer, or the error of
/// the comparison.
pub open spec fn negative_outcome<T: HasZero>(value: T) -> Result<bool, FloatError> {
    value.negative_outcome()
}

/// A share quantity that passes the positivity check is above zero.
pub proof fn law_positive_shares_are_above_zero(value: FractionalShares)
    requires
        not_positive_outcome(value) == Ok::<bool, FloatError>(false),
    ensures
        float_coefficient(value@) > 0,
{
}

/// A share quantity that passes the non-negativity check is not below zero.
pub proof fn law_non_negative_shares_are_not_below_zero(value: FractionalShares)
    requires
        negative_outcome(value) == Ok::<bool, FloatError>(false),
    ensures
        float_coefficient(value@) >= 0,
{
}

/// The checks on a share quantity answer the sign of its number: it is
/// reported zero exactly when it is zero, negative exactly when it is below
/// zero, and "zero or negative" exactly when it is not above zero; so the
/// positivity check (`Positive::new`) accepts exactly the quantities above
/// zero, and the non-negativity check (`NonNegative::new`) exactly those not
/// below zero; neither comparison fails.
pub proof fn law_share_checks_answer_the_sign(value: FractionalShares)
    ensures
        value.zero_outcome() == Ok::<bool, FloatError>(float_coefficient(value@) == 0),
        value.negative_outcome() == Ok::<bool, FloatError>(float_coefficient(value@) < 0),
        not_positive_outcome(value) == Ok::<bool, FloatError>(float_coefficient(value@) <= 0),
{
}

/// The checks on a Float answer the sign of its number, as for share
/// quantities.
pub proof fn law_float_checks_answer_the_sign(value: Float)
    ensures
        value.zero_outcome() == Ok::<bool, FloatError>(float_coefficient(value@) == 0),
        value.negative_outcome() == Ok::<bool, FloatError>(float_coefficient(value@) < 0),
        not_positive_outcome(value) == Ok::<bool, FloatError>(float_coefficient(value@) <= 0),
{
}

/// A Float that passes the positivity check is above zero.
pub proof fn law_positive_floats_are_above_zero(value: Float)
    requires
        not_positive_outcome(value) == Ok::<bool, FloatError>(false),
    ensures
        float_coefficient(value@) > 0,
{
}

/// A Float that passes the non-negativity check is not below zero.
pub proof fn law_non_negative_floats_are_not_below_zero(value: Float)
    requires
        negative_outcome(value) == Ok::<bool, FloatError>(false),
    ensures
        float_coefficient(value@) >= 0,
{
}

/// Value must be positive (greater than zero).
#[derive(Debug)]
pub enum NotPositive<T> {
    /// The value is zero or negative.
    Constraint { value: T },
    /// Comparing the value with zero failed.
    Comparison { value: T, source: FloatError },
}

/// Value must be non-negative (zero or greater).
#[derive(Debug)]
pub enum NotNonNegative<T> {
    /// The value is negative.
    Constraint { value: T },
    /// Comparing the value with zero failed.
    Comparison { value: T, source: FloatError },
}

/// Wrapper that guarantees the inner value is positive (greater than zero).
///
/// Use this when an API requires strictly positive values, such as order quantities.
#[derive(Debug, Copy, PartialEq, Eq, PartialOrd, Hash)]
pub struct Positive<T: HasZero>(T);

/// Wrapper that guarantees the inner value is non-negative (zero or greater).
///
/// Use this when an API requires values that cannot be negative, such as
/// available cash after subtracting a reserve.
#[derive(Debug, Copy, PartialEq, Eq, PartialOrd, Hash)]
pub struct NonNegative<T: HasZero>(T);

impl<T: HasZero> Clone for Positive<T> {
    fn clone(&self) -> (r: Self)
        ensures
            r == *self,
    {
        *self
    }
}

impl<T: HasZero> Clone for NonNegative<T> {
    fn clone(&self) -> (r: Self)
        ensures
            r == *self,
    {
        *self
    }
}

impl<T: HasZero> View for Positive<T> {
    type V = T;

    closed spec fn view(&self) -> T {
        self.0
    }
}

impl<T: HasZero> View for NonNegative<T> {
    type V = T;

    closed spec fn view(&self) -> T {
        self.0
    }
}

/// Whether `value` is zero or negative; fails when a comparison fails.
fn is_not_positive<T: HasZero>(value: T) -> (r: Result<bool, FloatError>)
    ensures
        r == not_positive_outcome(value),
{
    let zero = match value.is_zero() {
        Ok(b) => b,
        Err(e) => return Err(e),
    };
    let negative = match value.is_negative() {
        Ok(b) => b,
        Err(e) => return Err(e),
    };
    Ok(zero || negative)
}

/// Whether `value` is negative; fails when the comparison fails.
fn is_negative<T: HasZero>(value: T) -> (r: Result<bool, FloatError>)
    ensures
        r == negative_outcome(value),
{
    value.is_negative()
}

impl<T: HasZero> Positive<T> {
    /// The held value was found positive.
    #[verifier::type_invariant]
    spec fn held_positive(self) -> bool {
        not_positive_outcome(self.0) == Ok::<bool, FloatError>(false)
    }
}

impl<T: HasZero + Into<Float>> Positive<T> {
    /// Validates and wraps a constrained value.
    ///
    /// # Errors
    ///
    /// Returns [`NotPositive`] if `value` violates the constraint or cannot be
    /// compared with zero.
    pub fn new(value: T) -> (r: Result<Self, NotPositive<T>>)
        ensures
            match not_positive_outcome(value) {
                Ok(true) => r matches Err(NotPositive::Constraint { value: v }) && v == value,
                Ok(false) => r matches Ok(p) && p@ == value,
                Err(e) => r matches Err(NotPositive::Comparison { value: v, source }) && v == value
                    && source == e,
            },
    {
        match is_not_positive(value) {
            Ok(true) => Err(NotPositive::Constraint { value }),
            Ok(false) => Ok(Positive(value)),
            Err(source) => Err(NotPositive::Comparison { value, source }),
        }
    }

    /// Returns the validated inner value.
    pub fn inner(self) -> (r: T)
        ensures
            r == self@,
            not_positive_outcome(r) == Ok::<bool, FloatError>(false),
    {
        proof {
            use_type_invariant(&self);
        }
        self.0
    }
}

impl<T: HasZero> NonNegative<T> {
    /// The held value was found not negative.
    #[verifier::type_invariant]
    spec fn held_non_negative(self) -> bool {
        negative_outcome(self.0) == Ok::<bool, FloatError>(false)
    }
}

impl<T: HasZero + Into<Float>> NonNegative<T> {
    /// Validates and wraps a constrained value.
    ///
    /// # Errors
    ///
    /// Returns [`NotNonNegative`] if `value` violates the constraint or cannot
    /// be compared with zero.
    pub fn new(value: T) -> (r: Result<Self, NotNonNegative<T>>)
        ensures
            match negative_outcome(value) {
                Ok(true) => r matches Err(NotNonNegative::Constraint { value: v }) && v == value,
                Ok(false) => r matches Ok(p) && p@ == value,
                Err(e) => r matches Err(NotNonNegative::Comparison { value: v, source }) && v
                    == value && source == e,
            },
    {
        match is_negative(value) {
            Ok(true) => Err(NotNonNegative::Constraint { value }),
            Ok(false) => Ok(NonNegative(value)),
            Err(source) => Err(NotNonNegative::Comparison { value, source }),
        }
    }

    /// Returns the validated inner value.
    pub fn inner(self) -> (r: T)
        ensures
            r == self@,
            negative_outcome(r) == Ok::<bool, FloatError>(false),
    {
        proof {
            use_type_invariant(&self);
        }
        self.0
    }
}

} // verus!
