//! Fractional share quantity newtype with checked arithmetic.
use crate::float::{
    abs_coefficient, lemma_coefficient_at_lower, lemma_same_value_shift, sum_coefficient,
    fits_coefficient, fits_exponent, is_power_of_ten_text, lemma_coefficient_at_distributes,
    min_exponent, power_of_ten_exponent, quotient_is,
    adds_up_to, common_exponent, difference_coefficient, lemma_difference_adds_back, representable,
    coefficient_at, lemma_same_value_from, lemma_same_value_transitive, rem_toward_zero,
    float_add, float_display, float_eq, float_less, float_same_value, fraction_coefficient, float_abs, float_coefficient, float_div, float_exponent, float_frac,
    float_from_fixed_decimal, float_is_zero, float_lt, float_mul, float_parse, float_sub,
    float_to_fixed_decimal_lossy, is_whole_value, lemma_less_than_zero, lemma_same_value_zero,
    lemma_same_value_at, lemma_zero_bytes, same_value, truncated_scaled, zero_bytes, Float,
};
use crate::float_proofs::{
    lemma_difference_by_value, lemma_fields_fit, lemma_fits_smaller, lemma_quot_rem_toward_zero,
    lemma_scaled_product, lemma_truncated_scaled_agrees, lemma_whole_part,
};
use crate::text::{
    decimal_chars_only, decimal_digits, is_plain_decimal, lemma_decimal_digits_len,
    lemma_decimal_digits_spell,
    plain_decimal_coefficient, plain_decimal_scale, push_decimal_u32,
};
use crate::uint::U256;
use crate::HasZero;
use rain_math_float::FloatError;
use std::cmp::Ordering;
use vstd::std_specs::cmp::{PartialEqSpec, PartialOrdSpec};
use vstd::arithmetic::power::pow;
use vstd::prelude::*;

verus! {

/// Fractional share quantity newtype wrapper.
///
/// Represents share quantities that can include fractional amounts (e.g., 1.212 shares).
/// Can be negative (for position tracking). Use `Positive<FractionalShares>` when
/// strictly positive values are required (e.g., order quantities).
#[derive(Clone, Copy, Debug)]
pub struct FractionalShares(Float);

impl View for FractionalShares {
    type V = Seq<u8>;

    closed spec fn view(&self) -> Seq<u8> {
        self.0@
    }
}

/// Errors converting between `FractionalShares` and 18-decimal U256 amounts.
#[derive(Debug)]
pub enum SharesConversionError {
    /// The shares value is negative.
    NegativeValue(Float),
    /// A Float operation failed.
    FloatConversion(FloatError),
}

/// What `is_whole` answers: the fractional part is taken, then compared with zero.
pub open spec fn whole_outcome(raw: Seq<u8>) -> Option<bool> {
    match float_frac(raw) {
        Some(f) => match float_is_zero(f) {
            Ok(b) => Some(b),
            Err(_) => None,
        },
        None => None,
    }
}

/// The text `1e<decimals>` that spells the scale `10^decimals`.
pub open spec fn scale_text(decimals: u32) -> Seq<char> {
    seq!['1', 'e'] + decimal_digits(decimals as nat)
}

/// What truncating to `decimals` places gives: the scale is parsed from
/// `1e<decimals>`, the value is multiplied by it, its fractional part is
/// subtracted, the result is divided by the scale again, and the dust is
/// the value minus that. `None` when any of these steps fails.
pub open spec fn truncation_outcome(raw: Seq<u8>, decimals: u32) -> Option<(Seq<u8>, Seq<u8>)> {
    match float_parse(scale_text(decimals)) {
        None => None,
        Some(scale) => match float_mul(raw, scale) {
            None => None,
            Some(scaled) => match float_frac(scaled) {
                None => None,
                Some(fraction) => match float_sub(scaled, fraction) {
                    None => None,
                    Some(whole_scaled) => match float_div(whole_scaled, scale) {
                        None => None,
                        Some(truncated) => match float_sub(raw, truncated) {
                            None => None,
                            Some(dust) => Some((truncated, dust)),
                        },
                    },
                },
            },
        },
    }
}

/// The steps of the conversion to 18 decimals, as the outcomes of the calls
/// they make: `Ok(Some(v))` an amount, `Ok(None)` a negative value,
/// `Err(())` a failed Float operation.
pub open spec fn to_u256_outcome(raw: Seq<u8>) -> Result<Option<nat>, ()> {
    match float_lt(raw, zero_bytes()) {
        Err(_) => Err(()),
        Ok(true) => Ok(None),
        Ok(false) => match float_is_zero(raw) {
            Err(_) => Err(()),
            Ok(true) => Ok(Some(0)),
            Ok(false) => match float_to_fixed_decimal_lossy(raw, 18) {
                None => Err(()),
                Some(p) => Ok(Some(p.0)),
            },
        },
    }
}

/// `1e<decimals>` is a power-of-ten text for `10^decimals`.
proof fn lemma_scale_text(decimals: u32)
    ensures
        is_power_of_ten_text(scale_text(decimals)),
        power_of_ten_exponent(scale_text(decimals)) == decimals as int,
{
    let t = scale_text(decimals);
    lemma_decimal_digits_spell(decimals as nat);
    assert(t.subrange(2, t.len() as int) =~= decimal_digits(decimals as nat));
}

/// When the scale stands for `10^d` and the product of the value and the
/// scale is exact whenever it has a packed form, the product stands for
/// `c * 10^(e + d)`, provided that number has a packed form.
proof fn lemma_scaled_is_exact(x: Seq<u8>, scale: Seq<u8>, scaled: Seq<u8>, d: int)
    requires
        d >= 0,
        representable(float_coefficient(x), float_exponent(x) + d),
        same_value(float_coefficient(scale), float_exponent(scale), 1, d),
        representable(
            float_coefficient(x) * float_coefficient(scale),
            float_exponent(x) + float_exponent(scale),
        ) ==> same_value(
            float_coefficient(scaled),
            float_exponent(scaled),
            float_coefficient(x) * float_coefficient(scale),
            float_exponent(x) + float_exponent(scale),
        ),
    ensures
        same_value(
            float_coefficient(scaled),
            float_exponent(scaled),
            float_coefficient(x),
            float_exponent(x) + d,
        ),
{
    let (cx, ex) = (float_coefficient(x), float_exponent(x));
    let (cs, es) = (float_coefficient(scale), float_exponent(scale));
    lemma_scaled_product(cx, ex, cs, es, d);
    lemma_representable_same(cx, ex + d, cx * cs, ex + es);
    lemma_same_value_transitive(
        float_coefficient(scaled),
        float_exponent(scaled),
        cx * cs,
        ex + es,
        cx,
        ex + d,
    );
}

/// A value minus its exact fractional part, when that difference is exact
/// whenever it has a packed form, stands for the value's whole part.
proof fn lemma_whole_is_exact(scaled: Seq<u8>, fraction: Seq<u8>, whole: Seq<u8>)
    requires
        scaled.len() == 32,
        same_value(
            float_coefficient(fraction),
            float_exponent(fraction),
            fraction_coefficient(float_coefficient(scaled), float_exponent(scaled)),
            float_exponent(scaled),
        ),
        representable(difference_coefficient(scaled, fraction), common_exponent(scaled, fraction))
            ==> same_value(
            float_coefficient(whole),
            float_exponent(whole),
            difference_coefficient(scaled, fraction),
            common_exponent(scaled, fraction),
        ),
    ensures
        same_value(
            float_coefficient(whole),
            float_exponent(whole),
            truncated_scaled(float_coefficient(scaled), float_exponent(scaled)),
            0,
        ),
{
    let (cm, em) = (float_coefficient(scaled), float_exponent(scaled));
    let fc = fraction_coefficient(cm, em);
    let m = common_exponent(scaled, fraction);
    lemma_whole_representable(scaled, fraction);
    lemma_whole_part(cm, em);
    lemma_same_value_transitive(
        float_coefficient(whole),
        float_exponent(whole),
        difference_coefficient(scaled, fraction),
        m,
        cm - fc,
        em,
    );
    lemma_same_value_transitive(
        float_coefficient(whole),
        float_exponent(whole),
        cm - fc,
        em,
        truncated_scaled(cm, em),
        0,
    );
}

/// A value minus its exact fractional part has a packed form: it is the
/// value with the fraction cut off, at the value's own exponent.
proof fn lemma_whole_representable(scaled: Seq<u8>, fraction: Seq<u8>)
    requires
        scaled.len() == 32,
        same_value(
            float_coefficient(fraction),
            float_exponent(fraction),
            fraction_coefficient(float_coefficient(scaled), float_exponent(scaled)),
            float_exponent(scaled),
        ),
    ensures
        representable(difference_coefficient(scaled, fraction), common_exponent(scaled, fraction)),
        same_value(
            difference_coefficient(scaled, fraction),
            common_exponent(scaled, fraction),
            float_coefficient(scaled) - fraction_coefficient(float_coefficient(scaled), float_exponent(scaled)),
            float_exponent(scaled),
        ),
{
    let (cm, em) = (float_coefficient(scaled), float_exponent(scaled));
    let (cf, ef) = (float_coefficient(fraction), float_exponent(fraction));
    let fc = fraction_coefficient(cm, em);
    let m = common_exponent(scaled, fraction);
    let b = min_exponent(m, em);
    lemma_fields_fit(scaled);
    lemma_difference_by_value(cm, em, cf, ef, fc, em);
    lemma_coefficient_at_distributes(cm, fc, em, b);
    vstd::arithmetic::power::lemma_pow0(10);
    let x = coefficient_at(cm, em, b) - coefficient_at(fc, em, b);
    assert(coefficient_at(x, b, b) == x);
    lemma_same_value_from(cm - fc, em, x, b, b);
    lemma_same_value_transitive(difference_coefficient(scaled, fraction), m, x, b, cm - fc, em);
    if em < 0 {
        vstd::arithmetic::power::lemma_pow_positive(10, (-em) as nat);
        lemma_quot_rem_toward_zero(cm, pow(10, (-em) as nat));
        lemma_fits_smaller(cm, cm - fc);
    }
    assert(same_value(cm - fc, em, difference_coefficient(scaled, fraction), m));
    assert(representable(difference_coefficient(scaled, fraction), m));
}

/// The whole part of `c * 10^(e + d)`, taken back down by `10^d`, stands
/// for the same number as a packed value: the value itself when nothing
/// was cut, else the cut coefficient at exponent `-d`.
proof fn lemma_truncated_witness(cx: int, ex: int, d: int) -> (w: (int, int))
    requires
        fits_coefficient(cx),
        fits_exponent(ex),
        d >= 0,
    ensures
        fits_coefficient(w.0),
        fits_exponent(w.1),
        same_value(w.0, w.1, truncated_scaled(cx, ex + d), -d),
        same_value(w.0, w.1 + d, truncated_scaled(cx, ex + d), 0),
{
    let t = truncated_scaled(cx, ex + d);
    vstd::arithmetic::power::lemma_pow0(10);
    if ex + d >= 0 {
        assert(coefficient_at(cx, ex, -d) == t);
        assert(coefficient_at(t, -d, -d) == t);
        lemma_same_value_from(cx, ex, t, -d, -d);
        assert(coefficient_at(cx, ex + d, 0) == t);
        assert(coefficient_at(t, 0, 0) == t);
        lemma_same_value_from(cx, ex + d, t, 0, 0);
        (cx, ex)
    } else {
        let q = pow(10, (-(ex + d)) as nat);
        vstd::arithmetic::power::lemma_pow_positive(10, (-(ex + d)) as nat);
        lemma_quot_rem_toward_zero(cx, q);
        lemma_fits_smaller(cx, t);
        (t, -d)
    }
}

/// The whole part divided by the scale has a packed form: the whole part
/// of `c * 10^(e + d)` taken back down by `10^d`.
proof fn lemma_quotient_witness(x: Seq<u8>, scale: Seq<u8>, whole: Seq<u8>, d: int) -> (w: (int, int))
    requires
        x.len() == 32,
        d >= 0,
        same_value(float_coefficient(scale), float_exponent(scale), 1, d),
        same_value(
            float_coefficient(whole),
            float_exponent(whole),
            truncated_scaled(float_coefficient(x), float_exponent(x) + d),
            0,
        ),
    ensures
        quotient_is(whole, scale, w.0, w.1),
        fits_coefficient(w.0),
        fits_exponent(w.1),
        same_value(w.0, w.1, truncated_scaled(float_coefficient(x), float_exponent(x) + d), -d),
{
    let (cx, ex) = (float_coefficient(x), float_exponent(x));
    let (cs, es) = (float_coefficient(scale), float_exponent(scale));
    let (cw, ew) = (float_coefficient(whole), float_exponent(whole));
    let t = truncated_scaled(cx, ex + d);
    lemma_fields_fit(x);
    let w = lemma_truncated_witness(cx, ex, d);
    let (qc, qe) = (w.0, w.1);
    lemma_same_value_zero(cs, es, 1, d);
    lemma_scaled_product(qc, qe, cs, es, d);
    lemma_same_value_transitive(qc * cs, qe + es, qc, qe + d, t, 0);
    lemma_same_value_transitive(qc * cs, qe + es, t, 0, cw, ew);
    assert(quotient_is(whole, scale, qc, qe));
    w
}

/// The exact quotient of the whole part by the scale, when division is
/// exact whenever the quotient has a packed form, stands for the whole
/// part taken back down by `10^d`.
proof fn lemma_quotient_is_exact(
    x: Seq<u8>,
    scale: Seq<u8>,
    whole: Seq<u8>,
    truncated: Seq<u8>,
    d: int,
)
    requires
        x.len() == 32,
        d >= 0,
        same_value(float_coefficient(scale), float_exponent(scale), 1, d),
        same_value(
            float_coefficient(whole),
            float_exponent(whole),
            truncated_scaled(float_coefficient(x), float_exponent(x) + d),
            0,
        ),
        forall|qc: int, qe: int|
            #[trigger] quotient_is(whole, scale, qc, qe) && fits_coefficient(qc) && fits_exponent(qe)
                ==> same_value(float_coefficient(truncated), float_exponent(truncated), qc, qe),
    ensures
        same_value(
            float_coefficient(truncated),
            float_exponent(truncated),
            truncated_scaled(float_coefficient(x), float_exponent(x) + d),
            -d,
        ),
{
    let (cx, ex) = (float_coefficient(x), float_exponent(x));
    let t = truncated_scaled(cx, ex + d);
    let w = lemma_quotient_witness(x, scale, whole, d);
    let (qc, qe) = (w.0, w.1);
    lemma_same_value_transitive(
        float_coefficient(truncated),
        float_exponent(truncated),
        qc,
        qe,
        t,
        -d,
    );
}

/// The exact difference between the value and its truncation, when
/// subtraction is exact whenever the difference has a packed form, adds
/// back up to the value.
proof fn lemma_dust_is_exact(x: Seq<u8>, truncated: Seq<u8>, dust: Seq<u8>, d: int)
    requires
        x.len() == 32,
        d >= 0,
        same_value(
            float_coefficient(truncated),
            float_exponent(truncated),
            truncated_scaled(float_coefficient(x), float_exponent(x) + d),
            -d,
        ),
        representable(difference_coefficient(x, truncated), common_exponent(x, truncated))
            ==> same_value(
            float_coefficient(dust),
            float_exponent(dust),
            difference_coefficient(x, truncated),
            common_exponent(x, truncated),
        ),
    ensures
        adds_up_to(truncated, dust, x),
{
    lemma_dust_representable(x, truncated, d);
    lemma_difference_adds_back(x, truncated, dust);
}

/// The value minus its truncation (the dust) has a packed form: the cut-off
/// digits at the value's own exponent, or zero.
proof fn lemma_dust_representable(x: Seq<u8>, truncated: Seq<u8>, d: int)
    requires
        x.len() == 32,
        d >= 0,
        same_value(
            float_coefficient(truncated),
            float_exponent(truncated),
            truncated_scaled(float_coefficient(x), float_exponent(x) + d),
            -d,
        ),
    ensures
        representable(difference_coefficient(x, truncated), common_exponent(x, truncated)),
{
    let (cx, ex) = (float_coefficient(x), float_exponent(x));
    let (ct, et) = (float_coefficient(truncated), float_exponent(truncated));
    let t = truncated_scaled(cx, ex + d);
    let m = common_exponent(x, truncated);
    let b = min_exponent(m, -d);
    lemma_fields_fit(x);
    lemma_difference_by_value(cx, ex, ct, et, t, -d);
    let diff = coefficient_at(cx, ex, b) - coefficient_at(t, -d, b);
    vstd::arithmetic::power::lemma_pow0(10);
    if ex + d >= 0 {
        assert(coefficient_at(cx, ex, -d) == t);
        assert(coefficient_at(t, -d, -d) == t);
        lemma_same_value_from(cx, ex, t, -d, -d);
        lemma_same_value_at(cx, ex, t, -d, b);
        assert(diff == 0);
        assert(same_value(0, 0, diff, b));
    } else {
        let k = (-(ex + d)) as nat;
        let q = pow(10, k);
        let p = pow(10, (ex - b) as nat);
        vstd::arithmetic::power::lemma_pow_positive(10, k);
        lemma_quot_rem_toward_zero(cx, q);
        let r = rem_toward_zero(cx, q);
        lemma_fits_smaller(cx, r);
        vstd::arithmetic::power::lemma_pow_adds(10, k, (ex - b) as nat);
        assert(k + (ex - b) as nat == (-d - b) as nat);
        assert(coefficient_at(t, -d, b) == t * (q * p));
        vstd::arithmetic::mul::lemma_mul_is_associative(t, q, p);
        vstd::arithmetic::mul::lemma_mul_is_distributive_sub_other_way(p, cx, t * q);
        assert(diff == r * p);
        assert(coefficient_at(r, ex, b) == r * p);
        lemma_coefficient_at_itself(diff, b);
        lemma_same_value_from(r, ex, diff, b, b);
    }
    assert(representable(diff, b));
    lemma_representable_same(diff, b, difference_coefficient(x, truncated), m);
}

/// A coefficient written at its own exponent is itself.
proof fn lemma_coefficient_at_itself(c: int, e: int)
    ensures
        coefficient_at(c, e, e) == c,
{
    vstd::arithmetic::power::lemma_pow0(10);
}

/// A number with a packed form keeps it under any other representation.
proof fn lemma_representable_same(c1: int, e1: int, c2: int, e2: int)
    requires
        representable(c1, e1),
        same_value(c2, e2, c1, e1),
    ensures
        representable(c2, e2),
{
    let (wc, we) = choose|wc: int, we: int|
        fits_coefficient(wc) && fits_exponent(we) && #[trigger] same_value(wc, we, c1, e1);
    lemma_same_value_transitive(wc, we, c1, e1, c2, e2);
    assert(same_value(wc, we, c2, e2));
}

/// Truncating a quantity that has at most `decimals` decimal places
/// (`truncate_to_decimals`) keeps all of it: the retained part is the same
/// number and the dust is zero.
pub proof fn law_truncation_at_precision_keeps_the_value(
    shares: FractionalShares,
    decimals: u32,
    truncated: FractionalShares,
    dust: FractionalShares,
)
    requires
        is_whole_value(float_coefficient(shares@), float_exponent(shares@) + decimals),
        same_value(
            float_coefficient(truncated@),
            float_exponent(truncated@),
            truncated_scaled(float_coefficient(shares@), float_exponent(shares@) + decimals),
            -(decimals as int),
        ),
        adds_up_to(truncated@, dust@, shares@),
    ensures
        float_same_value(truncated@, shares@),
        float_coefficient(dust@) == 0,
{
    let (c, e) = (float_coefficient(shares@), float_exponent(shares@));
    let (ct, et) = (float_coefficient(truncated@), float_exponent(truncated@));
    let (cu, eu) = (float_coefficient(dust@), float_exponent(dust@));
    let d = decimals as int;
    let t = truncated_scaled(c, e + d);
    lemma_whole_part(c, e + d);
    assert(c - fraction_coefficient(c, e + d) == c);
    lemma_same_value_shift(c, e + d, t, 0, -d);
    assert(e + d + -d == e);
    lemma_same_value_transitive(ct, et, t, -d, c, e);
    let m = min_exponent(et, eu);
    let b = min_exponent(m, e);
    lemma_same_value_at(sum_coefficient(truncated@, dust@), m, c, e, b);
    lemma_coefficient_at_distributes(coefficient_at(ct, et, m), coefficient_at(cu, eu, m), m, b);
    lemma_coefficient_at_lower(ct, et, m, b);
    lemma_coefficient_at_lower(cu, eu, m, b);
    lemma_same_value_at(ct, et, c, e, b);
    assert(coefficient_at(cu, eu, b) == 0);
    vstd::arithmetic::power::lemma_pow_positive(10, (eu - b) as nat);
    assert(cu == 0) by (nonlinear_arith)
        requires
            cu * pow(10, (eu - b) as nat) == 0,
            pow(10, (eu - b) as nat) > 0,
    ;
}

/// Whether a quantity is whole, and its whole part, depend only on the
/// number and not on how it is packed. `to_whole_shares` states its result
/// over these two alone for numbers below `10^1000`, so there it gives two
/// encodings of one number the same count, or refuses both for the same
/// reason.
pub proof fn law_whole_count_depends_on_number(a: FractionalShares, b: FractionalShares)
    requires
        float_same_value(a@, b@),
    ensures
        is_whole_value(float_coefficient(a@), float_exponent(a@)) == is_whole_value(
            float_coefficient(b@),
            float_exponent(b@),
        ),
        truncated_scaled(float_coefficient(a@), float_exponent(a@)) == truncated_scaled(
            float_coefficient(b@),
            float_exponent(b@),
        ),
{
    let (ca, ea) = (float_coefficient(a@), float_exponent(a@));
    let (cb, eb) = (float_coefficient(b@), float_exponent(b@));
    lemma_truncated_scaled_agrees(ca, ea, cb, eb);
    if is_whole_value(ca, ea) {
        lemma_whole_is_fraction_free(ca, ea, cb, eb);
    }
    if is_whole_value(cb, eb) {
        lemma_whole_is_fraction_free(cb, eb, ca, ea);
    }
}

/// A whole number stays whole under any other representation.
proof fn lemma_whole_is_fraction_free(c1: int, e1: int, c2: int, e2: int)
    requires
        same_value(c1, e1, c2, e2),
        is_whole_value(c1, e1),
    ensures
        is_whole_value(c2, e2),
{
    let t = truncated_scaled(c1, e1);
    lemma_truncated_scaled_agrees(c1, e1, c2, e2);
    lemma_whole_part(c1, e1);
    lemma_whole_part(c2, e2);
    assert(c1 - fraction_coefficient(c1, e1) == c1);
    assert(same_value(c2, e2, c1, e1));
    lemma_same_value_transitive(c2, e2, c1, e1, t, 0);
    lemma_same_value_transitive(c2, e2, t, 0, c2 - fraction_coefficient(c2, e2), e2);
    lemma_coefficient_at_itself(c2, e2);
    lemma_coefficient_at_itself(c2 - fraction_coefficient(c2, e2), e2);
}

/// An 18-decimal amount converted to shares (`from_u256_18_decimals`) and
/// back (`to_u256_18_decimals`) is the same amount.
pub proof fn law_amount_round_trip(amount: U256, shares: FractionalShares, back: U256)
    requires
        same_value(float_coefficient(shares@), float_exponent(shares@), amount@ as int, -18),
        back@ == truncated_scaled(float_coefficient(shares@), float_exponent(shares@) + 18),
    ensures
        back@ == amount@,
{
    let (c, e) = (float_coefficient(shares@), float_exponent(shares@));
    lemma_same_value_shift(c, e, amount@ as int, -18, 18);
    assert(-18 + 18 == 0);
    lemma_truncated_scaled_agrees(c, e + 18, amount@ as int, 0);
    vstd::arithmetic::power::lemma_pow0(10);
}

/// Converting a quantity that is not negative and has at most 18 decimal
/// places to an 18-decimal amount (`to_u256_18_decimals`) and that amount
/// back (`from_u256_18_decimals`) gives the same number.
pub proof fn law_u256_round_trip(shares: FractionalShares, amount: U256, back: FractionalShares)
    requires
        float_coefficient(shares@) >= 0,
        is_whole_value(float_coefficient(shares@), float_exponent(shares@) + 18),
        amount@ == truncated_scaled(float_coefficient(shares@), float_exponent(shares@) + 18),
        same_value(float_coefficient(back@), float_exponent(back@), amount@ as int, -18),
    ensures
        float_same_value(back@, shares@),
{
    let c = float_coefficient(shares@);
    let e = float_exponent(shares@);
    let k = e + 18;
    let a = amount@ as int;
    if k >= 0 {
        vstd::arithmetic::power::lemma_pow0(10);
        assert(coefficient_at(a, -18, -18) == a);
        lemma_same_value_from(a, -18, c, e, -18);
    } else {
        let q = pow(10, (-k) as nat);
        vstd::arithmetic::power::lemma_pow_positive(10, (-k) as nat);
        assert(rem_toward_zero(c, q) == 0);
        vstd::arithmetic::div_mod::lemma_fundamental_div_mod(c, q);
        assert(a == c / q);
        assert(coefficient_at(a, -18, e) == a * q);
        vstd::arithmetic::power::lemma_pow0(10);
        assert(coefficient_at(c, e, e) == c);
        assert(a * q == c) by (nonlinear_arith)
            requires
                c == q * (c / q) + c % q,
                c % q == 0,
                a == c / q,
        ;
        lemma_same_value_from(a, -18, c, e, e);
    }
    lemma_same_value_transitive(
        float_coefficient(back@),
        float_exponent(back@),
        a,
        -18,
        c,
        e,
    );
}

impl FractionalShares {
    /// Zero shares.
    pub fn zero() -> (r: Self)
        ensures
            r@ == zero_bytes(),
    {
        FractionalShares(Float::zero())
    }

    /// Wraps a Float share quantity.
    pub fn new(value: Float) -> (r: Self)
        ensures
            r@ == value@,
    {
        FractionalShares(value)
    }

    /// The Float share quantity.
    pub fn inner(self) -> (r: Float)
        ensures
            r@ == self@,
    {
        self.0
    }

    /// The decimal text of the quantity (what its `Display` writes).
    pub fn to_string(&self) -> (r: String)
        ensures
            r@ == float_display(self@),
            decimal_chars_only(r@) ==> is_plain_decimal(r@) && same_value(
                float_coefficient(self@),
                float_exponent(self@),
                plain_decimal_coefficient(r@),
                -(plain_decimal_scale(r@) as int),
            ),
    {
        self.0.format_with_fallback()
    }

    /// The absolute value.
    pub fn abs(self) -> (r: Result<Self, FloatError>)
        ensures
            representable(abs_coefficient(self@), float_exponent(self@)) ==> r is Ok,
            r is Ok <==> float_abs(self@) is Some,
            r matches Ok(s) ==> float_abs(self@) == Some(s@),
            r matches Ok(s) ==> (representable(abs_coefficient(self@), float_exponent(self@))
                ==> same_value(
                float_coefficient(s@),
                float_exponent(s@),
                abs_coefficient(self@),
                float_exponent(self@),
            )),
    {
        match self.0.abs() {
            Ok(f) => Ok(FractionalShares(f)),
            Err(e) => Err(e),
        }
    }

    /// Returns true if this represents a whole number of shares (no fractional part).
    pub fn is_whole(self) -> (r: Result<bool, FloatError>)
        ensures
            r is Ok <==> whole_outcome(self@) is Some,
            r matches Ok(b) ==> whole_outcome(self@) == Some(b),
            r matches Ok(b) ==> b == is_whole_value(float_coefficient(self@), float_exponent(self@)),
            r is Ok,
    {
        let frac = match self.0.frac() {
            Ok(f) => f,
            Err(e) => return Err(e),
        };
        let r = frac.is_zero();
        proof {
            if r is Ok {
                lemma_same_value_zero(
                    float_coefficient(frac@),
                    float_exponent(frac@),
                    fraction_coefficient(float_coefficient(self@), float_exponent(self@)),
                    float_exponent(self@),
                );
            }
        }
        r
    }

    /// Truncates to `decimals` decimal places and returns the retained value
    /// together with the discarded dust.
    ///
    /// # Errors
    ///
    /// Returns [`FloatError`] when the underlying Float operations fail.
    pub fn truncate_to_decimals(self, decimals: u32) -> (r: Result<(Self, Self), FloatError>)
        ensures
            r is Ok <==> truncation_outcome(self@, decimals) is Some,
            r matches Ok(p) ==> truncation_outcome(self@, decimals) == Some((p.0@, p.1@)),
            r matches Ok(p) ==> (representable(
                difference_coefficient(self@, p.0@),
                common_exponent(self@, p.0@),
            ) ==> adds_up_to(p.0@, p.1@, self@)),
            r matches Ok(p) ==> (representable(
                float_coefficient(self@),
                float_exponent(self@) + decimals,
            ) ==> {
                &&& same_value(
                    float_coefficient(p.0@),
                    float_exponent(p.0@),
                    truncated_scaled(float_coefficient(self@), float_exponent(self@) + decimals),
                    -(decimals as int),
                )
                &&& adds_up_to(p.0@, p.1@, self@)
            }),
            decimals <= i32::MAX && representable(
                float_coefficient(self@),
                float_exponent(self@) + decimals,
            ) ==> r is Ok,
    {
        let ghost d = decimals as int;
        let ghost good = decimals <= i32::MAX && representable(
            float_coefficient(self@),
            float_exponent(self@) + d,
        );
        let mut text = "1e".to_string();
        proof {
            reveal_strlit("1e");
            vstd::string::to_string_from_display_ensures_for_str("1e", text);
        }
        push_decimal_u32(&mut text, decimals);
        assert(text@ =~= scale_text(decimals));
        proof {
            self.0.lemma_view_len();
            lemma_scale_text(decimals);
            reveal_with_fuel(pow, 11);
            lemma_decimal_digits_len(decimals as nat, 10);
        }
        let scale = match Float::parse(text) {
            Ok(f) => f,
            Err(e) => return Err(e),
        };
        proof {
            if good {
                lemma_scaled_product(
                    float_coefficient(self@),
                    float_exponent(self@),
                    float_coefficient(scale@),
                    float_exponent(scale@),
                    d,
                );
                lemma_representable_same(
                    float_coefficient(self@),
                    float_exponent(self@) + d,
                    float_coefficient(self@) * float_coefficient(scale@),
                    float_exponent(self@) + float_exponent(scale@),
                );
            }
        }
        let scaled = match self.0.mul(scale) {
            Ok(f) => f,
            Err(e) => return Err(e),
        };
        let fraction = match scaled.frac() {
            Ok(f) => f,
            Err(e) => return Err(e),
        };
        proof {
            scaled.lemma_view_len();
            lemma_whole_representable(scaled@, fraction@);
        }
        let whole_scaled = match scaled.sub(fraction) {
            Ok(f) => f,
            Err(e) => return Err(e),
        };
        proof {
            if good {
                lemma_scaled_is_exact(self@, scale@, scaled@, d);
                lemma_whole_is_exact(scaled@, fraction@, whole_scaled@);
                lemma_truncated_scaled_agrees(
                    float_coefficient(scaled@),
                    float_exponent(scaled@),
                    float_coefficient(self@),
                    float_exponent(self@) + d,
                );
                let w = lemma_quotient_witness(self@, scale@, whole_scaled@, d);
                assert(quotient_is(whole_scaled@, scale@, w.0, w.1) && fits_coefficient(w.0)
                    && fits_exponent(w.1));
            }
        }
        let truncated = match whole_scaled.div(scale) {
            Ok(f) => FractionalShares(f),
            Err(e) => return Err(e),
        };
        proof {
            if good {
                lemma_quotient_is_exact(self@, scale@, whole_scaled@, truncated@, d);
                lemma_dust_representable(self@, truncated@, d);
            }
        }
        let dust = match self.0.sub(truncated.0) {
            Ok(f) => FractionalShares(f),
            Err(e) => return Err(e),
        };
        proof {
            if representable(difference_coefficient(self@, truncated@), common_exponent(self@, truncated@)) {
                lemma_difference_adds_back(self@, truncated@, dust@);
            }
            if representable(float_coefficient(self@), float_exponent(self@) + d) {
                lemma_scaled_is_exact(self@, scale@, scaled@, d);
                lemma_whole_is_exact(scaled@, fraction@, whole_scaled@);
                lemma_truncated_scaled_agrees(
                    float_coefficient(scaled@),
                    float_exponent(scaled@),
                    float_coefficient(self@),
                    float_exponent(self@) + d,
                );
                lemma_quotient_is_exact(self@, scale@, whole_scaled@, truncated@, d);
                lemma_dust_is_exact(self@, truncated@, dust@, d);
            }
        }
        Ok((truncated, dust))
    }

    /// Converts to U256 with 18 decimal places (standard ERC20 decimals).
    ///
    /// Uses lossy conversion because Float's 224-bit coefficient may carry
    /// more than 18 decimal places of precision, but ERC-20 tokens are 18
    /// decimals so the extra precision is representational noise.
    pub fn to_u256_18_decimals(self) -> (r: Result<U256, SharesConversionError>)
        ensures
            match to_u256_outcome(self@) {
                Err(()) => r matches Err(SharesConversionError::FloatConversion(_)),
                Ok(None) => r matches Err(SharesConversionError::NegativeValue(f)) && f@ == self@,
                Ok(Some(v)) => r matches Ok(u) && u@ == v,
            },
            r matches Err(SharesConversionError::NegativeValue(_)) ==> float_coefficient(self@) < 0,
            r matches Ok(u) ==> float_coefficient(self@) >= 0 && u@ == truncated_scaled(
                float_coefficient(self@),
                float_exponent(self@) + 18,
            ),
            float_coefficient(self@) < 0 ==> (r matches Err(
                SharesConversionError::NegativeValue(f),
            ) && f@ == self@),
            float_coefficient(self@) >= 0 && float_exponent(self@) + 18 <= 80 && truncated_scaled(
                float_coefficient(self@),
                float_exponent(self@) + 18,
            ) <= 0xffff_ffff_ffff_ffff_ffff_ffff_ffff_ffff_ffff_ffff_ffff_ffff_ffff_ffff_ffff_ffff ==> (r matches Ok(u) && u@ == truncated_scaled(
                float_coefficient(self@),
                float_exponent(self@) + 18,
            )),
    {
        proof {
            lemma_less_than_zero(self@);
        }
        let negative = match self.0.lt(Float::zero()) {
            Ok(b) => b,
            Err(e) => return Err(SharesConversionError::FloatConversion(e)),
        };
        if negative {
            return Err(SharesConversionError::NegativeValue(self.0));
        }
        let zero = match self.0.is_zero() {
            Ok(b) => b,
            Err(e) => return Err(SharesConversionError::FloatConversion(e)),
        };
        if zero {
            let z = U256::zero();
            assert(truncated_scaled(0, float_exponent(self@) + 18) == 0) by {
                vstd::arithmetic::power::lemma_pow_positive(10, (float_exponent(self@) + 18) as nat);
                vstd::arithmetic::power::lemma_pow_positive(10, (-(float_exponent(self@) + 18)) as nat);
            }
            return Ok(z);
        }
        match self.0.to_fixed_decimal_lossy(18) {
            Ok(p) => Ok(p.0),
            Err(e) => Err(SharesConversionError::FloatConversion(e)),
        }
    }

    /// Creates `FractionalShares` from a U256 value with 18 decimal places.
    ///
    /// # Errors
    ///
    /// Returns [`SharesConversionError`] if the Float conversion fails.
    pub fn from_u256_18_decimals(value: U256) -> (r: Result<Self, SharesConversionError>)
        ensures
            value@ == 0 ==> (r matches Ok(s) && s@ == zero_bytes()),
            value@ != 0 ==> (r is Ok <==> float_from_fixed_decimal(value@, 18) is Some),
            value@ != 0 ==> (r matches Ok(s) ==> float_from_fixed_decimal(value@, 18) == Some(
                s@,
            )),
            r matches Err(e) ==> e is FloatConversion,
            r matches Ok(s) ==> same_value(
                float_coefficient(s@),
                float_exponent(s@),
                value@ as int,
                -18,
            ),
    {
        if value.is_zero() {
            proof {
                lemma_zero_bytes();
            }
            return Ok(Self::zero());
        }
        match Float::from_fixed_decimal(value, 18) {
            Ok(f) => Ok(FractionalShares(f)),
            Err(e) => Err(SharesConversionError::FloatConversion(e)),
        }
    }
}

impl HasZero for FractionalShares {
    open spec fn zero_outcome(&self) -> Result<bool, FloatError> {
        Ok(float_coefficient(self@) == 0)
    }

    open spec fn negative_outcome(&self) -> Result<bool, FloatError> {
        Ok(float_coefficient(self@) < 0)
    }

    fn zero() -> (r: Self)
        ensures
            r@ == zero_bytes(),
    {
        FractionalShares(Float::zero())
    }

    fn is_zero(&self) -> (r: Result<bool, FloatError>)
        ensures
            r is Ok,
            r == Ok::<bool, FloatError>(float_coefficient(self@) == 0),
    {
        self.0.is_zero()
    }

    fn is_negative(&self) -> (r: Result<bool, FloatError>)
        ensures
            r is Ok,
            r == Ok::<bool, FloatError>(float_coefficient(self@) < 0),
    {
        proof {
            lemma_less_than_zero(self@);
        }
        self.0.lt(Float::zero())
    }
}

impl From<FractionalShares> for Float {
    fn from(value: FractionalShares) -> (r: Float) {
        value.0
    }
}

impl vstd::std_specs::convert::FromSpecImpl<FractionalShares> for Float {
    open spec fn obeys_from_spec() -> bool {
        true
    }

    closed spec fn from_spec(v: FractionalShares) -> Float {
        v.0
    }
}

impl PartialEq for FractionalShares {
    fn eq(&self, other: &Self) -> (r: bool) {
        match self.0.eq(other.0) {
            Ok(b) => b,
            Err(_) => false,
        }
    }
}

impl vstd::std_specs::cmp::PartialEqSpecImpl for FractionalShares {
    open spec fn obeys_eq_spec() -> bool {
        true
    }

    open spec fn eq_spec(&self, other: &Self) -> bool {
        float_eq(self@, other@) is Some && float_same_value(self@, other@)
    }
}

impl Eq for FractionalShares {}

impl PartialOrd for FractionalShares {
    fn partial_cmp(&self, other: &Self) -> (r: Option<Ordering>) {
        let lt = match self.0.lt(other.0) {
            Ok(b) => b,
            Err(_) => return None,
        };
        if lt {
            Some(Ordering::Less)
        } else {
            match self.0.eq(other.0) {
                Ok(true) => Some(Ordering::Equal),
                Ok(false) => Some(Ordering::Greater),
                Err(_) => None,
            }
        }
    }
}

impl vstd::std_specs::cmp::PartialOrdSpecImpl for FractionalShares {
    open spec fn obeys_partial_cmp_spec() -> bool {
        true
    }

    open spec fn partial_cmp_spec(&self, other: &Self) -> Option<Ordering> {
        if float_lt(self@, other@) is Err {
            None
        } else if float_less(self@, other@) {
            Some(Ordering::Less)
        } else if float_eq(self@, other@) is None {
            None
        } else if float_same_value(self@, other@) {
            Some(Ordering::Equal)
        } else {
            Some(Ordering::Greater)
        }
    }
}

/// Equality and the ordering agree: where both comparisons succeed, two
/// quantities are equal exactly when `partial_cmp` finds them `Equal`.
pub proof fn law_equality_matches_ordering(a: FractionalShares, b: FractionalShares)
    requires
        float_lt(a@, b@) is Ok,
        float_eq(a@, b@) is Some,
    ensures
        a.eq_spec(&b) == (a.partial_cmp_spec(&b) == Some(Ordering::Equal)),
{
}

/// The ordering is antisymmetric: where the comparisons succeed, `a` is
/// `Less` than `b` exactly when `b` is `Greater` than `a`.
pub proof fn law_ordering_is_antisymmetric(a: FractionalShares, b: FractionalShares)
    requires
        float_lt(a@, b@) is Ok,
        float_lt(b@, a@) is Ok,
        float_eq(a@, b@) is Some,
        float_eq(b@, a@) is Some,
    ensures
        (a.partial_cmp_spec(&b) == Some(Ordering::Less)) == (b.partial_cmp_spec(&a) == Some(
            Ordering::Greater,
        )),
{
}

impl std::ops::Add for FractionalShares {
    type Output = Result<Self, FloatError>;

    fn add(self, rhs: Self) -> (r: Self::Output)
        ensures
            representable(crate::float::sum_coefficient(self@, rhs@), common_exponent(self@, rhs@))
                ==> r is Ok,
            r is Ok <==> float_add(self@, rhs@) is Some,
            r matches Ok(s) ==> float_add(self@, rhs@) == Some(s@),
            r matches Ok(s) ==> (representable(
                crate::float::sum_coefficient(self@, rhs@),
                common_exponent(self@, rhs@),
            ) ==> adds_up_to(self@, rhs@, s@)),
    {
        match self.0.add(rhs.0) {
            Ok(f) => Ok(FractionalShares(f)),
            Err(e) => Err(e),
        }
    }
}

impl vstd::std_specs::ops::AddSpecImpl for FractionalShares {
    open spec fn obeys_add_spec() -> bool {
        false
    }

    open spec fn add_req(self, rhs: Self) -> bool {
        true
    }

    open spec fn add_spec(self, rhs: Self) -> Self::Output {
        vstd::pervasive::arbitrary()
    }
}

impl std::ops::Sub for FractionalShares {
    type Output = Result<Self, FloatError>;

    fn sub(self, rhs: Self) -> (r: Self::Output)
        ensures
            representable(difference_coefficient(self@, rhs@), common_exponent(self@, rhs@))
                ==> r is Ok,
            r is Ok <==> float_sub(self@, rhs@) is Some,
            r matches Ok(s) ==> float_sub(self@, rhs@) == Some(s@),
            r matches Ok(s) ==> (representable(difference_coefficient(self@, rhs@), common_exponent(self@, rhs@))
                ==> same_value(
                float_coefficient(s@),
                float_exponent(s@),
                difference_coefficient(self@, rhs@),
                common_exponent(self@, rhs@),
            )),
    {
        match self.0.sub(rhs.0) {
            Ok(f) => Ok(FractionalShares(f)),
            Err(e) => Err(e),
        }
    }
}

impl vstd::std_specs::ops::SubSpecImpl for FractionalShares {
    open spec fn obeys_sub_spec() -> bool {
        false
    }

    open spec fn sub_req(self, rhs: Self) -> bool {
        true
    }

    open spec fn sub_spec(self, rhs: Self) -> Self::Output {
        vstd::pervasive::arbitrary()
    }
}

impl std::ops::Mul<Float> for FractionalShares {
    type Output = Result<Self, FloatError>;

    fn mul(self, rhs: Float) -> (r: Self::Output)
        ensures
            representable(
                float_coefficient(self@) * float_coefficient(rhs@),
                float_exponent(self@) + float_exponent(rhs@),
            ) ==> r is Ok,
            r is Ok <==> float_mul(self@, rhs@) is Some,
            r matches Ok(s) ==> float_mul(self@, rhs@) == Some(s@),
            r matches Ok(s) ==> (representable(
                float_coefficient(self@) * float_coefficient(rhs@),
                float_exponent(self@) + float_exponent(rhs@),
            ) ==> same_value(
                float_coefficient(s@),
                float_exponent(s@),
                float_coefficient(self@) * float_coefficient(rhs@),
                float_exponent(self@) + float_exponent(rhs@),
            )),
    {
        match self.0.mul(rhs) {
            Ok(f) => Ok(FractionalShares(f)),
            Err(e) => Err(e),
        }
    }
}

impl vstd::std_specs::ops::MulSpecImpl<Float> for FractionalShares {
    open spec fn obeys_mul_spec() -> bool {
        false
    }

    open spec fn mul_req(self, rhs: Float) -> bool {
        true
    }

    open spec fn mul_spec(self, rhs: Float) -> Self::Output {
        vstd::pervasive::arbitrary()
    }
}

impl std::str::FromStr for FractionalShares {
    type Err = FloatError;

    fn from_str(value: &str) -> (r: Result<Self, FloatError>)
        ensures
            r is Ok <==> float_parse(value@) is Some,
            r matches Ok(s) ==> float_parse(value@) == Some(s@),
            value@.len() <= 64 && is_plain_decimal(value@) && representable(
                plain_decimal_coefficient(value@),
                -(plain_decimal_scale(value@) as int),
            ) ==> r is Ok,
            r matches Ok(s) ==> (is_plain_decimal(value@) ==> same_value(
                float_coefficient(s@),
                float_exponent(s@),
                plain_decimal_coefficient(value@),
                -(plain_decimal_scale(value@) as int),
            )),
    {
        let text = value.to_string();
        proof {
            vstd::string::to_string_from_display_ensures_for_str(value, text);
        }
        match Float::parse(text) {
            Ok(f) => Ok(FractionalShares(f)),
            Err(e) => Err(e),
        }
    }
}

} // verus!
