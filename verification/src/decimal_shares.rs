//! Decimal-scale-preserving share quantities for exact wire protocols.
use crate::decimal::{
    decimal_adds_up_to, decimal_text, lemma_text_determines_representation, lemma_text_len, decimal_product_exact, decimal_product_overflows, decimal_product_size,
    lemma_le_nat_bound, fits_plain_decimal, lemma_mantissa_fits, decimal_checked_div, decimal_checked_mul, decimal_checked_sub, decimal_fract,
    decimal_from_str_exact, decimal_from_u64, decimal_magnitude, decimal_mantissa,
    decimal_negative, decimal_parse, decimal_same_representation, decimal_same_value,
    decimal_scale, decimal_stands_for, decimal_to_string, decimal_trunc, decimal_zero_bytes,
    lemma_decimal_same_as_zero, lemma_stands_for_same_value, lemma_stands_for_zero, Decimal,
};
use crate::float::{
    adds_up_to, coefficient_at, common_exponent, lemma_coefficient_at_distributes,
    lemma_coefficient_at_lower, lemma_same_value_at, lemma_same_value_from, fits_exponent, float_coefficient, float_display,
    float_exponent, float_parse, lemma_same_value_shift, lemma_same_value_transitive,
    lemma_sum_by_value, min_exponent, rem_toward_zero, representable, same_value, sum_coefficient,
    truncated_scaled, Float,
};
use crate::float_proofs::lemma_truncated_scaled_agrees;
use crate::shares::{truncation_outcome, FractionalShares};
use crate::text::{
    decimal_digits, is_plain_decimal, lemma_decimal_digits_spell, plain_decimal_coefficient,
    plain_decimal_scale,
};
use crate::uint::U256;
use rain_math_float::FloatError;
use vstd::arithmetic::power::pow;
use vstd::prelude::*;
use vstd::std_specs::cmp::PartialEqSpec;

verus! {

/// Maximum decimal places supported by Alpaca's tokenization API.
pub const ALPACA_MAX_DECIMALS: u32 = 9;

/// `10^18`, the scale of 18-decimal fixed-point amounts.
pub const WEI_PER_UNIT: u64 = 1_000_000_000_000_000_000;

/// A numeric share quantity that preserves its decimal scale for wire output.
///
/// Parsing uses `rust_decimal`'s exact decimal grammar: scientific notation
/// is rejected, underscore separators are accepted, and more than 28
/// fractional digits are rejected even when the excess digits are zero.
///
/// Equality is numeric, matching `rust_decimal`: `100.50` equals `100.5`.
/// Use [`Self::has_same_wire_representation`] when lexical scale matters.
/// Convert to [`FractionalShares`] for arithmetic.
#[derive(Clone, Copy, Debug)]
pub struct DecimalShares(Decimal);

impl View for DecimalShares {
    type V = Seq<u8>;

    closed spec fn view(&self) -> Seq<u8> {
        self.0@
    }
}

/// Errors converting exact decimal shares at arithmetic boundaries.
#[derive(Debug)]
pub enum DecimalSharesConversionError {
    /// Decimal arithmetic exceeded the legacy quantity range.
    ArithmeticOverflow,
    /// The quantity is negative and cannot be represented by `U256`.
    NegativeValue { value: Decimal },
    /// The scaled quantity has a fractional component.
    PrecisionLoss { value: Decimal },
    /// Rain Float truncation disagrees with issuance's `Decimal` truncation.
    TruncationMismatch { rain_float: Decimal, decimal: Decimal },
    /// Rain Float arithmetic or conversion failed.
    Float(FloatError),
    /// The value cannot be represented by `rust_decimal`.
    Decimal(rust_decimal::Error),
}

/// `10^e` fits in 64 bits.
pub open spec fn pow10_fits_u64(e: nat) -> bool {
    pow(10, e) <= u64::MAX
}

/// The legacy `rust_decimal` truncation to `decimals` places: the value is
/// multiplied by `10^decimals`, truncated, divided by `10^decimals` again,
/// and the dust is the value minus that. `None` when `10^decimals` does not
/// fit in 64 bits or a checked operation overflows.
pub open spec fn legacy_truncation(d: Seq<u8>, decimals: u32) -> Option<(Seq<u8>, Seq<u8>)> {
    if !pow10_fits_u64(decimals as nat) {
        None
    } else {
        let multiplier = decimal_from_u64(pow(10, decimals as nat) as nat);
        match decimal_checked_mul(d, multiplier) {
            None => None,
            Some(scaled) => match decimal_checked_div(decimal_trunc(scaled), multiplier) {
                None => None,
                Some(truncated) => match decimal_checked_sub(d, truncated) {
                    None => None,
                    Some(dust) => Some((truncated, dust)),
                },
            },
        }
    }
}

/// The Rain Float form of a decimal: its text, parsed.
pub open spec fn float_of_decimal(d: Seq<u8>) -> Option<Seq<u8>> {
    float_parse(decimal_to_string(d))
}

/// The canonical decimal of a Rain Float quantity: its display text, read exactly.
pub open spec fn decimal_of_float(f: Seq<u8>) -> Option<Seq<u8>> {
    decimal_from_str_exact(float_display(f))
}

/// The Rain Float truncation of a decimal quantity.
pub open spec fn float_truncation(d: Seq<u8>, decimals: u32) -> Option<(Seq<u8>, Seq<u8>)> {
    match float_of_decimal(d) {
        None => None,
        Some(f) => truncation_outcome(f, decimals),
    }
}

/// The mantissa of `d` is a whole multiple of `10^scale`: `d` is a whole number.
pub open spec fn decimal_is_whole(d: Seq<u8>) -> bool {
    rem_toward_zero(decimal_mantissa(d), pow(10, decimal_scale(d))) == 0
}

/// The whole part of a decimal (its magnitude with the fraction cut off).
pub open spec fn decimal_whole_magnitude(d: Seq<u8>) -> nat {
    decimal_magnitude(d) / (pow(10, decimal_scale(d)) as nat)
}

/// `10^exponent` as a `u64`, `None` when it does not fit (`u64::checked_pow` of ten).
fn checked_pow10_u64(exponent: u32) -> (r: Option<u64>)
    ensures
        pow10_fits_u64(exponent as nat) ==> r == Some(pow(10, exponent as nat) as u64),
        !pow10_fits_u64(exponent as nat) ==> r is None,
{
    let mut value: u64 = 1;
    let mut i: u32 = 0;
    proof {
        vstd::arithmetic::power::lemma_pow0(10);
    }
    while i < exponent
        invariant
            i <= exponent,
            value as int == pow(10, i as nat),
        decreases exponent - i,
    {
        proof {
            vstd::arithmetic::power::lemma_pow1(10);
            vstd::arithmetic::power::lemma_pow_adds(10, i as nat, 1);
        }
        match value.checked_mul(10) {
            Some(v) => {
                value = v;
            },
            None => {
                proof {
                    vstd::arithmetic::power::lemma_pow_increases(10, (i + 1) as nat, exponent as nat);
                }
                return None;
            },
        }
        i = i + 1;
    }
    Some(value)
}

/// `10^d` fits in 64 bits only for `d <= 19`.
proof fn lemma_pow10_fits_u64_small(d: nat)
    requires
        pow10_fits_u64(d),
    ensures
        d <= 19,
{
    if d > 19 {
        vstd::arithmetic::power::lemma_pow_increases(10, 20, d);
        reveal_with_fuel(pow, 21);
        assert(pow(10, 20) > u64::MAX);
    }
}

/// A quantity read from a decimal and scaled by `10^d`, for `d <= 19`, has
/// a packed form: the decimal's own mantissa at exponent `d - scale`.
proof fn lemma_scaled_decimal_representable(b: Seq<u8>, cf: int, ef: int, d: int)
    requires
        b.len() == 16,
        0 <= d <= 19,
        same_value(cf, ef, decimal_mantissa(b), -(decimal_scale(b) as int)),
    ensures
        representable(cf, ef + d),
{
    let ms = decimal_mantissa(b);
    let ss = decimal_scale(b) as int;
    lemma_mantissa_fits(b);
    assert(same_value(ms, -ss, cf, ef));
    lemma_same_value_shift(ms, -ss, cf, ef, d);
    assert(-ss + d == d - ss);
    assert(fits_exponent(d - ss));
    assert(same_value(ms, d - ss, cf, ef + d));
}

/// The two parts of a truncation, each the same number as the matching
/// Float part, add back up to the quantity; the kept part is the quantity
/// truncated towards zero to `d` decimal places.
proof fn lemma_wire_truncation(
    q: Seq<u8>,
    f: Seq<u8>,
    t: Seq<u8>,
    u: Seq<u8>,
    kept: Seq<u8>,
    dropped: Seq<u8>,
    d: int,
)
    requires
        same_value(float_coefficient(f), float_exponent(f), decimal_mantissa(q), -(decimal_scale(q) as int)),
        same_value(
            float_coefficient(t),
            float_exponent(t),
            truncated_scaled(float_coefficient(f), float_exponent(f) + d),
            -d,
        ),
        adds_up_to(t, u, f),
        same_value(decimal_mantissa(kept), -(decimal_scale(kept) as int), float_coefficient(t), float_exponent(t)),
        same_value(
            decimal_mantissa(dropped),
            -(decimal_scale(dropped) as int),
            float_coefficient(u),
            float_exponent(u),
        ),
    ensures
        decimal_adds_up_to(kept, dropped, q),
        same_value(
            decimal_mantissa(kept),
            -(decimal_scale(kept) as int),
            truncated_scaled(decimal_mantissa(q), d - decimal_scale(q)),
            -d,
        ),
{
    let (cf, ef) = (float_coefficient(f), float_exponent(f));
    let (ct, et) = (float_coefficient(t), float_exponent(t));
    let (cu, eu) = (float_coefficient(u), float_exponent(u));
    let (mq, eq) = (decimal_mantissa(q), -(decimal_scale(q) as int));
    let (mk, ek) = (decimal_mantissa(kept), -(decimal_scale(kept) as int));
    let (md, ed) = (decimal_mantissa(dropped), -(decimal_scale(dropped) as int));
    lemma_sum_by_value(mk, ek, md, ed, ct, et, cu, eu);
    let mw = min_exponent(ek, ed);
    let sum = coefficient_at(mk, ek, mw) + coefficient_at(md, ed, mw);
    lemma_same_value_transitive(sum, mw, sum_coefficient(t, u), common_exponent(t, u), cf, ef);
    lemma_same_value_transitive(sum, mw, cf, ef, mq, eq);
    lemma_same_value_shift(cf, ef, mq, eq, d);
    assert(eq + d == d - decimal_scale(q));
    lemma_truncated_scaled_agrees(cf, ef + d, mq, d - decimal_scale(q));
    lemma_same_value_transitive(mk, ek, ct, et, truncated_scaled(mq, d - decimal_scale(q)), -d);
}

/// Two fractions `x / p` and `y / q` that are the same number are whole
/// together, with the same whole value.
proof fn lemma_whole_together(x: int, p: int, y: int, q: int)
    requires
        x >= 0,
        y >= 0,
        p > 0,
        q > 0,
        x * q == y * p,
    ensures
        (x % p == 0) == (y % q == 0),
        x % p == 0 ==> (x / p) * q == y,
{
    vstd::arithmetic::div_mod::lemma_fundamental_div_mod(x, p);
    vstd::arithmetic::div_mod::lemma_fundamental_div_mod(y, q);
    if x % p == 0 {
        let k = x / p;
        assert(k * q == y) by (nonlinear_arith)
            requires
                x == p * k,
                x * q == y * p,
                p > 0,
        ;
        vstd::arithmetic::div_mod::lemma_mod_multiples_basic(k, q);
        assert(q * k == k * q) by (nonlinear_arith);
    }
    if y % q == 0 {
        let j = y / q;
        assert(j * p == x) by (nonlinear_arith)
            requires
                y == q * j,
                x * q == y * p,
                q > 0,
        ;
        vstd::arithmetic::div_mod::lemma_mod_multiples_basic(j, p);
    }
}

/// `10^18` is the number of smallest units in one share.
proof fn lemma_wei_is_pow10()
    ensures
        pow(10, 18) == WEI_PER_UNIT,
{
    reveal_with_fuel(pow, 19);
}

/// Decimals that add up to a number still add up when all three are
/// written at a common lower exponent.
proof fn lemma_decimal_sum_at(a: Seq<u8>, b: Seq<u8>, c: Seq<u8>, base: int)
    requires
        decimal_adds_up_to(a, b, c),
        base <= -(decimal_scale(a) as int),
        base <= -(decimal_scale(b) as int),
        base <= -(decimal_scale(c) as int),
    ensures
        coefficient_at(decimal_mantissa(a), -(decimal_scale(a) as int), base) + coefficient_at(
            decimal_mantissa(b),
            -(decimal_scale(b) as int),
            base,
        ) == coefficient_at(decimal_mantissa(c), -(decimal_scale(c) as int), base),
{
    let (ma, ea) = (decimal_mantissa(a), -(decimal_scale(a) as int));
    let (mb, eb) = (decimal_mantissa(b), -(decimal_scale(b) as int));
    let (mc, ec) = (decimal_mantissa(c), -(decimal_scale(c) as int));
    let m = min_exponent(ea, eb);
    let sum = coefficient_at(ma, ea, m) + coefficient_at(mb, eb, m);
    lemma_same_value_at(sum, m, mc, ec, base);
    lemma_coefficient_at_distributes(coefficient_at(ma, ea, m), coefficient_at(mb, eb, m), m, base);
    lemma_coefficient_at_lower(ma, ea, m, base);
    lemma_coefficient_at_lower(mb, eb, m, base);
}

/// A legacy retained part that differs in number from the exact retained
/// part is not the exact truncation of the quantity.
proof fn lemma_mismatch_kept(q: Seq<u8>, f: Seq<u8>, t: Seq<u8>, exact: Seq<u8>, legacy: Seq<u8>, d: int)
    requires
        same_value(float_coefficient(f), float_exponent(f), decimal_mantissa(q), -(decimal_scale(q) as int)),
        same_value(
            float_coefficient(t),
            float_exponent(t),
            truncated_scaled(float_coefficient(f), float_exponent(f) + d),
            -d,
        ),
        same_value(decimal_mantissa(exact), -(decimal_scale(exact) as int), float_coefficient(t), float_exponent(t)),
        !decimal_same_value(exact, legacy),
    ensures
        !same_value(
            decimal_mantissa(legacy),
            -(decimal_scale(legacy) as int),
            truncated_scaled(decimal_mantissa(q), d - decimal_scale(q)),
            -d,
        ),
{
    let (cf, ef) = (float_coefficient(f), float_exponent(f));
    let (mq, eq) = (decimal_mantissa(q), -(decimal_scale(q) as int));
    let (me, ee) = (decimal_mantissa(exact), -(decimal_scale(exact) as int));
    let (ml, el) = (decimal_mantissa(legacy), -(decimal_scale(legacy) as int));
    let tq = truncated_scaled(mq, d - decimal_scale(q));
    lemma_same_value_shift(cf, ef, mq, eq, d);
    assert(eq + d == d - decimal_scale(q));
    lemma_truncated_scaled_agrees(cf, ef + d, mq, d - decimal_scale(q));
    lemma_stands_for_same_value(exact, ml, decimal_scale(legacy));
    if same_value(ml, el, tq, -d) {
        lemma_same_value_transitive(
            me,
            ee,
            float_coefficient(t),
            float_exponent(t),
            tq,
            -d,
        );
        assert(same_value(tq, -d, ml, el));
        lemma_same_value_transitive(me, ee, tq, -d, ml, el);
    }
}

/// When the exact parts add up to the quantity and the retained parts
/// agree, a legacy dust that differs in number from the exact dust does
/// not add up with the legacy retained part to the quantity.
proof fn lemma_mismatch_dust(
    q: Seq<u8>,
    exact_kept: Seq<u8>,
    exact_dust: Seq<u8>,
    legacy_kept: Seq<u8>,
    legacy_dust: Seq<u8>,
)
    requires
        decimal_adds_up_to(exact_kept, exact_dust, q),
        decimal_same_value(exact_kept, legacy_kept),
        !decimal_same_value(exact_dust, legacy_dust),
    ensures
        !decimal_adds_up_to(legacy_kept, legacy_dust, q),
{
    let e1 = -(decimal_scale(exact_kept) as int);
    let e2 = -(decimal_scale(exact_dust) as int);
    let e3 = -(decimal_scale(legacy_kept) as int);
    let e4 = -(decimal_scale(legacy_dust) as int);
    let e5 = -(decimal_scale(q) as int);
    let base = min_exponent(min_exponent(min_exponent(e1, e2), min_exponent(e3, e4)), e5);
    lemma_stands_for_same_value(exact_kept, decimal_mantissa(legacy_kept), decimal_scale(legacy_kept));
    lemma_stands_for_same_value(exact_dust, decimal_mantissa(legacy_dust), decimal_scale(legacy_dust));
    if decimal_adds_up_to(legacy_kept, legacy_dust, q) {
        lemma_decimal_sum_at(exact_kept, exact_dust, q, base);
        lemma_decimal_sum_at(legacy_kept, legacy_dust, q, base);
        lemma_same_value_at(decimal_mantissa(exact_kept), e1, decimal_mantissa(legacy_kept), e3, base);
        lemma_same_value_from(decimal_mantissa(exact_dust), e2, decimal_mantissa(legacy_dust), e4, base);
    }
}

/// Scaling a decimal by a power of ten `10^d` (with `d` at most 19) either
/// overflows at scale 0 or has a decimal form.
proof fn lemma_power_product(b: Seq<u8>, w: Seq<u8>, d: nat)
    requires
        b.len() == 16,
        decimal_scale(b) <= 28,
        decimal_mantissa(w) == pow(10, d),
        decimal_scale(w) == 0,
        pow10_fits_u64(d),
    ensures
        decimal_product_size(b, w) == decimal_magnitude(b) * pow(10, d),
        decimal_magnitude(b) * pow(10, d) >= pow(256, 12) * pow(10, decimal_scale(b))
            ==> decimal_product_overflows(b, w),
        decimal_magnitude(b) * pow(10, d) < pow(256, 12) * pow(10, decimal_scale(b))
            ==> decimal_product_exact(b, w),
{
    let m = decimal_magnitude(b);
    let s = decimal_scale(b);
    let p10 = pow(10, d);
    vstd::arithmetic::power::lemma_pow_positive(10, d);
    vstd::arithmetic::mul::lemma_mul_nonnegative(m as int, p10);
    let y: nat = (m * p10) as nat;
    assert(decimal_product_size(b, w) == y) by {
        if decimal_negative(b) {
            assert(decimal_mantissa(b) * p10 == -(m * p10)) by (nonlinear_arith)
                requires
                    decimal_mantissa(b) == -(m as int),
            ;
        }
    }
    lemma_le_nat_bound(b.subrange(4, 16));
    if y < pow(256, 12) * pow(10, s) {
        let k: nat = if s >= d {
            d
        } else {
            s
        };
        let pk = pow(10, k);
        let rest = pow(10, (d - k) as nat);
        vstd::arithmetic::power::lemma_pow_positive(10, k);
        vstd::arithmetic::power::lemma_pow_positive(10, (d - k) as nat);
        vstd::arithmetic::power::lemma_pow_adds(10, (d - k) as nat, k);
        assert((d - k) as nat + k == d);
        assert(y == (m * rest) * pk) by (nonlinear_arith)
            requires
                y == m * p10,
                p10 == rest * pk,
        ;
        vstd::arithmetic::div_mod::lemma_mod_multiples_basic(m * rest, pk);
        vstd::arithmetic::div_mod::lemma_div_multiples_vanish(m * rest, pk);
        if s >= d {
            vstd::arithmetic::power::lemma_pow0(10);
            assert(m * rest == m);
        } else {
            let ps = pow(10, s);
            assert(m * rest < pow(256, 12)) by (nonlinear_arith)
                requires
                    (m * rest) * ps < pow(256, 12) * ps,
                    ps > 0,
            ;
        }
        assert(k <= s + decimal_scale(w));
        assert(y % (pk as nat) == 0 && y / (pk as nat) < pow(256, 12));
    }
}

/// Scaling a decimal that is not negative by `10^18` either overflows at
/// scale 0 or has a decimal form.
proof fn lemma_wei_product(b: Seq<u8>, w: Seq<u8>)
    requires
        b.len() == 16,
        !decimal_negative(b),
        decimal_scale(b) <= 28,
        decimal_mantissa(w) == WEI_PER_UNIT,
        decimal_scale(w) == 0,
    ensures
        decimal_product_size(b, w) == decimal_magnitude(b) * WEI_PER_UNIT,
        decimal_magnitude(b) * WEI_PER_UNIT >= pow(256, 12) * pow(10, decimal_scale(b))
            ==> decimal_product_overflows(b, w),
        decimal_magnitude(b) * WEI_PER_UNIT < pow(256, 12) * pow(10, decimal_scale(b))
            ==> decimal_product_exact(b, w),
{
    let m = decimal_magnitude(b);
    let s = decimal_scale(b);
    vstd::arithmetic::mul::lemma_mul_nonnegative(m as int, WEI_PER_UNIT as int);
    let y: nat = (m * WEI_PER_UNIT) as nat;
    assert(decimal_product_size(b, w) == y);
    lemma_wei_is_pow10();
    lemma_le_nat_bound(b.subrange(4, 16));
    if y < pow(256, 12) * pow(10, s) {
        let k: nat = if s >= 18 {
            18
        } else {
            s
        };
        let pk = pow(10, k);
        let rest = pow(10, (18 - k) as nat);
        vstd::arithmetic::power::lemma_pow_positive(10, k);
        vstd::arithmetic::power::lemma_pow_positive(10, (18 - k) as nat);
        vstd::arithmetic::power::lemma_pow_adds(10, (18 - k) as nat, k);
        assert((18 - k) as nat + k == 18);
        assert(y == (m * rest) * pk) by (nonlinear_arith)
            requires
                y == m * WEI_PER_UNIT,
                WEI_PER_UNIT == rest * pk,
        ;
        vstd::arithmetic::div_mod::lemma_mod_multiples_basic(m * rest, pk);
        vstd::arithmetic::div_mod::lemma_div_multiples_vanish(m * rest, pk);
        if s >= 18 {
            vstd::arithmetic::power::lemma_pow0(10);
            assert(m * rest == m);
        } else {
            let ps = pow(10, s);
            assert(m * rest < pow(256, 12)) by (nonlinear_arith)
                requires
                    (m * rest) * ps < pow(256, 12) * ps,
                    ps > 0,
            ;
        }
        assert(k <= s + decimal_scale(w));
        assert(y % (pk as nat) == 0 && y / (pk as nat) < pow(256, 12));
    }
}

/// An 18-decimal amount that fits in 96 bits, made a wire quantity
/// (`from_u256_18_decimals`), converts back (`to_u256_18_decimals`) to the
/// same amount: scaled by `10^18` it is the amount at the quantity's scale,
/// which neither overflows nor leaves a fraction.
pub proof fn law_wire_amount_round_trip(amount: U256, quantity: DecimalShares)
    requires
        amount@ < pow(256, 12),
        decimal_stands_for(quantity@, amount@ as int, 18),
        !decimal_negative(quantity@),
    ensures
        decimal_magnitude(quantity@) * WEI_PER_UNIT == amount@ * pow(10, decimal_scale(quantity@)),
        decimal_magnitude(quantity@) * WEI_PER_UNIT < pow(256, 12) * pow(10, decimal_scale(quantity@)),
        (decimal_magnitude(quantity@) * WEI_PER_UNIT) % pow(10, decimal_scale(quantity@)) == 0,
{
    let unit = pow(10, decimal_scale(quantity@));
    let n = amount@ as int;
    lemma_wei_is_pow10();
    vstd::arithmetic::power::lemma_pow_positive(10, decimal_scale(quantity@));
    assert(n * unit < pow(256, 12) * unit) by (nonlinear_arith)
        requires
            n < pow(256, 12),
            unit > 0,
    ;
    vstd::arithmetic::div_mod::lemma_mod_multiples_basic(n, unit);
    assert(n * unit == unit * n) by (nonlinear_arith);
}

/// A wire quantity converted to shares (`to_fractional_shares`) and back
/// (`from_fractional_shares`) is the same number, in its canonical spelling.
pub proof fn law_wire_shares_round_trip(
    quantity: DecimalShares,
    shares: FractionalShares,
    back: DecimalShares,
)
    requires
        same_value(
            float_coefficient(shares@),
            float_exponent(shares@),
            decimal_mantissa(quantity@),
            -(decimal_scale(quantity@) as int),
        ),
        same_value(
            decimal_mantissa(back@),
            -(decimal_scale(back@) as int),
            float_coefficient(shares@),
            float_exponent(shares@),
        ),
    ensures
        back.eq_spec(&quantity),
{
    lemma_same_value_transitive(
        decimal_mantissa(back@),
        -(decimal_scale(back@) as int),
        float_coefficient(shares@),
        float_exponent(shares@),
        decimal_mantissa(quantity@),
        -(decimal_scale(quantity@) as int),
    );
    lemma_stands_for_same_value(back@, decimal_mantissa(quantity@), decimal_scale(quantity@));
}

/// Shares converted to a wire quantity (`from_fractional_shares`) and back
/// (`to_fractional_shares`, which always succeeds) are the same number.
pub proof fn law_shares_wire_round_trip(
    shares: FractionalShares,
    quantity: DecimalShares,
    back: FractionalShares,
)
    requires
        same_value(
            decimal_mantissa(quantity@),
            -(decimal_scale(quantity@) as int),
            float_coefficient(shares@),
            float_exponent(shares@),
        ),
        same_value(
            float_coefficient(back@),
            float_exponent(back@),
            decimal_mantissa(quantity@),
            -(decimal_scale(quantity@) as int),
        ),
    ensures
        crate::float::float_same_value(back@, shares@),
{
    lemma_same_value_transitive(
        float_coefficient(back@),
        float_exponent(back@),
        decimal_mantissa(quantity@),
        -(decimal_scale(quantity@) as int),
        float_coefficient(shares@),
        float_exponent(shares@),
    );
}

/// Truncating an already truncated quantity to the same number of places
/// (`truncate_to_decimals` twice) keeps it: the second retained part is the
/// same number as the first, and its dust is zero.
pub proof fn law_wire_truncation_is_idempotent(
    quantity: DecimalShares,
    decimals: u32,
    kept: DecimalShares,
    kept_again: DecimalShares,
    dust_again: DecimalShares,
)
    requires
        same_value(
            decimal_mantissa(kept@),
            -(decimal_scale(kept@) as int),
            truncated_scaled(decimal_mantissa(quantity@), decimals - decimal_scale(quantity@)),
            -(decimals as int),
        ),
        same_value(
            decimal_mantissa(kept_again@),
            -(decimal_scale(kept_again@) as int),
            truncated_scaled(decimal_mantissa(kept@), decimals - decimal_scale(kept@)),
            -(decimals as int),
        ),
        decimal_adds_up_to(kept_again@, dust_again@, kept@),
    ensures
        kept_again.eq_spec(&kept),
        decimal_mantissa(dust_again@) == 0,
{
    let d = decimals as int;
    let t = truncated_scaled(decimal_mantissa(quantity@), decimals - decimal_scale(quantity@));
    let (mk, ek) = (decimal_mantissa(kept@), -(decimal_scale(kept@) as int));
    let (m2, e2) = (decimal_mantissa(kept_again@), -(decimal_scale(kept_again@) as int));
    let (mu, eu) = (decimal_mantissa(dust_again@), -(decimal_scale(dust_again@) as int));
    lemma_same_value_shift(mk, ek, t, -d, d);
    assert(ek + d == decimals - decimal_scale(kept@));
    lemma_truncated_scaled_agrees(mk, ek + d, t, 0);
    vstd::arithmetic::power::lemma_pow0(10);
    assert(truncated_scaled(t, 0) == t);
    assert(same_value(t, -d, mk, ek));
    lemma_same_value_transitive(m2, e2, t, -d, mk, ek);
    lemma_stands_for_same_value(kept_again@, mk, decimal_scale(kept@));
    let m = min_exponent(e2, eu);
    let b = min_exponent(m, ek);
    let sum = coefficient_at(m2, e2, m) + coefficient_at(mu, eu, m);
    lemma_same_value_at(sum, m, mk, ek, b);
    lemma_coefficient_at_distributes(coefficient_at(m2, e2, m), coefficient_at(mu, eu, m), m, b);
    lemma_coefficient_at_lower(m2, e2, m, b);
    lemma_coefficient_at_lower(mu, eu, m, b);
    lemma_same_value_at(m2, e2, mk, ek, b);
    assert(coefficient_at(mu, eu, b) == 0);
    vstd::arithmetic::power::lemma_pow_positive(10, (eu - b) as nat);
    assert(mu == 0) by (nonlinear_arith)
        requires
            mu * pow(10, (eu - b) as nat) == 0,
            pow(10, (eu - b) as nat) > 0,
    ;
}

/// Quantities with the same wire representation are numerically equal.
pub proof fn law_same_wire_representation_is_equal(a: DecimalShares, b: DecimalShares)
    requires
        decimal_same_representation(a@, b@),
    ensures
        a.eq_spec(&b),
{
}

impl PartialEq for DecimalShares {
    fn eq(&self, other: &Self) -> (r: bool) {
        self.0.numeric_eq(&other.0)
    }
}

impl vstd::std_specs::cmp::PartialEqSpecImpl for DecimalShares {
    open spec fn obeys_eq_spec() -> bool {
        true
    }

    open spec fn eq_spec(&self, other: &Self) -> bool {
        decimal_same_value(self@, other@)
    }
}

impl Eq for DecimalShares {}

impl Default for DecimalShares {
    fn default() -> (r: Self)
        ensures
            r@ == decimal_zero_bytes(),
    {
        DecimalShares(Decimal::zero())
    }
}

impl std::str::FromStr for DecimalShares {
    type Err = rust_decimal::Error;

    /// Parses a plain decimal string and keeps its scale.
    ///
    /// # Errors
    ///
    /// Returns an error for scientific notation, more than 28 fractional
    /// digits, values outside `rust_decimal`'s range, or other malformed input.
    fn from_str(value: &str) -> (r: Result<Self, rust_decimal::Error>)
        ensures
            r is Ok <==> decimal_from_str_exact(value@) is Some,
            r matches Ok(s) ==> decimal_from_str_exact(value@) == Some(s@),
            r is Err ==> !(value@.len() <= 80 && fits_plain_decimal(value@)),
            is_plain_decimal(value@) && plain_decimal_scale(value@) > 28 ==> r is Err,
            r matches Ok(s) ==> (is_plain_decimal(value@) ==> decimal_mantissa(s@)
                == plain_decimal_coefficient(value@) && decimal_scale(s@) == plain_decimal_scale(
                value@,
            )),
    {
        match Decimal::from_str_exact(value) {
            Ok(d) => Ok(DecimalShares(d)),
            Err(e) => Err(e),
        }
    }
}

impl DecimalShares {
    /// Creates an exact share quantity from a decimal value.
    pub fn new(value: Decimal) -> (r: Self)
        ensures
            r@ == value@,
    {
        DecimalShares(value)
    }

    /// Returns the scale-preserving decimal value.
    pub fn inner(self) -> (r: Decimal)
        ensures
            r@ == self@,
    {
        self.0
    }

    /// The decimal text, with its scale (what its `Display` writes).
    pub fn to_string(&self) -> (r: String)
        ensures
            r@ == decimal_to_string(self@),
            r@ == decimal_text(self@),
            is_plain_decimal(r@),
            plain_decimal_coefficient(r@) == decimal_mantissa(self@),
            plain_decimal_scale(r@) == decimal_scale(self@),
    {
        self.0.to_string()
    }

    /// Reports whether both quantities serialize to the same wire string: same
    /// mantissa, scale, and sign, so `0` and `-0` differ.
    pub fn has_same_wire_representation(self, other: Self) -> (r: bool)
        ensures
            r == decimal_same_representation(self@, other@),
            r == (decimal_text(self@) == decimal_text(other@)),
    {
        proof {
            if decimal_text(self@) == decimal_text(other@) {
                lemma_text_determines_representation(self@, other@);
            }
        }
        self.0.mantissa() == other.0.mantissa() && self.0.scale() == other.0.scale()
            && self.0.is_sign_negative() == other.0.is_sign_negative()
    }

    /// Converts this wire quantity directly to its Rain Float-backed form.
    ///
    /// # Errors
    ///
    /// Returns an error when Rain Float cannot represent the decimal value.
    pub fn to_fractional_shares(self) -> (r: Result<FractionalShares, DecimalSharesConversionError>)
        ensures
            r is Ok <==> float_of_decimal(self@) is Some,
            r matches Ok(s) ==> float_of_decimal(self@) == Some(s@),
            r is Ok,
            r matches Ok(s) ==> same_value(
                float_coefficient(s@),
                float_exponent(s@),
                decimal_mantissa(self@),
                -(decimal_scale(self@) as int),
            ),
    {
        let text = self.0.to_string();
        proof {
            use_type_invariant(&self.0);
            self.0.lemma_view_len();
            lemma_mantissa_fits(self@);
            lemma_text_len(self@);
            let (m, e) = (decimal_mantissa(self@), -(decimal_scale(self@) as int));
            assert(fits_exponent(e));
            assert(same_value(m, e, m, e));
            assert(representable(m, e));
            lemma_stands_for_same_value(
                self@,
                plain_decimal_coefficient(text@),
                plain_decimal_scale(text@),
            );
        }
        match Float::parse(text) {
            Ok(f) => {
                proof {
                    lemma_same_value_transitive(
                        float_coefficient(f@),
                        float_exponent(f@),
                        plain_decimal_coefficient(text@),
                        -(plain_decimal_scale(text@) as int),
                        decimal_mantissa(self@),
                        -(decimal_scale(self@) as int),
                    );
                }
                Ok(FractionalShares::new(f))
            },
            Err(e) => Err(DecimalSharesConversionError::Float(e)),
        }
    }

    /// Converts a Rain Float-backed quantity to its canonical decimal spelling.
    ///
    /// # Errors
    ///
    /// Returns an error when the value cannot be represented by `rust_decimal`.
    pub fn from_fractional_shares(value: FractionalShares) -> (r: Result<Self, DecimalSharesConversionError>)
        ensures
            r is Ok <==> decimal_of_float(value@) is Some,
            r matches Ok(s) ==> decimal_of_float(value@) == Some(s@),
            r matches Err(e) ==> e is Decimal,
            r matches Ok(s) ==> same_value(
                decimal_mantissa(s@),
                -(decimal_scale(s@) as int),
                float_coefficient(value@),
                float_exponent(value@),
            ),
    {
        let text = value.to_string();
        match Decimal::from_str_exact(text.as_str()) {
            Ok(d) => {
                proof {
                    lemma_stands_for_same_value(
                        d@,
                        plain_decimal_coefficient(text@),
                        plain_decimal_scale(text@),
                    );
                    lemma_same_value_transitive(
                        decimal_mantissa(d@),
                        -(decimal_scale(d@) as int),
                        plain_decimal_coefficient(text@),
                        -(plain_decimal_scale(text@) as int),
                        float_coefficient(value@),
                        float_exponent(value@),
                    );
                }
                Ok(DecimalShares(d))
            },
            Err(e) => Err(DecimalSharesConversionError::Decimal(e)),
        }
    }

    /// Checks a Rain Float result against issuance's `Decimal` result and
    /// returns the latter, which carries the legacy wire scale.
    pub fn with_legacy_scale(self, legacy: Decimal) -> (r: Result<Self, DecimalSharesConversionError>)
        ensures
            decimal_same_value(self@, legacy@) ==> (r matches Ok(s) && s@ == legacy@),
            !decimal_same_value(self@, legacy@) ==> (r matches Err(
                DecimalSharesConversionError::TruncationMismatch { rain_float, decimal },
            ) && rain_float@ == self@ && decimal@ == legacy@),
    {
        if !self.0.numeric_eq(&legacy) {
            return Err(
                DecimalSharesConversionError::TruncationMismatch { rain_float: self.0, decimal: legacy },
            );
        }
        Ok(DecimalShares(legacy))
    }

    /// Truncates toward zero to `decimals` decimal places using Rain Float
    /// arithmetic.
    ///
    /// Returns the retained wire quantity and the discarded dust. Their sum is
    /// numerically equal to the original quantity. Issuance's checked
    /// `rust_decimal` formula runs alongside: it supplies the wire scale and
    /// the overflow bound, and any disagreement with the Rain Float result is
    /// an error.
    ///
    /// # Errors
    ///
    /// Returns an error when `10^decimals` or the scaled quantity exceeds the
    /// legacy quantity bound, Rain Float arithmetic fails, a result cannot fit
    /// in `rust_decimal`, or the two truncations disagree.
    pub fn truncate_to_decimals(self, decimals: u32) -> (r: Result<(Self, Self), DecimalSharesConversionError>)
        ensures
            match legacy_truncation(self@, decimals) {
                None => r matches Err(DecimalSharesConversionError::ArithmeticOverflow),
                Some((legacy_truncated, legacy_dust)) => match float_truncation(self@, decimals) {
                    None => r matches Err(DecimalSharesConversionError::Float(_)),
                    Some((truncated, dust)) => match decimal_of_float(truncated) {
                        None => r matches Err(DecimalSharesConversionError::Decimal(_)),
                        Some(wire_truncated) => if !decimal_same_value(wire_truncated, legacy_truncated) {
                            r matches Err(
                                DecimalSharesConversionError::TruncationMismatch { rain_float, decimal },
                            ) && rain_float@ == wire_truncated && decimal@ == legacy_truncated
                        } else {
                            match decimal_of_float(dust) {
                                None => r matches Err(DecimalSharesConversionError::Decimal(_)),
                                Some(wire_dust) => if !decimal_same_value(wire_dust, legacy_dust) {
                                    r matches Err(
                                        DecimalSharesConversionError::TruncationMismatch {
                                            rain_float,
                                            decimal,
                                        },
                                    ) && rain_float@ == wire_dust && decimal@ == legacy_dust
                                } else {
                                    r matches Ok(p) && p.0@ == legacy_truncated && p.1@
                                        == legacy_dust
                                },
                            }
                        },
                    },
                },
            },
            r matches Ok(p) ==> decimal_adds_up_to(p.0@, p.1@, self@),
            r matches Ok(p) ==> same_value(
                decimal_mantissa(p.0@),
                -(decimal_scale(p.0@) as int),
                truncated_scaled(decimal_mantissa(self@), decimals - decimal_scale(self@)),
                -(decimals as int),
            ),
            !(r matches Err(DecimalSharesConversionError::Float(_))),
            r matches Err(DecimalSharesConversionError::TruncationMismatch { .. }) ==> {
                let multiplier = decimal_from_u64(pow(10, decimals as nat) as nat);
                &&& decimal_checked_mul(self@, multiplier) matches Some(scaled)
                &&& decimal_checked_div(decimal_trunc(scaled), multiplier) matches Some(kept)
                &&& decimal_checked_sub(self@, kept) matches Some(dust)
                &&& !(same_value(
                    decimal_mantissa(kept),
                    -(decimal_scale(kept) as int),
                    truncated_scaled(decimal_mantissa(self@), decimals - decimal_scale(self@)),
                    -(decimals as int),
                ) && decimal_adds_up_to(kept, dust, self@))
            },
            r matches Err(DecimalSharesConversionError::ArithmeticOverflow) ==> {
                let multiplier = decimal_from_u64(pow(10, decimals as nat) as nat);
                ||| !pow10_fits_u64(decimals as nat)
                ||| decimal_magnitude(self@) * pow(10, decimals as nat) >= pow(256, 12) * pow(
                    10,
                    decimal_scale(self@),
                )
                ||| (decimal_checked_mul(self@, multiplier) matches Some(scaled) && match decimal_checked_div(
                    decimal_trunc(scaled),
                    multiplier,
                ) {
                    None => true,
                    Some(kept) => decimal_checked_sub(self@, kept) is None,
                })
            },
    {
        let power = match checked_pow10_u64(decimals) {
            Some(p) => p,
            None => return Err(DecimalSharesConversionError::ArithmeticOverflow),
        };
        proof {
            vstd::arithmetic::power::lemma_pow_positive(10, decimals as nat);
            assert(power as nat == pow(10, decimals as nat) as nat);
        }
        let multiplier = Decimal::from_u64(power);
        proof {
            use_type_invariant(&self.0);
            self.0.lemma_view_len();
            lemma_power_product(self@, multiplier@, decimals as nat);
        }
        let scaled = match self.0.checked_mul(multiplier) {
            Some(d) => d,
            None => return Err(DecimalSharesConversionError::ArithmeticOverflow),
        };
        let legacy_truncated = match scaled.trunc().checked_div(multiplier) {
            Some(d) => d,
            None => return Err(DecimalSharesConversionError::ArithmeticOverflow),
        };
        let legacy_dust = match self.0.checked_sub(legacy_truncated) {
            Some(d) => d,
            None => return Err(DecimalSharesConversionError::ArithmeticOverflow),
        };
        let shares = match self.to_fractional_shares() {
            Ok(s) => s,
            Err(e) => return Err(e),
        };
        proof {
            lemma_pow10_fits_u64_small(decimals as nat);
            self.0.lemma_view_len();
            lemma_scaled_decimal_representable(
                self@,
                float_coefficient(shares@),
                float_exponent(shares@),
                decimals as int,
            );
        }
        let (truncated, dust) = match shares.truncate_to_decimals(decimals) {
            Ok(p) => p,
            Err(e) => return Err(DecimalSharesConversionError::Float(e)),
        };
        let wire_truncated = match Self::from_fractional_shares(truncated) {
            Ok(w) => w,
            Err(e) => return Err(e),
        };
        let kept = match wire_truncated.with_legacy_scale(legacy_truncated) {
            Ok(w) => w,
            Err(e) => {
                proof {
                    lemma_mismatch_kept(
                        self@,
                        shares@,
                        truncated@,
                        wire_truncated@,
                        legacy_truncated@,
                        decimals as int,
                    );
                }
                return Err(e);
            },
        };
        let wire_dust = match Self::from_fractional_shares(dust) {
            Ok(w) => w,
            Err(e) => return Err(e),
        };
        let dropped = match wire_dust.with_legacy_scale(legacy_dust) {
            Ok(w) => w,
            Err(e) => {
                proof {
                    lemma_wire_truncation(
                        self@,
                        shares@,
                        truncated@,
                        dust@,
                        wire_truncated@,
                        wire_dust@,
                        decimals as int,
                    );
                    lemma_mismatch_dust(
                        self@,
                        wire_truncated@,
                        wire_dust@,
                        legacy_truncated@,
                        legacy_dust@,
                    );
                }
                return Err(e);
            },
        };
        proof {
            let d = decimals as int;
            lemma_stands_for_same_value(
                wire_truncated@,
                decimal_mantissa(kept@),
                decimal_scale(kept@),
            );
            lemma_same_value_transitive(
                decimal_mantissa(kept@),
                -(decimal_scale(kept@) as int),
                decimal_mantissa(wire_truncated@),
                -(decimal_scale(wire_truncated@) as int),
                float_coefficient(truncated@),
                float_exponent(truncated@),
            );
            lemma_stands_for_same_value(wire_dust@, decimal_mantissa(dropped@), decimal_scale(dropped@));
            lemma_same_value_transitive(
                decimal_mantissa(dropped@),
                -(decimal_scale(dropped@) as int),
                decimal_mantissa(wire_dust@),
                -(decimal_scale(wire_dust@) as int),
                float_coefficient(dust@),
                float_exponent(dust@),
            );
            lemma_pow10_fits_u64_small(decimals as nat);
            self.0.lemma_view_len();
            lemma_scaled_decimal_representable(
                self@,
                float_coefficient(shares@),
                float_exponent(shares@),
                d,
            );
            lemma_wire_truncation(self@, shares@, truncated@, dust@, kept@, dropped@, d);
        }
        Ok((kept, dropped))
    }

    /// Truncates to Alpaca's maximum supported precision and returns the dust.
    ///
    /// # Errors
    ///
    /// Returns an error when truncation or conversion fails.
    pub fn truncate_for_alpaca(self) -> (r: Result<(Self, Self), DecimalSharesConversionError>)
        ensures
            match legacy_truncation(self@, ALPACA_MAX_DECIMALS) {
                None => r matches Err(DecimalSharesConversionError::ArithmeticOverflow),
                Some((legacy_truncated, legacy_dust)) => match float_truncation(
                    self@,
                    ALPACA_MAX_DECIMALS,
                ) {
                    None => r matches Err(DecimalSharesConversionError::Float(_)),
                    Some((truncated, dust)) => match decimal_of_float(truncated) {
                        None => r matches Err(DecimalSharesConversionError::Decimal(_)),
                        Some(wire_truncated) => if !decimal_same_value(wire_truncated, legacy_truncated) {
                            r matches Err(
                                DecimalSharesConversionError::TruncationMismatch { rain_float, decimal },
                            ) && rain_float@ == wire_truncated && decimal@ == legacy_truncated
                        } else {
                            match decimal_of_float(dust) {
                                None => r matches Err(DecimalSharesConversionError::Decimal(_)),
                                Some(wire_dust) => if !decimal_same_value(wire_dust, legacy_dust) {
                                    r matches Err(
                                        DecimalSharesConversionError::TruncationMismatch {
                                            rain_float,
                                            decimal,
                                        },
                                    ) && rain_float@ == wire_dust && decimal@ == legacy_dust
                                } else {
                                    r matches Ok(p) && p.0@ == legacy_truncated && p.1@
                                        == legacy_dust
                                },
                            }
                        },
                    },
                },
            },
            r matches Ok(p) ==> decimal_adds_up_to(p.0@, p.1@, self@),
            r matches Ok(p) ==> same_value(
                decimal_mantissa(p.0@),
                -(decimal_scale(p.0@) as int),
                truncated_scaled(decimal_mantissa(self@), ALPACA_MAX_DECIMALS - decimal_scale(self@)),
                -(ALPACA_MAX_DECIMALS as int),
            ),
            !(r matches Err(DecimalSharesConversionError::Float(_))),
            r matches Err(DecimalSharesConversionError::TruncationMismatch { .. }) ==> {
                let multiplier = decimal_from_u64(pow(10, ALPACA_MAX_DECIMALS as nat) as nat);
                &&& decimal_checked_mul(self@, multiplier) matches Some(scaled)
                &&& decimal_checked_div(decimal_trunc(scaled), multiplier) matches Some(kept)
                &&& decimal_checked_sub(self@, kept) matches Some(dust)
                &&& !(same_value(
                    decimal_mantissa(kept),
                    -(decimal_scale(kept) as int),
                    truncated_scaled(
                        decimal_mantissa(self@),
                        ALPACA_MAX_DECIMALS - decimal_scale(self@),
                    ),
                    -(ALPACA_MAX_DECIMALS as int),
                ) && decimal_adds_up_to(kept, dust, self@))
            },
            r matches Err(DecimalSharesConversionError::ArithmeticOverflow) ==> {
                let multiplier = decimal_from_u64(pow(10, ALPACA_MAX_DECIMALS as nat) as nat);
                ||| decimal_magnitude(self@) * pow(10, ALPACA_MAX_DECIMALS as nat) >= pow(256, 12)
                    * pow(10, decimal_scale(self@))
                ||| (decimal_checked_mul(self@, multiplier) matches Some(scaled)
                    && match decimal_checked_div(decimal_trunc(scaled), multiplier) {
                    None => true,
                    Some(kept) => decimal_checked_sub(self@, kept) is None,
                })
            },
    {
        proof {
            reveal_with_fuel(pow, 10);
        }
        self.truncate_to_decimals(ALPACA_MAX_DECIMALS)
    }

    /// Converts the quantity to an exact 18-decimal unsigned integer.
    ///
    /// This intentionally preserves issuance's legacy `rust_decimal` range:
    /// values that overflow while scaling by `10^18` are rejected even if the
    /// mathematical result would fit in `U256`.
    ///
    /// # Errors
    ///
    /// Returns an error for negative values, Decimal overflow, or values that
    /// cannot be represented losslessly with 18 decimals.
    pub fn to_u256_18_decimals(self) -> (r: Result<U256, DecimalSharesConversionError>)
        ensures
            decimal_negative(self@) ==> (r matches Err(
                DecimalSharesConversionError::NegativeValue { value },
            ) && value@ == self@),
            !decimal_negative(self@) ==> match decimal_checked_mul(
                self@,
                decimal_from_u64(WEI_PER_UNIT as nat),
            ) {
                None => r matches Err(DecimalSharesConversionError::ArithmeticOverflow),
                Some(scaled) => if !decimal_is_whole(scaled) {
                    r matches Err(DecimalSharesConversionError::PrecisionLoss { value }) && value@
                        == scaled
                } else if decimal_negative(scaled) {
                    r matches Err(DecimalSharesConversionError::ArithmeticOverflow)
                } else {
                    r matches Ok(u) && u@ == decimal_whole_magnitude(scaled)
                },
            },
            !decimal_negative(self@) ==> {
                let amount = decimal_magnitude(self@) * WEI_PER_UNIT;
                let unit = pow(10, decimal_scale(self@));
                if amount >= pow(256, 12) * unit {
                    r matches Err(DecimalSharesConversionError::ArithmeticOverflow)
                } else if amount % unit != 0 {
                    r matches Err(DecimalSharesConversionError::PrecisionLoss { .. })
                } else {
                    r matches Ok(u) && u@ * unit == amount
                }
            },
    {
        if self.0.is_sign_negative() {
            return Err(DecimalSharesConversionError::NegativeValue { value: self.0 });
        }
        let wei = Decimal::from_u64(WEI_PER_UNIT);
        proof {
            use_type_invariant(&self.0);
            self.0.lemma_view_len();
            lemma_wei_product(self@, wei@);
        }
        let scaled = match self.0.checked_mul(wei) {
            Some(d) => d,
            None => return Err(DecimalSharesConversionError::ArithmeticOverflow),
        };
        proof {
            let amount = decimal_magnitude(self@) * WEI_PER_UNIT;
            if amount < pow(256, 12) * pow(10, decimal_scale(self@)) {
                vstd::arithmetic::power::lemma_pow_positive(10, decimal_scale(self@));
                vstd::arithmetic::power::lemma_pow_positive(10, decimal_scale(scaled@));
                lemma_whole_together(
                    decimal_magnitude(scaled@) as int,
                    pow(10, decimal_scale(scaled@)),
                    amount as int,
                    pow(10, decimal_scale(self@)),
                );
            }
        }
        let fraction = scaled.fract();
        proof {
            lemma_decimal_same_as_zero(fraction@);
            lemma_stands_for_zero(
                fraction@,
                rem_toward_zero(decimal_mantissa(scaled@), pow(10, decimal_scale(scaled@))),
                decimal_scale(scaled@),
            );
        }
        if !fraction.numeric_eq(&Decimal::zero()) {
            return Err(DecimalSharesConversionError::PrecisionLoss { value: scaled });
        }
        let integer = match scaled.to_u128() {
            Some(n) => n,
            None => return Err(DecimalSharesConversionError::ArithmeticOverflow),
        };
        Ok(U256::from_u128(integer))
    }

    /// Creates a wire quantity from a U256 value with 18 decimal places.
    ///
    /// # Errors
    ///
    /// Returns an error when the value is outside `rust_decimal`'s range or the
    /// division cannot be represented.
    pub fn from_u256_18_decimals(value: U256) -> (r: Result<Self, DecimalSharesConversionError>)
        ensures
            match decimal_parse(decimal_digits(value@)) {
                None => r matches Err(DecimalSharesConversionError::Decimal(_)),
                Some(d) => match decimal_checked_div(d, decimal_from_u64(WEI_PER_UNIT as nat)) {
                    None => r matches Err(DecimalSharesConversionError::ArithmeticOverflow),
                    Some(q) => r matches Ok(s) && s@ == q,
                },
            },
            r is Ok <==> value@ < pow(256, 12),
            r is Err ==> r matches Err(DecimalSharesConversionError::Decimal(_)),
            r matches Ok(s) ==> decimal_stands_for(s@, value@ as int, 18) && !decimal_negative(s@),
    {
        let text = value.to_string();
        proof {
            lemma_decimal_digits_spell(value@);
            lemma_wei_is_pow10();
            value.lemma_at_most_78_digits();
        }
        let decimal = match Decimal::parse(text.as_str()) {
            Ok(d) => d,
            Err(e) => return Err(DecimalSharesConversionError::Decimal(e)),
        };
        match decimal.checked_div(Decimal::from_u64(WEI_PER_UNIT)) {
            Some(q) => Ok(DecimalShares(q)),
            None => Err(DecimalSharesConversionError::ArithmeticOverflow),
        }
    }
}

} // verus!
