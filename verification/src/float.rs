//! The packed decimal floating-point value that share quantities are made of.
//!
//! A value is 32 bytes: a signed 32-bit exponent in the first four bytes and a
//! signed 224-bit coefficient in the remaining 28, both big-endian; the number
//! it stands for is `coefficient * 10^exponent`. Every 32-byte pattern is a
//! valid value. The arithmetic itself is done by `rain_math_float`, whose
//! operations run in an in-memory EVM; each call below is a thin trusted
//! wrapper, and what follows each call is verified.
use crate::text::{
    decimal_chars_only, decimal_digits, is_plain_decimal, plain_decimal_coefficient,
    plain_decimal_scale,
};
use crate::uint::U256;
use rain_math_float::FloatError;
use vstd::arithmetic::power::pow;
use vstd::prelude::*;

verus! {

#[verifier::external_type_specification]
#[verifier::external_body]
pub struct ExFloatError(rain_math_float::FloatError);

/// The unsigned big-endian number spelled by `s`.
pub open spec fn be_nat(s: Seq<u8>) -> nat
    decreases s.len(),
{
    if s.len() == 0 {
        0
    } else {
        be_nat(s.drop_last()) * 256 + s.last() as nat
    }
}

/// The two's-complement big-endian number spelled by `s`.
pub open spec fn be_int(s: Seq<u8>) -> int {
    if s.len() > 0 && s[0] >= 128 {
        be_nat(s) - pow(256, s.len())
    } else {
        be_nat(s) as int
    }
}

/// The exponent of a packed value: its first four bytes.
pub open spec fn float_exponent(raw: Seq<u8>) -> int {
    be_int(raw.subrange(0, 4))
}

/// The coefficient of a packed value: its last 28 bytes.
pub open spec fn float_coefficient(raw: Seq<u8>) -> int {
    be_int(raw.subrange(4, 32))
}

/// `c * 10^e` written at the (not larger) exponent `base`: its coefficient there.
pub open spec fn coefficient_at(c: int, e: int, base: int) -> int {
    c * pow(10, (e - base) as nat)
}

/// The smaller of two exponents.
pub open spec fn min_exponent(e1: int, e2: int) -> int {
    if e1 <= e2 {
        e1
    } else {
        e2
    }
}

/// `c1 * 10^e1 == c2 * 10^e2`.
pub open spec fn same_value(c1: int, e1: int, c2: int, e2: int) -> bool {
    let m = min_exponent(e1, e2);
    coefficient_at(c1, e1, m) == coefficient_at(c2, e2, m)
}

/// `c1 * 10^e1 < c2 * 10^e2`.
pub open spec fn less_value(c1: int, e1: int, c2: int, e2: int) -> bool {
    let m = min_exponent(e1, e2);
    coefficient_at(c1, e1, m) < coefficient_at(c2, e2, m)
}

/// Two packed values stand for the same number.
pub open spec fn float_same_value(a: Seq<u8>, b: Seq<u8>) -> bool {
    same_value(float_coefficient(a), float_exponent(a), float_coefficient(b), float_exponent(b))
}

/// The number packed in `a` is smaller than the one packed in `b`.
pub open spec fn float_less(a: Seq<u8>, b: Seq<u8>) -> bool {
    less_value(float_coefficient(a), float_exponent(a), float_coefficient(b), float_exponent(b))
}

/// Half the range of an `n`-byte two's-complement number: `2^(8n - 1)`.
pub open spec fn half_range(n: nat) -> int {
    128 * pow(256, (n - 1) as nat)
}

/// `c` fits in a signed 224-bit (28-byte) coefficient.
pub open spec fn fits_coefficient(c: int) -> bool {
    -half_range(28) <= c && c < half_range(28)
}

/// `e` fits in a signed 32-bit exponent.
pub open spec fn fits_exponent(e: int) -> bool {
    i32::MIN <= e && e <= i32::MAX
}

/// The number `c * 10^e` has a packed form: some coefficient and exponent
/// within range stand for it exactly.
pub open spec fn representable(c: int, e: int) -> bool {
    exists|c2: int, e2: int|
        fits_coefficient(c2) && fits_exponent(e2) && #[trigger] same_value(c2, e2, c, e)
}

/// The size of the coefficient of a packed value.
pub open spec fn abs_coefficient(raw: Seq<u8>) -> int {
    if float_coefficient(raw) < 0 {
        -float_coefficient(raw)
    } else {
        float_coefficient(raw)
    }
}

/// The coefficient of `a + b` at the smaller of their exponents.
pub open spec fn sum_coefficient(a: Seq<u8>, b: Seq<u8>) -> int {
    let m = min_exponent(float_exponent(a), float_exponent(b));
    coefficient_at(float_coefficient(a), float_exponent(a), m) + coefficient_at(
        float_coefficient(b),
        float_exponent(b),
        m,
    )
}

/// The coefficient of `a - b` at the smaller of their exponents.
pub open spec fn difference_coefficient(a: Seq<u8>, b: Seq<u8>) -> int {
    let m = min_exponent(float_exponent(a), float_exponent(b));
    coefficient_at(float_coefficient(a), float_exponent(a), m) - coefficient_at(
        float_coefficient(b),
        float_exponent(b),
        m,
    )
}

/// The smaller exponent of two packed values.
pub open spec fn common_exponent(a: Seq<u8>, b: Seq<u8>) -> int {
    min_exponent(float_exponent(a), float_exponent(b))
}

/// The numbers packed in `a` and `b` add up to the one packed in `c`.
pub open spec fn adds_up_to(a: Seq<u8>, b: Seq<u8>, c: Seq<u8>) -> bool {
    same_value(sum_coefficient(a, b), common_exponent(a, b), float_coefficient(c), float_exponent(c))
}

/// `c` with its sign, reduced modulo `m` towards zero.
pub open spec fn rem_toward_zero(c: int, m: int) -> int {
    if c >= 0 {
        c % m
    } else {
        -((-c) % m)
    }
}

/// The coefficient, at exponent `e`, of the fractional part of `c * 10^e`
/// (what is left after truncating towards zero).
pub open spec fn fraction_coefficient(c: int, e: int) -> int {
    if e >= 0 {
        0
    } else {
        rem_toward_zero(c, pow(10, (-e) as nat))
    }
}

/// `c * 10^e` is a whole number.
pub open spec fn is_whole_value(c: int, e: int) -> bool {
    fraction_coefficient(c, e) == 0
}

/// The plain base-ten spelling of the integer `v`, with a `-` when negative.
pub open spec fn signed_decimal_text(v: int) -> Seq<char> {
    if v < 0 {
        seq!['-'] + decimal_digits((-v) as nat)
    } else {
        decimal_digits(v as nat)
    }
}

/// `c / m` rounded towards zero.
pub open spec fn quot_toward_zero(c: int, m: int) -> int {
    if c >= 0 {
        c / m
    } else {
        -((-c) / m)
    }
}

/// `c * 10^k` truncated towards zero to a whole number.
pub open spec fn truncated_scaled(c: int, k: int) -> int {
    if k >= 0 {
        c * pow(10, k as nat)
    } else {
        quot_toward_zero(c, pow(10, (-k) as nat))
    }
}

/// The text `1e<digits>`, which spells a power of ten.
pub open spec fn is_power_of_ten_text(s: Seq<char>) -> bool {
    s.len() > 2 && s[0] == '1' && s[1] == 'e' && crate::text::all_digits(s.subrange(2, s.len() as int))
}

/// The exponent spelled by a `1e<digits>` text.
pub open spec fn power_of_ten_exponent(s: Seq<char>) -> int {
    crate::text::digits_value(s.subrange(2, s.len() as int)) as int
}

/// `qc * 10^qe` is the exact quotient of the numbers packed in `a` and `b`.
pub open spec fn quotient_is(a: Seq<u8>, b: Seq<u8>, qc: int, qe: int) -> bool {
    float_coefficient(b) != 0 && same_value(
        qc * float_coefficient(b),
        qe + float_exponent(b),
        float_coefficient(a),
        float_exponent(a),
    )
}

/// The packed bytes of zero.
pub open spec fn zero_bytes() -> Seq<u8> {
    seq![0u8; 32]
}

/// Bytes that are all zero spell zero.
pub proof fn lemma_be_nat_zeros(s: Seq<u8>)
    requires
        forall|i: int| 0 <= i < s.len() ==> s[i] == 0,
    ensures
        be_nat(s) == 0,
    decreases s.len(),
{
    if s.len() > 0 {
        lemma_be_nat_zeros(s.drop_last());
    }
}

/// Zero's coefficient and exponent are both zero.
pub proof fn lemma_zero_bytes()
    ensures
        float_coefficient(zero_bytes()) == 0,
        float_exponent(zero_bytes()) == 0,
{
    lemma_be_nat_zeros(zero_bytes().subrange(0, 4));
    lemma_be_nat_zeros(zero_bytes().subrange(4, 32));
}

/// Moving to a smaller exponent keeps the sign of the coefficient and
/// keeps zero at zero.
pub proof fn lemma_coefficient_at_sign(c: int, e: int, base: int)
    requires
        base <= e,
    ensures
        (coefficient_at(c, e, base) < 0) == (c < 0),
        (coefficient_at(c, e, base) == 0) == (c == 0),
        (coefficient_at(c, e, base) > 0) == (c > 0),
{
    let p = pow(10, (e - base) as nat);
    vstd::arithmetic::power::lemma_pow_positive(10, (e - base) as nat);
    assert((c * p < 0) == (c < 0) && (c * p == 0) == (c == 0) && (c * p > 0) == (c > 0))
        by (nonlinear_arith)
        requires
            p > 0,
    ;
}

/// A packed value is below zero exactly when its coefficient is negative.
pub proof fn lemma_less_than_zero(raw: Seq<u8>)
    ensures
        float_less(raw, zero_bytes()) == (float_coefficient(raw) < 0),
{
    lemma_zero_bytes();
    let m = min_exponent(float_exponent(raw), 0);
    lemma_coefficient_at_sign(float_coefficient(raw), float_exponent(raw), m);
    lemma_coefficient_at_sign(0, 0, m);
}

/// Writing a number at a lower exponent multiplies its coefficient by the
/// power of ten between the two exponents.
pub proof fn lemma_coefficient_at_lower(c: int, e: int, m: int, b: int)
    requires
        b <= m <= e,
    ensures
        coefficient_at(c, e, b) == coefficient_at(c, e, m) * pow(10, (m - b) as nat),
{
    vstd::arithmetic::power::lemma_pow_adds(10, (e - m) as nat, (m - b) as nat);
    assert((e - m) as nat + (m - b) as nat == (e - b) as nat);
    vstd::arithmetic::mul::lemma_mul_is_associative(
        c,
        pow(10, (e - m) as nat),
        pow(10, (m - b) as nat),
    );
}

/// Two representations of one number agree at every exponent below both.
pub proof fn lemma_same_value_at(c1: int, e1: int, c2: int, e2: int, b: int)
    requires
        same_value(c1, e1, c2, e2),
        b <= e1,
        b <= e2,
    ensures
        coefficient_at(c1, e1, b) == coefficient_at(c2, e2, b),
{
    let m = min_exponent(e1, e2);
    lemma_coefficient_at_lower(c1, e1, m, b);
    lemma_coefficient_at_lower(c2, e2, m, b);
}

/// Two representations that agree at some exponent below both stand for
/// the same number.
pub proof fn lemma_same_value_from(c1: int, e1: int, c2: int, e2: int, b: int)
    requires
        b <= e1,
        b <= e2,
        coefficient_at(c1, e1, b) == coefficient_at(c2, e2, b),
    ensures
        same_value(c1, e1, c2, e2),
{
    let m = min_exponent(e1, e2);
    lemma_coefficient_at_lower(c1, e1, m, b);
    lemma_coefficient_at_lower(c2, e2, m, b);
    let p = pow(10, (m - b) as nat);
    vstd::arithmetic::power::lemma_pow_positive(10, (m - b) as nat);
    let x = coefficient_at(c1, e1, m);
    let y = coefficient_at(c2, e2, m);
    assert(x == y) by (nonlinear_arith)
        requires
            x * p == y * p,
            p > 0,
    ;
}

/// Standing for the same number is transitive.
pub proof fn lemma_same_value_transitive(
    c1: int,
    e1: int,
    c2: int,
    e2: int,
    c3: int,
    e3: int,
)
    requires
        same_value(c1, e1, c2, e2),
        same_value(c2, e2, c3, e3),
    ensures
        same_value(c1, e1, c3, e3),
{
    let b = min_exponent(min_exponent(e1, e2), e3);
    lemma_same_value_at(c1, e1, c2, e2, b);
    lemma_same_value_at(c2, e2, c3, e3, b);
    lemma_same_value_from(c1, e1, c3, e3, b);
}

/// Moving a sum to a lower exponent moves each term.
pub proof fn lemma_coefficient_at_distributes(x: int, y: int, m: int, b: int)
    requires
        b <= m,
    ensures
        coefficient_at(x + y, m, b) == coefficient_at(x, m, b) + coefficient_at(y, m, b),
        coefficient_at(x - y, m, b) == coefficient_at(x, m, b) - coefficient_at(y, m, b),
{
    vstd::arithmetic::mul::lemma_mul_is_distributive_add_other_way(pow(10, (m - b) as nat), x, y);
    vstd::arithmetic::mul::lemma_mul_is_distributive_sub_other_way(pow(10, (m - b) as nat), x, y);
}

/// If `d` is exactly `x - t`, then `t` and `d` add up to `x`.
pub proof fn lemma_difference_adds_back(x: Seq<u8>, t: Seq<u8>, d: Seq<u8>)
    requires
        same_value(
            float_coefficient(d),
            float_exponent(d),
            difference_coefficient(x, t),
            common_exponent(x, t),
        ),
    ensures
        adds_up_to(t, d, x),
{
    let (cx, ex) = (float_coefficient(x), float_exponent(x));
    let (ct, et) = (float_coefficient(t), float_exponent(t));
    let (cd, ed) = (float_coefficient(d), float_exponent(d));
    let m1 = common_exponent(x, t);
    let m2 = common_exponent(t, d);
    let b = min_exponent(min_exponent(ex, et), ed);
    let diff = difference_coefficient(x, t);
    let sum = sum_coefficient(t, d);
    lemma_same_value_at(cd, ed, diff, m1, b);
    lemma_coefficient_at_distributes(
        coefficient_at(cx, ex, m1),
        coefficient_at(ct, et, m1),
        m1,
        b,
    );
    lemma_coefficient_at_lower(cx, ex, m1, b);
    lemma_coefficient_at_lower(ct, et, m1, b);
    lemma_coefficient_at_distributes(
        coefficient_at(ct, et, m2),
        coefficient_at(cd, ed, m2),
        m2,
        b,
    );
    lemma_coefficient_at_lower(ct, et, m2, b);
    lemma_coefficient_at_lower(cd, ed, m2, b);
    assert(coefficient_at(sum, m2, b) == coefficient_at(cx, ex, b));
    lemma_same_value_from(sum, m2, cx, ex, b);
}

/// Replacing each term of a sum with another representation of the same
/// number gives the same sum.
pub proof fn lemma_sum_by_value(a1: int, e1: int, b1: int, f1: int, a2: int, e2: int, b2: int, f2: int)
    requires
        same_value(a1, e1, a2, e2),
        same_value(b1, f1, b2, f2),
    ensures
        same_value(
            coefficient_at(a1, e1, min_exponent(e1, f1)) + coefficient_at(b1, f1, min_exponent(e1, f1)),
            min_exponent(e1, f1),
            coefficient_at(a2, e2, min_exponent(e2, f2)) + coefficient_at(b2, f2, min_exponent(e2, f2)),
            min_exponent(e2, f2),
        ),
{
    let m1 = min_exponent(e1, f1);
    let m2 = min_exponent(e2, f2);
    let b = min_exponent(m1, m2);
    lemma_same_value_at(a1, e1, a2, e2, b);
    lemma_same_value_at(b1, f1, b2, f2, b);
    lemma_coefficient_at_distributes(coefficient_at(a1, e1, m1), coefficient_at(b1, f1, m1), m1, b);
    lemma_coefficient_at_lower(a1, e1, m1, b);
    lemma_coefficient_at_lower(b1, f1, m1, b);
    lemma_coefficient_at_distributes(coefficient_at(a2, e2, m2), coefficient_at(b2, f2, m2), m2, b);
    lemma_coefficient_at_lower(a2, e2, m2, b);
    lemma_coefficient_at_lower(b2, f2, m2, b);
    lemma_same_value_from(
        coefficient_at(a1, e1, m1) + coefficient_at(b1, f1, m1),
        m1,
        coefficient_at(a2, e2, m2) + coefficient_at(b2, f2, m2),
        m2,
        b,
    );
}

/// Scaling both sides by the same power of ten keeps them equal.
pub proof fn lemma_same_value_shift(c1: int, e1: int, c2: int, e2: int, d: int)
    requires
        same_value(c1, e1, c2, e2),
    ensures
        same_value(c1, e1 + d, c2, e2 + d),
{
    let m = min_exponent(e1, e2);
    assert(min_exponent(e1 + d, e2 + d) == m + d);
    assert(((e1 + d) - (m + d)) as nat == (e1 - m) as nat);
    assert(((e2 + d) - (m + d)) as nat == (e2 - m) as nat);
}

/// Two representations of one number are zero together.
pub proof fn lemma_same_value_zero(c1: int, e1: int, c2: int, e2: int)
    requires
        same_value(c1, e1, c2, e2),
    ensures
        (c1 == 0) == (c2 == 0),
{
    let m = min_exponent(e1, e2);
    lemma_coefficient_at_sign(c1, e1, m);
    lemma_coefficient_at_sign(c2, e2, m);
}

/// What `rain_math_float_serde::format_float_with_fallback` writes for a value.
pub uninterp spec fn float_display(raw: Seq<u8>) -> Seq<char>;

/// What `Float::parse` gives for the text `s` (`None` when it fails).
pub uninterp spec fn float_parse(s: Seq<char>) -> Option<Seq<u8>>;

/// What `Float::format_with_scientific` gives for a value (`None` when it fails).
pub uninterp spec fn float_format(raw: Seq<u8>, scientific: bool) -> Option<Seq<char>>;

/// What `Float::is_zero` gives for a value: the answer, or the error.
pub uninterp spec fn float_is_zero(raw: Seq<u8>) -> Result<bool, FloatError>;

/// What `Float::lt` gives for two values: the answer, or the error.
pub uninterp spec fn float_lt(a: Seq<u8>, b: Seq<u8>) -> Result<bool, FloatError>;

/// What `Float::eq` gives for two values.
pub uninterp spec fn float_eq(a: Seq<u8>, b: Seq<u8>) -> Option<bool>;

/// What `Float::abs` gives for a value.
pub uninterp spec fn float_abs(raw: Seq<u8>) -> Option<Seq<u8>>;

/// What `Float::frac` gives for a value.
pub uninterp spec fn float_frac(raw: Seq<u8>) -> Option<Seq<u8>>;

/// What `Float + Float` gives.
pub uninterp spec fn float_add(a: Seq<u8>, b: Seq<u8>) -> Option<Seq<u8>>;

/// What `Float - Float` gives.
pub uninterp spec fn float_sub(a: Seq<u8>, b: Seq<u8>) -> Option<Seq<u8>>;

/// What `Float * Float` gives.
pub uninterp spec fn float_mul(a: Seq<u8>, b: Seq<u8>) -> Option<Seq<u8>>;

/// What `Float / Float` gives.
pub uninterp spec fn float_div(a: Seq<u8>, b: Seq<u8>) -> Option<Seq<u8>>;

/// What `Float::to_fixed_decimal_lossy` gives: the fixed-point integer and
/// whether it is exact.
pub uninterp spec fn float_to_fixed_decimal_lossy(raw: Seq<u8>, decimals: u8) -> Option<(nat, bool)>;

/// What `Float::from_fixed_decimal` gives for a fixed-point integer.
pub uninterp spec fn float_from_fixed_decimal(value: nat, decimals: u8) -> Option<Seq<u8>>;

/// A decimal floating-point value, held as its packed 32 bytes.
#[derive(Clone, Copy, Debug)]
pub struct Float {
    raw: [u8; 32],
}

impl View for Float {
    type V = Seq<u8>;

    closed spec fn view(&self) -> Seq<u8> {
        self.raw@
    }
}

impl Float {
    /// The value packed in `raw`.
    pub fn from_raw(raw: [u8; 32]) -> (r: Float)
        ensures
            r@ == raw@,
    {
        Float { raw }
    }

    /// A packed value has 32 bytes.
    pub proof fn lemma_view_len(self)
        ensures
            self@.len() == 32,
    {
    }

    /// The packed 32 bytes of this value.
    pub fn get_inner(&self) -> (r: [u8; 32])
        ensures
            r@ == self@,
    {
        self.raw
    }

    /// Zero: the all-zero bytes (coefficient 0, exponent 0).
    pub fn zero() -> (r: Float)
        ensures
            r@ == zero_bytes(),
    {
        let r = Float { raw: [0u8; 32] };
        assert(r@ =~= zero_bytes());
        r
    }

    /// Parses decimal text (`rain_math_float::Float::parse`).
    ///
    /// Trusted: the result, or the failure, is what the outside parser gives
    /// for this text; a successful parse of a literal is exact (a literal it
    /// cannot hold exactly is refused, as the crate's reference tests state),
    /// which is stated here for plain decimals `-?[0-9]+(.[0-9]+)?` and for
    /// texts `1e<digits>`; a plain decimal of at most 64 characters whose
    /// number has a packed form is accepted (the parse runs in an EVM with a
    /// fixed gas limit, so a longer text may run out of gas). The rest of its grammar, and when else it fails, are not
    /// stated.
    #[verifier::external_body]
    pub fn parse(s: String) -> (r: Result<Float, FloatError>)
        ensures
            r is Ok <==> float_parse(s@) is Some,
            r matches Ok(f) ==> float_parse(s@) == Some(f@),
            r matches Ok(f) ==> (is_power_of_ten_text(s@) ==> same_value(
                float_coefficient(f@),
                float_exponent(f@),
                1,
                power_of_ten_exponent(s@),
            )),
            r matches Ok(f) ==> (is_plain_decimal(s@) ==> same_value(
                float_coefficient(f@),
                float_exponent(f@),
                plain_decimal_coefficient(s@),
                -(plain_decimal_scale(s@) as int),
            )),
            s@.len() <= 64 && is_power_of_ten_text(s@) && power_of_ten_exponent(s@) <= i32::MAX
                ==> r is Ok,
            s@.len() <= 64 && is_plain_decimal(s@) && representable(
                plain_decimal_coefficient(s@),
                -(plain_decimal_scale(s@) as int),
            ) ==> r is Ok,
    {
        match rain_math_float::Float::parse(s) {
            Ok(f) => Ok(Float { raw: f.get_inner().0 }),
            Err(e) => Err(e),
        }
    }

    /// Formats the value as decimal text (`rain_math_float::Float::format_with_scientific`).
    ///
    /// Trusted: the text, or the failure, is what the outside formatter gives
    /// for these bytes; the plain (not scientific) text of a whole number is
    /// its base-ten spelling, and it fails only when the number without its
    /// trailing zeros has an exponent beyond 1000, so never for a whole
    /// number below `10^1000`, as the crate's reference tests state; other
    /// spellings, and other failures, are not stated.
    #[verifier::external_body]
    pub fn format_with_scientific(self, scientific: bool) -> (r: Result<String, FloatError>)
        ensures
            r is Ok <==> float_format(self@, scientific) is Some,
            r matches Ok(t) ==> float_format(self@, scientific) == Some(t@),
            r matches Ok(t) ==> (!scientific && is_whole_value(
                float_coefficient(self@),
                float_exponent(self@),
            ) ==> t@ == signed_decimal_text(
                truncated_scaled(float_coefficient(self@), float_exponent(self@)),
            )),
            !scientific && is_whole_value(float_coefficient(self@), float_exponent(self@))
                && -pow(10, 1000) < truncated_scaled(float_coefficient(self@), float_exponent(self@))
                < pow(10, 1000) ==> r is Ok,
    {
        rain_math_float::Float::from_raw(rain_math_float::B256::from(self.raw)).format_with_scientific(scientific)
    }

    /// The decimal text for display: plain, else scientific, else the raw
    /// bytes (`rain_math_float_serde::format_float_with_fallback`).
    ///
    /// Trusted: the text is what the outside call writes for these bytes.
    /// The plain and the scientific spellings both write every significant
    /// digit of the number (as the crate's reference tests state); the
    /// scientific one holds an `e` unless its exponent is zero, and the raw
    /// form (`Float(0x..)`) holds letters. So a text made only of digits and
    /// `.`, `+`, `-`, `_` is a plain decimal that spells the number exactly;
    /// the other spellings are not stated.
    #[verifier::external_body]
    pub(crate) fn format_with_fallback(self) -> (r: String)
        ensures
            r@ == float_display(self@),
            decimal_chars_only(r@) ==> is_plain_decimal(r@) && same_value(
                float_coefficient(self@),
                float_exponent(self@),
                plain_decimal_coefficient(r@),
                -(plain_decimal_scale(r@) as int),
            ),
    {
        rain_math_float_serde::format_float_with_fallback(&rain_math_float::Float::from_raw(rain_math_float::B256::from(self.raw)))
    }

    /// Whether the value is zero (`rain_math_float::Float::is_zero`).
    ///
    /// Trusted: the answer is that the coefficient is zero, and it never
    /// fails, as the crate's reference tests state.
    #[verifier::external_body]
    pub fn is_zero(self) -> (r: Result<bool, FloatError>)
        ensures
            r == float_is_zero(self@),
            r is Ok,
            r matches Ok(b) ==> b == (float_coefficient(self@) == 0),
    {
        rain_math_float::Float::from_raw(rain_math_float::B256::from(self.raw)).is_zero()
    }

    /// Whether this value is smaller than `b` (`rain_math_float::Float::lt`).
    ///
    /// Trusted: the answer compares the two numbers exactly, and it never
    /// fails, as the crate's reference tests state.
    #[verifier::external_body]
    pub(crate) fn lt(self, b: Float) -> (r: Result<bool, FloatError>)
        ensures
            r == float_lt(self@, b@),
            r is Ok,
            r matches Ok(x) ==> x == float_less(self@, b@),
    {
        rain_math_float::Float::from_raw(rain_math_float::B256::from(self.raw)).lt(
            rain_math_float::Float::from_raw(rain_math_float::B256::from(b.raw)),
        )
    }

    /// Whether this value equals `b` as a number (`rain_math_float::Float::eq`).
    ///
    /// Trusted: the answer compares the two numbers exactly, and it never
    /// fails, as the crate's reference tests state.
    #[verifier::external_body]
    pub fn eq(self, b: Float) -> (r: Result<bool, FloatError>)
        ensures
            r is Ok <==> float_eq(self@, b@) is Some,
            r matches Ok(x) ==> float_eq(self@, b@) == Some(x),
            r is Ok,
            r matches Ok(x) ==> x == float_same_value(self@, b@),
    {
        rain_math_float::Float::from_raw(rain_math_float::B256::from(self.raw)).eq(
            rain_math_float::Float::from_raw(rain_math_float::B256::from(b.raw)),
        )
    }

    /// The absolute value (`rain_math_float::Float::abs`).
    ///
    /// Trusted: the result, or the failure, is what the outside call gives;
    /// whenever the exact absolute value has a packed form the call succeeds
    /// with it (results round once, towards zero, to a packed value, as the
    /// crate's reference tests state); otherwise (the most negative
    /// coefficient) its rounding, and when it fails, are not stated.
    #[verifier::external_body]
    pub fn abs(self) -> (r: Result<Float, FloatError>)
        ensures
            r is Ok <==> float_abs(self@) is Some,
            r matches Ok(f) ==> float_abs(self@) == Some(f@),
            representable(abs_coefficient(self@), float_exponent(self@)) ==> r is Ok,
            r matches Ok(f) ==> (representable(abs_coefficient(self@), float_exponent(self@))
                ==> same_value(
                float_coefficient(f@),
                float_exponent(f@),
                abs_coefficient(self@),
                float_exponent(self@),
            )),
    {
        match rain_math_float::Float::from_raw(rain_math_float::B256::from(self.raw)).abs() {
            Ok(f) => Ok(Float { raw: f.get_inner().0 }),
            Err(e) => Err(e),
        }
    }

    /// The fractional part, truncating towards zero (`rain_math_float::Float::frac`).
    ///
    /// Trusted: the result stands for exactly the fractional part of the
    /// number (it is always representable), and it never fails, as the
    /// crate's reference tests state.
    #[verifier::external_body]
    pub(crate) fn frac(self) -> (r: Result<Float, FloatError>)
        ensures
            r is Ok <==> float_frac(self@) is Some,
            r is Ok,
            r matches Ok(f) ==> float_frac(self@) == Some(f@),
            r matches Ok(f) ==> same_value(
                float_coefficient(f@),
                float_exponent(f@),
                fraction_coefficient(float_coefficient(self@), float_exponent(self@)),
                float_exponent(self@),
            ),
    {
        match rain_math_float::Float::from_raw(rain_math_float::B256::from(self.raw)).frac() {
            Ok(f) => Ok(Float { raw: f.get_inner().0 }),
            Err(e) => Err(e),
        }
    }

    /// The sum (`Float + Float`).
    ///
    /// Trusted: the result, or the failure, is what the outside call gives;
    /// whenever the exact sum has a packed form the call succeeds with it
    /// (results round once, towards zero, to a packed value, and only a sum
    /// of operands whose exponents lie more than 400 apart, which has no
    /// packed form, is approximated first, as the crate's reference tests
    /// state); otherwise its rounding, and when it fails, are not stated.
    #[verifier::external_body]
    pub fn add(self, b: Float) -> (r: Result<Float, FloatError>)
        ensures
            r is Ok <==> float_add(self@, b@) is Some,
            r matches Ok(f) ==> float_add(self@, b@) == Some(f@),
            representable(sum_coefficient(self@, b@), common_exponent(self@, b@)) ==> r is Ok,
            r matches Ok(f) ==> (representable(sum_coefficient(self@, b@), common_exponent(self@, b@))
                ==> adds_up_to(self@, b@, f@)),
    {
        match rain_math_float::Float::from_raw(rain_math_float::B256::from(self.raw))
            + rain_math_float::Float::from_raw(rain_math_float::B256::from(b.raw)) {
            Ok(f) => Ok(Float { raw: f.get_inner().0 }),
            Err(e) => Err(e),
        }
    }

    /// The difference (`Float - Float`).
    ///
    /// Trusted: the result, or the failure, is what the outside call gives;
    /// whenever the exact difference has a packed form the call succeeds with
    /// it (computed as the sum with the negated operand; see `add`);
    /// otherwise its rounding, and when it fails, are not stated.
    #[verifier::external_body]
    pub(crate) fn sub(self, b: Float) -> (r: Result<Float, FloatError>)
        ensures
            r is Ok <==> float_sub(self@, b@) is Some,
            r matches Ok(f) ==> float_sub(self@, b@) == Some(f@),
            representable(difference_coefficient(self@, b@), common_exponent(self@, b@)) ==> r is Ok,
            r matches Ok(f) ==> (representable(
                difference_coefficient(self@, b@),
                common_exponent(self@, b@),
            ) ==> same_value(
                float_coefficient(f@),
                float_exponent(f@),
                difference_coefficient(self@, b@),
                common_exponent(self@, b@),
            )),
    {
        match rain_math_float::Float::from_raw(rain_math_float::B256::from(self.raw))
            - rain_math_float::Float::from_raw(rain_math_float::B256::from(b.raw)) {
            Ok(f) => Ok(Float { raw: f.get_inner().0 }),
            Err(e) => Err(e),
        }
    }

    /// The product (`Float * Float`).
    ///
    /// Trusted: the result, or the failure, is what the outside call gives;
    /// whenever the exact product has a packed form the call succeeds with it
    /// (results round once, towards zero, to a packed value, as the crate's
    /// reference tests state); otherwise its rounding, and when it fails, are
    /// not stated.
    #[verifier::external_body]
    pub(crate) fn mul(self, b: Float) -> (r: Result<Float, FloatError>)
        ensures
            r is Ok <==> float_mul(self@, b@) is Some,
            r matches Ok(f) ==> float_mul(self@, b@) == Some(f@),
            representable(
                float_coefficient(self@) * float_coefficient(b@),
                float_exponent(self@) + float_exponent(b@),
            ) ==> r is Ok,
            r matches Ok(f) ==> (representable(
                float_coefficient(self@) * float_coefficient(b@),
                float_exponent(self@) + float_exponent(b@),
            ) ==> same_value(
                float_coefficient(f@),
                float_exponent(f@),
                float_coefficient(self@) * float_coefficient(b@),
                float_exponent(self@) + float_exponent(b@),
            )),
    {
        match rain_math_float::Float::from_raw(rain_math_float::B256::from(self.raw))
            * rain_math_float::Float::from_raw(rain_math_float::B256::from(b.raw)) {
            Ok(f) => Ok(Float { raw: f.get_inner().0 }),
            Err(e) => Err(e),
        }
    }

    /// The quotient (`Float / Float`).
    ///
    /// Trusted: the result, or the failure, is what the outside call gives;
    /// whenever the exact quotient has a packed form the call succeeds with it
    /// (the quotient is taken to 160 more digits than any packed quotient
    /// needs, then rounded once, towards zero, to a packed value, as the
    /// crate's reference tests state); otherwise its rounding, and when it
    /// fails, are not stated.
    #[verifier::external_body]
    pub(crate) fn div(self, b: Float) -> (r: Result<Float, FloatError>)
        ensures
            r is Ok <==> float_div(self@, b@) is Some,
            r matches Ok(f) ==> float_div(self@, b@) == Some(f@),
            (exists|qc: int, qe: int|
                #[trigger] quotient_is(self@, b@, qc, qe) && fits_coefficient(qc) && fits_exponent(
                    qe,
                )) ==> r is Ok,
            r matches Ok(f) ==> forall|qc: int, qe: int|
                #[trigger] quotient_is(self@, b@, qc, qe) && fits_coefficient(qc) && fits_exponent(qe)
                    ==> same_value(float_coefficient(f@), float_exponent(f@), qc, qe),
    {
        match rain_math_float::Float::from_raw(rain_math_float::B256::from(self.raw))
            / rain_math_float::Float::from_raw(rain_math_float::B256::from(b.raw)) {
            Ok(f) => Ok(Float { raw: f.get_inner().0 }),
            Err(e) => Err(e),
        }
    }

    /// The value scaled by `10^decimals` as an unsigned integer, truncated,
    /// and whether nothing was cut off (`rain_math_float::Float::to_fixed_decimal_lossy`).
    ///
    /// Trusted: a successful result is the truncation of `value * 10^decimals`
    /// of a value that is not negative, and the flag says whether it is exact;
    /// it succeeds for a value that is not negative, whose exponent plus
    /// `decimals` is at most 80, and whose truncation fits in 256 bits, as the
    /// crate's reference tests state; other failures are not stated.
    #[verifier::external_body]
    pub(crate) fn to_fixed_decimal_lossy(self, decimals: u8) -> (r: Result<(U256, bool), FloatError>)
        ensures
            r is Ok <==> float_to_fixed_decimal_lossy(self@, decimals) is Some,
            r matches Ok(p) ==> float_to_fixed_decimal_lossy(self@, decimals) == Some((p.0@, p.1)),
            r matches Ok(p) ==> float_coefficient(self@) >= 0 && p.0@ == truncated_scaled(
                float_coefficient(self@),
                float_exponent(self@) + decimals,
            ) && p.1 == is_whole_value(
                float_coefficient(self@),
                float_exponent(self@) + decimals,
            ),
            float_coefficient(self@) >= 0 && float_exponent(self@) + decimals <= 80
                && truncated_scaled(float_coefficient(self@), float_exponent(self@) + decimals)
                <= 0xffff_ffff_ffff_ffff_ffff_ffff_ffff_ffff_ffff_ffff_ffff_ffff_ffff_ffff_ffff_ffff ==> r is Ok,
    {
        match rain_math_float::Float::from_raw(rain_math_float::B256::from(self.raw)).to_fixed_decimal_lossy(decimals) {
            Ok((v, lossless)) => Ok((U256::from_limbs(v.into_limbs()), lossless)),
            Err(e) => Err(e),
        }
    }

    /// The value of the fixed-point integer `value` with `decimals` decimals,
    /// when it is exactly representable (`rain_math_float::Float::from_fixed_decimal`).
    ///
    /// Trusted: a successful result stands for exactly `value * 10^-decimals`,
    /// as the crate's reference tests state; when it fails is not stated.
    #[verifier::external_body]
    pub(crate) fn from_fixed_decimal(value: U256, decimals: u8) -> (r: Result<Float, FloatError>)
        ensures
            r is Ok <==> float_from_fixed_decimal(value@, decimals) is Some,
            r matches Ok(f) ==> float_from_fixed_decimal(value@, decimals) == Some(f@),
            r matches Ok(f) ==> same_value(
                float_coefficient(f@),
                float_exponent(f@),
                value@ as int,
                -(decimals as int),
            ),
    {
        match rain_math_float::Float::from_fixed_decimal(
            alloy_primitives::U256::from_limbs(value.into_limbs()),
            decimals,
        ) {
            Ok(f) => Ok(Float { raw: f.get_inner().0 }),
            Err(e) => Err(e),
        }
    }
}

} // verus!
