//! Exact decimals with a 96-bit mantissa and a scale of at most 28, as
//! `rust_decimal` keeps them.
//!
//! A value is held as the 16 bytes that `rust_decimal::Decimal::serialize`
//! writes: four bytes of flags (the scale in the third, the sign in the top
//! bit of the fourth), then the mantissa as twelve little-endian bytes. The
//! number is `± mantissa / 10^scale`; the sign is kept on zero too. Every
//! value of this type is built from such bytes by the wrappers below.
use crate::float::{coefficient_at, min_exponent, rem_toward_zero, same_value};
use crate::text::{
    all_digits, decimal_chars_only, decimal_digits, digits_value, is_plain_decimal, plain_decimal_coefficient,
    plain_decimal_scale,
};
use vstd::arithmetic::power::pow;
use vstd::prelude::*;

verus! {

#[verifier::external_type_specification]
#[verifier::external_body]
pub struct ExDecimalError(rust_decimal::Error);

/// The unsigned little-endian number spelled by `s`.
pub open spec fn le_nat(s: Seq<u8>) -> nat
    decreases s.len(),
{
    if s.len() == 0 {
        0
    } else {
        s[0] as nat + 256 * le_nat(s.drop_first())
    }
}

/// The mantissa's magnitude.
pub open spec fn decimal_magnitude(b: Seq<u8>) -> nat {
    le_nat(b.subrange(4, 16))
}

/// The scale: the number of decimal places.
pub open spec fn decimal_scale(b: Seq<u8>) -> nat {
    b[2] as nat
}

/// The sign bit (set for negative numbers, and for negative zero).
pub open spec fn decimal_negative(b: Seq<u8>) -> bool {
    b[3] >= 128
}

/// The mantissa with its sign.
pub open spec fn decimal_mantissa(b: Seq<u8>) -> int {
    if decimal_negative(b) {
        -(decimal_magnitude(b) as int)
    } else {
        decimal_magnitude(b) as int
    }
}

/// `b` stands for `c / 10^s`.
pub open spec fn decimal_stands_for(b: Seq<u8>, c: int, s: nat) -> bool {
    decimal_mantissa(b) * pow(10, s) == c * pow(10, decimal_scale(b))
}

/// Two decimals stand for the same number (so `0` equals `-0`, and `1.0` equals `1`).
pub open spec fn decimal_same_value(a: Seq<u8>, b: Seq<u8>) -> bool {
    decimal_stands_for(a, decimal_mantissa(b), decimal_scale(b))
}

/// Two decimals have the same spelling: same mantissa, scale and sign.
pub open spec fn decimal_same_representation(a: Seq<u8>, b: Seq<u8>) -> bool {
    &&& decimal_mantissa(a) == decimal_mantissa(b)
    &&& decimal_scale(a) == decimal_scale(b)
    &&& decimal_negative(a) == decimal_negative(b)
}

/// The bytes of zero.
pub open spec fn decimal_zero_bytes() -> Seq<u8> {
    seq![0u8; 16]
}

/// What `Decimal::from_str_exact` gives for the text `s` (`None` when it refuses it).
pub uninterp spec fn decimal_from_str_exact(s: Seq<char>) -> Option<Seq<u8>>;

/// What `str::parse::<Decimal>` (`Decimal::from_str`) gives for the text `s`.
pub uninterp spec fn decimal_parse(s: Seq<char>) -> Option<Seq<u8>>;

/// The text that `Decimal`'s `Display` writes.
pub uninterp spec fn decimal_to_string(b: Seq<u8>) -> Seq<char>;

/// What `Decimal::checked_mul` gives.
pub uninterp spec fn decimal_checked_mul(a: Seq<u8>, b: Seq<u8>) -> Option<Seq<u8>>;

/// What `Decimal::checked_div` gives.
pub uninterp spec fn decimal_checked_div(a: Seq<u8>, b: Seq<u8>) -> Option<Seq<u8>>;

/// What `Decimal::checked_sub` gives.
pub uninterp spec fn decimal_checked_sub(a: Seq<u8>, b: Seq<u8>) -> Option<Seq<u8>>;

/// What `Decimal::from(u64)` gives.
pub uninterp spec fn decimal_from_u64(n: nat) -> Seq<u8>;

/// What `Decimal::trunc` gives.
pub uninterp spec fn decimal_trunc(b: Seq<u8>) -> Seq<u8>;

/// What `Decimal::fract` gives.
pub uninterp spec fn decimal_fract(b: Seq<u8>) -> Seq<u8>;

/// What `Decimal::deserialize` gives for sixteen bytes.
pub uninterp spec fn decimal_deserialize(b: Seq<u8>) -> Seq<u8>;

/// Bytes that are all zero spell zero.
pub proof fn lemma_le_nat_zeros(s: Seq<u8>)
    requires
        forall|i: int| 0 <= i < s.len() ==> s[i] == 0,
    ensures
        le_nat(s) == 0,
    decreases s.len(),
{
    if s.len() > 0 {
        lemma_le_nat_zeros(s.drop_first());
    }
}

/// Zero's mantissa and scale are both zero, and its sign bit is clear.
pub proof fn lemma_decimal_zero_bytes()
    ensures
        decimal_mantissa(decimal_zero_bytes()) == 0,
        decimal_scale(decimal_zero_bytes()) == 0,
        !decimal_negative(decimal_zero_bytes()),
{
    lemma_le_nat_zeros(decimal_zero_bytes().subrange(4, 16));
}

/// A decimal equals zero exactly when its mantissa is zero.
pub proof fn lemma_decimal_same_as_zero(b: Seq<u8>)
    ensures
        decimal_same_value(b, decimal_zero_bytes()) == (decimal_mantissa(b) == 0),
{
    lemma_decimal_zero_bytes();
    vstd::arithmetic::power::lemma_pow0(10);
}

/// A decimal that stands for `c / 10^s` is zero exactly when `c` is.
pub proof fn lemma_stands_for_zero(b: Seq<u8>, c: int, s: nat)
    requires
        decimal_stands_for(b, c, s),
    ensures
        (decimal_mantissa(b) == 0) == (c == 0),
{
    let p = pow(10, s);
    let q = pow(10, decimal_scale(b));
    vstd::arithmetic::power::lemma_pow_positive(10, s);
    vstd::arithmetic::power::lemma_pow_positive(10, decimal_scale(b));
    let m = decimal_mantissa(b);
    assert((m == 0) == (c == 0)) by (nonlinear_arith)
        requires
            m * p == c * q,
            p > 0,
            q > 0,
    ;
}

/// `s` is a plain decimal that a decimal holds as it is written: at most 28
/// digits after the point, and its digits read as one integer fit in 96 bits.
pub open spec fn fits_plain_decimal(s: Seq<char>) -> bool {
    &&& is_plain_decimal(s)
    &&& plain_decimal_scale(s) <= 28
    &&& -pow(256, 12) < plain_decimal_coefficient(s) < pow(256, 12)
}

/// The size of the product of two decimals' mantissas.
pub open spec fn decimal_product_size(a: Seq<u8>, b: Seq<u8>) -> nat {
    let p = decimal_mantissa(a) * decimal_mantissa(b);
    if p < 0 {
        (-p) as nat
    } else {
        p as nat
    }
}

/// The mantissa's digits, padded with leading zeros to more than `scale` digits.
pub open spec fn padded_digits(b: Seq<u8>) -> Seq<char> {
    let s = decimal_scale(b);
    let d = decimal_digits(decimal_magnitude(b));
    if d.len() > s {
        d
    } else {
        Seq::new((s + 1 - d.len()) as nat, |i: int| '0') + d
    }
}

/// The padded digits with a `.` before the last `scale` of them (none for scale 0).
pub open spec fn unsigned_decimal_text(b: Seq<u8>) -> Seq<char> {
    let s = decimal_scale(b) as int;
    let p = padded_digits(b);
    let n = p.len() as int;
    if s == 0 {
        p
    } else {
        p.subrange(0, n - s) + seq!['.'] + p.subrange(n - s, n)
    }
}

/// The text `Decimal`'s `Display` writes: a `-` when the sign bit is set,
/// then the unsigned text.
pub open spec fn decimal_text(b: Seq<u8>) -> Seq<char> {
    if decimal_negative(b) {
        seq!['-'] + unsigned_decimal_text(b)
    } else {
        unsigned_decimal_text(b)
    }
}

/// Zeros spell zero.
proof fn lemma_zeros_value(z: nat)
    ensures
        digits_value(Seq::new(z, |i: int| '0')) == 0,
    decreases z,
{
    if z > 0 {
        lemma_zeros_value((z - 1) as nat);
        assert(Seq::new(z, |i: int| '0').drop_last() =~= Seq::new((z - 1) as nat, |i: int| '0'));
    }
}

/// Leading zeros do not change the number a digit string spells.
proof fn lemma_leading_zeros(z: nat, d: Seq<char>)
    ensures
        digits_value(Seq::new(z, |i: int| '0') + d) == digits_value(d),
    decreases d.len(),
{
    let zs = Seq::new(z, |i: int| '0');
    if d.len() == 0 {
        assert(zs + d =~= zs);
        lemma_zeros_value(z);
    } else {
        lemma_leading_zeros(z, d.drop_last());
        assert((zs + d).drop_last() =~= zs + d.drop_last());
        assert((zs + d).last() == d.last());
    }
}

/// The padded digits are digits, more than `scale` of them, spelling the magnitude.
proof fn lemma_padded_digits(b: Seq<u8>)
    ensures
        padded_digits(b).len() > decimal_scale(b),
        all_digits(padded_digits(b)),
        digits_value(padded_digits(b)) == decimal_magnitude(b),
{
    let s = decimal_scale(b);
    let d = decimal_digits(decimal_magnitude(b));
    crate::text::lemma_decimal_digits_spell(decimal_magnitude(b));
    if d.len() <= s {
        let z = (s + 1 - d.len()) as nat;
        lemma_leading_zeros(z, d);
        let p = Seq::new(z, |i: int| '0') + d;
        assert forall|i: int| 0 <= i < p.len() implies crate::text::is_digit(#[trigger] p[i]) by {
            if i >= z {
                assert(p[i] == d[i - z]);
            }
        }
    }
}

/// The unsigned text starts with a digit; at scale 0 it is all digits, and
/// otherwise its one `.` stands right before its last `scale` characters.
proof fn lemma_unsigned_text_shape(b: Seq<u8>)
    ensures
        unsigned_decimal_text(b).len() > 0,
        crate::text::is_digit(unsigned_decimal_text(b)[0]),
        decimal_scale(b) == 0 ==> unsigned_decimal_text(b) == padded_digits(b),
        decimal_scale(b) > 0 ==> {
            let u = unsigned_decimal_text(b);
            let n = padded_digits(b).len() as int;
            let s = decimal_scale(b) as int;
            &&& u.len() == n + 1
            &&& u[n - s] == '.'
            &&& forall|i: int| 0 <= i < u.len() && i != n - s ==> crate::text::is_digit(#[trigger] u[i])
            &&& padded_digits(b) =~= u.subrange(0, n - s) + u.subrange(n - s + 1, n + 1)
        },
{
    lemma_padded_digits(b);
    let p = padded_digits(b);
    let s = decimal_scale(b) as int;
    let n = p.len() as int;
    let u = unsigned_decimal_text(b);
    if s > 0 {
        assert(u[0] == p[0]);
        assert forall|i: int| 0 <= i < u.len() && i != n - s implies crate::text::is_digit(#[trigger] u[i]) by {
            if i < n - s {
                assert(u[i] == p[i]);
            } else {
                assert(u[i] == p[i - 1]);
            }
        }
        assert(u.subrange(0, n - s) =~= p.subrange(0, n - s));
        assert(u.subrange(n - s + 1, n + 1) =~= p.subrange(n - s, n));
    } else {
        assert(crate::text::is_digit(p[0]));
    }
}

/// The text of a decimal whose scale is at most 28 has at most 31 characters.
pub proof fn lemma_text_len(b: Seq<u8>)
    requires
        b.len() == 16,
        decimal_scale(b) <= 28,
    ensures
        decimal_text(b).len() <= 31,
{
    lemma_le_nat_bound(b.subrange(4, 16));
    reveal_with_fuel(pow, 30);
    assert(pow(256, 12) < pow(10, 29));
    crate::text::lemma_decimal_digits_len(decimal_magnitude(b), 29);
    lemma_padded_digits(b);
}

/// Two decimals with the same text have the same spelling: mantissa, scale
/// and sign bit.
pub proof fn lemma_text_determines_representation(a: Seq<u8>, b: Seq<u8>)
    requires
        decimal_text(a) == decimal_text(b),
    ensures
        decimal_same_representation(a, b),
{
    lemma_unsigned_text_shape(a);
    lemma_unsigned_text_shape(b);
    lemma_padded_digits(a);
    lemma_padded_digits(b);
    let (ua, ub) = (unsigned_decimal_text(a), unsigned_decimal_text(b));
    assert(!crate::text::is_digit('-'));
    if decimal_negative(a) != decimal_negative(b) {
        if decimal_negative(a) {
            assert(decimal_text(a)[0] == '-');
        } else {
            assert(decimal_text(b)[0] == '-');
        }
        assert(false);
    }
    if decimal_negative(a) {
        assert(ua =~= decimal_text(a).drop_first());
        assert(ub =~= decimal_text(b).drop_first());
    }
    assert(ua == ub);
    let (sa, sb) = (decimal_scale(a) as int, decimal_scale(b) as int);
    let (na, nb) = (padded_digits(a).len() as int, padded_digits(b).len() as int);
    assert(!crate::text::is_digit('.'));
    if sa == 0 && sb > 0 {
        assert(ua[nb - sb] == '.');
        assert(false);
    }
    if sb == 0 && sa > 0 {
        assert(ub[na - sa] == '.');
        assert(false);
    }
    if sa > 0 && sb > 0 {
        assert(na == nb);
        if sa != sb {
            assert(ua[na - sb] == '.');
            assert(false);
        }
    }
    assert(sa == sb);
    assert(padded_digits(a) == padded_digits(b));
}

/// A whole number (scale 0) divided by `10^18` (at scale 0, positive).
pub open spec fn divides_by_wei(a: Seq<u8>, b: Seq<u8>) -> bool {
    &&& decimal_scale(a) == 0
    &&& decimal_mantissa(b) == 1_000_000_000_000_000_000
    &&& decimal_scale(b) == 0
}

/// The exact product of two decimals, whose scales add up to at most 28, has
/// a decimal form: dropping some `k` of its trailing zeros (`k` at most the
/// scale) leaves a mantissa that fits in 96 bits.
pub open spec fn decimal_product_exact(a: Seq<u8>, b: Seq<u8>) -> bool {
    let p = decimal_product_size(a, b);
    let s = decimal_scale(a) + decimal_scale(b);
    &&& s <= 28
    &&& exists|k: nat|
        #![trigger pow(10, k)]
        k <= s && p % (pow(10, k) as nat) == 0 && p / (pow(10, k) as nat) < pow(256, 12)
}

/// The product of two decimals, whose scales add up to at most 28, is too
/// large for a decimal even at scale 0.
pub open spec fn decimal_product_overflows(a: Seq<u8>, b: Seq<u8>) -> bool {
    &&& decimal_scale(a) + decimal_scale(b) <= 28
    &&& decimal_product_size(a, b) >= pow(256, 12) * pow(10, decimal_scale(a) + decimal_scale(b))
}

/// The numbers that the decimals `a` and `b` stand for add up to the one `c` stands for.
pub open spec fn decimal_adds_up_to(a: Seq<u8>, b: Seq<u8>, c: Seq<u8>) -> bool {
    let ea = -(decimal_scale(a) as int);
    let eb = -(decimal_scale(b) as int);
    let m = min_exponent(ea, eb);
    same_value(
        coefficient_at(decimal_mantissa(a), ea, m) + coefficient_at(decimal_mantissa(b), eb, m),
        m,
        decimal_mantissa(c),
        -(decimal_scale(c) as int),
    )
}

/// A decimal stands for `c / 10^s` exactly when its mantissa at exponent
/// `-scale` and `c` at exponent `-s` are the same number.
pub proof fn lemma_stands_for_same_value(b: Seq<u8>, c: int, s: nat)
    ensures
        decimal_stands_for(b, c, s) == same_value(
            decimal_mantissa(b),
            -(decimal_scale(b) as int),
            c,
            -(s as int),
        ),
{
    let sb = decimal_scale(b);
    let mb = decimal_mantissa(b);
    vstd::arithmetic::power::lemma_pow0(10);
    if sb >= s {
        let k = (sb - s) as nat;
        let p = pow(10, k);
        let q = pow(10, s);
        vstd::arithmetic::power::lemma_pow_positive(10, s);
        vstd::arithmetic::power::lemma_pow_adds(10, k, s);
        assert(k + s == sb);
        assert(coefficient_at(mb, -(sb as int), -(sb as int)) == mb);
        assert(coefficient_at(c, -(s as int), -(sb as int)) == c * p);
        assert((mb * q == c * pow(10, sb)) == (mb == c * p)) by (nonlinear_arith)
            requires
                pow(10, sb) == p * q,
                q > 0,
        ;
    } else {
        let k = (s - sb) as nat;
        let p = pow(10, k);
        let q = pow(10, sb);
        vstd::arithmetic::power::lemma_pow_positive(10, sb);
        vstd::arithmetic::power::lemma_pow_adds(10, k, sb);
        assert(k + sb == s);
        assert(coefficient_at(c, -(s as int), -(s as int)) == c);
        assert(coefficient_at(mb, -(sb as int), -(s as int)) == mb * p);
        assert((mb * pow(10, s) == c * q) == (mb * p == c)) by (nonlinear_arith)
            requires
                pow(10, s) == p * q,
                q > 0,
        ;
    }
}

/// A little-endian number of `n` bytes is below `256^n`.
pub proof fn lemma_le_nat_bound(s: Seq<u8>)
    ensures
        le_nat(s) < pow(256, s.len()),
    decreases s.len(),
{
    vstd::arithmetic::power::lemma_pow0(256);
    if s.len() > 0 {
        lemma_le_nat_bound(s.drop_first());
        vstd::arithmetic::power::lemma_pow_adds(256, 1, (s.len() - 1) as nat);
        vstd::arithmetic::power::lemma_pow1(256);
        assert(s.len() == 1 + (s.len() - 1) as nat);
        let r = le_nat(s.drop_first());
        let p = pow(256, (s.len() - 1) as nat);
        assert(s[0] as nat + 256 * r < 256 * p) by (nonlinear_arith)
            requires
                r < p,
                s[0] < 256,
        ;
    }
}

/// The signed mantissa of a decimal fits in a Float coefficient.
pub proof fn lemma_mantissa_fits(b: Seq<u8>)
    requires
        b.len() == 16,
    ensures
        crate::float::fits_coefficient(decimal_mantissa(b)),
{
    lemma_le_nat_bound(b.subrange(4, 16));
    vstd::arithmetic::power::lemma_pow_increases(256, 12, 27);
    vstd::arithmetic::power::lemma_pow_positive(256, 27);
    assert(pow(256, 12) <= 128 * pow(256, 27)) by (nonlinear_arith)
        requires
            pow(256, 12) <= pow(256, 27),
            pow(256, 27) > 0,
    ;
}

/// An exact decimal number, held as `rust_decimal`'s serialized bytes.
#[derive(Clone, Copy, Debug)]
pub struct Decimal {
    bytes: [u8; 16],
}

impl PartialEq for Decimal {
    fn eq(&self, other: &Self) -> (r: bool) {
        self.numeric_eq(other)
    }
}

impl vstd::std_specs::cmp::PartialEqSpecImpl for Decimal {
    open spec fn obeys_eq_spec() -> bool {
        true
    }

    open spec fn eq_spec(&self, other: &Self) -> bool {
        decimal_same_value(self@, other@)
    }
}

impl Eq for Decimal {}

impl Decimal {
    /// The scale of every decimal is at most 28: `rust_decimal` keeps it so,
    /// and each call that makes a decimal says so.
    #[verifier::type_invariant]
    pub open spec fn scale_in_range(self) -> bool {
        decimal_scale(self@) <= 28
    }
}

impl View for Decimal {
    type V = Seq<u8>;

    closed spec fn view(&self) -> Seq<u8> {
        self.bytes@
    }
}

impl Decimal {
    /// A decimal's bytes are sixteen.
    pub proof fn lemma_view_len(self)
        ensures
            self@.len() == 16,
    {
    }

    /// Zero (positive, scale 0).
    pub fn zero() -> (r: Decimal)
        ensures
            r@ == decimal_zero_bytes(),
    {
        let r = Decimal { bytes: [0u8; 16] };
        assert(r@ =~= decimal_zero_bytes());
        r
    }

    /// The sixteen bytes that `rust_decimal` serializes this value to.
    pub fn serialize(&self) -> (r: [u8; 16])
        ensures
            r@ == self@,
    {
        self.bytes
    }

    /// The decimal that `rust_decimal` reads from sixteen bytes
    /// (`rust_decimal::Decimal::deserialize`).
    ///
    /// Trusted: the result is what the outside call gives for these bytes.
    /// As its source reads them, it keeps the sign bit, the scale bits and
    /// the mantissa, bringing a scale above 28 down to 28; so bytes that
    /// already have the form it writes (first two bytes zero, a scale of at
    /// most 28, only the sign bit in the fourth) come back unchanged.
    #[verifier::external_body]
    pub fn deserialize(bytes: [u8; 16]) -> (r: Decimal)
        ensures
            r@ == decimal_deserialize(bytes@),
            decimal_scale(r@) <= 28,
            bytes@[0] == 0 && bytes@[1] == 0 && bytes@[2] <= 28 && (bytes@[3] == 0 || bytes@[3]
                == 0x80) ==> r@ == bytes@,
    {
        Decimal { bytes: rust_decimal::Decimal::deserialize(bytes).serialize() }
    }

    /// Parses plain decimal text and keeps its scale (`rust_decimal::Decimal::from_str_exact`).
    ///
    /// Trusted: the result, or the refusal, is what the outside parser gives
    /// for this text. As its source reads the text, it accepts only digits,
    /// `.`, a leading `+` or `-`, and `_` after a digit; it reads the digits
    /// exactly into the mantissa and counts the digits after the point as
    /// the scale, and refuses what does not fit instead of rounding: a plain
    /// decimal with at most 28 digits after the point whose digits fit in 96
    /// bits is accepted when it has at most 80 characters (longer texts are
    /// read by a chain of calls whose depth is not stated), and one with more
    /// than 28 digits after the point is
    /// refused (even when they are zeros). Which other texts it refuses is
    /// not stated.
    #[verifier::external_body]
    pub fn from_str_exact(s: &str) -> (r: Result<Decimal, rust_decimal::Error>)
        ensures
            r is Ok <==> decimal_from_str_exact(s@) is Some,
            r matches Ok(d) ==> decimal_from_str_exact(s@) == Some(d@),
            r matches Ok(d) ==> decimal_scale(d@) <= 28,
            r is Ok ==> decimal_chars_only(s@),
            r is Err ==> !(s@.len() <= 80 && fits_plain_decimal(s@)),
            is_plain_decimal(s@) && plain_decimal_scale(s@) > 28 ==> r is Err,
            r matches Ok(d) ==> (is_plain_decimal(s@) ==> decimal_mantissa(d@)
                == plain_decimal_coefficient(s@) && decimal_scale(d@) == plain_decimal_scale(s@)),
    {
        match rust_decimal::Decimal::from_str_exact(s) {
            Ok(d) => Ok(Decimal { bytes: d.serialize() }),
            Err(e) => Err(e),
        }
    }

    /// Parses decimal text (`<rust_decimal::Decimal as FromStr>::from_str`).
    ///
    /// Trusted: the result, or the refusal, is what the outside parser gives
    /// for this text. As its source reads a text of at most 80 digits only,
    /// it reads them exactly into the mantissa at scale 0 and refuses them
    /// when they do not fit in 96 bits (there is no point to round at). Its other
    /// grammar and its rounding are not stated.
    #[verifier::external_body]
    pub(crate) fn parse(s: &str) -> (r: Result<Decimal, rust_decimal::Error>)
        ensures
            r is Ok <==> decimal_parse(s@) is Some,
            r matches Ok(d) ==> decimal_parse(s@) == Some(d@),
            r matches Ok(d) ==> decimal_scale(d@) <= 28,
            0 < s@.len() <= 80 && all_digits(s@) ==> (r is Ok <==> digits_value(s@) < pow(
                256,
                12,
            )),
            r matches Ok(d) ==> (s@.len() > 0 && all_digits(s@) ==> decimal_mantissa(d@)
                == digits_value(s@) && decimal_scale(d@) == 0),
    {
        match s.parse::<rust_decimal::Decimal>() {
            Ok(d) => Ok(Decimal { bytes: d.serialize() }),
            Err(e) => Err(e),
        }
    }

    /// The decimal text of this value, with its scale (`Decimal`'s `Display`).
    ///
    /// Trusted: the text is what the outside formatter writes for these bytes:
    /// as its source writes it, a `-` when the sign bit is set, then the
    /// mantissa's digits, padded with leading zeros to at least `scale` of
    /// them, with a `.` before the last `scale` (and a `0` before the `.`
    /// when no digit is left in front of it, or `0` alone for zero at scale
    /// 0): `decimal_text`, a plain decimal whose digits are the mantissa and
    /// whose digits after the point are `scale`.
    #[verifier::external_body]
    pub fn to_string(&self) -> (r: String)
        ensures
            r@ == decimal_to_string(self@),
            r@ == decimal_text(self@),
            is_plain_decimal(r@),
            plain_decimal_coefficient(r@) == decimal_mantissa(self@),
            plain_decimal_scale(r@) == decimal_scale(self@),
    {
        rust_decimal::Decimal::deserialize(self.bytes).to_string()
    }

    /// The decimal `n` (`rust_decimal::Decimal::from(u64)`).
    ///
    /// Trusted: the mantissa is `n`, the scale 0 and the sign positive, as the
    /// outside source builds it.
    #[verifier::external_body]
    pub(crate) fn from_u64(n: u64) -> (r: Decimal)
        ensures
            r@ == decimal_from_u64(n as nat),
            decimal_mantissa(r@) == n as int,
            decimal_scale(r@) == 0,
            !decimal_negative(r@),
    {
        Decimal { bytes: rust_decimal::Decimal::from(n).serialize() }
    }

    /// The signed mantissa: the twelve mantissa bytes read little-endian,
    /// negated when the sign bit is set (what `rust_decimal::Decimal::mantissa` gives).
    pub fn mantissa(&self) -> (r: i128)
        ensures
            r as int == decimal_mantissa(self@),
    {
        let ghost b = self@;
        proof {
            reveal_with_fuel(pow, 13);
            assert(pow(256, 12) == 0x1_0000_0000_0000_0000_0000_0000);
        }
        let mut m: u128 = 0;
        let mut i: usize = 16;
        assert(b.subrange(16, 16) =~= Seq::<u8>::empty());
        while i > 4
            invariant
                4 <= i <= 16,
                b == self@,
                b.len() == 16,
                m as nat == le_nat(b.subrange(i as int, 16)),
            decreases i,
        {
            i = i - 1;
            proof {
                lemma_le_nat_bound(b.subrange(i + 1, 16));
                vstd::arithmetic::power::lemma_pow_increases(256, (15 - i) as nat, 11);
                reveal_with_fuel(pow, 12);
                assert(b.subrange(i as int, 16).drop_first() =~= b.subrange(i + 1, 16));
            }
            m = m * 256 + self.bytes[i] as u128;
        }
        proof {
            lemma_le_nat_bound(b.subrange(4, 16));
        }
        if self.bytes[3] >= 128 {
            -(m as i128)
        } else {
            m as i128
        }
    }

    /// The scale: the third byte of the flags (what `rust_decimal::Decimal::scale` gives).
    pub fn scale(&self) -> (r: u32)
        ensures
            r as nat == decimal_scale(self@),
    {
        self.bytes[2] as u32
    }

    /// Whether the sign bit, the top bit of the flags, is set (what
    /// `rust_decimal::Decimal::is_sign_negative` gives).
    pub(crate) fn is_sign_negative(&self) -> (r: bool)
        ensures
            r == decimal_negative(self@),
    {
        self.bytes[3] >= 128
    }

    /// Numeric equality (`<rust_decimal::Decimal as PartialEq>::eq`).
    ///
    /// Trusted: the answer is whether the two numbers are equal, whatever
    /// their scales and whatever the sign of a zero.
    #[verifier::external_body]
    pub(crate) fn numeric_eq(&self, other: &Decimal) -> (r: bool)
        ensures
            r == decimal_same_value(self@, other@),
    {
        rust_decimal::Decimal::deserialize(self.bytes) == rust_decimal::Decimal::deserialize(other.bytes)
    }

    /// The product, `None` on overflow (`rust_decimal::Decimal::checked_mul`).
    ///
    /// Trusted: the result is what the outside call gives. As its source
    /// computes it (for scales adding up to at most 28), the product of the
    /// mantissas is formed exactly at the sum of the scales; when it needs
    /// more than 96 bits it drops the fewest trailing digits that make it
    /// fit (its first guess never drops more), rounding what it drops, and
    /// overflows when even scale 0 is not enough. So a product that has a
    /// decimal form comes back exact, with the product's sign, and a product
    /// too large at scale 0 overflows. Otherwise its rounding, and when it
    /// overflows, are not stated.
    #[verifier::external_body]
    pub(crate) fn checked_mul(self, other: Decimal) -> (r: Option<Decimal>)
        ensures
            r is Some <==> decimal_checked_mul(self@, other@) is Some,
            r matches Some(d) ==> decimal_checked_mul(self@, other@) == Some(d@),
            r is None ==> !decimal_product_exact(self@, other@),
            r is Some ==> !decimal_product_overflows(self@, other@),
            r matches Some(d) ==> decimal_scale(d@) <= 28,
            r matches Some(d) ==> (decimal_product_exact(self@, other@) ==> decimal_stands_for(
                d@,
                decimal_mantissa(self@) * decimal_mantissa(other@),
                decimal_scale(self@) + decimal_scale(other@),
            ) && decimal_negative(d@) == (decimal_mantissa(self@) * decimal_mantissa(other@) < 0)),
    {
        match rust_decimal::Decimal::deserialize(self.bytes).checked_mul(rust_decimal::Decimal::deserialize(other.bytes)) {
            Some(d) => Some(Decimal { bytes: d.serialize() }),
            None => None,
        }
    }

    /// The quotient, `None` on overflow or division by zero (`rust_decimal::Decimal::checked_div`).
    ///
    /// Trusted: the result is what the outside call gives. As its source
    /// divides a whole number (scale 0) by `10^18` (a 64-bit divisor), it
    /// takes the quotient and, while there is a remainder, scales it up by
    /// the largest power of ten (at most `10^9`) that still fits in 96 bits;
    /// two such steps reach scale 18, where the quotient is the dividend's
    /// mantissa and nothing remains, and trailing zeros are then dropped. So
    /// that division is exact. Its other rounding, and when it overflows,
    /// are not stated.
    #[verifier::external_body]
    pub(crate) fn checked_div(self, other: Decimal) -> (r: Option<Decimal>)
        ensures
            r is Some <==> decimal_checked_div(self@, other@) is Some,
            r matches Some(d) ==> decimal_checked_div(self@, other@) == Some(d@),
            r matches Some(d) ==> decimal_scale(d@) <= 28,
            divides_by_wei(self@, other@) ==> r is Some,
            r matches Some(d) ==> (divides_by_wei(self@, other@) ==> decimal_stands_for(
                d@,
                decimal_mantissa(self@),
                18,
            ) && decimal_negative(d@) == (decimal_mantissa(self@) < 0)),
    {
        match rust_decimal::Decimal::deserialize(self.bytes).checked_div(rust_decimal::Decimal::deserialize(other.bytes)) {
            Some(d) => Some(Decimal { bytes: d.serialize() }),
            None => None,
        }
    }

    /// The difference, `None` on overflow (`rust_decimal::Decimal::checked_sub`).
    ///
    /// Trusted: the result is what the outside call gives; its rounding is not stated.
    #[verifier::external_body]
    pub(crate) fn checked_sub(self, other: Decimal) -> (r: Option<Decimal>)
        ensures
            r is Some <==> decimal_checked_sub(self@, other@) is Some,
            r matches Some(d) ==> decimal_checked_sub(self@, other@) == Some(d@),
            r matches Some(d) ==> decimal_scale(d@) <= 28,
    {
        match rust_decimal::Decimal::deserialize(self.bytes).checked_sub(rust_decimal::Decimal::deserialize(other.bytes)) {
            Some(d) => Some(Decimal { bytes: d.serialize() }),
            None => None,
        }
    }

    /// Truncates towards zero to a whole number (`rust_decimal::Decimal::trunc`).
    ///
    /// Trusted: the mantissa loses its last `scale` digits, the scale becomes
    /// 0 and the sign bit is kept, as the outside source does it.
    #[verifier::external_body]
    pub(crate) fn trunc(&self) -> (r: Decimal)
        ensures
            r@ == decimal_trunc(self@),
            decimal_magnitude(r@) == decimal_magnitude(self@) / (pow(10, decimal_scale(self@)) as nat),
            decimal_scale(r@) == 0,
            decimal_negative(r@) == decimal_negative(self@),
    {
        Decimal { bytes: rust_decimal::Decimal::deserialize(self.bytes).trunc().serialize() }
    }

    /// The fractional part, `self - self.trunc()` (`rust_decimal::Decimal::fract`).
    ///
    /// Trusted: the result stands for exactly the fractional part of the
    /// number (the subtraction cannot round, both sides having this scale).
    #[verifier::external_body]
    pub(crate) fn fract(&self) -> (r: Decimal)
        ensures
            r@ == decimal_fract(self@),
            decimal_scale(r@) <= 28,
            decimal_stands_for(
                r@,
                rem_toward_zero(decimal_mantissa(self@), pow(10, decimal_scale(self@))),
                decimal_scale(self@),
            ),
    {
        Decimal { bytes: rust_decimal::Decimal::deserialize(self.bytes).fract().serialize() }
    }

    /// The whole part as a `u128`, `None` for a set sign bit
    /// (`<rust_decimal::Decimal as ToPrimitive>::to_u128`).
    ///
    /// Trusted: as the outside source computes it, the truncated mantissa,
    /// which always fits.
    #[verifier::external_body]
    pub(crate) fn to_u128(&self) -> (r: Option<u128>)
        ensures
            r is None <==> decimal_negative(self@),
            r matches Some(n) ==> n as nat == decimal_magnitude(self@) / (pow(
                10,
                decimal_scale(self@),
            ) as nat),
    {
        rust_decimal::prelude::ToPrimitive::to_u128(&rust_decimal::Decimal::deserialize(self.bytes))
    }
}

} // verus!
