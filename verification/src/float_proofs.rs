//! Facts about packed values and their numbers: the coefficient and exponent
//! always fit their ranges, and how truncating, subtracting and rescaling
//! act on `c * 10^e`.
use crate::float::{
    be_int, be_nat, coefficient_at, float_coefficient, float_exponent, fits_coefficient,
    fits_exponent, fraction_coefficient, half_range, lemma_coefficient_at_distributes,
    lemma_coefficient_at_lower, lemma_same_value_at, lemma_same_value_from, min_exponent,
    quot_toward_zero, rem_toward_zero, same_value, truncated_scaled,
};
use vstd::arithmetic::power::pow;
use vstd::prelude::*;

verus! {

/// A big-endian number is below `256^len`.
proof fn lemma_be_nat_bound(s: Seq<u8>)
    ensures
        be_nat(s) < pow(256, s.len()),
    decreases s.len(),
{
    reveal(pow);
    if s.len() == 0 {
        vstd::arithmetic::power::lemma_pow0(256);
    } else {
        lemma_be_nat_bound(s.drop_last());
        let p = pow(256, (s.len() - 1) as nat);
        assert(pow(256, s.len()) == 256 * p);
        let r = be_nat(s.drop_last());
        let l = s.last() as int;
        assert(r * 256 + l < 256 * p) by (nonlinear_arith)
            requires
                r < p,
                0 <= l < 256,
        ;
    }
}

/// A big-endian number is its leading byte's weight plus the rest.
proof fn lemma_be_nat_leading(s: Seq<u8>)
    requires
        s.len() >= 1,
    ensures
        be_nat(s) == s[0] * pow(256, (s.len() - 1) as nat) + be_nat(s.drop_first()),
    decreases s.len(),
{
    reveal(pow);
    if s.len() == 1 {
        vstd::arithmetic::power::lemma_pow0(256);
        assert(s.drop_last() =~= Seq::<u8>::empty());
        assert(s.drop_first() =~= Seq::<u8>::empty());
    } else {
        let dl = s.drop_last();
        lemma_be_nat_leading(dl);
        assert(dl.drop_first() =~= s.drop_first().drop_last());
        assert(s.drop_first().last() == s.last());
        let p = pow(256, (s.len() - 2) as nat);
        assert(pow(256, (s.len() - 1) as nat) == 256 * p);
        let x = s[0] as int;
        let y = be_nat(dl.drop_first()) as int;
        assert((x * p + y) * 256 == x * (256 * p) + y * 256) by (nonlinear_arith);
    }
}

/// A two's-complement number of `len` bytes lies in `[-2^(8len-1), 2^(8len-1))`.
proof fn lemma_be_int_range(s: Seq<u8>)
    requires
        s.len() >= 1,
    ensures
        -half_range(s.len()) <= be_int(s) < half_range(s.len()),
{
    reveal(pow);
    lemma_be_nat_leading(s);
    lemma_be_nat_bound(s.drop_first());
    let p = pow(256, (s.len() - 1) as nat);
    assert(pow(256, s.len()) == 256 * p);
    let x = s[0] as int;
    let r = be_nat(s.drop_first()) as int;
    if x >= 128 {
        assert(-128 * p <= x * p + r - 256 * p < 128 * p) by (nonlinear_arith)
            requires
                128 <= x < 256,
                0 <= r < p,
        ;
    } else {
        assert(-128 * p <= x * p + r < 128 * p) by (nonlinear_arith)
            requires
                0 <= x < 128,
                0 <= r < p,
        ;
    }
}

/// The coefficient and exponent of any packed value are within their ranges.
pub proof fn lemma_fields_fit(raw: Seq<u8>)
    requires
        raw.len() == 32,
    ensures
        fits_coefficient(float_coefficient(raw)),
        fits_exponent(float_exponent(raw)),
{
    lemma_be_int_range(raw.subrange(4, 32));
    lemma_be_int_range(raw.subrange(0, 4));
    reveal_with_fuel(pow, 4);
    assert(half_range(4) == 0x8000_0000);
}

/// `c` is its quotient by `m` times `m` plus its remainder, both towards zero;
/// neither is larger in size than `c`, and both keep its sign.
pub proof fn lemma_quot_rem_toward_zero(c: int, m: int)
    requires
        m > 0,
    ensures
        c == quot_toward_zero(c, m) * m + rem_toward_zero(c, m),
        c >= 0 ==> 0 <= quot_toward_zero(c, m) <= c && 0 <= rem_toward_zero(c, m) <= c,
        c < 0 ==> c <= quot_toward_zero(c, m) <= 0 && c <= rem_toward_zero(c, m) <= 0,
        c >= 0 ==> 0 <= c - rem_toward_zero(c, m) <= c,
        c < 0 ==> c <= c - rem_toward_zero(c, m) <= 0,
{
    let a = if c >= 0 {
        c
    } else {
        -c
    };
    vstd::arithmetic::div_mod::lemma_fundamental_div_mod(a, m);
    vstd::arithmetic::div_mod::lemma_div_pos_is_pos(a, m);
    vstd::arithmetic::div_mod::lemma_mod_pos_bound(a, m);
    vstd::arithmetic::div_mod::lemma_div_is_ordered_by_denominator(a, 1, m);
    vstd::arithmetic::div_mod::lemma_div_basics(a);
    vstd::arithmetic::mul::lemma_mul_is_commutative(m, a / m);
    assert(a % m <= a) by (nonlinear_arith)
        requires
            a == m * (a / m) + a % m,
            a / m >= 0,
            m > 0,
            a % m >= 0,
    ;
    if c < 0 {
        assert((-(a / m)) * m == -((a / m) * m)) by (nonlinear_arith);
    }
}

/// A coefficient whose size is at most that of one that fits, with the same
/// sign, fits too.
pub proof fn lemma_fits_smaller(c: int, d: int)
    requires
        fits_coefficient(c),
        (c >= 0 && 0 <= d <= c) || (c < 0 && c <= d <= 0),
    ensures
        fits_coefficient(d),
{
}

/// Moving `c * 10^e` to a lower exponent `b` and truncating by `10^-b`
/// gives the same whole number as truncating `c * 10^e` directly.
proof fn lemma_truncated_scaled_at(c: int, e: int, b: int)
    requires
        b <= e,
        b <= 0,
    ensures
        truncated_scaled(c, e) == quot_toward_zero(coefficient_at(c, e, b), pow(10, (-b) as nat)),
{
    let q = pow(10, (-b) as nat);
    vstd::arithmetic::power::lemma_pow_positive(10, (-b) as nat);
    if e >= 0 {
        let p = pow(10, e as nat);
        vstd::arithmetic::power::lemma_pow_adds(10, e as nat, (-b) as nat);
        assert((e - b) as nat == e as nat + (-b) as nat);
        vstd::arithmetic::mul::lemma_mul_is_associative(c, p, q);
        let n = c * p;
        if n >= 0 {
            vstd::arithmetic::div_mod::lemma_div_by_multiple(n, q);
        } else {
            assert(-(n * q) == (-n) * q) by (nonlinear_arith);
            vstd::arithmetic::div_mod::lemma_div_by_multiple(-n, q);
        }
    } else {
        let k = pow(10, (-e) as nat);
        let p = pow(10, (e - b) as nat);
        vstd::arithmetic::power::lemma_pow_positive(10, (-e) as nat);
        vstd::arithmetic::power::lemma_pow_positive(10, (e - b) as nat);
        vstd::arithmetic::power::lemma_pow_adds(10, (e - b) as nat, (-e) as nat);
        assert((-b) as nat == (e - b) as nat + (-e) as nat);
        assert(q == p * k);
        let a = if c >= 0 {
            c
        } else {
            -c
        };
        vstd::arithmetic::div_mod::lemma_div_by_multiple(a, p);
        vstd::arithmetic::mul::lemma_mul_nonnegative(a, p);
        vstd::arithmetic::div_mod::lemma_div_denominator(a * p, p, k);
        if c < 0 {
            assert(-(c * p) == a * p) by (nonlinear_arith)
                requires
                    a == -c,
            ;
        }
    }
}

/// Two representations of one number have the same whole part.
pub proof fn lemma_truncated_scaled_agrees(c1: int, e1: int, c2: int, e2: int)
    requires
        same_value(c1, e1, c2, e2),
    ensures
        truncated_scaled(c1, e1) == truncated_scaled(c2, e2),
{
    let b = min_exponent(min_exponent(e1, e2), 0);
    lemma_same_value_at(c1, e1, c2, e2, b);
    lemma_truncated_scaled_at(c1, e1, b);
    lemma_truncated_scaled_at(c2, e2, b);
}

/// A number minus its fractional part is its whole part.
pub proof fn lemma_whole_part(c: int, e: int)
    ensures
        same_value(c - fraction_coefficient(c, e), e, truncated_scaled(c, e), 0),
{
    vstd::arithmetic::power::lemma_pow0(10);
    if e >= 0 {
        lemma_same_value_from(c, e, c * pow(10, e as nat), 0, 0);
    } else {
        let q = pow(10, (-e) as nat);
        vstd::arithmetic::power::lemma_pow_positive(10, (-e) as nat);
        lemma_quot_rem_toward_zero(c, q);
        let t = quot_toward_zero(c, q);
        assert(coefficient_at(t, 0, e) == t * q);
        assert(coefficient_at(c - fraction_coefficient(c, e), e, e) == c - rem_toward_zero(c, q));
        lemma_same_value_from(c - fraction_coefficient(c, e), e, t, 0, e);
    }
}

/// Scaling by a number that equals `10^d` adds `d` to the exponent.
pub proof fn lemma_scaled_product(c: int, e: int, cs: int, es: int, d: int)
    requires
        same_value(cs, es, 1, d),
    ensures
        same_value(c * cs, e + es, c, e + d),
{
    let mb = min_exponent(es, d);
    let b = min_exponent(e + es, e + d);
    assert(b == e + mb);
    let p = pow(10, (es - mb) as nat);
    let q = pow(10, (d - mb) as nat);
    assert(cs * p == 1 * q);
    vstd::arithmetic::mul::lemma_mul_is_associative(c, cs, p);
    assert(coefficient_at(c * cs, e + es, b) == (c * cs) * p);
    assert(coefficient_at(c, e + d, b) == c * q);
    assert(c * (cs * p) == c * q);
}

/// The difference `a - b`, written at the smaller exponent of `a` and `b`,
/// is the same number as `a - b2` when `b` and `b2` are the same number.
pub proof fn lemma_difference_by_value(ca: int, ea: int, cb: int, eb: int, c2: int, e2: int)
    requires
        same_value(cb, eb, c2, e2),
    ensures
        same_value(
            coefficient_at(ca, ea, min_exponent(ea, eb)) - coefficient_at(cb, eb, min_exponent(ea, eb)),
            min_exponent(ea, eb),
            coefficient_at(ca, ea, min_exponent(min_exponent(ea, eb), e2)) - coefficient_at(
                c2,
                e2,
                min_exponent(min_exponent(ea, eb), e2),
            ),
            min_exponent(min_exponent(ea, eb), e2),
        ),
{
    let m = min_exponent(ea, eb);
    let b = min_exponent(m, e2);
    lemma_coefficient_at_distributes(coefficient_at(ca, ea, m), coefficient_at(cb, eb, m), m, b);
    lemma_coefficient_at_lower(ca, ea, m, b);
    lemma_coefficient_at_lower(cb, eb, m, b);
    lemma_same_value_at(cb, eb, c2, e2, b);
    vstd::arithmetic::power::lemma_pow0(10);
    let x = coefficient_at(ca, ea, b) - coefficient_at(c2, e2, b);
    assert(coefficient_at(x, b, b) == x);
    lemma_same_value_from(
        coefficient_at(ca, ea, m) - coefficient_at(cb, eb, m),
        m,
        x,
        b,
        b,
    );
}

} // verus!
