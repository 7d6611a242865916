//! Unsigned 256-bit integers, as fixed-point token amounts are written.
use crate::text::decimal_digits;
use vstd::prelude::*;

verus! {

/// `2^64`.
pub open spec fn limb_base() -> nat {
    0x1_0000_0000_0000_0000
}

/// The number held by four little-endian 64-bit limbs.
pub open spec fn limbs_value(l: Seq<u64>) -> nat {
    l[0] as nat + limb_base() * (l[1] as nat + limb_base() * (l[2] as nat + limb_base() * l[3] as nat))
}

/// An unsigned 256-bit integer, held as four 64-bit limbs, least significant first.
#[derive(Clone, Copy, Debug, PartialEq, Eq, Structural)]
pub struct U256 {
    pub(crate) l0: u64,
    pub(crate) l1: u64,
    pub(crate) l2: u64,
    pub(crate) l3: u64,
}

impl View for U256 {
    type V = nat;

    closed spec fn view(&self) -> nat {
        limbs_value(seq![self.l0, self.l1, self.l2, self.l3])
    }
}

impl U256 {
    /// A 256-bit integer is below `10^78`, so it is spelled with at most 78 digits.
    pub proof fn lemma_at_most_78_digits(self)
        ensures
            self@ < vstd::arithmetic::power::pow(10, 78),
            decimal_digits(self@).len() <= 78,
    {
        assert(self@ <= 0xffff_ffff_ffff_ffff_ffff_ffff_ffff_ffff_ffff_ffff_ffff_ffff_ffff_ffff_ffff_ffff);
        reveal_with_fuel(vstd::arithmetic::power::pow, 79);
        assert(vstd::arithmetic::power::pow(10, 78) > 0xffff_ffff_ffff_ffff_ffff_ffff_ffff_ffff_ffff_ffff_ffff_ffff_ffff_ffff_ffff_ffff);
        crate::text::lemma_decimal_digits_len(self@, 78);
    }

    /// Zero.
    pub fn zero() -> (r: U256)
        ensures
            r@ == 0,
    {
        U256 { l0: 0, l1: 0, l2: 0, l3: 0 }
    }

    /// The integer with the given limbs, least significant first.
    pub fn from_limbs(limbs: [u64; 4]) -> (r: U256)
        ensures
            r@ == limbs_value(limbs@),
    {
        U256 { l0: limbs[0], l1: limbs[1], l2: limbs[2], l3: limbs[3] }
    }

    /// The limbs of this integer, least significant first.
    pub fn into_limbs(self) -> (r: [u64; 4])
        ensures
            limbs_value(r@) == self@,
    {
        let r = [self.l0, self.l1, self.l2, self.l3];
        assert(r@ =~= seq![self.l0, self.l1, self.l2, self.l3]);
        r
    }

    /// The integer `value`.
    pub fn from_u128(value: u128) -> (r: U256)
        ensures
            r@ == value,
    {
        let lo = (value % 0x1_0000_0000_0000_0000) as u64;
        let hi = (value / 0x1_0000_0000_0000_0000) as u64;
        U256 { l0: lo, l1: hi, l2: 0, l3: 0 }
    }

    /// The base-ten spelling of this integer (`alloy_primitives::U256`'s `Display`).
    ///
    /// Trusted: the text is the shortest base-ten spelling of the number.
    #[verifier::external_body]
    pub(crate) fn to_string(&self) -> (r: String)
        ensures
            r@ == decimal_digits(self@),
    {
        alloy_primitives::U256::from_limbs([self.l0, self.l1, self.l2, self.l3]).to_string()
    }

    /// Whether this integer is zero.
    pub fn is_zero(&self) -> (r: bool)
        ensures
            r == (self@ == 0),
    {
        self.l0 == 0 && self.l1 == 0 && self.l2 == 0 && self.l3 == 0
    }
}

} // verus!
