//! A 256-bit unsigned integer held as plain words, with its arithmetic done by
//! `sp_core::U256`.

use vstd::prelude::*;

verus! {

/// 2^64.
pub open spec fn word_base() -> nat {
    18446744073709551616nat
}

/// 2^128, one more than the largest `u128`.
pub open spec fn pow2_128() -> nat {
    340282366920938463463374607431768211456nat
}

/// 2^192.
pub open spec fn pow2_192() -> nat {
    6277101735386680763835789423207666416102355444464034512896nat
}

/// The largest value a 256-bit unsigned integer holds: 2^256 - 1.
pub open spec fn u256_max() -> nat {
    115792089237316195423570985008687907853269984665640564039457584007913129639935nat
}

/// The number that four little-endian 64-bit words stand for.
pub open spec fn words_value(w: [u64; 4]) -> nat {
    w[0] as nat + w[1] as nat * word_base() + w[2] as nat * pow2_128() + w[3] as nat * pow2_192()
}

/// `n`, or the largest 256-bit value where `n` exceeds it.
pub open spec fn saturated(n: nat) -> nat {
    if n > u256_max() {
        u256_max()
    } else {
        n
    }
}

/// A 256-bit unsigned integer: four 64-bit words, least significant first,
/// the layout of `sp_core::U256`.
#[derive(Clone, Copy)]
pub struct U256(pub [u64; 4]);

impl View for U256 {
    type V = nat;

    open spec fn view(&self) -> nat {
        words_value(self.0)
    }
}

/// Every value of four words lies in `0 ..= 2^256 - 1`.
pub proof fn lemma_u256_bounded(x: U256)
    ensures
        x@ <= u256_max(),
{
    let w = x.0;
    assert(w[0] as nat <= 18446744073709551615);
    assert(w[1] as nat * word_base() <= 18446744073709551615nat * word_base()) by (nonlinear_arith)
        requires
            w[1] as nat <= 18446744073709551615nat,
    ;
    assert(w[2] as nat * pow2_128() <= 18446744073709551615nat * pow2_128()) by (nonlinear_arith)
        requires
            w[2] as nat <= 18446744073709551615nat,
    ;
    assert(w[3] as nat * pow2_192() <= 18446744073709551615nat * pow2_192()) by (nonlinear_arith)
        requires
            w[3] as nat <= 18446744073709551615nat,
    ;
}

impl U256 {
    /// Zero.
    pub fn zero() -> (r: U256)
        ensures
            r@ == 0,
    {
        U256([0, 0, 0, 0])
    }

    /// One.
    pub fn one() -> (r: U256)
        ensures
            r@ == 1,
    {
        U256([1, 0, 0, 0])
    }

    /// `sp_core::U256::from(u128)`: the 256-bit number equal to `value`.
    #[verifier::external_body]
    pub(crate) fn from_u128(value: u128) -> (r: U256)
        ensures
            r@ == value,
    {
        U256(sp_core::U256::from(value).0)
    }

    /// `sp_core::U256::from(u32)`: the 256-bit number equal to `value`.
    #[verifier::external_body]
    pub(crate) fn from_u32(value: u32) -> (r: U256)
        ensures
            r@ == value,
    {
        U256(sp_core::U256::from(value).0)
    }

    /// `sp_core::U256::is_zero`: whether every word is zero, that is whether
    /// the number is zero.
    #[verifier::external_body]
    pub(crate) fn is_zero(&self) -> (r: bool)
        ensures
            r == (self@ == 0),
    {
        sp_core::U256(self.0).is_zero()
    }

    /// `sp_core::U256::div_mod`: the quotient and the remainder of `self` by
    /// `other`. It panics on a zero divisor, which `requires` leaves out.
    #[verifier::external_body]
    pub(crate) fn div_mod(&self, other: &U256) -> (r: (U256, U256))
        requires
            other@ != 0,
        ensures
            r.0@ == self@ / other@,
            r.1@ == self@ % other@,
    {
        let (q, m) = sp_core::U256(self.0).div_mod(sp_core::U256(other.0));
        (U256(q.0), U256(m.0))
    }

    /// `sp_core::U256::saturating_add`: the sum, or `U256::MAX` (all words
    /// set) where it overflows.
    #[verifier::external_body]
    pub(crate) fn saturating_add(&self, other: &U256) -> (r: U256)
        ensures
            r@ == saturated(self@ + other@),
    {
        U256(sp_core::U256(self.0).saturating_add(sp_core::U256(other.0)).0)
    }

    /// `sp_core::U256::saturating_mul`: the product, or `U256::MAX` (all words
    /// set) where it overflows.
    #[verifier::external_body]
    pub(crate) fn saturating_mul(&self, other: &U256) -> (r: U256)
        ensures
            r@ == saturated(self@ * other@),
    {
        U256(sp_core::U256(self.0).saturating_mul(sp_core::U256(other.0)).0)
    }

    /// `<u128 as TryFrom<sp_core::U256>>::try_from`: the number as a `u128`
    /// where its two high words are zero, that is where it is below 2^128;
    /// `None` where the source returns its overflow error.
    #[verifier::external_body]
    pub(crate) fn try_into_u128(&self) -> (r: Option<u128>)
        ensures
            r is Some <==> self@ < pow2_128(),
            r matches Some(v) ==> v == self@,
    {
        u128::try_from(sp_core::U256(self.0)).ok()
    }
}

} // verus!
