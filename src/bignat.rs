//! Arbitrary-precision natural numbers, held as base 2^32 digits and
//! computed on by `num_bigint::BigUint`.
//!
//! Each operation below builds its operands with `BigUint::new`, which reads
//! base 2^32 digits least significant first, and hands back the result's
//! `BigUint::to_u32_digits`, in the same order: the digits carry the value
//! across unchanged.

use num_bigint::{BigUint, RandBigInt};
use vstd::prelude::*;

verus! {

/// The value of a little-endian sequence of base 2^32 digits.
pub open spec fn digits_value(d: Seq<u32>) -> nat
    decreases d.len(),
{
    if d.len() == 0 {
        0
    } else {
        d[0] as nat + 0x1_0000_0000 * digits_value(d.subrange(1, d.len() as int))
    }
}

/// A natural number of any size; least significant digit first, trailing
/// zero digits allowed.
pub struct BigNat {
    pub digits: Vec<u32>,
}

impl View for BigNat {
    type V = nat;

    open spec fn view(&self) -> nat {
        digits_value(self.digits@)
    }
}

impl BigNat {
    /// The number whose base 2^32 digits, least significant first, are `digits`.
    pub fn from_digits(digits: Vec<u32>) -> (r: BigNat)
        ensures
            r@ == digits_value(digits@),
    {
        BigNat { digits }
    }

    /// The number zero.
    pub fn zero() -> (r: BigNat)
        ensures
            r@ == 0,
    {
        BigNat { digits: Vec::new() }
    }

    /// The number `v`.
    pub fn from_u32(v: u32) -> (r: BigNat)
        ensures
            r@ == v as nat,
    {
        let digits: Vec<u32> = vec![v];
        proof {
            assert(digits@.subrange(1, 1).len() == 0);
            assert(digits_value(digits@.subrange(1, 1)) == 0);
        }
        BigNat { digits }
    }

    /// A copy of this number.
    pub fn copy(&self) -> (r: BigNat)
        ensures
            r@ == self@,
    {
        BigNat { digits: self.digits.clone() }
    }
}

/// Relies on `From<u64> for BigUint`: the same value.
#[verifier::external_body]
pub(crate) fn big_from_u64(v: u64) -> (r: BigNat)
    ensures
        r@ == v as nat,
{
    BigNat { digits: BigUint::from(v).to_u32_digits() }
}

/// Relies on `Add for &BigUint`: the exact sum.
#[verifier::external_body]
pub(crate) fn big_add(a: &BigNat, b: &BigNat) -> (r: BigNat)
    ensures
        r@ == a@ + b@,
{
    BigNat { digits: (BigUint::new(a.digits.clone()) + BigUint::new(b.digits.clone())).to_u32_digits() }
}

/// Relies on `Sub for &BigUint`: the exact difference; it panics when `b > a`.
#[verifier::external_body]
pub(crate) fn big_sub(a: &BigNat, b: &BigNat) -> (r: BigNat)
    requires
        b@ <= a@,
    ensures
        r@ == a@ - b@,
{
    BigNat { digits: (BigUint::new(a.digits.clone()) - BigUint::new(b.digits.clone())).to_u32_digits() }
}

/// Relies on `Mul for &BigUint`: the exact product.
#[verifier::external_body]
pub(crate) fn big_mul(a: &BigNat, b: &BigNat) -> (r: BigNat)
    ensures
        r@ == a@ * b@,
{
    BigNat { digits: (BigUint::new(a.digits.clone()) * BigUint::new(b.digits.clone())).to_u32_digits() }
}

/// Relies on `Div for &BigUint`: the floor quotient; it panics on a zero divisor.
#[verifier::external_body]
pub(crate) fn big_div(a: &BigNat, b: &BigNat) -> (r: BigNat)
    requires
        b@ > 0,
    ensures
        r@ == a@ / b@,
{
    BigNat { digits: (BigUint::new(a.digits.clone()) / BigUint::new(b.digits.clone())).to_u32_digits() }
}

/// Relies on `Rem for &BigUint`: the remainder; it panics on a zero divisor.
#[verifier::external_body]
pub(crate) fn big_rem(a: &BigNat, b: &BigNat) -> (r: BigNat)
    requires
        b@ > 0,
    ensures
        r@ == a@ % b@,
{
    BigNat { digits: (BigUint::new(a.digits.clone()) % BigUint::new(b.digits.clone())).to_u32_digits() }
}

/// Relies on `Shr<usize> for &BigUint`: division by `2^k`, rounding down.
#[verifier::external_body]
pub(crate) fn big_shr(a: &BigNat, k: usize) -> (r: BigNat)
    ensures
        r@ == a@ / vstd::arithmetic::power2::pow2(k as nat),
{
    BigNat { digits: (BigUint::new(a.digits.clone()) >> k).to_u32_digits() }
}

/// Relies on `BigUint::pow`: `a` raised to `e`.
#[verifier::external_body]
pub(crate) fn big_pow(a: &BigNat, e: u32) -> (r: BigNat)
    ensures
        r@ == vstd::arithmetic::power::pow(a@ as int, e as nat),
{
    BigNat { digits: BigUint::new(a.digits.clone()).pow(e).to_u32_digits() }
}

/// Relies on `PartialEq for BigUint`: equality of values.
#[verifier::external_body]
pub(crate) fn big_eq(a: &BigNat, b: &BigNat) -> (r: bool)
    ensures
        r == (a@ == b@),
{
    BigUint::new(a.digits.clone()) == BigUint::new(b.digits.clone())
}

/// Relies on `BigUint::to_u64_digits`: its first digit is the value modulo
/// 2^64; a zero value has no digits.
#[verifier::external_body]
pub(crate) fn big_low_u64(a: &BigNat) -> (r: u64)
    requires
        a@ > 0,
    ensures
        r as nat == a@ % 0x1_0000_0000_0000_0000,
{
    BigUint::new(a.digits.clone()).to_u64_digits()[0]
}

/// Relies on `RandBigInt::gen_biguint_range` on `rand::thread_rng()`: a value
/// in `[lo, hi)`; it panics unless `lo < hi`.
#[verifier::external_body]
pub(crate) fn random_in_range(lo: &BigNat, hi: &BigNat) -> (r: BigNat)
    requires
        lo@ < hi@,
    ensures
        lo@ <= r@ < hi@,
{
    let lo = BigUint::new(lo.digits.clone());
    let hi = BigUint::new(hi.digits.clone());
    BigNat { digits: rand::thread_rng().gen_biguint_range(&lo, &hi).to_u32_digits() }
}

} // verus!
