//! Modular exponentiation by repeated squaring.

use crate::bignat::{big_eq, big_mul, big_rem, big_shr, BigNat};
use vstd::arithmetic::div_mod::{lemma_mul_mod_noop_left, lemma_mul_mod_noop_right, lemma_small_mod};
use vstd::arithmetic::power::{lemma_pow0, lemma_pow1, lemma_pow_adds, lemma_pow_mod_noop, lemma_pow_multiplies, lemma_square_is_pow2, pow};
use vstd::arithmetic::power2::lemma2_to64;
use vstd::prelude::*;

verus! {

/// `b^e mod m`, the value that `mod_exp` computes.
pub open spec fn mod_pow(b: nat, e: nat, m: nat) -> nat
    recommends
        m > 0,
{
    (pow(b as int, e) % (m as int)) as nat
}

/// Any base raised to zero is 1 modulo every `m > 1`.
pub proof fn lemma_mod_pow_zero_exponent(b: nat, m: nat)
    requires
        m > 1,
    ensures
        mod_pow(b, 0, m) == 1,
{
    lemma_pow0(b as int);
    lemma_small_mod(1, m);
}

proof fn lemma_pow_halve(b: int, e: nat)
    ensures
        pow(b, e) == pow(b * b, e / 2) * (if e % 2 == 1 { b } else { 1 }),
{
    lemma_square_is_pow2(b);
    lemma_pow_multiplies(b, 2, e / 2);
    lemma_pow_adds(b, 2 * (e / 2), e % 2);
    lemma_pow0(b);
    lemma_pow1(b);
    assert(e == 2 * (e / 2) + e % 2);
}

proof fn lemma_mul_pow_mod(x: int, b: int, k: nat, m: int)
    requires
        m > 0,
    ensures
        x * pow(b % m, k) % m == x * pow(b, k) % m,
{
    lemma_mul_mod_noop_right(x, pow(b % m, k), m);
    lemma_pow_mod_noop(b, k, m);
    lemma_mul_mod_noop_right(x, pow(b, k), m);
}

/// One round of square-and-multiply keeps `r * b^e mod m` unchanged.
proof fn lemma_square_multiply_step(r: int, b: int, e: nat, m: int)
    requires
        m > 0,
    ensures
        e % 2 == 1 ==> (r * b % m) * pow(b * b % m, e / 2) % m == r * pow(b, e) % m,
        e % 2 != 1 ==> r * pow(b * b % m, e / 2) % m == r * pow(b, e) % m,
{
    let k = e / 2;
    let p = pow(b * b, k);
    lemma_pow_halve(b, e);
    if e % 2 == 1 {
        lemma_mul_pow_mod(r * b % m, b * b, k, m);
        lemma_mul_mod_noop_left(r * b, p, m);
        assert((r * b) * p == r * (p * b)) by (nonlinear_arith);
    } else {
        lemma_mul_pow_mod(r, b * b, k, m);
    }
}

/// `base^exponent mod modulus`, by binary exponentiation: the base is reduced
/// once, then squared while the exponent is shifted right, and multiplied into
/// the accumulator for each set bit.
pub fn mod_exp(base: BigNat, exponent: BigNat, modulus: BigNat) -> (r: BigNat)
    requires
        modulus@ > 0,
    ensures
        r@ == mod_pow(base@, exponent@, modulus@),
        r@ < modulus@,
{
    let ghost b0 = base@ as int;
    let ghost e0 = exponent@;
    let ghost m = modulus@ as int;
    let zero = BigNat::zero();
    let one = BigNat::from_u32(1);
    let two = BigNat::from_u32(2);
    let mut result = big_rem(&one, &modulus);
    let mut base = big_rem(&base, &modulus);
    let mut exponent = exponent;
    proof {
        lemma_mul_mod_noop_left(1, pow(b0 % m, e0), m);
        lemma_pow_mod_noop(b0, e0, m);
        assert(1 * pow(b0 % m, e0) == pow(b0 % m, e0));
        lemma2_to64();
    }
    while !big_eq(&exponent, &zero)
        invariant
            m == modulus@,
            m > 0,
            zero@ == 0,
            one@ == 1,
            two@ == 2,
            result@ < m,
            base@ < m,
            (result@ * pow(base@ as int, exponent@)) % m == pow(b0, e0) % m,
        decreases exponent@,
    {
        let ghost r_old = result@ as int;
        let ghost b_old = base@ as int;
        let ghost e_old = exponent@;
        if big_eq(&big_rem(&exponent, &two), &one) {
            let product = big_mul(&result, &base);
            result = big_rem(&product, &modulus);
        }
        let square = big_mul(&base, &base);
        base = big_rem(&square, &modulus);
        exponent = big_shr(&exponent, 1);
        proof {
            lemma2_to64();
            lemma_square_multiply_step(r_old, b_old, e_old, m);
        }
    }
    proof {
        lemma_pow0(base@ as int);
        lemma_small_mod(result@, m as nat);
    }
    result
}

} // verus!
