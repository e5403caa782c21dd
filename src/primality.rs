//! Random odd candidates and the Solovay–Strassen probable-prime test.

use crate::bignat::{
    big_add, big_eq, big_from_u64, big_low_u64, big_pow, big_rem, big_shr, big_sub, random_in_range,
    BigNat,
};
use crate::jacobi::{jacobi, jacobi_symbol};
use crate::modexp::{mod_exp, mod_pow};
use vstd::arithmetic::power2::{lemma2_to64, lemma_pow2, lemma_pow2_pos, lemma_pow2_unfold, pow2};
use vstd::prelude::*;

verus! {

/// The sample made odd: an even one is moved up by one.
pub fn make_odd(sample: BigNat) -> (r: BigNat)
    ensures
        r@ == if sample@ % 2 == 0 {
            sample@ + 1
        } else {
            sample@
        },
{
    let zero = BigNat::zero();
    let one = BigNat::from_u32(1);
    let two = BigNat::from_u32(2);
    if big_eq(&big_rem(&sample, &two), &zero) {
        big_add(&sample, &one)
    } else {
        sample
    }
}

/// A random odd number of exactly `bits` bits: a sample drawn from
/// `[2^(bits-1), 2^bits)`, made odd.
pub fn generate_odd_random_number(bits: u32) -> (r: BigNat)
    requires
        bits >= 1,
    ensures
        pow2((bits - 1) as nat) <= r@ < pow2(bits as nat),
        r@ % 2 == 1,
{
    let two = BigNat::from_u32(2);
    let lo = big_pow(&two, bits - 1);
    let hi = big_pow(&two, bits);
    proof {
        lemma_pow2((bits - 1) as nat);
        lemma_pow2(bits as nat);
        lemma_pow2_unfold(bits as nat);
        lemma_pow2_pos((bits - 1) as nat);
    }
    let sample = random_in_range(&lo, &hi);
    make_odd(sample)
}

/// The low 64-bit word of `n`: witnesses are drawn from `[2, witness_bound(n))`.
pub open spec fn witness_bound(n: nat) -> nat {
    n % 0x1_0000_0000_0000_0000
}

/// `n` is one the test can take: 2 or 3, or odd with at least one witness
/// below its low 64-bit word.
pub open spec fn testable(n: nat) -> bool {
    n == 2 || n == 3 || (n % 2 == 1 && witness_bound(n) > 2)
}

/// The Euler criterion for witness `a` against odd `n`: the Jacobi symbol
/// `(a/n)` is nonzero and `a^((n-1)/2) mod n` equals it, with -1 read as `n - 1`.
pub open spec fn euler_passes(a: nat, n: nat) -> bool {
    let x = jacobi(a, n);
    x != 0 && mod_pow(a, ((n - 1) as nat) / 2, n) == (if x == -1 {
        (n - 1) as nat
    } else {
        1nat
    })
}

/// Whether `n` may be passed to `solovay_strassen`.
pub fn is_testable(n: &BigNat) -> (r: bool)
    ensures
        r == testable(n@),
{
    let one = BigNat::from_u32(1);
    let two = BigNat::from_u32(2);
    let three = BigNat::from_u32(3);
    if big_eq(n, &two) || big_eq(n, &three) {
        return true;
    }
    if !big_eq(&big_rem(n, &two), &one) {
        return false;
    }
    big_low_u64(n) > 2
}

/// Whether witness `a` leaves odd `n` standing: the Jacobi symbol of `a` over
/// `n` is nonzero and agrees with `a^((n-1)/2) mod n`.
pub fn witness_passes(a: &BigNat, n: &BigNat) -> (r: bool)
    requires
        n@ % 2 == 1,
    ensures
        r == euler_passes(a@, n@),
{
    let one = BigNat::from_u32(1);
    let x = jacobi_symbol(a.copy(), n.copy());
    if x == 0 {
        return false;
    }
    let n_minus_one = big_sub(n, &one);
    let expected = if x == -1 {
        n_minus_one.copy()
    } else {
        one.copy()
    };
    let half = big_shr(&n_minus_one, 1);
    proof {
        lemma2_to64();
    }
    let actual = mod_exp(a.copy(), half, n.copy());
    big_eq(&actual, &expected)
}

/// The Solovay–Strassen test: 2 and 3 are accepted outright; otherwise each of
/// `iterations` rounds draws a random witness in `[2, witness_bound(n))` and
/// rejects `n` as soon as one fails the Euler criterion.
pub fn solovay_strassen(n: &BigNat, iterations: u32) -> (r: bool)
    requires
        testable(n@),
    ensures
        n@ == 2 || n@ == 3 ==> r,
        iterations == 0 ==> r,
        !r ==> exists|a: nat| 2 <= a < witness_bound(n@) && !euler_passes(a, n@),
        r && iterations > 0 && n@ != 2 && n@ != 3 ==> exists|a: nat|
            2 <= a < witness_bound(n@) && euler_passes(a, n@),
{
    let two = BigNat::from_u32(2);
    let three = BigNat::from_u32(3);
    if big_eq(n, &two) || big_eq(n, &three) {
        return true;
    }
    let bound = big_from_u64(big_low_u64(n));
    let mut i: u32 = 0;
    let ghost mut w: nat = 0;
    while i < iterations
        invariant
            i <= iterations,
            i > 0 ==> 2 <= w < witness_bound(n@) && euler_passes(w, n@),
            two@ == 2,
            bound@ == witness_bound(n@),
            bound@ > 2,
            n@ % 2 == 1,
            n@ != 2 && n@ != 3,
        decreases iterations - i,
    {
        let a = random_in_range(&two, &bound);
        if !witness_passes(&a, n) {
            return false;
        }
        proof {
            w = a@;
        }
        i = i + 1;
    }
    true
}

} // verus!
