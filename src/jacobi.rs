//! The Jacobi symbol, by the binary reduction with quadratic reciprocity.

use crate::bignat::{big_div, big_eq, big_rem, BigNat};
use vstd::arithmetic::div_mod::{lemma_fundamental_div_mod, lemma_mod_multiples_basic, lemma_mul_mod_noop_general, lemma_small_mod};
use vstd::prelude::*;

verus! {

/// The sign that pulling a factor 2 out of the top contributes: `(2/n)`.
pub open spec fn two_sign(n: nat) -> int {
    if n % 8 == 3 || n % 8 == 5 {
        -1
    } else {
        1
    }
}

/// The sign that swapping two odd numbers contributes under quadratic
/// reciprocity.
pub open spec fn reciprocity_sign(a: nat, n: nat) -> int {
    if a % 4 == 3 && n % 4 == 3 {
        -1
    } else {
        1
    }
}

/// The Jacobi symbol `(a/n)` for odd `n`, by its reduction laws:
/// `(0/n)` is 1 when `n == 1` and 0 otherwise, `(2a/n) = (2/n)(a/n)`, and for
/// odd `a`, `(a/n) = ±(n mod a / a)` with the sign of quadratic reciprocity.
pub open spec fn jacobi(a: nat, n: nat) -> int
    decreases a,
{
    if a == 0 {
        if n == 1 {
            1
        } else {
            0
        }
    } else if a % 2 == 0 {
        two_sign(n) * jacobi(a / 2, n)
    } else {
        reciprocity_sign(a, n) * jacobi(n % a, a)
    }
}

/// `d` divides `x`.
pub open spec fn divides(d: nat, x: nat) -> bool {
    x % d == 0
}

/// `a` and `n` share no divisor above 1, that is `gcd(a, n) == 1`.
pub open spec fn coprime(a: nat, n: nat) -> bool {
    forall|d: nat|
        #![trigger divides(d, a)]
        #![trigger divides(d, n)]
        1 < d ==> !(divides(d, a) && divides(d, n))
}

proof fn lemma_divides_combination(d: int, x: int, y: int, k: int)
    requires
        d > 0,
        x % d == 0,
        y % d == 0,
    ensures
        (x + k * y) % d == 0,
{
    lemma_fundamental_div_mod(x, d);
    lemma_fundamental_div_mod(y, d);
    let p = x / d;
    let q = y / d;
    assert(x + k * y == (p + k * q) * d) by (nonlinear_arith)
        requires
            x == d * p + 0,
            y == d * q + 0,
    ;
    lemma_mod_multiples_basic(p + k * q, d);
}

/// A divisor of an odd number is odd.
proof fn lemma_divisor_of_odd(d: nat, n: nat)
    requires
        d > 0,
        divides(d, n),
        n % 2 == 1,
    ensures
        d % 2 == 1,
{
    if d % 2 == 0 {
        lemma_fundamental_div_mod(n as int, d as int);
        lemma_divides_combination(2, 0, d as int, n as int / d as int);
    }
}

/// An odd divisor of an even number divides its half.
proof fn lemma_odd_divides_half(d: nat, a: nat)
    requires
        d % 2 == 1,
        a % 2 == 0,
        divides(d, a),
    ensures
        divides(d, a / 2),
{
    lemma_fundamental_div_mod(a as int, d as int);
    let q = a as int / d as int;
    lemma_mul_mod_noop_general(d as int, q, 2);
    if q % 2 == 1 {
        assert((d % 2) * (q % 2) % 2 == 1);
    }
    lemma_fundamental_div_mod(q, 2);
    let h = q / 2;
    assert(a == 2 * (h * d)) by (nonlinear_arith)
        requires
            a == d * q + 0,
            q == 2 * h + 0,
    ;
    lemma_mod_multiples_basic(h, d as int);
}

/// For odd `n`, halving an even `a` keeps the common divisors.
proof fn lemma_coprime_halve(a: nat, n: nat)
    requires
        a % 2 == 0,
        n % 2 == 1,
    ensures
        coprime(a, n) == coprime(a / 2, n),
{
    assert forall|d: nat| 1 < d && divides(d, a / 2) && divides(d, n) implies divides(d, a) by {
        lemma_divides_combination(d as int, 0, (a / 2) as int, 2);
    }
    assert forall|d: nat| 1 < d && divides(d, a) && divides(d, n) implies divides(d, a / 2) by {
        lemma_divisor_of_odd(d, n);
        lemma_odd_divides_half(d, a);
    }
}

/// The common divisors of `a` and `n` are those of `n mod a` and `a`.
proof fn lemma_coprime_reduce(a: nat, n: nat)
    requires
        a > 0,
    ensures
        coprime(a, n) == coprime(n % a, a),
{
    lemma_fundamental_div_mod(n as int, a as int);
    let q = n as int / a as int;
    let r = (n % a) as int;
    assert(n as int + (-q) * a as int == r && r + q * a as int == n as int) by (nonlinear_arith)
        requires
            n as int == a as int * q + r,
    ;
    assert forall|d: nat| 1 < d && divides(d, a) && divides(d, n) implies divides(d, n % a) by {
        lemma_divides_combination(d as int, n as int, a as int, -q);
    }
    assert forall|d: nat| 1 < d && divides(d, a) && divides(d, n % a) implies divides(d, n) by {
        lemma_divides_combination(d as int, (n % a) as int, a as int, q);
    }
}

/// For odd `n`, `(a/n)` is 1 or -1 when `gcd(a, n) == 1`, and 0 when
/// `gcd(a, n) > 1`.
pub proof fn lemma_jacobi_coprime(a: nat, n: nat)
    requires
        n % 2 == 1,
    ensures
        coprime(a, n) ==> (jacobi(a, n) == 1 || jacobi(a, n) == -1),
        !coprime(a, n) ==> jacobi(a, n) == 0,
    decreases a,
{
    if a == 0 {
        if n == 1 {
            assert forall|d: nat| 1 < d implies !divides(d, 1) by {
                lemma_small_mod(1, d);
            }
        } else {
            assert(divides(n, 0) && divides(n, n));
        }
    } else if a % 2 == 0 {
        lemma_coprime_halve(a, n);
        lemma_jacobi_coprime(a / 2, n);
    } else {
        lemma_coprime_reduce(a, n);
        lemma_jacobi_coprime(n % a, a);
    }
}

/// Pulling out a factor 2 multiplies: `(2a/n) == (2/n)(a/n)` for odd `n`.
pub proof fn lemma_jacobi_two_factor(a: nat, n: nat)
    requires
        n % 2 == 1,
    ensures
        jacobi(2 * a, n) == jacobi(2, n) * jacobi(a, n),
{
    assert(jacobi(0, 1) == 1);
    assert(n % 1 == 0);
    assert(reciprocity_sign(1, n) == 1);
    assert(jacobi(1, n) == reciprocity_sign(1, n) * jacobi(n % 1, 1));
    assert(jacobi(1, n) == 1);
    assert(jacobi(2, n) == two_sign(n) * jacobi(1, n));
    if a == 0 {
        assert(jacobi(0, n) != 0 ==> n == 1);
    } else {
        assert((2 * a) / 2 == a);
    }
}

/// A factor whose symbol over odd `n` is 0 makes the product's symbol 0:
/// `(a/n) == 0` implies `(ab/n) == 0 == (a/n)(b/n)`.
pub proof fn lemma_jacobi_zero_factor(a: nat, b: nat, n: nat)
    requires
        n % 2 == 1,
        jacobi(a, n) == 0,
    ensures
        jacobi(a * b, n) == 0,
        jacobi(b * a, n) == 0,
{
    lemma_jacobi_coprime(a, n);
    let d = choose|d: nat| 1 < d && divides(d, a) && divides(d, n);
    lemma_divides_combination(d as int, 0, a as int, b as int);
    assert(b * a == a * b);
    assert(divides(d, a * b));
    lemma_jacobi_coprime(a * b, n);
}

proof fn lemma_sign_step(s_old: int, t: int, s_new: int, j: int)
    requires
        s_new == s_old * t,
    ensures
        s_new * j == s_old * (t * j),
{
    assert(s_new * j == s_old * (t * j)) by (nonlinear_arith)
        requires
            s_new == s_old * t,
    ;
}

/// Computes the Jacobi symbol `(a/n)` of a number `a` over an odd `n`.
pub fn jacobi_symbol(a: BigNat, n: BigNat) -> (r: i32)
    requires
        n@ % 2 == 1,
    ensures
        r == jacobi(a@, n@),
{
    let ghost goal = jacobi(a@, n@);
    let zero = BigNat::zero();
    let one = BigNat::from_u32(1);
    let two = BigNat::from_u32(2);
    let three = BigNat::from_u32(3);
    let four = BigNat::from_u32(4);
    let five = BigNat::from_u32(5);
    let eight = BigNat::from_u32(8);
    let mut a = a;
    let mut n = n;
    let mut s: i32 = 1;
    while !big_eq(&a, &zero)
        invariant
            zero@ == 0,
            one@ == 1,
            two@ == 2,
            three@ == 3,
            four@ == 4,
            five@ == 5,
            eight@ == 8,
            n@ % 2 == 1,
            s == 1 || s == -1,
            s * jacobi(a@, n@) == goal,
        decreases a@,
    {
        let ghost a_start = a@;
        while big_eq(&big_rem(&a, &two), &zero)
            invariant
                zero@ == 0,
                two@ == 2,
                three@ == 3,
                five@ == 5,
                eight@ == 8,
                a@ > 0,
                a@ <= a_start,
                n@ % 2 == 1,
                s == 1 || s == -1,
                s * jacobi(a@, n@) == goal,
            decreases a@,
        {
            let ghost a_old = a@;
            let ghost s_old = s as int;
            a = big_div(&a, &two);
            let n_mod_8 = big_rem(&n, &eight);
            if big_eq(&n_mod_8, &three) || big_eq(&n_mod_8, &five) {
                s = -s;
            }
            proof {
                assert(jacobi(a_old, n@) == two_sign(n@) * jacobi(a@, n@));
                lemma_sign_step(s_old, two_sign(n@), s as int, jacobi(a@, n@));
            }
        }
        let ghost a_odd = a@;
        let ghost n_old = n@;
        let ghost s_old = s as int;
        std::mem::swap(&mut n, &mut a);
        if big_eq(&big_rem(&n, &four), &three) && big_eq(&big_rem(&a, &four), &three) {
            s = -s;
        }
        a = big_rem(&a, &n);
        proof {
            assert(jacobi(a_odd, n_old) == reciprocity_sign(a_odd, n_old) * jacobi(n_old % a_odd, a_odd));
            lemma_sign_step(s_old, reciprocity_sign(a_odd, n_old), s as int, jacobi(a@, n@));
        }
    }
    if big_eq(&n, &one) {
        s
    } else {
        0
    }
}

} // verus!
