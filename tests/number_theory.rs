use num_bigint::BigUint;
use prime_bench::bignat::BigNat;
use prime_bench::jacobi::jacobi_symbol;
use prime_bench::modexp::mod_exp;

fn big(v: u64) -> BigNat {
    BigNat::from_digits(vec![v as u32, (v >> 32) as u32])
}

fn from_biguint(v: &BigUint) -> BigNat {
    BigNat::from_digits(v.to_u32_digits())
}

fn value(v: &BigNat) -> BigUint {
    BigUint::new(v.digits.clone())
}

fn jacobi(a: u64, n: u64) -> i32 {
    jacobi_symbol(big(a), big(n))
}

#[test]
fn jacobi_known_values() {
    assert_eq!(jacobi(1001, 9907), -1);
    assert_eq!(jacobi(19, 45), 1);
    assert_eq!(jacobi(8, 21), -1);
    assert_eq!(jacobi(5, 21), 1);
    assert_eq!(jacobi(2, 15), 1);
    assert_eq!(jacobi(30, 7), 1);
    assert_eq!(jacobi(2, 7), 1);
    assert_eq!(jacobi(12345, 331), -1);
    assert_eq!(jacobi(1, 3), 1);
}

#[test]
fn jacobi_zero_when_not_coprime() {
    assert_eq!(jacobi(3, 9), 0);
    assert_eq!(jacobi(0, 9), 0);
    assert_eq!(jacobi(21, 35), 0);
    assert_eq!(jacobi(123, 789), 0);
}

#[test]
fn jacobi_over_one_and_zero_top() {
    assert_eq!(jacobi(0, 1), 1);
    assert_eq!(jacobi(7, 1), 1);
}

#[test]
fn jacobi_unit_exactly_when_coprime() {
    fn gcd(a: u64, b: u64) -> u64 {
        if b == 0 { a } else { gcd(b, a % b) }
    }
    for n in (3u64..60).step_by(2) {
        for a in 0u64..80 {
            let x = jacobi(a, n);
            if gcd(a, n) == 1 {
                assert!(x == 1 || x == -1, "({}/{}) = {}", a, n, x);
            } else {
                assert_eq!(x, 0, "({}/{})", a, n);
            }
        }
    }
}

#[test]
fn jacobi_is_multiplicative_in_the_top() {
    assert_eq!(jacobi(6, 7), jacobi(2, 7) * jacobi(3, 7));
    assert_eq!(jacobi(221, 45), jacobi(13, 45) * jacobi(17, 45));
    for n in (3u64..40).step_by(2) {
        for a in 0u64..25 {
            for b in 0u64..25 {
                assert_eq!(jacobi(a * b, n), jacobi(a, n) * jacobi(b, n), "a={} b={} n={}", a, b, n);
            }
        }
    }
}

#[test]
fn jacobi_on_large_numbers() {
    let n = (BigUint::from(1u32) << 1279u32) - 1u32;
    let x = jacobi_symbol(big(2), from_biguint(&n));
    assert_eq!(x, 1);
    let x = jacobi_symbol(from_biguint(&n), big(9907));
    assert!(x == 1 || x == -1 || x == 0);
}

#[test]
fn mod_exp_known_values() {
    assert_eq!(value(&mod_exp(big(4), big(13), big(497))), BigUint::from(445u32));
    assert_eq!(value(&mod_exp(big(3), big(200), big(1000003))), BigUint::from(333986u32));
    let b = BigUint::from(1u32) << 70u32;
    let b = b + 3u32;
    let e = (BigUint::from(1u32) << 65u32) + 1u32;
    let m = BigUint::from(100000000000000000039u128);
    let r = mod_exp(from_biguint(&b), from_biguint(&e), from_biguint(&m));
    assert_eq!(value(&r), BigUint::from(86959547214750758245u128));
}

#[test]
fn mod_exp_zero_exponent_is_one() {
    for m in [2u64, 3, 10, 497, u64::MAX] {
        for b in [0u64, 1, 2, 12345, u64::MAX] {
            assert_eq!(value(&mod_exp(big(b), big(0), big(m))), BigUint::from(1u32));
        }
    }
}

#[test]
fn mod_exp_modulus_one_gives_zero() {
    assert_eq!(value(&mod_exp(big(5), big(0), big(1))), BigUint::from(0u32));
    assert_eq!(value(&mod_exp(big(5), big(3), big(1))), BigUint::from(0u32));
}

#[test]
fn mod_exp_result_below_modulus() {
    for m in [2u64, 7, 97, 1000, 65537] {
        for b in [0u64, 1, 5, 96, 1 << 40] {
            for e in [0u64, 1, 2, 17, 1000] {
                let r = value(&mod_exp(big(b), big(e), big(m)));
                assert!(r < BigUint::from(m));
                assert_eq!(r, BigUint::from(b).modpow(&BigUint::from(e), &BigUint::from(m)));
            }
        }
    }
}
