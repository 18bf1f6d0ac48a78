//! Number-theory behaviour: gcd, modular inverses, modular integers and
//! factorial tables.

use cplib::binomial_coefficient_mod_prime::BinomialCoefficient;
use cplib::gcd::{extended_gcd, inv_module, Gcd};
use cplib::mod_comb::{ModComb, PrimeModule};
use cplib::mod_int::ModInt1000000007;

type ModInt = ModInt1000000007;

#[test]
fn test_gcd() {
    assert_eq!(8u64.gcd(10), 2);
    assert_eq!(10u64.gcd(8), 2);
    assert_eq!(11u64.gcd(9), 1);
    assert_eq!(9u64.gcd(11), 1);
    assert_eq!(10u64.gcd(100), 10);
    assert_eq!((-10i32).gcd(-100i32), 10);
    assert_eq!((-25i32).gcd(-30i32), 5);
    assert_eq!((-30i32).gcd(-25i32), 5);
}

#[test]
fn test_inv_module() {
    for m in 2i64..500 {
        for a in 1i64..300 {
            let g = a.gcd(m);
            let a = a / g;
            let m = m / g;
            if a == 1 || m == 1 {
                continue;
            }
            let mut x = 0i64;
            let mut y = 0i64;
            let gcd_am = extended_gcd(a, m, &mut x, &mut y);
            if gcd_am != 1 {
                continue;
            }
            let inv_a = inv_module(a, m);
            let r = (a * inv_a) % m;
            assert_eq!(r, 1);
        }
    }
}

#[test]
fn extended_gcd_bezout() {
    let mut x = 0i64;
    let mut y = 0i64;
    let d = extended_gcd(240, 46, &mut x, &mut y);
    assert_eq!(d, 2);
    assert_eq!(240 * x + 46 * y, 2);
}

#[test]
fn test_zero() {
    let a = ModInt::new(1_000_000_000);
    let b = ModInt::new(7);
    let c = a.add(b);
    assert_eq!(c.val, 0);

    let a = ModInt::new(1_000_000_000);
    let c = a.add_val(7);
    assert_eq!(c.val, 0);

    let a = ModInt::new(2);
    let c = a.sub_from(1);
    assert_eq!(c.val, 1000000006);
}

#[test]
fn test_sub() {
    let a = ModInt::new(10);
    let b = ModInt::new(100);

    assert_eq!(b.sub(a).val, 90);
    assert_eq!(a.sub(b).val, 1_000_000_007 - 90);

    let a = ModInt::new(1);
    assert_eq!(a.sub_val(-1_000_000_007).val, 1);
}

#[test]
fn test_mul() {
    let a = ModInt::new(1000);
    let b = ModInt::new(1234);
    let c = a.mul(b);
    assert_eq!(c.val, 1234000);

    let a = ModInt::new(500000004);
    let c = a.mul_val(2);
    assert_eq!(c.val, 1);

    let x = ModInt::new(2);
    assert_eq!(x.mul_val(-2).val, 1_000_000_003);

    assert_eq!(ModInt::new(100_000).mul_val(100_000).val, 999_999_937);
}

#[test]
fn test_new() {
    let x = ModInt::new(1_000_000_007);
    assert_eq!(x.val, 0);
    let x = ModInt::new(1_000_000_008);
    assert_eq!(x.val, 1);
    let x = ModInt::new(-1);
    assert_eq!(x.val, 1_000_000_006);
}

#[test]
fn test_div() {
    let x = ModInt::new(12);
    assert_eq!(x.div_val(2).val, 6);
    assert_eq!(x.div_val(-2).val, 1_000_000_001);

    assert_eq!(ModInt::new(0).div_val(1).val, 0);

    assert_eq!(ModInt::new(1).div_val(42).val, 23_809_524);
}

#[test]
fn test_pow() {
    let a = ModInt::new(2);
    let b = a.pow(10).val;
    assert_eq!(b, 1024);
}

#[test]
fn test_mod_util() {
    let mod_comb = ModComb::new(1000, PrimeModule::Mod1000000007);
    // fact
    assert_eq!(mod_comb.fact(5), 120);
    assert_eq!(mod_comb.fact(10), 3628800);
    assert_eq!(mod_comb.fact(500), 688653593);
    assert_eq!(mod_comb.fact(1000), 641419708);
    // combination
    assert_eq!(mod_comb.combination(5, 3), 10);
    assert_eq!(mod_comb.combination(10, 2), 45);
    assert_eq!(mod_comb.combination(1000, 500), 159835829);
    // permutation
    assert_eq!(mod_comb.permutation(5, 3), 60);
    assert_eq!(mod_comb.permutation(10, 3), 720);
    assert_eq!(mod_comb.permutation(1000, 999), 641419708);

    const MOD: i64 = 1_000_000_007;
    // inv fact
    for i in 1..1000usize {
        let one = mod_comb.fact(i) * mod_comb.inv_fact(i) % MOD;
        assert_eq!(one, 1);
    }
}

#[test]
fn mod_pow_and_log() {
    assert_eq!(cplib::mod_util::mod_pow(3, 7, 1_000_000_007), 2187);
    assert_eq!(cplib::mod_util::mod_pow(2, 30, 1_000_000_007), 73741817);
    // 3^x == 13 mod 17 has the witness x == 4 (3^4 == 81 == 13 mod 17).
    let found = cplib::mod_util::mod_log(3, 13, 17);
    assert_eq!(found, Some(4));
    // 2 generates only half of the residues modulo 7: no x gives 2^x == 5.
    assert_eq!(cplib::mod_util::mod_log(2, 5, 7), None);
}

fn naive_combs(n: i64, m: i64) -> Vec<Vec<i64>> {
    let n = n as usize;
    let mut comb = vec![vec![0; n + 1]; n + 1];
    comb[0][0] = 1;
    for i in 1..=n {
        comb[i][0] = 1i64;
        for j in 1..=n {
            comb[i][j] = (comb[i - 1][j - 1] + comb[i - 1][j]) % m;
        }
    }

    comb
}

#[test]
fn test_combination() {
    let primes = vec![2, 3, 5, 7, 11, 13, 17, 19];
    let n = 1000;
    for p in primes {
        let c = BinomialCoefficient::new(p);
        let combs = naive_combs(n, p);

        for i in 1..=n {
            for j in 0..=i {
                assert_eq!(c.combination(i, j), combs[i as usize][j as usize]);
            }
        }
    }
}
