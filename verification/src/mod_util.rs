//! Modular exponentiation, modular inverses, and discrete logarithms.

use vstd::prelude::*;

verus! {

/// `x^e mod m`, as a mathematical definition (with `x` reduced first, so
/// the base may be any integer).
pub open spec fn pow_mod(x: int, e: nat, m: int) -> int
    decreases e,
{
    if e == 0 {
        1int % m
    } else {
        (pow_mod(x, (e - 1) as nat, m) * x) % m
    }
}

/// The result of a modular power lies in `[0, m)`.
pub proof fn lemma_pow_mod_range(x: int, e: nat, m: int)
    requires
        m >= 1,
    ensures
        0 <= pow_mod(x, e, m) < m,
    decreases e,
{
    if e == 0 {
    } else {
        lemma_pow_mod_range(x, (e - 1) as nat, m);
    }
}

/// Reducing the base does not change a modular power.
pub proof fn lemma_pow_mod_base(x: int, e: nat, m: int)
    requires
        m >= 1,
    ensures
        pow_mod(x % m, e, m) == pow_mod(x, e, m),
    decreases e,
{
    if e > 0 {
        lemma_pow_mod_base(x, (e - 1) as nat, m);
        vstd::arithmetic::div_mod::lemma_mul_mod_noop_right(
            pow_mod(x, (e - 1) as nat, m),
            x,
            m,
        );
    }
}

/// Exponents add: `x^(a+b) mod m == (x^a mod m) * (x^b mod m) mod m`.
pub proof fn lemma_pow_mod_add(x: int, a: nat, b: nat, m: int)
    requires
        m >= 1,
    ensures
        pow_mod(x, a + b, m) == (pow_mod(x, a, m) * pow_mod(x, b, m)) % m,
    decreases b,
{
    let pa = pow_mod(x, a, m);
    if b == 0 {
        lemma_pow_mod_range(x, a, m);
        vstd::arithmetic::div_mod::lemma_mul_mod_noop_right(pa, 1, m);
        vstd::arithmetic::mul::lemma_mul_basics_1(pa);
        vstd::arithmetic::div_mod::lemma_small_mod(pa as nat, m as nat);
    } else {
        lemma_pow_mod_add(x, a, (b - 1) as nat, m);
        let pb1 = pow_mod(x, (b - 1) as nat, m);
        // x^(a+b) == ((pa * pb1) % m * x) % m == (pa * (pb1 * x)) % m
        //         == (pa * x^b) % m.
        vstd::arithmetic::div_mod::lemma_mul_mod_noop_left(pa * pb1, x, m);
        vstd::arithmetic::mul::lemma_mul_is_associative(pa, pb1, x);
        vstd::arithmetic::div_mod::lemma_mul_mod_noop_right(pa, pb1 * x, m);
    }
}

/// Calculates `x^n mod m` by halving the exponent.
pub fn mod_pow(x: i64, n: i64, m: i64) -> (r: i64)
    requires
        0 <= x < m,
        0 <= n,
        2 <= m <= 0x4000_0000,
    ensures
        r == pow_mod(x as int, n as nat, m as int),
        0 <= r < m,
    decreases n,
{
    proof {
        lemma_pow_mod_range(x as int, n as nat, m as int);
    }
    if n == 0 {
        proof {
            vstd::arithmetic::div_mod::lemma_small_mod(1nat, m as nat);
        }
        return 1;
    }
    proof {
        assert(n >> 1 == n / 2) by (bit_vector)
            requires
                0 <= n,
        ;
    }
    let mut res = mod_pow(x, n >> 1, m) % m;
    proof {
        let k = (n / 2) as nat;
        let p = pow_mod(x as int, k, m as int);
        lemma_pow_mod_range(x as int, k, m as int);
        vstd::arithmetic::div_mod::lemma_small_mod(p as nat, m as nat);
        lemma_pow_mod_add(x as int, k, k, m as int);
        assert(res * res < 0x1000_0000_0000_0000) by (nonlinear_arith)
            requires
                0 <= res < m,
                m <= 0x4000_0000,
        ;
    }
    res = (res * res) % m;
    if n & 1 == 1 {
        proof {
            assert((n & 1 == 1) == (n % 2 == 1)) by (bit_vector);
            assert((n / 2) + (n / 2) + 1 == n);
            let k = (n / 2) as nat;
            // By definition, x^n == (x^(n-1) * x) % m, and n - 1 == 2k.
            assert(pow_mod(x as int, n as nat, m as int) == (pow_mod(
                x as int,
                (n - 1) as nat,
                m as int,
            ) * x) % (m as int));
            assert(res * x < 0x1000_0000_0000_0000) by (nonlinear_arith)
                requires
                    0 <= res < m,
                    0 <= x < m,
                    m <= 0x4000_0000,
            ;
        }
        res *= x;
        proof {
            vstd::arithmetic::div_mod::lemma_mod_twice(res as int, m as int);
        }
    } else {
        proof {
            assert((n & 1 == 1) == (n % 2 == 1)) by (bit_vector);
            assert((n / 2) + (n / 2) == n);
            vstd::arithmetic::div_mod::lemma_mod_twice(res as int, m as int);
        }
    }
    proof {
        let k = (n / 2) as nat;
        let mi = m as int;
        let p = pow_mod(x as int, k, mi);
        let aa = (p * p) % mi;
        if n % 2 == 1 {
            assert(res == aa * x);
            assert(pow_mod(x as int, (n - 1) as nat, mi) == aa);
            assert(pow_mod(x as int, n as nat, mi) == (aa * (x as int)) % mi);
            assert((res as int) % mi == pow_mod(x as int, n as nat, mi));
        } else {
            assert(res == aa);
            assert(pow_mod(x as int, n as nat, mi) == aa);
            vstd::arithmetic::div_mod::lemma_mod_division_less_than_divisor(p * p, mi);
            vstd::arithmetic::div_mod::lemma_small_mod(res as nat, m as nat);
        }
    }
    res % m
}

/// Calculates `a^-1 mod m` (`a * a^-1 == 1 mod m`).
/// `a` and `m` must be relative prime, but `m` need not be prime.
pub fn mod_inv(a: i64, m: i64) -> (r: i64)
    requires
        0 <= a,
        a <= 0x3fff_ffff_ffff_ffff,
        2 <= m <= 0x3fff_ffff_ffff_ffff,
        crate::gcd::gcd_rec(a as nat, m as nat) == 1,
    ensures
        0 <= r < m,
        (a * r) % (m as int) == 1,
{
    crate::gcd::inv_module(a, m)
}

/// Calculates a minimum index `i` that meets `a^i == b mod m`, if one
/// exists, by baby-step giant-step over `ceil(sqrt(m))` blocks.
///
/// `a` and `m` must be relative prime, but `m` need not be prime.  Any
/// index returned lies in `[0, m)`; that it is the least witness is a
/// property of the search order and is exercised by tests rather than
/// stated here.
pub fn mod_log(a: i64, b: i64, m: i64) -> (r: Option<i64>)
    requires
        0 <= a,
        0 <= b,
        a <= 0x3fff_ffff_ffff_ffff,
        b <= 0x3fff_ffff_ffff_ffff,
        2 <= m <= 0x4000_0000,
        crate::gcd::gcd_rec(a as nat, m as nat) == 1,
    ensures
        r matches Some(i) ==> 0 <= i < m && pow_mod((a % m) as int, i as nat, m as int) == (
        b as int) % (m as int),
{
    let ghost a0 = a as int;
    let ghost b0 = b as int;
    let ar = a % m;
    let br = b % m;
    let mut sqrt_m: i64 = 1;
    while sqrt_m * sqrt_m < m
        invariant
            1 <= sqrt_m <= 0x10000,
            sqrt_m * sqrt_m <= 0x1_0000_0000,
            2 <= m <= 0x4000_0000,
        decreases m - sqrt_m,
    {
        proof {
            assert(sqrt_m < 0x10000 && sqrt_m < m) by (nonlinear_arith)
                requires
                    sqrt_m * sqrt_m < m,
                    m <= 0x4000_0000,
                    1 <= sqrt_m,
            ;
        }
        sqrt_m += 1;
        proof {
            assert(sqrt_m * sqrt_m <= 0x1_0000_0000) by (nonlinear_arith)
                requires
                    1 <= sqrt_m <= 0x10000,
            ;
        }
    }
    // Baby steps: the powers a^0 .. a^(sqrt_m - 1), first index kept.
    let mut a_pow_vals: Vec<i64> = Vec::new();
    let mut x: i64 = 1;
    let mut j: i64 = 0;
    while j < sqrt_m
        invariant
            0 <= j <= sqrt_m,
            a_pow_vals.len() == j,
            0 <= x < m,
            0 <= ar < m,
            2 <= m <= 0x4000_0000,
            forall|t: int| 0 <= t < j ==> 0 <= #[trigger] a_pow_vals@[t] < m,
        decreases sqrt_m - j,
    {
        a_pow_vals.push(x);
        proof {
            assert(x * ar < 0x1000_0000_0000_0000) by (nonlinear_arith)
                requires
                    0 <= x < m,
                    0 <= ar < m,
                    m <= 0x4000_0000,
            ;
        }
        x = (x * ar) % m;
        j += 1;
    }
    // Giant steps: multiply b by a^(-sqrt_m) and look for a match.
    proof {
        crate::gcd::lemma_gcd_mod(a0 as nat, m as nat);
    }
    let inv_a = mod_inv(ar, m);
    let inv_a_sqrt_m = mod_pow(inv_a, sqrt_m, m);
    let mut xx = br;
    let mut i: i64 = 0;
    while i < sqrt_m
        invariant
            0 <= i <= sqrt_m,
            1 <= sqrt_m <= 0x10000,
            0 <= xx < m,
            0 <= inv_a_sqrt_m < m,
            2 <= m <= 0x4000_0000,
            0 <= ar < m,
            0 <= br < m,
            ar as int == (a as int) % (m as int),
            br as int == (b as int) % (m as int),
            a_pow_vals.len() == sqrt_m,
            forall|t: int| 0 <= t < sqrt_m ==> 0 <= #[trigger] a_pow_vals@[t] < m,
        decreases sqrt_m - i,
    {
        let mut j2: usize = 0;
        while j2 < a_pow_vals.len()
            invariant
                j2 <= a_pow_vals.len(),
                a_pow_vals.len() == sqrt_m,
                1 <= sqrt_m <= 0x10000,
                0 <= i < sqrt_m,
                2 <= m <= 0x4000_0000,
                0 <= ar < m,
                0 <= br < m,
                0 <= xx < m,
                ar as int == (a as int) % (m as int),
                br as int == (b as int) % (m as int),
            decreases a_pow_vals.len() - j2,
        {
            if a_pow_vals[j2] == xx {
                proof {
                    assert(i * sqrt_m <= 0x1_0000_0000) by (nonlinear_arith)
                        requires
                            0 <= i < sqrt_m,
                            sqrt_m <= 0x10000,
                    ;
                }
                let idx = i * sqrt_m + j2 as i64;
                if idx < m {
                    // The table hit pins the candidate; the power check
                    // carries the witness into the contract.
                    let chk = mod_pow(ar, idx, m);
                    if chk == br {
                        return Some(idx);
                    } else {
                        return None;
                    }
                } else {
                    return None;
                }
            }
            j2 += 1;
        }
        proof {
            assert(xx * inv_a_sqrt_m < 0x1000_0000_0000_0000) by (nonlinear_arith)
                requires
                    0 <= xx < m,
                    0 <= inv_a_sqrt_m < m,
                    m <= 0x4000_0000,
            ;
        }
        xx = (xx * inv_a_sqrt_m) % m;
        i += 1;
    }
    None
}

} // verus!
