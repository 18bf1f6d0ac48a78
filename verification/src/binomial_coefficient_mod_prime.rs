//! `nCk mod p` for prime `p`, including huge `n`: a factorial table of
//! size `p` plus the power-of-`p` bookkeeping of Wilson's theorem.
//!
//! Space `O(p)`, construction `O(p)`, query `O(log_p n)`.

use vstd::prelude::*;

verus! {

use crate::mod_comb::fact_mod;

/// The factorial table `x! mod p` for `x < p`, and the prime modulus.
pub struct BinomialCoefficient {
    fact_mods: Vec<i64>,
    prime_mod: i64,
}

impl BinomialCoefficient {
    /// The table covers `0..p` and every entry is a reduced factorial.
    pub closed spec fn wf(&self) -> bool {
        &&& 2 <= self.prime_mod <= 0x40_0000
        &&& self.fact_mods.len() == self.prime_mod
        &&& forall|i: int|
            0 <= i < self.fact_mods.len() ==> #[trigger] self.fact_mods@[i] == fact_mod(
                i as nat,
                self.prime_mod as int,
            )
    }

    /// The modulus; meaningful answers need it prime.
    pub closed spec fn spec_mod(&self) -> int {
        self.prime_mod as int
    }

    /// Builds the factorial table for the modulus `prime_mod`.
    pub fn new(prime_mod: i64) -> (r: BinomialCoefficient)
        requires
            2 <= prime_mod <= 0x40_0000,
        ensures
            r.wf(),
            r.spec_mod() == prime_mod,
    {
        let mut fact_mods: Vec<i64> = Vec::new();
        fact_mods.push(1);
        proof {
            vstd::arithmetic::div_mod::lemma_small_mod(1nat, prime_mod as nat);
        }
        let mut x: i64 = 1;
        while x < prime_mod
            invariant
                1 <= x <= prime_mod,
                2 <= prime_mod <= 0x40_0000,
                fact_mods.len() == x,
                forall|i: int|
                    0 <= i < x ==> #[trigger] fact_mods@[i] == fact_mod(i as nat, prime_mod as int)
                        && 0 <= fact_mods@[i] < prime_mod,
            decreases prime_mod - x,
        {
            let prev = fact_mods[(x - 1) as usize];
            proof {
                assert(x * prev < 0x1000_0000_0000_0000 && 0 <= x * prev) by (nonlinear_arith)
                    requires
                        0 <= prev < 0x40_0000,
                        0 < x <= 0x40_0000,
                ;
            }
            let v = (x * prev) % prime_mod;
            fact_mods.push(v);
            x = x + 1;
        }
        BinomialCoefficient { fact_mods, prime_mod }
    }

    /// The factor of `n!` that is coprime to `p`, reduced and signed by
    /// Wilson's theorem; `e` receives the exponent of `p` inside `n!`.
    fn fact(&self, n: i64, e: &mut usize) -> (r: i64)
        requires
            self.wf(),
            0 <= n <= 0x4000_0000,
        ensures
            0 <= r < self.spec_mod(),
            *final(e) <= n,
        decreases n,
    {
        *e = 0;
        if n == 0 {
            proof {
                vstd::arithmetic::div_mod::lemma_small_mod(1nat, self.prime_mod as nat);
            }
            return 1;
        }
        let x = n / self.prime_mod;
        proof {
            vstd::arithmetic::div_mod::lemma_div_is_strictly_smaller(n as int, self.prime_mod as int);
        }
        let rec = self.fact(x, e);
        let result = rec % self.prime_mod;
        proof {
            vstd::arithmetic::div_mod::lemma_fundamental_div_mod(n as int, self.prime_mod as int);
            // e grows by n / p at each level, so it never passes n.
            assert(*e + x <= n) by (nonlinear_arith)
                requires
                    *e <= x,
                    (self.prime_mod as int) * (x as int) == n as int - (n as int) % (
                    self.prime_mod as int),
                    0 <= (n as int) % (self.prime_mod as int),
                    self.prime_mod >= 2,
                    x >= 0,
                    n >= 1,
            ;
        }
        *e += x as usize;
        let y = (n % self.prime_mod) as usize;
        proof {
            crate::mod_comb::lemma_fact_mod_range(y as nat, self.prime_mod as int);
        }
        let fy = self.fact_mods[y];
        if x % 2 != 0 {
            let neg = (self.prime_mod - fy) % self.prime_mod;
            proof {
                assert(result * neg < 0x1000_0000_0000_0000 && 0 <= result * neg)
                    by (nonlinear_arith)
                    requires
                        0 <= result < 0x40_0000,
                        0 <= neg < 0x40_0000,
                ;
            }
            (result * neg) % self.prime_mod
        } else {
            proof {
                assert(result * fy < 0x1000_0000_0000_0000 && 0 <= result * fy)
                    by (nonlinear_arith)
                    requires
                        0 <= result < 0x40_0000,
                        0 <= fy < 0x40_0000,
                ;
            }
            result * fy % self.prime_mod
        }
    }

    /// Combination `nCk mod p`, `O(log_p n)`; exact when `p` is prime.
    pub fn combination(&self, n: i64, k: i64) -> (r: i64)
        requires
            self.wf(),
            0 <= k,
            0 <= n <= 0x4000_0000,
        ensures
            0 <= r < self.spec_mod(),
            n < k ==> r == 0,
    {
        if n < k {
            return 0;
        }
        let mut e1: usize = 0;
        let mut e2: usize = 0;
        let mut e3: usize = 0;
        let v1 = self.fact(n, &mut e1);
        let v2 = self.fact(k, &mut e2);
        let v3 = self.fact(n - k, &mut e3);

        if e2 > usize::MAX - e3 || e1 != e2 + e3 {
            // p divides the combination.
            0
        } else {
            proof {
                assert(v2 * v3 < 0x1000_0000_0000 && 0 <= v2 * v3) by (nonlinear_arith)
                    requires
                        0 <= v2 < 0x40_0000,
                        0 <= v3 < 0x40_0000,
                ;
            }
            let inv = inv_loose(v2 * v3, self.prime_mod);
            proof {
                vstd::arithmetic::div_mod::lemma_small_mod(v1 as nat, self.prime_mod as nat);
                assert(v1 * inv < 0x1000_0000_0000 && 0 <= v1 * inv) by (nonlinear_arith)
                    requires
                        0 <= v1 < 0x40_0000,
                        0 <= inv < 0x40_0000,
                ;
            }
            v1 % self.prime_mod * inv % self.prime_mod
        }
    }
}

/// The Bezout-based candidate inverse of `a` modulo `m`: the true inverse
/// whenever `a` and `m` are coprime, and some value in `[0, m)` otherwise.
fn inv_loose(a: i64, m: i64) -> (r: i64)
    requires
        0 <= a <= 0x3fff_ffff_ffff_ffff,
        2 <= m <= 0x3fff_ffff_ffff_ffff,
    ensures
        0 <= r < m,
{
    let mut x: i64 = 0;
    let mut y: i64 = 0;
    crate::gcd::extended_gcd(a, m, &mut x, &mut y);
    crate::gcd::module(x, m)
}

} // verus!
