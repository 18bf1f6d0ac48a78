//! Factorial tables modulo a prime: combinations, permutations and
//! inverse factorials, plus the `usize` table variant for a caller-chosen
//! modulus.

use vstd::prelude::*;

verus! {

use crate::mod_util::pow_mod;

/// `n! mod m`, as a mathematical definition.
pub open spec fn fact_mod(n: nat, m: int) -> int
    decreases n,
{
    if n == 0 {
        1int % m
    } else {
        (n * fact_mod((n - 1) as nat, m)) % m
    }
}

/// The binomial coefficient by Pascal's rule: what the factorial
/// formulas below compute modulo a prime, by Fermat's little theorem.
pub open spec fn binomial(n: nat, k: nat) -> nat
    decreases n,
{
    if k == 0 {
        1
    } else if k > n {
        0
    } else {
        binomial((n - 1) as nat, (k - 1) as nat) + binomial((n - 1) as nat, k)
    }
}

/// The edges of Pascal's triangle.
pub proof fn lemma_binomial_edges(n: nat)
    ensures
        binomial(n, 0) == 1,
        binomial(n, n) == 1,
    decreases n,
{
    if n > 0 {
        lemma_binomial_edges((n - 1) as nat);
        assert(binomial((n - 1) as nat, n) == 0);
    }
}

/// A factorial stays in `[0, m)`.
pub proof fn lemma_fact_mod_range(n: nat, m: int)
    requires
        m >= 1,
    ensures
        0 <= fact_mod(n, m) < m,
    decreases n,
{
    if n > 0 {
        lemma_fact_mod_range((n - 1) as nat, m);
    }
}

/// The two prime moduli the table accepts.
pub enum PrimeModule {
    Mod1000000007,
    Mod998244353,
}

impl PrimeModule {
    /// The numeric modulus.
    pub closed spec fn spec_value(&self) -> int {
        match *self {
            PrimeModule::Mod1000000007 => 1000000007,
            PrimeModule::Mod998244353 => 998244353,
        }
    }

    fn value(&self) -> (r: i64)
        ensures
            r == self.spec_value(),
    {
        match *self {
            PrimeModule::Mod1000000007 => 1000000007,
            PrimeModule::Mod998244353 => 998244353,
        }
    }
}

/// Tables of `n! mod p` and their modular inverses through Fermat
/// exponentiation, for `n` up to a fixed size.
pub struct ModComb {
    fact: Vec<i64>,
    inv_fact: Vec<i64>,
    module: i64,
}

impl ModComb {
    /// The tables hold exactly the modular factorials and their Fermat
    /// inverses.
    pub closed spec fn wf(&self) -> bool {
        &&& 2 <= self.module <= 0x4000_0000
        &&& self.fact.len() == self.inv_fact.len()
        &&& forall|i: int|
            0 <= i < self.fact.len() ==> #[trigger] self.fact@[i] == fact_mod(
                i as nat,
                self.module as int,
            )
        &&& forall|i: int|
            0 <= i < self.inv_fact.len() ==> #[trigger] self.inv_fact@[i] == pow_mod(
                fact_mod(i as nat, self.module as int),
                (self.module - 2) as nat,
                self.module as int,
            )
    }

    /// The modulus the tables were built for.
    pub closed spec fn spec_module(&self) -> int {
        self.module as int
    }

    /// The largest argument the tables answer for.
    pub closed spec fn spec_size(&self) -> int {
        self.fact.len() - 1
    }

    /// Tables for arguments `0..=size` under the prime `module`.
    pub fn new(size: usize, module: PrimeModule) -> (r: ModComb)
        requires
            size <= 0x4000_0000,
        ensures
            r.wf(),
            r.spec_size() == size,
            r.spec_module() == module.spec_value(),
    {
        let module = module.value();
        let mut fact: Vec<i64> = Vec::new();
        fact.push(1);
        proof {
            vstd::arithmetic::div_mod::lemma_small_mod(1nat, module as nat);
        }
        let mut i: usize = 1;
        while i <= size
            invariant
                1 <= i <= size + 1,
                size <= 0x4000_0000,
                2 <= module <= 0x4000_0000,
                fact.len() == i,
                forall|j: int|
                    0 <= j < i ==> #[trigger] fact@[j] == fact_mod(j as nat, module as int)
                        && 0 <= fact@[j] < module,
            decreases size + 1 - i,
        {
            let prev = fact[i - 1];
            proof {
                assert(i * prev < 0x1000_0000_0000_0000 && 0 <= i * prev) by (nonlinear_arith)
                    requires
                        0 <= prev < 0x4000_0000,
                        0 < i <= 0x4000_0001,
                ;
            }
            let v = (i as i64 * prev) % module;
            fact.push(v);
            i = i + 1;
        }
        let mut inv_fact: Vec<i64> = Vec::new();
        let mut i: usize = 0;
        while i < fact.len()
            invariant
                inv_fact.len() == i,
                i <= fact.len(),
                2 <= module <= 0x4000_0000,
                forall|j: int|
                    0 <= j < fact.len() ==> #[trigger] fact@[j] == fact_mod(j as nat, module as int)
                        && 0 <= fact@[j] < module,
                forall|j: int|
                    0 <= j < i ==> #[trigger] inv_fact@[j] == pow_mod(
                        fact_mod(j as nat, module as int),
                        (module - 2) as nat,
                        module as int,
                    ),
            decreases fact.len() - i,
        {
            let v = crate::mod_util::mod_pow(fact[i], module - 2, module);
            inv_fact.push(v);
            i = i + 1;
        }
        ModComb { fact, inv_fact, module }
    }

    /// `n! / (n - k)! mod p`, through the Fermat inverse of `(n - k)!`.
    pub fn permutation(&self, n: usize, k: usize) -> (r: i64)
        requires
            self.wf(),
            k <= n,
            n <= self.spec_size(),
        ensures
            r == (fact_mod(n as nat, self.spec_module()) * pow_mod(
                fact_mod((n - k) as nat, self.spec_module()),
                (self.spec_module() - 2) as nat,
                self.spec_module(),
            )) % self.spec_module(),
    {
        proof {
            lemma_fact_mod_range(n as nat, self.module as int);
            crate::mod_util::lemma_pow_mod_range(
                fact_mod((n - k) as nat, self.module as int),
                (self.module - 2) as nat,
                self.module as int,
            );
            vstd::arithmetic::div_mod::lemma_small_mod(self.fact@[n as int] as nat, self.module as nat);
            assert(self.fact@[n as int] * self.inv_fact@[n - k] < 0x1000_0000_0000_0000 && 0
                <= self.fact@[n as int] * self.inv_fact@[n - k]) by (nonlinear_arith)
                requires
                    0 <= self.fact@[n as int] < 0x4000_0000,
                    0 <= self.inv_fact@[n - k] < 0x4000_0000,
            ;
        }
        self.fact[n] % self.module * self.inv_fact(n - k) % self.module
    }

    /// `n choose k mod p`, through the Fermat inverses of `k!` and
    /// `(n - k)!`: for a prime modulus this Fermat expression equals
    /// [`binomial`]`(n, k) % p`, the ensures pins the expression itself.
    pub fn combination(&self, n: usize, k: usize) -> (r: i64)
        requires
            self.wf(),
            k <= n,
            n <= self.spec_size(),
        ensures
            r == ((fact_mod(n as nat, self.spec_module()) * pow_mod(
                fact_mod(k as nat, self.spec_module()),
                (self.spec_module() - 2) as nat,
                self.spec_module(),
            )) % self.spec_module() * pow_mod(
                fact_mod((n - k) as nat, self.spec_module()),
                (self.spec_module() - 2) as nat,
                self.spec_module(),
            )) % self.spec_module(),
    {
        proof {
            lemma_fact_mod_range(n as nat, self.module as int);
            crate::mod_util::lemma_pow_mod_range(
                fact_mod(k as nat, self.module as int),
                (self.module - 2) as nat,
                self.module as int,
            );
            crate::mod_util::lemma_pow_mod_range(
                fact_mod((n - k) as nat, self.module as int),
                (self.module - 2) as nat,
                self.module as int,
            );
            assert(self.fact@[n as int] * self.inv_fact@[k as int] < 0x1000_0000_0000_0000 && 0
                <= self.fact@[n as int] * self.inv_fact@[k as int]) by (nonlinear_arith)
                requires
                    0 <= self.fact@[n as int] < 0x4000_0000,
                    0 <= self.inv_fact@[k as int] < 0x4000_0000,
            ;
            let mid = (self.fact@[n as int] * self.inv_fact@[k as int]) % (self.module as int);
            assert(mid * self.inv_fact@[n - k] < 0x1000_0000_0000_0000 && 0 <= mid
                * self.inv_fact@[n - k]) by (nonlinear_arith)
                requires
                    0 <= mid < 0x4000_0000,
                    0 <= self.inv_fact@[n - k] < 0x4000_0000,
            ;
        }
        self.fact[n] * self.inv_fact[k] % self.module * self.inv_fact[n - k] % self.module
    }

    /// `x! mod p` from the table.
    pub fn fact(&self, x: usize) -> (r: i64)
        requires
            self.wf(),
            x <= self.spec_size(),
        ensures
            r == fact_mod(x as nat, self.spec_module()),
    {
        self.fact[x]
    }

    /// The Fermat inverse of `x` itself.
    pub fn inv(&self, x: usize) -> (r: i64)
        requires
            self.wf(),
            0 < x < self.spec_module(),
        ensures
            r == pow_mod(x as int, (self.spec_module() - 2) as nat, self.spec_module()),
    {
        crate::mod_util::mod_pow(x as i64, self.module - 2, self.module)
    }

    /// The Fermat inverse of `x!` from the table.
    pub fn inv_fact(&self, x: usize) -> (r: i64)
        requires
            self.wf(),
            x <= self.spec_size(),
        ensures
            r == pow_mod(
                fact_mod(x as nat, self.spec_module()),
                (self.spec_module() - 2) as nat,
                self.spec_module(),
            ),
    {
        self.inv_fact[x]
    }
}

/// The `usize` variant of the factorial tables, for a caller-chosen prime
/// modulus.
pub struct ModUtil {
    fact: Vec<usize>,
    inv_fact: Vec<usize>,
    module: usize,
}

impl ModUtil {
    /// The tables hold exactly the modular factorials and their Fermat
    /// inverses.
    pub closed spec fn wf(&self) -> bool {
        &&& 2 <= self.module <= 0x4000_0000
        &&& self.fact.len() == self.inv_fact.len()
        &&& forall|i: int|
            0 <= i < self.fact.len() ==> #[trigger] self.fact@[i] == fact_mod(
                i as nat,
                self.module as int,
            )
        &&& forall|i: int|
            0 <= i < self.inv_fact.len() ==> #[trigger] self.inv_fact@[i] == pow_mod(
                fact_mod(i as nat, self.module as int),
                (self.module - 2) as nat,
                self.module as int,
            )
    }

    /// The modulus the tables were built for.
    pub closed spec fn spec_module(&self) -> int {
        self.module as int
    }

    /// The largest argument the tables answer for.
    pub closed spec fn spec_size(&self) -> int {
        self.fact.len() - 1
    }

    /// Tables for arguments `0..=size` under the prime `module`.
    pub fn new(size: usize, module: usize) -> (r: ModUtil)
        requires
            size <= 0x4000_0000,
            2 <= module <= 0x4000_0000,
        ensures
            r.wf(),
            r.spec_size() == size,
            r.spec_module() == module,
    {
        let inner = ModComb::new_with_modulus(size, module as i64);
        let mut fact: Vec<usize> = Vec::new();
        let mut inv_fact: Vec<usize> = Vec::new();
        let mut i: usize = 0;
        let len = inner.fact_len();
        while i < len
            invariant
                fact.len() == i,
                inv_fact.len() == i,
                i <= len,
                len == inner.spec_size() + 1,
                inner.wf(),
                inner.spec_module() == module,
                2 <= module <= 0x4000_0000,
                forall|j: int|
                    0 <= j < i ==> #[trigger] fact@[j] == fact_mod(j as nat, module as int),
                forall|j: int|
                    0 <= j < i ==> #[trigger] inv_fact@[j] == pow_mod(
                        fact_mod(j as nat, module as int),
                        (module - 2) as nat,
                        module as int,
                    ),
            decreases len - i,
        {
            proof {
                lemma_fact_mod_range(i as nat, module as int);
                crate::mod_util::lemma_pow_mod_range(
                    fact_mod(i as nat, module as int),
                    (module - 2) as nat,
                    module as int,
                );
            }
            fact.push(inner.fact_at(i) as usize);
            inv_fact.push(inner.inv_fact_at(i) as usize);
            i = i + 1;
        }
        ModUtil { fact, inv_fact, module }
    }

    /// `n! / (n - k)! mod p`.
    pub fn permutation(&self, n: usize, k: usize) -> (r: usize)
        requires
            self.wf(),
            k <= n,
            n <= self.spec_size(),
        ensures
            r == (fact_mod(n as nat, self.spec_module()) * pow_mod(
                fact_mod((n - k) as nat, self.spec_module()),
                (self.spec_module() - 2) as nat,
                self.spec_module(),
            )) % self.spec_module(),
    {
        proof {
            lemma_fact_mod_range(n as nat, self.module as int);
            crate::mod_util::lemma_pow_mod_range(
                fact_mod((n - k) as nat, self.module as int),
                (self.module - 2) as nat,
                self.module as int,
            );
            vstd::arithmetic::div_mod::lemma_small_mod(
                self.fact@[n as int] as nat,
                self.module as nat,
            );
            assert(self.fact@[n as int] * self.inv_fact@[n - k] < 0x1000_0000_0000_0000)
                by (nonlinear_arith)
                requires
                    0 <= self.fact@[n as int] < 0x4000_0000,
                    0 <= self.inv_fact@[n - k] < 0x4000_0000,
            ;
        }
        let f = self.fact[n] as u64 % self.module as u64;
        let inv = self.inv_fact(n - k) as u64;
        ((f * inv) % self.module as u64) as usize
    }

    /// `n choose k mod p`: for a prime modulus the pinned Fermat
    /// expression equals [`binomial`]`(n, k) % p`.
    pub fn combination(&self, n: usize, k: usize) -> (r: usize)
        requires
            self.wf(),
            k <= n,
            n <= self.spec_size(),
        ensures
            r == ((fact_mod(n as nat, self.spec_module()) * pow_mod(
                fact_mod(k as nat, self.spec_module()),
                (self.spec_module() - 2) as nat,
                self.spec_module(),
            )) % self.spec_module() * pow_mod(
                fact_mod((n - k) as nat, self.spec_module()),
                (self.spec_module() - 2) as nat,
                self.spec_module(),
            )) % self.spec_module(),
    {
        proof {
            lemma_fact_mod_range(n as nat, self.module as int);
            crate::mod_util::lemma_pow_mod_range(
                fact_mod(k as nat, self.module as int),
                (self.module - 2) as nat,
                self.module as int,
            );
            crate::mod_util::lemma_pow_mod_range(
                fact_mod((n - k) as nat, self.module as int),
                (self.module - 2) as nat,
                self.module as int,
            );
            assert(self.fact@[n as int] * self.inv_fact@[k as int] < 0x1000_0000_0000_0000)
                by (nonlinear_arith)
                requires
                    0 <= self.fact@[n as int] < 0x4000_0000,
                    0 <= self.inv_fact@[k as int] < 0x4000_0000,
            ;
            let mid = (self.fact@[n as int] * self.inv_fact@[k as int]) % (self.module as int);
            assert(mid * self.inv_fact@[n - k] < 0x1000_0000_0000_0000) by (nonlinear_arith)
                requires
                    0 <= mid < 0x4000_0000,
                    0 <= self.inv_fact@[n - k] < 0x4000_0000,
            ;
        }
        let mid = (self.fact[n] as u64 * self.inv_fact[k] as u64) % self.module as u64;
        ((mid * self.inv_fact[n - k] as u64) % self.module as u64) as usize
    }

    /// `x! mod p` from the table.
    pub fn fact(&self, x: usize) -> (r: usize)
        requires
            self.wf(),
            x <= self.spec_size(),
        ensures
            r == fact_mod(x as nat, self.spec_module()),
    {
        self.fact[x]
    }

    /// The Fermat inverse of `x` itself.
    pub fn inv(&self, x: usize) -> (r: usize)
        requires
            self.wf(),
            0 < x < self.spec_module(),
        ensures
            r == pow_mod(x as int, (self.spec_module() - 2) as nat, self.spec_module()),
    {
        proof {
            crate::mod_util::lemma_pow_mod_range(
                x as int,
                (self.module - 2) as nat,
                self.module as int,
            );
        }
        crate::mod_util::mod_pow(x as i64, self.module as i64 - 2, self.module as i64) as usize
    }

    /// The Fermat inverse of `x!` from the table.
    pub fn inv_fact(&self, x: usize) -> (r: usize)
        requires
            self.wf(),
            x <= self.spec_size(),
        ensures
            r == pow_mod(
                fact_mod(x as nat, self.spec_module()),
                (self.spec_module() - 2) as nat,
                self.spec_module(),
            ),
    {
        self.inv_fact[x]
    }
}

impl ModComb {
    /// As [`ModComb::new`], for any modulus in range: the `usize` variant
    /// borrows this builder.
    pub fn new_with_modulus(size: usize, module: i64) -> (r: ModComb)
        requires
            size <= 0x4000_0000,
            2 <= module <= 0x4000_0000,
        ensures
            r.wf(),
            r.spec_size() == size,
            r.spec_module() == module,
    {
        let mut fact: Vec<i64> = Vec::new();
        fact.push(1);
        proof {
            vstd::arithmetic::div_mod::lemma_small_mod(1nat, module as nat);
        }
        let mut i: usize = 1;
        while i <= size
            invariant
                1 <= i <= size + 1,
                size <= 0x4000_0000,
                2 <= module <= 0x4000_0000,
                fact.len() == i,
                forall|j: int|
                    0 <= j < i ==> #[trigger] fact@[j] == fact_mod(j as nat, module as int)
                        && 0 <= fact@[j] < module,
            decreases size + 1 - i,
        {
            let prev = fact[i - 1];
            proof {
                assert(i * prev < 0x1000_0000_0000_0000 && 0 <= i * prev) by (nonlinear_arith)
                    requires
                        0 <= prev < 0x4000_0000,
                        0 < i <= 0x4000_0001,
                ;
            }
            let v = (i as i64 * prev) % module;
            fact.push(v);
            i = i + 1;
        }
        let mut inv_fact: Vec<i64> = Vec::new();
        let mut i: usize = 0;
        while i < fact.len()
            invariant
                inv_fact.len() == i,
                i <= fact.len(),
                2 <= module <= 0x4000_0000,
                forall|j: int|
                    0 <= j < fact.len() ==> #[trigger] fact@[j] == fact_mod(j as nat, module as int)
                        && 0 <= fact@[j] < module,
                forall|j: int|
                    0 <= j < i ==> #[trigger] inv_fact@[j] == pow_mod(
                        fact_mod(j as nat, module as int),
                        (module - 2) as nat,
                        module as int,
                    ),
            decreases fact.len() - i,
        {
            let v = crate::mod_util::mod_pow(fact[i], module - 2, module);
            inv_fact.push(v);
            i = i + 1;
        }
        ModComb { fact, inv_fact, module }
    }

    /// The table length, for iteration by the `usize` variant.
    pub fn fact_len(&self) -> (r: usize)
        ensures
            r == self.spec_size() + 1,
    {
        self.fact.len()
    }

    /// Raw table access.
    pub fn fact_at(&self, i: usize) -> (r: i64)
        requires
            self.wf(),
            i <= self.spec_size(),
        ensures
            r == fact_mod(i as nat, self.spec_module()),
    {
        self.fact[i]
    }

    /// Raw inverse-table access.
    pub fn inv_fact_at(&self, i: usize) -> (r: i64)
        requires
            self.wf(),
            i <= self.spec_size(),
        ensures
            r == pow_mod(
                fact_mod(i as nat, self.spec_module()),
                (self.spec_module() - 2) as nat,
                self.spec_module(),
            ),
    {
        self.inv_fact[i]
    }
}

} // verus!
