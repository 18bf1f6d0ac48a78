//! Modular integers over a fixed prime-sized modulus.
//!
//! If the modulus is not prime, division (which goes through Fermat
//! exponentiation) does not yield an inverse; use `mod_util` for inverses
//! under general moduli, and `mod_comb` for combinations and permutations.

use vstd::prelude::*;

verus! {

use crate::mod_util::pow_mod;

/// A compile-time modulus.
pub trait Modulus: Sized {
    /// The modulus, as mathematics sees it.
    spec fn m_spec() -> int;

    /// The modulus is at least two and small enough that products of two
    /// residues fit in an `i64`.
    proof fn m_bounds()
        ensures
            2 <= Self::m_spec() <= 0x4000_0000,
    ;

    fn value() -> (r: u32)
        ensures
            r == Self::m_spec(),
    ;

    /// The (only) value of the marker type, so a `ModInt` can carry it.
    fn marker() -> Self;
}

#[derive(Clone, Copy, Debug, PartialEq, Eq)]
pub struct Mod1000000007;

#[derive(Clone, Copy, Debug, PartialEq, Eq)]
pub struct Mod998244353;

impl Modulus for Mod1000000007 {
    open spec fn m_spec() -> int {
        1000000007
    }

    proof fn m_bounds() {
    }

    fn value() -> u32 {
        1000000007
    }

    fn marker() -> Self {
        Mod1000000007
    }
}

impl Modulus for Mod998244353 {
    open spec fn m_spec() -> int {
        998244353
    }

    proof fn m_bounds() {
    }

    fn value() -> u32 {
        998244353
    }

    fn marker() -> Self {
        Mod998244353
    }
}

/// An integer carried modulo `M`: the value always lies in `[0, M)`.
#[derive(Clone, Copy, Debug, PartialEq, Eq)]
pub struct ModInt<M: Modulus> {
    pub val: i64,
    pub marker: M,
}

pub type ModInt1000000007 = ModInt<Mod1000000007>;

pub type ModInt998244353 = ModInt<Mod998244353>;

impl<M: Modulus> ModInt<M> {
    /// A reduced value.
    pub open spec fn in_range(self) -> bool {
        0 <= self.val < M::m_spec()
    }

    /// `x` reduced into `[0, M)`, whatever its sign.
    pub fn new(x: i64) -> (r: Self)
        requires
            x > i64::MIN,
        ensures
            r.in_range(),
            r.val == (x as int) % M::m_spec(),
    {
        proof {
            M::m_bounds();
        }
        let m = M::value() as i64;
        let v = crate::gcd::module(x, m);
        proof {
            let t = (x - v) / (m as int);
            vstd::arithmetic::div_mod::lemma_fundamental_div_mod(x - v, m as int);
            vstd::arithmetic::div_mod::lemma_fundamental_div_mod_converse(
                x as int,
                m as int,
                t,
                v as int,
            );
        }
        ModInt { val: v, marker: M::marker() }
    }

    /// Addition modulo `M`.
    pub fn add(self, rhs: Self) -> (r: Self)
        requires
            self.in_range(),
            rhs.in_range(),
        ensures
            r.in_range(),
            r.val == (self.val + rhs.val) % M::m_spec(),
    {
        proof {
            M::m_bounds();
        }
        let m = M::value() as i64;
        let s = self.val + rhs.val;
        proof {
            if s >= m {
                vstd::arithmetic::div_mod::lemma_mod_sub_multiples_vanish(s as int, m as int);
                vstd::arithmetic::div_mod::lemma_small_mod((s - m) as nat, m as nat);
            } else {
                vstd::arithmetic::div_mod::lemma_small_mod(s as nat, m as nat);
            }
        }
        let v = if s >= m {
            s - m
        } else {
            s
        };
        ModInt { val: v, marker: M::marker() }
    }

    /// Addition of a plain integer, reduced first.
    pub fn add_val(self, rhs: i64) -> (r: Self)
        requires
            self.in_range(),
            rhs > i64::MIN,
        ensures
            r.in_range(),
            r.val == (self.val + rhs) % M::m_spec(),
    {
        let other = Self::new(rhs);
        let r = self.add(other);
        proof {
            vstd::arithmetic::div_mod::lemma_add_mod_noop_right(
                self.val as int,
                rhs as int,
                M::m_spec(),
            );
        }
        r
    }

    /// Subtraction modulo `M`.
    pub fn sub(self, rhs: Self) -> (r: Self)
        requires
            self.in_range(),
            rhs.in_range(),
        ensures
            r.in_range(),
            r.val == (self.val - rhs.val) % M::m_spec(),
    {
        proof {
            M::m_bounds();
        }
        let m = M::value() as i64;
        let d = self.val - rhs.val;
        proof {
            if d < 0 {
                vstd::arithmetic::div_mod::lemma_mod_add_multiples_vanish(d as int, m as int);
                vstd::arithmetic::div_mod::lemma_small_mod((d + m) as nat, m as nat);
            } else {
                vstd::arithmetic::div_mod::lemma_small_mod(d as nat, m as nat);
            }
        }
        let v = if d < 0 {
            d + m
        } else {
            d
        };
        ModInt { val: v, marker: M::marker() }
    }

    /// Subtraction of a plain integer, reduced first.
    pub fn sub_val(self, rhs: i64) -> (r: Self)
        requires
            self.in_range(),
            rhs > i64::MIN,
        ensures
            r.in_range(),
            r.val == (self.val - rhs) % M::m_spec(),
    {
        let other = Self::new(rhs);
        let r = self.sub(other);
        proof {
            vstd::arithmetic::div_mod::lemma_sub_mod_noop(
                self.val as int,
                rhs as int,
                M::m_spec(),
            );
            vstd::arithmetic::div_mod::lemma_small_mod(self.val as nat, M::m_spec() as nat);
        }
        r
    }

    /// A plain integer minus this value, reduced.
    pub fn sub_from(self, lhs: i64) -> (r: Self)
        requires
            self.in_range(),
            lhs > i64::MIN,
        ensures
            r.in_range(),
            r.val == (lhs - self.val) % M::m_spec(),
    {
        let other = Self::new(lhs);
        let r = other.sub(self);
        proof {
            vstd::arithmetic::div_mod::lemma_sub_mod_noop(
                lhs as int,
                self.val as int,
                M::m_spec(),
            );
            vstd::arithmetic::div_mod::lemma_small_mod(self.val as nat, M::m_spec() as nat);
        }
        r
    }

    /// Multiplication modulo `M`.
    pub fn mul(self, rhs: Self) -> (r: Self)
        requires
            self.in_range(),
            rhs.in_range(),
        ensures
            r.in_range(),
            r.val == (self.val * rhs.val) % M::m_spec(),
    {
        proof {
            M::m_bounds();
            assert(self.val * rhs.val < 0x1000_0000_0000_0000 && 0 <= self.val * rhs.val)
                by (nonlinear_arith)
                requires
                    0 <= self.val < 0x4000_0000,
                    0 <= rhs.val < 0x4000_0000,
            ;
        }
        let m = M::value() as i64;
        let v = (self.val * rhs.val) % m;
        ModInt { val: v, marker: M::marker() }
    }

    /// Multiplication by a plain integer, reduced first.
    pub fn mul_val(self, rhs: i64) -> (r: Self)
        requires
            self.in_range(),
            rhs > i64::MIN,
        ensures
            r.in_range(),
            r.val == (self.val * rhs) % M::m_spec(),
    {
        let other = Self::new(rhs);
        let r = self.mul(other);
        proof {
            vstd::arithmetic::div_mod::lemma_mul_mod_noop_right(
                self.val as int,
                rhs as int,
                M::m_spec(),
            );
        }
        r
    }

    /// `self^e mod M` by binary exponentiation.
    pub fn pow(self, e: usize) -> (r: Self)
        requires
            self.in_range(),
            e <= 0x3fff_ffff_ffff_ffff,
        ensures
            r.in_range(),
            r.val == pow_mod(self.val as int, e as nat, M::m_spec()),
    {
        proof {
            M::m_bounds();
        }
        let m = M::value() as i64;
        let v = crate::mod_util::mod_pow(self.val, e as i64, m);
        ModInt { val: v, marker: M::marker() }
    }

    /// Division through Fermat exponentiation: `self * rhs^(M-2)`.  This
    /// inverts `rhs` only when `M` is prime and `rhs` is nonzero.
    pub fn div(self, rhs: Self) -> (r: Self)
        requires
            self.in_range(),
            rhs.in_range(),
        ensures
            r.in_range(),
            r.val == (self.val * pow_mod(rhs.val as int, (M::m_spec() - 2) as nat, M::m_spec()))
                % M::m_spec(),
    {
        proof {
            M::m_bounds();
        }
        let m = M::value() as i64;
        let p = rhs.pow((m - 2) as usize);
        self.mul(p)
    }

    /// Division by a plain integer, reduced first.
    pub fn div_val(self, rhs: i64) -> (r: Self)
        requires
            self.in_range(),
            rhs > i64::MIN,
        ensures
            r.in_range(),
            r.val == (self.val * pow_mod(rhs as int, (M::m_spec() - 2) as nat, M::m_spec()))
                % M::m_spec(),
    {
        let other = Self::new(rhs);
        let r = self.div(other);
        proof {
            crate::mod_util::lemma_pow_mod_base(rhs as int, (M::m_spec() - 2) as nat, M::m_spec());
        }
        r
    }
}

} // verus!
