//! Greatest common divisors, the extended Euclidean algorithm, and modular
//! inverses for moduli that need not be prime.

use vstd::prelude::*;

verus! {

/// Euclid's algorithm as a mathematical definition: the common reference
/// point for every exec implementation in this module.
pub open spec fn gcd_rec(a: nat, b: nat) -> nat
    decreases a + b,
{
    if a == 0 {
        b
    } else if b == 0 {
        a
    } else if a < b {
        gcd_rec(a, b % a)
    } else {
        gcd_rec(b, a % b)
    }
}

/// The absolute value of a signed quantity, as mathematics sees it.
pub open spec fn abs_int(a: int) -> nat {
    if a < 0 {
        (-a) as nat
    } else {
        a as nat
    }
}

/// The greatest common divisor, written as a method on the integer types.
pub trait Gcd: Sized {
    type Output;

    /// Which argument pairs the implementation accepts.
    spec fn gcd_req(self, other: Self) -> bool;

    /// The value the implementation promises to return.
    spec fn gcd_spec(self, other: Self) -> Self::Output;

    fn gcd(self, other: Self) -> (r: Self::Output)
        requires
            self.gcd_req(other),
        ensures
            r == self.gcd_spec(other),
    ;
}

fn gcd_u64(a: u64, b: u64) -> (r: u64)
    ensures
        r == gcd_rec(a as nat, b as nat),
    decreases a + b,
{
    if a == 0 {
        b
    } else if b == 0 {
        a
    } else if a < b {
        gcd_u64(a, b % a)
    } else {
        gcd_u64(b, a % b)
    }
}

fn gcd_i64_nonneg(a: i64, b: i64) -> (r: i64)
    requires
        0 <= a,
        0 <= b,
    ensures
        r == gcd_rec(a as nat, b as nat),
        0 <= r,
    decreases a + b,
{
    if a == 0 {
        b
    } else if b == 0 {
        a
    } else if a < b {
        gcd_i64_nonneg(a, b % a)
    } else {
        gcd_i64_nonneg(b, a % b)
    }
}

impl Gcd for u64 {
    type Output = u64;

    open spec fn gcd_req(self, other: u64) -> bool {
        true
    }

    open spec fn gcd_spec(self, other: u64) -> u64 {
        gcd_rec(self as nat, other as nat) as u64
    }

    fn gcd(self, other: u64) -> (r: u64) {
        gcd_u64(self, other)
    }
}

impl Gcd for u32 {
    type Output = u32;

    open spec fn gcd_req(self, other: u32) -> bool {
        true
    }

    open spec fn gcd_spec(self, other: u32) -> u32 {
        gcd_rec(self as nat, other as nat) as u32
    }

    fn gcd(self, other: u32) -> (r: u32) {
        proof {
            lemma_gcd_bound(self as nat, other as nat);
        }
        gcd_u64(self as u64, other as u64) as u32
    }
}

impl Gcd for usize {
    type Output = usize;

    open spec fn gcd_req(self, other: usize) -> bool {
        true
    }

    open spec fn gcd_spec(self, other: usize) -> usize {
        gcd_rec(self as nat, other as nat) as usize
    }

    fn gcd(self, other: usize) -> (r: usize) {
        proof {
            lemma_gcd_bound(self as nat, other as nat);
        }
        gcd_u64(self as u64, other as u64) as usize
    }
}

impl Gcd for i64 {
    type Output = i64;

    open spec fn gcd_req(self, other: i64) -> bool {
        self > i64::MIN && other > i64::MIN
    }

    open spec fn gcd_spec(self, other: i64) -> i64 {
        gcd_rec(abs_int(self as int), abs_int(other as int)) as i64
    }

    fn gcd(self, other: i64) -> (r: i64) {
        let a = if self < 0 {
            -self
        } else {
            self
        };
        let b = if other < 0 {
            -other
        } else {
            other
        };
        gcd_i64_nonneg(a, b)
    }
}

impl Gcd for i32 {
    type Output = i32;

    open spec fn gcd_req(self, other: i32) -> bool {
        self > i32::MIN && other > i32::MIN
    }

    open spec fn gcd_spec(self, other: i32) -> i32 {
        gcd_rec(abs_int(self as int), abs_int(other as int)) as i32
    }

    fn gcd(self, other: i32) -> (r: i32) {
        let a: i64 = if self < 0 {
            -(self as i64)
        } else {
            self as i64
        };
        let b: i64 = if other < 0 {
            -(other as i64)
        } else {
            other as i64
        };
        proof {
            lemma_gcd_bound(a as nat, b as nat);
        }
        gcd_i64_nonneg(a, b) as i32
    }
}

/// The greatest common divisor never exceeds both arguments: it is one of
/// them, or a remainder strictly smaller than either.
pub proof fn lemma_gcd_bound(a: nat, b: nat)
    ensures
        gcd_rec(a, b) <= a || gcd_rec(a, b) <= b,
        a > 0 || b > 0 ==> gcd_rec(a, b) <= a + b,
        gcd_rec(a, b) <= a + b,
    decreases a + b,
{
    if a == 0 || b == 0 {
    } else if a < b {
        lemma_gcd_bound(a, b % a);
    } else {
        lemma_gcd_bound(b, a % b);
    }
}

/// Reducing the first argument modulo the second leaves the greatest
/// common divisor unchanged.
pub proof fn lemma_gcd_mod(a: nat, m: nat)
    requires
        m >= 1,
    ensures
        gcd_rec(a % m, m) == gcd_rec(a, m),
{
    if a < m {
        vstd::arithmetic::div_mod::lemma_small_mod(a, m);
    } else if a % m == 0 {
        assert(gcd_rec(0, m) == m);
        if a < m {
        } else {
            // a >= m >= 1, so gcd_rec(a, m) recurses to gcd_rec(m, a % m).
            assert(gcd_rec(a, m) == gcd_rec(m, a % m));
            assert(gcd_rec(m, 0) == m);
        }
    } else {
        assert(gcd_rec(a, m) == gcd_rec(m, a % m));
        assert(gcd_rec(m, a % m) == gcd_rec(a % m, m % (a % m)));
        assert(gcd_rec(a % m, m) == gcd_rec(a % m, m % (a % m)));
    }
}

/// The recursive Euclid core on nonnegative arguments; the public entry
/// point normalises signs around it.
///
/// The bounds `|x| <= max(1, b)` and `|y| <= max(1, a)` keep every
/// intermediate product inside `i64`.
fn extended_gcd_nonneg(a: i64, b: i64, x: &mut i64, y: &mut i64) -> (d: i64)
    requires
        0 <= a <= 0x3fff_ffff_ffff_ffff,
        0 <= b <= 0x3fff_ffff_ffff_ffff,
    ensures
        d == gcd_rec(a as nat, b as nat),
        a * *final(x) + b * *final(y) == d,
        abs_int(*final(x) as int) <= if b == 0 { 1int } else { b as int },
        abs_int(*final(y) as int) <= if a == 0 { 1int } else { a as int },
        b == 0 ==> *final(x) == 1 && *final(y) == 0,
    decreases b,
{
    if b == 0 {
        *x = 1;
        *y = 0;
        return a;
    }
    let d = extended_gcd_nonneg(b, a % b, y, x);
    let q = a / b;
    proof {
        vstd::arithmetic::div_mod::lemma_fundamental_div_mod(a as int, b as int);
        if a < b {
            vstd::arithmetic::div_mod::lemma_small_mod(a as nat, b as nat);
            assert(gcd_rec(b as nat, a as nat % b as nat) == gcd_rec(a as nat, b as nat));
        } else {
            assert(gcd_rec(b as nat, a as nat % b as nat) == gcd_rec(a as nat, b as nat));
        }
        // |q * x| <= q * b == a - a % b, so the product and the update stay in range.
        assert(-(a as int - a as int % b as int) <= (q as int) * (*x as int)
            <= a as int - a as int % b as int) by (nonlinear_arith)
            requires
                0 <= q as int,
                (b as int) * (q as int) == a as int - a as int % b as int,
                0 <= a as int % b as int,
                -(b as int) <= *x as int <= b as int,
        ;
    }
    let prod = q * *x;
    *y -= prod;
    proof {
        let xx = *x as int;
        let y1 = *y as int;
        let y0 = y1 + prod as int;
        let qq = a as int / b as int;
        let r = a as int % b as int;
        // b * y0 + r * x == d and a == b * q + r give a * x + b * (y0 - q * x) == d.
        assert(a as int * xx + b as int * (y0 - qq * xx) == b as int * y0 + r * xx) by (nonlinear_arith)
            requires
                a as int == b as int * qq + r,
        ;
    }
    d
}

/// Returns `gcd(a, b)` (always nonnegative, the gcd of the absolute
/// values) and writes Bezout coefficients into `x` and `y`, so that
/// `a * x + b * y == gcd(a, b)` holds on return for either sign of `a`
/// and `b`.
///
/// The bounds `|x| <= max(1, |b|)` and `|y| <= max(1, |a|)` keep every
/// intermediate product inside `i64`.
pub fn extended_gcd(a: i64, b: i64, x: &mut i64, y: &mut i64) -> (d: i64)
    requires
        -0x3fff_ffff_ffff_ffff <= a <= 0x3fff_ffff_ffff_ffff,
        -0x3fff_ffff_ffff_ffff <= b <= 0x3fff_ffff_ffff_ffff,
    ensures
        d == gcd_rec(abs_int(a as int), abs_int(b as int)),
        a * *final(x) + b * *final(y) == d,
        abs_int(*final(x) as int) <= if b == 0 { 1int } else { abs_int(b as int) as int },
        abs_int(*final(y) as int) <= if a == 0 { 1int } else { abs_int(a as int) as int },
        b == 0 ==> *final(y) == 0,
{
    let aa = if a < 0 {
        -a
    } else {
        a
    };
    let bb = if b < 0 {
        -b
    } else {
        b
    };
    let d = extended_gcd_nonneg(aa, bb, x, y);
    let ghost x0 = *x as int;
    let ghost y0 = *y as int;
    if a < 0 {
        *x = -*x;
    }
    if b < 0 {
        *y = -*y;
    }
    proof {
        // Flipping a coefficient's sign together with its argument's
        // leaves each Bezout term unchanged.
        assert(a as int * (*x as int) == aa as int * x0 && b as int * (*y as int) == bb as int
            * y0) by (nonlinear_arith)
            requires
                (a >= 0 && a == aa && *x as int == x0) || (a < 0 && aa == -(a as int) && *x as int
                    == -x0),
                (b >= 0 && b == bb && *y as int == y0) || (b < 0 && bb == -(b as int) && *y as int
                    == -y0),
        ;
    }
    d
}

/// The representative of `a` modulo `m` in `[0, m)`, whatever the sign of `a`.
pub fn module(a: i64, m: i64) -> (r: i64)
    requires
        1 <= m <= 0x3fff_ffff_ffff_ffff,
        a > i64::MIN,
    ensures
        0 <= r < m,
        (a - r) % (m as int) == 0,
{
    let mut r = a % m;
    if r < 0 {
        r += m;
    }
    proof {
        let aa = a as int;
        let mm = m as int;
        if aa >= 0 {
            vstd::arithmetic::div_mod::lemma_fundamental_div_mod(aa, mm);
            vstd::arithmetic::div_mod::lemma_mod_multiples_basic(aa / mm, mm);
            assert(aa - r == (aa / mm) * mm);
        } else {
            vstd::arithmetic::div_mod::lemma_fundamental_div_mod(-aa, mm);
            let q = (-aa) / mm;
            let s = (-aa) % mm;
            if s == 0 {
                vstd::arithmetic::div_mod::lemma_mod_multiples_basic(-q, mm);
                assert(aa - r == (-q) * mm) by (nonlinear_arith)
                    requires
                        -aa == mm * q + s,
                        s == 0,
                        r == 0,
                ;
            } else {
                vstd::arithmetic::div_mod::lemma_mod_multiples_basic(-q - 1, mm);
                assert(aa - r == (-q - 1) * mm) by (nonlinear_arith)
                    requires
                        -aa == mm * q + s,
                        0 < s,
                        r == mm - s,
                ;
            }
        }
    }
    r
}

/// The inverse of `a` modulo `m`, for `a` and `m` coprime; `m` need not be
/// prime.
pub fn inv_module(a: i64, m: i64) -> (r: i64)
    requires
        0 <= a <= 0x3fff_ffff_ffff_ffff,
        2 <= m <= 0x3fff_ffff_ffff_ffff,
        gcd_rec(a as nat, m as nat) == 1,
    ensures
        0 <= r < m,
        (a * r) % (m as int) == 1,
{
    let mut x: i64 = 0;
    let mut y: i64 = 0;
    extended_gcd(a, m, &mut x, &mut y);
    let r = module(x, m);
    proof {
        let aa = a as int;
        let mm = m as int;
        let xx = x as int;
        let rr = r as int;
        // a * x == 1 - m * y, and x == r + m * t for some t, so a * r == 1 (mod m).
        vstd::arithmetic::div_mod::lemma_fundamental_div_mod(xx - rr, mm);
        let t = (xx - rr) / mm;
        assert(aa * rr == mm * (-(y as int) - aa * t) + 1) by (nonlinear_arith)
            requires
                aa * xx + mm * (y as int) == 1,
                xx == rr + mm * t,
        ;
        vstd::arithmetic::div_mod::lemma_mod_multiples_vanish(-(y as int) - aa * t, 1, mm);
        vstd::arithmetic::div_mod::lemma_small_mod(1nat, mm as nat);
    }
    r
}


/// The greatest common divisor of two nonnegative machine integers.
pub fn gcd_of(a: i64, b: i64) -> (r: i64)
    requires
        0 <= a,
        0 <= b,
    ensures
        r == gcd_rec(a as nat, b as nat),
        0 <= r,
{
    gcd_i64_nonneg(a, b)
}

/// The greatest common divisor divides both arguments (and is positive
/// when either argument is).
pub proof fn lemma_gcd_divides(a: nat, b: nat)
    requires
        a > 0 || b > 0,
    ensures
        gcd_rec(a, b) > 0,
        a % gcd_rec(a, b) == 0,
        b % gcd_rec(a, b) == 0,
    decreases a + b,
{
    let g = gcd_rec(a, b) as int;
    if a == 0 {
        vstd::arithmetic::div_mod::lemma_mod_self_0(b as int);
        vstd::arithmetic::div_mod::lemma_small_mod(0, b);
    } else if b == 0 {
        vstd::arithmetic::div_mod::lemma_mod_self_0(a as int);
        vstd::arithmetic::div_mod::lemma_small_mod(0, a);
    } else if a < b {
        lemma_gcd_divides(a, b % a);
        lemma_divides_step(b as int, a as int, g);
    } else {
        lemma_gcd_divides(b, a % b);
        lemma_divides_step(a as int, b as int, g);
    }
}

/// If `g` divides `a` and `b % a`, it divides `b` as well.
proof fn lemma_divides_step(b: int, a: int, g: int)
    requires
        a > 0,
        g > 0,
        a % g == 0,
        (b % a) % g == 0,
        b >= 0,
    ensures
        b % g == 0,
{
    vstd::arithmetic::div_mod::lemma_fundamental_div_mod(b, a);
    vstd::arithmetic::div_mod::lemma_fundamental_div_mod(a, g);
    vstd::arithmetic::div_mod::lemma_fundamental_div_mod(b % a, g);
    let q = b / a;
    let k = a / g;
    let t = (b % a) / g;
    assert(b == g * (k * q + t)) by (nonlinear_arith)
        requires
            a == g * k,
            b % a == g * t,
            b == a * q + b % a,
    ;
    vstd::arithmetic::div_mod::lemma_mod_multiples_basic(k * q + t, g);
    vstd::arithmetic::mul::lemma_mul_is_commutative(g, k * q + t);
}

} // verus!
