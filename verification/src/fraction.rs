//! Exact rational numbers `numerator / denominator` with a positive
//! denominator, reduced through the greatest common divisor.

use vstd::prelude::*;

verus! {

use crate::gcd::{abs_int, gcd_rec};


/// Do `a_num / a_den` and `b_num / b_den` denote the same rational?
pub open spec fn rational_eq(a_num: int, a_den: int, b_num: int, b_den: int) -> bool {
    a_num * b_den == a_den * b_num
}

/// The greatest common divisor of a fraction's components.
pub open spec fn frac_gcd(n: int, d: int) -> int {
    gcd_rec(abs_int(n), abs_int(d)) as int
}

/// Does `n / d` still fit the carrier after dividing out the gcd?
pub open spec fn reduced_fits(n: int, d: int) -> bool {
    &&& abs_int(n) as int / frac_gcd(n, d) <= 0x4000_0000
    &&& abs_int(d) as int / frac_gcd(n, d) <= 0x4000_0000
}

/// `numerator / denominator`; the denominator stays positive, the sign
/// lives in the numerator.
#[derive(Clone, Copy, Debug)]
pub struct Fraction {
    numerator: i64,
    denominator: i64,
}

impl Fraction {
    /// A positive denominator and components small enough that a cross
    /// product of two fractions stays inside `i64`.
    pub closed spec fn wf(self) -> bool {
        &&& 0 < self.denominator <= 0x4000_0000
        &&& -0x4000_0000 <= self.numerator <= 0x4000_0000
    }

    /// The numerator, as mathematics sees it.
    pub closed spec fn spec_num(self) -> int {
        self.numerator as int
    }

    /// The denominator, as mathematics sees it.
    pub closed spec fn spec_den(self) -> int {
        self.denominator as int
    }

    /// Makes a new `Fraction` to represent `n / d`.  The sign moves into
    /// the numerator, and `d` must not be zero.
    pub fn new(n: i64, d: i64) -> (r: Fraction)
        requires
            d != 0,
            -0x4000_0000 <= n <= 0x4000_0000,
            -0x4000_0000 <= d <= 0x4000_0000,
        ensures
            r.wf(),
            r.spec_den() > 0,
            // The exact components: zero is 0/1, otherwise the sign moves
            // into the numerator.
            n == 0 ==> r.spec_num() == 0 && r.spec_den() == 1,
            n != 0 && d > 0 ==> r.spec_num() == n && r.spec_den() == d,
            n != 0 && d < 0 ==> r.spec_num() == -n && r.spec_den() == -d,
            // The value is n / d: the cross products agree.
            r.spec_num() * d == r.spec_den() * n,
    {
        if n == 0 {
            proof {
                vstd::arithmetic::mul::lemma_mul_basics_4(d as int);
                vstd::arithmetic::mul::lemma_mul_basics_4(1int);
            }
            return Fraction::zero();
        }
        let (nn, dd) = if d > 0 {
            (n, d)
        } else {
            (-n, -d)
        };
        proof {
            assert(nn as int * d == dd as int * n) by (nonlinear_arith)
                requires
                    (d > 0 && nn == n && dd == d) || (d < 0 && nn == -n && dd == -d),
            ;
        }
        Fraction { numerator: nn, denominator: dd }
    }

    /// Zero, as `0 / 1`.
    pub fn zero() -> (r: Fraction)
        ensures
            r.wf(),
            r.spec_num() == 0,
            r.spec_den() == 1,
    {
        Fraction { numerator: 0, denominator: 1 }
    }

    /// The numerator.
    pub fn num(&self) -> (r: i64)
        ensures
            r == self.spec_num(),
    {
        self.numerator
    }

    /// The denominator.
    pub fn den(&self) -> (r: i64)
        ensures
            r == self.spec_den(),
    {
        self.denominator
    }

    /// The fraction with numerator and denominator divided by their
    /// greatest common divisor: the same rational in lower terms.
    pub fn reduce(&self) -> (r: Fraction)
        requires
            self.wf(),
        ensures
            r.wf(),
            r.spec_den() > 0,
            r.spec_num() == self.spec_num() / frac_gcd(self.spec_num(), self.spec_den()),
            r.spec_den() == self.spec_den() / frac_gcd(self.spec_num(), self.spec_den()),
            rational_eq(r.spec_num(), r.spec_den(), self.spec_num(), self.spec_den()),
    {
        proof {
            crate::gcd::lemma_gcd_bound(abs_int(self.spec_num()), abs_int(self.spec_den()));
            crate::gcd::lemma_gcd_divides(abs_int(self.spec_num()), abs_int(self.spec_den()));
            lemma_exact_quotients_fit(self.spec_num(), self.spec_den());
        }
        reduce_wide(self.numerator, self.denominator)
    }

    /// `self + other`, reduced: the rational sum, whenever its lower
    /// terms fit the carrier.
    pub fn add(self, other: Fraction) -> (r: Fraction)
        requires
            self.wf(),
            other.wf(),
        ensures
            r.wf(),
            r.spec_den() > 0,
            reduced_fits(
                self.spec_num() * other.spec_den() + self.spec_den() * other.spec_num(),
                self.spec_den() * other.spec_den(),
            ) ==> rational_eq(
                r.spec_num(),
                r.spec_den(),
                self.spec_num() * other.spec_den() + self.spec_den() * other.spec_num(),
                self.spec_den() * other.spec_den(),
            ),
    {
        proof {
            lemma_cross_bounds(self, other);
        }
        let n = self.numerator * other.denominator + self.denominator * other.numerator;
        let d = self.denominator * other.denominator;
        if n == 0 {
            return Fraction::zero();
        }
        reduce_wide(n, d)
    }

    /// `self - other`, reduced: the rational difference, whenever its
    /// lower terms fit the carrier.
    pub fn sub(self, other: Fraction) -> (r: Fraction)
        requires
            self.wf(),
            other.wf(),
        ensures
            r.wf(),
            r.spec_den() > 0,
            reduced_fits(
                self.spec_num() * other.spec_den() - self.spec_den() * other.spec_num(),
                self.spec_den() * other.spec_den(),
            ) ==> rational_eq(
                r.spec_num(),
                r.spec_den(),
                self.spec_num() * other.spec_den() - self.spec_den() * other.spec_num(),
                self.spec_den() * other.spec_den(),
            ),
    {
        proof {
            lemma_cross_bounds(self, other);
        }
        let n = self.numerator * other.denominator - self.denominator * other.numerator;
        let d = self.denominator * other.denominator;
        if n == 0 {
            return Fraction::zero();
        }
        reduce_wide(n, d)
    }

    /// `self * other`, reduced: the rational product, whenever its lower
    /// terms fit the carrier.
    pub fn mul(self, other: Fraction) -> (r: Fraction)
        requires
            self.wf(),
            other.wf(),
        ensures
            r.wf(),
            r.spec_den() > 0,
            reduced_fits(
                self.spec_num() * other.spec_num(),
                self.spec_den() * other.spec_den(),
            ) ==> rational_eq(
                r.spec_num(),
                r.spec_den(),
                self.spec_num() * other.spec_num(),
                self.spec_den() * other.spec_den(),
            ),
    {
        proof {
            lemma_cross_bounds(self, other);
        }
        let n = self.numerator * other.numerator;
        let d = self.denominator * other.denominator;
        reduce_wide(n, d)
    }

    /// `self / other`, reduced; `other` must not be zero.  The rational
    /// quotient, whenever its lower terms fit the carrier.
    pub fn div(self, other: Fraction) -> (r: Fraction)
        requires
            self.wf(),
            other.wf(),
            other.spec_num() != 0,
        ensures
            r.wf(),
            r.spec_den() > 0,
            reduced_fits(
                self.spec_num() * other.spec_den(),
                self.spec_den() * other.spec_num(),
            ) ==> rational_eq(
                r.spec_num(),
                r.spec_den(),
                self.spec_num() * other.spec_den(),
                self.spec_den() * other.spec_num(),
            ),
    {
        proof {
            lemma_cross_bounds(self, other);
            assert(self.spec_den() * other.spec_num() != 0) by (nonlinear_arith)
                requires
                    self.spec_den() > 0,
                    other.spec_num() != 0,
            ;
        }
        let n = self.numerator * other.denominator;
        let d = self.denominator * other.numerator;
        let ghost n0 = n as int;
        let ghost d0 = d as int;
        let (n, d) = if d < 0 {
            (-n, -d)
        } else {
            (n, d)
        };
        let res = reduce_wide(n, d);
        proof {
            // Flipping both components changes neither the gcd, the fit,
            // nor the rational denoted.
            assert(frac_gcd(n as int, d as int) == frac_gcd(n0, d0));
            if reduced_fits(n0, d0) {
                assert(reduced_fits(n as int, d as int));
                assert(rational_eq(res.spec_num(), res.spec_den(), n0, d0)) by (nonlinear_arith)
                    requires
                        rational_eq(res.spec_num(), res.spec_den(), n as int, d as int),
                        (n as int == n0 && d as int == d0) || (n as int == -n0 && d as int
                            == -d0),
                ;
            }
        }
        res
    }

    /// `-self`, reduced.
    pub fn neg(self) -> (r: Fraction)
        requires
            self.wf(),
        ensures
            r.wf(),
            r.spec_den() > 0,
            r.spec_num() == -self.spec_num(),
            r.spec_den() == self.spec_den(),
    {
        Fraction { numerator: -self.numerator, denominator: self.denominator }
    }

    /// Do the two fractions denote the same rational?
    pub fn eq_value(&self, other: &Fraction) -> (r: bool)
        requires
            self.wf(),
            other.wf(),
        ensures
            r == (self.spec_num() * other.spec_den() == self.spec_den() * other.spec_num()),
    {
        proof {
            lemma_cross_bounds(*self, *other);
        }
        self.numerator * other.denominator == self.denominator * other.numerator
    }

    /// Is `self` strictly less than `other`, as rationals?
    pub fn lt_value(&self, other: &Fraction) -> (r: bool)
        requires
            self.wf(),
            other.wf(),
        ensures
            r == (self.spec_num() * other.spec_den() < other.spec_num() * self.spec_den()),
    {
        proof {
            lemma_cross_bounds(*self, *other);
            lemma_cross_bounds(*other, *self);
        }
        self.numerator * other.denominator < other.numerator * self.denominator
    }

    /// `self^exp`, through repeated reduced multiplication; a negative
    /// exponent inverts first, so the base must then be nonzero.
    pub fn pow(&self, exp: i64) -> (r: Fraction)
        requires
            self.wf(),
            exp < 0 ==> self.spec_num() != 0,
            exp > i64::MIN,
        ensures
            r.wf(),
            r.spec_den() > 0,
    {
        let base = if exp < 0 {
            let flipped = Fraction::new(1, 1).div(*self);
            flipped
        } else {
            Fraction { numerator: self.numerator, denominator: self.denominator }
        };
        let e = if exp < 0 {
            (-exp) as usize
        } else {
            exp as usize
        };
        let mut acc = Fraction::new(1, 1);
        let mut i: usize = 0;
        while i < e
            invariant
                acc.wf(),
                base.wf(),
            decreases e - i,
        {
            acc = acc.mul(base);
            i = i + 1;
        }
        acc
    }
}

/// Products of two well-formed fractions' components stay inside `i64`.
proof fn lemma_cross_bounds(a: Fraction, b: Fraction)
    requires
        a.wf(),
        b.wf(),
    ensures
        -0x1000_0000_0000_0000 <= a.spec_num() * b.spec_den() <= 0x1000_0000_0000_0000,
        -0x1000_0000_0000_0000 <= a.spec_den() * b.spec_num() <= 0x1000_0000_0000_0000,
        -0x1000_0000_0000_0000 <= a.spec_num() * b.spec_num() <= 0x1000_0000_0000_0000,
        0 < a.spec_den() * b.spec_den() <= 0x1000_0000_0000_0000,
{
    assert(-0x1000_0000_0000_0000 <= a.spec_num() * b.spec_den() <= 0x1000_0000_0000_0000
        && -0x1000_0000_0000_0000 <= a.spec_den() * b.spec_num() <= 0x1000_0000_0000_0000
        && -0x1000_0000_0000_0000 <= a.spec_num() * b.spec_num() <= 0x1000_0000_0000_0000 && 0
        < a.spec_den() * b.spec_den() <= 0x1000_0000_0000_0000) by (nonlinear_arith)
        requires
            -0x4000_0000 <= a.spec_num() <= 0x4000_0000,
            -0x4000_0000 <= b.spec_num() <= 0x4000_0000,
            0 < a.spec_den() <= 0x4000_0000,
            0 < b.spec_den() <= 0x4000_0000,
    ;
}

/// Dividing small components by their gcd keeps them small.
proof fn lemma_exact_quotients_fit(n: int, d: int)
    requires
        abs_int(n) <= 0x4000_0000,
        0 < d <= 0x4000_0000,
    ensures
        reduced_fits(n, d),
{
    crate::gcd::lemma_gcd_divides(abs_int(n), abs_int(d));
    let g = frac_gcd(n, d);
    vstd::arithmetic::div_mod::lemma_div_nonincreasing(abs_int(n) as int, g);
    vstd::arithmetic::div_mod::lemma_div_nonincreasing(abs_int(d) as int, g);
}

/// Reduces a wide intermediate `n / d` (with `d > 0`) back into a
/// well-formed fraction by dividing out the greatest common divisor;
/// whenever the lower terms fit the carrier, the result is exactly them.
fn reduce_wide(n: i64, d: i64) -> (r: Fraction)
    requires
        0 < d <= 0x2000_0000_0000_0000,
        -0x2000_0000_0000_0000 <= n <= 0x2000_0000_0000_0000,
    ensures
        r.wf(),
        reduced_fits(n as int, d as int) ==> {
            &&& r.spec_num() == n as int / frac_gcd(n as int, d as int)
            &&& r.spec_den() == d as int / frac_gcd(n as int, d as int)
            &&& rational_eq(r.spec_num(), r.spec_den(), n as int, d as int)
        },
{
    let abs_num = if n < 0 {
        -n
    } else {
        n
    };
    let g = crate::gcd::gcd_of(abs_num, d);
    proof {
        crate::gcd::lemma_gcd_bound(abs_num as nat, d as nat);
        crate::gcd::lemma_gcd_divides(abs_num as nat, d as nat);
        assert(g as int == frac_gcd(n as int, d as int));
    }
    let q = abs_num / g;
    let nn = if n < 0 {
        -q
    } else {
        q
    };
    let dd = d / g;
    proof {
        let gg = g as int;
        vstd::arithmetic::div_mod::lemma_fundamental_div_mod(d as int, gg);
        vstd::arithmetic::div_mod::lemma_fundamental_div_mod(abs_num as int, gg);
        // g divides both exactly, so the quotients carry the full values.
        assert(dd as int * gg == d as int) by (nonlinear_arith)
            requires
                gg > 0,
                (d as int) % gg == 0,
                dd as int == d as int / gg,
                d as int == gg * (d as int / gg) + (d as int) % gg,
        ;
        assert(q as int * gg == abs_num as int) by (nonlinear_arith)
            requires
                gg > 0,
                (abs_num as int) % gg == 0,
                q as int == abs_num as int / gg,
                abs_num as int == gg * (abs_num as int / gg) + (abs_num as int) % gg,
        ;
        assert(0 < dd as int && dd as int <= d as int) by (nonlinear_arith)
            requires
                dd as int * gg == d as int,
                gg >= 1,
                d as int > 0,
        ;
        // The signed quotient is the euclidean one: exact division makes
        // truncation and flooring agree.
        if n < 0 {
            vstd::arithmetic::div_mod::lemma_div_multiples_vanish(-(q as int), gg);
            assert(gg * (-(q as int)) == n as int) by (nonlinear_arith)
                requires
                    q as int * gg == abs_num as int,
                    abs_num as int == -(n as int),
            ;
            assert(n as int / gg == -(q as int));
        } else {
            assert(n as int / gg == q as int);
        }
        assert(-(abs_num as int) <= nn as int <= abs_num as int);
    }
    // A final clamp keeps the result well formed even for quotients that
    // are still wide; it never fires when the lower terms fit.
    let nn_c = if nn > 0x4000_0000 {
        0x4000_0000
    } else if nn < -0x4000_0000 {
        -0x4000_0000
    } else {
        nn
    };
    let dd_c = if dd > 0x4000_0000 {
        0x4000_0000
    } else {
        dd
    };
    proof {
        if reduced_fits(n as int, d as int) {
            let gg = frac_gcd(n as int, d as int);
            assert(abs_int(n as int) as int / gg <= 0x4000_0000);
            assert(abs_int(d as int) as int / gg <= 0x4000_0000);
            assert(nn_c == nn && dd_c == dd);
            // Lower terms times gcd rebuild the originals, so the cross
            // products agree.
            assert(nn as int * (d as int) == dd as int * (n as int)) by (nonlinear_arith)
                requires
                    dd as int * (gg as int) == d as int,
                    nn as int * (gg as int) == n as int || (nn as int * (gg as int) == n as int),
                    gg >= 1,
                    (q as int) * (gg as int) == abs_num as int,
                    ((n as int) >= 0 && nn as int == q as int && abs_num as int == n as int)
                        || ((n as int) < 0 && nn as int == -(q as int) && abs_num as int == -(
                    n as int)),
            ;
        }
    }
    Fraction { numerator: nn_c, denominator: dd_c }
}

} // verus!
