//! Double polynomial rolling hashes over two fixed prime moduli, for
//! constant-time substring comparison after linear preprocessing.

use vstd::prelude::*;

verus! {

/// The two moduli.
pub open spec fn rh_mod(i: int) -> int {
    if i == 0 {
        999999937
    } else {
        1000000007
    }
}

/// The two bases.
pub open spec fn rh_base(i: int) -> int {
    if i == 0 {
        9973
    } else {
        10007
    }
}

/// `b^j mod m`.
pub open spec fn rh_pow(b: int, m: int, j: int) -> int
    decreases j,
{
    if j <= 0 {
        1int % m
    } else {
        (rh_pow(b, m, j - 1) * b) % m
    }
}

/// The rolling hash of the first `j` elements:
/// `((...(s[0]) * b + s[1]) * b + ...) * b mod m`.
pub open spec fn rh_pref(s: Seq<u64>, b: int, m: int, j: int) -> int
    decreases j,
{
    if j <= 0 {
        0
    } else {
        ((rh_pref(s, b, m, j - 1) + s[j - 1]) * b) % m
    }
}

/// Prefix hashes and base powers for both moduli: row `i` of each table
/// belongs to modulus `i`, and every entry is reduced.
pub struct RollingHash {
    hash: Vec<Vec<u64>>,
    pow: Vec<Vec<u64>>,
    src: Ghost<Seq<u64>>,
}

impl RollingHash {
    /// Two rows per table, equal lengths, every entry reduced.
    pub closed spec fn wf(&self) -> bool {
        &&& self.hash.len() == 2
        &&& self.pow.len() == 2
        &&& self.hash@[0]@.len() == self.hash@[1]@.len()
        &&& self.pow@[0]@.len() == self.hash@[0]@.len()
        &&& self.pow@[1]@.len() == self.hash@[0]@.len()
        &&& self.hash@[0]@.len() >= 1
        &&& forall|i: int, j: int|
            0 <= i < 2 && 0 <= j < self.hash@[i]@.len() ==> #[trigger] self.hash@[i]@[j]
                < rh_mod(i)
        &&& forall|i: int, j: int|
            0 <= i < 2 && 0 <= j < self.pow@[i]@.len() ==> #[trigger] self.pow@[i]@[j] < rh_mod(i)
        &&& self.src@.len() == self.hash@[0]@.len() - 1
        &&& forall|i: int, j: int|
            0 <= i < 2 && 0 <= j < self.hash@[i]@.len() ==> #[trigger] self.hash@[i]@[j] == rh_pref(
                self.src@,
                rh_base(i),
                rh_mod(i),
                j,
            )
        &&& forall|i: int, j: int|
            0 <= i < 2 && 0 <= j < self.pow@[i]@.len() ==> #[trigger] self.pow@[i]@[j] == rh_pow(
                rh_base(i),
                rh_mod(i),
                j,
            )
    }

    /// The hashed elements.
    pub closed spec fn spec_src(&self) -> Seq<u64> {
        self.src@
    }

    /// The number of hashed elements.
    pub closed spec fn spec_len(&self) -> int {
        self.hash@[0]@.len() - 1
    }

    /// Preprocesses `s` into prefix hashes under both moduli.
    pub fn new(s: &[u64]) -> (r: RollingHash)
        requires
            s@.len() <= 0x1000_0000,
            forall|j: int| 0 <= j < s@.len() ==> #[trigger] s@[j] < 0x1_0000_0000,
        ensures
            r.wf(),
            r.spec_len() == s@.len(),
            r.spec_src() == s@,
    {
        let n = s.len();
        let mut hash: Vec<Vec<u64>> = Vec::new();
        let mut pow: Vec<Vec<u64>> = Vec::new();
        let mut i: usize = 0;
        while i < 2
            invariant
                i <= 2,
                hash.len() == i,
                pow.len() == i,
                n == s@.len(),
                n <= 0x1000_0000,
                forall|j: int| 0 <= j < s@.len() ==> #[trigger] s@[j] < 0x1_0000_0000,
                forall|t: int|
                    0 <= t < i ==> #[trigger] hash@[t]@.len() == n + 1 && pow@[t]@.len() == n + 1,
                forall|t: int, j: int|
                    0 <= t < i && 0 <= j < n + 1 ==> #[trigger] hash@[t]@[j] < rh_mod(t),
                forall|t: int, j: int|
                    0 <= t < i && 0 <= j < n + 1 ==> #[trigger] pow@[t]@[j] < rh_mod(t),
                forall|t: int, j: int|
                    0 <= t < i && 0 <= j < n + 1 ==> #[trigger] hash@[t]@[j] == rh_pref(
                        s@,
                        rh_base(t),
                        rh_mod(t),
                        j,
                    ),
                forall|t: int, j: int|
                    0 <= t < i && 0 <= j < n + 1 ==> #[trigger] pow@[t]@[j] == rh_pow(
                        rh_base(t),
                        rh_mod(t),
                        j,
                    ),
            decreases 2 - i,
        {
            let (m, b): (u64, u64) = if i == 0 {
                (999999937, 9973)
            } else {
                (1000000007, 10007)
            };
            let mut hrow: Vec<u64> = Vec::new();
            let mut prow: Vec<u64> = Vec::new();
            hrow.push(0);
            prow.push(1);
            let mut j: usize = 0;
            while j < n
                invariant
                    j <= n,
                    n == s@.len(),
                    n <= 0x1000_0000,
                    forall|t: int| 0 <= t < s@.len() ==> #[trigger] s@[t] < 0x1_0000_0000,
                    hrow.len() == j + 1,
                    prow.len() == j + 1,
                    2 <= m <= 0x4000_0000,
                    b < m,
                    forall|t: int| 0 <= t < hrow.len() ==> #[trigger] hrow@[t] < m,
                    forall|t: int| 0 <= t < prow.len() ==> #[trigger] prow@[t] < m,
                    forall|t: int|
                        0 <= t < hrow.len() ==> #[trigger] hrow@[t] == rh_pref(
                            s@,
                            b as int,
                            m as int,
                            t,
                        ),
                    forall|t: int|
                        0 <= t < prow.len() ==> #[trigger] prow@[t] == rh_pow(
                            b as int,
                            m as int,
                            t,
                        ),
                decreases n - j,
            {
                let pj = prow[j];
                let hj = hrow[j];
                let sj = s[j];
                proof {
                    assert(pj * b < 0x1000_0000_0000_0000) by (nonlinear_arith)
                        requires
                            pj < 0x4000_0000,
                            b < 0x4000_0000,
                    ;
                    assert((hj + sj) * b < 0x8000_0000_0000_0000 && 0 <= (hj + sj) * b)
                        by (nonlinear_arith)
                        requires
                            hj < 0x4000_0000,
                            sj < 0x1_0000_0000,
                            b < 0x4000_0000,
                    ;
                }
                prow.push((pj * b) % m);
                hrow.push(((hj + sj) * b) % m);
                j = j + 1;
            }
            proof {
                assert(m as int == rh_mod(i as int) && b as int == rh_base(i as int));
            }
            hash.push(hrow);
            pow.push(prow);
            i = i + 1;
        }
        RollingHash { hash, pow, src: Ghost(s@) }
    }

    /// The first-modulus hash of `[l, r)`: the prefix hash at `r` minus
    /// the one at `l` scaled past the gap, reduced.
    pub fn hash1(&self, l: usize, r: usize) -> (res: u64)
        requires
            self.wf(),
            l <= r <= self.spec_len(),
        ensures
            res < rh_mod(0),
            res == (rh_pref(self.spec_src(), rh_base(0), rh_mod(0), r as int) + rh_mod(0) - (
            rh_pref(self.spec_src(), rh_base(0), rh_mod(0), l as int) * rh_pow(
                rh_base(0),
                rh_mod(0),
                r - l,
            )) % rh_mod(0)) % rh_mod(0),
    {
        let m: u64 = 999999937;
        let hr = self.hash[0][r];
        let hl = self.hash[0][l];
        let p = self.pow[0][r - l];
        proof {
            assert(hl * p < 0x1000_0000_0000_0000) by (nonlinear_arith)
                requires
                    hl < 0x4000_0000,
                    p < 0x4000_0000,
            ;
        }
        (hr + m - hl * p % m) % m
    }

    /// The second-modulus hash of `[l, r)`: the prefix hash at `r` minus
    /// the one at `l` scaled past the gap, reduced.
    pub fn hash2(&self, l: usize, r: usize) -> (res: u64)
        requires
            self.wf(),
            l <= r <= self.spec_len(),
        ensures
            res < rh_mod(1),
            res == (rh_pref(self.spec_src(), rh_base(1), rh_mod(1), r as int) + rh_mod(1) - (
            rh_pref(self.spec_src(), rh_base(1), rh_mod(1), l as int) * rh_pow(
                rh_base(1),
                rh_mod(1),
                r - l,
            )) % rh_mod(1)) % rh_mod(1),
    {
        let m: u64 = 1000000007;
        let hr = self.hash[1][r];
        let hl = self.hash[1][l];
        let p = self.pow[1][r - l];
        proof {
            assert(hl * p < 0x1000_0000_0000_0000) by (nonlinear_arith)
                requires
                    hl < 0x4000_0000,
                    p < 0x4000_0000,
            ;
        }
        (hr + m - hl * p % m) % m
    }

    /// The pair of hashes of `[l, r)`.
    pub fn hash(&self, l: usize, r: usize) -> (res: (u64, u64))
        requires
            self.wf(),
            l <= r <= self.spec_len(),
        ensures
            res.0 < rh_mod(0),
            res.1 < rh_mod(1),
    {
        (self.hash1(l, r), self.hash2(l, r))
    }

    /// Do `[l1, r1)` and `[l2, r2)` hash equal under both moduli?
    pub fn equal(&self, l1: usize, r1: usize, l2: usize, r2: usize) -> (res: bool)
        requires
            self.wf(),
            l1 <= r1 <= self.spec_len(),
            l2 <= r2 <= self.spec_len(),
    {
        let a1 = self.hash1(l1, r1);
        let a2 = self.hash1(l2, r2);
        let b1 = self.hash2(l1, r1);
        let b2 = self.hash2(l2, r2);
        a1 == a2 && b1 == b2
    }
}

} // verus!
