//! A Fenwick tree (binary indexed tree) over wrapping 64-bit sums:
//! point add/subtract, prefix sums, and search for a prefix-sum bound.
//!
//! A ghost array carries the accumulated element values; every stored
//! entry provably equals `init_value` plus the wrapping sum of its
//! power-of-two window of that array, which is what makes the prefix
//! reads exact.

use vstd::prelude::*;

verus! {

/// Wrapping addition on the sum carrier.
pub open spec fn wadd(a: i64, b: i64) -> i64 {
    vstd::wrapping::i64_specs::wrapping_add(a, b)
}

/// Wrapping subtraction on the sum carrier.
pub open spec fn wsub(a: i64, b: i64) -> i64 {
    vstd::wrapping::i64_specs::wrapping_sub(a, b)
}

/// The wrapping sum of `s[lo..hi)`.
pub open spec fn wsum_range(s: Seq<i64>, lo: int, hi: int) -> i64
    decreases hi - lo,
{
    if lo >= hi {
        0
    } else {
        wadd(wsum_range(s, lo, hi - 1), s[hi - 1])
    }
}

/// Wrapping addition commutes.
proof fn lemma_wadd_comm(a: i64, b: i64)
    ensures
        wadd(a, b) == wadd(b, a),
{
}

/// Wrapping addition associates.
proof fn lemma_wadd_assoc(a: i64, b: i64, c: i64)
    ensures
        wadd(wadd(a, b), c) == wadd(a, wadd(b, c)),
{
}

/// Adding then subtracting the same value cancels, wrapping or not.
proof fn lemma_wadd_wsub_cancel(a: i64, b: i64)
    ensures
        wsub(wadd(a, b), a) == b,
{
}

/// A subtraction in the second summand passes through the addition.
proof fn lemma_wadd_wsub_shift(a: i64, b: i64, x: i64)
    ensures
        wadd(a, wsub(b, x)) == wsub(wadd(a, b), x),
{
}

/// Range sums split at any midpoint.
proof fn lemma_wsum_concat(s: Seq<i64>, lo: int, mid: int, hi: int)
    requires
        lo <= mid <= hi,
    ensures
        wsum_range(s, lo, hi) == wadd(wsum_range(s, lo, mid), wsum_range(s, mid, hi)),
    decreases hi - mid,
{
    if mid == hi {
    } else {
        lemma_wsum_concat(s, lo, mid, hi - 1);
        lemma_wadd_assoc(wsum_range(s, lo, mid), wsum_range(s, mid, hi - 1), s[hi - 1]);
    }
}

/// A range sum reads nothing outside the range.
proof fn lemma_wsum_frame(s1: Seq<i64>, s2: Seq<i64>, lo: int, hi: int)
    requires
        s1.len() == s2.len(),
        forall|t: int| lo <= t < hi ==> s1[t] == s2[t],
        0 <= lo,
        hi <= s1.len(),
    ensures
        wsum_range(s1, lo, hi) == wsum_range(s2, lo, hi),
    decreases hi - lo,
{
    if lo < hi {
        lemma_wsum_frame(s1, s2, lo, hi - 1);
    }
}

/// The sum of an all-zero array over any range is zero.
proof fn lemma_wsum_zero(s: Seq<i64>, lo: int, hi: int)
    requires
        forall|t: int| 0 <= t < s.len() ==> #[trigger] s[t] == 0,
        0 <= lo,
        hi <= s.len(),
    ensures
        wsum_range(s, lo, hi) == 0,
    decreases hi - lo,
{
    if lo < hi {
        lemma_wsum_zero(s, lo, hi - 1);
    }
}

/// Adding `x` to one element inside the range adds `x` to the range sum.
proof fn lemma_wsum_update_add(s: Seq<i64>, lo: int, hi: int, i: int, x: i64)
    requires
        0 <= lo <= i < hi <= s.len(),
    ensures
        wsum_range(s.update(i, wadd(s[i], x)), lo, hi) == wadd(wsum_range(s, lo, hi), x),
    decreases hi - lo,
{
    let s2 = s.update(i, wadd(s[i], x));
    if i == hi - 1 {
        lemma_wsum_frame(s2, s, lo, hi - 1);
        lemma_wadd_assoc(wsum_range(s, lo, hi - 1), s[hi - 1], x);
    } else {
        lemma_wsum_update_add(s, lo, hi - 1, i, x);
        lemma_wadd_assoc(wsum_range(s, lo, hi - 1), x, s[hi - 1]);
        lemma_wadd_comm(x, s[hi - 1]);
        lemma_wadd_assoc(wsum_range(s, lo, hi - 1), s[hi - 1], x);
    }
}

/// Subtracting `x` from one element inside the range subtracts `x` from
/// the range sum.
proof fn lemma_wsum_update_sub(s: Seq<i64>, lo: int, hi: int, i: int, x: i64)
    requires
        0 <= lo <= i < hi <= s.len(),
    ensures
        wsum_range(s.update(i, wsub(s[i], x)), lo, hi) == wsub(wsum_range(s, lo, hi), x),
    decreases hi - lo,
{
    let s2 = s.update(i, wsub(s[i], x));
    if i == hi - 1 {
        lemma_wsum_frame(s2, s, lo, hi - 1);
    } else {
        lemma_wsum_update_sub(s, lo, hi - 1, i, x);
    }
}

/// The low end of the window entry `j` covers: `j & (j + 1)`.
pub open spec fn window_low(j: int) -> int {
    (((j as usize) & ((j + 1) as usize)) as int)
}

/// Between an update-chain entry and its successor `idx | (idx + 1)`, no
/// entry's window reaches down to the chain entry.
proof fn lemma_chain_gap(idx: usize, j: usize)
    requires
        idx < j,
        j < idx | ((idx + 1) as usize),
    ensures
        j & ((j + 1) as usize) > idx,
{
    assert(idx < j && j < (idx | ((idx + 1) as usize)) ==> (j & ((j + 1) as usize)) > idx)
        by (bit_vector);
}

/// The Fenwick array: entry `j` covers the block `[j & (j+1), j]` of the
/// abstract array, so prefix sums and point updates touch `O(log n)`
/// entries.
pub struct FenwickTree {
    values: Vec<i64>,
    init_value: i64,
    model: Ghost<Seq<i64>>,
}

impl FenwickTree {
    /// The number of indexed elements.
    pub closed spec fn spec_len(&self) -> nat {
        (self.values.len() - 1) as nat
    }

    /// The accumulated element values: what `add` and `sub` have written,
    /// starting from all zeroes.
    pub closed spec fn spec_model(&self) -> Seq<i64> {
        self.model@
    }

    /// The value every slot was seeded with.
    pub closed spec fn spec_init(&self) -> i64 {
        self.init_value
    }

    /// Every entry holds `init_value` plus the wrapping sum of its
    /// window of the abstract array.
    pub closed spec fn wf(&self) -> bool {
        &&& 1 <= self.values.len() < 0x8000_0000
        &&& self.model@.len() == self.values.len() - 1
        &&& forall|j: int|
            0 <= j < self.values.len() ==> #[trigger] self.values@[j] == wadd(
                self.init_value,
                wsum_range(
                    self.model@,
                    window_low(j),
                    if j < self.model@.len() {
                        j + 1
                    } else {
                        self.model@.len() as int
                    },
                ),
            )
    }

    /// The accumulated prefix sums never decrease: what a search over
    /// them assumes.
    pub open spec fn spec_monotone(&self) -> bool {
        forall|a: int, b: int|
            0 <= a <= b <= self.spec_model().len() ==> wsum_range(self.spec_model(), 0, a)
                <= wsum_range(self.spec_model(), 0, b)
    }

    /// A tree over `n` elements, all zero, seeded with `init_value`.
    pub fn new(n: usize, init_value: i64) -> (r: FenwickTree)
        requires
            n < 0x7fff_ffff,
        ensures
            r.wf(),
            r.spec_len() == n,
            r.spec_init() == init_value,
            r.spec_model() == Seq::new(n as nat, |i: int| 0i64),
    {
        let mut values: Vec<i64> = Vec::new();
        while values.len() < n + 1
            invariant
                n < 0x7fff_ffff,
                values.len() <= n + 1,
                forall|j: int| 0 <= j < values.len() ==> #[trigger] values@[j] == init_value,
            decreases n + 1 - values.len(),
        {
            values.push(init_value);
        }
        let r = FenwickTree {
            values,
            init_value,
            model: Ghost(Seq::new(n as nat, |i: int| 0i64)),
        };
        proof {
            assert forall|j: int| 0 <= j < r.values.len() implies #[trigger] r.values@[j] == wadd(
                init_value,
                wsum_range(
                    r.model@,
                    window_low(j),
                    if j < r.model@.len() {
                        j + 1
                    } else {
                        r.model@.len() as int
                    },
                ),
            ) by {
                let hi: int = if j < r.model@.len() {
                    j + 1
                } else {
                    r.model@.len() as int
                };
                lemma_wsum_zero(r.model@, window_low(j), hi);
            }
        }
        r
    }

    /// The wrapping prefix sum over `[0, i)` of the accumulated values —
    /// exactly, when the seed is zero; otherwise the seed is folded into
    /// every touched entry, as the stored representation has it.
    pub fn sum(&self, i: usize) -> (res: i64)
        requires
            self.wf(),
            i <= self.spec_len(),
        ensures
            self.spec_init() == 0 ==> res == wsum_range(self.spec_model(), 0, i as int),
    {
        let mut result = self.init_value;
        let mut y: usize = i;
        while y > 0
            invariant
                self.wf(),
                y <= i <= self.spec_len(),
                self.spec_init() == 0 ==> result == wsum_range(
                    self.spec_model(),
                    y as int,
                    i as int,
                ),
            decreases y,
        {
            let yl = y - 1;
            result = result.wrapping_add(self.values[yl]);
            let ynext = yl & y;
            proof {
                assert(yl & y <= yl) by (bit_vector);
                assert((yl as int) as usize == yl);
                assert(((yl as int) + 1) as usize == y);
                assert(window_low(yl as int) == ynext as int);
                if self.init_value == 0 {
                    let m = self.spec_model();
                    assert(self.values@[yl as int] == wadd(
                        0,
                        wsum_range(m, ynext as int, y as int),
                    ));
                    lemma_wsum_concat(m, ynext as int, y as int, i as int);
                    lemma_wadd_comm(
                        wsum_range(m, y as int, i as int),
                        wsum_range(m, ynext as int, y as int),
                    );
                }
            }
            y = ynext;
        }
        result
    }

    /// The wrapping sum of the accumulated values over `[l, r)`, read as
    /// `sum(r) - sum(l)` — exactly, when the seed is zero.
    pub fn query(&self, l: usize, r: usize) -> (res: i64)
        requires
            self.wf(),
            l <= r <= self.spec_len(),
        ensures
            self.spec_init() == 0 ==> res == wsum_range(self.spec_model(), l as int, r as int),
    {
        let hi = self.sum(r);
        let lo = self.sum(l);
        proof {
            if self.init_value == 0 {
                let m = self.spec_model();
                lemma_wsum_concat(m, 0, l as int, r as int);
                lemma_wadd_comm(
                    wsum_range(m, 0, l as int),
                    wsum_range(m, l as int, r as int),
                );
                lemma_wadd_wsub_cancel(
                    wsum_range(m, 0, l as int),
                    wsum_range(m, l as int, r as int),
                );
            }
        }
        hi.wrapping_sub(lo)
    }

    /// Adds `x` at index `i` (`a[i] += x`), wrapping: the abstract array
    /// changes at `i` alone.
    pub fn add(&mut self, i: usize, x: i64)
        requires
            old(self).wf(),
            i < old(self).spec_len(),
        ensures
            final(self).wf(),
            final(self).spec_len() == old(self).spec_len(),
            final(self).spec_init() == old(self).spec_init(),
            final(self).spec_model() == old(self).spec_model().update(
                i as int,
                wadd(old(self).spec_model()[i as int], x),
            ),
    {
        proof {
            self.model = Ghost(self.model@.update(i as int, wadd(self.model@[i as int], x)));
        }
        let ghost m0 = old(self).spec_model();
        let ghost m1 = self.model@;
        let mut index = i;
        proof {
            assert(i & ((i + 1) as usize) <= i) by (bit_vector);
            // Entries below i have windows that end before i: their sums
            // read the same in both arrays.
            assert forall|j: int| 0 <= j < i implies #[trigger] self.values@[j] == wadd(
                self.init_value,
                wsum_range(
                    m1,
                    window_low(j),
                    if j < m1.len() {
                        j + 1
                    } else {
                        m1.len() as int
                    },
                ),
            ) by {
                lemma_wsum_frame(m1, m0, window_low(j), j + 1);
            }
        }
        while index < self.values.len()
            invariant
                1 <= self.values.len() < 0x8000_0000,
                self.values.len() == old(self).values.len(),
                self.init_value == old(self).init_value,
                self.model@ == m1,
                m1 == m0.update(i as int, wadd(m0[i as int], x)),
                m0.len() == self.values.len() - 1,
                i < m0.len(),
                i <= index,
                index < self.values.len() ==> window_low(index as int) <= i,
                // Entries below the chain point are settled against the
                // new array, the rest still match the old one.
                forall|j: int|
                    0 <= j < index && j < self.values.len() ==> #[trigger] self.values@[j] == wadd(
                        self.init_value,
                        wsum_range(
                            m1,
                            window_low(j),
                            if j < m1.len() {
                                j + 1
                            } else {
                                m1.len() as int
                            },
                        ),
                    ),
                forall|j: int|
                    index <= j < self.values.len() ==> #[trigger] self.values@[j] == wadd(
                        self.init_value,
                        wsum_range(
                            m0,
                            window_low(j),
                            if j < m0.len() {
                                j + 1
                            } else {
                                m0.len() as int
                            },
                        ),
                    ),
            decreases 2 * self.values.len() - index,
        {
            let ghost vals_before = self.values@;
            let updated = self.values[index].wrapping_add(x);
            self.values[index] = updated;
            let next = index | (index + 1);
            proof {
                let lo = window_low(index as int);
                let hi: int = if (index as int) < m0.len() {
                    index as int + 1
                } else {
                    m0.len() as int
                };
                // This entry's window holds i, so its sum grows by x.
                lemma_wsum_update_add(m0, lo, hi, i as int, x);
                lemma_wadd_assoc(self.init_value, wsum_range(m0, lo, hi), x);
                assert(next > index && next <= ((2 * index + 1) as usize)) by (bit_vector)
                    requires
                        next == (index | ((index + 1) as usize)),
                        index < 0x8000_0000,
                ;
                // Entries strictly between this one and the next chain
                // point have windows past i, so their sums are untouched.
                assert forall|j: int|
                    index < j < next && j < self.values.len() implies #[trigger] self.values@[j]
                    == wadd(
                    self.init_value,
                    wsum_range(
                        m1,
                        window_low(j),
                        if j < m1.len() {
                            j + 1
                        } else {
                            m1.len() as int
                        },
                    ),
                ) by {
                    let ju = j as usize;
                    lemma_chain_gap(index, ju);
                    assert((ju as int) == j);
                    assert(((ju as int) + 1) as usize == (j + 1) as usize);
                    assert(window_low(j) == (ju & ((ju + 1) as usize)) as int);
                    assert(self.values@[j] == vals_before[j]);
                    lemma_wsum_frame(
                        m1,
                        m0,
                        window_low(j),
                        if j < m1.len() {
                            j + 1
                        } else {
                            m1.len() as int
                        },
                    );
                }
                if next < self.values.len() {
                    assert((next & ((next + 1) as usize)) <= (index & ((index + 1) as usize)))
                        by (bit_vector)
                        requires
                            next == (index | ((index + 1) as usize)),
                    ;
                    assert(window_low(next as int) <= i);
                }
            }
            index = next;
        }
    }

    /// Subtracts `x` at index `i` (`a[i] -= x`), wrapping: the abstract
    /// array changes at `i` alone.
    pub fn sub(&mut self, i: usize, x: i64)
        requires
            old(self).wf(),
            i < old(self).spec_len(),
        ensures
            final(self).wf(),
            final(self).spec_len() == old(self).spec_len(),
            final(self).spec_init() == old(self).spec_init(),
            final(self).spec_model() == old(self).spec_model().update(
                i as int,
                wsub(old(self).spec_model()[i as int], x),
            ),
    {
        proof {
            self.model = Ghost(self.model@.update(i as int, wsub(self.model@[i as int], x)));
        }
        let ghost m0 = old(self).spec_model();
        let ghost m1 = self.model@;
        let mut index = i;
        proof {
            assert(i & ((i + 1) as usize) <= i) by (bit_vector);
            assert forall|j: int| 0 <= j < i implies #[trigger] self.values@[j] == wadd(
                self.init_value,
                wsum_range(
                    m1,
                    window_low(j),
                    if j < m1.len() {
                        j + 1
                    } else {
                        m1.len() as int
                    },
                ),
            ) by {
                lemma_wsum_frame(m1, m0, window_low(j), j + 1);
            }
        }
        while index < self.values.len()
            invariant
                1 <= self.values.len() < 0x8000_0000,
                self.values.len() == old(self).values.len(),
                self.init_value == old(self).init_value,
                self.model@ == m1,
                m1 == m0.update(i as int, wsub(m0[i as int], x)),
                m0.len() == self.values.len() - 1,
                i < m0.len(),
                i <= index,
                index < self.values.len() ==> window_low(index as int) <= i,
                forall|j: int|
                    0 <= j < index && j < self.values.len() ==> #[trigger] self.values@[j] == wadd(
                        self.init_value,
                        wsum_range(
                            m1,
                            window_low(j),
                            if j < m1.len() {
                                j + 1
                            } else {
                                m1.len() as int
                            },
                        ),
                    ),
                forall|j: int|
                    index <= j < self.values.len() ==> #[trigger] self.values@[j] == wadd(
                        self.init_value,
                        wsum_range(
                            m0,
                            window_low(j),
                            if j < m0.len() {
                                j + 1
                            } else {
                                m0.len() as int
                            },
                        ),
                    ),
            decreases 2 * self.values.len() - index,
        {
            let ghost vals_before = self.values@;
            let updated = self.values[index].wrapping_sub(x);
            self.values[index] = updated;
            let next = index | (index + 1);
            proof {
                let lo = window_low(index as int);
                let hi: int = if (index as int) < m0.len() {
                    index as int + 1
                } else {
                    m0.len() as int
                };
                lemma_wsum_update_sub(m0, lo, hi, i as int, x);
                lemma_wadd_wsub_shift(self.init_value, wsum_range(m0, lo, hi), x);
                assert(next > index && next <= ((2 * index + 1) as usize)) by (bit_vector)
                    requires
                        next == (index | ((index + 1) as usize)),
                        index < 0x8000_0000,
                ;
                assert forall|j: int|
                    index < j < next && j < self.values.len() implies #[trigger] self.values@[j]
                    == wadd(
                    self.init_value,
                    wsum_range(
                        m1,
                        window_low(j),
                        if j < m1.len() {
                            j + 1
                        } else {
                            m1.len() as int
                        },
                    ),
                ) by {
                    let ju = j as usize;
                    lemma_chain_gap(index, ju);
                    assert((ju as int) == j);
                    assert(((ju as int) + 1) as usize == (j + 1) as usize);
                    assert(window_low(j) == (ju & ((ju + 1) as usize)) as int);
                    assert(self.values@[j] == vals_before[j]);
                    lemma_wsum_frame(
                        m1,
                        m0,
                        window_low(j),
                        if j < m1.len() {
                            j + 1
                        } else {
                            m1.len() as int
                        },
                    );
                }
                if next < self.values.len() {
                    assert((next & ((next + 1) as usize)) <= (index & ((index + 1) as usize)))
                        by (bit_vector)
                        requires
                            next == (index | ((index + 1) as usize)),
                    ;
                    assert(window_low(next as int) <= i);
                }
            }
            index = next;
        }
    }

    /// The first index whose prefix sum (through that index) reaches `x`,
    /// by binary search over prefix sums; exact when the seed is zero,
    /// the accumulated prefix sums are nondecreasing and `x` is positive.
    pub fn lower_bound(&self, x: &i64) -> (r: Option<usize>)
        requires
            self.wf(),
        ensures
            (self.spec_init() == 0 && self.spec_monotone() && *x > 0) ==> match r {
                Option::None => forall|m: int|
                    0 <= m <= self.spec_len() ==> wsum_range(self.spec_model(), 0, m) < *x,
                Option::Some(p) => {
                    &&& p + 1 <= self.spec_len()
                    &&& wsum_range(self.spec_model(), 0, p + 1) >= *x
                    &&& forall|m: int|
                        0 <= m <= p ==> wsum_range(self.spec_model(), 0, m) < *x
                },
            },
    {
        let mut left: usize = 0;
        let mut right: usize = self.values.len();
        let mut result: Option<usize> = None;
        while left < right
            invariant
                self.wf(),
                left <= right <= self.values.len(),
                (self.spec_init() == 0 && self.spec_monotone() && *x > 0) ==> {
                    &&& forall|m: int| 0 <= m < left ==> wsum_range(self.spec_model(), 0, m) < *x
                    &&& forall|m: int|
                        right <= m <= self.spec_len() ==> wsum_range(self.spec_model(), 0, m) >= *x
                    &&& result == (if right == self.values.len() {
                        Option::<usize>::None
                    } else {
                        Option::<usize>::Some((right - 1) as usize)
                    })
                    &&& (right < self.values.len() ==> right >= 1)
                },
            decreases right - left,
        {
            let med = left + (right - left) / 2;
            let s = self.sum(med);
            if s < *x {
                left = med + 1;
            } else {
                proof {
                    if self.init_value == 0 && self.spec_monotone() && *x > 0 {
                        assert(wsum_range(self.spec_model(), 0, 0) == 0);
                        assert(med >= 1);
                    }
                }
                result = if med >= 1 {
                    Some(med - 1)
                } else {
                    None
                };
                right = med;
            }
        }
        result
    }

    /// The first index whose prefix sum (through that index) exceeds `x`,
    /// by binary search over prefix sums; exact when the seed is zero,
    /// the accumulated prefix sums are nondecreasing and `x` is
    /// nonnegative.
    pub fn upper_bound(&self, x: &i64) -> (r: Option<usize>)
        requires
            self.wf(),
        ensures
            (self.spec_init() == 0 && self.spec_monotone() && *x >= 0) ==> match r {
                Option::None => forall|m: int|
                    0 <= m <= self.spec_len() ==> wsum_range(self.spec_model(), 0, m) <= *x,
                Option::Some(p) => {
                    &&& p + 1 <= self.spec_len()
                    &&& wsum_range(self.spec_model(), 0, p + 1) > *x
                    &&& forall|m: int|
                        0 <= m <= p ==> wsum_range(self.spec_model(), 0, m) <= *x
                },
            },
    {
        let mut left: usize = 0;
        let mut right: usize = self.values.len();
        let mut result: Option<usize> = None;
        while left < right
            invariant
                self.wf(),
                left <= right <= self.values.len(),
                (self.spec_init() == 0 && self.spec_monotone() && *x >= 0) ==> {
                    &&& forall|m: int| 0 <= m < left ==> wsum_range(self.spec_model(), 0, m) <= *x
                    &&& forall|m: int|
                        right <= m <= self.spec_len() ==> wsum_range(self.spec_model(), 0, m) > *x
                    &&& result == (if right == self.values.len() {
                        Option::<usize>::None
                    } else {
                        Option::<usize>::Some((right - 1) as usize)
                    })
                    &&& (right < self.values.len() ==> right >= 1)
                },
            decreases right - left,
        {
            let med = left + (right - left) / 2;
            let s = self.sum(med);
            if s <= *x {
                left = med + 1;
            } else {
                proof {
                    if self.init_value == 0 && self.spec_monotone() && *x >= 0 {
                        assert(wsum_range(self.spec_model(), 0, 0) == 0);
                        assert(med >= 1);
                    }
                }
                result = if med >= 1 {
                    Some(med - 1)
                } else {
                    None
                };
                right = med;
            }
        }
        result
    }
}

} // verus!
