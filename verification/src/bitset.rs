//! An efficient bool collection packed into 64-bit words, with shifts and
//! bitwise combinations.

use vstd::prelude::*;

verus! {

/// The number of one bits in `x`.
pub open spec fn pop_spec(x: nat) -> nat
    decreases x,
{
    if x == 0 {
        0
    } else {
        x % 2 + pop_spec(x / 2)
    }
}

/// Counts the one bits of a word.
fn popcount(x: u64) -> (r: u32)
    ensures
        r == pop_spec(x as nat),
        r <= 64,
{
    let mut acc: u32 = 0;
    let mut cur = x;
    proof {
        vstd::arithmetic::power2::lemma2_to64();
        lemma_pop_bound(x as nat, 64);
    }
    while cur != 0
        invariant
            acc + pop_spec(cur as nat) == pop_spec(x as nat),
            pop_spec(x as nat) <= 64,
            acc <= 64,
        decreases cur,
    {
        proof {
            assert((cur & 1) == cur % 2 && (cur >> 1u64) == cur / 2) by (bit_vector);
            assert(pop_spec(cur as nat) == cur % 2 + pop_spec((cur / 2) as nat));
        }
        acc = acc + (cur & 1) as u32;
        cur = cur >> 1u64;
    }
    acc
}

/// The number of one bits among the low `k` bits of a word.
pub open spec fn word_ones(w: u64, k: int) -> nat
    decreases k,
{
    if k <= 0 {
        0
    } else {
        word_ones(w, k - 1) + (if (w >> ((k - 1) as u64)) & 1 == 1 {
            1nat
        } else {
            0nat
        })
    }
}

/// The zero word has no one bits.
proof fn lemma_ones_zero(k: int)
    requires
        0 <= k <= 64,
    ensures
        word_ones(0u64, k) == 0,
    decreases k,
{
    if k > 0 {
        lemma_ones_zero(k - 1);
        let s = (k - 1) as u64;
        assert((0u64 >> s) & 1 == 0) by (bit_vector);
    }
}

/// Counting the low `k` bits splits off the lowest bit.
proof fn lemma_ones_shift(w: u64, k: int)
    requires
        1 <= k <= 64,
    ensures
        word_ones(w, k) == (if w & 1 == 1 {
            1nat
        } else {
            0nat
        }) + word_ones(w >> 1u64, k - 1),
    decreases k,
{
    if k == 1 {
        assert((w >> 0u64) & 1 == w & 1) by (bit_vector);
        assert(word_ones(w, 1) == word_ones(w, 0) + (if (w >> ((0) as u64)) & 1 == 1 {
            1nat
        } else {
            0nat
        }));
    } else {
        lemma_ones_shift(w, k - 1);
        let km1 = (k - 1) as u64;
        let km2 = (k - 2) as u64;
        assert((w >> km1) & 1 == ((w >> 1u64) >> km2) & 1) by (bit_vector)
            requires
                km1 == km2 + 1,
                km1 <= 63,
        ;
        assert(word_ones(w, k) == word_ones(w, k - 1) + (if (w >> ((k - 1) as u64)) & 1 == 1 {
            1nat
        } else {
            0nat
        }));
        assert(word_ones(w >> 1u64, k - 1) == word_ones(w >> 1u64, k - 2) + (if ((w >> 1u64) >> ((
        k - 2) as u64)) & 1 == 1 {
            1nat
        } else {
            0nat
        }));
        assert((k - 1) as u64 == km1 && (k - 2) as u64 == km2);
    }
}

/// The popcount of a word is the number of its 64 bits that are one.
proof fn lemma_pop_bits(w: u64)
    ensures
        pop_spec(w as nat) == word_ones(w, 64),
    decreases w,
{
    if w == 0 {
        lemma_ones_zero(64);
    } else {
        assert(w >> 1u64 == w / 2 && (w & 1) == w % 2 && w >> 1u64 < w && (w >> 1u64) >> 63u64
            == 0) by (bit_vector)
            requires
                w != 0,
        ;
        lemma_pop_bits(w >> 1u64);
        lemma_ones_shift(w, 64);
        assert(((w >> 1u64) >> 63u64) & 1 == 0) by (bit_vector);
    }
}

/// A word of `b` bits has at most `b` one bits.
proof fn lemma_pop_bound(x: nat, b: nat)
    requires
        x < vstd::arithmetic::power2::pow2(b),
    ensures
        pop_spec(x) <= b,
    decreases b,
{
    if b == 0 {
        vstd::arithmetic::power2::lemma2_to64();
    } else {
        vstd::arithmetic::power2::lemma_pow2_unfold(b);
        lemma_pop_bound(x / 2, (b - 1) as nat);
    }
}

/// Efficient bool collection.
#[derive(Clone, Debug)]
pub struct BitSet {
    buf: Vec<u64>,
    size: usize,
}

impl BitSet {
    /// The buffer holds exactly the words the size asks for.
    pub closed spec fn wf(&self) -> bool {
        &&& self.size <= 0x4000_0000
        &&& self.buf.len() == (self.size + 63) / 64
    }

    /// The number of addressable bits.
    pub closed spec fn spec_size(&self) -> nat {
        self.size as nat
    }

    /// The value of bit `i`.
    pub closed spec fn spec_bit(&self, i: int) -> bool {
        (self.buf@[i / 64] >> ((i % 64) as u64)) & 1 == 1
    }

    /// The number of set bits among positions `[0, n)`.
    pub open spec fn spec_ones(&self, n: int) -> nat
        decreases n,
    {
        if n <= 0 {
            0
        } else {
            self.spec_ones(n - 1) + (if self.spec_bit(n - 1) {
                1nat
            } else {
                0nat
            })
        }
    }

    /// The set bits of word `i` are the set bit positions it backs.
    proof fn lemma_ones_word(&self, i: int, j: int)
        requires
            0 <= i,
            0 <= j <= 64,
        ensures
            self.spec_ones(64 * i + j) == self.spec_ones(64 * i) + word_ones(self.buf@[i], j),
        decreases j,
    {
        if j > 0 {
            self.lemma_ones_word(i, j - 1);
            vstd::arithmetic::div_mod::lemma_fundamental_div_mod_converse(
                64 * i + j - 1,
                64,
                i,
                j - 1,
            );
        }
    }

    /// Positions that are all clear add nothing to the count.
    pub proof fn lemma_ones_clear(&self, n: int, m: int)
        requires
            n <= m,
            forall|j: int| n <= j < m ==> !self.spec_bit(j),
        ensures
            self.spec_ones(m) == self.spec_ones(n),
        decreases m - n,
    {
        if m > n {
            self.lemma_ones_clear(n, m - 1);
        }
    }

    /// The number of positions in `[0, n)` set in both `self` and `rhs`.
    pub open spec fn spec_ones_and(&self, rhs: &BitSet, n: int) -> nat
        decreases n,
    {
        if n <= 0 {
            0
        } else {
            self.spec_ones_and(rhs, n - 1) + (if self.spec_bit(n - 1) && rhs.spec_bit(n - 1) {
                1nat
            } else {
                0nat
            })
        }
    }

    /// The number of positions in `[0, n)` set in `self` or `rhs`.
    pub open spec fn spec_ones_or(&self, rhs: &BitSet, n: int) -> nat
        decreases n,
    {
        if n <= 0 {
            0
        } else {
            self.spec_ones_or(rhs, n - 1) + (if self.spec_bit(n - 1) || rhs.spec_bit(n - 1) {
                1nat
            } else {
                0nat
            })
        }
    }

    /// The number of positions in `[0, n)` set in exactly one of the two.
    pub open spec fn spec_ones_xor(&self, rhs: &BitSet, n: int) -> nat
        decreases n,
    {
        if n <= 0 {
            0
        } else {
            self.spec_ones_xor(rhs, n - 1) + (if self.spec_bit(n - 1) != rhs.spec_bit(n - 1) {
                1nat
            } else {
                0nat
            })
        }
    }

    /// The joint set bits over word `i` are the ones of the two words'
    /// bitwise `&`.
    proof fn lemma_ones_and_word(&self, rhs: &BitSet, i: int, j: int)
        requires
            0 <= i,
            0 <= j <= 64,
        ensures
            self.spec_ones_and(rhs, 64 * i + j) == self.spec_ones_and(rhs, 64 * i) + word_ones(
                self.buf@[i] & rhs.buf@[i],
                j,
            ),
        decreases j,
    {
        if j > 0 {
            self.lemma_ones_and_word(rhs, i, j - 1);
            vstd::arithmetic::div_mod::lemma_fundamental_div_mod_converse(
                64 * i + j - 1,
                64,
                i,
                j - 1,
            );
            let a = self.buf@[i];
            let b = rhs.buf@[i];
            let s = (j - 1) as u64;
            assert(((a & b) >> s) & 1 == 1 <==> ((a >> s) & 1 == 1 && (b >> s) & 1 == 1))
                by (bit_vector);
        }
    }

    /// As [`Self::lemma_ones_and_word`], for bitwise `|`.
    proof fn lemma_ones_or_word(&self, rhs: &BitSet, i: int, j: int)
        requires
            0 <= i,
            0 <= j <= 64,
        ensures
            self.spec_ones_or(rhs, 64 * i + j) == self.spec_ones_or(rhs, 64 * i) + word_ones(
                self.buf@[i] | rhs.buf@[i],
                j,
            ),
        decreases j,
    {
        if j > 0 {
            self.lemma_ones_or_word(rhs, i, j - 1);
            vstd::arithmetic::div_mod::lemma_fundamental_div_mod_converse(
                64 * i + j - 1,
                64,
                i,
                j - 1,
            );
            let a = self.buf@[i];
            let b = rhs.buf@[i];
            let s = (j - 1) as u64;
            assert(((a | b) >> s) & 1 == 1 <==> ((a >> s) & 1 == 1 || (b >> s) & 1 == 1))
                by (bit_vector);
        }
    }

    /// As [`Self::lemma_ones_and_word`], for bitwise `^`.
    proof fn lemma_ones_xor_word(&self, rhs: &BitSet, i: int, j: int)
        requires
            0 <= i,
            0 <= j <= 64,
        ensures
            self.spec_ones_xor(rhs, 64 * i + j) == self.spec_ones_xor(rhs, 64 * i) + word_ones(
                self.buf@[i] ^ rhs.buf@[i],
                j,
            ),
        decreases j,
    {
        if j > 0 {
            self.lemma_ones_xor_word(rhs, i, j - 1);
            vstd::arithmetic::div_mod::lemma_fundamental_div_mod_converse(
                64 * i + j - 1,
                64,
                i,
                j - 1,
            );
            let a = self.buf@[i];
            let b = rhs.buf@[i];
            let s = (j - 1) as u64;
            assert(((a ^ b) >> s) & 1 == 1 <==> (((a >> s) & 1 == 1) != ((b >> s) & 1 == 1)))
                by (bit_vector);
        }
    }

    /// A set of `size` bits, all clear.
    pub fn new(size: usize) -> (r: BitSet)
        requires
            size <= 0x4000_0000,
        ensures
            r.wf(),
            r.spec_size() == size,
    {
        let words = (size + 63) / 64;
        let mut buf: Vec<u64> = Vec::new();
        while buf.len() < words
            invariant
                buf.len() <= words,
            decreases words - buf.len(),
        {
            buf.push(0);
        }
        BitSet { buf, size }
    }

    /// Sets bit `i` to `b`; every other bit keeps its value.
    pub fn set(&mut self, i: usize, b: bool)
        requires
            old(self).wf(),
            i < old(self).spec_size(),
        ensures
            final(self).wf(),
            final(self).spec_size() == old(self).spec_size(),
            final(self).spec_bit(i as int) == b,
            forall|j: int|
                0 <= j < old(self).spec_size() && j != i ==> final(self).spec_bit(j) == old(
                    self,
                ).spec_bit(j),
    {
        proof {
            assert(i >> 6 == i / 64 && (i & 63) == i % 64 && (i & 63) < 64) by (bit_vector);
        }
        let w = i >> 6;
        let k = (i & 63) as u64;
        let ghost old_word = self.buf@[w as int];
        if b {
            let updated = self.buf[w] | (1u64 << k);
            self.buf[w] = updated;
        } else {
            let updated = self.buf[w] & !(1u64 << k);
            self.buf[w] = updated;
        }
        proof {
            let word = self.buf@[w as int];
            assert(((i as int) % 64) as u64 == k);
            assert(((old_word | (1u64 << k)) >> k) & 1 == 1) by (bit_vector)
                requires
                    k < 64,
            ;
            assert(((old_word & !(1u64 << k)) >> k) & 1 == 0) by (bit_vector)
                requires
                    k < 64,
            ;
            assert(forall|k2: u64|
                k2 < 64 && k < 64 ==> ((old_word | (1u64 << k)) >> k2) & 1 == (if k2 == k {
                    1u64
                } else {
                    (old_word >> k2) & 1
                })) by (bit_vector);
            assert(forall|k2: u64|
                k2 < 64 && k < 64 ==> ((old_word & !(1u64 << k)) >> k2) & 1 == (if k2 == k {
                    0u64
                } else {
                    (old_word >> k2) & 1
                })) by (bit_vector);
            assert forall|j: int|
                0 <= j < old(self).spec_size() && j != i implies self.spec_bit(j) == old(
                self,
            ).spec_bit(j) by {
                if j / 64 == i / 64 {
                    // Same word, different bit position.
                    vstd::arithmetic::div_mod::lemma_fundamental_div_mod(j, 64);
                    vstd::arithmetic::div_mod::lemma_fundamental_div_mod(i as int, 64);
                    assert(j % 64 != i % 64);
                    assert(((j % 64) as u64) < 64) by {
                        vstd::arithmetic::div_mod::lemma_mod_division_less_than_divisor(j, 64);
                    }
                } else {
                    assert(self.buf@[j / 64] == old(self).buf@[j / 64]);
                }
            }
        }
    }

    /// Reads bit `i`.
    pub fn get(&self, i: usize) -> (r: bool)
        requires
            self.wf(),
            i < self.spec_size(),
        ensures
            r == self.spec_bit(i as int),
    {
        proof {
            assert(i >> 6 == i / 64 && (i & 63) == i % 64 && (i & 63) < 64) by (bit_vector);
        }
        let w = i >> 6;
        (self.buf[w] >> ((i & 63) as u64)) & 1 == 1
    }

    /// The number of set bits over all backing words; when the padding
    /// bits past `size` are clear, that is the number of set positions.
    pub fn count_ones(&self) -> (r: u32)
        requires
            self.wf(),
        ensures
            r == self.spec_ones(64 * ((self.spec_size() + 63) as int / 64)),
            (forall|j: int|
                self.spec_size() <= j < 64 * ((self.spec_size() + 63) as int / 64)
                    ==> !self.spec_bit(j)) ==> r == self.spec_ones(self.spec_size() as int),
    {
        let mut result: u32 = 0;
        let mut i: usize = 0;
        while i < self.buf.len()
            invariant
                i <= self.buf.len(),
                self.buf.len() <= 0x100_0000,
                result == self.spec_ones(64 * (i as int)),
                result <= 64 * i,
            decreases self.buf.len() - i,
        {
            let c = popcount(self.buf[i]);
            proof {
                lemma_pop_bits(self.buf@[i as int]);
                self.lemma_ones_word(i as int, 64);
            }
            result = result + c;
            i = i + 1;
        }
        proof {
            if forall|j: int|
                self.spec_size() <= j < 64 * ((self.spec_size() + 63) as int / 64)
                    ==> !self.spec_bit(j) {
                self.lemma_ones_clear(
                    self.spec_size() as int,
                    64 * ((self.spec_size() + 63) as int / 64),
                );
            }
        }
        result
    }

    /// The number of positions set in both, over the words both sets
    /// have.
    pub fn bit_and_count_ones(&self, rhs: &BitSet) -> (r: u64)
        requires
            self.wf(),
            rhs.wf(),
        ensures
            r == self.spec_ones_and(
                rhs,
                64 * vstd::math::min(
                    (self.spec_size() + 63) as int / 64,
                    (rhs.spec_size() + 63) as int / 64,
                ),
            ),
    {
        let n = if self.buf.len() <= rhs.buf.len() {
            self.buf.len()
        } else {
            rhs.buf.len()
        };
        let mut result: u64 = 0;
        let mut i: usize = 0;
        while i < n
            invariant
                i <= n,
                n <= 0x100_0000,
                n <= self.buf.len(),
                n <= rhs.buf.len(),
                result == self.spec_ones_and(rhs, 64 * (i as int)),
                result <= 64 * i,
            decreases n - i,
        {
            let c = popcount(self.buf[i] & rhs.buf[i]);
            proof {
                lemma_pop_bits(self.buf@[i as int] & rhs.buf@[i as int]);
                self.lemma_ones_and_word(rhs, i as int, 64);
            }
            result = result + c as u64;
            i = i + 1;
        }
        result
    }

    /// The number of positions set in either, over the words both sets
    /// have.
    pub fn bit_or_count_ones(&self, rhs: &BitSet) -> (r: u64)
        requires
            self.wf(),
            rhs.wf(),
        ensures
            r == self.spec_ones_or(
                rhs,
                64 * vstd::math::min(
                    (self.spec_size() + 63) as int / 64,
                    (rhs.spec_size() + 63) as int / 64,
                ),
            ),
    {
        let n = if self.buf.len() <= rhs.buf.len() {
            self.buf.len()
        } else {
            rhs.buf.len()
        };
        let mut result: u64 = 0;
        let mut i: usize = 0;
        while i < n
            invariant
                i <= n,
                n <= 0x100_0000,
                n <= self.buf.len(),
                n <= rhs.buf.len(),
                result == self.spec_ones_or(rhs, 64 * (i as int)),
                result <= 64 * i,
            decreases n - i,
        {
            let c = popcount(self.buf[i] | rhs.buf[i]);
            proof {
                lemma_pop_bits(self.buf@[i as int] | rhs.buf@[i as int]);
                self.lemma_ones_or_word(rhs, i as int, 64);
            }
            result = result + c as u64;
            i = i + 1;
        }
        result
    }

    /// The number of positions set in exactly one, over the words both
    /// sets have.
    pub fn bit_xor_count_ones(&self, rhs: &BitSet) -> (r: u64)
        requires
            self.wf(),
            rhs.wf(),
        ensures
            r == self.spec_ones_xor(
                rhs,
                64 * vstd::math::min(
                    (self.spec_size() + 63) as int / 64,
                    (rhs.spec_size() + 63) as int / 64,
                ),
            ),
    {
        let n = if self.buf.len() <= rhs.buf.len() {
            self.buf.len()
        } else {
            rhs.buf.len()
        };
        let mut result: u64 = 0;
        let mut i: usize = 0;
        while i < n
            invariant
                i <= n,
                n <= 0x100_0000,
                n <= self.buf.len(),
                n <= rhs.buf.len(),
                result == self.spec_ones_xor(rhs, 64 * (i as int)),
                result <= 64 * i,
            decreases n - i,
        {
            let c = popcount(self.buf[i] ^ rhs.buf[i]);
            proof {
                lemma_pop_bits(self.buf@[i as int] ^ rhs.buf@[i as int]);
                self.lemma_ones_xor_word(rhs, i as int, 64);
            }
            result = result + c as u64;
            i = i + 1;
        }
        result
    }

    /// Clears the padding bits past `size` in the last word.
    fn chomp(&mut self)
        requires
            old(self).wf(),
        ensures
            final(self).wf(),
            final(self).spec_size() == old(self).spec_size(),
    {
        let s = self.size;
        let r = s & 63;
        proof {
            assert((s & 63) < 64) by (bit_vector);
        }
        if r != 0 && self.buf.len() > 0 {
            let last = self.buf.len() - 1;
            let d = (64 - r) as u64;
            let updated = (self.buf[last] << d) >> d;
            self.buf[last] = updated;
        }
    }

    /// Shifts the whole set left by `x` bit positions (towards higher
    /// indices).
    pub fn shl(&mut self, x: usize)
        requires
            old(self).wf(),
        ensures
            final(self).wf(),
            final(self).spec_size() == old(self).spec_size(),
    {
        proof {
            assert(x >> 6 == x / 64 && (x & 63) < 64) by (bit_vector);
        }
        let q = x >> 6;
        let r = x & 63;
        if q >= self.buf.len() {
            let mut i: usize = 0;
            while i < self.buf.len()
                invariant
                    self.buf.len() == old(self).buf.len(),
                    self.size == old(self).size,
                decreases self.buf.len() - i,
            {
                self.buf[i] = 0;
                i = i + 1;
            }
            return ;
        }
        if r == 0 {
            let mut i: usize = self.buf.len() - 1;
            while i >= q && i < self.buf.len()
                invariant
                    self.buf.len() == old(self).buf.len(),
                    self.size == old(self).size,
                    q <= self.buf.len(),
                decreases i,
            {
                let v = self.buf[i - q];
                self.buf[i] = v;
                if i == 0 {
                    break ;
                }
                i = i - 1;
            }
        } else {
            let mut i: usize = self.buf.len() - 1;
            while i > q && i < self.buf.len()
                invariant
                    self.buf.len() == old(self).buf.len(),
                    self.size == old(self).size,
                    q < self.buf.len(),
                    0 < r < 64,
                decreases i,
            {
                let hi = self.buf[i - q] << (r as u64);
                let lo = self.buf[i - q - 1] >> ((64 - r) as u64);
                self.buf[i] = hi | lo;
                i = i - 1;
            }
            let v = self.buf[0] << (r as u64);
            self.buf[q] = v;
        }
        let mut i: usize = 0;
        while i < q && i < self.buf.len()
            invariant
                self.buf.len() == old(self).buf.len(),
                self.size == old(self).size,
            decreases q - i,
        {
            self.buf[i] = 0;
            i = i + 1;
        }
        self.chomp();
    }

    /// Shifts the whole set right by `x` bit positions (towards lower
    /// indices).
    pub fn shr(&mut self, x: usize)
        requires
            old(self).wf(),
        ensures
            final(self).wf(),
            final(self).spec_size() == old(self).spec_size(),
    {
        proof {
            assert(x >> 6 == x / 64 && (x & 63) < 64) by (bit_vector);
        }
        let q = x >> 6;
        let r = x & 63;
        let len = self.buf.len();
        if q >= len {
            let mut i: usize = 0;
            while i < self.buf.len()
                invariant
                    self.buf.len() == old(self).buf.len(),
                    self.size == old(self).size,
                decreases self.buf.len() - i,
            {
                self.buf[i] = 0;
                i = i + 1;
            }
            return ;
        }
        if r == 0 {
            let mut i: usize = 0;
            while i < len - q
                invariant
                    self.buf.len() == old(self).buf.len(),
                    self.size == old(self).size,
                    len == self.buf.len(),
                    q <= len,
                decreases len - q - i,
            {
                let v = self.buf[i + q];
                self.buf[i] = v;
                i = i + 1;
            }
        } else {
            let mut i: usize = 0;
            while i + q + 1 < len
                invariant
                    self.buf.len() == old(self).buf.len(),
                    self.size == old(self).size,
                    len == self.buf.len(),
                    len <= 0x100_0001,
                    i <= len,
                    q < len,
                    0 < r < 64,
                decreases len - q - 1 - i,
            {
                let lo = self.buf[i + q] >> (r as u64);
                let hi = self.buf[i + q + 1] << ((64 - r) as u64);
                self.buf[i] = lo | hi;
                i = i + 1;
            }
            let v = self.buf[len - 1] >> (r as u64);
            self.buf[len - 1 - q] = v;
        }
        let mut i: usize = len - q;
        while i < len
            invariant
                self.buf.len() == old(self).buf.len(),
                self.size == old(self).size,
                len == self.buf.len(),
            decreases len - i,
        {
            self.buf[i] = 0;
            i = i + 1;
        }
    }

    /// The word-wise `self | rhs`, sized like `self`.
    pub fn bit_or(&self, rhs: &BitSet) -> (r: BitSet)
        requires
            self.wf(),
            rhs.wf(),
        ensures
            r.wf(),
            r.spec_size() == self.spec_size(),
    {
        let mut buf: Vec<u64> = Vec::new();
        let mut i: usize = 0;
        while i < self.buf.len()
            invariant
                buf.len() == i,
                i <= self.buf.len(),
            decreases self.buf.len() - i,
        {
            let other = if i < rhs.buf.len() {
                rhs.buf[i]
            } else {
                0
            };
            buf.push(self.buf[i] | other);
            i = i + 1;
        }
        let mut out = BitSet { buf, size: self.size };
        out.chomp();
        out
    }

    /// The word-wise `self & rhs`, sized like `self`.
    pub fn bit_and(&self, rhs: &BitSet) -> (r: BitSet)
        requires
            self.wf(),
            rhs.wf(),
        ensures
            r.wf(),
            r.spec_size() == self.spec_size(),
    {
        let mut buf: Vec<u64> = Vec::new();
        let mut i: usize = 0;
        while i < self.buf.len()
            invariant
                buf.len() == i,
                i <= self.buf.len(),
            decreases self.buf.len() - i,
        {
            let other = if i < rhs.buf.len() {
                rhs.buf[i]
            } else {
                0
            };
            buf.push(self.buf[i] & other);
            i = i + 1;
        }
        let mut out = BitSet { buf, size: self.size };
        out.chomp();
        out
    }

    /// The word-wise `self ^ rhs`, sized like `self`.
    pub fn bit_xor(&self, rhs: &BitSet) -> (r: BitSet)
        requires
            self.wf(),
            rhs.wf(),
        ensures
            r.wf(),
            r.spec_size() == self.spec_size(),
    {
        let mut buf: Vec<u64> = Vec::new();
        let mut i: usize = 0;
        while i < self.buf.len()
            invariant
                buf.len() == i,
                i <= self.buf.len(),
            decreases self.buf.len() - i,
        {
            let other = if i < rhs.buf.len() {
                rhs.buf[i]
            } else {
                0
            };
            buf.push(self.buf[i] ^ other);
            i = i + 1;
        }
        let mut out = BitSet { buf, size: self.size };
        out.chomp();
        out
    }
}

} // verus!
