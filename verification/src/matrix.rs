//! Dense matrices over wrapping 64-bit integers: products, powers, sums
//! and differences, stored row-major in one flat vector.

use vstd::prelude::*;

verus! {

/// The element algebra a matrix expects: a marker for the wrapping
/// integer carrier used here.
pub trait MatrixTrait: Sized {

}

impl MatrixTrait for i64 {

}

/// The wrapping dot product of row `i` of `a` and column `j` of `b`,
/// over the first `k` middle indices.
pub open spec fn dot_partial(a: Matrix, b: Matrix, i: int, j: int, k: int) -> i64
    decreases k,
{
    if k <= 0 {
        0
    } else {
        vstd::wrapping::i64_specs::wrapping_add(
            dot_partial(a, b, i, j, k - 1),
            vstd::wrapping::i64_specs::wrapping_mul(a.spec_at(i, k - 1), b.spec_at(k - 1, j)),
        )
    }
}

/// A matrix's cells as a grid of rows, for contracts that build new
/// matrices out of old ones.
pub open spec fn grid_of(m: Matrix) -> Seq<Seq<i64>> {
    Seq::new(m.spec_height() as nat, |i: int| Seq::new(m.spec_width() as nat, |j: int| m.spec_at(i, j)))
}

/// The wrapping dot product of row `i` of grid `a` and column `j` of
/// grid `b`, over the first `k` middle indices.
pub open spec fn grid_dot(a: Seq<Seq<i64>>, b: Seq<Seq<i64>>, i: int, j: int, k: int) -> i64
    decreases k,
{
    if k <= 0 {
        0
    } else {
        vstd::wrapping::i64_specs::wrapping_add(
            grid_dot(a, b, i, j, k - 1),
            vstd::wrapping::i64_specs::wrapping_mul(a[i][k - 1], b[k - 1][j]),
        )
    }
}

/// The wrapping product of two `n` by `n` grids.
pub open spec fn grid_mul(a: Seq<Seq<i64>>, b: Seq<Seq<i64>>, n: int) -> Seq<Seq<i64>> {
    Seq::new(n as nat, |i: int| Seq::new(n as nat, |j: int| grid_dot(a, b, i, j, n)))
}

/// The `n` by `n` identity grid with `one` on the diagonal.
pub open spec fn grid_identity(n: int, one: i64) -> Seq<Seq<i64>> {
    Seq::new(
        n as nat,
        |i: int|
            Seq::new(
                n as nat,
                |j: int|
                    if i == j {
                        one
                    } else {
                        0
                    },
            ),
    )
}

/// Binary exponentiation over grids: the meaning of `Matrix::pow`, in the
/// accumulator form the square-and-multiply loop computes.
pub open spec fn grid_bin_pow(acc: Seq<Seq<i64>>, s: Seq<Seq<i64>>, k: nat, n: int) -> Seq<
    Seq<i64>,
>
    decreases k,
{
    if k == 0 {
        acc
    } else {
        grid_bin_pow(
            if k % 2 == 1 {
                grid_mul(acc, s, n)
            } else {
                acc
            },
            grid_mul(s, s, n),
            k / 2,
            n,
        )
    }
}

/// A `height` by `width` matrix, row-major.
#[derive(Clone, Debug)]
pub struct Matrix {
    data: Vec<i64>,
    height: usize,
    width: usize,
}

/// Two distinct cells never share a flat index.
proof fn lemma_flat_injective(i: int, j: int, y: int, x: int, w: int)
    requires
        0 <= j < w,
        0 <= x < w,
        i * w + j == y * w + x,
        0 <= i,
        0 <= y,
    ensures
        i == y && j == x,
{
    assert(i == y && j == x) by (nonlinear_arith)
        requires
            0 <= j < w,
            0 <= x < w,
            i * w + j == y * w + x,
            0 <= i,
            0 <= y,
    ;
}

impl Matrix {
    /// The flat buffer matches the dimensions.
    pub closed spec fn wf(&self) -> bool {
        &&& 1 <= self.height <= 0x8000
        &&& 1 <= self.width <= 0x8000
        &&& self.data.len() == self.height * self.width
    }

    /// The height, as mathematics sees it.
    pub closed spec fn spec_height(&self) -> int {
        self.height as int
    }

    /// The width, as mathematics sees it.
    pub closed spec fn spec_width(&self) -> int {
        self.width as int
    }

    /// The cell at `(y, x)`.
    pub closed spec fn spec_at(&self, y: int, x: int) -> i64 {
        self.data@[y * self.spec_width() + x]
    }

    /// An `h` by `w` matrix of zeroes.
    pub fn new(h: usize, w: usize) -> (r: Matrix)
        requires
            1 <= h <= 0x8000,
            1 <= w <= 0x8000,
        ensures
            r.wf(),
            r.spec_height() == h,
            r.spec_width() == w,
            forall|i: int, j: int| 0 <= i < h && 0 <= j < w ==> r.spec_at(i, j) == 0,
    {
        proof {
            assert(h * w <= 0x4000_0000) by (nonlinear_arith)
                requires
                    1 <= h <= 0x8000,
                    1 <= w <= 0x8000,
            ;
        }
        let total = h * w;
        let mut data: Vec<i64> = Vec::new();
        while data.len() < total
            invariant
                data.len() <= total,
                forall|t: int| 0 <= t < data@.len() ==> #[trigger] data@[t] == 0,
            decreases total - data.len(),
        {
            data.push(0);
        }
        let m = Matrix { data, height: h, width: w };
        proof {
            assert forall|i: int, j: int| 0 <= i < h && 0 <= j < w implies m.spec_at(i, j)
                == 0 by {
                assert(0 <= i * w + j < h * w) by (nonlinear_arith)
                    requires
                        0 <= i < h,
                        0 <= j < w,
                ;
            }
        }
        m
    }

    /// The width.
    pub fn width(&self) -> (r: usize)
        ensures
            r == self.spec_width(),
    {
        self.width
    }

    /// The height.
    pub fn height(&self) -> (r: usize)
        ensures
            r == self.spec_height(),
    {
        self.height
    }

    /// The cell at `(y, x)`.
    pub fn get(&self, y: usize, x: usize) -> (r: i64)
        requires
            self.wf(),
            y < self.spec_height(),
            x < self.spec_width(),
        ensures
            r == self.spec_at(y as int, x as int),
    {
        proof {
            assert(y * self.width + x < self.height * self.width) by (nonlinear_arith)
                requires
                    y < self.height,
                    x < self.width,
                    0 < self.width,
            ;
        }
        self.data[y * self.width + x]
    }

    /// Overwrites the cell at `(y, x)`.
    pub fn set(&mut self, y: usize, x: usize, v: i64)
        requires
            old(self).wf(),
            y < old(self).spec_height(),
            x < old(self).spec_width(),
        ensures
            final(self).wf(),
            final(self).spec_height() == old(self).spec_height(),
            final(self).spec_width() == old(self).spec_width(),
            final(self).spec_at(y as int, x as int) == v,
            forall|i: int, j: int|
                0 <= i < old(self).spec_height() && 0 <= j < old(self).spec_width() && !(i == y && j
                    == x) ==> final(self).spec_at(i, j) == old(self).spec_at(i, j),
    {
        proof {
            assert(y * self.width + x < self.height * self.width) by (nonlinear_arith)
                requires
                    y < self.height,
                    x < self.width,
                    0 < self.width,
            ;
        }
        self.data[y * self.width + x] = v;
        proof {
            assert forall|i: int, j: int|
                0 <= i < old(self).spec_height() && 0 <= j < old(self).spec_width() && !(i == y && j
                    == x) implies self.spec_at(i, j) == old(self).spec_at(i, j) by {
                assert(0 <= i * self.spec_width() + j < self.spec_height() * self.spec_width())
                    by (nonlinear_arith)
                    requires
                        0 <= i < self.spec_height(),
                        0 <= j < self.spec_width(),
                ;
                if i * self.spec_width() + j == y * self.spec_width() + x {
                    lemma_flat_injective(i, j, y as int, x as int, self.spec_width());
                }
            }
        }
    }

    /// A matrix seeded from rows; every row must have the first row's
    /// length.
    pub fn from_rows(rows: Vec<Vec<i64>>) -> (r: Matrix)
        requires
            1 <= rows.len() <= 0x8000,
            rows@[0]@.len() >= 1,
            rows@[0]@.len() <= 0x8000,
            forall|i: int| 0 <= i < rows.len() ==> #[trigger] rows@[i]@.len() == rows@[0]@.len(),
        ensures
            r.wf(),
            r.spec_height() == rows.len(),
            r.spec_width() == rows@[0]@.len(),
    {
        let h = rows.len();
        let w = rows[0].len();
        let mut m = Matrix::new(h, w);
        let mut i: usize = 0;
        while i < h
            invariant
                i <= h,
                m.wf(),
                m.spec_height() == h,
                m.spec_width() == w,
                h == rows.len(),
                w == rows@[0]@.len(),
                forall|t: int| 0 <= t < rows.len() ==> #[trigger] rows@[t]@.len() == rows@[0]@.len(),
            decreases h - i,
        {
            let mut j: usize = 0;
            while j < w
                invariant
                    j <= w,
                    i < h,
                    m.wf(),
                    m.spec_height() == h,
                    m.spec_width() == w,
                    h == rows.len(),
                    w == rows@[0]@.len(),
                    forall|t: int|
                        0 <= t < rows.len() ==> #[trigger] rows@[t]@.len() == rows@[0]@.len(),
                decreases w - j,
            {
                let v = rows[i][j];
                m.set(i, j, v);
                j = j + 1;
            }
            i = i + 1;
        }
        m
    }

    /// `A * B`; every result cell is the wrapping dot product of a row of
    /// `A` and a column of `B`.  `A.width` must equal `B.height`.
    pub fn dot(&self, rhs: &Matrix) -> (r: Matrix)
        requires
            self.wf(),
            rhs.wf(),
            self.spec_width() == rhs.spec_height(),
        ensures
            r.wf(),
            r.spec_height() == self.spec_height(),
            r.spec_width() == rhs.spec_width(),
            forall|i: int, j: int|
                0 <= i < self.spec_height() && 0 <= j < rhs.spec_width() ==> r.spec_at(i, j)
                    == dot_partial(*self, *rhs, i, j, self.spec_width()),
    {
        let mut out = Matrix::new(self.height, rhs.width);
        let mut i: usize = 0;
        while i < self.height
            invariant
                i <= self.height,
                self.wf(),
                rhs.wf(),
                self.spec_width() == rhs.spec_height(),
                out.wf(),
                out.spec_height() == self.spec_height(),
                out.spec_width() == rhs.spec_width(),
                forall|i2: int, j2: int|
                    0 <= i2 < i && 0 <= j2 < rhs.spec_width() ==> out.spec_at(i2, j2)
                        == dot_partial(*self, *rhs, i2, j2, self.spec_width()),
                forall|i2: int, j2: int|
                    i <= i2 < self.spec_height() && 0 <= j2 < rhs.spec_width() ==> out.spec_at(
                        i2,
                        j2,
                    ) == 0,
            decreases self.height - i,
        {
            let mut k: usize = 0;
            while k < self.width
                invariant
                    i < self.height,
                    k <= self.width,
                    self.wf(),
                    rhs.wf(),
                    self.spec_width() == rhs.spec_height(),
                    out.wf(),
                    out.spec_height() == self.spec_height(),
                    out.spec_width() == rhs.spec_width(),
                    forall|i2: int, j2: int|
                        0 <= i2 < i && 0 <= j2 < rhs.spec_width() ==> out.spec_at(i2, j2)
                            == dot_partial(*self, *rhs, i2, j2, self.spec_width()),
                    forall|i2: int, j2: int|
                        i < i2 < self.spec_height() && 0 <= j2 < rhs.spec_width() ==> out.spec_at(
                            i2,
                            j2,
                        ) == 0,
                    forall|j2: int|
                        0 <= j2 < rhs.spec_width() ==> out.spec_at(i as int, j2) == dot_partial(
                            *self,
                            *rhs,
                            i as int,
                            j2,
                            k as int,
                        ),
                decreases self.width - k,
            {
                let a = self.get(i, k);
                let mut j: usize = 0;
                while j < rhs.width
                    invariant
                        i < self.height,
                        k < self.width,
                        j <= rhs.width,
                        self.wf(),
                        rhs.wf(),
                        self.spec_width() == rhs.spec_height(),
                        out.wf(),
                        out.spec_height() == self.spec_height(),
                        out.spec_width() == rhs.spec_width(),
                        a == self.spec_at(i as int, k as int),
                        forall|i2: int, j2: int|
                            0 <= i2 < i && 0 <= j2 < rhs.spec_width() ==> out.spec_at(i2, j2)
                                == dot_partial(*self, *rhs, i2, j2, self.spec_width()),
                        forall|i2: int, j2: int|
                            i < i2 < self.spec_height() && 0 <= j2 < rhs.spec_width()
                                ==> out.spec_at(i2, j2) == 0,
                        forall|j2: int|
                            j <= j2 < rhs.spec_width() ==> out.spec_at(i as int, j2)
                                == dot_partial(*self, *rhs, i as int, j2, k as int),
                        forall|j2: int|
                            0 <= j2 < j ==> out.spec_at(i as int, j2) == dot_partial(
                                *self,
                                *rhs,
                                i as int,
                                j2,
                                k as int + 1,
                            ),
                    decreases rhs.width - j,
                {
                    let b = rhs.get(k, j);
                    let cur = out.get(i, j);
                    out.set(i, j, cur.wrapping_add(a.wrapping_mul(b)));
                    j = j + 1;
                }
                k = k + 1;
            }
            i = i + 1;
        }
        out
    }

    /// `A^k` in wrapping arithmetic, by square-and-multiply from the
    /// `one`-diagonal identity: the result is exactly the grid that
    /// binary exponentiation denotes.
    pub fn pow(&self, k: usize, one: i64) -> (r: Matrix)
        requires
            self.wf(),
            self.spec_height() == self.spec_width(),
        ensures
            r.wf(),
            r.spec_height() == self.spec_height(),
            r.spec_width() == self.spec_width(),
            grid_of(r) == grid_bin_pow(
                grid_identity(self.spec_height(), one),
                grid_of(*self),
                k as nat,
                self.spec_height(),
            ),
            k == 0 ==> forall|i: int, j: int|
                0 <= i < self.spec_height() && 0 <= j < self.spec_width() ==> r.spec_at(i, j)
                    == (if i == j {
                    one
                } else {
                    0
                }),
    {
        let mut result = Matrix::new(self.height, self.width);
        let mut i: usize = 0;
        while i < self.height
            invariant
                i <= self.height,
                self.wf(),
                self.spec_height() == self.spec_width(),
                result.wf(),
                result.spec_height() == self.spec_height(),
                result.spec_width() == self.spec_width(),
                forall|i2: int, j2: int|
                    0 <= i2 < self.spec_height() && 0 <= j2 < self.spec_width() ==> result.spec_at(
                        i2,
                        j2,
                    ) == (if i2 == j2 && i2 < i {
                        one
                    } else {
                        0
                    }),
            decreases self.height - i,
        {
            result.set(i, i, one);
            i = i + 1;
        }
        let ghost n = self.spec_height();
        let ghost goal = grid_bin_pow(grid_identity(n, one), grid_of(*self), k as nat, n);
        proof {
            assert(grid_of(result) =~~= grid_identity(n, one));
        }
        if k == 0 {
            return result;
        }
        let mut s = Matrix {
            data: clone_data(&self.data),
            height: self.height,
            width: self.width,
        };
        proof {
            assert(grid_of(s) =~~= grid_of(*self));
        }
        let mut k = k;
        while k > 0
            invariant
                self.wf(),
                s.wf(),
                s.spec_height() == self.spec_height(),
                s.spec_width() == self.spec_width(),
                self.spec_height() == self.spec_width(),
                n == self.spec_height(),
                result.wf(),
                result.spec_height() == self.spec_height(),
                result.spec_width() == self.spec_width(),
                grid_bin_pow(grid_of(result), grid_of(s), k as nat, n) == goal,
            decreases k,
        {
            let ghost res0 = grid_of(result);
            let ghost s0 = grid_of(s);
            let ghost k0 = k;
            if k & 1 == 1 {
                let next = result.dot(&s);
                proof {
                    lemma_dot_is_grid_mul(result, s, next);
                }
                result = next;
            }
            let squared = s.dot(&s);
            proof {
                lemma_dot_is_grid_mul(s, s, squared);
            }
            s = squared;
            proof {
                assert((k0 & 1 == 1) == (k0 % 2 == 1) && k0 >> 1u64 == k0 / 2) by (bit_vector);
                // One unfolding of the spec matches the step just taken.
                assert(grid_bin_pow(res0, s0, k0 as nat, n) == grid_bin_pow(
                    grid_of(result),
                    grid_of(s),
                    (k0 / 2) as nat,
                    n,
                ));
            }
            k = k >> 1;
        }
        result
    }

    /// `A * d`, every cell scaled in wrapping arithmetic.
    pub fn mul(&self, d: i64) -> (r: Matrix)
        requires
            self.wf(),
        ensures
            r.wf(),
            r.spec_height() == self.spec_height(),
            r.spec_width() == self.spec_width(),
    {
        let mut out = Matrix {
            data: clone_data(&self.data),
            height: self.height,
            width: self.width,
        };
        out.mul_assign(d);
        out
    }

    /// `A *= d` in wrapping arithmetic.
    pub fn mul_assign(&mut self, d: i64)
        requires
            old(self).wf(),
        ensures
            final(self).wf(),
            final(self).spec_height() == old(self).spec_height(),
            final(self).spec_width() == old(self).spec_width(),
    {
        let mut i: usize = 0;
        while i < self.data.len()
            invariant
                self.wf(),
                self.data.len() == old(self).data.len(),
                self.height == old(self).height,
                self.width == old(self).width,
            decreases self.data.len() - i,
        {
            let v = self.data[i].wrapping_mul(d);
            self.data[i] = v;
            i = i + 1;
        }
    }

    /// `A + B` in wrapping arithmetic; the shapes must agree.
    pub fn add_mat(&self, rhs: &Matrix) -> (r: Matrix)
        requires
            self.wf(),
            rhs.wf(),
            self.spec_height() == rhs.spec_height(),
            self.spec_width() == rhs.spec_width(),
        ensures
            r.wf(),
            r.spec_height() == self.spec_height(),
            r.spec_width() == self.spec_width(),
    {
        let mut out = Matrix {
            data: clone_data(&self.data),
            height: self.height,
            width: self.width,
        };
        out.add_mat_assign(rhs);
        out
    }

    /// `A += B` in wrapping arithmetic.
    pub fn add_mat_assign(&mut self, rhs: &Matrix)
        requires
            old(self).wf(),
            rhs.wf(),
            old(self).spec_height() == rhs.spec_height(),
            old(self).spec_width() == rhs.spec_width(),
        ensures
            final(self).wf(),
            final(self).spec_height() == old(self).spec_height(),
            final(self).spec_width() == old(self).spec_width(),
    {
        let mut i: usize = 0;
        while i < self.data.len()
            invariant
                self.wf(),
                rhs.wf(),
                self.data.len() == old(self).data.len(),
                self.height == old(self).height,
                self.width == old(self).width,
                self.data.len() == rhs.data.len(),
            decreases self.data.len() - i,
        {
            let v = self.data[i].wrapping_add(rhs.data[i]);
            self.data[i] = v;
            i = i + 1;
        }
    }

    /// `A - B` in wrapping arithmetic; the shapes must agree.
    pub fn sub_mat(&self, rhs: &Matrix) -> (r: Matrix)
        requires
            self.wf(),
            rhs.wf(),
            self.spec_height() == rhs.spec_height(),
            self.spec_width() == rhs.spec_width(),
        ensures
            r.wf(),
            r.spec_height() == self.spec_height(),
            r.spec_width() == self.spec_width(),
    {
        let mut out = Matrix {
            data: clone_data(&self.data),
            height: self.height,
            width: self.width,
        };
        out.sub_mat_assign(rhs);
        out
    }

    /// `A -= B` in wrapping arithmetic.
    pub fn sub_mat_assign(&mut self, rhs: &Matrix)
        requires
            old(self).wf(),
            rhs.wf(),
            old(self).spec_height() == rhs.spec_height(),
            old(self).spec_width() == rhs.spec_width(),
        ensures
            final(self).wf(),
            final(self).spec_height() == old(self).spec_height(),
            final(self).spec_width() == old(self).spec_width(),
    {
        let mut i: usize = 0;
        while i < self.data.len()
            invariant
                self.wf(),
                rhs.wf(),
                self.data.len() == old(self).data.len(),
                self.height == old(self).height,
                self.width == old(self).width,
                self.data.len() == rhs.data.len(),
            decreases self.data.len() - i,
        {
            let v = self.data[i].wrapping_sub(rhs.data[i]);
            self.data[i] = v;
            i = i + 1;
        }
    }
}

/// `dot`'s pointwise contract, read at the grid level: the produced
/// matrix is the grid product of the operands.
proof fn lemma_dot_is_grid_mul(a: Matrix, b: Matrix, r: Matrix)
    requires
        a.wf(),
        b.wf(),
        a.spec_width() == b.spec_height(),
        r.spec_height() == a.spec_height(),
        r.spec_width() == b.spec_width(),
        a.spec_height() == a.spec_width(),
        b.spec_height() == b.spec_width(),
        forall|i: int, j: int|
            0 <= i < a.spec_height() && 0 <= j < b.spec_width() ==> r.spec_at(i, j) == dot_partial(
                a,
                b,
                i,
                j,
                a.spec_width(),
            ),
    ensures
        grid_of(r) == grid_mul(grid_of(a), grid_of(b), a.spec_height()),
{
    let n = a.spec_height();
    assert forall|i: int, j: int| 0 <= i < n && 0 <= j < n implies dot_partial(a, b, i, j, n)
        == grid_dot(grid_of(a), grid_of(b), i, j, n) by {
        lemma_dot_partial_matches_grid(a, b, i, j, n);
    }
    assert(grid_of(r) =~~= grid_mul(grid_of(a), grid_of(b), n));
}

/// The matrix-level and grid-level dot products agree term by term.
proof fn lemma_dot_partial_matches_grid(a: Matrix, b: Matrix, i: int, j: int, k: int)
    requires
        0 <= i < a.spec_height(),
        0 <= j < b.spec_width(),
        k <= a.spec_width(),
        k <= b.spec_height(),
    ensures
        dot_partial(a, b, i, j, k) == grid_dot(grid_of(a), grid_of(b), i, j, k),
    decreases k,
{
    if k > 0 {
        lemma_dot_partial_matches_grid(a, b, i, j, k - 1);
        assert(grid_of(a)[i][k - 1] == a.spec_at(i, k - 1));
        assert(grid_of(b)[k - 1][j] == b.spec_at(k - 1, j));
    }
}

/// A faithful copy of a flat buffer.
fn clone_data(v: &Vec<i64>) -> (r: Vec<i64>)
    ensures
        r@ == v@,
{
    let mut out: Vec<i64> = Vec::new();
    let mut i: usize = 0;
    while i < v.len()
        invariant
            i <= v.len(),
            out@ == v@.subrange(0, i as int),
        decreases v.len() - i,
    {
        out.push(v[i]);
        proof {
            assert(out@ =~= v@.subrange(0, i + 1));
        }
        i = i + 1;
    }
    proof {
        assert(v@.subrange(0, v@.len() as int) =~= v@);
    }
    out
}

} // verus!
