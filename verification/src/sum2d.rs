//! Two-dimensional cumulative sums over wrapping 64-bit integers:
//! seed cells, build prefix sums once, then answer rectangle sums.

use vstd::prelude::*;

verus! {

use crate::fenwick_tree::{wadd, wsub};

/// A `height` x `width` grid with a one-cell sentinel margin, turned into
/// inclusion-exclusion prefix sums by `build`.
pub struct Sum2d {
    data: Vec<Vec<i64>>,
    height: usize,
    width: usize,
}

impl Sum2d {
    /// The grid has its sentinel row and column, and they stay zero.
    pub closed spec fn wf(&self) -> bool {
        &&& 1 <= self.height <= 0x8000
        &&& 1 <= self.width <= 0x8000
        &&& self.data.len() == self.height + 1
        &&& forall|i: int|
            0 <= i < self.data.len() ==> #[trigger] self.data@[i]@.len() == self.width + 1
        &&& forall|j: int| 0 <= j < self.width + 1 ==> #[trigger] self.data@[0]@[j] == 0
        &&& forall|i: int| 0 <= i < self.data.len() ==> (#[trigger] self.data@[i])@[0] == 0
    }

    /// The height.
    pub closed spec fn spec_height(&self) -> int {
        self.height as int
    }

    /// The width.
    pub closed spec fn spec_width(&self) -> int {
        self.width as int
    }

    /// The stored value of grid cell `(y, x)`, sentinel included.
    pub closed spec fn spec_cell(&self, y: int, x: int) -> i64 {
        self.data@[y]@[x]
    }

    /// The inclusion-exclusion prefix of the stored cells: what every
    /// cell holds after `build`, over the cells stored before it.
    pub open spec fn spec_pref(&self, y: int, x: int) -> i64
        decreases y + x,
    {
        if y <= 0 || x <= 0 {
            0
        } else {
            wsub(
                wadd(wadd(self.spec_cell(y, x), self.spec_pref(y - 1, x)), self.spec_pref(y, x - 1)),
                self.spec_pref(y - 1, x - 1),
            )
        }
    }

    /// Makes a new `Sum2d` that has `height` x `width` cells, all zero.
    pub fn new(height: usize, width: usize) -> (r: Sum2d)
        requires
            1 <= height <= 0x8000,
            1 <= width <= 0x8000,
        ensures
            r.wf(),
            r.spec_height() == height,
            r.spec_width() == width,
            forall|y: int, x: int|
                0 <= y <= height && 0 <= x <= width ==> #[trigger] r.spec_cell(y, x) == 0,
    {
        let mut data: Vec<Vec<i64>> = Vec::new();
        while data.len() < height + 1
            invariant
                height <= 0x8000,
                width <= 0x8000,
                data.len() <= height + 1,
                forall|i: int| 0 <= i < data.len() ==> #[trigger] data@[i]@.len() == width + 1,
                forall|i: int, j: int|
                    0 <= i < data.len() && 0 <= j < width + 1 ==> #[trigger] data@[i]@[j] == 0,
            decreases height + 1 - data.len(),
        {
            let mut row: Vec<i64> = Vec::new();
            while row.len() < width + 1
                invariant
                    width <= 0x8000,
                    row.len() <= width + 1,
                    forall|t: int| 0 <= t < row.len() ==> #[trigger] row@[t] == 0,
                decreases width + 1 - row.len(),
            {
                row.push(0);
            }
            data.push(row);
        }
        Sum2d { data, height, width }
    }

    /// Adds `v` to the 0-indexed cell `(y, x)`, wrapping; every other
    /// cell keeps its value.
    pub fn add(&mut self, y: usize, x: usize, v: i64)
        requires
            old(self).wf(),
            y < old(self).spec_height(),
            x < old(self).spec_width(),
        ensures
            final(self).wf(),
            final(self).spec_height() == old(self).spec_height(),
            final(self).spec_width() == old(self).spec_width(),
            final(self).spec_cell(y + 1, x + 1) == wadd(old(self).spec_cell(y + 1, x + 1), v),
            forall|i: int, j: int|
                0 <= i <= old(self).spec_height() && 0 <= j <= old(self).spec_width() && !(i == y
                    + 1 && j == x + 1) ==> #[trigger] final(self).spec_cell(i, j) == old(
                    self,
                ).spec_cell(i, j),
    {
        let updated = self.data[y + 1][x + 1].wrapping_add(v);
        self.data[y + 1][x + 1] = updated;
        proof {
            assert forall|i: int| 0 <= i < self.data.len() implies #[trigger] self.data@[i]@.len()
                == self.width + 1 by {
                if i != y + 1 {
                    assert(self.data@[i] == old(self).data@[i]);
                }
            }
        }
    }

    /// Sets the 0-indexed cell `(y, x)` to `v`; every other cell keeps
    /// its value.
    pub fn set(&mut self, y: usize, x: usize, v: i64)
        requires
            old(self).wf(),
            y < old(self).spec_height(),
            x < old(self).spec_width(),
        ensures
            final(self).wf(),
            final(self).spec_height() == old(self).spec_height(),
            final(self).spec_width() == old(self).spec_width(),
            final(self).spec_cell(y + 1, x + 1) == v,
            forall|i: int, j: int|
                0 <= i <= old(self).spec_height() && 0 <= j <= old(self).spec_width() && !(i == y
                    + 1 && j == x + 1) ==> #[trigger] final(self).spec_cell(i, j) == old(
                    self,
                ).spec_cell(i, j),
    {
        self.data[y + 1][x + 1] = v;
        proof {
            assert forall|i: int| 0 <= i < self.data.len() implies #[trigger] self.data@[i]@.len()
                == self.width + 1 by {
                if i != y + 1 {
                    assert(self.data@[i] == old(self).data@[i]);
                }
            }
        }
    }

    /// Builds the cumulative sums in place: afterwards each cell holds
    /// the inclusion-exclusion prefix sum of everything above and left of
    /// it, in wrapping arithmetic.
    pub fn build(&mut self)
        requires
            old(self).wf(),
        ensures
            final(self).wf(),
            final(self).spec_height() == old(self).spec_height(),
            final(self).spec_width() == old(self).spec_width(),
            forall|yy: int, xx: int|
                1 <= yy <= old(self).spec_height() && 1 <= xx <= old(self).spec_width()
                    ==> #[trigger] final(self).spec_cell(yy, xx) == old(self).spec_pref(yy, xx),
    {
        let height = self.data.len();
        let mut y: usize = 1;
        while y < height
            invariant
                self.wf(),
                self.height == old(self).height,
                self.width == old(self).width,
                old(self).wf(),
                height == self.data.len(),
                1 <= y <= height,
                forall|yy: int, xx: int|
                    1 <= yy < y && 1 <= xx <= self.spec_width() ==> #[trigger] self.spec_cell(
                        yy,
                        xx,
                    ) == old(self).spec_pref(yy, xx),
                forall|yy: int, xx: int|
                    y <= yy < height && 1 <= xx <= self.spec_width() ==> #[trigger] self.spec_cell(
                        yy,
                        xx,
                    ) == old(self).spec_cell(yy, xx),
            decreases height - y,
        {
            let mut x: usize = 1;
            while x < self.width + 1
                invariant
                    self.wf(),
                    self.height == old(self).height,
                    self.width == old(self).width,
                    old(self).wf(),
                    height == self.data.len(),
                    1 <= y < height,
                    1 <= x <= self.spec_width() + 1,
                    forall|yy: int, xx: int|
                        1 <= yy < y && 1 <= xx <= self.spec_width() ==> #[trigger] self.spec_cell(
                            yy,
                            xx,
                        ) == old(self).spec_pref(yy, xx),
                    forall|xx: int|
                        1 <= xx < x ==> #[trigger] self.spec_cell(y as int, xx) == old(
                            self,
                        ).spec_pref(y as int, xx),
                    forall|xx: int|
                        x <= xx <= self.spec_width() ==> #[trigger] self.spec_cell(y as int, xx)
                            == old(self).spec_cell(y as int, xx),
                    forall|yy: int, xx: int|
                        y < yy < height && 1 <= xx <= self.spec_width()
                            ==> #[trigger] self.spec_cell(yy, xx) == old(self).spec_cell(yy, xx),
                decreases self.width + 1 - x,
            {
                let a = self.data[y][x];
                let up = self.data[y - 1][x];
                let left = self.data[y][x - 1];
                let diag = self.data[y - 1][x - 1];
                let v = a.wrapping_add(up).wrapping_add(left).wrapping_sub(diag);
                let ghost prev = *self;
                let ghost before = self.data@;
                proof {
                    assert(a == self.spec_cell(y as int, x as int));
                    assert(up == self.spec_cell(y as int - 1, x as int));
                    assert(left == self.spec_cell(y as int, x as int - 1));
                    assert(diag == self.spec_cell(y as int - 1, x as int - 1));
                    assert(up == old(self).spec_pref(y as int - 1, x as int));
                    assert(left == old(self).spec_pref(y as int, x as int - 1));
                    assert(diag == old(self).spec_pref(y as int - 1, x as int - 1));
                    assert(a == old(self).spec_cell(y as int, x as int));
                    assert(v == old(self).spec_pref(y as int, x as int));
                }
                self.data[y][x] = v;
                proof {
                    assert forall|i: int|
                        0 <= i < self.data.len() implies #[trigger] self.data@[i]@.len()
                        == self.width + 1 by {
                        if i != y {
                            assert(self.data@[i] == before[i]);
                        }
                    }
                    assert(self.spec_cell(y as int, x as int) == v);
                    assert forall|xx: int|
                        x + 1 <= xx <= self.spec_width() implies #[trigger] self.spec_cell(
                        y as int,
                        xx,
                    ) == old(self).spec_cell(y as int, xx) by {
                        assert(self.data@[y as int]@[xx] == prev.data@[y as int]@[xx]);
                        assert(prev.spec_cell(y as int, xx) == old(self).spec_cell(y as int, xx));
                    }
                    assert forall|yy: int, xx: int|
                        y < yy < height && 1 <= xx <= self.spec_width()
                            implies #[trigger] self.spec_cell(yy, xx) == old(self).spec_cell(
                        yy,
                        xx,
                    ) by {
                        assert(self.data@[yy] == prev.data@[yy]);
                        assert(prev.spec_cell(yy, xx) == old(self).spec_cell(yy, xx));
                    }
                    assert forall|yy: int, xx: int|
                        1 <= yy < y && 1 <= xx <= self.spec_width()
                            implies #[trigger] self.spec_cell(yy, xx) == old(self).spec_pref(
                        yy,
                        xx,
                    ) by {
                        assert(self.data@[yy] == prev.data@[yy]);
                        assert(prev.spec_cell(yy, xx) == old(self).spec_pref(yy, xx));
                    }
                    assert forall|xx: int|
                        1 <= xx < x + 1 implies #[trigger] self.spec_cell(y as int, xx) == old(
                        self,
                    ).spec_pref(y as int, xx) by {
                        if xx < x {
                            assert(self.data@[y as int]@[xx] == prev.data@[y as int]@[xx]);
                            assert(prev.spec_cell(y as int, xx) == old(self).spec_pref(
                                y as int,
                                xx,
                            ));
                        }
                    }
                }
                x = x + 1;
            }
            y = y + 1;
        }
    }

    /// The wrapping sum of the 0-indexed area `sy <= y <= gy`,
    /// `sx <= x <= gx`, read from the built prefix grid by
    /// inclusion-exclusion over four stored cells.
    pub fn query(&self, sy: usize, sx: usize, gy: usize, gx: usize) -> (r: i64)
        requires
            self.wf(),
            sy <= gy,
            sx <= gx,
            gy < self.spec_height(),
            gx < self.spec_width(),
        ensures
            r == wsub(
                wsub(
                    wadd(self.spec_cell(gy + 1, gx + 1), self.spec_cell(sy as int, sx as int)),
                    self.spec_cell(gy + 1, sx as int),
                ),
                self.spec_cell(sy as int, gx + 1),
            ),
    {
        let a = self.data[gy + 1][gx + 1];
        let b = self.data[sy][sx];
        let c = self.data[gy + 1][sx];
        let d = self.data[sy][gx + 1];
        a.wrapping_add(b).wrapping_sub(c).wrapping_sub(d)
    }
}

} // verus!
