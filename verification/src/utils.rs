//! Grid helpers: stepping to one of the eight neighbouring cells.

use vstd::prelude::*;

verus! {

/// The eight directions, as `(dy, dx)`: right, down, left, up, then the
/// four diagonals in the same order.
pub open spec fn dyx(dir: int) -> (int, int) {
    if dir == 0 {
        (0, 1)
    } else if dir == 1 {
        (1, 0)
    } else if dir == 2 {
        (0, -1)
    } else if dir == 3 {
        (-1, 0)
    } else if dir == 4 {
        (1, 1)
    } else if dir == 5 {
        (-1, 1)
    } else if dir == 6 {
        (1, -1)
    } else {
        (-1, -1)
    }
}

/// The neighbour of `(y, x)` in direction `dir` on an `h` by `w` grid, or
/// `None` when the step leaves the grid.
pub fn try_adj(y: usize, x: usize, dir: usize, h: usize, w: usize) -> (r: Option<(usize, usize)>)
    requires
        dir < 8,
        y <= 0x1000_0000_0000_0000,
        x <= 0x1000_0000_0000_0000,
        h <= 0x1000_0000_0000_0000,
        w <= 0x1000_0000_0000_0000,
    ensures
        ({
            let (dy, dx) = dyx(dir as int);
            let ny = y + dy;
            let nx = x + dx;
            if 0 <= ny < h && 0 <= nx < w {
                r == Option::<(usize, usize)>::Some((ny as usize, nx as usize))
            } else {
                r is None
            }
        }),
{
    let (dy, dx): (i64, i64) = if dir == 0 {
        (0, 1)
    } else if dir == 1 {
        (1, 0)
    } else if dir == 2 {
        (0, -1)
    } else if dir == 3 {
        (-1, 0)
    } else if dir == 4 {
        (1, 1)
    } else if dir == 5 {
        (-1, 1)
    } else if dir == 6 {
        (1, -1)
    } else {
        (-1, -1)
    };
    let ny = y as i64 + dy;
    let nx = x as i64 + dx;
    if ny >= 0 && nx >= 0 && ny < h as i64 && nx < w as i64 {
        Some((ny as usize, nx as usize))
    } else {
        None
    }
}

} // verus!
