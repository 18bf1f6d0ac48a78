//! A xorshift pseudo-random generator with period `2^128 - 1`.

use vstd::prelude::*;

verus! {

/// The four-word xorshift state.
#[derive(Debug, Clone)]
pub struct Xorshift128 {
    pub x: u32,
    pub y: u32,
    pub z: u32,
    pub w: u32,
}

/// One step of the generator: the word it emits next.
pub open spec fn xorshift_next(s: Xorshift128) -> u32 {
    (s.w ^ (s.w >> 19)) ^ ((s.x ^ (s.x << 11)) ^ ((s.x ^ (s.x << 11)) >> 8))
}

impl Default for Xorshift128 {
    /// The generator's published reference seed.
    fn default() -> (r: Self)
        ensures
            r.x == 123456789 && r.y == 362436069 && r.z == 521288629 && r.w == 88675123,
    {
        Xorshift128 { x: 123456789, y: 362436069, z: 521288629, w: 88675123 }
    }
}

impl Xorshift128 {
    /// The reference state with `seed` mixed into one word.
    pub fn new(seed: u32) -> (r: Xorshift128)
        ensures
            r.x == 123456789 && r.y == 362436069 && r.z == (521288629u32 ^ seed) && r.w
                == 88675123,
    {
        let mut xorshift = Xorshift128::default();
        xorshift.z = xorshift.z ^ seed;
        xorshift
    }

    /// Emits the next word and rotates the state.
    pub fn gen(&mut self) -> (r: u32)
        ensures
            r == xorshift_next(*old(self)),
            final(self).x == old(self).y,
            final(self).y == old(self).z,
            final(self).z == old(self).w,
            final(self).w == r,
    {
        let t = self.x ^ (self.x << 11u32);
        self.x = self.y;
        self.y = self.z;
        self.z = self.w;
        self.w = (self.w ^ (self.w >> 19u32)) ^ (t ^ (t >> 8u32));
        self.w
    }

    /// A value in `[0, bound)`, from the next word.
    pub fn gen_range(&mut self, bound: u32) -> (r: u32)
        requires
            bound > 0,
        ensures
            r < bound,
    {
        let v = self.gen();
        v % bound
    }
}

} // verus!
