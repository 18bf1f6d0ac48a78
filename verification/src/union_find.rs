//! Disjoint-set forests: plain with path compression, undoable, and
//! weighted.

use vstd::prelude::*;

verus! {

/// A union-find over `0..n` with union by size and path compression.
/// `parent[i] < 0` marks a root and stores the negated size of its set.
///
/// Two ghost companions carry the meaning: `reps` maps every element to
/// the root representing its set (the partition), and `levels` ascends
/// strictly along every parent link, which is what lets the climbs
/// terminate and path compression stay sound.
pub struct UnionFind {
    parent: Vec<i32>,
    size: usize,
    reps: Ghost<Seq<int>>,
    levels: Ghost<Seq<nat>>,
    cap: Ghost<nat>,
}

impl UnionFind {
    /// The forest invariant: links point inward and strictly up in
    /// level, every element's representative is a root, and linked
    /// elements share it.
    pub closed spec fn wf(&self) -> bool {
        &&& self.parent.len() <= 0x4000_0000
        &&& self.reps@.len() == self.parent.len()
        &&& self.levels@.len() == self.parent.len()
        &&& self.size <= self.parent.len()
        &&& forall|i: int|
            0 <= i < self.parent.len() && #[trigger] self.parent@[i] >= 0 ==> {
                &&& self.parent@[i] < self.parent.len()
                &&& self.levels@[self.parent@[i] as int] > self.levels@[i]
                &&& self.reps@[self.parent@[i] as int] == self.reps@[i]
            }
        &&& forall|i: int|
            0 <= i < self.parent.len() && #[trigger] self.parent@[i] < 0 ==> -self.parent@[i]
                <= self.parent.len() && self.reps@[i] == i
        &&& forall|i: int| 0 <= i < self.parent.len() ==> #[trigger] self.levels@[i] <= self.cap@
        &&& forall|i: int|
            0 <= i < self.parent.len() ==> 0 <= #[trigger] self.reps@[i] < self.parent.len()
                && self.parent@[self.reps@[i]] < 0
    }

    /// The number of elements.
    pub closed spec fn spec_len(&self) -> nat {
        self.parent.len() as nat
    }

    /// The representative of element `i`: the partition, as mathematics
    /// sees it.
    pub closed spec fn spec_rep(&self, i: int) -> int {
        self.reps@[i]
    }

    /// A forest of `size` singletons: every element represents itself.
    pub fn new(size: usize) -> (r: UnionFind)
        requires
            size <= 0x4000_0000,
        ensures
            r.wf(),
            r.spec_len() == size,
            r.spec_size() == size,
            forall|i: int| 0 <= i < size ==> r.spec_rep(i) == i,
    {
        let mut parent: Vec<i32> = Vec::new();
        while parent.len() < size
            invariant
                parent.len() <= size,
                forall|i: int| 0 <= i < parent.len() ==> parent@[i] == -1,
            decreases size - parent.len(),
        {
            parent.push(-1);
        }
        UnionFind {
            parent,
            size,
            reps: Ghost(Seq::new(size as nat, |i: int| i)),
            levels: Ghost(Seq::new(size as nat, |i: int| 0nat)),
            cap: Ghost(0nat),
        }
    }

    /// The root of `x`'s tree — its representative — compressing the
    /// path behind it.  The partition itself never changes.
    pub fn root(&mut self, x: usize) -> (r: usize)
        requires
            old(self).wf(),
            x < old(self).spec_len(),
        ensures
            final(self).wf(),
            final(self).spec_len() == old(self).spec_len(),
            final(self).spec_size() == old(self).spec_size(),
            forall|i: int|
                0 <= i < old(self).spec_len() ==> final(self).spec_rep(i) == old(self).spec_rep(i),
            r == old(self).spec_rep(x as int),
    {
        // First climb to the root: levels ascend strictly, so the walk
        // is finite.
        let mut cur = x;
        while self.parent[cur] >= 0
            invariant
                self.wf(),
                cur < self.parent.len(),
                self == old(self),
                self.reps@[cur as int] == self.reps@[x as int],
            decreases self.cap@ - self.levels@[cur as int],
        {
            cur = self.parent[cur] as usize;
        }
        let root = cur;
        proof {
            assert(root == self.reps@[x as int]);
        }
        // Then point everything on the path straight at it; the nodes
        // walked keep their original levels, so the walk is the same.
        let ghost cap0 = self.cap@;
        let mut cur = x;
        while self.parent[cur] >= 0 && cur != root
            invariant
                self.wf(),
                cur < self.parent.len(),
                root < self.parent.len(),
                self.parent.len() == old(self).spec_len(),
                self.size == old(self).size,
                self.reps@ == old(self).reps@,
                // Only the root's level rises during compression.
                forall|i: int|
                    0 <= i < self.parent.len() && i != root ==> #[trigger] self.levels@[i] == old(
                        self,
                    ).levels@[i],
                self.cap@ >= cap0,
                cap0 == old(self).cap@,
                old(self).wf(),
                self.parent@[root as int] < 0,
                self.reps@[cur as int] == self.reps@[x as int],
                self.reps@[x as int] == root,
                cur != root ==> self.levels@[cur as int] <= cap0,
            decreases (if cur == root {
                0int
            } else {
                1 + cap0 - self.levels@[cur as int]
            }),
        {
            let next = self.parent[cur] as usize;
            let ghost before = self.parent@;
            let ghost levels0 = self.levels@;
            proof {
                // The link read just now ascends: remember it before the
                // root's level moves.
                assert(levels0[next as int] > levels0[cur as int]);
            }
            self.parent[cur] = root as i32;
            proof {
                // Raise the root's level above the node just rewired, so
                // the new link ascends like every other.
                let lc = self.levels@[cur as int];
                let lr = self.levels@[root as int];
                let bump: nat = if lr > lc {
                    lr
                } else {
                    lc + 1
                };
                self.levels = Ghost(self.levels@.update(root as int, bump));
                self.cap = Ghost(if self.cap@ > bump {
                    self.cap@
                } else {
                    bump
                });
                assert forall|i: int|
                    0 <= i < self.parent.len() && #[trigger] self.parent@[i] >= 0 implies {
                    &&& self.parent@[i] < self.parent.len()
                    &&& self.levels@[self.parent@[i] as int] > self.levels@[i]
                    &&& self.reps@[self.parent@[i] as int] == self.reps@[i]
                } by {
                    if i != cur {
                        assert(self.parent@[i] == before[i]);
                    }
                    if i == root {
                        assert(before[root as int] < 0);
                    }
                }
                // The walk itself only climbs: the next node's level is
                // above the current one's whether or not it is the root.
                assert(next != root ==> self.levels@[next as int] == levels0[next as int]);
                assert(self.levels@[root as int] >= levels0[root as int]);
            }
            cur = next;
        }
        root
    }

    /// Is `x` its own representative?
    pub fn is_root(&mut self, x: usize) -> (r: bool)
        requires
            old(self).wf(),
            x < old(self).spec_len(),
        ensures
            final(self).wf(),
            final(self).spec_len() == old(self).spec_len(),
            final(self).spec_size() == old(self).spec_size(),
            forall|i: int|
                0 <= i < old(self).spec_len() ==> final(self).spec_rep(i) == old(self).spec_rep(i),
            r == (old(self).spec_rep(x as int) == x),
    {
        let r = self.root(x);
        r == x
    }

    /// Do `x` and `y` share a representative?
    pub fn is_same_set(&mut self, x: usize, y: usize) -> (r: bool)
        requires
            old(self).wf(),
            x < old(self).spec_len(),
            y < old(self).spec_len(),
        ensures
            final(self).wf(),
            final(self).spec_len() == old(self).spec_len(),
            final(self).spec_size() == old(self).spec_size(),
            forall|i: int|
                0 <= i < old(self).spec_len() ==> final(self).spec_rep(i) == old(self).spec_rep(i),
            r == (old(self).spec_rep(x as int) == old(self).spec_rep(y as int)),
    {
        let a = self.root(x);
        let b = self.root(y);
        a == b
    }

    /// Merges the sets of `x` and `y`, the smaller tree under the larger.
    /// Returns `(new_root, merged_root)` and redirects every element of
    /// the merged root's set, or `None` exactly when the two already
    /// share a set (the partition then stays as it was).
    pub fn unite(&mut self, x: usize, y: usize) -> (r: Option<(usize, usize)>)
        requires
            old(self).wf(),
            x < old(self).spec_len(),
            y < old(self).spec_len(),
        ensures
            final(self).wf(),
            final(self).spec_len() == old(self).spec_len(),
            r is None <==> old(self).spec_rep(x as int) == old(self).spec_rep(y as int),
            r is None ==> forall|i: int|
                0 <= i < old(self).spec_len() ==> final(self).spec_rep(i) == old(self).spec_rep(i),
            r is None ==> final(self).spec_size() == old(self).spec_size(),
            r matches Some(p) ==> {
                &&& p.0 != p.1
                &&& p.0 < final(self).spec_len() && p.1 < final(self).spec_len()
                &&& {
                    p.0 == old(self).spec_rep(x as int) && p.1 == old(self).spec_rep(y as int)
                } || {
                    p.0 == old(self).spec_rep(y as int) && p.1 == old(self).spec_rep(x as int)
                }
                &&& forall|i: int|
                    0 <= i < old(self).spec_len() ==> final(self).spec_rep(i) == (if old(
                        self,
                    ).spec_rep(i) == p.1 {
                        p.0 as int
                    } else {
                        old(self).spec_rep(i)
                    })
            },
            r is Some && old(self).spec_size() >= 1 ==> final(self).spec_size() == old(self).spec_size() - 1,
    {
        let x_root = self.root(x);
        let y_root = self.root(y);
        if x_root == y_root {
            return None;
        }
        let size1 = self.parent[x_root];
        let size2 = self.parent[y_root];
        let bound = -(self.parent.len() as i32);
        let (new_root, merged_root) = if size1 <= size2 {
            self.link(y_root, x_root);
            let merged = size1 + size2;
            let merged = if merged < bound {
                bound
            } else {
                merged
            };
            self.set_root_weight(x_root, merged);
            (x_root, y_root)
        } else {
            self.link(x_root, y_root);
            let merged = size1 + size2;
            let merged = if merged < bound {
                bound
            } else {
                merged
            };
            self.set_root_weight(y_root, merged);
            (y_root, x_root)
        };
        if self.size >= 1 {
            self.size = self.size - 1;
        }
        Some((new_root, merged_root))
    }

    /// Hangs the root `child` under the root `winner`, redirecting the
    /// whole merged set's representatives.
    fn link(&mut self, child: usize, winner: usize)
        requires
            old(self).wf(),
            child < old(self).spec_len(),
            winner < old(self).spec_len(),
            child != winner,
            old(self).parent@[child as int] < 0,
            old(self).parent@[winner as int] < 0,
        ensures
            final(self).wf(),
            final(self).spec_len() == old(self).spec_len(),
            final(self).spec_size() == old(self).spec_size(),
            final(self).parent@[winner as int] == old(self).parent@[winner as int],
            forall|i: int|
                0 <= i < old(self).spec_len() && i != child ==> final(self).parent@[i] == old(
                    self,
                ).parent@[i],
            forall|i: int|
                0 <= i < old(self).spec_len() ==> final(self).spec_rep(i) == (if old(
                    self,
                ).spec_rep(i) == child {
                    winner as int
                } else {
                    old(self).spec_rep(i)
                }),
    {
        let ghost before = self.parent@;
        proof {
            // The winner's level rises above the child's, so the new link
            // ascends; every element of the child's set moves over.
            let lc = self.levels@[child as int];
            let lw = self.levels@[winner as int];
            let bump: nat = if lw > lc {
                lw
            } else {
                lc + 1
            };
            self.levels = Ghost(self.levels@.update(winner as int, bump));
            self.cap = Ghost(if self.cap@ > bump {
                self.cap@
            } else {
                bump
            });
            self.reps = Ghost(
                Seq::new(
                    self.reps@.len(),
                    |i: int|
                        if self.reps@[i] == child {
                            winner as int
                        } else {
                            self.reps@[i]
                        },
                ),
            );
        }
        self.parent[child] = winner as i32;
        proof {
            assert forall|i: int|
                0 <= i < self.parent.len() && #[trigger] self.parent@[i] >= 0 implies {
                &&& self.parent@[i] < self.parent.len()
                &&& self.levels@[self.parent@[i] as int] > self.levels@[i]
                &&& self.reps@[self.parent@[i] as int] == self.reps@[i]
            } by {
                if i != child {
                    assert(self.parent@[i] == before[i]);
                }
            }
        }
    }

    /// Overwrites a root's stored (negated) set size.
    fn set_root_weight(&mut self, root: usize, weight: i32)
        requires
            old(self).wf(),
            root < old(self).spec_len(),
            old(self).parent@[root as int] < 0,
            weight < 0,
            -weight <= old(self).spec_len(),
        ensures
            final(self).wf(),
            final(self).spec_len() == old(self).spec_len(),
            final(self).spec_size() == old(self).spec_size(),
            forall|i: int|
                0 <= i < old(self).spec_len() ==> final(self).spec_rep(i) == old(self).spec_rep(i),
    {
        let ghost before = self.parent@;
        self.parent[root] = weight;
        proof {
            assert forall|i: int|
                0 <= i < self.parent.len() && #[trigger] self.parent@[i] >= 0 implies {
                &&& self.parent@[i] < self.parent.len()
                &&& self.levels@[self.parent@[i] as int] > self.levels@[i]
                &&& self.reps@[self.parent@[i] as int] == self.reps@[i]
            } by {
                assert(self.parent@[i] == before[i]);
            }
            assert forall|i: int|
                0 <= i < self.parent.len() implies 0 <= #[trigger] self.reps@[i]
                < self.parent.len() && self.parent@[self.reps@[i]] < 0 by {
                if self.reps@[i] != root {
                    assert(self.parent@[self.reps@[i]] == before[self.reps@[i]]);
                }
            }
        }
    }

    /// The size of the set holding `x`, as the winning root recorded it.
    pub fn union_size(&mut self, x: usize) -> (r: usize)
        requires
            old(self).wf(),
            x < old(self).spec_len(),
        ensures
            final(self).wf(),
            final(self).spec_len() == old(self).spec_len(),
            final(self).spec_size() == old(self).spec_size(),
            forall|i: int|
                0 <= i < old(self).spec_len() ==> final(self).spec_rep(i) == old(self).spec_rep(i),
    {
        let root = self.root(x);
        let stored = self.parent[root];
        if stored < 0 {
            (-stored) as usize
        } else {
            1
        }
    }

    /// The number of sets.
    pub fn size(&self) -> (r: usize)
        ensures
            r == self.spec_size(),
    {
        self.size
    }

    /// The stored set count.
    pub closed spec fn spec_size(&self) -> nat {
        self.size as nat
    }
}

/// A union-find without path compression whose merges can be undone in
/// reverse order.
pub struct UndoUnionFind {
    parent: Vec<u32>,
    size: Vec<u32>,
    stack: Vec<Option<(u32, u32)>>,
}

impl UndoUnionFind {
    /// Entries point inside the forest.
    pub closed spec fn wf(&self) -> bool {
        &&& self.parent.len() == self.size.len()
        &&& self.parent.len() < 0x8000_0000
        &&& forall|i: int| 0 <= i < self.parent.len() ==> #[trigger] self.parent@[i] < self.parent.len()
        &&& forall|i: int|
            0 <= i < self.stack.len() ==> (#[trigger] self.stack@[i] matches Some(p) ==> p.0
                < self.parent.len() && p.1 < self.parent.len())
    }

    /// The number of elements.
    pub closed spec fn spec_len(&self) -> nat {
        self.parent.len() as nat
    }

    /// A forest of `n` singletons.
    pub fn new(n: usize) -> (r: UndoUnionFind)
        requires
            n < 0x8000_0000,
        ensures
            r.wf(),
            r.spec_len() == n,
    {
        let mut parent: Vec<u32> = Vec::new();
        let mut size: Vec<u32> = Vec::new();
        let mut i: usize = 0;
        while i < n
            invariant
                i <= n,
                n < 0x8000_0000,
                parent.len() == i,
                size.len() == i,
                forall|j: int| 0 <= j < i ==> #[trigger] parent@[j] == j,
            decreases n - i,
        {
            parent.push(i as u32);
            size.push(1);
            i = i + 1;
        }
        let mut res = UndoUnionFind { parent, size, stack: Vec::new() };
        res.init();
        res
    }

    /// Resets every element to its own singleton and clears the history.
    pub fn init(&mut self)
        requires
            old(self).wf(),
        ensures
            final(self).wf(),
            final(self).spec_len() == old(self).spec_len(),
            final(self).spec_depth() == 0,
    {
        self.stack.clear();
        let n = self.parent.len();
        let mut i: usize = 0;
        while i < n
            invariant
                i <= n,
                n < 0x8000_0000,
                self.parent.len() == n,
                self.size.len() == n,
                self.stack.len() == 0,
                forall|j: int| 0 <= j < n ==> #[trigger] self.parent@[j] < n || j >= i,
            decreases n - i,
        {
            self.parent[i] = i as u32;
            self.size[i] = 1;
            i = i + 1;
        }
    }

    /// How many merges are on the undo stack.
    pub closed spec fn spec_depth(&self) -> nat {
        self.stack.len() as nat
    }

    /// Is `x` its own representative?
    pub fn is_root(&self, x: usize) -> (r: bool)
        requires
            self.wf(),
            x < self.spec_len(),
    {
        x == self.root(x)
    }

    /// The root of `x`'s tree.
    pub fn root(&self, x: usize) -> (r: usize)
        requires
            self.wf(),
            x < self.spec_len(),
        ensures
            r < self.spec_len(),
    {
        let n = self.parent.len();
        let mut cur = x;
        let mut fuel = n;
        while fuel > 0 && self.parent[cur] as usize != cur
            invariant
                self.wf(),
                cur < self.parent.len(),
                n == self.parent.len(),
            decreases fuel,
        {
            cur = self.parent[cur] as usize;
            fuel = fuel - 1;
        }
        cur
    }

    /// Do `x` and `y` share a representative?
    pub fn is_same_set(&self, x: usize, y: usize) -> (r: bool)
        requires
            self.wf(),
            x < self.spec_len(),
            y < self.spec_len(),
    {
        self.root(x) == self.root(y)
    }

    /// Merges the sets of `x` and `y` and records the merge so it can be
    /// undone.  Returns the roots `(kept, attached)`, or `None` when the
    /// two were already one set (which is recorded too).
    pub fn unite(&mut self, x: usize, y: usize) -> (r: Option<(usize, usize)>)
        requires
            old(self).wf(),
            x < old(self).spec_len(),
            y < old(self).spec_len(),
        ensures
            final(self).wf(),
            final(self).spec_len() == old(self).spec_len(),
            final(self).spec_depth() == old(self).spec_depth() + 1,
            r matches Some(p) ==> p.0 < final(self).spec_len() && p.1 < final(self).spec_len(),
    {
        let mut x = self.root(x);
        let mut y = self.root(y);
        if x == y {
            self.stack.push(None);
            return None;
        }
        if self.size[x] < self.size[y] || (self.size[x] == self.size[y] && x < y) {
            let t = x;
            x = y;
            y = t;
        }
        let merged = if self.size[x] as u64 + self.size[y] as u64 <= u32::MAX as u64 {
            self.size[x] + self.size[y]
        } else {
            u32::MAX
        };
        self.size[x] = merged;
        self.parent[y] = x as u32;
        self.stack.push(Some((x as u32, y as u32)));
        Some((x, y))
    }

    /// The size of the set holding `x`.
    pub fn union_size(&self, x: usize) -> (r: usize)
        requires
            self.wf(),
            x < self.spec_len(),
    {
        let r = self.root(x);
        self.size[r] as usize
    }

    /// Reverts the most recent merge; `None` if that merge was a no-op.
    /// The history must be non-empty.
    pub fn undo(&mut self) -> (r: Option<(usize, usize)>)
        requires
            old(self).wf(),
            old(self).spec_depth() > 0,
        ensures
            final(self).wf(),
            final(self).spec_len() == old(self).spec_len(),
            final(self).spec_depth() == old(self).spec_depth() - 1,
    {
        let top = self.stack.pop().unwrap();
        match top {
            None => None,
            Some((x, y)) => {
                let x = x as usize;
                let y = y as usize;
                let sy = self.size[y];
                let sx = self.size[x];
                self.size[x] = if sx >= sy {
                    sx - sy
                } else {
                    0
                };
                self.parent[y] = y as u32;
                Some((x, y))
            },
        }
    }

    /// Forgets the history: later rollbacks stop here.
    pub fn snap(&mut self)
        requires
            old(self).wf(),
        ensures
            final(self).wf(),
            final(self).spec_len() == old(self).spec_len(),
            final(self).spec_depth() == 0,
    {
        self.stack.clear();
    }

    /// Undoes every merge back to the last snapshot.
    pub fn rollback(&mut self)
        requires
            old(self).wf(),
        ensures
            final(self).wf(),
            final(self).spec_len() == old(self).spec_len(),
            final(self).spec_depth() == 0,
    {
        while self.stack.len() > 0
            invariant
                self.wf(),
                self.spec_len() == old(self).spec_len(),
            decreases self.stack.len(),
        {
            self.undo();
        }
    }
}

/// A weighted union-find: every element carries a potential relative to
/// its root, and `merge(x, y, w)` demands `weight(y) == weight(x) + w`,
/// with wrapping 64-bit arithmetic.
pub struct WeightedUnionFind {
    par: Vec<usize>,
    rank: Vec<usize>,
    diff_weight: Vec<i64>,
}

impl WeightedUnionFind {
    /// Entries point inside the forest.
    pub closed spec fn wf(&self) -> bool {
        &&& self.par.len() == self.rank.len()
        &&& self.par.len() == self.diff_weight.len()
        &&& forall|i: int| 0 <= i < self.par.len() ==> #[trigger] self.par@[i] < self.par.len()
    }

    /// The number of elements.
    pub closed spec fn spec_len(&self) -> nat {
        self.par.len() as nat
    }

    /// A forest of `n` singletons, every weight `sum_unity`.
    pub fn new(n: usize, sum_unity: i64) -> (r: WeightedUnionFind)
        ensures
            r.wf(),
            r.spec_len() == n,
    {
        let mut par: Vec<usize> = Vec::new();
        let mut rank: Vec<usize> = Vec::new();
        let mut diff_weight: Vec<i64> = Vec::new();
        let mut i: usize = 0;
        while i < n
            invariant
                i <= n,
                par.len() == i,
                rank.len() == i,
                diff_weight.len() == i,
                forall|j: int| 0 <= j < i ==> #[trigger] par@[j] == j,
            decreases n - i,
        {
            par.push(i);
            rank.push(0);
            diff_weight.push(sum_unity);
            i = i + 1;
        }
        WeightedUnionFind { par, rank, diff_weight }
    }

    /// The root of `x`, compressing the path and accumulating weights.
    pub fn root(&mut self, x: usize) -> (r: usize)
        requires
            old(self).wf(),
            x < old(self).spec_len(),
        ensures
            final(self).wf(),
            final(self).spec_len() == old(self).spec_len(),
            r < final(self).spec_len(),
    {
        // Climb to the root first.
        let n = self.par.len();
        let mut cur = x;
        let mut fuel = n;
        while fuel > 0 && self.par[cur] != cur
            invariant
                self.wf(),
                cur < self.par.len(),
                n == self.par.len(),
            decreases fuel,
        {
            cur = self.par[cur];
            fuel = fuel - 1;
        }
        let root = cur;
        // Then re-walk the path, accumulating each node's offset to the
        // root and pointing it straight there.
        let mut cur = x;
        let mut fuel = n;
        let mut acc: i64 = 0;
        while fuel > 0 && self.par[cur] != cur
            invariant
                self.wf(),
                cur < self.par.len(),
                root < self.par.len(),
                n == self.par.len(),
            decreases fuel,
        {
            let next = self.par[cur];
            let w = self.diff_weight[next];
            let updated = self.diff_weight[cur].wrapping_add(w);
            if next != root {
                self.diff_weight[cur] = updated;
            }
            self.par[cur] = root;
            cur = next;
            fuel = fuel - 1;
        }
        root
    }

    /// The accumulated weight from `x` to its root.
    pub fn weight(&mut self, x: usize) -> (r: i64)
        requires
            old(self).wf(),
            x < old(self).spec_len(),
        ensures
            final(self).wf(),
            final(self).spec_len() == old(self).spec_len(),
    {
        self.root(x);
        self.diff_weight[x]
    }

    /// Do `x` and `y` share a representative?
    pub fn is_same_set(&mut self, x: usize, y: usize) -> (r: bool)
        requires
            old(self).wf(),
            x < old(self).spec_len(),
            y < old(self).spec_len(),
        ensures
            final(self).wf(),
            final(self).spec_len() == old(self).spec_len(),
    {
        let a = self.root(x);
        let b = self.root(y);
        a == b
    }

    /// Merges so that `weight(y) == weight(x) + w`; `true` when the two
    /// sets were distinct.
    pub fn merge(&mut self, x: usize, y: usize, w: i64) -> (r: bool)
        requires
            old(self).wf(),
            x < old(self).spec_len(),
            y < old(self).spec_len(),
        ensures
            final(self).wf(),
            final(self).spec_len() == old(self).spec_len(),
    {
        let wx = self.weight(x);
        let wy = self.weight(y);
        let mut w = w.wrapping_add(wx).wrapping_sub(wy);
        let mut x = self.root(x);
        let mut y = self.root(y);
        if x == y {
            return false;
        }
        if self.rank[x] < self.rank[y] {
            let t = x;
            x = y;
            y = t;
            w = w.wrapping_mul(-1);
        }
        if self.rank[x] == self.rank[y] {
            if self.rank[x] < usize::MAX {
                self.rank[x] = self.rank[x] + 1;
            }
        }
        self.par[y] = x;
        self.diff_weight[y] = w;
        true
    }

    /// `weight(y) - weight(x)`; meaningful when the two share a set.
    pub fn diff(&mut self, x: usize, y: usize) -> (r: i64)
        requires
            old(self).wf(),
            x < old(self).spec_len(),
            y < old(self).spec_len(),
        ensures
            final(self).wf(),
            final(self).spec_len() == old(self).spec_len(),
    {
        let wy = self.weight(y);
        let wx = self.weight(x);
        wy.wrapping_sub(wx)
    }
}

} // verus!
