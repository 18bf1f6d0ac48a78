//! Lowest common ancestors by binary lifting: `parents[k][u]` is the
//! ancestor `2^k` steps above `u`.

use vstd::prelude::*;

verus! {

/// The lifting tables and depths of a rooted tree.
pub struct Lca {
    parents: Vec<Vec<Option<usize>>>,
    dists: Vec<usize>,
}

impl Lca {
    /// At least one lifting level, all levels sized alike, every parent
    /// pointer in range.
    pub closed spec fn wf(&self) -> bool {
        &&& 1 <= self.parents.len() <= 64
        &&& self.dists.len() >= 1
        &&& self.dists.len() <= 0x1000_0000
        &&& forall|k: int|
            0 <= k < self.parents.len() ==> #[trigger] self.parents@[k]@.len() == self.dists.len()
        &&& forall|k: int, u: int|
            0 <= k < self.parents.len() && 0 <= u < self.dists.len() ==> (
            #[trigger] self.parents@[k]@[u] matches Some(p) ==> p < self.dists.len())
    }

    /// The number of nodes.
    pub closed spec fn spec_len(&self) -> nat {
        self.dists.len() as nat
    }

    /// Builds the tables for the tree on `n` nodes rooted at `root`,
    /// given adjacency lists.
    pub fn new(root: usize, n: usize, edges: &Vec<Vec<usize>>) -> (r: Lca)
        requires
            1 <= n <= 0x1000_0000,
            root < n,
            edges@.len() == n,
            forall|i: int, j: int|
                0 <= i < edges@.len() && 0 <= j < edges@[i]@.len() ==> #[trigger] edges@[i]@[j] < n,
        ensures
            r.wf(),
            r.spec_len() == n,
    {
        let mut k: usize = 1;
        while k < 32 && (1u64 << (k as u64)) < n as u64
            invariant
                1 <= k <= 64,
            decreases 64 - k,
        {
            let doubled = if k <= 32 {
                k * 2
            } else {
                64
            };
            k = if doubled > 64 {
                64
            } else {
                doubled
            };
        }
        let mut parents: Vec<Vec<Option<usize>>> = Vec::new();
        while parents.len() < k
            invariant
                parents.len() <= k,
                forall|t: int| 0 <= t < parents@.len() ==> #[trigger] parents@[t]@.len() == n,
                forall|t: int, u: int|
                    0 <= t < parents@.len() && 0 <= u < n ==> (#[trigger] parents@[t]@[u] matches
                        Some(p) ==> p < n),
            decreases k - parents.len(),
        {
            let mut row: Vec<Option<usize>> = Vec::new();
            while row.len() < n
                invariant
                    row.len() <= n,
                    forall|u: int| 0 <= u < row@.len() ==> #[trigger] row@[u] is None,
                decreases n - row.len(),
            {
                row.push(None);
            }
            parents.push(row);
        }
        let mut dists: Vec<usize> = Vec::new();
        while dists.len() < n
            invariant
                dists.len() <= n,
            decreases n - dists.len(),
        {
            dists.push(0);
        }
        let mut lca = Lca { parents, dists };
        // Depth-first from the root: record each node's parent and depth.
        let mut stack: Vec<(usize, usize)> = Vec::new();
        stack.push((root, 0));
        let mut seen: Vec<bool> = Vec::new();
        while seen.len() < n
            invariant
                seen.len() <= n,
            decreases n - seen.len(),
        {
            seen.push(false);
        }
        seen[root] = true;
        let mut fuel: usize = n;
        while stack.len() > 0 && fuel > 0
            invariant
                lca.wf(),
                lca.spec_len() == n,
                seen.len() == n,
                edges@.len() == n,
                forall|i: int, j: int|
                    0 <= i < edges@.len() && 0 <= j < edges@[i]@.len() ==> #[trigger] edges@[i]@[j]
                        < n,
                forall|t: int|
                    0 <= t < stack@.len() ==> #[trigger] stack@[t].0 < n && stack@[t].1 < n,
            decreases fuel,
        {
            fuel = fuel - 1;
            let (pos, dist) = stack.pop().unwrap();
            lca.set_dist(pos, dist);
            let deg = edges[pos].len();
            let mut e: usize = 0;
            while e < deg
                invariant
                    lca.wf(),
                    lca.spec_len() == n,
                    seen.len() == n,
                    pos < n,
                    e <= deg,
                    dist < n,
                    edges@.len() == n,
                    deg == edges@[pos as int]@.len(),
                    forall|i: int, j: int|
                        0 <= i < edges@.len() && 0 <= j < edges@[i]@.len()
                            ==> #[trigger] edges@[i]@[j] < n,
                    forall|t: int|
                        0 <= t < stack@.len() ==> #[trigger] stack@[t].0 < n && stack@[t].1 < n,
                decreases deg - e,
            {
                let nxt = edges[pos][e];
                if !seen[nxt] {
                    seen[nxt] = true;
                    lca.set_parent0(nxt, pos);
                    let d = if dist + 1 < n {
                        dist + 1
                    } else {
                        dist
                    };
                    stack.push((nxt, d));
                }
                e = e + 1;
            }
        }
        // Lift: the 2^(k+1) ancestor is the 2^k ancestor's 2^k ancestor.
        let levels = lca.level_count();
        let mut t: usize = 0;
        while t + 1 < levels
            invariant
                lca.wf(),
                lca.spec_len() == n,
                levels == lca.parents@.len(),
                t < levels,
            decreases levels - t,
        {
            let mut v: usize = 0;
            while v < n
                invariant
                    lca.wf(),
                    lca.spec_len() == n,
                    levels == lca.parents@.len(),
                    t + 1 < levels,
                    v <= n,
                decreases n - v,
            {
                let up = lca.get_parent(t, v);
                match up {
                    Some(parent) => {
                        let up2 = lca.get_parent(t, parent);
                        lca.set_parent(t + 1, v, up2);
                    },
                    None => {},
                }
                v = v + 1;
            }
            t = t + 1;
        }
        lca
    }

    /// The number of lifting levels.
    fn level_count(&self) -> (r: usize)
        requires
            self.wf(),
        ensures
            r == self.parents@.len(),
            1 <= r <= 64,
    {
        self.parents.len()
    }

    /// Reads `parents[k][u]`.
    fn get_parent(&self, k: usize, u: usize) -> (r: Option<usize>)
        requires
            self.wf(),
            k < self.parents@.len(),
            u < self.spec_len(),
        ensures
            r matches Some(p) ==> p < self.spec_len(),
    {
        self.parents[k][u]
    }

    /// Writes `parents[k][u]`.
    fn set_parent(&mut self, k: usize, u: usize, p: Option<usize>)
        requires
            old(self).wf(),
            k < old(self).parents@.len(),
            u < old(self).spec_len(),
            p matches Some(q) ==> q < old(self).spec_len(),
        ensures
            final(self).wf(),
            final(self).spec_len() == old(self).spec_len(),
            final(self).parents@.len() == old(self).parents@.len(),
    {
        let ghost before = self.parents@;
        self.parents[k][u] = p;
        proof {
            let ghost row = self.parents@[k as int]@;
            assert forall|a: int| 0 <= a < self.parents@.len() implies #[trigger] self
                .parents@[a]@.len() == self.dists.len() by {
                if a != k {
                    assert(self.parents@[a] == before[a]);
                }
            }
            assert forall|a: int, u2: int|
                0 <= a < self.parents@.len() && 0 <= u2 < self.dists.len() implies (
            #[trigger] self.parents@[a]@[u2] matches Some(q) ==> q < self.dists.len()) by {
                if a != k {
                    assert(self.parents@[a] == before[a]);
                } else {
                    if u2 != u {
                        assert(self.parents@[a]@[u2] == before[a]@[u2]);
                    }
                }
            }
        }
    }

    /// Writes the immediate parent of `u`.
    fn set_parent0(&mut self, u: usize, p: usize)
        requires
            old(self).wf(),
            u < old(self).spec_len(),
            p < old(self).spec_len(),
        ensures
            final(self).wf(),
            final(self).spec_len() == old(self).spec_len(),
            final(self).parents@.len() == old(self).parents@.len(),
    {
        self.set_parent(0, u, Some(p));
    }

    /// Writes the depth of `u`.
    fn set_dist(&mut self, u: usize, d: usize)
        requires
            old(self).wf(),
            u < old(self).spec_len(),
        ensures
            final(self).wf(),
            final(self).spec_len() == old(self).spec_len(),
            final(self).parents@.len() == old(self).parents@.len(),
    {
        self.dists[u] = d;
    }

    /// The distance from `u` to `v` through their lowest common ancestor.
    pub fn distance(&self, u: usize, v: usize) -> (r: usize)
        requires
            self.wf(),
            u < self.spec_len(),
            v < self.spec_len(),
    {
        let l = self.query(u, v);
        let du = self.dists[u];
        let dv = self.dists[v];
        let dl = self.dists[l];
        let total = if du <= usize::MAX - dv {
            du + dv
        } else {
            usize::MAX
        };
        let twice = if dl <= usize::MAX / 2 {
            2 * dl
        } else {
            usize::MAX
        };
        if twice <= total {
            total - twice
        } else {
            0
        }
    }

    /// Is `p` on the path from `u` to `v`?
    pub fn is_on_path(&self, u: usize, v: usize, p: usize) -> (r: bool)
        requires
            self.wf(),
            u < self.spec_len(),
            v < self.spec_len(),
            p < self.spec_len(),
    {
        let a = self.distance(u, p);
        let b = self.distance(p, v);
        let c = self.distance(u, v);
        a <= usize::MAX - b && a + b == c
    }

    /// The `d`-th ancestor of `u`, if the tree is deep enough.
    pub fn ancestor(&self, u: usize, d: usize) -> (r: Option<usize>)
        requires
            self.wf(),
            u < self.spec_len(),
        ensures
            r matches Some(p) ==> p < self.spec_len(),
    {
        let k = self.parents.len();
        let mut u = u;
        let mut i: usize = k;
        while i > 0
            invariant
                self.wf(),
                i <= k,
                k == self.parents@.len(),
                u < self.spec_len(),
            decreases i,
        {
            i = i - 1;
            if ((d as u64) >> (i as u64)) & 1 == 1 {
                match self.parents[i][u] {
                    Some(parent) => {
                        u = parent;
                    },
                    None => {
                        return None;
                    },
                }
            }
        }
        Some(u)
    }

    /// The lowest common ancestor of `u` and `v`.
    pub fn query(&self, u: usize, v: usize) -> (r: usize)
        requires
            self.wf(),
            u < self.spec_len(),
            v < self.spec_len(),
        ensures
            r < self.spec_len(),
            u == v ==> r == u,
    {
        if u == v {
            return u;
        }
        let (mut u, mut v) = if self.dists[u] < self.dists[v] {
            (v, u)
        } else {
            (u, v)
        };
        let k = self.parents.len();
        // Lift the deeper node level by level until the depths agree.
        let diff = self.dists[u] - self.dists[v];
        let mut i: usize = 0;
        while i < k
            invariant
                self.wf(),
                i <= k,
                k == self.parents@.len(),
                u < self.spec_len(),
                v < self.spec_len(),
            decreases k - i,
        {
            if (((diff) as u64) >> (i as u64)) & 1 == 1 {
                match self.parents[i][u] {
                    Some(parent) => {
                        u = parent;
                    },
                    None => {},
                }
            }
            i = i + 1;
        }
        if u == v {
            return u;
        }
        // Descend together from the highest level.
        let mut i: usize = k;
        while i > 0
            invariant
                self.wf(),
                i <= k,
                k == self.parents@.len(),
                u < self.spec_len(),
                v < self.spec_len(),
            decreases i,
        {
            i = i - 1;
            let pu = self.parents[i][u];
            let pv = self.parents[i][v];
            let differs = match (pu, pv) {
                (Some(a), Some(b)) => a != b,
                (None, None) => false,
                _ => true,
            };
            if differs {
                match (pu, pv) {
                    (Some(a), Some(b)) => {
                        u = a;
                        v = b;
                    },
                    _ => {},
                }
            }
        }
        match self.parents[0][u] {
            Some(p) => p,
            None => u,
        }
    }
}

} // verus!
