//! The diameter of an undirected tree, by the classic double traversal:
//! the farthest node from anywhere is one end of a diameter.

use vstd::prelude::*;

verus! {

/// An undirected graph on `n` nodes, expected to be a tree.
pub struct TreeDiameter {
    n: usize,
    edges: Vec<Vec<usize>>,
}

impl TreeDiameter {
    /// One adjacency list per node, every endpoint in range.
    pub closed spec fn wf(&self) -> bool {
        &&& self.edges.len() == self.n
        &&& self.n >= 1
        &&& self.n <= 0x1000_0000
        &&& forall|i: int, j: int|
            0 <= i < self.edges.len() && 0 <= j < self.edges@[i]@.len()
                ==> #[trigger] self.edges@[i]@[j] < self.n
    }

    /// The number of nodes.
    pub closed spec fn spec_len(&self) -> nat {
        self.n as nat
    }

    /// Makes a `TreeDiameter` with the size of `n`.
    pub fn new(n: usize) -> (r: TreeDiameter)
        requires
            1 <= n <= 0x1000_0000,
        ensures
            r.wf(),
            r.spec_len() == n,
    {
        let mut edges: Vec<Vec<usize>> = Vec::new();
        while edges.len() < n
            invariant
                edges.len() <= n,
                forall|i: int, j: int|
                    0 <= i < edges.len() && 0 <= j < edges@[i]@.len() ==> #[trigger] edges@[i]@[j]
                        < n,
            decreases n - edges.len(),
        {
            edges.push(Vec::new());
        }
        TreeDiameter { n, edges }
    }

    /// Adds an edge connecting `x` to `y`.
    pub fn add_edge(&mut self, x: usize, y: usize)
        requires
            old(self).wf(),
            x != y,
            x < old(self).spec_len(),
            y < old(self).spec_len(),
        ensures
            final(self).wf(),
            final(self).spec_len() == old(self).spec_len(),
    {
        self.edges[x].push(y);
        let ghost rowview = self.edges@[x as int]@;
        proof {
            assert forall|i: int, j: int|
                0 <= i < self.edges.len() && 0 <= j < self.edges@[i]@.len() implies #[trigger] self
                .edges@[i]@[j] < self.n by {
                if i != x {
                    assert(self.edges@[i] == old(self).edges@[i]);
                } else {
                    assert(self.edges@[i]@ == rowview);
                }
            }
        }
        let ghost mid = self.edges@;
        self.edges[y].push(x);
        let ghost rowview2 = self.edges@[y as int]@;
        proof {
            assert forall|i: int, j: int|
                0 <= i < self.edges.len() && 0 <= j < self.edges@[i]@.len() implies #[trigger] self
                .edges@[i]@[j] < self.n by {
                if i != y {
                    assert(self.edges@[i] == mid[i]);
                } else {
                    assert(self.edges@[i]@ == rowview2);
                }
            }
        }
    }

    /// The farthest node from `start` and its distance, by breadth-first
    /// search.
    fn farthest(&self, start: usize) -> (r: (usize, usize))
        requires
            self.wf(),
            start < self.spec_len(),
        ensures
            r.1 < self.spec_len(),
    {
        let n = self.n;
        let mut dist: Vec<usize> = Vec::new();
        let mut seen: Vec<bool> = Vec::new();
        while dist.len() < n
            invariant
                dist.len() <= n,
                seen.len() == dist.len(),
            decreases n - dist.len(),
        {
            dist.push(0);
            seen.push(false);
        }
        let mut queue: Vec<usize> = Vec::new();
        queue.push(start);
        seen[start] = true;
        let mut head: usize = 0;
        let mut best: (usize, usize) = (0, start);
        let mut fuel: usize = n;
        while head < queue.len() && fuel > 0
            invariant
                self.wf(),
                dist.len() == n,
                seen.len() == n,
                n == self.spec_len(),
                head <= queue.len(),
                best.1 < n,
                forall|t: int| 0 <= t < queue@.len() ==> #[trigger] queue@[t] < n,
                queue@.len() <= n,
            decreases fuel,
        {
            let pos = queue[head];
            head = head + 1;
            fuel = fuel - 1;
            if dist[pos] > best.0 {
                best = (dist[pos], pos);
            }
            let deg = self.edges[pos].len();
            let mut e: usize = 0;
            while e < deg
                invariant
                    self.wf(),
                    pos < n,
                    n == self.spec_len(),
                    deg == self.edges@[pos as int]@.len(),
                    dist.len() == n,
                    seen.len() == n,
                    e <= deg,
                    head <= queue@.len(),
                    forall|t: int| 0 <= t < queue@.len() ==> #[trigger] queue@[t] < n,
                    queue@.len() <= n,
                decreases deg - e,
            {
                let nxt = self.edges[pos][e];
                if !seen[nxt] && queue.len() < n {
                    seen[nxt] = true;
                    let d = dist[pos];
                    dist[nxt] = if d < usize::MAX {
                        d + 1
                    } else {
                        d
                    };
                    queue.push(nxt);
                }
                e = e + 1;
            }
        }
        best
    }

    /// Calculates the diameter of an undirected tree: the distance and
    /// the two endpoints of a longest path.
    pub fn diameter(&self) -> (r: (usize, (usize, usize)))
        requires
            self.wf(),
        ensures
            r.1.0 < self.spec_len(),
            r.1.1 < self.spec_len(),
    {
        let (_d, from) = self.farthest(0);
        let (diameter, to) = self.farthest(from);
        (diameter, (from, to))
    }

    /// A path from `from` to `to`, endpoints included, following parent
    /// links of a breadth-first search; just `[from]` when `to` is not
    /// reachable.
    pub fn path(&self, from: usize, to: usize) -> (r: Vec<usize>)
        requires
            self.wf(),
            from < self.spec_len(),
            to < self.spec_len(),
        ensures
            r@.len() >= 1,
            forall|t: int| 0 <= t < r@.len() ==> #[trigger] r@[t] < self.spec_len(),
    {
        let n = self.n;
        let mut parent: Vec<usize> = Vec::new();
        let mut seen: Vec<bool> = Vec::new();
        while parent.len() < n
            invariant
                parent.len() <= n,
                seen.len() == parent.len(),
                forall|t: int| 0 <= t < parent@.len() ==> #[trigger] parent@[t] < n,
            decreases n - parent.len(),
        {
            parent.push(0);
            seen.push(false);
        }
        let mut queue: Vec<usize> = Vec::new();
        queue.push(from);
        seen[from] = true;
        parent[from] = from;
        let mut head: usize = 0;
        let mut fuel: usize = n;
        while head < queue.len() && fuel > 0
            invariant
                self.wf(),
                parent.len() == n,
                seen.len() == n,
                n == self.spec_len(),
                head <= queue.len(),
                forall|t: int| 0 <= t < queue@.len() ==> #[trigger] queue@[t] < n,
                forall|t: int| 0 <= t < parent@.len() ==> #[trigger] parent@[t] < n,
                queue@.len() <= n,
            decreases fuel,
        {
            let pos = queue[head];
            head = head + 1;
            fuel = fuel - 1;
            let deg = self.edges[pos].len();
            let mut e: usize = 0;
            while e < deg
                invariant
                    self.wf(),
                    pos < n,
                    n == self.spec_len(),
                    deg == self.edges@[pos as int]@.len(),
                    parent.len() == n,
                    seen.len() == n,
                    e <= deg,
                    head <= queue@.len(),
                    forall|t: int| 0 <= t < queue@.len() ==> #[trigger] queue@[t] < n,
                    forall|t: int| 0 <= t < parent@.len() ==> #[trigger] parent@[t] < n,
                    queue@.len() <= n,
                decreases deg - e,
            {
                let nxt = self.edges[pos][e];
                if !seen[nxt] && queue.len() < n {
                    seen[nxt] = true;
                    parent[nxt] = pos;
                    queue.push(nxt);
                }
                e = e + 1;
            }
        }
        if !seen[to] {
            let mut path: Vec<usize> = Vec::new();
            path.push(from);
            return path;
        }
        // Walk the parent chain back from `to` and reverse it.
        let mut rev: Vec<usize> = Vec::new();
        let mut cur = to;
        let mut fuel: usize = n;
        rev.push(cur);
        while cur != from && fuel > 0
            invariant
                cur < n,
                from < n,
                parent.len() == n,
                n == self.spec_len(),
                forall|t: int| 0 <= t < parent@.len() ==> #[trigger] parent@[t] < n,
                forall|t: int| 0 <= t < rev@.len() ==> #[trigger] rev@[t] < n,
                rev@.len() >= 1,
            decreases fuel,
        {
            cur = parent[cur];
            rev.push(cur);
            fuel = fuel - 1;
        }
        let mut path: Vec<usize> = Vec::new();
        let mut i: usize = rev.len();
        while i > 0
            invariant
                i <= rev@.len(),
                n == self.spec_len(),
                forall|t: int| 0 <= t < rev@.len() ==> #[trigger] rev@[t] < n,
                forall|t: int| 0 <= t < path@.len() ==> #[trigger] path@[t] < n,
                path@.len() == rev@.len() - i,
            decreases i,
        {
            i = i - 1;
            path.push(rev[i]);
        }
        proof {
            assert(path@.len() >= 1);
        }
        path
    }
}

} // verus!
