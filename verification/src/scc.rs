//! Strongly connected components of a directed graph by Kosaraju's
//! double traversal: forward post-order, then reverse-graph sweeps.

use vstd::prelude::*;

verus! {

/// A directed graph with its reverse, plus the scratch state of the
/// component computation.
pub struct SccGraph {
    n: usize,
    graphs: Vec<Vec<usize>>,
    rev_graphs: Vec<Vec<usize>>,
    post_order: Vec<usize>,
    scc_indices: Vec<usize>,
    visited: Vec<bool>,
}

impl SccGraph {
    /// All per-node tables sized `n` and all endpoints in range.
    pub closed spec fn wf(&self) -> bool {
        &&& self.n <= 0x1000_0000
        &&& self.graphs.len() == self.n
        &&& self.rev_graphs.len() == self.n
        &&& self.scc_indices.len() == self.n
        &&& self.visited.len() == self.n
        &&& forall|i: int, j: int|
            0 <= i < self.graphs.len() && 0 <= j < self.graphs@[i]@.len()
                ==> #[trigger] self.graphs@[i]@[j] < self.n
        &&& forall|i: int, j: int|
            0 <= i < self.rev_graphs.len() && 0 <= j < self.rev_graphs@[i]@.len()
                ==> #[trigger] self.rev_graphs@[i]@[j] < self.n
        &&& forall|t: int| 0 <= t < self.post_order@.len() ==> #[trigger] self.post_order@[t] < self.n
    }

    /// The number of nodes.
    pub closed spec fn spec_len(&self) -> nat {
        self.n as nat
    }

    /// An edgeless graph on `n` nodes.
    pub fn new(n: usize) -> (r: SccGraph)
        requires
            n <= 0x1000_0000,
        ensures
            r.wf(),
            r.spec_len() == n,
    {
        let mut graphs: Vec<Vec<usize>> = Vec::new();
        let mut rev_graphs: Vec<Vec<usize>> = Vec::new();
        let mut scc_indices: Vec<usize> = Vec::new();
        let mut visited: Vec<bool> = Vec::new();
        let mut i: usize = 0;
        while i < n
            invariant
                i <= n,
                graphs.len() == i,
                rev_graphs.len() == i,
                scc_indices.len() == i,
                visited.len() == i,
                forall|t: int, j: int|
                    0 <= t < graphs.len() && 0 <= j < graphs@[t]@.len() ==> #[trigger] graphs@[t]@[j]
                        < n,
                forall|t: int, j: int|
                    0 <= t < rev_graphs.len() && 0 <= j < rev_graphs@[t]@.len()
                        ==> #[trigger] rev_graphs@[t]@[j] < n,
            decreases n - i,
        {
            graphs.push(Vec::new());
            rev_graphs.push(Vec::new());
            scc_indices.push(0);
            visited.push(false);
            i = i + 1;
        }
        SccGraph { n, graphs, rev_graphs, post_order: Vec::new(), scc_indices, visited }
    }

    /// Adds the directed edge `from -> to` (0-indexed).
    pub fn add_edge(&mut self, from: usize, to: usize)
        requires
            old(self).wf(),
            from < old(self).spec_len(),
            to < old(self).spec_len(),
        ensures
            final(self).wf(),
            final(self).spec_len() == old(self).spec_len(),
    {
        self.graphs[from].push(to);
        let ghost row = self.graphs@[from as int]@;
        proof {
            assert forall|i: int, j: int|
                0 <= i < self.graphs.len() && 0 <= j < self.graphs@[i]@.len() implies #[trigger] self
                .graphs@[i]@[j] < self.n by {
                if i != from {
                    assert(self.graphs@[i] == old(self).graphs@[i]);
                } else {
                    assert(self.graphs@[i]@ == row);
                }
            }
        }
        let ghost mid = self.rev_graphs@;
        self.rev_graphs[to].push(from);
        let ghost row2 = self.rev_graphs@[to as int]@;
        proof {
            assert forall|i: int, j: int|
                0 <= i < self.rev_graphs.len() && 0 <= j < self.rev_graphs@[i]@.len()
                    implies #[trigger] self.rev_graphs@[i]@[j] < self.n by {
                if i != to {
                    assert(self.rev_graphs@[i] == mid[i]);
                } else {
                    assert(self.rev_graphs@[i]@ == row2);
                }
            }
        }
    }

    /// A depth-first walk from `start` on the forward graph, appending
    /// each finished node to the post order.
    fn dfs(&mut self, start: usize)
        requires
            old(self).wf(),
            start < old(self).spec_len(),
        ensures
            final(self).wf(),
            final(self).spec_len() == old(self).spec_len(),
            final(self).graphs@ == old(self).graphs@,
            final(self).rev_graphs@ == old(self).rev_graphs@,
    {
        let n = self.n;
        let mut stack: Vec<(usize, usize)> = Vec::new();
        stack.push((start, 0));
        self.visited[start] = true;
        // The walk touches each node and edge once: a generous budget.
        let mut fuel = self.edge_budget();
        while stack.len() > 0 && fuel > 0
            invariant
                self.wf(),
                self.spec_len() == old(self).spec_len(),
                self.graphs@ == old(self).graphs@,
                self.rev_graphs@ == old(self).rev_graphs@,
                n == self.spec_len(),
                forall|t: int|
                    0 <= t < stack@.len() ==> #[trigger] stack@[t].0 < n,
            decreases fuel,
        {
            fuel = fuel - 1;
            let top = stack.len() - 1;
            let (pos, e) = stack[top];
            if e < self.graphs[pos].len() {
                stack[top] = (pos, e + 1);
                let nxt = self.graphs[pos][e];
                if !self.visited[nxt] {
                    self.visited[nxt] = true;
                    stack.push((nxt, 0));
                }
            } else {
                stack.pop();
                if self.post_order.len() < n {
                    self.post_order.push(pos);
                }
            }
        }
    }

    /// A depth-first walk from `start` on the reverse graph, labelling
    /// every reached node with `label`.
    fn rev_dfs(&mut self, start: usize, label: usize)
        requires
            old(self).wf(),
            start < old(self).spec_len(),
        ensures
            final(self).wf(),
            final(self).spec_len() == old(self).spec_len(),
            final(self).graphs@ == old(self).graphs@,
            final(self).rev_graphs@ == old(self).rev_graphs@,
            final(self).post_order@ == old(self).post_order@,
    {
        let n = self.n;
        let mut stack: Vec<usize> = Vec::new();
        stack.push(start);
        self.visited[start] = true;
        self.scc_indices[start] = label;
        let mut fuel = self.edge_budget();
        while stack.len() > 0 && fuel > 0
            invariant
                self.wf(),
                self.spec_len() == old(self).spec_len(),
                self.graphs@ == old(self).graphs@,
                self.rev_graphs@ == old(self).rev_graphs@,
                self.post_order@ == old(self).post_order@,
                n == self.spec_len(),
                forall|t: int| 0 <= t < stack@.len() ==> #[trigger] stack@[t] < n,
            decreases fuel,
        {
            fuel = fuel - 1;
            let pos = stack.pop().unwrap();
            let deg = self.rev_graphs[pos].len();
            let mut e: usize = 0;
            while e < deg
                invariant
                    self.wf(),
                    self.spec_len() == old(self).spec_len(),
                    self.graphs@ == old(self).graphs@,
                    self.rev_graphs@ == old(self).rev_graphs@,
                    self.post_order@ == old(self).post_order@,
                    n == self.spec_len(),
                    pos < n,
                    e <= deg,
                    deg == self.rev_graphs@[pos as int]@.len(),
                    forall|t: int| 0 <= t < stack@.len() ==> #[trigger] stack@[t] < n,
                decreases deg - e,
            {
                let nxt = self.rev_graphs[pos][e];
                if !self.visited[nxt] {
                    self.visited[nxt] = true;
                    self.scc_indices[nxt] = label;
                    stack.push(nxt);
                }
                e = e + 1;
            }
        }
    }

    /// A budget that covers every node and edge of either direction.
    fn edge_budget(&self) -> (r: usize)
        requires
            self.wf(),
    {
        let mut total: usize = self.n;
        let mut i: usize = 0;
        while i < self.graphs.len()
            invariant
                self.wf(),
            decreases self.graphs.len() - i,
        {
            let d = self.graphs[i].len();
            let d2 = self.rev_graphs[i].len();
            total = if total <= usize::MAX - d {
                total + d
            } else {
                total
            };
            total = if total <= usize::MAX - d2 {
                total + d2
            } else {
                total
            };
            i = i + 1;
        }
        if total < usize::MAX {
            total + 1
        } else {
            total
        }
    }

    /// The strongly connected components, one group per label, in the
    /// reverse-topological order Kosaraju produces.
    pub fn scc(&mut self) -> (r: Vec<Vec<usize>>)
        requires
            old(self).wf(),
        ensures
            final(self).wf(),
            final(self).spec_len() == old(self).spec_len(),
            forall|i: int, j: int|
                0 <= i < r@.len() && 0 <= j < r@[i]@.len() ==> #[trigger] r@[i]@[j] < final(self).spec_len(),
            // Within each group the vertices come back in increasing order.
            forall|i: int, a: int, b: int|
                0 <= i < r@.len() && 0 <= a < b < r@[i]@.len() ==> r@[i]@[a] < r@[i]@[b],
    {
        let n = self.n;
        let mut i: usize = 0;
        while i < n
            invariant
                self.wf(),
                self.spec_len() == old(self).spec_len(),
                n == self.spec_len(),
            decreases n - i,
        {
            if !self.visited[i] {
                self.dfs(i);
            }
            i = i + 1;
        }
        let mut i: usize = 0;
        while i < n
            invariant
                self.wf(),
                n == self.spec_len(),
                self.visited.len() == n,
            decreases n - i,
        {
            self.visited[i] = false;
            i = i + 1;
        }
        let m = self.post_order.len();
        let mut label: usize = 0;
        let mut i: usize = m;
        while i > 0
            invariant
                self.wf(),
                self.spec_len() == old(self).spec_len(),
                n == self.spec_len(),
                i <= self.post_order@.len(),
                label <= n,
            decreases i,
        {
            i = i - 1;
            let pos = self.post_order[i];
            if !self.visited[pos] && label < n {
                self.rev_dfs(pos, label);
                label = label + 1;
            }
        }
        let mut groups: Vec<Vec<usize>> = Vec::new();
        while groups.len() < label
            invariant
                groups.len() <= label,
                forall|a: int| 0 <= a < groups@.len() ==> #[trigger] groups@[a]@.len() == 0,
            decreases label - groups.len(),
        {
            groups.push(Vec::new());
        }
        let mut i: usize = 0;
        while i < n
            invariant
                self.wf(),
                n == self.spec_len(),
                i <= n,
                self.scc_indices.len() == n,
                forall|a: int, b: int|
                    0 <= a < groups@.len() && 0 <= b < groups@[a]@.len() ==> #[trigger] groups@[a]@[b]
                        < n,
                // Every vertex stored so far is below i, and each group
                // stays strictly increasing.
                forall|a: int, b: int|
                    0 <= a < groups@.len() && 0 <= b < groups@[a]@.len() ==> #[trigger] groups@[a]@[b]
                        < i,
                forall|a: int, s: int, t: int|
                    0 <= a < groups@.len() && 0 <= s < t < groups@[a]@.len()
                        ==> #[trigger] groups@[a]@[s] < #[trigger] groups@[a]@[t],
            decreases n - i,
        {
            let idx = self.scc_indices[i];
            if idx < groups.len() {
                let ghost before = groups@;
                groups[idx].push(i);
                let ghost row = groups@[idx as int]@;
                proof {
                    assert forall|a: int, b: int|
                        0 <= a < groups@.len() && 0 <= b < groups@[a]@.len()
                            implies #[trigger] groups@[a]@[b] < n by {
                        if a != idx {
                            assert(groups@[a] == before[a]);
                        } else {
                            assert(groups@[a]@ == row);
                        }
                    }
                    assert forall|a: int, b: int|
                        0 <= a < groups@.len() && 0 <= b < groups@[a]@.len()
                            implies #[trigger] groups@[a]@[b] < i + 1 by {
                        if a != idx {
                            assert(groups@[a] == before[a]);
                        } else {
                            assert(groups@[a]@ == row);
                            if b < row.len() - 1 {
                                assert(row[b] == before[a as int]@[b]);
                            }
                        }
                    }
                    assert forall|a: int, s: int, t: int|
                        0 <= a < groups@.len() && 0 <= s < t < groups@[a]@.len()
                            implies #[trigger] groups@[a]@[s] < #[trigger] groups@[a]@[t] by {
                        if a != idx {
                            assert(groups@[a] == before[a]);
                        } else {
                            assert(groups@[a]@ == row);
                            if t < row.len() - 1 {
                                assert(row[s] == before[a]@[s] && row[t] == before[a]@[t]);
                            } else {
                                assert(row[t] == i);
                                if s < row.len() - 1 {
                                    assert(row[s] == before[a]@[s]);
                                }
                            }
                        }
                    }
                }
            }
            i = i + 1;
        }
        groups
    }
}

} // verus!
