//! A trie over the lowercase alphabet, stored as a flat arena of nodes
//! with per-node word and subtree counters.

use vstd::prelude::*;

verus! {

/// One trie node: how many words end here, how many pass through, and an
/// index per letter (`usize::MAX` marks a missing child).
struct TrieNode {
    count: usize,
    through: usize,
    children: Vec<usize>,
}

/// `TrieAlpha` accepts only lowercase letters (`'a'..='z'`).
pub struct TrieAlpha {
    nodes: Vec<TrieNode>,
}

impl TrieAlpha {
    /// Every child pointer leads into the arena, and every node has one
    /// slot per letter.
    pub closed spec fn wf(&self) -> bool {
        &&& 1 <= self.nodes.len() <= 0x1000_0000
        &&& forall|i: int|
            0 <= i < self.nodes.len() ==> #[trigger] self.nodes@[i].children@.len() == 26
        &&& forall|i: int, c: int|
            0 <= i < self.nodes.len() && 0 <= c < 26 ==> (#[trigger] self.nodes@[i].children@[c]
                == usize::MAX || self.nodes@[i].children@[c] < self.nodes.len())
    }

    /// The number of arena nodes.
    pub closed spec fn node_count(&self) -> nat {
        self.nodes.len() as nat
    }

    /// Only lowercase letters walk the trie.
    pub open spec fn all_lowercase(s: Seq<char>) -> bool {
        forall|i: int| 0 <= i < s.len() ==> 'a' <= #[trigger] s[i] <= 'z'
    }

    /// Makes a new `TrieAlpha` holding nothing.
    pub fn new() -> (r: TrieAlpha)
        ensures
            r.wf(),
    {
        let mut nodes: Vec<TrieNode> = Vec::new();
        nodes.push(fresh_node());
        TrieAlpha { nodes }
    }

    /// Adds a word (a slice of chars) to the trie, growing nodes along
    /// its path.
    pub fn add(&mut self, s: &[char])
        requires
            old(self).wf(),
            Self::all_lowercase(s@),
            old(self).node_count() + s@.len() < 0x1000_0000,
        ensures
            final(self).wf(),
    {
        let mut cur: usize = 0;
        let mut i: usize = 0;
        let n = s.len();
        // Increase the pass-through counter of every node on the path,
        // creating the path as needed.
        while i < n
            invariant
                self.wf(),
                cur < self.nodes@.len(),
                i <= n,
                n == s@.len(),
                Self::all_lowercase(s@),
                self.nodes@.len() + (n - i) < 0x1000_0000,
            decreases n - i,
        {
            let t = self.nodes[cur].through;
            self.set_through(cur, if t < usize::MAX {
                t + 1
            } else {
                t
            });
            let idx = letter_index(s[i]);
            let child = self.child_of(cur, idx);
            let next = if child == usize::MAX {
                let fresh = self.nodes.len();
                self.push_node();
                self.set_child(cur, idx, fresh);
                fresh
            } else {
                child
            };
            cur = next;
            i = i + 1;
        }
        let t = self.nodes[cur].through;
        self.set_through(cur, if t < usize::MAX {
            t + 1
        } else {
            t
        });
        let c = self.nodes[cur].count;
        self.set_count(cur, if c < usize::MAX {
            c + 1
        } else {
            c
        });
    }

    /// Returns the number of stored words prefixed with `s`.
    pub fn count_prefixed_with(&self, s: &[char]) -> (r: usize)
        requires
            self.wf(),
            Self::all_lowercase(s@),
    {
        match self.seek(s) {
            Some(node) => self.nodes[node].through,
            None => 0,
        }
    }

    /// Returns the number of stored words that are a prefix of `s`,
    /// itself included.
    pub fn count_prefix_of(&self, s: &[char]) -> (r: usize)
        requires
            self.wf(),
            Self::all_lowercase(s@),
    {
        let mut cur: usize = 0;
        let mut total: usize = 0;
        let mut i: usize = 0;
        let n = s.len();
        while i < n
            invariant
                self.wf(),
                cur < self.nodes@.len(),
                i <= n,
                n == s@.len(),
                Self::all_lowercase(s@),
            decreases n - i,
        {
            let c = self.nodes[cur].count;
            total = if total <= usize::MAX - c {
                total + c
            } else {
                total
            };
            let idx = letter_index(s[i]);
            let child = self.child_of(cur, idx);
            if child == usize::MAX {
                return total;
            }
            cur = child;
            i = i + 1;
        }
        let c = self.nodes[cur].count;
        if total <= usize::MAX - c {
            total + c
        } else {
            total
        }
    }

    /// Follows `s` one letter at a time; the reached node's index, if the
    /// whole path exists.
    pub fn seek(&self, s: &[char]) -> (r: Option<usize>)
        requires
            self.wf(),
            Self::all_lowercase(s@),
        ensures
            r matches Some(node) ==> node < self.node_count(),
    {
        let mut cur: usize = 0;
        let mut i: usize = 0;
        let n = s.len();
        while i < n
            invariant
                self.wf(),
                cur < self.nodes@.len(),
                i <= n,
                n == s@.len(),
                Self::all_lowercase(s@),
            decreases n - i,
        {
            let idx = letter_index(s[i]);
            let child = self.child_of(cur, idx);
            if child == usize::MAX {
                return None;
            }
            cur = child;
            i = i + 1;
        }
        Some(cur)
    }

    /// Returns the number of times the exact word `s` was added.
    pub fn count(&self, s: &[char]) -> (r: usize)
        requires
            self.wf(),
            Self::all_lowercase(s@),
    {
        match self.seek(s) {
            Some(node) => self.nodes[node].count,
            None => 0,
        }
    }

    /// Reads one child slot.
    fn child_of(&self, node: usize, idx: usize) -> (r: usize)
        requires
            self.wf(),
            node < self.nodes@.len(),
            idx < 26,
        ensures
            r == usize::MAX || r < self.nodes@.len(),
    {
        self.nodes[node].children[idx]
    }

    /// Appends a fresh empty node.
    fn push_node(&mut self)
        requires
            old(self).wf(),
            old(self).nodes@.len() < 0x1000_0000,
        ensures
            final(self).wf(),
            final(self).nodes@.len() == old(self).nodes@.len() + 1,
    {
        let node = fresh_node();
        let ghost before = self.nodes@;
        self.nodes.push(node);
        proof {
            assert forall|i: int, c: int|
                0 <= i < self.nodes.len() && 0 <= c < 26 implies (#[trigger] self
                .nodes@[i].children@[c] == usize::MAX || self.nodes@[i].children@[c]
                < self.nodes.len()) by {
                if i < before.len() {
                    assert(self.nodes@[i] == before[i]);
                }
            }
        }
    }

    /// Overwrites one child slot.
    fn set_child(&mut self, node: usize, idx: usize, child: usize)
        requires
            old(self).wf(),
            node < old(self).nodes@.len(),
            idx < 26,
            child < old(self).nodes@.len(),
        ensures
            final(self).wf(),
            final(self).nodes@.len() == old(self).nodes@.len(),
    {
        let ghost before = self.nodes@;
        let mut slot = self.nodes[node].children[idx];
        slot = child;
        self.nodes[node].children[idx] = slot;
        proof {
            assert forall|i: int|
                0 <= i < self.nodes.len() implies #[trigger] self.nodes@[i].children@.len()
                == 26 by {
                if i != node {
                    assert(self.nodes@[i] == before[i]);
                }
            }
            assert forall|i: int, c: int|
                0 <= i < self.nodes.len() && 0 <= c < 26 implies (#[trigger] self
                .nodes@[i].children@[c] == usize::MAX || self.nodes@[i].children@[c]
                < self.nodes.len()) by {
                if i != node {
                    assert(self.nodes@[i] == before[i]);
                } else {
                    if c != idx {
                        assert(self.nodes@[i].children@[c] == before[i].children@[c]);
                    }
                }
            }
        }
    }

    /// Overwrites a node's pass-through counter.
    fn set_through(&mut self, node: usize, v: usize)
        requires
            old(self).wf(),
            node < old(self).nodes@.len(),
        ensures
            final(self).wf(),
            final(self).nodes@.len() == old(self).nodes@.len(),
            final(self).nodes@[node as int].children@ == old(self).nodes@[node as int].children@,
    {
        let ghost before = self.nodes@;
        self.nodes[node].through = v;
        proof {
            assert forall|i: int, c: int|
                0 <= i < self.nodes.len() && 0 <= c < 26 implies (#[trigger] self
                .nodes@[i].children@[c] == usize::MAX || self.nodes@[i].children@[c]
                < self.nodes.len()) by {
                if i != node {
                    assert(self.nodes@[i] == before[i]);
                } else {
                    assert(self.nodes@[i].children@ == before[i].children@);
                }
            }
            assert forall|i: int|
                0 <= i < self.nodes.len() implies #[trigger] self.nodes@[i].children@.len()
                == 26 by {
                if i != node {
                    assert(self.nodes@[i] == before[i]);
                } else {
                    assert(self.nodes@[i].children@ == before[i].children@);
                }
            }
        }
    }

    /// Overwrites a node's exact-word counter.
    fn set_count(&mut self, node: usize, v: usize)
        requires
            old(self).wf(),
            node < old(self).nodes@.len(),
        ensures
            final(self).wf(),
            final(self).nodes@.len() == old(self).nodes@.len(),
    {
        let ghost before = self.nodes@;
        self.nodes[node].count = v;
        proof {
            assert forall|i: int, c: int|
                0 <= i < self.nodes.len() && 0 <= c < 26 implies (#[trigger] self
                .nodes@[i].children@[c] == usize::MAX || self.nodes@[i].children@[c]
                < self.nodes.len()) by {
                if i != node {
                    assert(self.nodes@[i] == before[i]);
                } else {
                    assert(self.nodes@[i].children@ == before[i].children@);
                }
            }
            assert forall|i: int|
                0 <= i < self.nodes.len() implies #[trigger] self.nodes@[i].children@.len()
                == 26 by {
                if i != node {
                    assert(self.nodes@[i] == before[i]);
                } else {
                    assert(self.nodes@[i].children@ == before[i].children@);
                }
            }
        }
    }
}

/// The slot index of a lowercase letter.
fn letter_index(c: char) -> (r: usize)
    requires
        'a' <= c <= 'z',
    ensures
        r < 26,
{
    (c as u32 as usize) - ('a' as u32 as usize)
}

/// An empty node with all 26 child slots vacant.
fn fresh_node() -> (r: TrieNode)
    ensures
        r.children@.len() == 26,
        forall|c: int| 0 <= c < 26 ==> #[trigger] r.children@[c] == usize::MAX,
        r.count == 0,
        r.through == 0,
{
    let mut children: Vec<usize> = Vec::new();
    while children.len() < 26
        invariant
            children.len() <= 26,
            forall|c: int| 0 <= c < children@.len() ==> #[trigger] children@[c] == usize::MAX,
        decreases 26 - children.len(),
    {
        children.push(usize::MAX);
    }
    TrieNode { count: 0, through: 0, children }
}

} // verus!
