//! Sliding window aggregation: a queue that folds all its elements under
//! a monoid in amortised constant time, with two fold-carrying stacks.

use vstd::prelude::*;

verus! {

use crate::lazy_segment_tree::{fold_of, lemma_fold_concat, lemma_fold_singleton, Monoid};

/// The values of a fold-carrying stack.
pub open spec fn stack_vals<M: Monoid>(s: Seq<(M::S, M::S)>) -> Seq<M::S> {
    s.map_values(|p: (M::S, M::S)| p.0)
}

/// A queue that can fold everything it holds: `front` and `back` are
/// stacks whose second components carry running folds, the front stack in
/// reversed order.
pub struct FoldableQueue<M: Monoid> {
    front: Vec<(M::S, M::S)>,
    back: Vec<(M::S, M::S)>,
}

impl<M: Monoid> View for FoldableQueue<M> {
    type V = Seq<M::S>;

    /// The queued values, head first.
    closed spec fn view(&self) -> Seq<M::S> {
        stack_vals::<M>(self.front@).reverse() + stack_vals::<M>(self.back@)
    }
}

impl<M: Monoid> FoldableQueue<M> {
    /// Each stack entry's second component folds the values from the
    /// queue's head side up to that entry.
    pub closed spec fn wf(&self) -> bool {
        &&& forall|i: int|
            0 <= i < self.front@.len() ==> #[trigger] self.front@[i].1 == fold_of::<M>(
                stack_vals::<M>(self.front@).subrange(0, i + 1).reverse(),
            )
        &&& forall|i: int|
            0 <= i < self.back@.len() ==> #[trigger] self.back@[i].1 == fold_of::<M>(
                stack_vals::<M>(self.back@).subrange(0, i + 1),
            )
    }

    /// An empty queue.
    pub fn new() -> (r: FoldableQueue<M>)
        ensures
            r.wf(),
            r@.len() == 0,
    {
        let r = FoldableQueue { front: Vec::new(), back: Vec::new() };
        proof {
            assert(r@ =~= Seq::<M::S>::empty());
        }
        r
    }

    /// The fold of everything queued, head to tail; `None` when empty.
    pub fn fold_all(&self) -> (r: Option<M::S>)
        requires
            self.wf(),
        ensures
            self@.len() == 0 ==> r is None,
            self@.len() > 0 ==> r == Some(fold_of::<M>(self@)),
    {
        let fl = self.front.len();
        let bl = self.back.len();
        proof {
            lemma_fold_concat::<M>(
                stack_vals::<M>(self.front@).reverse(),
                stack_vals::<M>(self.back@),
            );
        }
        if fl == 0 && bl == 0 {
            proof {
                assert(self@ =~= Seq::<M::S>::empty());
            }
            return None;
        }
        if fl > 0 && bl == 0 {
            let v = M::clone_s(&self.front[fl - 1].1);
            proof {
                let fv = stack_vals::<M>(self.front@);
                assert(fv.subrange(0, fv.len() as int) =~= fv);
                assert(self@ =~= fv.reverse());
            }
            return Some(v);
        }
        if fl == 0 && bl > 0 {
            let v = M::clone_s(&self.back[bl - 1].1);
            proof {
                let bv = stack_vals::<M>(self.back@);
                assert(bv.subrange(0, bv.len() as int) =~= bv);
                assert(self@ =~= bv);
                M::op_identity(fold_of::<M>(bv));
                assert(stack_vals::<M>(self.front@).reverse() =~= Seq::<M::S>::empty());
            }
            return Some(v);
        }
        let a = &self.front[fl - 1].1;
        let b = &self.back[bl - 1].1;
        let v = M::binary_operation(a, b);
        proof {
            let fv = stack_vals::<M>(self.front@);
            let bv = stack_vals::<M>(self.back@);
            assert(fv.subrange(0, fv.len() as int) =~= fv);
            assert(bv.subrange(0, bv.len() as int) =~= bv);
        }
        Some(v)
    }

    /// Empties the queue.
    pub fn clear(&mut self)
        ensures
            final(self).wf(),
            final(self)@.len() == 0,
    {
        self.front.clear();
        self.back.clear();
        proof {
            assert(self@ =~= Seq::<M::S>::empty());
        }
    }

    /// The number of queued elements.
    pub fn len(&self) -> (r: usize)
        requires
            self@.len() <= usize::MAX,
        ensures
            r == self@.len(),
    {
        proof {
            assert(self@.len() == self.front@.len() + self.back@.len());
        }
        self.front.len() + self.back.len()
    }

    /// Is the queue empty?
    pub fn is_empty(&self) -> (r: bool)
        ensures
            r == (self@.len() == 0),
    {
        self.front.is_empty() && self.back.is_empty()
    }

    /// Appends `value` at the tail.
    pub fn push(&mut self, value: M::S)
        requires
            old(self).wf(),
            old(self)@.len() < usize::MAX,
        ensures
            final(self).wf(),
            final(self)@ == old(self)@.push(value),
    {
        let bl = self.back.len();
        let folded = if bl > 0 {
            let prev = &self.back[bl - 1].1;
            let v = M::binary_operation(prev, &value);
            v
        } else {
            proof {
                lemma_fold_singleton::<M>(value);
            }
            M::clone_s(&value)
        };
        let ghost old_back = self.back@;
        self.back.push((value, folded));
        proof {
            let bv = stack_vals::<M>(self.back@);
            let bv0 = stack_vals::<M>(old_back);
            assert(bv =~= bv0.push(value));
            assert forall|i: int| 0 <= i < self.back@.len() implies #[trigger] self.back@[i].1
                == fold_of::<M>(stack_vals::<M>(self.back@).subrange(0, i + 1)) by {
                if i < self.back@.len() - 1 {
                    assert(self.back@[i] == old_back[i]);
                    assert(bv.subrange(0, i + 1) =~= bv0.subrange(0, i + 1));
                } else {
                    assert(bv.subrange(0, i + 1) =~= bv);
                    if old_back.len() > 0 {
                        assert(bv.drop_last() =~= bv0.subrange(0, old_back.len() as int));
                        assert(bv.last() == value);
                    } else {
                        assert(bv =~= seq![value]);
                    }
                }
            }
            assert forall|i: int| 0 <= i < self.front@.len() implies #[trigger] self.front@[i].1
                == fold_of::<M>(stack_vals::<M>(self.front@).subrange(0, i + 1).reverse()) by {
                assert(self.front@[i] == old(self).front@[i]);
            }
            assert(self@ =~= old(self)@.push(value));
        }
    }

    /// Moves everything to the front stack when it is empty, rebuilding
    /// the head-side folds.
    fn push_to_first(&mut self)
        requires
            old(self).wf(),
            old(self).front@.len() == 0,
            old(self).back@.len() > 0,
        ensures
            final(self).wf(),
            final(self)@ == old(self)@,
            final(self).front@.len() == old(self).back@.len(),
            final(self).back@.len() == 0,
    {
        let ghost orig = self@;
        while self.back.len() > 0
            invariant
                self.wf(),
                stack_vals::<M>(self.back@) + stack_vals::<M>(self.front@).reverse() == orig,
                self.front@.len() + self.back@.len() == old(self).back@.len(),
            decreases self.back@.len(),
        {
            let ghost back0 = self.back@;
            let ghost front0 = self.front@;
            let (value, _) = self.back.pop().unwrap();
            let folded = if self.front.len() > 0 {
                let prev = &self.front[self.front.len() - 1].1;
                let v = M::binary_operation(&value, prev);
                v
            } else {
                proof {
                    lemma_fold_singleton::<M>(value);
                }
                M::clone_s(&value)
            };
            self.front.push((value, folded));
            proof {
                let fv = stack_vals::<M>(self.front@);
                let fv0 = stack_vals::<M>(front0);
                let bv = stack_vals::<M>(self.back@);
                let bv0 = stack_vals::<M>(back0);
                assert(fv =~= fv0.push(value));
                assert(bv =~= bv0.drop_last());
                assert(bv0.last() == value);
                assert forall|i: int| 0 <= i < self.front@.len() implies #[trigger] self
                    .front@[i].1 == fold_of::<M>(
                    stack_vals::<M>(self.front@).subrange(0, i + 1).reverse(),
                ) by {
                    if i < self.front@.len() - 1 {
                        assert(self.front@[i] == front0[i]);
                        assert(fv.subrange(0, i + 1).reverse() =~= fv0.subrange(
                            0,
                            i + 1,
                        ).reverse());
                    } else {
                        let whole = fv.subrange(0, i + 1);
                        assert(whole =~= fv);
                        if front0.len() > 0 {
                            // fold(reverse(fv)) == op(value, fold(reverse(fv0))).
                            assert(fv.reverse() =~= seq![value] + fv0.reverse());
                            lemma_fold_concat::<M>(seq![value], fv0.reverse());
                            lemma_fold_singleton::<M>(value);
                            assert(fv0.subrange(0, front0.len() as int) =~= fv0);
                        } else {
                            assert(fv.reverse() =~= seq![value]);
                            lemma_fold_singleton::<M>(value);
                        }
                    }
                }
                assert forall|i: int| 0 <= i < self.back@.len() implies #[trigger] self.back@[i].1
                    == fold_of::<M>(stack_vals::<M>(self.back@).subrange(0, i + 1)) by {
                    assert(self.back@[i] == back0[i]);
                    assert(bv.subrange(0, i + 1) =~= bv0.subrange(0, i + 1));
                }
                assert(fv.reverse() =~= seq![value] + fv0.reverse());
                assert(bv + fv.reverse() =~= bv0 + fv0.reverse());
            }
        }
        proof {
            assert(self.back@.len() == 0);
            let fv = stack_vals::<M>(self.front@);
            assert(stack_vals::<M>(self.back@) =~= Seq::<M::S>::empty());
            assert(fv.reverse() =~= orig);
            assert(self@ =~= orig);
        }
    }

    /// The element at the head; `None` when empty.
    pub fn front(&mut self) -> (r: Option<M::S>)
        requires
            old(self).wf(),
        ensures
            final(self).wf(),
            final(self)@ == old(self)@,
            old(self)@.len() == 0 ==> r is None,
            old(self)@.len() > 0 ==> r == Some(old(self)@[0]),
    {
        if self.is_empty() {
            return None;
        }
        if self.front.len() == 0 {
            self.push_to_first();
        }
        let fl = self.front.len();
        let v = M::clone_s(&self.front[fl - 1].0);
        proof {
            let fv = stack_vals::<M>(self.front@);
            assert(self@[0] == fv.reverse()[0]);
        }
        Some(v)
    }

    /// Removes and returns the head element; `None` when empty.
    pub fn pop(&mut self) -> (r: Option<M::S>)
        requires
            old(self).wf(),
        ensures
            final(self).wf(),
            old(self)@.len() == 0 ==> r is None && final(self)@ == old(self)@,
            old(self)@.len() > 0 ==> r == Some(old(self)@[0]) && final(self)@ == old(
                self,
            )@.subrange(1, old(self)@.len() as int),
    {
        if self.is_empty() {
            return None;
        }
        if self.front.len() == 0 {
            self.push_to_first();
        }
        let ghost mid = self@;
        let ghost front0 = self.front@;
        let p = self.front.pop().unwrap();
        proof {
            let fv = stack_vals::<M>(self.front@);
            let fv0 = stack_vals::<M>(front0);
            assert(fv =~= fv0.drop_last());
            assert forall|i: int| 0 <= i < self.front@.len() implies #[trigger] self.front@[i].1
                == fold_of::<M>(stack_vals::<M>(self.front@).subrange(0, i + 1).reverse()) by {
                assert(self.front@[i] == front0[i]);
                assert(fv.subrange(0, i + 1) =~= fv0.subrange(0, i + 1));
            }
            assert(mid[0] == fv0.reverse()[0]);
            assert(self@ =~= mid.subrange(1, mid.len() as int));
        }
        Some(p.0)
    }
}

} // verus!
