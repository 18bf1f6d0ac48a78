//! A generic lazy-propagation segment tree over a monoid of aggregates and a
//! monoid of update maps, with full functional contracts.
//!
//! The tree keeps a flat array `d` of `2 * size` aggregates in implicit
//! binary-heap layout (node `1` is the root, node `k` has children `2 * k`
//! and `2 * k + 1`, the leaves sit at `[size, size + n)`), and a parallel
//! array `lz` of pending maps, one per internal node.  `size` is the
//! smallest power of two that is at least `n`; padding leaves hold the
//! identity and are never touched.  Aggregation is eager: there is no
//! separate "build" phase, `set` re-aggregates on every call, and every
//! read pushes pending maps down its path before it looks at a node.

use vstd::prelude::*;

verus! {

/// An associative aggregate algebra with an identity element.
///
/// `e` and `op` are the mathematical operation; `identity` and
/// `binary_operation` are the executable ones, each tied to its
/// mathematical twin by its contract.  The two proof obligations are the
/// monoid laws: every implementation carries its own proof.
pub trait Monoid: Sized {
    type S;

    /// The identity element, as mathematics sees it.
    spec fn e() -> Self::S;

    /// The combine operation, as mathematics sees it.
    spec fn op(a: Self::S, b: Self::S) -> Self::S;

    /// The law `(a op b) op c == a op (b op c)`.
    proof fn op_assoc(a: Self::S, b: Self::S, c: Self::S)
        ensures
            Self::op(Self::op(a, b), c) == Self::op(a, Self::op(b, c)),
    ;

    /// The law `e op a == a op e == a`.
    proof fn op_identity(a: Self::S)
        ensures
            Self::op(Self::e(), a) == a,
            Self::op(a, Self::e()) == a,
    ;

    fn identity() -> (r: Self::S)
        ensures
            r == Self::e(),
    ;

    fn binary_operation(a: &Self::S, b: &Self::S) -> (r: Self::S)
        ensures
            r == Self::op(*a, *b),
    ;

    /// A faithful copy of an aggregate, so the tree can hand values out.
    fn clone_s(a: &Self::S) -> (r: Self::S)
        ensures
            r == *a,
    ;
}

/// The lazily applied update algebra over an aggregate monoid: an identity
/// map, application of a map to an aggregate, and composition of maps
/// (`comp(f, g)` acts as `g` first, then `f`).
///
/// The proof obligations are exactly what lazy propagation relies on:
/// composition acts by composition, the identity map does nothing, and a
/// map distributes over the combine operation of the aggregates.
pub trait MapMonoid: Sized {
    type M: Monoid;

    type F;

    /// The no-op map.
    spec fn id() -> Self::F;

    /// Application of a map to an aggregate, as mathematics sees it.
    spec fn map_spec(f: Self::F, x: <Self::M as Monoid>::S) -> <Self::M as Monoid>::S;

    /// Composition of maps, as mathematics sees it.
    spec fn comp(f: Self::F, g: Self::F) -> Self::F;

    /// The law `map(id, x) == x`.
    proof fn map_id(x: <Self::M as Monoid>::S)
        ensures
            Self::map_spec(Self::id(), x) == x,
    ;

    /// The law `map(comp(f, g), x) == map(f, map(g, x))`.
    proof fn map_comp(f: Self::F, g: Self::F, x: <Self::M as Monoid>::S)
        ensures
            Self::map_spec(Self::comp(f, g), x) == Self::map_spec(f, Self::map_spec(g, x)),
    ;

    /// The law `map(f, a op b) == map(f, a) op map(f, b)`, which lets one
    /// stored aggregate stand for a whole mapped segment.
    proof fn map_op(f: Self::F, a: <Self::M as Monoid>::S, b: <Self::M as Monoid>::S)
        ensures
            Self::map_spec(f, <Self::M as Monoid>::op(a, b)) == <Self::M as Monoid>::op(
                Self::map_spec(f, a),
                Self::map_spec(f, b),
            ),
    ;

    fn identity_element() -> (r: <Self::M as Monoid>::S)
        ensures
            r == <Self::M as Monoid>::e(),
    ;

    fn binary_operation(a: &<Self::M as Monoid>::S, b: &<Self::M as Monoid>::S) -> (r:
        <Self::M as Monoid>::S)
        ensures
            r == <Self::M as Monoid>::op(*a, *b),
    ;

    fn identity_map() -> (r: Self::F)
        ensures
            r == Self::id(),
    ;

    fn mapping(f: &Self::F, x: &<Self::M as Monoid>::S) -> (r: <Self::M as Monoid>::S)
        ensures
            r == Self::map_spec(*f, *x),
    ;

    fn composition(f: &Self::F, g: &Self::F) -> (r: Self::F)
        ensures
            r == Self::comp(*f, *g),
    ;

    /// A faithful copy of a map, so pending maps can be pushed to both
    /// children.
    fn clone_f(f: &Self::F) -> (r: Self::F)
        ensures
            r == *f,
    ;
}

/// The left-to-right fold of a sequence of aggregates under `op`, starting
/// from the identity: the mathematical meaning of every range query.
pub open spec fn fold_of<M: Monoid>(s: Seq<M::S>) -> M::S
    decreases s.len(),
{
    if s.len() == 0 {
        M::e()
    } else {
        M::op(fold_of::<M>(s.drop_last()), s.last())
    }
}

/// Folding a one-element sequence yields that element.
pub proof fn lemma_fold_singleton<M: Monoid>(x: M::S)
    ensures
        fold_of::<M>(seq![x]) == x,
{
    let s = seq![x];
    assert(s.last() == x);
    assert(s.drop_last() =~= Seq::<M::S>::empty());
    assert(fold_of::<M>(s.drop_last()) == M::e());
    M::op_identity(x);
}

/// Folds split over concatenation: `fold(s + t) == fold(s) op fold(t)`.
pub proof fn lemma_fold_concat<M: Monoid>(s: Seq<M::S>, t: Seq<M::S>)
    ensures
        fold_of::<M>(s + t) == M::op(fold_of::<M>(s), fold_of::<M>(t)),
    decreases t.len(),
{
    if t.len() == 0 {
        assert(s + t =~= s);
        M::op_identity(fold_of::<M>(s));
    } else {
        lemma_fold_concat::<M>(s, t.drop_last());
        assert((s + t).drop_last() =~= s + t.drop_last());
        assert((s + t).last() == t.last());
        M::op_assoc(fold_of::<M>(s), fold_of::<M>(t.drop_last()), t.last());
    }
}

/// A map distributes from the elements of a non-empty fold to its result.
pub proof fn lemma_fold_map<F: MapMonoid>(s: Seq<<F::M as Monoid>::S>, f: F::F)
    requires
        s.len() >= 1,
    ensures
        fold_of::<F::M>(s.map_values(|x: <F::M as Monoid>::S| F::map_spec(f, x))) == F::map_spec(
            f,
            fold_of::<F::M>(s),
        ),
    decreases s.len(),
{
    let g = |x: <F::M as Monoid>::S| F::map_spec(f, x);
    if s.len() == 1 {
        assert(s =~= seq![s[0]]);
        assert(s.map_values(g) =~= seq![F::map_spec(f, s[0])]);
        lemma_fold_singleton::<F::M>(s[0]);
        lemma_fold_singleton::<F::M>(F::map_spec(f, s[0]));
    } else {
        lemma_fold_map::<F>(s.drop_last(), f);
        assert(s.map_values(g).drop_last() =~= s.drop_last().map_values(g));
        assert(s.map_values(g).last() == F::map_spec(f, s.last()));
        F::map_op(f, fold_of::<F::M>(s.drop_last()), s.last());
    }
}

/// Folding identities yields the identity.
pub proof fn lemma_fold_all_e<M: Monoid>(s: Seq<M::S>)
    requires
        forall|i: int| 0 <= i < s.len() ==> s[i] == M::e(),
    ensures
        fold_of::<M>(s) == M::e(),
    decreases s.len(),
{
    if s.len() > 0 {
        lemma_fold_all_e::<M>(s.drop_last());
        M::op_identity(M::e());
    }
}

/// Is `j` a node of the subtree rooted at `k` in the implicit heap layout?
/// Follows parent links from `j` upward.
pub open spec fn in_subtree(k: int, j: int) -> bool
    decreases j,
{
    if k < 1 || j < k {
        false
    } else if j == k {
        true
    } else {
        in_subtree(k, j / 2)
    }
}

/// Every subtree node lies at or after its root.
proof fn lemma_subtree_lower(k: int, j: int)
    ensures
        in_subtree(k, j) ==> j >= k,
{
}

/// A node of a child's subtree is a node of the parent's subtree.
proof fn lemma_subtree_step(k: int, j: int)
    requires
        k >= 1,
        in_subtree(2 * k, j) || in_subtree(2 * k + 1, j),
    ensures
        in_subtree(k, j),
    decreases j,
{
    if in_subtree(2 * k, j) {
        lemma_subtree_lower(2 * k, j);
        if j == 2 * k {
            assert(j / 2 == k);
            assert(in_subtree(k, k));
            assert(in_subtree(k, j));
        } else {
            lemma_subtree_step(k, j / 2);
            assert(in_subtree(k, j));
        }
    } else {
        lemma_subtree_lower(2 * k + 1, j);
        if j == 2 * k + 1 {
            assert(j / 2 == k);
            assert(in_subtree(k, k));
            assert(in_subtree(k, j));
        } else {
            lemma_subtree_step(k, j / 2);
            assert(in_subtree(k, j));
        }
    }
}

/// The two children of a node root disjoint subtrees.
proof fn lemma_siblings_disjoint(k: int, j: int)
    requires
        k >= 1,
    ensures
        !(in_subtree(2 * k, j) && in_subtree(2 * k + 1, j)),
    decreases j,
{
    if j == 2 * k + 1 {
        assert((2 * k + 1) / 2 == k);
        assert(!in_subtree(2 * k, k));
        assert(!in_subtree(2 * k, 2 * k + 1));
    } else if j > 2 * k + 1 {
        lemma_siblings_disjoint(k, j / 2);
        assert(in_subtree(2 * k, j) ==> in_subtree(2 * k, j / 2));
        assert(in_subtree(2 * k + 1, j) ==> in_subtree(2 * k + 1, j / 2));
    }
}

/// Is `w` a power of two?
pub open spec fn is_pow2(w: nat) -> bool
    decreases w,
{
    if w == 0 {
        false
    } else if w == 1 {
        true
    } else {
        w % 2 == 0 && is_pow2(w / 2)
    }
}

/// The sequence of leaf values below node `k` of width `w`, with every
/// pending map on the path already applied: what the subtree *means*.
///
/// A node of width `1` is a leaf holding `d[k]`; an inner node means its
/// children's segments, concatenated in index order and transformed by the
/// node's own pending map `lz[k]`.
pub open spec fn seg_view<F: MapMonoid>(
    d: Seq<<F::M as Monoid>::S>,
    lz: Seq<F::F>,
    k: int,
    w: nat,
) -> Seq<<F::M as Monoid>::S>
    decreases w,
{
    if w <= 1 {
        seq![d[k]]
    } else {
        (seg_view::<F>(d, lz, 2 * k, w / 2) + seg_view::<F>(d, lz, 2 * k + 1, (w - w / 2) as nat))
            .map_values(|x: <F::M as Monoid>::S| F::map_spec(lz[k], x))
    }
}

/// The structural invariant below node `k`: every inner node stores the
/// fold of its own segment (its own pending map included; only the
/// children may still lag behind).
pub open spec fn node_ok<F: MapMonoid>(
    d: Seq<<F::M as Monoid>::S>,
    lz: Seq<F::F>,
    k: int,
    w: nat,
) -> bool
    decreases w,
{
    w <= 1 || {
        &&& node_ok::<F>(d, lz, 2 * k, w / 2)
        &&& node_ok::<F>(d, lz, 2 * k + 1, (w - w / 2) as nat)
        &&& d[k] == fold_of::<F::M>(seg_view::<F>(d, lz, k, w))
    }
}

/// A segment has exactly as many leaves as its width.
pub proof fn lemma_seg_view_len<F: MapMonoid>(
    d: Seq<<F::M as Monoid>::S>,
    lz: Seq<F::F>,
    k: int,
    w: nat,
)
    requires
        w >= 1,
    ensures
        seg_view::<F>(d, lz, k, w).len() == w,
    decreases w,
{
    if w > 1 {
        lemma_seg_view_len::<F>(d, lz, 2 * k, w / 2);
        lemma_seg_view_len::<F>(d, lz, 2 * k + 1, (w - w / 2) as nat);
    }
}

/// The well-placedness of a node: its leaves fill `[k * w, (k + 1) * w)`,
/// which lies in the leaf half `[sz, 2 * sz)` of the array, and the node
/// itself is an inner node exactly when its width exceeds one.
pub open spec fn node_in_place(k: int, w: nat, sz: nat) -> bool {
    &&& 1 <= k
    &&& 1 <= w
    &&& is_pow2(w)
    &&& is_pow2(sz)
    &&& k * w >= sz
    &&& (k + 1) * w <= 2 * sz
}

/// The children of a well-placed inner node are well placed.
proof fn lemma_children_in_place(k: int, w: nat, sz: nat)
    requires
        node_in_place(k, w, sz),
        w >= 2,
    ensures
        node_in_place(2 * k, (w / 2) as nat, sz),
        node_in_place(2 * k + 1, (w / 2) as nat, sz),
        w - w / 2 == w / 2,
        k < sz,
        (2 * k) * ((w / 2) as int) == k * w,
        (2 * k + 1) * ((w / 2) as int) == k * w + w / 2,
        k * w + w == (k + 1) * w,
        sz <= k * w,
        k * w + w <= 2 * sz,
{
    assert(w % 2 == 0 && is_pow2((w / 2) as nat));
    vstd::arithmetic::div_mod::lemma_fundamental_div_mod(w as int, 2);
    let h: nat = (w / 2) as nat;
    assert(w == 2 * h);
    assert((2 * k) * h == k * w && (2 * k + 1) * h == k * w + h && ((2 * k + 1) + 1) * h == (k + 1)
        * w) by (nonlinear_arith)
        requires
            w == 2 * h,
    ;
    assert(k * w + w == (k + 1) * w && 2 * k <= k * w) by (nonlinear_arith)
        requires
            k >= 1,
            w >= 2,
    ;
    assert(k * w <= 2 * sz - w);
    assert(k < sz);
    assert(node_in_place(2 * k, h, sz));
    assert(node_in_place(2 * k + 1, h, sz));
}

/// A well-placed leaf (width one) sits in the leaf half of the array.
proof fn lemma_leaf_in_place(k: int, sz: nat)
    requires
        node_in_place(k, 1, sz),
    ensures
        sz <= k < 2 * sz,
{
}

/// Everything a segment reads lies in its own subtree, so two array pairs
/// that agree there have equal segments: `d` matters only at the leaves,
/// `lz` only at the inner nodes.
proof fn lemma_seg_view_frame<F: MapMonoid>(
    d1: Seq<<F::M as Monoid>::S>,
    lz1: Seq<F::F>,
    d2: Seq<<F::M as Monoid>::S>,
    lz2: Seq<F::F>,
    k: int,
    w: nat,
    sz: nat,
)
    requires
        node_in_place(k, w, sz),
        d1.len() == 2 * sz,
        d2.len() == 2 * sz,
        lz1.len() == sz,
        lz2.len() == sz,
        forall|j: int|
            in_subtree(k, j) && sz <= j < 2 * sz ==> d1[j] == d2[j],
        forall|j: int|
            in_subtree(k, j) && 1 <= j < sz ==> lz1[j] == lz2[j],
    ensures
        seg_view::<F>(d1, lz1, k, w) == seg_view::<F>(d2, lz2, k, w),
    decreases w,
{
    assert(in_subtree(k, k));
    if w <= 1 {
        lemma_leaf_in_place(k, sz);
        assert(seg_view::<F>(d1, lz1, k, w) =~= seg_view::<F>(d2, lz2, k, w));
    } else {
        lemma_children_in_place(k, w, sz);
        assert forall|j: int|
            (in_subtree(2 * k, j) || in_subtree(2 * k + 1, j)) && sz <= j < 2 * sz implies d1[j]
            == d2[j] by {
            lemma_subtree_step(k, j);
        }
        assert forall|j: int|
            (in_subtree(2 * k, j) || in_subtree(2 * k + 1, j)) && 1 <= j < sz implies lz1[j]
            == lz2[j] by {
            lemma_subtree_step(k, j);
        }
        lemma_seg_view_frame::<F>(d1, lz1, d2, lz2, 2 * k, (w / 2) as nat, sz);
        lemma_seg_view_frame::<F>(d1, lz1, d2, lz2, 2 * k + 1, (w / 2) as nat, sz);
        assert(lz1[k] == lz2[k]);
        assert(seg_view::<F>(d1, lz1, k, w) =~= seg_view::<F>(d2, lz2, k, w));
    }
}

/// As [`lemma_seg_view_frame`], with agreement on the whole subtree: the
/// structural invariant carries over as well.
proof fn lemma_node_ok_frame<F: MapMonoid>(
    d1: Seq<<F::M as Monoid>::S>,
    lz1: Seq<F::F>,
    d2: Seq<<F::M as Monoid>::S>,
    lz2: Seq<F::F>,
    k: int,
    w: nat,
    sz: nat,
)
    requires
        node_in_place(k, w, sz),
        d1.len() == 2 * sz,
        d2.len() == 2 * sz,
        lz1.len() == sz,
        lz2.len() == sz,
        forall|j: int|
            in_subtree(k, j) && 1 <= j < 2 * sz ==> d1[j] == d2[j],
        forall|j: int|
            in_subtree(k, j) && 1 <= j < sz ==> lz1[j] == lz2[j],
        node_ok::<F>(d1, lz1, k, w),
    ensures
        node_ok::<F>(d2, lz2, k, w),
        seg_view::<F>(d1, lz1, k, w) == seg_view::<F>(d2, lz2, k, w),
    decreases w,
{
    lemma_seg_view_frame::<F>(d1, lz1, d2, lz2, k, w, sz);
    if w > 1 {
        lemma_children_in_place(k, w, sz);
        assert forall|j: int|
            (in_subtree(2 * k, j) || in_subtree(2 * k + 1, j)) && 1 <= j < 2 * sz implies d1[j]
            == d2[j] by {
            lemma_subtree_step(k, j);
        }
        assert forall|j: int|
            (in_subtree(2 * k, j) || in_subtree(2 * k + 1, j)) && 1 <= j < sz implies lz1[j]
            == lz2[j] by {
            lemma_subtree_step(k, j);
        }
        lemma_node_ok_frame::<F>(d1, lz1, d2, lz2, 2 * k, (w / 2) as nat, sz);
        lemma_node_ok_frame::<F>(d1, lz1, d2, lz2, 2 * k + 1, (w / 2) as nat, sz);
        assert(in_subtree(k, k));
        assert(d1[k] == d2[k]);
    }
}

/// Where no pending map sits anywhere below `k`, the segment is the raw
/// run of leaf entries `d[k * w .. k * w + w]`.
proof fn lemma_seg_view_raw<F: MapMonoid>(
    d: Seq<<F::M as Monoid>::S>,
    lz: Seq<F::F>,
    k: int,
    w: nat,
    sz: nat,
)
    requires
        node_in_place(k, w, sz),
        d.len() == 2 * sz,
        lz.len() == sz,
        forall|j: int| in_subtree(k, j) && 1 <= j < sz ==> lz[j] == F::id(),
    ensures
        seg_view::<F>(d, lz, k, w) == d.subrange(k * w, k * w + w),
    decreases w,
{
    assert(in_subtree(k, k));
    if w <= 1 {
        lemma_leaf_in_place(k, sz);
        assert(w == 1);
        assert(k * w == k) by (nonlinear_arith)
            requires
                w == 1,
        ;
        assert(seg_view::<F>(d, lz, k, w) == seq![d[k]]);
        assert(seg_view::<F>(d, lz, k, w) =~= d.subrange(k, k + 1));
    } else {
        lemma_children_in_place(k, w, sz);
        assert forall|j: int|
            (in_subtree(2 * k, j) || in_subtree(2 * k + 1, j)) && 1 <= j < sz implies lz[j]
            == F::id() by {
            lemma_subtree_step(k, j);
        }
        lemma_seg_view_raw::<F>(d, lz, 2 * k, (w / 2) as nat, sz);
        lemma_seg_view_raw::<F>(d, lz, 2 * k + 1, (w / 2) as nat, sz);
        let h = (w / 2) as int;
        let whole = d.subrange(k * w, k * w + w);
        let left = d.subrange(k * w, k * w + h);
        let right = d.subrange(k * w + h, k * w + w);
        assert(seg_view::<F>(d, lz, 2 * k, (w / 2) as nat) == left);
        assert(seg_view::<F>(d, lz, 2 * k + 1, (w / 2) as nat) == right);
        assert(left + right =~= whole);
        assert(lz[k] == F::id());
        assert forall|i: int| 0 <= i < whole.len() implies F::map_spec(F::id(), whole[i])
            == whole[i] by {
            F::map_id(whole[i]);
        }
        assert(seg_view::<F>(d, lz, k, w) =~= whole);
    }
}

/// A well-placed node with the invariant below it stores the fold of its
/// own segment; a leaf does so trivially.
proof fn lemma_stored_is_fold<F: MapMonoid>(
    d: Seq<<F::M as Monoid>::S>,
    lz: Seq<F::F>,
    k: int,
    w: nat,
    sz: nat,
)
    requires
        node_in_place(k, w, sz),
        node_ok::<F>(d, lz, k, w),
    ensures
        d[k] == fold_of::<F::M>(seg_view::<F>(d, lz, k, w)),
{
    if w <= 1 {
        assert(seg_view::<F>(d, lz, k, w) == seq![d[k]]);
        lemma_fold_singleton::<F::M>(d[k]);
    }
}

/// The generic lazy-propagation segment tree: `n` logical leaves padded to
/// a power of two `size`, aggregates in `d`, pending maps in `lz`.
pub struct LazySegMentTree<F: MapMonoid> {
    n: usize,
    size: usize,
    d: Vec<<F::M as Monoid>::S>,
    lz: Vec<F::F>,
}

impl<F: MapMonoid> View for LazySegMentTree<F> {
    type V = Seq<<F::M as Monoid>::S>;

    /// The logical content: the fully propagated values of the `n` leaves.
    closed spec fn view(&self) -> Seq<<F::M as Monoid>::S> {
        seg_view::<F>(self.d@, self.lz@, 1, self.size as nat).take(self.n as int)
    }
}

impl<F: MapMonoid> LazySegMentTree<F> {
    /// The fixed array shape.
    closed spec fn shape(&self) -> bool {
        &&& 1 <= self.size
        &&& self.n <= self.size
        &&& is_pow2(self.size as nat)
        &&& self.d.len() == 2 * self.size
        &&& self.lz.len() == self.size
    }

    /// All the leaves, padding included.
    closed spec fn leaves(&self) -> Seq<<F::M as Monoid>::S> {
        seg_view::<F>(self.d@, self.lz@, 1, self.size as nat)
    }

    /// The tree's invariant: well-shaped arrays, every node's aggregate
    /// correct below the root, and identity padding past `n`.
    pub closed spec fn wf(&self) -> bool {
        &&& self.shape()
        &&& node_ok::<F>(self.d@, self.lz@, 1, self.size as nat)
        &&& forall|i: int|
            self.n <= i < self.size ==> self.leaves()[i] == <F::M as Monoid>::e()
    }

    /// The number of logical leaves.
    pub closed spec fn spec_len(&self) -> nat {
        self.n as nat
    }

    proof fn lemma_root_in_place(&self)
        requires
            self.shape(),
        ensures
            node_in_place(1, self.size as nat, self.size as nat),
            self@.len() == self.n,
            self.leaves().len() == self.size,
    {
        lemma_seg_view_len::<F>(self.d@, self.lz@, 1, self.size as nat);
    }

    /// Recompute an inner node from its two children, assuming its own
    /// pending map is the identity.
    fn update(&mut self, k: usize, Ghost(w): Ghost<nat>)
        requires
            old(self).shape(),
            node_in_place(k as int, w, old(self).size as nat),
            w >= 2,
            node_ok::<F>(old(self).d@, old(self).lz@, 2 * k as int, (w / 2) as nat),
            node_ok::<F>(old(self).d@, old(self).lz@, 2 * k as int + 1, (w / 2) as nat),
            old(self).lz@[k as int] == F::id(),
        ensures
            final(self).shape(),
            final(self).n == old(self).n,
            final(self).size == old(self).size,
            final(self).lz@ == old(self).lz@,
            forall|j: int| 0 <= j < final(self).d@.len() && j != k ==> final(self).d@[j] == old(self).d@[j],
            node_ok::<F>(final(self).d@, final(self).lz@, k as int, w),
            seg_view::<F>(final(self).d@, final(self).lz@, k as int, w) == seg_view::<F>(
                old(self).d@,
                old(self).lz@,
                k as int,
                w,
            ),
    {
        proof {
            lemma_children_in_place(k as int, w, self.size as nat);
        }
        let v = F::binary_operation(&self.d[2 * k], &self.d[2 * k + 1]);
        self.d[k] = v;
        proof {
            let sz = self.size as nat;
            let ki = k as int;
            let h = (w / 2) as nat;
            let d0 = old(self).d@;
            let d1 = self.d@;
            let lz = self.lz@;
            assert forall|j: int| #[trigger] in_subtree(2 * ki, j) implies j != ki by {
                lemma_subtree_lower(2 * ki, j);
            }
            assert forall|j: int| #[trigger] in_subtree(2 * ki + 1, j) implies j != ki by {
                lemma_subtree_lower(2 * ki + 1, j);
            }
            lemma_node_ok_frame::<F>(d0, lz, d1, lz, 2 * ki, h, sz);
            lemma_node_ok_frame::<F>(d0, lz, d1, lz, 2 * ki + 1, h, sz);
            let a1 = seg_view::<F>(d1, lz, 2 * ki, h);
            let b1 = seg_view::<F>(d1, lz, 2 * ki + 1, h);
            // The node's own map is the identity, so its segment is just the
            // concatenation of the children's.
            assert forall|i: int| 0 <= i < (a1 + b1).len() implies F::map_spec(F::id(), (a1 + b1)[i])
                == (a1 + b1)[i] by {
                F::map_id((a1 + b1)[i]);
            }
            assert(seg_view::<F>(d1, lz, ki, w) =~= a1 + b1);
            assert(seg_view::<F>(d0, lz, ki, w) =~= a1 + b1);
            lemma_stored_is_fold::<F>(d0, lz, 2 * ki, h, sz);
            lemma_stored_is_fold::<F>(d0, lz, 2 * ki + 1, h, sz);
            lemma_fold_concat::<F::M>(a1, b1);
            assert(d1[ki] == fold_of::<F::M>(seg_view::<F>(d1, lz, ki, w)));
        }
    }

    /// Fold a map into one node: transform its aggregate now, and queue the
    /// map for its children if it has any.
    fn all_apply(&mut self, k: usize, f: F::F, Ghost(w): Ghost<nat>)
        requires
            old(self).shape(),
            node_in_place(k as int, w, old(self).size as nat),
            node_ok::<F>(old(self).d@, old(self).lz@, k as int, w),
        ensures
            final(self).shape(),
            final(self).n == old(self).n,
            final(self).size == old(self).size,
            forall|j: int| 0 <= j < final(self).d@.len() && j != k ==> final(self).d@[j] == old(self).d@[j],
            forall|j: int| 0 <= j < final(self).lz@.len() && j != k ==> final(self).lz@[j] == old(self).lz@[j],
            node_ok::<F>(final(self).d@, final(self).lz@, k as int, w),
            seg_view::<F>(final(self).d@, final(self).lz@, k as int, w) == seg_view::<F>(
                old(self).d@,
                old(self).lz@,
                k as int,
                w,
            ).map_values(|x: <F::M as Monoid>::S| F::map_spec(f, x)),
    {
        proof {
            if w >= 2 {
                lemma_children_in_place(k as int, w, self.size as nat);
            } else {
                lemma_leaf_in_place(k as int, self.size as nat);
            }
        }
        let v = F::mapping(&f, &self.d[k]);
        self.d[k] = v;
        if k < self.size {
            let c = F::composition(&f, &self.lz[k]);
            self.lz[k] = c;
        }
        proof {
            let sz = self.size as nat;
            let ki = k as int;
            let d0 = old(self).d@;
            let lz0 = old(self).lz@;
            let d1 = self.d@;
            let lz1 = self.lz@;
            let g = |x: <F::M as Monoid>::S| F::map_spec(f, x);
            let s0 = seg_view::<F>(d0, lz0, ki, w);
            if w <= 1 {
                assert(ki >= sz);
                assert(s0 == seq![d0[ki]]);
                assert(seg_view::<F>(d1, lz1, ki, w) == seq![d1[ki]]);
                assert(seg_view::<F>(d1, lz1, ki, w) =~= s0.map_values(g));
            } else {
                let h = (w / 2) as nat;
                assert(ki < sz);
                assert forall|j: int| #[trigger] in_subtree(2 * ki, j) implies j != ki by {
                    lemma_subtree_lower(2 * ki, j);
                }
                assert forall|j: int| #[trigger] in_subtree(2 * ki + 1, j) implies j != ki by {
                    lemma_subtree_lower(2 * ki + 1, j);
                }
                lemma_node_ok_frame::<F>(d0, lz0, d1, lz1, 2 * ki, h, sz);
                lemma_node_ok_frame::<F>(d0, lz0, d1, lz1, 2 * ki + 1, h, sz);
                let a = seg_view::<F>(d1, lz1, 2 * ki, h);
                let b = seg_view::<F>(d1, lz1, 2 * ki + 1, h);
                lemma_seg_view_len::<F>(d1, lz1, 2 * ki, h);
                lemma_seg_view_len::<F>(d1, lz1, 2 * ki + 1, h);
                // New pending map is f after g0: applying it is applying g0,
                // then f.
                let g0 = lz0[ki];
                assert forall|i: int| 0 <= i < (a + b).len() implies F::map_spec(lz1[ki], (a + b)[i])
                    == F::map_spec(f, F::map_spec(g0, (a + b)[i])) by {
                    F::map_comp(f, g0, (a + b)[i]);
                }
                assert(seg_view::<F>(d1, lz1, ki, w) =~= s0.map_values(g));
                // The stored aggregate keeps pace with the segment.
                lemma_stored_is_fold::<F>(d0, lz0, ki, w, sz);
                lemma_seg_view_len::<F>(d0, lz0, ki, w);
                lemma_fold_map::<F>(s0, f);
                assert(d1[ki] == fold_of::<F::M>(seg_view::<F>(d1, lz1, ki, w)));
            }
        }
    }

    /// Push one node's pending map down to its two children.
    fn push(&mut self, k: usize, Ghost(w): Ghost<nat>)
        requires
            old(self).shape(),
            node_in_place(k as int, w, old(self).size as nat),
            w >= 2,
            node_ok::<F>(old(self).d@, old(self).lz@, k as int, w),
        ensures
            final(self).shape(),
            final(self).n == old(self).n,
            final(self).size == old(self).size,
            forall|j: int|
                0 <= j < final(self).d@.len() && j != 2 * k && j != 2 * k + 1 ==> final(self).d@[j] == old(
                    self,
                ).d@[j],
            forall|j: int|
                0 <= j < final(self).lz@.len() && j != k as int && j != 2 * k && j != 2 * k + 1
                    ==> final(self).lz@[j] == old(self).lz@[j],
            final(self).lz@[k as int] == F::id(),
            node_ok::<F>(final(self).d@, final(self).lz@, 2 * k as int, (w / 2) as nat),
            node_ok::<F>(final(self).d@, final(self).lz@, 2 * k as int + 1, (w / 2) as nat),
            node_ok::<F>(final(self).d@, final(self).lz@, k as int, w),
            seg_view::<F>(final(self).d@, final(self).lz@, k as int, w) == seg_view::<F>(
                old(self).d@,
                old(self).lz@,
                k as int,
                w,
            ),
            seg_view::<F>(final(self).d@, final(self).lz@, 2 * k as int, (w / 2) as nat) + seg_view::<F>(
                final(self).d@,
                final(self).lz@,
                2 * k as int + 1,
                (w / 2) as nat,
            ) == seg_view::<F>(final(self).d@, final(self).lz@, k as int, w),
    {
        proof {
            lemma_children_in_place(k as int, w, self.size as nat);
        }
        let ghost sz = self.size as nat;
        let ghost ki = k as int;
        let ghost h = (w / 2) as nat;
        let ghost d0 = self.d@;
        let ghost lz0 = self.lz@;
        let ghost a0 = seg_view::<F>(d0, lz0, 2 * ki, h);
        let ghost b0 = seg_view::<F>(d0, lz0, 2 * ki + 1, h);
        let g1 = F::clone_f(&self.lz[k]);
        let g2 = F::clone_f(&g1);
        self.all_apply(2 * k, g1, Ghost((w / 2) as nat));
        proof {
            // The first push leaves the right child untouched.
            assert(in_subtree(2 * ki + 1, 2 * ki + 1));
            lemma_siblings_disjoint(ki, 2 * ki);
            assert forall|j: int| #[trigger] in_subtree(2 * ki + 1, j) implies j != 2 * ki by {
                lemma_siblings_disjoint(ki, j);
                assert(in_subtree(2 * ki, 2 * ki));
            }
            lemma_node_ok_frame::<F>(d0, lz0, self.d@, self.lz@, 2 * ki + 1, h, sz);
        }
        let ghost da = self.d@;
        let ghost lza = self.lz@;
        self.all_apply(2 * k + 1, g2, Ghost((w / 2) as nat));
        proof {
            // And the second leaves the freshly mapped left child alone.
            assert forall|j: int| #[trigger] in_subtree(2 * ki, j) implies j != 2 * ki + 1 by {
                lemma_siblings_disjoint(ki, j);
                assert(in_subtree(2 * ki + 1, 2 * ki + 1));
            }
            lemma_node_ok_frame::<F>(da, lza, self.d@, self.lz@, 2 * ki, h, sz);
        }
        let ghost dm = self.d@;
        let ghost lzm = self.lz@;
        let e = F::identity_map();
        self.lz[k] = e;
        proof {
            let d1 = self.d@;
            let lz1 = self.lz@;
            let g = |x: <F::M as Monoid>::S| F::map_spec(lz0[ki], x);
            // Neither child's subtree holds the parent, so both keep their
            // mapped segments.
            assert forall|j: int| #[trigger] in_subtree(2 * ki, j) implies j != ki by {
                lemma_subtree_lower(2 * ki, j);
            }
            assert forall|j: int| #[trigger] in_subtree(2 * ki + 1, j) implies j != ki by {
                lemma_subtree_lower(2 * ki + 1, j);
            }
            lemma_node_ok_frame::<F>(dm, lzm, d1, lz1, 2 * ki, h, sz);
            lemma_node_ok_frame::<F>(dm, lzm, d1, lz1, 2 * ki + 1, h, sz);
            let a1 = seg_view::<F>(d1, lz1, 2 * ki, h);
            let b1 = seg_view::<F>(d1, lz1, 2 * ki + 1, h);
            assert(a1 == a0.map_values(g));
            assert(b1 == b0.map_values(g));
            lemma_seg_view_len::<F>(d0, lz0, 2 * ki, h);
            lemma_seg_view_len::<F>(d0, lz0, 2 * ki + 1, h);
            assert forall|i: int| 0 <= i < (a1 + b1).len() implies F::map_spec(F::id(), (a1 + b1)[i])
                == (a1 + b1)[i] by {
                F::map_id((a1 + b1)[i]);
            }
            assert(seg_view::<F>(d1, lz1, ki, w) =~= a1 + b1);
            assert(a1 + b1 =~= (a0 + b0).map_values(g));
            assert(seg_view::<F>(d0, lz0, ki, w) =~= (a0 + b0).map_values(g));
            // The parent's aggregate never moved, and its segment is
            // unchanged, so the invariant stands.
            assert(d1[ki] == d0[ki]);
            lemma_stored_is_fold::<F>(d0, lz0, ki, w, sz);
        }
    }

    /// Apply `f` to every leaf of `[a, b)` that lies under node `k`, which
    /// covers the leaf interval `[l, r)`.
    fn apply_rec(&mut self, k: usize, a: usize, b: usize, f: &F::F, l: usize, r: usize)
        requires
            old(self).shape(),
            l < r <= old(self).size,
            a < b <= old(self).size,
            node_in_place(k as int, (r - l) as nat, old(self).size as nat),
            k as int * (r - l) == old(self).size + l,
            node_ok::<F>(old(self).d@, old(self).lz@, k as int, (r - l) as nat),
        ensures
            final(self).shape(),
            final(self).n == old(self).n,
            final(self).size == old(self).size,
            forall|j: int|
                0 <= j < final(self).d@.len() && !in_subtree(k as int, j) ==> final(self).d@[j]
                    == old(self).d@[j],
            forall|j: int|
                0 <= j < final(self).lz@.len() && !in_subtree(k as int, j) ==> final(self).lz@[j]
                    == old(self).lz@[j],
            node_ok::<F>(final(self).d@, final(self).lz@, k as int, (r - l) as nat),
            seg_view::<F>(final(self).d@, final(self).lz@, k as int, (r - l) as nat).len() == r - l,
            forall|i: int|
                0 <= i < r - l ==> #[trigger] seg_view::<F>(
                    final(self).d@,
                    final(self).lz@,
                    k as int,
                    (r - l) as nat,
                )[i] == if a <= l + i < b {
                    F::map_spec(
                        *f,
                        seg_view::<F>(old(self).d@, old(self).lz@, k as int, (r - l) as nat)[i],
                    )
                } else {
                    seg_view::<F>(old(self).d@, old(self).lz@, k as int, (r - l) as nat)[i]
                },
        decreases r - l,
    {
        let ghost sz = self.size as nat;
        let ghost ki = k as int;
        let ghost w = (r - l) as nat;
        let ghost s0 = seg_view::<F>(self.d@, self.lz@, ki, w);
        proof {
            assert(in_subtree(ki, ki));
            lemma_seg_view_len::<F>(self.d@, self.lz@, ki, w);
        }
        if b <= l || r <= a {
            return ;
        }
        if a <= l && r <= b {
            let fc = F::clone_f(f);
            self.all_apply(k, fc, Ghost(w));
            proof {
                lemma_seg_view_len::<F>(self.d@, self.lz@, ki, w);
            }
            return ;
        }
        proof {
            if r - l < 2 {
                assert(a <= l && r <= b);
                assert(false);
            }
            lemma_children_in_place(ki, w, sz);
        }
        self.push(k, Ghost(w));
        let ghost dp = self.d@;
        let ghost lzp = self.lz@;
        let ghost h = (w / 2) as nat;
        let ghost lseg = seg_view::<F>(dp, lzp, 2 * ki, h);
        let ghost rseg = seg_view::<F>(dp, lzp, 2 * ki + 1, h);
        let m = l + (r - l) / 2;
        proof {
            lemma_seg_view_len::<F>(dp, lzp, 2 * ki, h);
            lemma_seg_view_len::<F>(dp, lzp, 2 * ki + 1, h);
            assert(lseg + rseg == s0);
            assert(2 * ki * (h as int) == ki * (w as int));
            assert((2 * ki + 1) * (h as int) == ki * (w as int) + h);
        }
        self.apply_rec(2 * k, a, b, f, l, m);
        proof {
            // The left descent stays inside the left subtree.
            assert forall|j: int| #[trigger] in_subtree(2 * ki + 1, j) implies !in_subtree(
                2 * ki,
                j,
            ) by {
                lemma_siblings_disjoint(ki, j);
            }
            assert(!in_subtree(2 * ki, ki)) by {
                lemma_subtree_lower(2 * ki, ki);
            }
            lemma_node_ok_frame::<F>(dp, lzp, self.d@, self.lz@, 2 * ki + 1, h, sz);
            assert(self.lz@[ki] == F::id());
        }
        let ghost dq = self.d@;
        let ghost lzq = self.lz@;
        self.apply_rec(2 * k + 1, a, b, f, m, r);
        proof {
            assert forall|j: int| #[trigger] in_subtree(2 * ki, j) implies !in_subtree(
                2 * ki + 1,
                j,
            ) by {
                lemma_siblings_disjoint(ki, j);
            }
            assert(!in_subtree(2 * ki + 1, ki)) by {
                lemma_subtree_lower(2 * ki + 1, ki);
            }
            lemma_node_ok_frame::<F>(dq, lzq, self.d@, self.lz@, 2 * ki, h, sz);
            assert(self.lz@[ki] == F::id());
        }
        let ghost dr = self.d@;
        let ghost lzr = self.lz@;
        self.update(k, Ghost(w));
        proof {
            let d1 = self.d@;
            let lz1 = self.lz@;
            // Rewriting the parent's aggregate leaves both children's
            // segments alone.
            assert forall|j: int| #[trigger] in_subtree(2 * ki, j) implies j != ki by {
                lemma_subtree_lower(2 * ki, j);
            }
            assert forall|j: int| #[trigger] in_subtree(2 * ki + 1, j) implies j != ki by {
                lemma_subtree_lower(2 * ki + 1, j);
            }
            lemma_node_ok_frame::<F>(dr, lzr, d1, lz1, 2 * ki, h, sz);
            lemma_node_ok_frame::<F>(dr, lzr, d1, lz1, 2 * ki + 1, h, sz);
            let l1 = seg_view::<F>(d1, lz1, 2 * ki, h);
            let r1 = seg_view::<F>(d1, lz1, 2 * ki + 1, h);
            lemma_seg_view_len::<F>(d1, lz1, 2 * ki, h);
            lemma_seg_view_len::<F>(d1, lz1, 2 * ki + 1, h);
            // The left child's final segment is what the left descent made
            // of it, and likewise on the right.
            assert(l1 == seg_view::<F>(dq, lzq, 2 * ki, h));
            assert(r1 == seg_view::<F>(dr, lzr, 2 * ki + 1, h));
            assert(seg_view::<F>(dq, lzq, 2 * ki + 1, h) == rseg);
            assert forall|i: int| 0 <= i < w implies (l1 + r1)[i] == (if a <= l + i < b {
                F::map_spec(*f, s0[i])
            } else {
                s0[i]
            }) by {
                if i < h {
                    assert((l1 + r1)[i] == l1[i]);
                    assert(s0[i] == lseg[i]);
                } else {
                    assert((l1 + r1)[i] == r1[i - h]);
                    assert(s0[i] == rseg[i - h]);
                    assert(m + (i - h) == l + i);
                }
            }
            assert forall|i: int| 0 <= i < (l1 + r1).len() implies F::map_spec(
                F::id(),
                (l1 + r1)[i],
            ) == (l1 + r1)[i] by {
                F::map_id((l1 + r1)[i]);
            }
            assert(seg_view::<F>(d1, lz1, ki, w) =~= l1 + r1);
            lemma_seg_view_len::<F>(d1, lz1, ki, w);
            // Every subtree change happened under one of the two children.
            assert forall|j: int|
                0 <= j < d1.len() && !in_subtree(ki, j) implies d1[j] == old(self).d@[j] by {
                if in_subtree(2 * ki, j) || in_subtree(2 * ki + 1, j) {
                    lemma_subtree_step(ki, j);
                }
            }
            assert forall|j: int|
                0 <= j < lz1.len() && !in_subtree(ki, j) implies lz1[j] == old(self).lz@[j] by {
                if in_subtree(2 * ki, j) || in_subtree(2 * ki + 1, j) {
                    lemma_subtree_step(ki, j);
                }
            }
        }
    }

    /// Apply `f` to every leaf in `[a, b)`.
    pub fn apply_range(&mut self, a: usize, b: usize, f: &F::F)
        requires
            old(self).wf(),
            a <= b,
            b <= old(self).spec_len(),
        ensures
            final(self).wf(),
            final(self).spec_len() == old(self).spec_len(),
            final(self)@.len() == old(self)@.len(),
            final(self)@.len() == old(self).spec_len(),
            forall|i: int|
                0 <= i < old(self)@.len() ==> final(self)@[i] == if a <= i < b {
                    F::map_spec(*f, old(self)@[i])
                } else {
                    old(self)@[i]
                },
    {
        proof {
            self.lemma_root_in_place();
        }
        if a == b {
            return ;
        }
        let size = self.size;
        self.apply_rec(1, a, b, f, 0, size);
        proof {
            self.lemma_root_in_place();
            let w = self.size as nat;
            let s0 = seg_view::<F>(old(self).d@, old(self).lz@, 1, w);
            let s1 = seg_view::<F>(self.d@, self.lz@, 1, w);
            assert(s1.take(self.n as int) =~= self@);
            assert(s0.take(self.n as int) =~= old(self)@);
            assert forall|i: int| self.n <= i < self.size implies s1[i]
                == <F::M as Monoid>::e() by {
                assert(s1[i] == s0[i]);
            }
        }
    }

    /// Replace the leaf at `p` by `mapping(f, leaf)`.
    pub fn apply(&mut self, p: usize, f: &F::F)
        requires
            old(self).wf(),
            p < old(self).spec_len(),
        ensures
            final(self).wf(),
            final(self)@ == old(self)@.update(p as int, F::map_spec(*f, old(self)@[p as int])),
            final(self)@.len() == final(self).spec_len(),
    {
        self.apply_range(p, p + 1, f);
        proof {
            assert(self@ =~= old(self)@.update(p as int, F::map_spec(*f, old(self)@[p as int])));
        }
    }

    /// Fold the leaves of `[a, b)` that lie under node `k`, which covers
    /// the leaf interval `[l, r)`, pushing pending maps down the path.
    fn prod_rec(&mut self, k: usize, a: usize, b: usize, l: usize, r: usize) -> (res:
        <F::M as Monoid>::S)
        requires
            old(self).shape(),
            l < r <= old(self).size,
            a < b <= old(self).size,
            node_in_place(k as int, (r - l) as nat, old(self).size as nat),
            k as int * (r - l) == old(self).size + l,
            node_ok::<F>(old(self).d@, old(self).lz@, k as int, (r - l) as nat),
        ensures
            final(self).shape(),
            final(self).n == old(self).n,
            final(self).size == old(self).size,
            forall|j: int|
                0 <= j < final(self).d@.len() && !in_subtree(k as int, j) ==> final(self).d@[j]
                    == old(self).d@[j],
            forall|j: int|
                0 <= j < final(self).lz@.len() && !in_subtree(k as int, j) ==> final(self).lz@[j]
                    == old(self).lz@[j],
            node_ok::<F>(final(self).d@, final(self).lz@, k as int, (r - l) as nat),
            seg_view::<F>(final(self).d@, final(self).lz@, k as int, (r - l) as nat) == seg_view::<
                F,
            >(old(self).d@, old(self).lz@, k as int, (r - l) as nat),
            b <= l || r <= a ==> res == <F::M as Monoid>::e(),
            a < r && l < b ==> res == fold_of::<F::M>(
                seg_view::<F>(old(self).d@, old(self).lz@, k as int, (r - l) as nat).subrange(
                    if a <= l {
                        0int
                    } else {
                        a - l
                    },
                    if b >= r {
                        r - l
                    } else {
                        b - l
                    },
                ),
            ),
        decreases r - l,
    {
        let ghost sz = self.size as nat;
        let ghost ki = k as int;
        let ghost w = (r - l) as nat;
        let ghost s0 = seg_view::<F>(self.d@, self.lz@, ki, w);
        proof {
            assert(in_subtree(ki, ki));
            lemma_seg_view_len::<F>(self.d@, self.lz@, ki, w);
        }
        if b <= l || r <= a {
            return F::identity_element();
        }
        if a <= l && r <= b {
            proof {
                if r - l < 2 {
                    lemma_leaf_in_place(ki, sz);
                } else {
                    lemma_children_in_place(ki, w, sz);
                }
                lemma_stored_is_fold::<F>(self.d@, self.lz@, ki, w, sz);
                assert(s0.subrange(0, r - l) =~= s0);
            }
            return <F::M as Monoid>::clone_s(&self.d[k]);
        }
        proof {
            if r - l < 2 {
                assert(false);
            }
            lemma_children_in_place(ki, w, sz);
        }
        self.push(k, Ghost(w));
        let ghost dp = self.d@;
        let ghost lzp = self.lz@;
        let ghost h = (w / 2) as nat;
        let ghost lseg = seg_view::<F>(dp, lzp, 2 * ki, h);
        let ghost rseg = seg_view::<F>(dp, lzp, 2 * ki + 1, h);
        let m = l + (r - l) / 2;
        proof {
            lemma_seg_view_len::<F>(dp, lzp, 2 * ki, h);
            lemma_seg_view_len::<F>(dp, lzp, 2 * ki + 1, h);
            assert(lseg + rseg == s0);
            assert(2 * ki * (h as int) == ki * (w as int));
            assert((2 * ki + 1) * (h as int) == ki * (w as int) + h);
        }
        let res_l = self.prod_rec(2 * k, a, b, l, m);
        proof {
            assert forall|j: int| #[trigger] in_subtree(2 * ki + 1, j) implies !in_subtree(
                2 * ki,
                j,
            ) by {
                lemma_siblings_disjoint(ki, j);
            }
            assert(!in_subtree(2 * ki, ki)) by {
                lemma_subtree_lower(2 * ki, ki);
            }
            lemma_node_ok_frame::<F>(dp, lzp, self.d@, self.lz@, 2 * ki + 1, h, sz);
            assert(self.lz@[ki] == F::id());
        }
        let ghost dq = self.d@;
        let ghost lzq = self.lz@;
        let res_r = self.prod_rec(2 * k + 1, a, b, m, r);
        proof {
            assert forall|j: int| #[trigger] in_subtree(2 * ki, j) implies !in_subtree(
                2 * ki + 1,
                j,
            ) by {
                lemma_siblings_disjoint(ki, j);
            }
            assert(!in_subtree(2 * ki + 1, ki)) by {
                lemma_subtree_lower(2 * ki + 1, ki);
            }
            lemma_node_ok_frame::<F>(dq, lzq, self.d@, self.lz@, 2 * ki, h, sz);
            assert(self.lz@[ki] == F::id());
        }
        let res = F::binary_operation(&res_l, &res_r);
        proof {
            let d1 = self.d@;
            let lz1 = self.lz@;
            let l1 = seg_view::<F>(d1, lz1, 2 * ki, h);
            let r1 = seg_view::<F>(d1, lz1, 2 * ki + 1, h);
            assert(l1 == lseg && r1 == rseg);
            lemma_seg_view_len::<F>(d1, lz1, 2 * ki, h);
            lemma_seg_view_len::<F>(d1, lz1, 2 * ki + 1, h);
            assert forall|i: int| 0 <= i < (l1 + r1).len() implies F::map_spec(
                F::id(),
                (l1 + r1)[i],
            ) == (l1 + r1)[i] by {
                F::map_id((l1 + r1)[i]);
            }
            assert(seg_view::<F>(d1, lz1, ki, w) =~= l1 + r1);
            assert(seg_view::<F>(d1, lz1, ki, w) =~= s0);
            // The answer: fold the clipped segment, splitting it at the
            // midpoint where both halves contribute.
            let lo: int = if a <= l {
                0int
            } else {
                a - l
            };
            let hi: int = if b >= r {
                (r - l) as int
            } else {
                b - l
            };
            if b <= m {
                M_identity_right::<F>(res_l);
                assert(s0.subrange(lo, hi) =~= lseg.subrange(
                    lo,
                    if b >= m {
                        (m - l) as int
                    } else {
                        b - l
                    },
                ));
            } else if m <= a {
                M_identity_left::<F>(res_r);
                assert(s0.subrange(lo, hi) =~= rseg.subrange(
                    if a <= m {
                        0int
                    } else {
                        a - m
                    },
                    if b >= r {
                        (r - m) as int
                    } else {
                        b - m
                    },
                ));
            } else {
                let left_part = lseg.subrange(lo, (m - l) as int);
                let right_part = rseg.subrange(
                    0,
                    if b >= r {
                        (r - m) as int
                    } else {
                        b - m
                    },
                );
                assert(s0.subrange(lo, hi) =~= left_part + right_part);
                lemma_fold_concat::<F::M>(left_part, right_part);
            }
            // All subtree changes happened below the two children.
            assert forall|j: int|
                0 <= j < d1.len() && !in_subtree(ki, j) implies d1[j] == old(self).d@[j] by {
                if in_subtree(2 * ki, j) || in_subtree(2 * ki + 1, j) {
                    lemma_subtree_step(ki, j);
                }
            }
            assert forall|j: int|
                0 <= j < lz1.len() && !in_subtree(ki, j) implies lz1[j] == old(self).lz@[j] by {
                if in_subtree(2 * ki, j) || in_subtree(2 * ki + 1, j) {
                    lemma_subtree_step(ki, j);
                }
            }
            lemma_stored_is_fold::<F>(old(self).d@, old(self).lz@, ki, w, sz);
        }
        res
    }

    /// The fold of the leaves in `[a, b)`, left to right; the identity for
    /// an empty range.  Reading pushes pending maps but never changes what
    /// the tree holds.
    pub fn prod(&mut self, a: usize, b: usize) -> (res: <F::M as Monoid>::S)
        requires
            old(self).wf(),
            a <= b,
            b <= old(self).spec_len(),
        ensures
            final(self).wf(),
            final(self)@ == old(self)@,
            final(self).spec_len() == old(self).spec_len(),
            final(self)@.len() == final(self).spec_len(),
            res == fold_of::<F::M>(old(self)@.subrange(a as int, b as int)),
    {
        proof {
            self.lemma_root_in_place();
        }
        if a == b {
            proof {
                assert(self@.subrange(a as int, b as int) =~= Seq::<
                    <F::M as Monoid>::S,
                >::empty());
            }
            return F::identity_element();
        }
        let size = self.size;
        let res = self.prod_rec(1, a, b, 0, size);
        proof {
            self.lemma_root_in_place();
            let w = self.size as nat;
            let s0 = seg_view::<F>(old(self).d@, old(self).lz@, 1, w);
            assert(self@ =~= old(self)@);
            let hi: int = if b >= self.size {
                self.size as int
            } else {
                b as int
            };
            assert(hi == b);
            assert(s0.subrange(a as int, b as int) =~= old(self)@.subrange(a as int, b as int));
        }
        res
    }

    /// The current value of leaf `p`, after every pending map on its path.
    pub fn get(&mut self, p: usize) -> (res: <F::M as Monoid>::S)
        requires
            old(self).wf(),
            p < old(self).spec_len(),
        ensures
            final(self).wf(),
            final(self)@ == old(self)@,
            final(self).spec_len() == old(self).spec_len(),
            final(self)@.len() == final(self).spec_len(),
            res == old(self)@[p as int],
    {
        let res = self.prod(p, p + 1);
        proof {
            assert(old(self)@.subrange(p as int, p + 1) =~= seq![old(self)@[p as int]]);
            lemma_fold_singleton::<F::M>(old(self)@[p as int]);
        }
        res
    }

    /// The fold of all `n` leaves, straight from the root.
    pub fn all_prod(&self) -> (res: <F::M as Monoid>::S)
        requires
            self.wf(),
        ensures
            res == fold_of::<F::M>(self@),
            self@.len() == self.spec_len(),
    {
        proof {
            self.lemma_root_in_place();
            lemma_stored_is_fold::<F>(self.d@, self.lz@, 1, self.size as nat, self.size as nat);
            let pad = self.leaves().subrange(self.n as int, self.size as int);
            assert(self.leaves() =~= self@ + pad);
            lemma_fold_concat::<F::M>(self@, pad);
            lemma_fold_all_e::<F::M>(pad);
            <F::M as Monoid>::op_identity(fold_of::<F::M>(self@));
        }
        <F::M as Monoid>::clone_s(&self.d[1])
    }
}

impl<F: MapMonoid> LazySegMentTree<F> {
    /// Overwrite the leaf at `p` (absolute interval `[l, r)` under node
    /// `k`), pushing pending maps down the path and re-aggregating on the
    /// way back up.
    fn set_rec(&mut self, k: usize, p: usize, x: <F::M as Monoid>::S, l: usize, r: usize)
        requires
            old(self).shape(),
            l < r <= old(self).size,
            l <= p < r,
            node_in_place(k as int, (r - l) as nat, old(self).size as nat),
            k as int * (r - l) == old(self).size + l,
            node_ok::<F>(old(self).d@, old(self).lz@, k as int, (r - l) as nat),
        ensures
            final(self).shape(),
            final(self).n == old(self).n,
            final(self).size == old(self).size,
            forall|j: int|
                0 <= j < final(self).d@.len() && !in_subtree(k as int, j) ==> final(self).d@[j]
                    == old(self).d@[j],
            forall|j: int|
                0 <= j < final(self).lz@.len() && !in_subtree(k as int, j) ==> final(self).lz@[j]
                    == old(self).lz@[j],
            node_ok::<F>(final(self).d@, final(self).lz@, k as int, (r - l) as nat),
            seg_view::<F>(final(self).d@, final(self).lz@, k as int, (r - l) as nat) == seg_view::<
                F,
            >(old(self).d@, old(self).lz@, k as int, (r - l) as nat).update(p - l, x),
        decreases r - l,
    {
        let ghost sz = self.size as nat;
        let ghost ki = k as int;
        let ghost w = (r - l) as nat;
        let ghost s0 = seg_view::<F>(self.d@, self.lz@, ki, w);
        proof {
            assert(in_subtree(ki, ki));
            lemma_seg_view_len::<F>(self.d@, self.lz@, ki, w);
        }
        if r - l == 1 {
            proof {
                lemma_leaf_in_place(ki, sz);
            }
            self.d[k] = x;
            proof {
                assert(seg_view::<F>(self.d@, self.lz@, ki, w) =~= s0.update(p - l, x));
            }
            return ;
        }
        proof {
            lemma_children_in_place(ki, w, sz);
        }
        self.push(k, Ghost(w));
        let ghost dp = self.d@;
        let ghost lzp = self.lz@;
        let ghost h = (w / 2) as nat;
        let ghost lseg = seg_view::<F>(dp, lzp, 2 * ki, h);
        let ghost rseg = seg_view::<F>(dp, lzp, 2 * ki + 1, h);
        let m = l + (r - l) / 2;
        proof {
            lemma_seg_view_len::<F>(dp, lzp, 2 * ki, h);
            lemma_seg_view_len::<F>(dp, lzp, 2 * ki + 1, h);
            assert(lseg + rseg == s0);
            assert(2 * ki * (h as int) == ki * (w as int));
            assert((2 * ki + 1) * (h as int) == ki * (w as int) + h);
        }
        if p < m {
            self.set_rec(2 * k, p, x, l, m);
            proof {
                assert forall|j: int| #[trigger] in_subtree(2 * ki + 1, j) implies !in_subtree(
                    2 * ki,
                    j,
                ) by {
                    lemma_siblings_disjoint(ki, j);
                }
                assert(!in_subtree(2 * ki, ki)) by {
                    lemma_subtree_lower(2 * ki, ki);
                }
                lemma_node_ok_frame::<F>(dp, lzp, self.d@, self.lz@, 2 * ki + 1, h, sz);
                assert(self.lz@[ki] == F::id());
            }
        } else {
            self.set_rec(2 * k + 1, p, x, m, r);
            proof {
                assert forall|j: int| #[trigger] in_subtree(2 * ki, j) implies !in_subtree(
                    2 * ki + 1,
                    j,
                ) by {
                    lemma_siblings_disjoint(ki, j);
                }
                assert(!in_subtree(2 * ki + 1, ki)) by {
                    lemma_subtree_lower(2 * ki + 1, ki);
                }
                lemma_node_ok_frame::<F>(dp, lzp, self.d@, self.lz@, 2 * ki, h, sz);
                assert(self.lz@[ki] == F::id());
            }
        }
        let ghost dr = self.d@;
        let ghost lzr = self.lz@;
        self.update(k, Ghost(w));
        proof {
            let d1 = self.d@;
            let lz1 = self.lz@;
            assert forall|j: int| #[trigger] in_subtree(2 * ki, j) implies j != ki by {
                lemma_subtree_lower(2 * ki, j);
            }
            assert forall|j: int| #[trigger] in_subtree(2 * ki + 1, j) implies j != ki by {
                lemma_subtree_lower(2 * ki + 1, j);
            }
            lemma_node_ok_frame::<F>(dr, lzr, d1, lz1, 2 * ki, h, sz);
            lemma_node_ok_frame::<F>(dr, lzr, d1, lz1, 2 * ki + 1, h, sz);
            let l1 = seg_view::<F>(d1, lz1, 2 * ki, h);
            let r1 = seg_view::<F>(d1, lz1, 2 * ki + 1, h);
            lemma_seg_view_len::<F>(d1, lz1, 2 * ki, h);
            lemma_seg_view_len::<F>(d1, lz1, 2 * ki + 1, h);
            assert forall|i: int| 0 <= i < (l1 + r1).len() implies F::map_spec(
                F::id(),
                (l1 + r1)[i],
            ) == (l1 + r1)[i] by {
                F::map_id((l1 + r1)[i]);
            }
            assert(seg_view::<F>(d1, lz1, ki, w) =~= l1 + r1);
            assert(l1 + r1 =~= s0.update(p - l, x));
            assert forall|j: int|
                0 <= j < d1.len() && !in_subtree(ki, j) implies d1[j] == old(self).d@[j] by {
                if in_subtree(2 * ki, j) || in_subtree(2 * ki + 1, j) {
                    lemma_subtree_step(ki, j);
                }
            }
            assert forall|j: int|
                0 <= j < lz1.len() && !in_subtree(ki, j) implies lz1[j] == old(self).lz@[j] by {
                if in_subtree(2 * ki, j) || in_subtree(2 * ki + 1, j) {
                    lemma_subtree_step(ki, j);
                }
            }
        }
    }

    /// Overwrite the leaf at `p` with `x` and re-aggregate its path.
    pub fn set(&mut self, p: usize, x: <F::M as Monoid>::S)
        requires
            old(self).wf(),
            p < old(self).spec_len(),
        ensures
            final(self).wf(),
            final(self)@ == old(self)@.update(p as int, x),
            final(self).spec_len() == old(self).spec_len(),
            final(self)@.len() == final(self).spec_len(),
    {
        proof {
            self.lemma_root_in_place();
        }
        let size = self.size;
        self.set_rec(1, p, x, 0, size);
        proof {
            self.lemma_root_in_place();
            let w = self.size as nat;
            let s0 = seg_view::<F>(old(self).d@, old(self).lz@, 1, w);
            let s1 = seg_view::<F>(self.d@, self.lz@, 1, w);
            assert(self@ =~= old(self)@.update(p as int, x));
            assert forall|i: int| self.n <= i < self.size implies s1[i]
                == <F::M as Monoid>::e() by {
                assert(s1[i] == s0[i]);
            }
        }
    }

    /// Build the aggregates of the subtree under `k` bottom-up, assuming
    /// no pending maps anywhere.
    #[verifier::rlimit(50)]
    #[verifier::spinoff_prover]
    fn build_rec(&mut self, k: usize, Ghost(w): Ghost<nat>)
        requires
            old(self).shape(),
            node_in_place(k as int, w, old(self).size as nat),
            forall|j: int| 1 <= j < old(self).size ==> old(self).lz@[j] == F::id(),
        ensures
            final(self).shape(),
            final(self).n == old(self).n,
            final(self).size == old(self).size,
            final(self).lz@ == old(self).lz@,
            forall|j: int|
                0 <= j < final(self).d@.len() && (!in_subtree(k as int, j) || old(self).size <= j)
                    ==> #[trigger] final(self).d@[j] == old(self).d@[j],
            node_ok::<F>(final(self).d@, final(self).lz@, k as int, w),
        decreases w,
    {
        let ghost sz = self.size as nat;
        let ghost ki = k as int;
        proof {
            assert(in_subtree(ki, ki));
        }
        if k < self.size {
            proof {
                if w <= 1 {
                    lemma_leaf_in_place(ki, sz);
                    assert(false);
                }
                lemma_children_in_place(ki, w, sz);
            }
            let ghost h = (w / 2) as nat;
            self.build_rec(2 * k, Ghost((w / 2) as nat));
            let ghost da = self.d@;
            self.build_rec(2 * k + 1, Ghost((w / 2) as nat));
            proof {
                assert forall|j: int| #[trigger] in_subtree(2 * ki, j) implies !in_subtree(
                    2 * ki + 1,
                    j,
                ) by {
                    lemma_siblings_disjoint(ki, j);
                }
                lemma_node_ok_frame::<F>(da, self.lz@, self.d@, self.lz@, 2 * ki, h, sz);
            }
            self.update(k, Ghost(w));
            proof {
                assert forall|j: int|
                    0 <= j < self.d@.len() && (!in_subtree(ki, j) || sz <= j) implies self.d@[j]
                    == old(self).d@[j] by {
                    if in_subtree(2 * ki, j) || in_subtree(2 * ki + 1, j) {
                        lemma_subtree_step(ki, j);
                        lemma_subtree_lower(2 * ki, j);
                        lemma_subtree_lower(2 * ki + 1, j);
                    }
                }
            }
        } else {
            proof {
                if w > 1 {
                    lemma_children_in_place(ki, w, sz);
                    assert(false);
                }
            }
        }
    }

    /// A tree seeded from `values`: leaf `i` holds `values[i]`.
    pub fn from_vec(values: Vec<<F::M as Monoid>::S>) -> (t: Self)
        requires
            values.len() <= usize::MAX / 4,
        ensures
            t.wf(),
            t@ == values@,
            t.spec_len() == values.len(),
            t@.len() == t.spec_len(),
    {
        let n = values.len();
        let mut size: usize = 1;
        while size < n
            invariant
                1 <= size,
                is_pow2(size as nat),
                n <= usize::MAX / 4,
                n == values.len(),
                size < 2 * n || size == 1,
            decreases 2 * n - size,
        {
            size = size * 2;
        }
        let mut d: Vec<<F::M as Monoid>::S> = Vec::new();
        while d.len() < size
            invariant
                d.len() <= size,
            decreases size - d.len(),
        {
            d.push(F::identity_element());
        }
        let mut i: usize = 0;
        while i < n
            invariant
                i <= n,
                n == values.len(),
                d.len() == size + i,
                forall|j: int| size <= j < d.len() ==> d@[j] == values@[j - size],
            decreases n - i,
        {
            let v = <F::M as Monoid>::clone_s(&values[i]);
            d.push(v);
            i = i + 1;
        }
        while d.len() < 2 * size
            invariant
                n <= size,
                n <= usize::MAX / 4,
                size < 2 * n || size == 1,
                n == values.len(),
                d.len() >= size + n,
                d.len() <= 2 * size,
                forall|j: int| size <= j < size + n ==> d@[j] == values@[j - size],
                forall|j: int| size + n <= j < d.len() ==> d@[j] == <F::M as Monoid>::e(),
            decreases 2 * size - d.len(),
        {
            d.push(F::identity_element());
        }
        let mut lz: Vec<F::F> = Vec::new();
        while lz.len() < size
            invariant
                lz.len() <= size,
                forall|j: int| 0 <= j < lz.len() ==> lz@[j] == F::id(),
            decreases size - lz.len(),
        {
            lz.push(F::identity_map());
        }
        let mut t = LazySegMentTree { n, size, d, lz };
        proof {
            assert(t.shape());
            assert(1int * (size as int) == size as int) by (nonlinear_arith);
            assert(2int * (size as int) == 2 * size as int) by (nonlinear_arith);
            assert(node_in_place(1, size as nat, size as nat));
        }
        let ghost d_before = t.d@;
        t.build_rec(1, Ghost(size as nat));
        proof {
            lemma_seg_view_raw::<F>(t.d@, t.lz@, 1, t.size as nat, t.size as nat);
            let raw = t.d@.subrange(t.size as int, 2 * t.size as int);
            assert(t.leaves() == raw);
            t.lemma_root_in_place();
            assert forall|i2: int| 0 <= i2 < t.n implies t@[i2] == values@[i2] by {
                assert(raw[i2] == t.d@[t.size + i2]);
                assert(t.d@[t.size + i2] == d_before[t.size + i2]);
                assert(d_before[t.size + i2] == values@[i2]);
            }
            assert(t@ =~= values@);
            assert forall|i2: int| t.n <= i2 < t.size implies t.leaves()[i2]
                == <F::M as Monoid>::e() by {
                assert(raw[i2] == t.d@[t.size + i2]);
                assert(t.d@[t.size + i2] == d_before[t.size + i2]);
                assert(d_before[t.size + i2] == <F::M as Monoid>::e());
            }
        }
        t
    }

    /// A tree of `n` leaves, all holding the identity element.
    pub fn new(n: usize) -> (t: Self)
        requires
            n <= usize::MAX / 4,
        ensures
            t.wf(),
            t.spec_len() == n,
            t@ == Seq::new(n as nat, |i: int| <F::M as Monoid>::e()),
            t@.len() == t.spec_len(),
    {
        let mut values: Vec<<F::M as Monoid>::S> = Vec::new();
        while values.len() < n
            invariant
                values.len() <= n,
                forall|j: int| 0 <= j < values.len() ==> values@[j] == <F::M as Monoid>::e(),
            decreases n - values.len(),
        {
            values.push(F::identity_element());
        }
        let t = Self::from_vec(values);
        proof {
            assert(t@ =~= Seq::new(n as nat, |i: int| <F::M as Monoid>::e()));
        }
        t
    }
}

/// max(x1, x2, x3, ..., xn)
pub struct Max<S>(S);

/// min(x1, x2, x3, ..., xn)
pub struct Min<S>(S);

/// x1 + x2 + x3 + ... + xn, wrapping around on overflow
pub struct Additive<S>(S);

/// x1 * x2 * x3 * ... * xn, wrapping around on overflow
pub struct Multiplicative<S>(S);

impl Monoid for Max<i64> {
    type S = i64;

    open spec fn e() -> i64 {
        i64::MIN
    }

    open spec fn op(a: i64, b: i64) -> i64 {
        if a >= b {
            a
        } else {
            b
        }
    }

    proof fn op_assoc(a: i64, b: i64, c: i64) {
    }

    proof fn op_identity(a: i64) {
    }

    fn identity() -> i64 {
        i64::MIN
    }

    fn binary_operation(a: &i64, b: &i64) -> i64 {
        if *a >= *b {
            *a
        } else {
            *b
        }
    }

    fn clone_s(a: &i64) -> i64 {
        *a
    }
}

impl Monoid for Max<u64> {
    type S = u64;

    open spec fn e() -> u64 {
        0
    }

    open spec fn op(a: u64, b: u64) -> u64 {
        if a >= b {
            a
        } else {
            b
        }
    }

    proof fn op_assoc(a: u64, b: u64, c: u64) {
    }

    proof fn op_identity(a: u64) {
    }

    fn identity() -> u64 {
        0
    }

    fn binary_operation(a: &u64, b: &u64) -> u64 {
        if *a >= *b {
            *a
        } else {
            *b
        }
    }

    fn clone_s(a: &u64) -> u64 {
        *a
    }
}

impl Monoid for Max<i32> {
    type S = i32;

    open spec fn e() -> i32 {
        i32::MIN
    }

    open spec fn op(a: i32, b: i32) -> i32 {
        if a >= b {
            a
        } else {
            b
        }
    }

    proof fn op_assoc(a: i32, b: i32, c: i32) {
    }

    proof fn op_identity(a: i32) {
    }

    fn identity() -> i32 {
        i32::MIN
    }

    fn binary_operation(a: &i32, b: &i32) -> i32 {
        if *a >= *b {
            *a
        } else {
            *b
        }
    }

    fn clone_s(a: &i32) -> i32 {
        *a
    }
}

impl Monoid for Min<i64> {
    type S = i64;

    open spec fn e() -> i64 {
        i64::MAX
    }

    open spec fn op(a: i64, b: i64) -> i64 {
        if a <= b {
            a
        } else {
            b
        }
    }

    proof fn op_assoc(a: i64, b: i64, c: i64) {
    }

    proof fn op_identity(a: i64) {
    }

    fn identity() -> i64 {
        i64::MAX
    }

    fn binary_operation(a: &i64, b: &i64) -> i64 {
        if *a <= *b {
            *a
        } else {
            *b
        }
    }

    fn clone_s(a: &i64) -> i64 {
        *a
    }
}

impl Monoid for Min<u64> {
    type S = u64;

    open spec fn e() -> u64 {
        u64::MAX
    }

    open spec fn op(a: u64, b: u64) -> u64 {
        if a <= b {
            a
        } else {
            b
        }
    }

    proof fn op_assoc(a: u64, b: u64, c: u64) {
    }

    proof fn op_identity(a: u64) {
    }

    fn identity() -> u64 {
        u64::MAX
    }

    fn binary_operation(a: &u64, b: &u64) -> u64 {
        if *a <= *b {
            *a
        } else {
            *b
        }
    }

    fn clone_s(a: &u64) -> u64 {
        *a
    }
}

impl Monoid for Additive<u64> {
    type S = u64;

    open spec fn e() -> u64 {
        0
    }

    open spec fn op(a: u64, b: u64) -> u64 {
        ((a + b) % 0x1_0000_0000_0000_0000) as u64
    }

    #[verifier::spinoff_prover]
    proof fn op_assoc(a: u64, b: u64, c: u64) {
        let r = 0x1_0000_0000_0000_0000int;
        vstd::arithmetic::div_mod::lemma_add_mod_noop(a + b, c as int, r);
        vstd::arithmetic::div_mod::lemma_add_mod_noop(a as int, b + c, r);
        vstd::arithmetic::div_mod::lemma_mod_twice(a + b + c, r);
        vstd::arithmetic::div_mod::lemma_small_mod(a as nat, r as nat);
        vstd::arithmetic::div_mod::lemma_small_mod(c as nat, r as nat);
    }

    proof fn op_identity(a: u64) {
        vstd::arithmetic::div_mod::lemma_small_mod(a as nat, 0x1_0000_0000_0000_0000nat);
    }

    fn identity() -> u64 {
        0
    }

    fn binary_operation(a: &u64, b: &u64) -> u64 {
        proof {
            let s = *a + *b;
            if s > u64::MAX {
                vstd::arithmetic::div_mod::lemma_mod_sub_multiples_vanish(
                    s,
                    0x1_0000_0000_0000_0000int,
                );
                vstd::arithmetic::div_mod::lemma_small_mod(
                    (s - 0x1_0000_0000_0000_0000) as nat,
                    0x1_0000_0000_0000_0000nat,
                );
            } else {
                vstd::arithmetic::div_mod::lemma_small_mod(s as nat, 0x1_0000_0000_0000_0000nat);
            }
        }
        a.wrapping_add(*b)
    }

    fn clone_s(a: &u64) -> u64 {
        *a
    }
}

impl Monoid for Multiplicative<u64> {
    type S = u64;

    open spec fn e() -> u64 {
        1
    }

    open spec fn op(a: u64, b: u64) -> u64 {
        ((a * b) % 0x1_0000_0000_0000_0000) as u64
    }

    #[verifier::spinoff_prover]
    proof fn op_assoc(a: u64, b: u64, c: u64) {
        let r = 0x1_0000_0000_0000_0000int;
        vstd::arithmetic::div_mod::lemma_mul_mod_noop_left(a * b, c as int, r);
        vstd::arithmetic::div_mod::lemma_mul_mod_noop_right(a as int, b * c, r);
        vstd::arithmetic::mul::lemma_mul_is_associative(a as int, b as int, c as int);
    }

    proof fn op_identity(a: u64) {
        vstd::arithmetic::div_mod::lemma_small_mod(a as nat, 0x1_0000_0000_0000_0000nat);
        vstd::arithmetic::mul::lemma_mul_basics_3(a as int);
        vstd::arithmetic::mul::lemma_mul_basics_1(a as int);
    }

    fn identity() -> u64 {
        1
    }

    fn binary_operation(a: &u64, b: &u64) -> u64 {
        a.wrapping_mul(*b)
    }

    fn clone_s(a: &u64) -> u64 {
        *a
    }
}

/// Maximum aggregates under "add `k`" updates, saturating at `u64::MAX`:
/// the workhorse instance for range-add / range-max trees.
pub struct MaxAdd;

impl MapMonoid for MaxAdd {
    type M = Max<u64>;

    type F = u64;

    open spec fn id() -> u64 {
        0
    }

    open spec fn map_spec(f: u64, x: u64) -> u64 {
        if x + f > u64::MAX {
            u64::MAX
        } else {
            (x + f) as u64
        }
    }

    open spec fn comp(f: u64, g: u64) -> u64 {
        if f + g > u64::MAX {
            u64::MAX
        } else {
            (f + g) as u64
        }
    }

    proof fn map_id(x: u64) {
    }

    #[verifier::spinoff_prover]
    proof fn map_comp(f: u64, g: u64, x: u64) {
    }

    #[verifier::spinoff_prover]
    proof fn map_op(f: u64, a: u64, b: u64) {
    }

    fn identity_element() -> u64 {
        0
    }

    fn binary_operation(a: &u64, b: &u64) -> u64 {
        if *a >= *b {
            *a
        } else {
            *b
        }
    }

    fn identity_map() -> u64 {
        0
    }

    fn mapping(f: &u64, x: &u64) -> u64 {
        x.saturating_add(*f)
    }

    fn composition(f: &u64, g: &u64) -> u64 {
        f.saturating_add(*g)
    }

    fn clone_f(f: &u64) -> u64 {
        *f
    }
}

/// A tree with no range updates at all: the no-op map over any monoid.
/// Useful to run a plain range-query tree over an arbitrary aggregate.
pub struct NoUpdate<M>(M);

impl<M: Monoid> MapMonoid for NoUpdate<M> {
    type M = M;

    type F = ();

    open spec fn id() -> () {
        ()
    }

    open spec fn map_spec(f: (), x: M::S) -> M::S {
        x
    }

    open spec fn comp(f: (), g: ()) -> () {
        ()
    }

    proof fn map_id(x: M::S) {
    }

    proof fn map_comp(f: (), g: (), x: M::S) {
    }

    proof fn map_op(f: (), a: M::S, b: M::S) {
    }

    fn identity_element() -> M::S {
        M::identity()
    }

    fn binary_operation(a: &M::S, b: &M::S) -> M::S {
        M::binary_operation(a, b)
    }

    fn identity_map() -> () {
        ()
    }

    fn mapping(f: &(), x: &M::S) -> M::S {
        M::clone_s(x)
    }

    fn composition(f: &(), g: &()) -> () {
        ()
    }

    fn clone_f(f: &()) -> () {
        ()
    }
}

/// Wrapping sums under "multiply by `k`" updates: multiplication
/// distributes over addition in the ring of integers modulo `2^64`, so a
/// stored range sum can be scaled in place.
pub struct AddMul;

impl MapMonoid for AddMul {
    type M = Additive<u64>;

    type F = u64;

    open spec fn id() -> u64 {
        1
    }

    open spec fn map_spec(f: u64, x: u64) -> u64 {
        ((f * x) % 0x1_0000_0000_0000_0000) as u64
    }

    open spec fn comp(f: u64, g: u64) -> u64 {
        ((f * g) % 0x1_0000_0000_0000_0000) as u64
    }

    proof fn map_id(x: u64) {
        vstd::arithmetic::mul::lemma_mul_basics_2(x as int);
        vstd::arithmetic::div_mod::lemma_small_mod(x as nat, 0x1_0000_0000_0000_0000nat);
    }

    proof fn map_comp(f: u64, g: u64, x: u64) {
        let r = 0x1_0000_0000_0000_0000int;
        vstd::arithmetic::div_mod::lemma_mul_mod_noop_left(f * g, x as int, r);
        vstd::arithmetic::div_mod::lemma_mul_mod_noop_right(f as int, g * x, r);
        vstd::arithmetic::mul::lemma_mul_is_associative(f as int, g as int, x as int);
    }

    proof fn map_op(f: u64, a: u64, b: u64) {
        let r = 0x1_0000_0000_0000_0000int;
        vstd::arithmetic::div_mod::lemma_mul_mod_noop_right(f as int, a + b, r);
        vstd::arithmetic::mul::lemma_mul_is_distributive_add(f as int, a as int, b as int);
        vstd::arithmetic::div_mod::lemma_add_mod_noop(f * a, f * b, r);
        vstd::arithmetic::div_mod::lemma_mod_twice(f * a + f * b, r);
    }

    fn identity_element() -> u64 {
        0
    }

    fn binary_operation(a: &u64, b: &u64) -> u64 {
        <Additive<u64> as Monoid>::binary_operation(a, b)
    }

    fn identity_map() -> u64 {
        1
    }

    fn mapping(f: &u64, x: &u64) -> u64 {
        f.wrapping_mul(*x)
    }

    fn composition(f: &u64, g: &u64) -> u64 {
        f.wrapping_mul(*g)
    }

    fn clone_f(f: &u64) -> u64 {
        *f
    }
}

/// Word concatenation, carried as a pair `(hash, weight)` modulo `2^64`:
/// a word of length `n` with polynomial hash `h` is `(h, B^n)`, and
/// concatenation is `(h1 * p2 + h2, p1 * p2)`.  The operation is
/// associative but *not* commutative: it keeps the left-to-right order of
/// the words it joins.
pub struct WordHash;

/// The modulus the pair arithmetic wraps at.
pub open spec fn word_hash_modulus() -> int {
    0x1_0000_0000_0000_0000
}

/// The concatenation of two hashed words.
pub open spec fn word_concat(x: (u64, u64), y: (u64, u64)) -> (u64, u64) {
    (((x.0 * y.1 + y.0) % word_hash_modulus()) as u64, ((x.1 * y.1) % word_hash_modulus()) as u64)
}

impl Monoid for WordHash {
    type S = (u64, u64);

    open spec fn e() -> (u64, u64) {
        (0, 1)
    }

    open spec fn op(a: (u64, u64), b: (u64, u64)) -> (u64, u64) {
        word_concat(a, b)
    }

    #[verifier::rlimit(100)]
    #[verifier::spinoff_prover]
    proof fn op_assoc(x: (u64, u64), y: (u64, u64), z: (u64, u64)) {
        let r = word_hash_modulus();
        let (hx, px) = x;
        let (hy, py) = y;
        let (hz, pz) = z;
        // Weights multiply associatively modulo `r`.
        vstd::arithmetic::div_mod::lemma_mul_mod_noop_left(px * py, pz as int, r);
        vstd::arithmetic::div_mod::lemma_mul_mod_noop_right(px as int, py * pz, r);
        vstd::arithmetic::mul::lemma_mul_is_associative(px as int, py as int, pz as int);
        // Both ways of hashing reduce to `hx * py * pz + hy * pz + hz`.
        let full = (hx * py) * pz + hz + hy * pz;
        assert(((hx * py + hy) % r * pz + hz) % r == full % r) by {
            vstd::arithmetic::div_mod::lemma_mul_mod_noop_left(hx * py + hy, pz as int, r);
            vstd::arithmetic::div_mod::lemma_add_mod_noop((hx * py + hy) * pz, hz as int, r);
            vstd::arithmetic::mul::lemma_mul_is_distributive_add_other_way(
                pz as int,
                hx * py,
                hy as int,
            );
            vstd::arithmetic::div_mod::lemma_add_mod_noop((hx * py) * pz + hy * pz, hz as int, r);
            vstd::arithmetic::div_mod::lemma_small_mod(hz as nat, r as nat);
        }
        assert((hx * ((py * pz) % r) + ((hy * pz + hz) % r)) % r == full % r) by {
            vstd::arithmetic::div_mod::lemma_mul_mod_noop_right(hx as int, py * pz, r);
            vstd::arithmetic::div_mod::lemma_add_mod_noop(hx * (py * pz), hy * pz + hz, r);
            vstd::arithmetic::mul::lemma_mul_is_associative(hx as int, py as int, pz as int);
            vstd::arithmetic::div_mod::lemma_mod_twice(hx * (py * pz) + (hy * pz + hz), r);
        }
    }

    proof fn op_identity(a: (u64, u64)) {
        let r = word_hash_modulus();
        vstd::arithmetic::mul::lemma_mul_basics_3(a.0 as int);
        vstd::arithmetic::mul::lemma_mul_basics_3(a.1 as int);
        vstd::arithmetic::mul::lemma_mul_basics_1(a.1 as int);
        vstd::arithmetic::div_mod::lemma_small_mod(a.0 as nat, r as nat);
        vstd::arithmetic::div_mod::lemma_small_mod(a.1 as nat, r as nat);
    }

    fn identity() -> (u64, u64) {
        (0, 1)
    }

    #[verifier::rlimit(100)]
    #[verifier::spinoff_prover]
    fn binary_operation(a: &(u64, u64), b: &(u64, u64)) -> (r: (u64, u64))
    {
        let h = (a.0.wrapping_mul(b.1)).wrapping_add(b.0);
        let p = a.1.wrapping_mul(b.1);
        proof {
            let m = word_hash_modulus();
            let prod = (a.0 * b.1) % m;
            if prod + b.0 > u64::MAX {
                vstd::arithmetic::div_mod::lemma_mod_sub_multiples_vanish(prod + b.0, m);
                vstd::arithmetic::div_mod::lemma_small_mod((prod + b.0 - m) as nat, m as nat);
            } else {
                vstd::arithmetic::div_mod::lemma_small_mod((prod + b.0) as nat, m as nat);
            }
            vstd::arithmetic::div_mod::lemma_add_mod_noop_right(a.0 * b.1, b.0 as int, m);
            vstd::arithmetic::div_mod::lemma_mod_twice(a.0 * b.1 + b.0, m);
        }
        (h, p)
    }

    fn clone_s(a: &(u64, u64)) -> (u64, u64) {
        (a.0, a.1)
    }
}

/// Pairs `(sum, count)` under componentwise wrapping addition: the shape
/// a range-assign tree needs, since assigning a value to a segment must
/// know how many leaves the segment holds.
pub struct PairAdd;

impl Monoid for PairAdd {
    type S = (u64, u64);

    open spec fn e() -> (u64, u64) {
        (0, 0)
    }

    open spec fn op(a: (u64, u64), b: (u64, u64)) -> (u64, u64) {
        (
            ((a.0 + b.0) % 0x1_0000_0000_0000_0000) as u64,
            ((a.1 + b.1) % 0x1_0000_0000_0000_0000) as u64,
        )
    }

    #[verifier::spinoff_prover]
    proof fn op_assoc(a: (u64, u64), b: (u64, u64), c: (u64, u64)) {
        let r = 0x1_0000_0000_0000_0000int;
        vstd::arithmetic::div_mod::lemma_add_mod_noop(a.0 + b.0, c.0 as int, r);
        vstd::arithmetic::div_mod::lemma_add_mod_noop(a.0 as int, b.0 + c.0, r);
        vstd::arithmetic::div_mod::lemma_mod_twice(a.0 + b.0 + c.0, r);
        vstd::arithmetic::div_mod::lemma_small_mod(a.0 as nat, r as nat);
        vstd::arithmetic::div_mod::lemma_small_mod(c.0 as nat, r as nat);
        vstd::arithmetic::div_mod::lemma_add_mod_noop(a.1 + b.1, c.1 as int, r);
        vstd::arithmetic::div_mod::lemma_add_mod_noop(a.1 as int, b.1 + c.1, r);
        vstd::arithmetic::div_mod::lemma_mod_twice(a.1 + b.1 + c.1, r);
        vstd::arithmetic::div_mod::lemma_small_mod(a.1 as nat, r as nat);
        vstd::arithmetic::div_mod::lemma_small_mod(c.1 as nat, r as nat);
    }

    proof fn op_identity(a: (u64, u64)) {
        let r = 0x1_0000_0000_0000_0000nat;
        vstd::arithmetic::div_mod::lemma_small_mod(a.0 as nat, r);
        vstd::arithmetic::div_mod::lemma_small_mod(a.1 as nat, r);
    }

    fn identity() -> (u64, u64) {
        (0, 0)
    }

    fn binary_operation(a: &(u64, u64), b: &(u64, u64)) -> (u64, u64) {
        (a.0.wrapping_add(b.0), a.1.wrapping_add(b.1))
    }

    fn clone_s(a: &(u64, u64)) -> (u64, u64) {
        (a.0, a.1)
    }
}

/// Range assignment over `(sum, count)` pairs: `Some(v)` turns a segment
/// of `count` leaves into sum `v * count`; `None` is the no-op, and the
/// newer assignment wins under composition.
pub struct AssignPair;

impl MapMonoid for AssignPair {
    type M = PairAdd;

    type F = Option<u64>;

    open spec fn id() -> Option<u64> {
        None
    }

    open spec fn map_spec(f: Option<u64>, x: (u64, u64)) -> (u64, u64) {
        match f {
            Option::None => x,
            Option::Some(v) => (((v * x.1) % 0x1_0000_0000_0000_0000) as u64, x.1),
        }
    }

    open spec fn comp(f: Option<u64>, g: Option<u64>) -> Option<u64> {
        match f {
            Option::None => g,
            Option::Some(v) => Option::Some(v),
        }
    }

    proof fn map_id(x: (u64, u64)) {
    }

    proof fn map_comp(f: Option<u64>, g: Option<u64>, x: (u64, u64)) {
    }

    #[verifier::spinoff_prover]
    proof fn map_op(f: Option<u64>, a: (u64, u64), b: (u64, u64)) {
        if f is Some {
            let v = f->0;
            let r = 0x1_0000_0000_0000_0000int;
            vstd::arithmetic::div_mod::lemma_mul_mod_noop_right(v as int, a.1 + b.1, r);
            vstd::arithmetic::mul::lemma_mul_is_distributive_add(v as int, a.1 as int, b.1 as int);
            vstd::arithmetic::div_mod::lemma_add_mod_noop(v * a.1, v * b.1, r);
            vstd::arithmetic::div_mod::lemma_mod_twice(v * a.1 + v * b.1, r);
        }
    }

    fn identity_element() -> (u64, u64) {
        (0, 0)
    }

    fn binary_operation(a: &(u64, u64), b: &(u64, u64)) -> (u64, u64) {
        <PairAdd as Monoid>::binary_operation(a, b)
    }

    fn identity_map() -> Option<u64> {
        None
    }

    fn mapping(f: &Option<u64>, x: &(u64, u64)) -> ((u64, u64)) {
        match f {
            Option::None => (x.0, x.1),
            Option::Some(v) => (v.wrapping_mul(x.1), x.1),
        }
    }

    fn composition(f: &Option<u64>, g: &Option<u64>) -> (Option<u64>) {
        match f {
            Option::None => match g {
                Option::None => None,
                Option::Some(w) => Some(*w),
            },
            Option::Some(v) => Some(*v),
        }
    }

    fn clone_f(f: &Option<u64>) -> (Option<u64>) {
        match f {
            Option::None => None,
            Option::Some(v) => Some(*v),
        }
    }
}

/// Range assignment over maxima: `Some(v)` turns every leaf of a segment
/// into `v`, which also turns the segment's maximum into `v`.
pub struct AssignMax;

impl MapMonoid for AssignMax {
    type M = Max<i64>;

    type F = Option<i64>;

    open spec fn id() -> Option<i64> {
        None
    }

    open spec fn map_spec(f: Option<i64>, x: i64) -> i64 {
        match f {
            Option::None => x,
            Option::Some(v) => v,
        }
    }

    open spec fn comp(f: Option<i64>, g: Option<i64>) -> Option<i64> {
        match f {
            Option::None => g,
            Option::Some(v) => Option::Some(v),
        }
    }

    proof fn map_id(x: i64) {
    }

    proof fn map_comp(f: Option<i64>, g: Option<i64>, x: i64) {
    }

    proof fn map_op(f: Option<i64>, a: i64, b: i64) {
    }

    fn identity_element() -> i64 {
        i64::MIN
    }

    fn binary_operation(a: &i64, b: &i64) -> i64 {
        if *a >= *b {
            *a
        } else {
            *b
        }
    }

    fn identity_map() -> Option<i64> {
        None
    }

    fn mapping(f: &Option<i64>, x: &i64) -> i64 {
        match f {
            Option::None => *x,
            Option::Some(v) => *v,
        }
    }

    fn composition(f: &Option<i64>, g: &Option<i64>) -> (Option<i64>) {
        match f {
            Option::None => match g {
                Option::None => None,
                Option::Some(w) => Some(*w),
            },
            Option::Some(v) => Some(*v),
        }
    }

    fn clone_f(f: &Option<i64>) -> (Option<i64>) {
        match f {
            Option::None => None,
            Option::Some(v) => Some(*v),
        }
    }
}

/// Point write then point read: the leaf reads back exactly what was
/// written, and no other leaf moves.
pub proof fn lemma_set_then_get<M: Monoid>(s: Seq<M::S>, p: int, x: M::S, q: int)
    requires
        0 <= p < s.len(),
        0 <= q < s.len(),
    ensures
        s.update(p, x)[p] == x,
        q != p ==> s.update(p, x)[q] == s[q],
{
}

/// Reads are idempotent: a range query leaves the logical content exactly
/// as it found it (`prod`'s contract), so asking again starts from the
/// same content and must report the same fold.
pub proof fn lemma_read_idempotent<M: Monoid>(before: Seq<M::S>, after_first: Seq<M::S>, a: int, b: int)
    requires
        after_first == before,
    ensures
        fold_of::<M>(after_first.subrange(a, b)) == fold_of::<M>(before.subrange(a, b)),
{
}

/// `op(x, e) == x`, spelled as a helper so exec proofs can call it tersely.
proof fn M_identity_right<F: MapMonoid>(x: <F::M as Monoid>::S)
    ensures
        <F::M as Monoid>::op(x, <F::M as Monoid>::e()) == x,
{
    <F::M as Monoid>::op_identity(x);
}

/// `op(e, x) == x`, spelled as a helper so exec proofs can call it tersely.
proof fn M_identity_left<F: MapMonoid>(x: <F::M as Monoid>::S)
    ensures
        <F::M as Monoid>::op(<F::M as Monoid>::e(), x) == x,
{
    <F::M as Monoid>::op_identity(x);
}

} // verus!
