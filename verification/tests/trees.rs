//! Segment-tree behaviour, cross-checked against naive arrays.

use cplib::lazy_assign_segment_tree::LazyAssignSegmentTree;
use cplib::lazy_segment_tree::{AddMul, AssignMax, AssignPair, LazySegMentTree, MaxAdd, WordHash};
use cplib::lazy_segment_tree::{MapMonoid, Monoid, NoUpdate};
use cplib::segment_tree::SegmentTree;
use cplib::segment_tree_point_update_range_query::SegmentTreePURQ;
use cplib::xorshift::Xorshift128;

#[test]
fn test_max_add() {
    let mut rng = Xorshift128::new(42);
    let n = 1000usize;
    let mut seq: Vec<u64> = (0..n).map(|_| rng.gen_range(1000) as u64).collect();
    let mut seg: LazySegMentTree<MaxAdd> = LazySegMentTree::new(n);
    for (i, x) in seq.iter().enumerate() {
        seg.set(i, *x);
    }

    for _ in 0..100 {
        let left = rng.gen_range(n as u32) as usize;
        let right = left + rng.gen_range((n - left) as u32) as usize + 1;
        let value = rng.gen_range(100) as u64;
        for i in left..right {
            seq[i] += value;
        }
        let seq_max = *seq[left..right].iter().max().unwrap();
        seg.apply_range(left, right, &value);
        let seg_max = seg.prod(left, right);
        assert_eq!(seq_max, seg_max);
        for i in left..right {
            assert_eq!(seg.prod(i, i + 1), seq[i]);
        }
    }
}

#[test]
fn test_additive_mul_mod() {
    // Wrapping sums scaled by wrapping multipliers: the ring of integers
    // modulo 2^64.
    let mut rng = Xorshift128::new(7);
    let n = 1000usize;
    let mut seq: Vec<u64> = (0..n).map(|_| rng.gen_range(1000) as u64).collect();
    let mut seg: LazySegMentTree<AddMul> = LazySegMentTree::from_vec(seq.clone());

    for _ in 0..100 {
        let left = rng.gen_range(n as u32) as usize;
        let right = left + rng.gen_range((n - left) as u32) as usize + 1;
        let value = rng.gen_range(100) as u64;
        for i in left..right {
            seq[i] = seq[i].wrapping_mul(value);
        }
        let seq_total: u64 = seq[left..right]
            .iter()
            .fold(0u64, |x, y| x.wrapping_add(*y));
        seg.apply_range(left, right, &value);
        let seg_total = seg.prod(left, right);
        assert_eq!(seq_total, seg_total);
        for i in left..right {
            assert_eq!(seg.prod(i, i + 1), seq[i]);
        }
    }
}

#[test]
fn segment_tree_random_update_and_max() {
    const N: usize = 1000;
    let mut seg: SegmentTree<cplib::lazy_segment_tree::Max<i64>> = SegmentTree::new(N);
    // The maximum monoid's identity is i64::MIN, so seed every leaf first.
    let mut values = vec![0i64; N];
    for (k, v) in values.iter().enumerate() {
        seg.update(k, *v);
    }
    let mut rng = Xorshift128::new(99);
    for _ in 0..2000 {
        let value = rng.gen_range(1000) as i64;
        let k = rng.gen_range(N as u32) as usize;
        values[k] = value;
        seg.update(k, value);
        assert_eq!(seg.query(0, N), *values.iter().max().unwrap());

        let l = rng.gen_range(N as u32) as usize;
        let r = l + rng.gen_range((N - l) as u32) as usize;
        let x = values[l..=r].iter().max().unwrap();
        assert_eq!(seg.query(l, r + 1), *x);
    }
}

#[test]
fn segment_tree_random_update_and_sum() {
    const N: usize = 1000;
    let mut seg: SegmentTree<cplib::lazy_segment_tree::Additive<u64>> = SegmentTree::new(N);
    let mut values = vec![0u64; N];
    let mut rng = Xorshift128::new(7777);
    for _ in 0..2000 {
        let value = rng.gen_range(1000) as u64;
        let k = rng.gen_range(N as u32) as usize;
        values[k] = value;
        seg.update(k, value);
        assert_eq!(seg.query(0, N), values.iter().sum::<u64>());

        let l = rng.gen_range(N as u32) as usize;
        let r = l + rng.gen_range((N - l) as u32) as usize;
        let x: u64 = values[l..=r].iter().sum();
        assert_eq!(seg.query(l, r + 1), x);
    }
}

#[test]
fn segment_tree_point_update_range_query_random_update_and_max() {
    const N: usize = 1000;
    let mut seg: SegmentTreePURQ<cplib::lazy_segment_tree::Max<i64>> = SegmentTreePURQ::new(N);
    let mut values = vec![0i64; N];
    for (k, v) in values.iter().enumerate() {
        seg.update(k, *v);
    }
    let mut rng = Xorshift128::new(31);
    for _ in 0..2000 {
        let value = rng.gen_range(1000) as i64;
        let k = rng.gen_range(N as u32) as usize;
        values[k] = value;
        seg.update(k, value);
        assert_eq!(seg.get(0, N), *values.iter().max().unwrap());

        let l = rng.gen_range(N as u32) as usize;
        let r = l + rng.gen_range((N - l) as u32) as usize;
        let x = values[l..=r].iter().max().unwrap();
        assert_eq!(seg.get(l, r + 1), *x);
    }
}

#[test]
fn segment_tree_point_update_range_query_random_update_and_sum() {
    const N: usize = 1000;
    let mut seg: SegmentTreePURQ<cplib::lazy_segment_tree::Additive<u64>> =
        SegmentTreePURQ::new(N);
    let mut values = vec![0u64; N];
    let mut rng = Xorshift128::new(555);
    for _ in 0..2000 {
        let value = rng.gen_range(1000) as u64;
        let k = rng.gen_range(N as u32) as usize;
        values[k] = value;
        seg.update(k, value);
        assert_eq!(seg.get(0, N), values.iter().sum::<u64>());

        let l = rng.gen_range(N as u32) as usize;
        let r = l + rng.gen_range((N - l) as u32) as usize;
        let x: u64 = values[l..=r].iter().sum();
        assert_eq!(seg.get(l, r + 1), x);
    }
}

#[test]
fn test_add() {
    let n = 10usize;
    // (value, count) pairs so that range assignment knows segment widths.
    let mut a = vec![0u64; n];
    let start: Vec<(u64, u64)> = a.iter().map(|v| (*v, 1)).collect();
    let mut lazy_seg: LazyAssignSegmentTree<AssignPair> = LazyAssignSegmentTree::new(start);
    for x in a.iter_mut().take(5).skip(2) {
        *x = 5;
    }
    lazy_seg.update(2, 5, Some(5));
    assert_eq!(lazy_seg.prod(0, n).0, a.iter().sum::<u64>());
    for x in a.iter_mut().take(9).skip(3) {
        *x = 7;
    }
    lazy_seg.update(3, 9, Some(7));
    assert_eq!(lazy_seg.prod(0, n).0, a.iter().sum::<u64>());
    assert_eq!(lazy_seg.prod(2, 7).0, a[2..7].iter().sum::<u64>());
}

#[test]
fn random_test() {
    let mut rng = Xorshift128::new(2023);
    const INF: u32 = 2000;
    for _ in 0..10 {
        let mut seq: Vec<i64> = (0..200).map(|_| rng.gen_range(2 * INF) as i64 - INF as i64).collect();
        let n = seq.len();
        let sums: Vec<(u64, u64)> = seq.iter().map(|v| ((*v as u64), 1)).collect();
        let mut add_seg: LazyAssignSegmentTree<AssignPair> = LazyAssignSegmentTree::new(sums);
        let mut max_seg: LazyAssignSegmentTree<AssignMax> =
            LazyAssignSegmentTree::new(seq.clone());
        for _ in 0..n / 4 {
            let left = rng.gen_range(n as u32) as usize;
            let right = left + rng.gen_range((n - left) as u32) as usize;
            let value = rng.gen_range(2 * INF) as i64 - INF as i64;
            for x in seq.iter_mut().take(right + 1).skip(left) {
                *x = value;
            }
            add_seg.update(left, right + 1, Some(value as u64));
            max_seg.update(left, right + 1, Some(value));
            assert_eq!(
                add_seg.prod(left, right + 1).0,
                seq[left..=right]
                    .iter()
                    .fold(0u64, |acc, v| acc.wrapping_add(*v as u64))
            );
            assert_eq!(
                add_seg.prod(0, n).0,
                seq.iter().fold(0u64, |acc, v| acc.wrapping_add(*v as u64))
            );
            assert_eq!(max_seg.prod(0, n), *seq.iter().max().unwrap());
            for _ in 0..30 {
                let l = rng.gen_range(n as u32) as usize;
                let r = l + rng.gen_range((n - l) as u32) as usize;
                assert_eq!(
                    add_seg.prod(l, r + 1).0,
                    seq[l..=r]
                        .iter()
                        .fold(0u64, |acc, v| acc.wrapping_add(*v as u64))
                );
                assert_eq!(max_seg.prod(l, r + 1), *seq[l..=r].iter().max().unwrap());
            }
            for (i, x) in seq.iter().enumerate() {
                assert_eq!(add_seg.prod(i, i + 1).0, *x as u64);
                assert_eq!(max_seg.prod(i, i + 1), *x);
            }
        }
    }
}

#[test]
fn max_add_concrete_scenario() {
    // Ten leaves, combine = max, map = "add k": adding 100 everywhere
    // lifts the maximum of the first six leaves to 9 + 100.
    let leaves: Vec<u64> = vec![3, 1, 4, 1, 5, 9, 2, 6, 5, 10];
    let mut seg: LazySegMentTree<MaxAdd> = LazySegMentTree::from_vec(leaves);
    seg.apply_range(0, 10, &100);
    assert_eq!(seg.prod(0, 6), 109);
    assert_eq!(seg.all_prod(), 110);
}

#[test]
fn one_leaf_boundary() {
    let mut seg: LazySegMentTree<MaxAdd> = LazySegMentTree::from_vec(vec![5u64]);
    seg.apply_range(0, 1, &37);
    assert_eq!(seg.get(0), 42);
    // An empty range folds to the identity whatever the tree holds.
    assert_eq!(seg.prod(0, 0), 0);
    let mut seg2: LazySegMentTree<MaxAdd> = LazySegMentTree::new(1);
    seg2.apply(0, &7);
    assert_eq!(seg2.get(0), 7);
}

#[test]
fn word_hash_keeps_order() {
    // Word concatenation under a polynomial hash is not commutative: the
    // tree must fold strictly left to right.
    let base = 1000003u64;
    let words: Vec<(u64, u64)> = vec![
        (3, base),
        (1, base),
        (4, base),
        (1, base),
        (5, base),
        (9, base),
        (2, base),
    ];
    let n = words.len();
    let mut seg: LazySegMentTree<NoUpdate<WordHash>> = LazySegMentTree::from_vec(words.clone());
    for l in 0..n {
        for r in (l + 1)..=n {
            let mut naive = (0u64, 1u64);
            for w in &words[l..r] {
                naive = (
                    naive.0.wrapping_mul(w.1).wrapping_add(w.0),
                    naive.1.wrapping_mul(w.1),
                );
            }
            assert_eq!(seg.prod(l, r), naive);
        }
    }
    // Reversing a mixed pair changes the hash: order genuinely matters.
    let ab = seg.prod(0, 2);
    let mut rev: LazySegMentTree<NoUpdate<WordHash>> =
        LazySegMentTree::from_vec(vec![(1, base), (3, base)]);
    let ba = rev.prod(0, 2);
    assert_ne!(ab, ba);
}

#[test]
fn monoid_laws_sampled() {
    // Associativity and identity of the combine operation, on sampled
    // values, through the executable operations.
    let mut rng = Xorshift128::new(1);
    for _ in 0..200 {
        let a = rng.gen() as u64;
        let b = rng.gen() as u64;
        let c = rng.gen() as u64;
        let ab = <cplib::lazy_segment_tree::Additive<u64> as Monoid>::binary_operation(&a, &b);
        let bc = <cplib::lazy_segment_tree::Additive<u64> as Monoid>::binary_operation(&b, &c);
        let left = <cplib::lazy_segment_tree::Additive<u64> as Monoid>::binary_operation(&ab, &c);
        let right = <cplib::lazy_segment_tree::Additive<u64> as Monoid>::binary_operation(&a, &bc);
        assert_eq!(left, right);
        let e = <cplib::lazy_segment_tree::Additive<u64> as Monoid>::identity();
        assert_eq!(
            <cplib::lazy_segment_tree::Additive<u64> as Monoid>::binary_operation(&e, &a),
            a
        );
        let m_ab = <cplib::lazy_segment_tree::Max<u64> as Monoid>::binary_operation(&a, &b);
        let m_bc = <cplib::lazy_segment_tree::Max<u64> as Monoid>::binary_operation(&b, &c);
        let m_left = <cplib::lazy_segment_tree::Max<u64> as Monoid>::binary_operation(&m_ab, &c);
        let m_right = <cplib::lazy_segment_tree::Max<u64> as Monoid>::binary_operation(&a, &m_bc);
        assert_eq!(m_left, m_right);
    }
}

#[test]
fn composition_law_sampled() {
    // mapping(composition(f, g), x) == mapping(f, mapping(g, x)) on
    // sampled maps and aggregates.
    let mut rng = Xorshift128::new(2);
    for _ in 0..200 {
        let f = rng.gen() as u64;
        let g = rng.gen() as u64;
        let x = rng.gen() as u64;
        let fg = <MaxAdd as MapMonoid>::composition(&f, &g);
        let lhs = <MaxAdd as MapMonoid>::mapping(&fg, &x);
        let rhs = <MaxAdd as MapMonoid>::mapping(&f, &<MaxAdd as MapMonoid>::mapping(&g, &x));
        assert_eq!(lhs, rhs);
        let fg2 = <AddMul as MapMonoid>::composition(&f, &g);
        let lhs2 = <AddMul as MapMonoid>::mapping(&fg2, &x);
        let rhs2 = <AddMul as MapMonoid>::mapping(&f, &<AddMul as MapMonoid>::mapping(&g, &x));
        assert_eq!(lhs2, rhs2);
    }
}

#[test]
fn point_write_then_read() {
    // set(p, x) followed by get(p) hands back x while nothing else moved.
    let mut seg: LazySegMentTree<MaxAdd> = LazySegMentTree::new(16);
    seg.set(11, 1234);
    assert_eq!(seg.get(11), 1234);
    seg.set(3, 77);
    assert_eq!(seg.get(3), 77);
    assert_eq!(seg.get(11), 1234);
}

#[test]
fn repeated_reads_agree() {
    // prod twice in a row with no mutation in between: the same value,
    // even though reads push pending maps around internally.
    let mut seg: LazySegMentTree<MaxAdd> = LazySegMentTree::from_vec(vec![4u64, 8, 15, 16, 23, 42]);
    seg.apply_range(1, 5, &100);
    let first = seg.prod(1, 5);
    let second = seg.prod(1, 5);
    assert_eq!(first, second);
    let third = seg.all_prod();
    let fourth = seg.all_prod();
    assert_eq!(third, fourth);
}
