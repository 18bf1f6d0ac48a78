//! Multisets, queues, grids and trees of sums.

use cplib::btree_multiset::BTreeMultiSet;
use cplib::fenwick_tree::FenwickTree;
use cplib::foldable_queue::FoldableQueue;
use cplib::lazy_segment_tree::{Additive, Min};
use cplib::matrix::Matrix;
use cplib::median_multiset::MedianMultiSet;
use cplib::minimum_k_sum::MinimumKSum;
use cplib::sum2d::Sum2d;
use cplib::xorshift::Xorshift128;

#[test]
fn btree_multiset_test_insert_remove() {
    let mut mset = BTreeMultiSet::new();

    mset.insert(0);
    mset.insert(1);
    mset.insert(1);
    mset.insert(1);
    assert!(!mset.is_empty());
    assert_eq!(mset.len(), 4);
    assert_eq!(mset.unique_len(), 2);
    assert!(mset.contains(0));
    assert!(mset.contains(1));
    assert_eq!(mset.get(0), Some(0));
    assert_eq!(mset.count(0), 1);
    assert_eq!(mset.get(1), Some(1));
    assert_eq!(mset.count(1), 3);

    mset.remove(1);
    assert!(mset.contains(1));
    mset.remove_all(1);
    assert!(!mset.contains(1));
    assert_eq!(mset.len(), 1);
    mset.clear();
    assert!(mset.is_empty());
}

#[test]
fn test_iter_range() {
    let elements = vec![0i64, 0, 1, 1, 1, 2, 2, 3, 4, 5, 6, 6];
    let mut mset = BTreeMultiSet::new();
    for e in elements.iter() {
        mset.insert(*e);
    }
    for (x, y) in mset.iter().iter().zip(elements.iter()) {
        assert_eq!(*x, *y);
    }
    let range_elements: Vec<i64> = mset.range(1, 6);
    assert_eq!(range_elements, [1, 1, 1, 2, 2, 3, 4, 5]);
}

#[test]
fn test_first_last() {
    let mut mset = BTreeMultiSet::new();
    assert_eq!(mset.first(), None);
    assert_eq!(mset.last(), None);
    mset.insert(1);
    mset.insert(2);

    assert_eq!(mset.first(), Some(1));
    assert_eq!(mset.last(), Some(2));
    let all = mset.iter();
    assert_eq!(all.first(), Some(&1));
    assert_eq!(all.last(), Some(&2));
}

#[test]
fn test_pop_first_last() {
    let mut mset = BTreeMultiSet::new();
    for i in 0..10 {
        mset.insert(i);
    }
    for i in 0..10 {
        let x = mset.pop_first().unwrap();
        assert_eq!(i, x);
    }

    let mut mset = BTreeMultiSet::new();
    for i in 0..10 {
        mset.insert(i);
    }
    for i in (0..10).rev() {
        let x = mset.pop_last().unwrap();
        assert_eq!(i, x);
    }
}

#[test]
fn median_multiset_test_insert_remove() {
    let mut set = MedianMultiSet::new();
    assert_eq!(set.median(), (None, None));
    set.insert(1);
    assert_eq!(set.median(), (Some(1), None));
    set.insert(2);
    assert_eq!(set.median(), (Some(1), Some(2)));
    set.insert(3);
    assert_eq!(set.median(), (Some(2), None));
    assert!(set.remove(2));
    assert_eq!(set.median(), (Some(1), Some(3)));
    assert!(!set.remove(100));
    assert!(set.contains(1) && set.contains(3));
}

#[test]
fn test_foldable_queue() {
    let mut fque: FoldableQueue<Additive<u64>> = FoldableQueue::new();

    let n: u64 = 20;
    for i in 0..n {
        fque.push(i);
    }
    let mut folded_value = fque.fold_all().expect("no value");
    assert_eq!(folded_value, n * (n - 1) / 2);
    assert_eq!(fque.len(), n as usize);

    while let Some(v) = fque.pop() {
        folded_value -= v;
        assert_eq!(fque.fold_all().unwrap_or(0), folded_value);
    }
}

#[test]
fn test_sliding_minimum_elements() {
    let mut fque: FoldableQueue<Min<i64>> = FoldableQueue::new();
    let k = 3;
    let v: Vec<i64> = vec![1, 7, 7, 4, 8, 1, 6];
    let n = v.len();
    for x in v.iter().take(k) {
        fque.push(*x);
    }
    let mut results = vec![];
    for i in k..n {
        assert_eq!(fque.len(), k);
        results.push(fque.fold_all().expect("no value"));
        fque.push(v[i]);
        let x = fque.pop();
        assert_eq!(Some(v[i - k]), x);
    }

    results.push(fque.fold_all().expect("no value"));
    assert_eq!(results, vec![1, 4, 4, 1, 1]);
}

#[test]
fn random_array() {
    let n = 300;
    let mut bit = FenwickTree::new(n, 0);
    let mut v = vec![0i64; n];
    let mut rng = Xorshift128::new(4242);
    for i in 0..600 {
        let value = rng.gen_range(1000) as i64;
        let k = rng.gen_range(n as u32) as usize;
        if i % 2 == 0 {
            v[k] += value;
            bit.add(k, value);
        } else {
            v[k] -= value;
            bit.sub(k, value);
        }

        let mut sum = 0i64;
        for i in 0..n {
            sum += v[i];
            assert_eq!(sum, bit.sum(i + 1));
        }

        let l = rng.gen_range(n as u32) as usize;
        let r = l + rng.gen_range((n - l) as u32) as usize;
        sum = 0;
        for i in l..r {
            sum += v[i];
            assert_eq!(sum, bit.query(l, i + 1));
        }
    }
}

#[test]
fn minimum_k_sum_tracks_smallest() {
    let mut q = MinimumKSum::new(3);
    assert!(q.is_empty());
    for x in [5i64, 1, 4, 1, 5, 9, 2] {
        q.push(x);
    }
    assert_eq!(q.size(), 7);
    assert_eq!(q.k(), 3);
    // The three smallest are 1, 1, 2.
    assert_eq!(q.sum(), 4);
    assert!(q.erase(1));
    assert_eq!(q.sum(), 1 + 2 + 4);
    q.set_k(2);
    assert_eq!(q.sum(), 1 + 2);
    assert!(!q.erase(100));
}

#[test]
fn test_dot_matrix() {
    let a = Matrix::from_rows(vec![vec![1, 2], vec![3, 4]]);
    let b = Matrix::from_rows(vec![vec![1, 2], vec![3, 4]]);
    let c = a.dot(&b);
    assert_eq!(c.get(0, 0), 7);
    assert_eq!(c.get(0, 1), 10);
    assert_eq!(c.get(1, 0), 15);
    assert_eq!(c.get(1, 1), 22);
    let p = a.pow(2, 1);
    // pow seeds the diagonal with `one`, so A^2 matches the product above
    // except that binary exponentiation starts from the identity.
    assert_eq!(p.get(0, 0), 7);
    assert_eq!(p.get(1, 1), 22);
}

#[test]
fn sum2d_rectangles() {
    let mut grid = Sum2d::new(3, 4);
    let mut naive = [[0i64; 4]; 3];
    let mut rng = Xorshift128::new(8);
    for y in 0..3 {
        for x in 0..4 {
            let v = rng.gen_range(100) as i64;
            grid.set(y, x, v);
            naive[y][x] = v;
        }
    }
    grid.add(1, 1, 5);
    naive[1][1] += 5;
    grid.build();
    for sy in 0..3 {
        for sx in 0..4 {
            for gy in sy..3 {
                for gx in sx..4 {
                    let mut expect = 0i64;
                    for row in naive.iter().take(gy + 1).skip(sy) {
                        for cell in row.iter().take(gx + 1).skip(sx) {
                            expect += cell;
                        }
                    }
                    assert_eq!(grid.query(sy, sx, gy, gx), expect);
                }
            }
        }
    }
}

#[test]
fn union_find_basics() {
    let mut uf = cplib::union_find::UnionFind::new(10);
    assert_eq!(uf.size(), 10);
    assert!(uf.unite(0, 1).is_some());
    assert!(uf.unite(1, 2).is_some());
    assert!(uf.unite(0, 2).is_none());
    assert!(uf.is_same_set(0, 2));
    assert!(!uf.is_same_set(0, 3));
    assert_eq!(uf.union_size(1), 3);
    assert_eq!(uf.size(), 8);

    let mut undo = cplib::union_find::UndoUnionFind::new(6);
    undo.unite(0, 1);
    undo.unite(2, 3);
    assert!(undo.is_same_set(0, 1));
    undo.undo();
    assert!(!undo.is_same_set(2, 3));
    assert!(undo.is_same_set(0, 1));
    undo.rollback();
    assert!(!undo.is_same_set(0, 1));

    let mut w = cplib::union_find::WeightedUnionFind::new(5, 0);
    assert!(w.merge(0, 1, 3));
    assert!(w.merge(1, 2, 4));
    assert!(w.is_same_set(0, 2));
    assert_eq!(w.diff(0, 2), 7);
}

#[test]
fn fenwick_prefix_bounds() {
    let mut bit = FenwickTree::new(6, 0);
    for (i, v) in [5i64, 3, 7, 9, 6, 20].iter().enumerate() {
        bit.add(i, *v);
    }
    assert_eq!(bit.sum(0), 0);
    assert_eq!(bit.sum(3), 15);
    assert_eq!(bit.sum(6), 50);
    assert_eq!(bit.query(1, 4), 19);
    bit.sub(2, 7);
    assert_eq!(bit.query(0, 6), 43);
    // Prefix sums are 5, 8, 8, 17, 23, 43 after the subtraction.
    assert_eq!(bit.lower_bound(&8), Some(1));
    assert_eq!(bit.lower_bound(&9), Some(3));
    assert_eq!(bit.lower_bound(&44), None);
    assert_eq!(bit.upper_bound(&8), Some(3));
    assert_eq!(bit.upper_bound(&43), None);
}

#[test]
fn median_multiset_contains_after_moves() {
    let mut ms = cplib::median_multiset::MedianMultiSet::new();
    for v in [4i64, 1, 9, 1, 6] {
        ms.insert(v);
    }
    assert!(ms.contains(1));
    assert!(ms.contains(9));
    assert!(!ms.contains(5));
    assert_eq!(ms.median(), (Some(4), None));
    assert!(ms.remove(1));
    assert!(ms.contains(1));
    assert!(ms.remove(1));
    assert!(!ms.contains(1));
    assert_eq!(ms.median(), (Some(6), None));
}
