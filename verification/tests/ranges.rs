//! Interval sets: insertion, erasure, coverage and mex.

use cplib::range_set::RangeSet;
use cplib::xorshift::Xorshift128;

#[test]
fn test_insert_erase() {
    let mut set = RangeSet::new();
    // [0,5]
    let increased = set.insert((0, 5));
    assert!(increased == 6);
    assert_eq!(set.mex(0), 6);
    // [0, 7]
    let increased = set.insert((6, 7));
    assert!(increased == 2);
    assert_eq!(set.mex(0), 8);

    // [0, 7] [9, 9]
    let increased = set.insert(9);
    assert!(increased == 1);
    assert!(set.size() == 2);
    assert_eq!(set.mex(0), 8);

    // [0, 10]
    set.insert((8, 10));
    assert!(set.size() == 1);
    assert_eq!(set.mex(0), 11);
    assert_eq!(set.mex(-100), -100);

    // erase
    // [0, 1] [6, 10]
    let erased = set.erase((2, 5));
    assert_eq!(erased, 4);
    assert_eq!(set.size(), 2);
    // [1, 1] [6, 10]
    let erased = set.erase(0);
    assert_eq!(erased, 1);
    assert_eq!(set.size(), 2);
    // [1, 1]
    let erased = set.erase((2, 10));
    assert_eq!(erased, 5);
    assert_eq!(set.size(), 1);

    // []
    let erased = set.erase(1);
    assert_eq!(erased, 1);
    assert_eq!(set.size(), 0);

    // [8, 8]
    assert_eq!(set.insert(8), 1);
    // [1, 2] [8, 8]
    assert_eq!(set.insert((1, 2)), 2);
    // [8, 8]
    assert_eq!(set.erase((1, 7)), 2);
    // [8, 8]
    assert_eq!(set.erase((0, 5)), 0);

    // [8, 12]
    assert_eq!(set.insert((9, 12)), 4);
    assert_eq!(set.size(), 1);
    // [8, 9] [12, 12]
    assert_eq!(set.erase((10, 11)), 2);
}

#[test]
fn test_random_insert_erase() {
    let n: usize = 500;
    let mut rng = Xorshift128::new(91);

    let mut covered = vec![false; n + 1];
    let mut set = RangeSet::new();
    for _ in 0..=n / 10 {
        let left = rng.gen_range(n as u32) as usize;
        let right = left + rng.gen_range((n - left) as u32) as usize;

        let value = rng.gen_range(2);
        if value % 2 == 0 {
            // insert
            let mut increased = 0;
            for c in covered.iter_mut().take(right + 1).skip(left) {
                if !*c {
                    increased += 1;
                }
                *c = true;
            }
            assert_eq!(set.insert((left as i64, right as i64)), increased);
        } else {
            // erase
            let mut erased = 0;
            for c in covered.iter_mut().take(right + 1).skip(left) {
                if *c {
                    erased += 1;
                }
                *c = false;
            }
            assert_eq!(set.erase((left as i64, right as i64)), erased);
        }

        // every stored interval is fully covered
        for (left, right) in set.iter().iter().map(|&(l, r)| (l as usize, r as usize)) {
            assert!(covered.iter().skip(left).take(right - left + 1).all(|&x| x));
        }

        let mut checked_mex = false;
        for i in 0..n {
            assert_eq!(set.covered(i as i64), covered[i]);
            if covered[i] {
                let (left, right) = set.covered_by(i as i64).expect("no range");
                if left >= 1 {
                    assert!(!covered[(left - 1) as usize]);
                }
                if (right as usize) + 1 < n {
                    assert!(!covered[(right + 1) as usize]);
                }
            } else {
                if !checked_mex {
                    assert_eq!(set.mex(0), i as i64);
                }
                checked_mex = true;
            }
        }
    }
}
