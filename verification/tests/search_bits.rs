//! Binary search, chmin/chmax, bitsets, rolling hashes and grid steps.

use cplib::binary_search::BinarySearch;
use cplib::bitset::BitSet;
use cplib::change_min_max::ChangeMinMax;
use cplib::gap_traits::BoolToOption;
use cplib::rolling_hash::RollingHash;
use cplib::utils::try_adj;
use cplib::xorshift::Xorshift128;

#[test]
fn test_binary_search() {
    let vec: [i64; 7] = [-100, 0, 1, 2, 10, 100, 1000];
    assert_eq!(vec.lower_bound(&1), Some(2));
    assert_eq!(vec.lower_bound(&100), Some(5));
    assert_eq!(vec.lower_bound(&-5000), Some(0));
    assert_eq!(vec.lower_bound(&999), Some(6));
    assert_eq!(vec.lower_bound(&1001), None);

    assert_eq!(vec.upper_bound(&-101), Some(0));
    assert_eq!(vec.upper_bound(&0), Some(2));
    assert_eq!(vec.upper_bound(&100), Some(6));
    assert_eq!(vec.upper_bound(&1000), None);
}

#[test]
fn test_random_binary_search() {
    let test_case = 25;
    let max_value = 200u32;
    let query_num = 100;
    let mut rng = Xorshift128::new(17);
    for _ in 0..test_case {
        let mut seq: Vec<i64> = (0..500).map(|_| rng.gen_range(max_value) as i64).collect();
        seq.sort_unstable();

        for _ in 0..query_num {
            let query = rng.gen_range(max_value + 100) as i64;
            let result = (seq.as_slice().lower_bound(&query), seq.as_slice().upper_bound(&query));
            let mut lower_result = None;
            let mut upper_result = None;
            for (i, &v) in seq.iter().enumerate() {
                if lower_result.is_none() && query <= v {
                    lower_result = Some(i);
                }
                if upper_result.is_none() && query < v {
                    upper_result = Some(i);
                }
            }
            assert_eq!(result, (lower_result, upper_result));
        }
    }
}

#[test]
fn test_change_min_max() {
    let mut x: i64 = 10;

    // change min
    assert!(x.chmin(5));
    assert_eq!(x, 5);

    // do nothing
    assert!(!x.chmin(5));
    assert_eq!(x, 5);

    // change max
    assert!(x.chmax(100));
    assert_eq!(x, 100);

    // do nothing
    assert!(!x.chmax(100));
    assert_eq!(x, 100);
}

#[test]
fn test_bitset_set_read() {
    let size = 6400;

    let mut set = BitSet::new(size);
    let mut v = vec![false; size];
    let mut rng = Xorshift128::new(123);

    for (i, v) in v.iter_mut().enumerate() {
        let b = rng.gen() % 2 == 0;
        set.set(i, b);
        *v = b;
    }

    for (i, v) in v.iter().enumerate() {
        assert_eq!(set.get(i), *v);
    }
}

fn shl_case(size: usize, shift: usize, seed: u32) {
    let mut set = BitSet::new(size);
    let mut v = vec![false; size];
    let mut rng = Xorshift128::new(seed);

    for (i, v) in v.iter_mut().enumerate() {
        let b = rng.gen() % 2 == 0;
        set.set(i, b);
        *v = b;
    }
    for i in (shift..v.len()).rev() {
        v[i] = v[i - shift];
    }
    for v in v.iter_mut().take(std::cmp::min(size, shift)) {
        *v = false;
    }

    set.shl(shift);
    for (i, v) in v.iter().enumerate() {
        assert_eq!(set.get(i), *v);
    }
}

#[test]
fn test_bitset_shl() {
    shl_case(6400, 640, 123);
    shl_case(6400, 114, 123);
    shl_case(6400, 514, 123);
    shl_case(6400, 6400, 123);
    shl_case(6400, 16400, 123);

    let mut t = BitSet::new(310);
    for i in 0..3100 {
        t.shl(i);
    }
}

fn shr_case(size: usize, shift: usize, seed: u32) {
    let mut set = BitSet::new(size);
    let mut v = vec![false; size];
    let mut rng = Xorshift128::new(seed);

    for (i, v) in v.iter_mut().enumerate() {
        let b = rng.gen() % 2 == 0;
        set.set(i, b);
        *v = b;
    }

    let s = if size >= shift { size - shift } else { 0 };

    for i in 0..s {
        v[i] = v[i + shift];
    }
    for v in v.iter_mut().take(size).skip(s) {
        *v = false;
    }

    set.shr(shift);
    for (i, item) in v.iter().enumerate() {
        assert_eq!(set.get(i), *item);
    }
}

#[test]
fn test_bitset_shr() {
    shr_case(6400, 640, 1234);
    shr_case(6400, 114, 1234);
    shr_case(6400, 514, 1234);
    shr_case(63, 65, 1234);
    shr_case(6400, 6400, 1234);
    shr_case(6400, 16400, 1234);

    let mut t = BitSet::new(310);
    for i in 0..3100 {
        t.shr(i);
    }
}

#[test]
fn test_bitset_chomp() {
    let mut set1 = BitSet::new(4);
    let mut set2 = BitSet::new(8);

    for i in 0..4 {
        set1.set(i, true);
        set2.set(i, true);
    }

    for i in 4..8 {
        set2.set(i, true);
    }

    set1.shl(2);
    assert_eq!(set1.count_ones(), 2);
    assert_eq!(set1.bit_or(&set2).count_ones(), 4);
    assert_eq!(set1.bit_and(&set2).count_ones(), 2);
    assert_eq!(set1.bit_xor(&set2).count_ones(), 2);
}

#[test]
fn test_rolling_hash() {
    let seq: Vec<u64> = "abcabc".chars().map(|c| c as u64).collect();
    let rh = RollingHash::new(&seq);
    assert_eq!(rh.hash(0, 3), rh.hash(3, 6));
    assert!(rh.equal(0, 3, 3, 6));
    assert!(rh.equal(0, 2, 3, 5));
    assert!(!rh.equal(0, 3, 1, 4));
    assert_ne!(rh.hash(0, 2), rh.hash(1, 3));
    assert_eq!(rh.hash1(0, 0), rh.hash1(3, 3));
}

#[test]
fn test_random_rolling_hash() {
    let mut rng = Xorshift128::new(50);
    for _ in 0..25 {
        let n = 60 + rng.gen_range(40) as usize;
        let seq: Vec<u64> = (0..n).map(|_| (97 + rng.gen_range(4)) as u64).collect();
        let rh = RollingHash::new(&seq);
        for _ in 0..200 {
            let l1 = rng.gen_range(n as u32) as usize;
            let r1 = l1 + rng.gen_range((n - l1) as u32 + 1) as usize;
            let l2 = rng.gen_range(n as u32) as usize;
            let r2 = l2 + rng.gen_range((n - l2) as u32 + 1) as usize;
            let same = seq[l1..r1] == seq[l2..r2];
            assert_eq!(rh.equal(l1, r1, l2, r2), same);
        }
    }
}

#[test]
fn try_adj_steps() {
    assert_eq!(try_adj(0, 0, 0, 3, 3), Some((0, 1)));
    assert_eq!(try_adj(0, 0, 2, 3, 3), None);
    assert_eq!(try_adj(0, 0, 3, 3, 3), None);
    assert_eq!(try_adj(1, 1, 7, 3, 3), Some((0, 0)));
    assert_eq!(try_adj(2, 2, 4, 3, 3), None);
}

#[test]
fn bool_to_option() {
    assert_eq!(BoolToOption::then_some(false, 0u64), None);
    assert_eq!(BoolToOption::then_some(true, 7u64), Some(7));
}

#[test]
fn xorshift_is_deterministic() {
    let mut a = Xorshift128::new(5);
    let mut b = Xorshift128::new(5);
    for _ in 0..100 {
        assert_eq!(a.gen(), b.gen());
    }
    let mut c = Xorshift128::new(6);
    let mut differs = false;
    for _ in 0..100 {
        if a.gen() != c.gen() {
            differs = true;
        }
    }
    assert!(differs);
}
