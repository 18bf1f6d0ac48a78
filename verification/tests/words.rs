//! Tries over lowercase words, and exact rational arithmetic.

use cplib::fraction::Fraction;
use cplib::trie::TrieAlpha;

#[test]
fn test_trie_alpha() {
    let mut trie = TrieAlpha::new();

    assert_eq!(trie.count(&['a', 'b', 'c']), 0);
    trie.add(&['a', 'b', 'c']);
    assert_eq!(trie.count(&['a', 'b', 'c']), 1);

    trie.add(&['a', 'b']);
    // abc, ab
    trie.add(&['a']);
    // abc, ab, a
    trie.add(&['a', 'c']);
    // abc, ab, a, ac
    trie.add(&['b', 'c']);
    // abc, ab, a, ac, bc

    // abc, ab, a
    assert_eq!(trie.count_prefix_of(&['a', 'b', 'c']), 3);
    // ac, a
    assert_eq!(trie.count_prefix_of(&['a', 'c']), 2);

    trie.add(&['a', 'b']);
    assert_eq!(trie.count(&['a', 'b']), 2);
}

#[test]
fn trie_prefixed_counts() {
    let mut trie = TrieAlpha::new();
    trie.add(&['a', 'b', 'c']);
    trie.add(&['a', 'b']);
    trie.add(&['a']);
    assert_eq!(trie.count_prefixed_with(&['a']), 3);
    assert_eq!(trie.count_prefixed_with(&['a', 'b']), 2);
    assert_eq!(trie.count_prefixed_with(&['z']), 0);
    assert!(trie.seek(&['a', 'b']).is_some());
    assert!(trie.seek(&['a', 'z']).is_none());
}

#[test]
fn test_fraction() {
    assert!(Fraction::new(1, 3).lt_value(&Fraction::new(1, 2)));
    assert!(Fraction::new(1, 2).eq_value(&Fraction::new(-1, -2)));
    assert!(Fraction::new(1, -2).lt_value(&Fraction::new(1, 3)));

    assert!(Fraction::new(0, 10000).eq_value(&Fraction::zero()));
    // mul
    assert!(Fraction::new(1, 2)
        .mul(Fraction::new(2, 3))
        .eq_value(&Fraction::new(1, 3)));
    // add
    assert!(Fraction::new(1, 2)
        .add(Fraction::new(2, 3))
        .eq_value(&Fraction::new(7, 6)));
    // sub
    assert!(Fraction::new(1, 2)
        .sub(Fraction::new(1, 2))
        .eq_value(&Fraction::zero()));
    // div
    assert!(Fraction::new(1, 2)
        .div(Fraction::new(2, 3))
        .eq_value(&Fraction::new(3, 4)));
    // pow
    assert!(Fraction::new(2, 3).pow(2).eq_value(&Fraction::new(4, 9)));
    assert!(Fraction::new(2, 3).pow(-2).eq_value(&Fraction::new(9, 4)));
    // reduce and neg
    let r = Fraction::new(6, 8).reduce();
    assert_eq!(r.num(), 3);
    assert_eq!(r.den(), 4);
    assert!(Fraction::new(1, 2).neg().eq_value(&Fraction::new(-1, 2)));
}
