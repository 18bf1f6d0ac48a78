//! A verified library of contest-style algorithms and data structures.
//!
//! The centrepiece is the generic lazy-propagation segment tree in
//! [`lazy_segment_tree`]; around it stand the independent helpers the
//! library grew over time (number theory, search, flat data structures).

pub mod binary_search;
pub mod binomial_coefficient_mod_prime;
pub mod bitset;
pub mod btree_multiset;
pub mod change_min_max;
pub mod fenwick_tree;
pub mod foldable_queue;
pub mod fraction;
pub mod gap_traits;
pub mod gcd;
pub mod lazy_assign_segment_tree;
pub mod lazy_segment_tree;
pub mod lca;
pub mod matrix;
pub mod median_multiset;
pub mod minimum_k_sum;
pub mod mod_comb;
pub mod mod_int;
pub mod mod_util;
pub mod range_set;
pub mod rolling_hash;
pub mod scc;
pub mod segment_tree;
pub mod segment_tree_point_update_range_query;
pub mod sum2d;
pub mod tree_diameter;
pub mod trie;
pub mod union_find;
pub mod utils;
pub mod xorshift;
