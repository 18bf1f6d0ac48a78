//! Trees and directed graphs: lowest common ancestors, strongly
//! connected components, tree diameters.

use cplib::lca::Lca;
use cplib::scc::SccGraph;
use cplib::tree_diameter::TreeDiameter;

#[test]
fn test_lca() {
    let n: usize = 9;
    let mut edges = vec![vec![]; n];
    edges[0].push(1);
    edges[1].push(2);
    edges[1].push(3);
    edges[0].push(4);
    edges[4].push(5);
    edges[4].push(6);
    edges[6].push(7);
    edges[7].push(8);
    let lca = Lca::new(0, n, &edges);
    assert_eq!(lca.query(2, 8), 0);
    assert_eq!(lca.query(2, 3), 1);
    assert_eq!(lca.query(7, 6), 6);
    assert_eq!(lca.query(0, 1), 0);
    assert_eq!(lca.query(5, 8), 4);
    assert_eq!(lca.query(1, 1), 1);
}

#[test]
fn lca_distances() {
    let n: usize = 5;
    let mut edges = vec![vec![]; n];
    edges[0].push(1);
    edges[1].push(2);
    edges[2].push(3);
    edges[1].push(4);
    let lca = Lca::new(0, n, &edges);
    assert_eq!(lca.distance(3, 4), 3);
    assert_eq!(lca.distance(0, 3), 3);
    assert!(lca.is_on_path(0, 3, 2));
    assert!(!lca.is_on_path(0, 3, 4));
    assert_eq!(lca.ancestor(3, 2), Some(1));
    assert_eq!(lca.ancestor(3, 4), None);
}

#[test]
fn test_scc() {
    let n = 12;

    let mut scc = SccGraph::new(n);
    scc.add_edge(11, 10);
    scc.add_edge(10, 9);
    scc.add_edge(10, 8);
    scc.add_edge(9, 8);
    scc.add_edge(8, 7);
    scc.add_edge(7, 9);
    scc.add_edge(7, 6);
    scc.add_edge(6, 5);
    scc.add_edge(4, 6);
    scc.add_edge(5, 4);
    scc.add_edge(5, 3);
    scc.add_edge(5, 2);
    scc.add_edge(2, 3);
    scc.add_edge(2, 1);
    scc.add_edge(3, 0);
    scc.add_edge(0, 3);

    let groups = scc.scc();
    assert_eq!(groups[0], vec![11]);
    assert_eq!(groups[1], vec![10]);
    assert_eq!(groups[2], vec![7, 8, 9]);
    assert_eq!(groups[3], vec![4, 5, 6]);
    assert_eq!(groups[4], vec![2]);
    assert_eq!(groups[5], vec![1]);
    assert_eq!(groups[6], vec![0, 3]);
}

#[test]
fn solve_alpc_g_sample1() {
    let n: usize = 6;
    let edges = vec![(1, 4), (5, 2), (3, 0), (5, 5), (4, 1), (0, 3), (4, 2)];

    let mut graph = SccGraph::new(n);
    for (u, v) in edges.into_iter() {
        graph.add_edge(u, v);
    }

    let scc = graph.scc();
    assert_eq!(scc, vec![vec![5], vec![1, 4], vec![2], vec![0, 3]]);
}

#[test]
fn tree_diameter_path() {
    let mut t = TreeDiameter::new(6);
    t.add_edge(0, 1);
    t.add_edge(1, 2);
    t.add_edge(1, 3);
    t.add_edge(3, 4);
    t.add_edge(4, 5);
    let (d, (from, to)) = t.diameter();
    assert_eq!(d, 4);
    let path = t.path(from, to);
    assert_eq!(path.len(), 5);
    assert_eq!(path[0], from);
    assert_eq!(path[path.len() - 1], to);
}
