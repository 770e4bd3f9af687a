use synth::nmat::Matrix;
use synth::topo::{remove_back_edges, schedule, topological_sort, AdjacencyMatrix};

#[test]
fn test_rm_simple_edge() {
    let mut adj: AdjacencyMatrix = Matrix::new((2, 2));
    // no self loops
    adj.set((0, 0), false);
    adj.set((1, 1), false);

    // directed edge from 0 -> 1 and from 1 -> 0
    adj.set((0, 1), true);
    adj.set((1, 0), true);

    remove_back_edges(&mut adj);

    // one of these edges must have been removed
    assert!(!*adj.get((0, 1)) || !*adj.get((1, 0)));

    // one of these edges must still exist
    assert!(*adj.get((0, 1)) || *adj.get((1, 0)));
}

#[test]
fn test_multi_step_cycle() {
    let mut adj: AdjacencyMatrix = Matrix::new((3, 3));
    adj.set((0, 1), true);
    adj.set((1, 2), true);
    adj.set((2, 0), true);

    remove_back_edges(&mut adj);

    // the only edge that is valid to remove is the 2 -> 0 edge
    assert!(!*adj.get((2, 0)));

    // but the other edges should still exist
    assert!(*adj.get((0, 1)) && *adj.get((1, 2)));
}

#[test]
fn test_self_loop() {
    let mut adj: AdjacencyMatrix = Matrix::new((2, 2));
    adj.set((0, 0), true);
    adj.set((1, 1), false);

    adj.set((0, 1), true);
    adj.set((1, 0), false);

    remove_back_edges(&mut adj);

    // this edge must have been disconnected
    assert!(!*adj.get((0, 0)));

    // this edge must still exist
    assert!(*adj.get((0, 1)));
}

#[test]
fn simple_topo() {
    let mut adj: AdjacencyMatrix = Matrix::new((3, 3));
    adj.set((0, 1), true);
    adj.set((1, 2), true);

    let res = topological_sort(&mut adj);
    assert!(res[0] == 0);
    assert!(res[1] == 1);
    assert!(res[2] == 2);
}

#[test]
fn interesting_topo() {
    let mut adj: AdjacencyMatrix = Matrix::new((5, 5));
    adj.set((0, 1), true);
    adj.set((0, 2), true);
    adj.set((0, 4), true);
    adj.set((1, 3), true);
    adj.set((2, 3), true);

    let res = topological_sort(&mut adj);
    println!("res: {:?}", res);

    // 0 should be the first element
    assert!(res[0] == 0);

    // 1, 2, and 4 should all be before 3 (but their ordering doesn't matter)
    let one = res.iter().position(|e| *e == 1).unwrap();
    let two = res.iter().position(|e| *e == 2).unwrap();
    let three = res.iter().position(|e| *e == 3).unwrap();
    let four = res.iter().position(|e| *e == 4).unwrap();

    assert!(one < three);
    assert!(two < three);
    assert!(four < three);
}

#[test]
fn topo_clears_rows_of_listed_nodes() {
    let mut adj: AdjacencyMatrix = Matrix::new((3, 3));
    adj.set((0, 1), true);
    adj.set((1, 2), true);
    let res = topological_sort(&mut adj);
    assert_eq!(res, vec![0, 1, 2]);
    for i in 0..3 {
        for j in 0..3 {
            assert!(!*adj.get((i, j)));
        }
    }
}

#[test]
fn topo_ties_by_index() {
    let adj_n = 4;
    let mut adj: AdjacencyMatrix = Matrix::new((adj_n, adj_n));
    adj.set((3, 0), true);
    let res = topological_sort(&mut adj);
    assert_eq!(res, vec![1, 2, 3, 0]);
}

#[test]
fn topo_leaves_out_cycle() {
    let mut adj: AdjacencyMatrix = Matrix::new((3, 3));
    adj.set((1, 2), true);
    adj.set((2, 1), true);
    let res = topological_sort(&mut adj);
    assert_eq!(res, vec![0]);
}

#[test]
fn topo_empty_graph() {
    let mut adj: AdjacencyMatrix = Matrix::new((0, 0));
    let res = topological_sort(&mut adj);
    assert!(res.is_empty());
    remove_back_edges(&mut adj);
}

#[test]
fn back_edge_removal_keeps_forward_edges_of_diamond() {
    let mut adj: AdjacencyMatrix = Matrix::new((4, 4));
    adj.set((0, 1), true);
    adj.set((0, 2), true);
    adj.set((1, 3), true);
    adj.set((2, 3), true);
    remove_back_edges(&mut adj);
    assert!(*adj.get((0, 1)) && *adj.get((0, 2)) && *adj.get((1, 3)) && *adj.get((2, 3)));
}

#[test]
fn back_edge_removal_removes_cross_edge_to_visited() {
    // 0 -> 1, 0 -> 2, 2 -> 1: node 1 is visited before node 2, so 2 -> 1 goes
    let mut adj: AdjacencyMatrix = Matrix::new((3, 3));
    adj.set((0, 1), true);
    adj.set((0, 2), true);
    adj.set((2, 1), true);
    remove_back_edges(&mut adj);
    assert!(*adj.get((0, 1)) && *adj.get((0, 2)));
    assert!(!*adj.get((2, 1)));
}

#[test]
fn back_edge_removal_leaves_unreached_nodes() {
    let mut adj: AdjacencyMatrix = Matrix::new((3, 3));
    adj.set((1, 2), true);
    adj.set((2, 1), true);
    remove_back_edges(&mut adj);
    assert!(*adj.get((1, 2)) && *adj.get((2, 1)));
}

fn position(order: &[usize], k: usize) -> usize {
    order.iter().position(|e| *e == k).unwrap()
}

#[test]
fn schedule_is_permutation_with_surviving_edges_forward() {
    // a feedback loop 1 -> 2 -> 1 behind node 0, and node 3 fed by 2
    let mut adj: AdjacencyMatrix = Matrix::new((4, 4));
    adj.set((0, 1), true);
    adj.set((1, 2), true);
    adj.set((2, 1), true);
    adj.set((2, 3), true);
    let order = schedule(&mut adj);
    let mut sorted = order.clone();
    sorted.sort();
    assert_eq!(sorted, vec![0, 1, 2, 3]);
    assert!(position(&order, 0) < position(&order, 1));
    assert!(position(&order, 1) < position(&order, 2));
    assert!(position(&order, 2) < position(&order, 3));
}

#[test]
fn back_edge_removal_leaves_acyclic_graph() {
    // every pair of distinct nodes connected both ways, plus self loops
    let n = 4;
    let mut adj: AdjacencyMatrix = Matrix::new((n, n));
    for i in 0..n {
        for j in 0..n {
            adj.set((i, j), true);
        }
    }
    remove_back_edges(&mut adj);
    for i in 0..n {
        assert!(!*adj.get((i, i)));
        for j in 0..n {
            assert!(!(*adj.get((i, j)) && *adj.get((j, i))));
        }
    }
    let order = topological_sort(&mut adj);
    assert_eq!(order.len(), n);
}
