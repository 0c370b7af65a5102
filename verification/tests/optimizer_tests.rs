use cuda_prim::graph::Graph;
use cuda_prim::ops::Op;
use cuda_prim::optim::CudaPrimitiveOptimizer;
use cuda_prim::shape::{ShapeTracker, TensorView};

fn view(dims: Vec<usize>) -> TensorView {
    TensorView { tensor_id: 0, shape: ShapeTracker::new(dims).unwrap() }
}

fn all_edges(g: &Graph) -> Vec<(usize, usize, u8)> {
    let mut edges = Vec::new();
    for id in g.node_ids() {
        for (_, dst, w) in g.outgoing(id) {
            edges.push((id, dst, w));
        }
    }
    edges
}

fn is_copy(op: Op) -> bool {
    matches!(op, Op::CudaCopyToDevice | Op::CudaCopyFromDevice)
}

fn is_cuda_compute(op: Op) -> bool {
    matches!(
        op,
        Op::CudaLog2
            | Op::CudaExp2
            | Op::CudaSin
            | Op::CudaSqrt
            | Op::CudaRecip
            | Op::CudaAdd
            | Op::CudaMul
            | Op::CudaMax
            | Op::CudaMod
            | Op::CudaSumReduce(_)
            | Op::CudaMaxReduce(_)
    )
}

/// `F -> {Log2, Sin}`, both retrieved.
fn multi_consumer_graph() -> (Graph, usize, usize, usize) {
    let mut g = Graph::new();
    let f = g.add_node(Op::Function, view(vec![2]));
    let l = g.add_node(Op::Log2, view(vec![2]));
    let s = g.add_node(Op::Sin, view(vec![2]));
    g.add_edge(f, l, 0);
    g.add_edge(f, s, 0);
    g.mark_retrieve(l);
    g.mark_retrieve(s);
    (g, f, l, s)
}

#[test]
fn multi_consumer_rewire_shares_one_copy() {
    let (mut g, f, l, s) = multi_consumer_graph();
    CudaPrimitiveOptimizer.optimize(&mut g);

    // The Function node has exactly one outgoing edge, to a copy-to node.
    let f_out = g.outgoing(f);
    assert_eq!(f_out.len(), 1);
    let c = f_out[0].1;
    assert_eq!(g.node_op(c).unwrap(), Op::CudaCopyToDevice);

    // Both former consumers now read from that single copy node, under
    // their original identities.
    let mut c_targets: Vec<usize> = g.outgoing(c).iter().map(|e| e.1).collect();
    c_targets.sort();
    let mut expected = vec![l, s];
    expected.sort();
    assert_eq!(c_targets, expected);

    // Substitution kept node identities and replaced the operators.
    assert_eq!(g.node_op(l).unwrap(), Op::CudaLog2);
    assert_eq!(g.node_op(s).unwrap(), Op::CudaSin);

    // Exactly one copy-to and two copy-from nodes were inserted.
    let ids = g.node_ids();
    let copy_to = ids.iter().filter(|&&n| g.node_op(n).unwrap() == Op::CudaCopyToDevice).count();
    let copy_from =
        ids.iter().filter(|&&n| g.node_op(n).unwrap() == Op::CudaCopyFromDevice).count();
    assert_eq!(copy_to, 1);
    assert_eq!(copy_from, 2);

    // Both retrieved nodes are device-to-host copies fed by the computes.
    let rets = g.retrieve_ids();
    assert_eq!(rets.len(), 2);
    for r in &rets {
        assert_eq!(g.node_op(*r).unwrap(), Op::CudaCopyFromDevice);
        let feeder = all_edges(&g).iter().find(|e| e.1 == *r).unwrap().0;
        assert!(feeder == l || feeder == s);
    }
}

#[test]
fn topology_change_is_exactly_the_inserted_copies() {
    let (mut g, _, _, _) = multi_consumer_graph();
    let nodes_before = g.node_ids().len();
    let edges_before = all_edges(&g).len();
    CudaPrimitiveOptimizer.optimize(&mut g);
    // One copy-to plus two copy-from nodes.
    assert_eq!(g.node_ids().len(), nodes_before + 3);
    // f->c, c->{l,s} replace f->{l,s}; {l,s}->{d1,d2} are added.
    assert_eq!(all_edges(&g).len(), edges_before + 3);
}

#[test]
fn every_compute_predecessor_is_device_resident() {
    let (mut g, _, _, _) = multi_consumer_graph();
    CudaPrimitiveOptimizer.optimize(&mut g);
    for (src, dst, _) in all_edges(&g) {
        let dst_op = g.node_op(dst).unwrap();
        if dst_op != Op::Function && !is_copy(dst_op) {
            let src_op = g.node_op(src).unwrap();
            assert!(is_cuda_compute(src_op) || src_op == Op::CudaCopyToDevice);
        }
    }
}

#[test]
fn second_optimize_run_is_identity() {
    let (mut g, _, _, _) = multi_consumer_graph();
    CudaPrimitiveOptimizer.optimize(&mut g);
    let mut nodes_once: Vec<(usize, Op)> =
        g.node_ids().iter().map(|&n| (n, g.node_op(n).unwrap())).collect();
    nodes_once.sort_by_key(|p| p.0);
    let mut edges_once = all_edges(&g);
    edges_once.sort();
    let mut rets_once = g.retrieve_ids();
    rets_once.sort();

    CudaPrimitiveOptimizer.optimize(&mut g);
    let mut nodes_twice: Vec<(usize, Op)> =
        g.node_ids().iter().map(|&n| (n, g.node_op(n).unwrap())).collect();
    nodes_twice.sort_by_key(|p| p.0);
    let mut edges_twice = all_edges(&g);
    edges_twice.sort();
    let mut rets_twice = g.retrieve_ids();
    rets_twice.sort();

    assert_eq!(nodes_once, nodes_twice);
    assert_eq!(edges_once, edges_twice);
    assert_eq!(rets_once, rets_twice);
}

#[test]
fn retrieved_function_keeps_both_entries() {
    // A retrieved Function keeps its own retrieval entry and the copy
    // node gains one; the copy node is then forced through a
    // device-to-host copy.
    let mut g = Graph::new();
    let f = g.add_node(Op::Function, view(vec![2]));
    g.mark_retrieve(f);
    CudaPrimitiveOptimizer.optimize(&mut g);
    let rets = g.retrieve_ids();
    assert_eq!(rets.len(), 2);
    assert!(rets.contains(&f));
    let other = *rets.iter().find(|&&n| n != f).unwrap();
    assert_eq!(g.node_op(other).unwrap(), Op::CudaCopyFromDevice);
}

#[test]
fn substitution_extracts_reduce_dims() {
    let mut g = Graph::new();
    let f = g.add_node(Op::Function, view(vec![2, 3]));
    let r = g.add_node(Op::SumReduce(1), view(vec![2]));
    let m = g.add_node(Op::MaxReduce(0), view(vec![3]));
    g.add_edge(f, r, 0);
    g.add_edge(f, m, 0);
    CudaPrimitiveOptimizer.optimize(&mut g);
    assert_eq!(g.node_op(r).unwrap(), Op::CudaSumReduce(1));
    assert_eq!(g.node_op(m).unwrap(), Op::CudaMaxReduce(0));
    assert_eq!(g.node_op(f).unwrap(), Op::Function);
}

#[test]
fn move_references_transfers_membership() {
    let mut g = Graph::new();
    let a = g.add_node(Op::Function, view(vec![1]));
    let b = g.add_node(Op::Log2, view(vec![1]));
    g.mark_retrieve(a);
    g.move_references(a, b);
    let rets = g.retrieve_ids();
    assert_eq!(rets, vec![b]);
}
