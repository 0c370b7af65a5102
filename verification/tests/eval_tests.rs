use std::collections::HashMap;

use cuda_prim::graph::Graph;
use cuda_prim::ops::{
    CudaAdd, CudaCopyFromDevice, CudaCopyToDevice, CudaExp2, CudaLog2, CudaMax, CudaMaxReduce,
    CudaMod, CudaMul, CudaRecip, CudaSin, CudaSqrt, CudaSumReduce, Op,
};
use cuda_prim::optim::CudaPrimitiveOptimizer;
use cuda_prim::shape::{ShapeTracker, TensorView};

fn view(dims: Vec<usize>) -> TensorView {
    TensorView { tensor_id: 0, shape: ShapeTracker::new(dims).unwrap() }
}

fn bview(dims: Vec<usize>, fake: Vec<bool>) -> TensorView {
    TensorView { tensor_id: 0, shape: ShapeTracker::new_broadcast(dims, fake).unwrap() }
}

/// Run an optimized graph on the host, mirroring each CUDA kernel's
/// arithmetic while taking every shape, size and index mapping from the
/// library's verified planners.
fn run(g: &Graph, inputs: &HashMap<usize, Vec<f32>>) -> HashMap<usize, (Vec<f32>, TensorView)> {
    let ids = g.node_ids();
    let mut incoming: HashMap<usize, Vec<(usize, u8)>> = HashMap::new();
    for &id in &ids {
        incoming.entry(id).or_default();
    }
    for &id in &ids {
        for (_, dst, w) in g.outgoing(id) {
            incoming.entry(dst).or_default().push((id, w));
        }
    }
    for srcs in incoming.values_mut() {
        srcs.sort_by_key(|&(_, w)| w);
    }
    let mut done: HashMap<usize, (Vec<f32>, TensorView)> = HashMap::new();
    let mut remaining: Vec<usize> = ids.clone();
    while !remaining.is_empty() {
        let pos = remaining
            .iter()
            .position(|&n| incoming[&n].iter().all(|&(s, _)| done.contains_key(&s)))
            .expect("graph has a cycle");
        let id = remaining.remove(pos);
        let args: Vec<(Vec<f32>, TensorView)> =
            incoming[&id].iter().map(|&(s, _)| done[&s].clone()).collect();
        let op = g.node_op(id).unwrap();
        let out = eval_node(op, id, g.node_view(id).unwrap(), &args, inputs);
        done.insert(id, out);
    }
    done
}

fn eval_node(
    op: Op,
    id: usize,
    own_view: TensorView,
    args: &[(Vec<f32>, TensorView)],
    inputs: &HashMap<usize, Vec<f32>>,
) -> (Vec<f32>, TensorView) {
    match op {
        Op::Function => (inputs[&id].clone(), own_view),
        Op::CudaCopyToDevice => {
            (args[0].0.clone(), CudaCopyToDevice.output_view(&args[0].1, id))
        }
        Op::CudaCopyFromDevice => {
            (args[0].0.clone(), CudaCopyFromDevice.output_view(&args[0].1, id))
        }
        Op::CudaLog2 => unary(|x| x.log2(), CudaLog2.plan(&args[0].1, id), &args[0].0),
        Op::CudaExp2 => unary(|x| x.exp2(), CudaExp2.plan(&args[0].1, id), &args[0].0),
        Op::CudaSin => unary(|x| x.sin(), CudaSin.plan(&args[0].1, id), &args[0].0),
        Op::CudaSqrt => unary(|x| x.sqrt(), CudaSqrt.plan(&args[0].1, id), &args[0].0),
        Op::CudaRecip => unary(|x| 1.0 / x, CudaRecip.plan(&args[0].1, id), &args[0].0),
        Op::CudaAdd => binary(|x, y| x + y, CudaAdd.plan(&args[0].1, &args[1].1, id), args),
        Op::CudaMul => binary(|x, y| x * y, CudaMul.plan(&args[0].1, &args[1].1, id), args),
        Op::CudaMax => binary(|x, y| x.max(y), CudaMax.plan(&args[0].1, &args[1].1, id), args),
        Op::CudaMod => binary(|x, y| x % y, CudaMod.plan(&args[0].1, &args[1].1, id), args),
        Op::CudaSumReduce(d) => {
            reduce(0.0, |acc, x| acc + x, CudaSumReduce(d).plan(&args[0].1, id), args)
        }
        Op::CudaMaxReduce(d) => reduce(
            f32::NEG_INFINITY,
            |acc, x| acc.max(x),
            CudaMaxReduce(d).plan(&args[0].1, id),
            args,
        ),
        other => panic!("host primitive left after optimization: {other:?}"),
    }
}

fn unary(
    f: impl Fn(f32) -> f32,
    plan: cuda_prim::ops::KernelPlan,
    data: &[f32],
) -> (Vec<f32>, TensorView) {
    let out: Vec<f32> = (0..plan.numel).map(|i| f(data[i])).collect();
    (out, plan.view)
}

fn binary(
    f: impl Fn(f32, f32) -> f32,
    plan: cuda_prim::ops::KernelPlan,
    args: &[(Vec<f32>, TensorView)],
) -> (Vec<f32>, TensorView) {
    let (a, av) = &args[0];
    let (b, bv) = &args[1];
    let out: Vec<f32> =
        (0..plan.numel).map(|i| f(a[av.shape.index_of(i)], b[bv.shape.index_of(i)])).collect();
    (out, plan.view)
}

fn reduce(
    init: f32,
    f: impl Fn(f32, f32) -> f32,
    plan: cuda_prim::ops::ReducePlan,
    args: &[(Vec<f32>, TensorView)],
) -> (Vec<f32>, TensorView) {
    let (data, iv) = &args[0];
    let mut out = Vec::with_capacity(plan.numel);
    for i in 0..plan.numel {
        let a = i / plan.back_size;
        let b = i % plan.back_size;
        let mut acc = init;
        for c in 0..plan.dim_size {
            let idx = a * plan.dim_size * plan.back_size + c * plan.back_size + b;
            acc = f(acc, data[iv.shape.index_of(idx)]);
        }
        out.push(acc);
    }
    (out, plan.view)
}

fn retrieved(g: &Graph, results: &HashMap<usize, (Vec<f32>, TensorView)>) -> Vec<Vec<f32>> {
    let mut rets = g.retrieve_ids();
    rets.sort();
    rets.iter().map(|n| results[n].0.clone()).collect()
}

#[test]
fn unary_pipeline_computes_log2() {
    let mut g = Graph::new();
    let f = g.add_node(Op::Function, view(vec![2]));
    let l = g.add_node(Op::Log2, view(vec![2]));
    g.add_edge(f, l, 0);
    g.mark_retrieve(l);
    CudaPrimitiveOptimizer.optimize(&mut g);
    let mut inputs = HashMap::new();
    inputs.insert(f, vec![4.0, 16.0]);
    let results = run(&g, &inputs);
    let outs = retrieved(&g, &results);
    assert_eq!(outs, vec![vec![2.0, 4.0]]);
}

#[test]
fn broadcast_add_follows_both_views() {
    let mut g = Graph::new();
    let f1 = g.add_node(Op::Function, view(vec![2, 3]));
    let f2 = g.add_node(Op::Function, bview(vec![2, 3], vec![true, false]));
    let a = g.add_node(Op::Add, view(vec![2, 3]));
    g.add_edge(f1, a, 0);
    g.add_edge(f2, a, 1);
    g.mark_retrieve(a);
    CudaPrimitiveOptimizer.optimize(&mut g);
    let mut inputs = HashMap::new();
    inputs.insert(f1, vec![1.0, 2.0, 3.0, 4.0, 5.0, 6.0]);
    inputs.insert(f2, vec![10.0, 20.0, 30.0]);
    let results = run(&g, &inputs);
    let outs = retrieved(&g, &results);
    assert_eq!(outs, vec![vec![11.0, 22.0, 33.0, 14.0, 25.0, 36.0]]);
    let out_id = g.retrieve_ids()[0];
    assert_eq!(results[&out_id].1.shape.shape(), vec![2, 3]);
}

#[test]
fn sum_reduce_collapses_the_middle_dimension() {
    let mut g = Graph::new();
    let f = g.add_node(Op::Function, view(vec![2, 3]));
    let r = g.add_node(Op::SumReduce(1), view(vec![2]));
    g.add_edge(f, r, 0);
    g.mark_retrieve(r);
    CudaPrimitiveOptimizer.optimize(&mut g);
    let mut inputs = HashMap::new();
    inputs.insert(f, vec![1.0, 2.0, 3.0, 4.0, 5.0, 6.0]);
    let results = run(&g, &inputs);
    let outs = retrieved(&g, &results);
    assert_eq!(outs, vec![vec![6.0, 15.0]]);
    let out_id = g.retrieve_ids()[0];
    assert_eq!(results[&out_id].1.shape.shape(), vec![2]);
}

#[test]
fn max_reduce_keeps_negative_infinity() {
    let mut g = Graph::new();
    let f = g.add_node(Op::Function, view(vec![2]));
    let r = g.add_node(Op::MaxReduce(0), view(vec![]));
    g.add_edge(f, r, 0);
    g.mark_retrieve(r);
    CudaPrimitiveOptimizer.optimize(&mut g);
    let mut inputs = HashMap::new();
    inputs.insert(f, vec![f32::NEG_INFINITY, f32::NEG_INFINITY]);
    let results = run(&g, &inputs);
    let outs = retrieved(&g, &results);
    assert_eq!(outs.len(), 1);
    assert_eq!(outs[0].len(), 1);
    assert_eq!(outs[0][0], f32::NEG_INFINITY);
    let out_id = g.retrieve_ids()[0];
    assert_eq!(results[&out_id].1.shape.shape(), Vec::<usize>::new());
}

#[test]
fn mod_by_one_keeps_the_fraction() {
    let mut g = Graph::new();
    let f1 = g.add_node(Op::Function, view(vec![3]));
    let f2 = g.add_node(Op::Function, bview(vec![3], vec![true]));
    let m = g.add_node(Op::Mod, view(vec![3]));
    g.add_edge(f1, m, 0);
    g.add_edge(f2, m, 1);
    g.mark_retrieve(m);
    CudaPrimitiveOptimizer.optimize(&mut g);
    let mut inputs = HashMap::new();
    inputs.insert(f1, vec![1.5, 2.0, 2.5]);
    inputs.insert(f2, vec![1.0]);
    let results = run(&g, &inputs);
    let outs = retrieved(&g, &results);
    assert_eq!(outs, vec![vec![0.5, 0.0, 0.5]]);
}

#[test]
fn transfer_round_trip_is_bit_exact() {
    // Host -> device -> host through the two copy ops is the identity on
    // the buffer, bit for bit.
    let mut g = Graph::new();
    let f = g.add_node(Op::Function, view(vec![4]));
    let up = g.add_node(Op::CudaCopyToDevice, view(vec![4]));
    let down = g.add_node(Op::CudaCopyFromDevice, view(vec![4]));
    g.add_edge(f, up, 0);
    g.add_edge(up, down, 0);
    g.mark_retrieve(down);
    let data = vec![1.5f32, -0.0, f32::NAN, f32::MIN_POSITIVE];
    let mut inputs = HashMap::new();
    inputs.insert(f, data.clone());
    let results = run(&g, &inputs);
    let out = &results[&down].0;
    let out_bits: Vec<u32> = out.iter().map(|x| x.to_bits()).collect();
    let in_bits: Vec<u32> = data.iter().map(|x| x.to_bits()).collect();
    assert_eq!(out_bits, in_bits);
}

#[test]
fn remaining_unary_ops_match_host_semantics() {
    // F -> Sqrt -> Exp2 -> Recip -> Sin chain; every op runs on the
    // device side of the rewritten graph.
    let mut g = Graph::new();
    let f = g.add_node(Op::Function, view(vec![2]));
    let sq = g.add_node(Op::Sqrt, view(vec![2]));
    let ex = g.add_node(Op::Exp2, view(vec![2]));
    let rc = g.add_node(Op::Recip, view(vec![2]));
    let sn = g.add_node(Op::Sin, view(vec![2]));
    g.add_edge(f, sq, 0);
    g.add_edge(sq, ex, 0);
    g.add_edge(ex, rc, 0);
    g.add_edge(rc, sn, 0);
    g.mark_retrieve(sn);
    CudaPrimitiveOptimizer.optimize(&mut g);
    let mut inputs = HashMap::new();
    inputs.insert(f, vec![4.0, 16.0]);
    let results = run(&g, &inputs);
    let outs = retrieved(&g, &results);
    let expect: Vec<f32> =
        vec![4.0f32, 16.0].iter().map(|x| (1.0 / x.sqrt().exp2()).sin()).collect();
    assert_eq!(outs, vec![expect]);
}

#[test]
fn mul_and_max_follow_broadcast_views() {
    let mut g = Graph::new();
    let f1 = g.add_node(Op::Function, view(vec![3]));
    let f2 = g.add_node(Op::Function, bview(vec![3], vec![true]));
    let m = g.add_node(Op::Mul, view(vec![3]));
    let x = g.add_node(Op::Max, view(vec![3]));
    g.add_edge(f1, m, 0);
    g.add_edge(f2, m, 1);
    g.add_edge(f1, x, 0);
    g.add_edge(f2, x, 1);
    g.mark_retrieve(m);
    g.mark_retrieve(x);
    CudaPrimitiveOptimizer.optimize(&mut g);
    let mut inputs = HashMap::new();
    inputs.insert(f1, vec![1.0, -2.0, 3.0]);
    inputs.insert(f2, vec![2.0]);
    let results = run(&g, &inputs);
    let mut rets = g.retrieve_ids();
    rets.sort();
    let got: Vec<Vec<f32>> = rets.iter().map(|n| results[n].0.clone()).collect();
    assert!(got.contains(&vec![2.0, -4.0, 6.0]));
    assert!(got.contains(&vec![2.0, 2.0, 3.0]));
}
