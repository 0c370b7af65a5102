use cuda_prim::ops::{CudaAdd, CudaLog2, CudaMaxReduce, CudaMod, CudaSumReduce};
use cuda_prim::shape::{ShapeTracker, TensorView};

fn view(dims: Vec<usize>) -> TensorView {
    TensorView { tensor_id: 0, shape: ShapeTracker::new(dims).unwrap() }
}

#[test]
fn op_names_match_the_substitution_table() {
    assert_eq!(CudaLog2.name(), "CudaLog2");
    assert_eq!(CudaAdd.name(), "CudaAdd");
    assert_eq!(CudaSumReduce(0).name(), "CudaSumReduce");
    assert_eq!(CudaMaxReduce(0).name(), "CudaMaxReduce");
}

#[test]
fn unary_plan_covers_logical_elements() {
    let inp = view(vec![2, 3, 4]);
    let p = CudaLog2.plan(&inp, 7);
    assert_eq!(p.numel, 24);
    assert_eq!(p.module_name, "log2");
    assert_eq!(p.kernel_name, "log2_kernel");
    assert_eq!(p.view.tensor_id, 7);
    assert_eq!(p.view.shape.shape(), vec![2, 3, 4]);
    assert_eq!(
        p.source,
        "\nextern \"C\" __global__ void log2_kernel(float *out, const float *inp, int numel) {\n    int i = blockIdx.x * blockDim.x + threadIdx.x;\n    if (i < numel) {\n        out[i] = log2(inp[i]);\n    }\n}"
    );
}

#[test]
fn binary_plan_resolves_broadcast_shape() {
    // Output length equals the product of the broadcast-resolved shape.
    let a = view(vec![2, 1, 4]);
    let b = view(vec![1, 3, 4]);
    let p = CudaAdd.plan(&a, &b, 9);
    assert_eq!(p.view.shape.shape(), vec![2, 3, 4]);
    assert_eq!(p.numel, 24);
    assert_eq!(p.view.tensor_id, 9);
}

#[test]
fn binary_plan_embeds_both_index_expressions() {
    let a = view(vec![2, 3]);
    let bt = ShapeTracker::new_broadcast(vec![2, 3], vec![true, false]).unwrap();
    let b = TensorView { tensor_id: 1, shape: bt };
    let p = CudaAdd.plan(&a, &b, 2);
    let a_idx = a.shape.index_fn_node().to_string_no_range();
    let b_idx = b.shape.index_fn_node().to_string_no_range();
    let expected = format!(
        "\nextern \"C\" __global__ void add_kernel(float *out, const float *a, const float *b, int numel) {{\n    int idx = blockIdx.x * blockDim.x + threadIdx.x;\n    int a_idx = {a_idx};\n    int b_idx = {b_idx};\n    if (idx < numel) {{\n        out[idx] = a[a_idx] + b[b_idx];\n    }}\n}}"
    );
    assert_eq!(p.source, expected);
}

#[test]
fn mod_plan_uses_fmod() {
    let a = view(vec![3]);
    let b = view(vec![3]);
    let p = CudaMod.plan(&a, &b, 4);
    assert!(p.source.contains("out[idx] = fmod(a[a_idx], b[b_idx]);"));
    assert_eq!(p.module_name, "mod");
}

#[test]
fn sum_reduce_plan_removes_the_dimension() {
    // shape [2,3,4], reduce dim 1: front 2, dim 3, back 4, output [2,4].
    let inp = view(vec![2, 3, 4]);
    let p = CudaSumReduce(1).plan(&inp, 5);
    assert_eq!(p.front_size, 2);
    assert_eq!(p.dim_size, 3);
    assert_eq!(p.back_size, 4);
    assert_eq!(p.view.shape.shape(), vec![2, 4]);
    assert_eq!(p.numel, 8);
    assert!(p.source.contains("reduce_value += inp[a_idx];"));
    assert!(p.source.contains("float reduce_value = 0.0;"));
}

#[test]
fn max_reduce_plan_starts_at_negative_infinity() {
    let inp = view(vec![2]);
    let p = CudaMaxReduce(0).plan(&inp, 5);
    assert_eq!(p.front_size, 1);
    assert_eq!(p.dim_size, 2);
    assert_eq!(p.back_size, 1);
    assert_eq!(p.view.shape.shape(), Vec::<usize>::new());
    assert_eq!(p.numel, 1);
    assert!(p.source.contains("float reduce_value = -__int_as_float(0x7f800000);"));
    assert!(p.source.contains("reduce_value = max(reduce_value, inp[a_idx]);"));
}
