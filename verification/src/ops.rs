//! The closed set of primitive operators: host primitives as the front
//! end emits them, their CUDA counterparts, and the two transfer ops.
//! The rewrite pass dispatches on this enumeration; parameter extraction
//! (a reduction dimension) is pattern matching.

use vstd::prelude::*;
use vstd::string::StringExecFns;
use crate::shape::{
    all_pos, expr_chars, prod, range_prod, shape_expr, IndexExpr, ShapeTracker, TensorView,
    lemma_range_prod_split, lemma_range_prod_pos, lemma_range_prod_congruent, lemma_suffix_is_range,
};

verus! {

/// Tag of a graph node's operator.  `Function` is the distinguished
/// input-producing op; `SumReduce`/`MaxReduce` carry the dimension to
/// collapse.
#[derive(Clone, Copy, PartialEq, Eq, Structural, Debug)]
pub enum Op {
    Function,
    Log2,
    Exp2,
    Sin,
    Sqrt,
    Recip,
    Add,
    Mul,
    Max,
    Mod,
    SumReduce(usize),
    MaxReduce(usize),
    CudaCopyToDevice,
    CudaCopyFromDevice,
    CudaLog2,
    CudaExp2,
    CudaSin,
    CudaSqrt,
    CudaRecip,
    CudaAdd,
    CudaMul,
    CudaMax,
    CudaMod,
    CudaSumReduce(usize),
    CudaMaxReduce(usize),
}

/// The substitution table of the rewrite pass: each host primitive maps
/// to its CUDA counterpart; everything else is left unchanged.
pub open spec fn spec_subst(op: Op) -> Op {
    match op {
        Op::Log2 => Op::CudaLog2,
        Op::Exp2 => Op::CudaExp2,
        Op::Sin => Op::CudaSin,
        Op::Sqrt => Op::CudaSqrt,
        Op::Recip => Op::CudaRecip,
        Op::Add => Op::CudaAdd,
        Op::Mul => Op::CudaMul,
        Op::Max => Op::CudaMax,
        Op::Mod => Op::CudaMod,
        Op::SumReduce(d) => Op::CudaSumReduce(d),
        Op::MaxReduce(d) => Op::CudaMaxReduce(d),
        _ => op,
    }
}

/// The distinguished graph-input operator.
pub open spec fn is_function(op: Op) -> bool {
    op == Op::Function
}

pub open spec fn is_copy_to(op: Op) -> bool {
    op == Op::CudaCopyToDevice
}

pub open spec fn is_copy_from(op: Op) -> bool {
    op == Op::CudaCopyFromDevice
}

/// Either transfer operator.
pub open spec fn is_copy(op: Op) -> bool {
    is_copy_to(op) || is_copy_from(op)
}

/// A compute-producing CUDA operator.
pub open spec fn is_cuda_compute(op: Op) -> bool {
    match op {
        Op::CudaLog2 | Op::CudaExp2 | Op::CudaSin | Op::CudaSqrt | Op::CudaRecip | Op::CudaAdd
            | Op::CudaMul | Op::CudaMax | Op::CudaMod => true,
        Op::CudaSumReduce(_) | Op::CudaMaxReduce(_) => true,
        _ => false,
    }
}

/// A host compute primitive: substituted by the rewrite pass.
pub open spec fn is_host_compute(op: Op) -> bool {
    match op {
        Op::Log2 | Op::Exp2 | Op::Sin | Op::Sqrt | Op::Recip | Op::Add | Op::Mul | Op::Max
            | Op::Mod => true,
        Op::SumReduce(_) | Op::MaxReduce(_) => true,
        _ => false,
    }
}

/// Executable form of `spec_subst`.
pub fn subst_op(op: Op) -> (r: Op)
    ensures
        r == spec_subst(op),
{
    match op {
        Op::Log2 => Op::CudaLog2,
        Op::Exp2 => Op::CudaExp2,
        Op::Sin => Op::CudaSin,
        Op::Sqrt => Op::CudaSqrt,
        Op::Recip => Op::CudaRecip,
        Op::Add => Op::CudaAdd,
        Op::Mul => Op::CudaMul,
        Op::Max => Op::CudaMax,
        Op::Mod => Op::CudaMod,
        Op::SumReduce(d) => Op::CudaSumReduce(d),
        Op::MaxReduce(d) => Op::CudaMaxReduce(d),
        _ => op,
    }
}

/// True exactly on the operators the substitution changes.
pub fn is_substituted(op: Op) -> (r: bool)
    ensures
        r == is_host_compute(op),
        !r ==> spec_subst(op) == op,
{
    match op {
        Op::Log2 | Op::Exp2 | Op::Sin | Op::Sqrt | Op::Recip | Op::Add | Op::Mul | Op::Max
            | Op::Mod => true,
        Op::SumReduce(_) | Op::MaxReduce(_) => true,
        _ => false,
    }
}

/// Element-wise maximum of two equal-rank shapes: the broadcast result.
pub open spec fn bmax_dims(a: Seq<usize>, b: Seq<usize>) -> Seq<usize> {
    Seq::new(a.len(), |i: int| if b[i] > a[i] { b[i] } else { a[i] })
}

/// A compiled-kernel launch recipe for an element-wise op: the generated
/// source, the module and kernel names, the thread count, and the view of
/// the produced tensor.
#[derive(Debug)]
pub struct KernelPlan {
    pub source: String,
    pub module_name: String,
    pub kernel_name: String,
    pub numel: usize,
    pub view: TensorView,
}

/// A launch recipe for a reduction: additionally the flattened
/// `front x dim x back` decomposition of the input.
#[derive(Debug)]
pub struct ReducePlan {
    pub source: String,
    pub module_name: String,
    pub kernel_name: String,
    pub front_size: usize,
    pub back_size: usize,
    pub dim_size: usize,
    pub numel: usize,
    pub view: TensorView,
}

/// The view a transfer or unary op hands on: the input's shape under the
/// producing node's identity.
fn carry_view(inp: &TensorView, node: usize) -> (v: TensorView)
    ensures
        v.tensor_id == node,
        v.shape.dims@ == inp.shape.dims@,
        v.shape.fake@ == inp.shape.fake@,
{
    TensorView { tensor_id: node, shape: inp.shape.clone() }
}

/// Logical element count of a shape known to be well-formed.
fn numel_of(dims: &Vec<usize>) -> (r: usize)
    requires
        all_pos(dims@),
        prod(dims@) <= usize::MAX,
    ensures
        r == prod(dims@),
{
    match ShapeTracker::checked_product(dims) {
        Some(n) => n,
        None => {
            proof {
                assert(false);
            }
            0
        },
    }
}

/// Source of a binary kernel: the op's prologue, the two spliced index
/// expressions, and the op's epilogue.
pub open spec fn binary_source_chars(
    prefix: Seq<char>,
    a_idx: Seq<char>,
    b_idx: Seq<char>,
    tail: Seq<char>,
) -> Seq<char> {
    prefix + a_idx + ";\n    int b_idx = "@ + b_idx + tail
}

fn build_binary_source(
    prefix: &'static str,
    tail: &'static str,
    a: &IndexExpr,
    b: &IndexExpr,
) -> (r: String)
    ensures
        r@ == binary_source_chars(prefix@, expr_chars(*a), expr_chars(*b), tail@),
{
    let mut s = String::new();
    s.append(prefix);
    a.push_source(&mut s);
    s.append(";\n    int b_idx = ");
    b.push_source(&mut s);
    s.append(tail);
    proof {
        assert(s@ =~= binary_source_chars(prefix@, expr_chars(*a), expr_chars(*b), tail@));
    }
    s
}

/// Source of a reduction kernel: prologue, spliced input index
/// expression, epilogue.
pub open spec fn reduce_source_chars(prefix: Seq<char>, inp_idx: Seq<char>, tail: Seq<char>) -> Seq<
    char,
> {
    prefix + inp_idx + tail
}

fn build_reduce_source(prefix: &'static str, tail: &'static str, e: &IndexExpr) -> (r: String)
    ensures
        r@ == reduce_source_chars(prefix@, expr_chars(*e), tail@),
{
    let mut s = String::new();
    s.append(prefix);
    e.push_source(&mut s);
    s.append(tail);
    proof {
        assert(s@ =~= reduce_source_chars(prefix@, expr_chars(*e), tail@));
    }
    s
}

/// The broadcast-resolved output of a binary op: shape, element count and
/// fresh contiguous view.  Shared by the four binary planners.
fn binary_output(a: &TensorView, b: &TensorView, node: usize) -> (r: (usize, TensorView))
    requires
        a.shape.wf(),
        b.shape.wf(),
        b.shape.dims@.len() == a.shape.dims@.len(),
        prod(bmax_dims(a.shape.dims@, b.shape.dims@)) <= usize::MAX,
    ensures
        r.0 == prod(bmax_dims(a.shape.dims@, b.shape.dims@)),
        r.1.tensor_id == node,
        r.1.shape.wf(),
        r.1.shape.dims@ == bmax_dims(a.shape.dims@, b.shape.dims@),
        forall|i: int| 0 <= i < r.1.shape.fake@.len() ==> !r.1.shape.fake@[i],
{
    let mut peers: Vec<ShapeTracker> = Vec::new();
    peers.push(b.shape.clone());
    let rs = a.shape.get_real_shape(&peers);
    proof {
        assert forall|i: int| 0 <= i < rs@.len() implies rs@[i] == bmax_dims(
            a.shape.dims@,
            b.shape.dims@,
        )[i] by {
            assert(peers@[0].dims@ == b.shape.dims@);
            if rs@[i] == a.shape.dims@[i] {
                assert(rs@[i] >= peers@[0].dims@[i]);
            } else {
                let p = choose|p: int| 0 <= p < peers@.len() && rs@[i] == peers@[p].dims@[i];
                assert(p == 0);
                assert(rs@[i] >= a.shape.dims@[i]);
            }
        }
        assert(rs@ =~= bmax_dims(a.shape.dims@, b.shape.dims@));
        assert(all_pos(rs@));
    }
    let numel = numel_of(&rs);
    let view = match ShapeTracker::new(rs) {
        Some(t) => TensorView { tensor_id: node, shape: t },
        None => {
            proof {
                assert(false);
            }
            TensorView { tensor_id: node, shape: ShapeTracker { dims: Vec::new(), fake: Vec::new() } }
        },
    };
    (numel, view)
}

/// Product of `dims[lo..hi]`, for the reduction decomposition.
fn segment_product(dims: &Vec<usize>, lo: usize, hi: usize) -> (r: usize)
    requires
        lo <= hi,
        hi <= dims@.len(),
        all_pos(dims@),
        prod(dims@) <= usize::MAX,
    ensures
        r == range_prod(dims@, lo as int, hi as int),
{
    let ghost ds = dims@;
    let n = dims.len();
    let mut acc: usize = 1;
    let mut j: usize = hi;
    proof {
        lemma_range_prod_pos(ds, hi as int, hi as int);
    }
    while j > lo
        invariant
            lo <= j <= hi,
            hi <= ds.len(),
            ds == dims@,
            all_pos(ds),
            prod(ds) <= usize::MAX,
            acc == range_prod(ds, j as int, hi as int),
        decreases j,
    {
        j -= 1;
        let ghost jj = j as int;
        proof {
            lemma_range_prod_pos(ds, jj + 1, hi as int);
            lemma_range_prod_pos(ds, jj, hi as int);
            lemma_suffix_is_range(ds, 0);
            lemma_range_prod_split(ds, 0, jj, ds.len() as int);
            lemma_range_prod_split(ds, jj, hi as int, ds.len() as int);
            lemma_range_prod_pos(ds, 0, jj);
            lemma_range_prod_pos(ds, hi as int, ds.len() as int);
            assert(range_prod(ds, jj, hi as int) == ds[jj] * range_prod(ds, jj + 1, hi as int));
            assert(range_prod(ds, jj, hi as int) <= prod(ds)) by (nonlinear_arith)
                requires
                    prod(ds) == range_prod(ds, 0, jj) * (range_prod(ds, jj, hi as int) * range_prod(
                        ds,
                        hi as int,
                        ds.len() as int,
                    )),
                    range_prod(ds, 0, jj) >= 1,
                    range_prod(ds, hi as int, ds.len() as int) >= 1,
                    range_prod(ds, jj, hi as int) >= 1,
            ;
        }
        acc = dims[j] * acc;
    }
    acc
}

/// Copy a tensor to the GPU.  Identity on shape; the view is propagated
/// verbatim under the copy node's identity.
#[derive(Debug)]
pub struct CudaCopyToDevice;

impl CudaCopyToDevice {
    pub fn name(&self) -> (r: &'static str)
        ensures
            r@ == "CudaCopyToDevice"@,
    {
        "CudaCopyToDevice"
    }

    /// The view of the copied tensor: unchanged shape, produced by `node`.
    pub fn output_view(&self, inp: &TensorView, node: usize) -> (v: TensorView)
        ensures
            v.tensor_id == node,
            v.shape.dims@ == inp.shape.dims@,
            v.shape.fake@ == inp.shape.fake@,
    {
        carry_view(inp, node)
    }
}

/// Copy a tensor from the GPU.  Identity on shape; the view is propagated
/// verbatim under the copy node's identity.
#[derive(Debug)]
pub struct CudaCopyFromDevice;

impl CudaCopyFromDevice {
    pub fn name(&self) -> (r: &'static str)
        ensures
            r@ == "CudaCopyFromDevice"@,
    {
        "CudaCopyFromDevice"
    }

    /// The view of the copied tensor: unchanged shape, produced by `node`.
    pub fn output_view(&self, inp: &TensorView, node: usize) -> (v: TensorView)
        ensures
            v.tensor_id == node,
            v.shape.dims@ == inp.shape.dims@,
            v.shape.fake@ == inp.shape.fake@,
    {
        carry_view(inp, node)
    }
}

/// Element-wise CUDA Log2.
#[derive(Debug, Clone)]
pub struct CudaLog2;

pub open spec fn log2_source_chars() -> Seq<char> {
    "\nextern \"C\" __global__ void log2_kernel(float *out, const float *inp, int numel) {\n    int i = blockIdx.x * blockDim.x + threadIdx.x;\n    if (i < numel) {\n        out[i] = log2(inp[i]);\n    }\n}"@
}

impl CudaLog2 {
    pub fn name(&self) -> (r: &'static str)
        ensures
            r@ == "CudaLog2"@,
    {
        "CudaLog2"
    }

    /// One thread per logical element over the producer's dense buffer;
    /// the view is carried through unchanged.
    pub fn plan(&self, inp: &TensorView, node: usize) -> (p: KernelPlan)
        requires
            inp.shape.wf(),
        ensures
            p.source@ == log2_source_chars(),
            p.module_name@ == "log2"@,
            p.kernel_name@ == "log2_kernel"@,
            p.numel == prod(inp.shape.dims@),
            p.view.tensor_id == node,
            p.view.shape.dims@ == inp.shape.dims@,
            p.view.shape.fake@ == inp.shape.fake@,
    {
        KernelPlan {
            source: String::from_str("\nextern \"C\" __global__ void log2_kernel(float *out, const float *inp, int numel) {\n    int i = blockIdx.x * blockDim.x + threadIdx.x;\n    if (i < numel) {\n        out[i] = log2(inp[i]);\n    }\n}"),
            module_name: String::from_str("log2"),
            kernel_name: String::from_str("log2_kernel"),
            numel: inp.shape.numel(),
            view: carry_view(inp, node),
        }
    }
}

/// Element-wise CUDA Exp2.
#[derive(Debug, Clone)]
pub struct CudaExp2;

pub open spec fn exp2_source_chars() -> Seq<char> {
    "\nextern \"C\" __global__ void exp2_kernel(float *out, const float *inp, int numel) {\n    int i = blockIdx.x * blockDim.x + threadIdx.x;\n    if (i < numel) {\n        out[i] = exp2(inp[i]);\n    }\n}"@
}

impl CudaExp2 {
    pub fn name(&self) -> (r: &'static str)
        ensures
            r@ == "CudaExp2"@,
    {
        "CudaExp2"
    }

    /// One thread per logical element over the producer's dense buffer;
    /// the view is carried through unchanged.
    pub fn plan(&self, inp: &TensorView, node: usize) -> (p: KernelPlan)
        requires
            inp.shape.wf(),
        ensures
            p.source@ == exp2_source_chars(),
            p.module_name@ == "exp2"@,
            p.kernel_name@ == "exp2_kernel"@,
            p.numel == prod(inp.shape.dims@),
            p.view.tensor_id == node,
            p.view.shape.dims@ == inp.shape.dims@,
            p.view.shape.fake@ == inp.shape.fake@,
    {
        KernelPlan {
            source: String::from_str("\nextern \"C\" __global__ void exp2_kernel(float *out, const float *inp, int numel) {\n    int i = blockIdx.x * blockDim.x + threadIdx.x;\n    if (i < numel) {\n        out[i] = exp2(inp[i]);\n    }\n}"),
            module_name: String::from_str("exp2"),
            kernel_name: String::from_str("exp2_kernel"),
            numel: inp.shape.numel(),
            view: carry_view(inp, node),
        }
    }
}

/// Element-wise CUDA Sin.
#[derive(Debug, Clone)]
pub struct CudaSin;

pub open spec fn sin_source_chars() -> Seq<char> {
    "\nextern \"C\" __global__ void sin_kernel(float *out, const float *inp, int numel) {\n    int i = blockIdx.x * blockDim.x + threadIdx.x;\n    if (i < numel) {\n        out[i] = sin(inp[i]);\n    }\n}"@
}

impl CudaSin {
    pub fn name(&self) -> (r: &'static str)
        ensures
            r@ == "CudaSin"@,
    {
        "CudaSin"
    }

    /// One thread per logical element over the producer's dense buffer;
    /// the view is carried through unchanged.
    pub fn plan(&self, inp: &TensorView, node: usize) -> (p: KernelPlan)
        requires
            inp.shape.wf(),
        ensures
            p.source@ == sin_source_chars(),
            p.module_name@ == "sin"@,
            p.kernel_name@ == "sin_kernel"@,
            p.numel == prod(inp.shape.dims@),
            p.view.tensor_id == node,
            p.view.shape.dims@ == inp.shape.dims@,
            p.view.shape.fake@ == inp.shape.fake@,
    {
        KernelPlan {
            source: String::from_str("\nextern \"C\" __global__ void sin_kernel(float *out, const float *inp, int numel) {\n    int i = blockIdx.x * blockDim.x + threadIdx.x;\n    if (i < numel) {\n        out[i] = sin(inp[i]);\n    }\n}"),
            module_name: String::from_str("sin"),
            kernel_name: String::from_str("sin_kernel"),
            numel: inp.shape.numel(),
            view: carry_view(inp, node),
        }
    }
}

/// Element-wise CUDA Sqrt.
#[derive(Debug, Clone)]
pub struct CudaSqrt;

pub open spec fn sqrt_source_chars() -> Seq<char> {
    "\nextern \"C\" __global__ void sqrt_kernel(float *out, const float *inp, int numel) {\n    int i = blockIdx.x * blockDim.x + threadIdx.x;\n    if (i < numel) {\n        out[i] = sqrt(inp[i]);\n    }\n}"@
}

impl CudaSqrt {
    pub fn name(&self) -> (r: &'static str)
        ensures
            r@ == "CudaSqrt"@,
    {
        "CudaSqrt"
    }

    /// One thread per logical element over the producer's dense buffer;
    /// the view is carried through unchanged.
    pub fn plan(&self, inp: &TensorView, node: usize) -> (p: KernelPlan)
        requires
            inp.shape.wf(),
        ensures
            p.source@ == sqrt_source_chars(),
            p.module_name@ == "sqrt"@,
            p.kernel_name@ == "sqrt_kernel"@,
            p.numel == prod(inp.shape.dims@),
            p.view.tensor_id == node,
            p.view.shape.dims@ == inp.shape.dims@,
            p.view.shape.fake@ == inp.shape.fake@,
    {
        KernelPlan {
            source: String::from_str("\nextern \"C\" __global__ void sqrt_kernel(float *out, const float *inp, int numel) {\n    int i = blockIdx.x * blockDim.x + threadIdx.x;\n    if (i < numel) {\n        out[i] = sqrt(inp[i]);\n    }\n}"),
            module_name: String::from_str("sqrt"),
            kernel_name: String::from_str("sqrt_kernel"),
            numel: inp.shape.numel(),
            view: carry_view(inp, node),
        }
    }
}

/// Element-wise CUDA Recip.
#[derive(Debug, Clone)]
pub struct CudaRecip;

pub open spec fn recip_source_chars() -> Seq<char> {
    "\nextern \"C\" __global__ void recip_kernel(float *out, const float *inp, int numel) {\n    int i = blockIdx.x * blockDim.x + threadIdx.x;\n    if (i < numel) {\n        out[i] = 1.0 / inp[i];\n    }\n}"@
}

impl CudaRecip {
    pub fn name(&self) -> (r: &'static str)
        ensures
            r@ == "CudaRecip"@,
    {
        "CudaRecip"
    }

    /// One thread per logical element over the producer's dense buffer;
    /// the view is carried through unchanged.
    pub fn plan(&self, inp: &TensorView, node: usize) -> (p: KernelPlan)
        requires
            inp.shape.wf(),
        ensures
            p.source@ == recip_source_chars(),
            p.module_name@ == "recip"@,
            p.kernel_name@ == "recip_kernel"@,
            p.numel == prod(inp.shape.dims@),
            p.view.tensor_id == node,
            p.view.shape.dims@ == inp.shape.dims@,
            p.view.shape.fake@ == inp.shape.fake@,
    {
        KernelPlan {
            source: String::from_str("\nextern \"C\" __global__ void recip_kernel(float *out, const float *inp, int numel) {\n    int i = blockIdx.x * blockDim.x + threadIdx.x;\n    if (i < numel) {\n        out[i] = 1.0 / inp[i];\n    }\n}"),
            module_name: String::from_str("recip"),
            kernel_name: String::from_str("recip_kernel"),
            numel: inp.shape.numel(),
            view: carry_view(inp, node),
        }
    }
}

/// Broadcast-aware CUDA binary Add.
#[derive(Debug, Clone)]
pub struct CudaAdd;

pub open spec fn add_source_chars(a_idx: Seq<char>, b_idx: Seq<char>) -> Seq<char> {
    binary_source_chars("\nextern \"C\" __global__ void add_kernel(float *out, const float *a, const float *b, int numel) {\n    int idx = blockIdx.x * blockDim.x + threadIdx.x;\n    int a_idx = "@, a_idx, b_idx, ";\n    if (idx < numel) {\n        out[idx] = a[a_idx] + b[b_idx];\n    }\n}"@)
}

impl CudaAdd {
    pub fn name(&self) -> (r: &'static str)
        ensures
            r@ == "CudaAdd"@,
    {
        "CudaAdd"
    }

    /// Resolve the broadcast shape of the two operands and emit the
    /// kernel whose indexing honors each operand's own view.  The output
    /// length is the product of the resolved shape.
    pub fn plan(&self, a: &TensorView, b: &TensorView, node: usize) -> (p: KernelPlan)
        requires
            a.shape.wf(),
            b.shape.wf(),
            b.shape.dims@.len() == a.shape.dims@.len(),
            prod(bmax_dims(a.shape.dims@, b.shape.dims@)) <= usize::MAX,
        ensures
            p.source@ == add_source_chars(
                expr_chars(shape_expr(a.shape.dims@, a.shape.fake@)),
                expr_chars(shape_expr(b.shape.dims@, b.shape.fake@)),
            ),
            p.module_name@ == "add"@,
            p.kernel_name@ == "add_kernel"@,
            p.numel == prod(bmax_dims(a.shape.dims@, b.shape.dims@)),
            p.view.tensor_id == node,
            p.view.shape.wf(),
            p.view.shape.dims@ == bmax_dims(a.shape.dims@, b.shape.dims@),
            forall|i: int| 0 <= i < p.view.shape.fake@.len() ==> !p.view.shape.fake@[i],
    {
        let ea = a.shape.index_fn_node();
        let eb = b.shape.index_fn_node();
        let source = build_binary_source("\nextern \"C\" __global__ void add_kernel(float *out, const float *a, const float *b, int numel) {\n    int idx = blockIdx.x * blockDim.x + threadIdx.x;\n    int a_idx = ", ";\n    if (idx < numel) {\n        out[idx] = a[a_idx] + b[b_idx];\n    }\n}", &ea, &eb);
        let out = binary_output(a, b, node);
        KernelPlan {
            source,
            module_name: String::from_str("add"),
            kernel_name: String::from_str("add_kernel"),
            numel: out.0,
            view: out.1,
        }
    }
}

/// Broadcast-aware CUDA binary Mul.
#[derive(Debug, Clone)]
pub struct CudaMul;

pub open spec fn mul_source_chars(a_idx: Seq<char>, b_idx: Seq<char>) -> Seq<char> {
    binary_source_chars("\nextern \"C\" __global__ void mul_kernel(float *out, const float *a, const float *b, int numel) {\n    int idx = blockIdx.x * blockDim.x + threadIdx.x;\n    int a_idx = "@, a_idx, b_idx, ";\n    if (idx < numel) {\n        out[idx] = a[a_idx] * b[b_idx];\n    }\n}"@)
}

impl CudaMul {
    pub fn name(&self) -> (r: &'static str)
        ensures
            r@ == "CudaMul"@,
    {
        "CudaMul"
    }

    /// Resolve the broadcast shape of the two operands and emit the
    /// kernel whose indexing honors each operand's own view.  The output
    /// length is the product of the resolved shape.
    pub fn plan(&self, a: &TensorView, b: &TensorView, node: usize) -> (p: KernelPlan)
        requires
            a.shape.wf(),
            b.shape.wf(),
            b.shape.dims@.len() == a.shape.dims@.len(),
            prod(bmax_dims(a.shape.dims@, b.shape.dims@)) <= usize::MAX,
        ensures
            p.source@ == mul_source_chars(
                expr_chars(shape_expr(a.shape.dims@, a.shape.fake@)),
                expr_chars(shape_expr(b.shape.dims@, b.shape.fake@)),
            ),
            p.module_name@ == "mul"@,
            p.kernel_name@ == "mul_kernel"@,
            p.numel == prod(bmax_dims(a.shape.dims@, b.shape.dims@)),
            p.view.tensor_id == node,
            p.view.shape.wf(),
            p.view.shape.dims@ == bmax_dims(a.shape.dims@, b.shape.dims@),
            forall|i: int| 0 <= i < p.view.shape.fake@.len() ==> !p.view.shape.fake@[i],
    {
        let ea = a.shape.index_fn_node();
        let eb = b.shape.index_fn_node();
        let source = build_binary_source("\nextern \"C\" __global__ void mul_kernel(float *out, const float *a, const float *b, int numel) {\n    int idx = blockIdx.x * blockDim.x + threadIdx.x;\n    int a_idx = ", ";\n    if (idx < numel) {\n        out[idx] = a[a_idx] * b[b_idx];\n    }\n}", &ea, &eb);
        let out = binary_output(a, b, node);
        KernelPlan {
            source,
            module_name: String::from_str("mul"),
            kernel_name: String::from_str("mul_kernel"),
            numel: out.0,
            view: out.1,
        }
    }
}

/// Broadcast-aware CUDA binary Max.
#[derive(Debug, Clone)]
pub struct CudaMax;

pub open spec fn max_source_chars(a_idx: Seq<char>, b_idx: Seq<char>) -> Seq<char> {
    binary_source_chars("\nextern \"C\" __global__ void max_kernel(float *out, const float *a, const float *b, int numel) {\n    int idx = blockIdx.x * blockDim.x + threadIdx.x;\n    int a_idx = "@, a_idx, b_idx, ";\n    if (idx < numel) {\n        out[idx] = max(a[a_idx], b[b_idx]);\n    }\n}"@)
}

impl CudaMax {
    pub fn name(&self) -> (r: &'static str)
        ensures
            r@ == "CudaMax"@,
    {
        "CudaMax"
    }

    /// Resolve the broadcast shape of the two operands and emit the
    /// kernel whose indexing honors each operand's own view.  The output
    /// length is the product of the resolved shape.
    pub fn plan(&self, a: &TensorView, b: &TensorView, node: usize) -> (p: KernelPlan)
        requires
            a.shape.wf(),
            b.shape.wf(),
            b.shape.dims@.len() == a.shape.dims@.len(),
            prod(bmax_dims(a.shape.dims@, b.shape.dims@)) <= usize::MAX,
        ensures
            p.source@ == max_source_chars(
                expr_chars(shape_expr(a.shape.dims@, a.shape.fake@)),
                expr_chars(shape_expr(b.shape.dims@, b.shape.fake@)),
            ),
            p.module_name@ == "max"@,
            p.kernel_name@ == "max_kernel"@,
            p.numel == prod(bmax_dims(a.shape.dims@, b.shape.dims@)),
            p.view.tensor_id == node,
            p.view.shape.wf(),
            p.view.shape.dims@ == bmax_dims(a.shape.dims@, b.shape.dims@),
            forall|i: int| 0 <= i < p.view.shape.fake@.len() ==> !p.view.shape.fake@[i],
    {
        let ea = a.shape.index_fn_node();
        let eb = b.shape.index_fn_node();
        let source = build_binary_source("\nextern \"C\" __global__ void max_kernel(float *out, const float *a, const float *b, int numel) {\n    int idx = blockIdx.x * blockDim.x + threadIdx.x;\n    int a_idx = ", ";\n    if (idx < numel) {\n        out[idx] = max(a[a_idx], b[b_idx]);\n    }\n}", &ea, &eb);
        let out = binary_output(a, b, node);
        KernelPlan {
            source,
            module_name: String::from_str("max"),
            kernel_name: String::from_str("max_kernel"),
            numel: out.0,
            view: out.1,
        }
    }
}

/// Broadcast-aware CUDA binary Mod.
#[derive(Debug, Clone)]
pub struct CudaMod;

pub open spec fn mod_source_chars(a_idx: Seq<char>, b_idx: Seq<char>) -> Seq<char> {
    binary_source_chars("\nextern \"C\" __global__ void mod_kernel(float *out, const float *a, const float *b, int numel) {\n    int idx = blockIdx.x * blockDim.x + threadIdx.x;\n    int a_idx = "@, a_idx, b_idx, ";\n    if (idx < numel) {\n        out[idx] = fmod(a[a_idx], b[b_idx]);\n    }\n}"@)
}

impl CudaMod {
    pub fn name(&self) -> (r: &'static str)
        ensures
            r@ == "CudaMod"@,
    {
        "CudaMod"
    }

    /// Resolve the broadcast shape of the two operands and emit the
    /// kernel whose indexing honors each operand's own view.  The output
    /// length is the product of the resolved shape.
    pub fn plan(&self, a: &TensorView, b: &TensorView, node: usize) -> (p: KernelPlan)
        requires
            a.shape.wf(),
            b.shape.wf(),
            b.shape.dims@.len() == a.shape.dims@.len(),
            prod(bmax_dims(a.shape.dims@, b.shape.dims@)) <= usize::MAX,
        ensures
            p.source@ == mod_source_chars(
                expr_chars(shape_expr(a.shape.dims@, a.shape.fake@)),
                expr_chars(shape_expr(b.shape.dims@, b.shape.fake@)),
            ),
            p.module_name@ == "mod"@,
            p.kernel_name@ == "mod_kernel"@,
            p.numel == prod(bmax_dims(a.shape.dims@, b.shape.dims@)),
            p.view.tensor_id == node,
            p.view.shape.wf(),
            p.view.shape.dims@ == bmax_dims(a.shape.dims@, b.shape.dims@),
            forall|i: int| 0 <= i < p.view.shape.fake@.len() ==> !p.view.shape.fake@[i],
    {
        let ea = a.shape.index_fn_node();
        let eb = b.shape.index_fn_node();
        let source = build_binary_source("\nextern \"C\" __global__ void mod_kernel(float *out, const float *a, const float *b, int numel) {\n    int idx = blockIdx.x * blockDim.x + threadIdx.x;\n    int a_idx = ", ";\n    if (idx < numel) {\n        out[idx] = fmod(a[a_idx], b[b_idx]);\n    }\n}", &ea, &eb);
        let out = binary_output(a, b, node);
        KernelPlan {
            source,
            module_name: String::from_str("mod"),
            kernel_name: String::from_str("mod_kernel"),
            numel: out.0,
            view: out.1,
        }
    }
}

/// CUDA SumReduce over one dimension.
#[derive(Debug, Clone)]
pub struct CudaSumReduce(pub usize);

pub open spec fn sumreduce_source_chars(inp_idx: Seq<char>) -> Seq<char> {
    reduce_source_chars("\nextern \"C\" __global__ void sumreduce_kernel(float *out, const float *inp, const int front_size, const int back_size, const int dim_size, int numel) {\n    int i = blockIdx.x * blockDim.x + threadIdx.x;\n    \n    if (i < numel) {\n        int a = i / back_size;\n        int b = i % back_size;\n        float reduce_value = 0.0;\n        for (int c = 0; c < dim_size; c++) {\n            int idx = a * dim_size * back_size + c * back_size + b;\n            int a_idx = "@, inp_idx, ";\n            reduce_value += inp[a_idx];\n        }\n        out[i] = reduce_value;\n    }\n}"@)
}

impl CudaSumReduce {
    pub fn name(&self) -> (r: &'static str)
        ensures
            r@ == "CudaSumReduce"@,
    {
        "CudaSumReduce"
    }

    /// Collapse dimension `self.0` of the input: the kernel walks the
    /// flattened `front x dim x back` decomposition; the output shape is
    /// the input shape with that position removed, and the output length
    /// is its product.
    pub fn plan(&self, inp: &TensorView, node: usize) -> (p: ReducePlan)
        requires
            inp.shape.wf(),
            self.0 < inp.shape.dims@.len(),
        ensures
            p.source@ == sumreduce_source_chars(expr_chars(shape_expr(inp.shape.dims@, inp.shape.fake@))),
            p.module_name@ == "sumreduce"@,
            p.kernel_name@ == "sumreduce_kernel"@,
            p.dim_size == inp.shape.dims@[self.0 as int],
            p.front_size == range_prod(inp.shape.dims@, 0, self.0 as int),
            p.back_size == range_prod(inp.shape.dims@, self.0 as int + 1, inp.shape.dims@.len() as int),
            p.view.tensor_id == node,
            p.view.shape.wf(),
            p.view.shape.dims@.len() == inp.shape.dims@.len() - 1,
            forall|i: int| 0 <= i < self.0 as int ==> p.view.shape.dims@[i] == inp.shape.dims@[i],
            forall|i: int|
                self.0 as int <= i < p.view.shape.dims@.len() ==> p.view.shape.dims@[i]
                    == inp.shape.dims@[i + 1],
            forall|i: int| 0 <= i < p.view.shape.fake@.len() ==> !p.view.shape.fake@[i],
            p.numel == p.front_size * p.back_size,
            p.numel == prod(p.view.shape.dims@),
    {
        reduce_plan(self.0, inp, node, "\nextern \"C\" __global__ void sumreduce_kernel(float *out, const float *inp, const int front_size, const int back_size, const int dim_size, int numel) {\n    int i = blockIdx.x * blockDim.x + threadIdx.x;\n    \n    if (i < numel) {\n        int a = i / back_size;\n        int b = i % back_size;\n        float reduce_value = 0.0;\n        for (int c = 0; c < dim_size; c++) {\n            int idx = a * dim_size * back_size + c * back_size + b;\n            int a_idx = ", ";\n            reduce_value += inp[a_idx];\n        }\n        out[i] = reduce_value;\n    }\n}", "sumreduce", "sumreduce_kernel")
    }
}

/// CUDA MaxReduce over one dimension.
#[derive(Debug, Clone)]
pub struct CudaMaxReduce(pub usize);

pub open spec fn maxreduce_source_chars(inp_idx: Seq<char>) -> Seq<char> {
    reduce_source_chars("\nextern \"C\" __global__ void maxreduce_kernel(float *out, const float *inp, const int front_size, const int back_size, const int dim_size, int numel) {\n    int i = blockIdx.x * blockDim.x + threadIdx.x;\n    \n    if (i < numel) {\n        int a = i / back_size;\n        int b = i % back_size;\n        float reduce_value = -__int_as_float(0x7f800000);\n        for (int c = 0; c < dim_size; c++) {\n            int idx = a * dim_size * back_size + c * back_size + b;\n            int a_idx = "@, inp_idx, ";\n            reduce_value = max(reduce_value, inp[a_idx]);\n        }\n        out[i] = reduce_value;\n    }\n}"@)
}

impl CudaMaxReduce {
    pub fn name(&self) -> (r: &'static str)
        ensures
            r@ == "CudaMaxReduce"@,
    {
        "CudaMaxReduce"
    }

    /// Collapse dimension `self.0` of the input: the kernel walks the
    /// flattened `front x dim x back` decomposition; the output shape is
    /// the input shape with that position removed, and the output length
    /// is its product.
    pub fn plan(&self, inp: &TensorView, node: usize) -> (p: ReducePlan)
        requires
            inp.shape.wf(),
            self.0 < inp.shape.dims@.len(),
        ensures
            p.source@ == maxreduce_source_chars(expr_chars(shape_expr(inp.shape.dims@, inp.shape.fake@))),
            p.module_name@ == "maxreduce"@,
            p.kernel_name@ == "maxreduce_kernel"@,
            p.dim_size == inp.shape.dims@[self.0 as int],
            p.front_size == range_prod(inp.shape.dims@, 0, self.0 as int),
            p.back_size == range_prod(inp.shape.dims@, self.0 as int + 1, inp.shape.dims@.len() as int),
            p.view.tensor_id == node,
            p.view.shape.wf(),
            p.view.shape.dims@.len() == inp.shape.dims@.len() - 1,
            forall|i: int| 0 <= i < self.0 as int ==> p.view.shape.dims@[i] == inp.shape.dims@[i],
            forall|i: int|
                self.0 as int <= i < p.view.shape.dims@.len() ==> p.view.shape.dims@[i]
                    == inp.shape.dims@[i + 1],
            forall|i: int| 0 <= i < p.view.shape.fake@.len() ==> !p.view.shape.fake@[i],
            p.numel == p.front_size * p.back_size,
            p.numel == prod(p.view.shape.dims@),
    {
        reduce_plan(self.0, inp, node, "\nextern \"C\" __global__ void maxreduce_kernel(float *out, const float *inp, const int front_size, const int back_size, const int dim_size, int numel) {\n    int i = blockIdx.x * blockDim.x + threadIdx.x;\n    \n    if (i < numel) {\n        int a = i / back_size;\n        int b = i % back_size;\n        float reduce_value = -__int_as_float(0x7f800000);\n        for (int c = 0; c < dim_size; c++) {\n            int idx = a * dim_size * back_size + c * back_size + b;\n            int a_idx = ", ";\n            reduce_value = max(reduce_value, inp[a_idx]);\n        }\n        out[i] = reduce_value;\n    }\n}", "maxreduce", "maxreduce_kernel")
    }
}

/// Shared reduction planner: sizes of the `front x dim x back`
/// decomposition, the reduced view, and the generated source.
fn reduce_plan(
    d: usize,
    inp: &TensorView,
    node: usize,
    prefix: &'static str,
    tail: &'static str,
    module_name: &'static str,
    kernel_name: &'static str,
) -> (p: ReducePlan)
    requires
        inp.shape.wf(),
        d < inp.shape.dims@.len(),
    ensures
        p.source@ == reduce_source_chars(
            prefix@,
            expr_chars(shape_expr(inp.shape.dims@, inp.shape.fake@)),
            tail@,
        ),
        p.module_name@ == module_name@,
        p.kernel_name@ == kernel_name@,
        p.dim_size == inp.shape.dims@[d as int],
        p.front_size == range_prod(inp.shape.dims@, 0, d as int),
        p.back_size == range_prod(inp.shape.dims@, d as int + 1, inp.shape.dims@.len() as int),
        p.view.tensor_id == node,
        p.view.shape.wf(),
        p.view.shape.dims@.len() == inp.shape.dims@.len() - 1,
        forall|i: int| 0 <= i < d as int ==> p.view.shape.dims@[i] == inp.shape.dims@[i],
        forall|i: int|
            d as int <= i < p.view.shape.dims@.len() ==> p.view.shape.dims@[i]
                == inp.shape.dims@[i + 1],
        forall|i: int| 0 <= i < p.view.shape.fake@.len() ==> !p.view.shape.fake@[i],
        p.numel == p.front_size * p.back_size,
        p.numel == prod(p.view.shape.dims@),
{
    let ghost ds = inp.shape.dims@;
    let ghost n_int = ds.len() as int;
    let dims = inp.shape.shape();
    let n = dims.len();
    let front = segment_product(&dims, 0, d);
    let back = segment_product(&dims, d + 1, n);
    let dim_size = dims[d];
    let e = inp.shape.index_fn_node();
    let source = build_reduce_source(prefix, tail, &e);
    proof {
        lemma_suffix_is_range(ds, 0);
        lemma_range_prod_split(ds, 0, d as int, n_int);
        lemma_range_prod_pos(ds, 0, d as int);
        lemma_range_prod_pos(ds, d as int + 1, n_int);
        assert(range_prod(ds, d as int, n_int) == ds[d as int] * range_prod(
            ds,
            d as int + 1,
            n_int,
        ));
        assert(front * back <= prod(ds) && front * back >= 1) by (nonlinear_arith)
            requires
                prod(ds) == front * (ds[d as int] * back),
                front >= 1,
                back >= 1,
                ds[d as int] >= 1,
                front == range_prod(ds, 0, d as int),
                back == range_prod(ds, d as int + 1, n_int),
        ;
    }
    let numel = front * back;
    let mut out_dims: Vec<usize> = Vec::new();
    let mut i: usize = 0;
    while i < n
        invariant
            i <= n,
            n == ds.len(),
            ds == inp.shape.dims@,
            dims@ == ds,
            d < n,
            out_dims@.len() == if i <= d {
                i as int
            } else {
                i as int - 1
            },
            forall|k: int| 0 <= k < d as int && k < out_dims@.len() ==> out_dims@[k] == ds[k],
            forall|k: int| d as int <= k < out_dims@.len() ==> out_dims@[k] == ds[k + 1],
        decreases n - i,
    {
        if i != d {
            out_dims.push(dims[i]);
        }
        i += 1;
    }
    proof {
        let od = out_dims@;
        assert forall|k: int| 0 <= k < od.len() implies od[k] >= 1 by {
            if k < d as int {
                assert(od[k] == ds[k]);
            } else {
                assert(od[k] == ds[k + 1]);
            }
        }
        assert(all_pos(od));
        lemma_suffix_is_range(od, 0);
        lemma_range_prod_split(od, 0, d as int, od.len() as int);
        lemma_range_prod_congruent(od, 0, ds, 0, d as int);
        assert forall|k: int| 0 <= k < od.len() - d as int implies od[d as int + k] == #[trigger] ds[d as int + 1 + k] by {
            assert(od[d as int + k] == ds[(d as int + k) + 1]);
        }
        lemma_range_prod_congruent(od, d as int, ds, d as int + 1, od.len() - d as int);
        assert(prod(od) == front * back);
    }
    let mut st = inp.shape.clone();
    st.reshape(out_dims);
    ReducePlan {
        source,
        module_name: String::from_str(module_name),
        kernel_name: String::from_str(kernel_name),
        front_size: front,
        back_size: back,
        dim_size,
        numel,
        view: TensorView { tensor_id: node, shape: st },
    }
}

} // verus!
