//! Symbolic shapes: logical extents plus broadcast (stride-zero) flags,
//! and the integer indexing arithmetic that maps a linear output index to
//! the physical offset in the producing buffer.

use vstd::prelude::*;
use vstd::string::StringExecFns;

verus! {

/// Product of the extents `dims[j..]`.
pub open spec fn suffix_prod(dims: Seq<usize>, j: int) -> int
    decreases dims.len() - j,
{
    if j < 0 || j >= dims.len() {
        1
    } else {
        dims[j] * suffix_prod(dims, j + 1)
    }
}

/// Product of all extents: the logical element count.
pub open spec fn prod(dims: Seq<usize>) -> int {
    suffix_prod(dims, 0)
}

/// Product of the non-broadcast extents `dims[j..]`: the stride that one
/// step of dimension `j - 1` takes in the physical buffer.
pub open spec fn phys_suffix_prod(dims: Seq<usize>, fake: Seq<bool>, j: int) -> int
    decreases dims.len() - j,
{
    if j < 0 || j >= dims.len() {
        1
    } else {
        (if fake[j] {
            1
        } else {
            dims[j] as int
        }) * phys_suffix_prod(dims, fake, j + 1)
    }
}

/// Physical element count: product of the non-broadcast extents.
pub open spec fn phys_prod(dims: Seq<usize>, fake: Seq<bool>) -> int {
    phys_suffix_prod(dims, fake, 0)
}

/// All extents are positive, as a logical shape requires.
pub open spec fn all_pos(dims: Seq<usize>) -> bool {
    forall|i: int| 0 <= i < dims.len() ==> dims[i] >= 1
}

/// Offset contributed by dimensions `j..` for linear index `idx`:
/// each non-broadcast dimension contributes its digit (in the
/// mixed-radix decomposition of `idx`) times its physical stride.
pub open spec fn offset_from(dims: Seq<usize>, fake: Seq<bool>, idx: int, j: int) -> int
    decreases dims.len() - j,
{
    if j < 0 || j >= dims.len() {
        0
    } else {
        (if fake[j] {
            0
        } else {
            ((idx / suffix_prod(dims, j + 1)) % (dims[j] as int)) * phys_suffix_prod(
                dims,
                fake,
                j + 1,
            )
        }) + offset_from(dims, fake, idx, j + 1)
    }
}

/// Physical offset of linear index `idx` under a view.
pub open spec fn phys_offset(dims: Seq<usize>, fake: Seq<bool>, idx: int) -> int {
    offset_from(dims, fake, idx, 0)
}

pub proof fn lemma_suffix_prod_pos(dims: Seq<usize>, j: int)
    requires
        all_pos(dims),
    ensures
        suffix_prod(dims, j) >= 1,
    decreases dims.len() - j,
{
    if 0 <= j < dims.len() {
        lemma_suffix_prod_pos(dims, j + 1);
        assert(dims[j] * suffix_prod(dims, j + 1) >= 1) by (nonlinear_arith)
            requires
                dims[j] >= 1,
                suffix_prod(dims, j + 1) >= 1,
        ;
    }
}

pub proof fn lemma_phys_suffix_prod_pos(dims: Seq<usize>, fake: Seq<bool>, j: int)
    requires
        all_pos(dims),
        dims.len() == fake.len(),
    ensures
        phys_suffix_prod(dims, fake, j) >= 1,
    decreases dims.len() - j,
{
    if 0 <= j < dims.len() {
        lemma_phys_suffix_prod_pos(dims, fake, j + 1);
        let d: int = if fake[j] {
            1
        } else {
            dims[j] as int
        };
        assert(d * phys_suffix_prod(dims, fake, j + 1) >= 1) by (nonlinear_arith)
            requires
                d >= 1,
                phys_suffix_prod(dims, fake, j + 1) >= 1,
        ;
    }
}

/// The physical stride never exceeds the logical suffix product.
pub proof fn lemma_phys_le_suffix(dims: Seq<usize>, fake: Seq<bool>, j: int)
    requires
        all_pos(dims),
        dims.len() == fake.len(),
    ensures
        phys_suffix_prod(dims, fake, j) <= suffix_prod(dims, j),
    decreases dims.len() - j,
{
    if 0 <= j < dims.len() {
        lemma_phys_le_suffix(dims, fake, j + 1);
        lemma_phys_suffix_prod_pos(dims, fake, j + 1);
        lemma_suffix_prod_pos(dims, j + 1);
        let d: int = if fake[j] {
            1
        } else {
            dims[j] as int
        };
        assert(d * phys_suffix_prod(dims, fake, j + 1) <= dims[j] * suffix_prod(dims, j + 1))
            by (nonlinear_arith)
            requires
                1 <= d <= dims[j],
                1 <= phys_suffix_prod(dims, fake, j + 1) <= suffix_prod(dims, j + 1),
        ;
    }
}

/// Suffix products shrink as the suffix shrinks.
pub proof fn lemma_suffix_prod_le(dims: Seq<usize>, j: int, k: int)
    requires
        all_pos(dims),
        0 <= j <= k,
    ensures
        suffix_prod(dims, k) <= suffix_prod(dims, j),
    decreases k - j,
{
    if j < k {
        lemma_suffix_prod_le(dims, j + 1, k);
        if 0 <= j < dims.len() {
            lemma_suffix_prod_pos(dims, j + 1);
            assert(suffix_prod(dims, j + 1) <= dims[j] * suffix_prod(dims, j + 1))
                by (nonlinear_arith)
                requires
                    dims[j] >= 1,
                    suffix_prod(dims, j + 1) >= 1,
            ;
        }
    }
}

/// The offset of dimensions `j..` stays below the physical suffix product.
pub proof fn lemma_offset_bound(dims: Seq<usize>, fake: Seq<bool>, idx: int, j: int)
    requires
        all_pos(dims),
        dims.len() == fake.len(),
        idx >= 0,
    ensures
        0 <= offset_from(dims, fake, idx, j) < phys_suffix_prod(dims, fake, j),
    decreases dims.len() - j,
{
    if j < 0 || j >= dims.len() {
    } else {
        lemma_offset_bound(dims, fake, idx, j + 1);
        lemma_suffix_prod_pos(dims, j + 1);
        lemma_phys_suffix_prod_pos(dims, fake, j + 1);
        let sp = suffix_prod(dims, j + 1);
        let ps = phys_suffix_prod(dims, fake, j + 1);
        let rest = offset_from(dims, fake, idx, j + 1);
        if fake[j] {
            assert(phys_suffix_prod(dims, fake, j) == ps);
        } else {
            let digit = (idx / sp) % (dims[j] as int);
            assert(0 <= digit < dims[j]);
            assert(digit * ps + rest < dims[j] * ps) by (nonlinear_arith)
                requires
                    0 <= digit <= dims[j] - 1,
                    0 <= rest < ps,
                    ps >= 1,
            ;
            assert(digit * ps >= 0) by (nonlinear_arith)
                requires
                    digit >= 0,
                    ps >= 0,
            ;
            assert(phys_suffix_prod(dims, fake, j) == dims[j] * ps);
        }
    }
}

/// A symbolic tensor shape: logical extents together with per-dimension
/// broadcast flags.  A broadcast ("fake") dimension occupies no room in
/// the physical buffer; indexing strides over it with stride zero.
#[derive(Debug)]
pub struct ShapeTracker {
    pub dims: Vec<usize>,
    pub fake: Vec<bool>,
}

/// A consumer-visible tensor handle: the node that produced the value,
/// plus the symbolic shape under which it is read.
#[derive(Debug)]
pub struct TensorView {
    pub tensor_id: usize,
    pub shape: ShapeTracker,
}

impl Clone for ShapeTracker {
    fn clone(&self) -> (r: Self)
        ensures
            r.dims@ == self.dims@,
            r.fake@ == self.fake@,
    {
        ShapeTracker { dims: self.dims.clone(), fake: self.fake.clone() }
    }
}

impl Clone for TensorView {
    fn clone(&self) -> (r: Self)
        ensures
            r.tensor_id == self.tensor_id,
            r.shape.dims@ == self.shape.dims@,
            r.shape.fake@ == self.shape.fake@,
    {
        TensorView { tensor_id: self.tensor_id, shape: self.shape.clone() }
    }
}

impl ShapeTracker {
    /// One flag per dimension, every extent positive, and the logical
    /// element count representable in a buffer length.
    pub open spec fn wf(&self) -> bool {
        &&& self.dims@.len() == self.fake@.len()
        &&& all_pos(self.dims@)
        &&& prod(self.dims@) <= usize::MAX
    }

    /// Logical element count.
    pub open spec fn numel_spec(&self) -> int {
        prod(self.dims@)
    }

    /// Physical element count of the underlying dense buffer.
    pub open spec fn phys_numel_spec(&self) -> int {
        phys_prod(self.dims@, self.fake@)
    }

    /// A contiguous shape: every extent positive and the element count
    /// representable; fails otherwise.
    pub fn new(dims: Vec<usize>) -> (r: Option<ShapeTracker>)
        ensures
            match r {
                Some(t) => t.wf() && t.dims@ == dims@ && t.fake@.len() == dims@.len() && (forall|
                    i: int,
                | 0 <= i < t.fake@.len() ==> !t.fake@[i]),
                None => !(all_pos(dims@) && prod(dims@) <= usize::MAX),
            },
    {
        let n = dims.len();
        let mut fake: Vec<bool> = Vec::new();
        let mut i: usize = 0;
        while i < n
            invariant
                i <= n,
                fake@.len() == i as int,
                forall|k: int| 0 <= k < i as int ==> !fake@[k],
            decreases n - i,
        {
            fake.push(false);
            i += 1;
        }
        match Self::checked_product(&dims) {
            Some(_) => Some(ShapeTracker { dims, fake }),
            None => None,
        }
    }

    /// A broadcast view: like `new`, but with the given per-dimension
    /// broadcast flags.
    pub fn new_broadcast(dims: Vec<usize>, fake: Vec<bool>) -> (r: Option<ShapeTracker>)
        ensures
            match r {
                Some(t) => t.wf() && t.dims@ == dims@ && t.fake@ == fake@,
                None => !(all_pos(dims@) && prod(dims@) <= usize::MAX && dims@.len()
                    == fake@.len()),
            },
    {
        if dims.len() != fake.len() {
            return None;
        }
        match Self::checked_product(&dims) {
            Some(_) => Some(ShapeTracker { dims, fake }),
            None => None,
        }
    }

    /// The product of all extents, or `None` when an extent is zero or
    /// the product does not fit a buffer length.
    pub fn checked_product(dims: &Vec<usize>) -> (r: Option<usize>)
        ensures
            match r {
                Some(n) => all_pos(dims@) && n == prod(dims@) && prod(dims@) <= usize::MAX,
                None => !(all_pos(dims@) && prod(dims@) <= usize::MAX),
            },
    {
        let n = dims.len();
        let mut acc: usize = 1;
        let mut j: usize = n;
        while j > 0
            invariant
                j <= n,
                n == dims@.len(),
                all_pos(dims@.skip(j as int)),
                acc == suffix_prod(dims@, j as int),
            decreases j,
        {
            j -= 1;
            let d = dims[j];
            if d == 0 {
                return None;
            }
            proof {
                let jj = j as int;
                assert forall|i: int| 0 <= i < dims@.skip(jj).len() implies dims@.skip(jj)[i]
                    >= 1 by {
                    if i == 0 {
                        assert(dims@.skip(jj)[0] == dims@[jj]);
                    } else {
                        assert(dims@.skip(jj)[i] == dims@.skip(jj + 1)[i - 1]);
                    }
                }
                assert(suffix_prod(dims@, jj) == d * acc);
                assert(d * acc == acc * d) by (nonlinear_arith);
            }
            acc = match acc.checked_mul(d) {
                Some(v) => v,
                None => {
                    proof {
                        lemma_suffix_overflow(dims@, j as int);
                    }
                    return None;
                },
            };
        }
        proof {
            assert(dims@.skip(0) =~= dims@);
        }
        Some(acc)
    }

    /// Logical element count of a well-formed shape.
    pub fn numel(&self) -> (r: usize)
        requires
            self.wf(),
        ensures
            r == self.numel_spec(),
    {
        let n = self.dims.len();
        let mut acc: usize = 1;
        let mut j: usize = n;
        proof {
            lemma_suffix_prod_pos(self.dims@, n as int);
        }
        while j > 0
            invariant
                j <= n,
                n == self.dims@.len(),
                self.wf(),
                acc == suffix_prod(self.dims@, j as int),
            decreases j,
        {
            j -= 1;
            proof {
                let jj = j as int;
                lemma_suffix_prod_pos(self.dims@, jj + 1);
                lemma_suffix_prod_le(self.dims@, 0, jj);
                lemma_suffix_prod_pos(self.dims@, jj);
                assert(suffix_prod(self.dims@, jj) == self.dims@[jj] * acc);
                assert(self.dims@[jj] * acc == acc * self.dims@[jj]) by (nonlinear_arith);
            }
            acc = acc * self.dims[j];
        }
        acc
    }

    /// The current logical extents.
    pub fn shape(&self) -> (r: Vec<usize>)
        ensures
            r@ == self.dims@,
    {
        self.dims.clone()
    }

    /// Broadcast resolution across peers: the element-wise maximum of
    /// the extents.  Every view of a broadcast group has the same rank.
    pub fn get_real_shape(&self, others: &Vec<ShapeTracker>) -> (r: Vec<usize>)
        requires
            forall|p: int|
                0 <= p < others@.len() ==> (#[trigger] others@[p]).dims@.len() == self.dims@.len(),
        ensures
            r@.len() == self.dims@.len(),
            forall|i: int| 0 <= i < r@.len() ==> r@[i] >= self.dims@[i],
            forall|i: int, p: int|
                0 <= i < r@.len() && 0 <= p < others@.len() ==> r@[i]
                    >= (#[trigger] others@[p].dims@[i]),
            forall|i: int|
                0 <= i < r@.len() ==> (r@[i] == self.dims@[i] || exists|p: int|
                    0 <= p < others@.len() && r@[i] == (#[trigger] others@[p].dims@[i])),
    {
        let n = self.dims.len();
        let mut r: Vec<usize> = Vec::new();
        let mut i: usize = 0;
        while i < n
            invariant
                i <= n,
                n == self.dims@.len(),
                r@.len() == i as int,
                forall|p: int|
                    0 <= p < others@.len() ==> (#[trigger] others@[p]).dims@.len() == n as int,
                forall|k: int| 0 <= k < i as int ==> r@[k] >= self.dims@[k],
                forall|k: int, p: int|
                    0 <= k < i as int && 0 <= p < others@.len() ==> r@[k]
                        >= (#[trigger] others@[p].dims@[k]),
                forall|k: int|
                    0 <= k < i as int ==> (r@[k] == self.dims@[k] || exists|p: int|
                        0 <= p < others@.len() && r@[k] == (#[trigger] others@[p].dims@[k])),
            decreases n - i,
        {
            let mut m = self.dims[i];
            let mut p: usize = 0;
            while p < others.len()
                invariant
                    p <= others@.len(),
                    i < n,
                    n == self.dims@.len(),
                    forall|q: int|
                        0 <= q < others@.len() ==> (#[trigger] others@[q]).dims@.len() == n as int,
                    m >= self.dims@[i as int],
                    forall|q: int|
                        0 <= q < p as int ==> m >= (#[trigger] others@[q].dims@[i as int]),
                    m == self.dims@[i as int] || exists|q: int|
                        0 <= q < p as int && m == (#[trigger] others@[q].dims@[i as int]),
                decreases others@.len() - p,
            {
                let d = others[p].dims[i];
                if d > m {
                    m = d;
                }
                p += 1;
            }
            r.push(m);
            i += 1;
        }
        r
    }

    /// Replace the tracked shape in place; the view becomes contiguous.
    pub fn reshape(&mut self, new_shape: Vec<usize>)
        requires
            all_pos(new_shape@),
            prod(new_shape@) <= usize::MAX,
        ensures
            final(self).wf(),
            final(self).dims@ == new_shape@,
            forall|i: int| 0 <= i < final(self).fake@.len() ==> !final(self).fake@[i],
    {
        let n = new_shape.len();
        let mut fake: Vec<bool> = Vec::new();
        let mut i: usize = 0;
        while i < n
            invariant
                i <= n,
                fake@.len() == i as int,
                forall|k: int| 0 <= k < i as int ==> !fake@[k],
            decreases n - i,
        {
            fake.push(false);
            i += 1;
        }
        self.dims = new_shape;
        self.fake = fake;
    }

    /// Physical offset of the linear index `idx`: the value the indexing
    /// expression evaluates to inside a kernel.
    pub fn index_of(&self, idx: usize) -> (r: usize)
        requires
            self.wf(),
            idx < self.numel_spec(),
        ensures
            r == phys_offset(self.dims@, self.fake@, idx as int),
            r < self.phys_numel_spec(),
    {
        let n = self.dims.len();
        let mut acc: usize = 0;
        let mut post: usize = 1;
        let mut stride: usize = 1;
        let mut j: usize = n;
        proof {
            lemma_suffix_prod_pos(self.dims@, n as int);
            lemma_phys_suffix_prod_pos(self.dims@, self.fake@, n as int);
        }
        while j > 0
            invariant
                j <= n,
                n == self.dims@.len(),
                self.wf(),
                idx < prod(self.dims@),
                post == suffix_prod(self.dims@, j as int),
                stride == phys_suffix_prod(self.dims@, self.fake@, j as int),
                acc == offset_from(self.dims@, self.fake@, idx as int, j as int),
                acc < phys_suffix_prod(self.dims@, self.fake@, j as int),
            decreases j,
        {
            j -= 1;
            let ghost dims = self.dims@;
            let ghost fake = self.fake@;
            let ghost jj = j as int;
            proof {
                lemma_suffix_prod_pos(dims, jj + 1);
                lemma_phys_suffix_prod_pos(dims, fake, jj + 1);
                lemma_suffix_prod_pos(dims, jj);
                lemma_suffix_prod_le(dims, 0, jj);
                lemma_phys_le_suffix(dims, fake, jj);
                lemma_offset_bound(dims, fake, idx as int, jj);
            }
            let d = self.dims[j];
            if !self.fake[j] {
                let digit = (idx / post) % d;
                proof {
                    assert(digit * stride + acc < d * stride) by (nonlinear_arith)
                        requires
                            0 <= digit <= d - 1,
                            0 <= acc < stride,
                            stride >= 1,
                    ;
                    assert(digit * stride >= 0) by (nonlinear_arith)
                        requires
                            digit >= 0,
                            stride >= 0,
                    ;
                    assert(d * stride == phys_suffix_prod(dims, fake, jj));
                    assert(phys_suffix_prod(dims, fake, jj) <= suffix_prod(dims, jj));
                }
                acc = digit * stride + acc;
                proof {
                    assert(d * stride <= suffix_prod(dims, 0));
                }
                stride = d * stride;
            }
            proof {
                assert(d * post == suffix_prod(dims, jj));
                assert(suffix_prod(dims, jj) <= suffix_prod(dims, 0));
            }
            post = d * post;
        }
        acc
    }
}

/// If the running suffix product overflows, the whole product is out of
/// range.
proof fn lemma_suffix_overflow(dims: Seq<usize>, j: int)
    requires
        0 <= j < dims.len(),
        all_pos(dims.skip(j)),
        suffix_prod(dims, j) > usize::MAX,
    ensures
        !(all_pos(dims) && prod(dims) <= usize::MAX),
{
    if all_pos(dims) {
        lemma_suffix_prod_le(dims, 0, j);
    }
}

/// Product of the extents `dims[lo..hi]`.
pub open spec fn range_prod(dims: Seq<usize>, lo: int, hi: int) -> int
    decreases hi - lo,
{
    if lo < 0 || lo >= hi || hi > dims.len() {
        1
    } else {
        dims[lo] * range_prod(dims, lo + 1, hi)
    }
}

pub proof fn lemma_suffix_is_range(dims: Seq<usize>, j: int)
    requires
        0 <= j <= dims.len(),
    ensures
        suffix_prod(dims, j) == range_prod(dims, j, dims.len() as int),
    decreases dims.len() - j,
{
    if j < dims.len() {
        lemma_suffix_is_range(dims, j + 1);
    }
}

pub proof fn lemma_range_prod_pos(dims: Seq<usize>, lo: int, hi: int)
    requires
        all_pos(dims),
    ensures
        range_prod(dims, lo, hi) >= 1,
    decreases hi - lo,
{
    if !(lo < 0 || lo >= hi || hi > dims.len()) {
        lemma_range_prod_pos(dims, lo + 1, hi);
        assert(dims[lo] * range_prod(dims, lo + 1, hi) >= 1) by (nonlinear_arith)
            requires
                dims[lo] >= 1,
                range_prod(dims, lo + 1, hi) >= 1,
        ;
    }
}

/// A product over a range splits at any midpoint.
pub proof fn lemma_range_prod_split(dims: Seq<usize>, lo: int, mid: int, hi: int)
    requires
        0 <= lo <= mid <= hi <= dims.len(),
    ensures
        range_prod(dims, lo, hi) == range_prod(dims, lo, mid) * range_prod(dims, mid, hi),
    decreases mid - lo,
{
    if lo == mid {
        assert(range_prod(dims, lo, mid) == 1);
    } else {
        lemma_range_prod_split(dims, lo + 1, mid, hi);
        let a = dims[lo] as int;
        let b = range_prod(dims, lo + 1, mid);
        let c = range_prod(dims, mid, hi);
        assert(a * (b * c) == (a * b) * c) by (nonlinear_arith);
        assert(range_prod(dims, lo, hi) == a * range_prod(dims, lo + 1, hi));
        assert(range_prod(dims, lo, mid) == a * b);
        assert(range_prod(dims, lo, hi) == a * (b * c));
    }
}

/// Products agree on segments whose elements correspond.
pub proof fn lemma_range_prod_congruent(
    s1: Seq<usize>,
    lo1: int,
    s2: Seq<usize>,
    lo2: int,
    len: int,
)
    requires
        len >= 0,
        0 <= lo1,
        lo1 + len <= s1.len(),
        0 <= lo2,
        lo2 + len <= s2.len(),
        forall|i: int| 0 <= i < len ==> s1[lo1 + i] == #[trigger] s2[lo2 + i],
    ensures
        range_prod(s1, lo1, lo1 + len) == range_prod(s2, lo2, lo2 + len),
    decreases len,
{
    if len > 0 {
        assert(s1[lo1 + 0] == s2[lo2 + 0]);
        assert forall|i: int| 0 <= i < len - 1 implies s1[lo1 + 1 + i] == #[trigger] s2[lo2 + 1 + i] by {
            assert(s1[lo1 + (i + 1)] == s2[lo2 + (i + 1)]);
        }
        lemma_range_prod_congruent(s1, lo1 + 1, s2, lo2 + 1, len - 1);
    }
}

/// The indexing expression: integer arithmetic over the free variable
/// `idx`, rendered into kernel source and evaluated to a physical offset.
#[derive(Debug)]
pub enum IndexExpr {
    Idx,
    Lit(usize),
    Sum(Box<IndexExpr>, Box<IndexExpr>),
    Prod(Box<IndexExpr>, Box<IndexExpr>),
    Quot(Box<IndexExpr>, Box<IndexExpr>),
    Rem(Box<IndexExpr>, Box<IndexExpr>),
}

/// Value of an expression at `idx`.  Division and remainder guard the
/// divisor; the trees this crate builds only ever divide by positive
/// literals.
pub open spec fn eval_expr(e: IndexExpr, idx: int) -> int
    decreases e,
{
    match e {
        IndexExpr::Idx => idx,
        IndexExpr::Lit(n) => n as int,
        IndexExpr::Sum(a, b) => eval_expr(*a, idx) + eval_expr(*b, idx),
        IndexExpr::Prod(a, b) => eval_expr(*a, idx) * eval_expr(*b, idx),
        IndexExpr::Quot(a, b) => if eval_expr(*b, idx) <= 0 {
            0
        } else {
            eval_expr(*a, idx) / eval_expr(*b, idx)
        },
        IndexExpr::Rem(a, b) => if eval_expr(*b, idx) <= 0 {
            0
        } else {
            eval_expr(*a, idx) % eval_expr(*b, idx)
        },
    }
}

pub open spec fn dec_digit(d: int) -> char {
    if d == 0 {
        '0'
    } else if d == 1 {
        '1'
    } else if d == 2 {
        '2'
    } else if d == 3 {
        '3'
    } else if d == 4 {
        '4'
    } else if d == 5 {
        '5'
    } else if d == 6 {
        '6'
    } else if d == 7 {
        '7'
    } else if d == 8 {
        '8'
    } else {
        '9'
    }
}

/// Decimal rendering of a number, most significant digit first.
pub open spec fn dec_chars(n: nat) -> Seq<char>
    decreases n,
{
    if n < 10 {
        seq![dec_digit(n as int)]
    } else {
        dec_chars(n / 10) + seq![dec_digit((n % 10) as int)]
    }
}

/// Rendering of an expression as a C integer expression over `idx`.
pub open spec fn expr_chars(e: IndexExpr) -> Seq<char>
    decreases e,
{
    match e {
        IndexExpr::Idx => "idx"@,
        IndexExpr::Lit(n) => dec_chars(n as nat),
        IndexExpr::Sum(a, b) => seq!['('] + expr_chars(*a) + " + "@ + expr_chars(*b) + seq![')'],
        IndexExpr::Prod(a, b) => seq!['('] + expr_chars(*a) + " * "@ + expr_chars(*b) + seq![')'],
        IndexExpr::Quot(a, b) => seq!['('] + expr_chars(*a) + " / "@ + expr_chars(*b) + seq![')'],
        IndexExpr::Rem(a, b) => seq!['('] + expr_chars(*a) + " % "@ + expr_chars(*b) + seq![')'],
    }
}

fn digit_str(d: usize) -> (r: &'static str)
    requires
        d < 10,
    ensures
        r@ == seq![dec_digit(d as int)],
{
    proof {
        reveal_strlit("0");
        reveal_strlit("1");
        reveal_strlit("2");
        reveal_strlit("3");
        reveal_strlit("4");
        reveal_strlit("5");
        reveal_strlit("6");
        reveal_strlit("7");
        reveal_strlit("8");
        reveal_strlit("9");
    }
    let r = match d {
        0 => "0",
        1 => "1",
        2 => "2",
        3 => "3",
        4 => "4",
        5 => "5",
        6 => "6",
        7 => "7",
        8 => "8",
        _ => "9",
    };
    proof {
        assert(r@ =~= seq![dec_digit(d as int)]);
    }
    r
}

/// Append the decimal rendering of `n`.
pub fn push_decimal(s: &mut String, n: usize)
    ensures
        final(s)@ == old(s)@ + dec_chars(n as nat),
    decreases n,
{
    if n < 10 {
        s.append(digit_str(n));
    } else {
        let ghost s0 = s@;
        push_decimal(s, n / 10);
        s.append(digit_str(n % 10));
        proof {
            assert(s@ =~= s0 + dec_chars(n as nat));
        }
    }
}

impl IndexExpr {
    /// Append this expression's C source form.
    pub fn push_source(&self, s: &mut String)
        ensures
            final(s)@ == old(s)@ + expr_chars(*self),
        decreases self,
    {
        let ghost s0 = s@;
        match self {
            IndexExpr::Idx => {
                s.append("idx");
            },
            IndexExpr::Lit(n) => {
                push_decimal(s, *n);
            },
            IndexExpr::Sum(a, b) => {
                s.append("(");
                a.push_source(s);
                s.append(" + ");
                b.push_source(s);
                s.append(")");
                proof {
                    assert(seq!['('] =~= "("@) by {
                        reveal_strlit("(");
                    }
                    assert(seq![')'] =~= ")"@) by {
                        reveal_strlit(")");
                    }
                    assert(s@ =~= s0 + expr_chars(*self));
                }
            },
            IndexExpr::Prod(a, b) => {
                s.append("(");
                a.push_source(s);
                s.append(" * ");
                b.push_source(s);
                s.append(")");
                proof {
                    assert(seq!['('] =~= "("@) by {
                        reveal_strlit("(");
                    }
                    assert(seq![')'] =~= ")"@) by {
                        reveal_strlit(")");
                    }
                    assert(s@ =~= s0 + expr_chars(*self));
                }
            },
            IndexExpr::Quot(a, b) => {
                s.append("(");
                a.push_source(s);
                s.append(" / ");
                b.push_source(s);
                s.append(")");
                proof {
                    assert(seq!['('] =~= "("@) by {
                        reveal_strlit("(");
                    }
                    assert(seq![')'] =~= ")"@) by {
                        reveal_strlit(")");
                    }
                    assert(s@ =~= s0 + expr_chars(*self));
                }
            },
            IndexExpr::Rem(a, b) => {
                s.append("(");
                a.push_source(s);
                s.append(" % ");
                b.push_source(s);
                s.append(")");
                proof {
                    assert(seq!['('] =~= "("@) by {
                        reveal_strlit("(");
                    }
                    assert(seq![')'] =~= ")"@) by {
                        reveal_strlit(")");
                    }
                    assert(s@ =~= s0 + expr_chars(*self));
                }
            },
        }
    }

    /// The expression as kernel-embeddable C source.
    pub fn to_string_no_range(&self) -> (r: String)
        ensures
            r@ == expr_chars(*self),
    {
        let mut s = String::new();
        self.push_source(&mut s);
        proof {
            assert(s@ =~= expr_chars(*self));
        }
        s
    }
}

/// The indexing expression of a view, built from the back: each
/// non-broadcast dimension contributes `((idx / post) % extent) * stride`.
pub open spec fn shape_expr_down(dims: Seq<usize>, fake: Seq<bool>, j: int) -> IndexExpr
    decreases dims.len() - j,
{
    if j < 0 || j >= dims.len() {
        IndexExpr::Lit(0)
    } else if fake[j] {
        shape_expr_down(dims, fake, j + 1)
    } else {
        IndexExpr::Sum(
            Box::new(
                IndexExpr::Prod(
                    Box::new(
                        IndexExpr::Rem(
                            Box::new(
                                IndexExpr::Quot(
                                    Box::new(IndexExpr::Idx),
                                    Box::new(IndexExpr::Lit(suffix_prod(dims, j + 1) as usize)),
                                ),
                            ),
                            Box::new(IndexExpr::Lit(dims[j])),
                        ),
                    ),
                    Box::new(IndexExpr::Lit(phys_suffix_prod(dims, fake, j + 1) as usize)),
                ),
            ),
            Box::new(shape_expr_down(dims, fake, j + 1)),
        )
    }
}

pub open spec fn shape_expr(dims: Seq<usize>, fake: Seq<bool>) -> IndexExpr {
    shape_expr_down(dims, fake, 0)
}

/// The built expression evaluates to the physical offset.
pub proof fn lemma_shape_expr_eval(dims: Seq<usize>, fake: Seq<bool>, idx: int, j: int)
    requires
        all_pos(dims),
        dims.len() == fake.len(),
        prod(dims) <= usize::MAX,
        idx >= 0,
        0 <= j,
    ensures
        eval_expr(shape_expr_down(dims, fake, j), idx) == offset_from(dims, fake, idx, j),
    decreases dims.len() - j,
{
    if j >= dims.len() {
    } else {
        lemma_shape_expr_eval(dims, fake, idx, j + 1);
        lemma_suffix_prod_pos(dims, j + 1);
        lemma_phys_suffix_prod_pos(dims, fake, j + 1);
        lemma_suffix_prod_le(dims, 0, j + 1);
        lemma_phys_le_suffix(dims, fake, j + 1);
        let sp = suffix_prod(dims, j + 1);
        let ps = phys_suffix_prod(dims, fake, j + 1);
        assert(sp as usize as int == sp);
        assert(ps as usize as int == ps);
        if !fake[j] {
            let q = IndexExpr::Quot(Box::new(IndexExpr::Idx), Box::new(IndexExpr::Lit(sp as usize)));
            let rm = IndexExpr::Rem(Box::new(q), Box::new(IndexExpr::Lit(dims[j])));
            let pr = IndexExpr::Prod(Box::new(rm), Box::new(IndexExpr::Lit(ps as usize)));
            assert(eval_expr(IndexExpr::Lit(sp as usize), idx) == sp);
            assert(eval_expr(IndexExpr::Idx, idx) == idx);
            assert(eval_expr(IndexExpr::Lit(dims[j]), idx) == dims[j] as int);
            assert(eval_expr(IndexExpr::Lit(ps as usize), idx) == ps);
            assert(eval_expr(q, idx) == idx / sp);
            assert(eval_expr(rm, idx) == (idx / sp) % (dims[j] as int));
            assert(eval_expr(pr, idx) == ((idx / sp) % (dims[j] as int)) * ps);
            assert(shape_expr_down(dims, fake, j) == IndexExpr::Sum(
                Box::new(pr),
                Box::new(shape_expr_down(dims, fake, j + 1)),
            ));
        }
    }
}

impl ShapeTracker {
    /// The symbolic indexing expression of this view.
    pub fn index_fn_node(&self) -> (r: IndexExpr)
        requires
            self.wf(),
        ensures
            r == shape_expr(self.dims@, self.fake@),
            forall|idx: int|
                idx >= 0 ==> eval_expr(r, idx) == phys_offset(self.dims@, self.fake@, idx),
    {
        let ghost dims = self.dims@;
        let ghost fake = self.fake@;
        let n = self.dims.len();
        let mut acc = IndexExpr::Lit(0);
        let mut post: usize = 1;
        let mut stride: usize = 1;
        let mut j: usize = n;
        proof {
            lemma_suffix_prod_pos(dims, n as int);
            lemma_phys_suffix_prod_pos(dims, fake, n as int);
        }
        while j > 0
            invariant
                j <= n,
                n == self.dims@.len(),
                self.wf(),
                dims == self.dims@,
                fake == self.fake@,
                post == suffix_prod(dims, j as int),
                stride == phys_suffix_prod(dims, fake, j as int),
                acc == shape_expr_down(dims, fake, j as int),
            decreases j,
        {
            j -= 1;
            let ghost jj = j as int;
            proof {
                lemma_suffix_prod_pos(dims, jj + 1);
                lemma_phys_suffix_prod_pos(dims, fake, jj + 1);
                lemma_suffix_prod_pos(dims, jj);
                lemma_suffix_prod_le(dims, 0, jj);
                lemma_phys_le_suffix(dims, fake, jj);
            }
            let d = self.dims[j];
            if !self.fake[j] {
                acc = IndexExpr::Sum(
                    Box::new(
                        IndexExpr::Prod(
                            Box::new(
                                IndexExpr::Rem(
                                    Box::new(
                                        IndexExpr::Quot(
                                            Box::new(IndexExpr::Idx),
                                            Box::new(IndexExpr::Lit(post)),
                                        ),
                                    ),
                                    Box::new(IndexExpr::Lit(d)),
                                ),
                            ),
                            Box::new(IndexExpr::Lit(stride)),
                        ),
                    ),
                    Box::new(acc),
                );
                proof {
                    assert(d * stride == phys_suffix_prod(dims, fake, jj));
                    assert(phys_suffix_prod(dims, fake, jj) <= suffix_prod(dims, jj));
                }
                stride = d * stride;
            }
            proof {
                assert(d * post == suffix_prod(dims, jj));
                assert(suffix_prod(dims, jj) <= suffix_prod(dims, 0));
            }
            post = d * post;
        }
        proof {
            lemma_shape_expr_eval_all(dims, fake);
        }
        acc
    }
}

/// `lemma_shape_expr_eval`, quantified over the index.
pub proof fn lemma_shape_expr_eval_all(dims: Seq<usize>, fake: Seq<bool>)
    requires
        all_pos(dims),
        dims.len() == fake.len(),
        prod(dims) <= usize::MAX,
    ensures
        forall|idx: int|
            idx >= 0 ==> eval_expr(#[trigger] shape_expr(dims, fake), idx) == phys_offset(
                dims,
                fake,
                idx,
            ),
{
    assert forall|idx: int| idx >= 0 implies eval_expr(shape_expr(dims, fake), idx) == phys_offset(
        dims,
        fake,
        idx,
    ) by {
        lemma_shape_expr_eval(dims, fake, idx, 0);
    }
}

} // verus!
