//! Tensors on the host: extents, and elements in row-major order.

use crate::arith::{product, span};
use crate::error::{Error, Result};
use crate::shape::{copy_dims, count};
use vstd::prelude::*;

verus! {

/// What a tensor holds, with a zero that changes no sum and makes every product zero.
///
/// That two lowerings of a convolution give the same elements, and that positions without a weight
/// count nothing, rests on those laws of zero. Integers have them. Floats have them except where
/// an infinity, a value that is not a number, or a negative zero is involved: what is proved by
/// these laws is not promised of floats there.
pub trait Element: Copy {
    spec fn spec_zero() -> Self;

    spec fn spec_plus(self, other: Self) -> Self;

    spec fn spec_times(self, other: Self) -> Self;

    /// Zero.
    fn zero() -> (r: Self)
        ensures
            r == Self::spec_zero(),
    ;

    /// The sum.
    fn plus(self, other: Self) -> (r: Self)
        ensures
            r == self.spec_plus(other),
    ;

    /// The product.
    fn times(self, other: Self) -> (r: Self)
        ensures
            r == self.spec_times(other),
    ;

    /// Zero changes no sum, and makes every product zero.
    proof fn zero_laws(self)
        ensures
            Self::spec_zero().spec_plus(self) == self,
            self.spec_plus(Self::spec_zero()) == self,
            Self::spec_zero().spec_times(self) == Self::spec_zero(),
    ;
}

impl Element for i64 {
    open spec fn spec_zero() -> i64 {
        0
    }

    open spec fn spec_plus(self, other: i64) -> i64 {
        self.wrapping_add(other)
    }

    open spec fn spec_times(self, other: i64) -> i64 {
        self.wrapping_mul(other)
    }

    fn zero() -> (r: i64) {
        0
    }

    fn plus(self, other: i64) -> (r: i64) {
        self.wrapping_add(other)
    }

    fn times(self, other: i64) -> (r: i64) {
        self.wrapping_mul(other)
    }

    proof fn zero_laws(self) {
        assert(0 * (self as int) == 0);
    }
}

impl Element for u32 {
    open spec fn spec_zero() -> u32 {
        0
    }

    open spec fn spec_plus(self, other: u32) -> u32 {
        self.wrapping_add(other)
    }

    open spec fn spec_times(self, other: u32) -> u32 {
        self.wrapping_mul(other)
    }

    fn zero() -> (r: u32) {
        0
    }

    fn plus(self, other: u32) -> (r: u32) {
        self.wrapping_add(other)
    }

    fn times(self, other: u32) -> (r: u32) {
        self.wrapping_mul(other)
    }

    proof fn zero_laws(self) {
        assert(0 * (self as int) == 0);
    }
}

/// Elements that can be taken away from one another.
pub trait Signed: Element {
    spec fn spec_minus(self, other: Self) -> Self;

    /// The difference.
    fn minus(self, other: Self) -> (r: Self)
        ensures
            r == self.spec_minus(other),
    ;
}

impl Signed for i64 {
    open spec fn spec_minus(self, other: i64) -> i64 {
        self.wrapping_sub(other)
    }

    fn minus(self, other: i64) -> (r: i64) {
        self.wrapping_sub(other)
    }
}

/// The operation that a tensor came from, where gradients flow through it.
#[derive(Debug, Clone, Copy, PartialEq, Eq, Structural)]
pub enum Op {
    Conv1D { padding: usize, stride: usize, dilation: usize },
    ConvTranspose1D {
        padding: usize,
        output_padding: usize,
        stride: usize,
        dilation: usize,
    },
    Conv2D { padding: usize, stride: usize, dilation: usize },
    ConvTranspose2D {
        padding: usize,
        output_padding: usize,
        stride: usize,
        dilation: usize,
    },
    Narrow { dim: usize, start: usize, len: usize },
    Cat { dim: usize },
    Binary,
}

/// How the device that holds a tensor evaluates a grouped two-dimensional convolution.
#[derive(Debug, Clone, Copy, PartialEq, Eq, Structural)]
pub enum Backend {
    /// One group at a time.
    Split,
    /// All groups at once.
    Fused,
}

/// A tensor.
#[derive(Debug)]
pub struct Tensor<E> {
    /// The extents, outermost first.
    pub dims: Vec<usize>,
    /// The elements in row-major order.
    pub data: Vec<E>,
    /// Gradients are asked for with respect to this tensor.
    pub is_variable: bool,
    /// Where the tensor came from. Nothing is recorded where no gradient flows.
    pub op: Option<Op>,
    /// What the device that holds the tensor can do.
    pub backend: Backend,
}

/// The element at `i` along dimension `d`, at `o` in the outer dimensions and `t` in the inner
/// ones, both flattened.
pub open spec fn along<E>(
    dims: Seq<usize>,
    data: Seq<E>,
    d: int,
    o: int,
    i: int,
    t: int,
) -> E {
    data[(o * dims[d] + i) * product(dims.skip(d + 1)) + t]
}

/// Positions along dimension `d` that exist.
pub open spec fn within(dims: Seq<usize>, d: int, o: int, i: int, t: int) -> bool {
    &&& 0 <= o < product(dims.take(d))
    &&& 0 <= i < dims[d]
    &&& 0 <= t < product(dims.skip(d + 1))
}

/// What is recorded of an operation on operands that gradients may flow through.
pub open spec fn recorded(op: Op, flows: bool) -> Option<Op> {
    if flows {
        Some(op)
    } else {
        None
    }
}

impl<E> Tensor<E> {
    /// The extents can be counted, and there are as many elements as they say.
    pub open spec fn wf(&self) -> bool {
        &&& span(self.dims@) <= usize::MAX
        &&& self.data@.len() == product(self.dims@)
    }

    /// Whether gradients flow through this tensor.
    pub open spec fn differentiable(&self) -> bool {
        self.is_variable || self.op is Some
    }

    /// The element at `i` along dimension `d`.
    pub open spec fn along(&self, d: int, o: int, i: int, t: int) -> E {
        along(self.dims@, self.data@, d, o, i, t)
    }

    /// The element at two indices.
    pub open spec fn at2(&self, a: int, b: int) -> E {
        self.data@[a * self.dims@[1] + b]
    }

    /// The element at three indices.
    pub open spec fn at3(&self, a: int, b: int, c: int) -> E {
        self.data@[(a * self.dims@[1] + b) * self.dims@[2] + c]
    }

    /// The element at four indices.
    pub open spec fn at4(&self, a: int, b: int, c: int, d: int) -> E {
        self.data@[((a * self.dims@[1] + b) * self.dims@[2] + c) * self.dims@[3] + d]
    }

    /// Whether gradients flow through this tensor.
    pub fn track_op(&self) -> (r: bool)
        ensures
            r == self.differentiable(),
    {
        self.is_variable || self.op.is_some()
    }

    /// A tensor of the given extents and elements; an error where their number is another.
    pub fn from_vec(data: Vec<E>, dims: &[usize], backend: Backend) -> (r: Result<Self>)
        requires
            span(dims@) <= usize::MAX,
        ensures
            match r {
                Ok(t) => {
                    &&& data@.len() == product(dims@)
                    &&& t.wf()
                    &&& t.dims@ == dims@
                    &&& t.data@ == data@
                    &&& t.backend == backend
                    &&& !t.differentiable()
                },
                Err(e) => data@.len() != product(dims@) && e.is_mismatch(
                    seq![data@.len() as usize],
                    dims@,
                    "from_vec"@,
                ),
            },
    {
        let n: usize = data.len();
        if n != count(dims) {
            let lhs: Vec<usize> = vec![n];
            assert(lhs@ =~= seq![n]);
            return Err(
                Error::ShapeMismatchBinaryOp { lhs, rhs: copy_dims(dims), op: "from_vec" },
            );
        }
        Ok(Tensor { dims: copy_dims(dims), data, is_variable: false, op: None, backend })
    }

    /// The three extents; an error for any other rank.
    pub fn dims3(&self) -> (r: Result<(usize, usize, usize)>)
        ensures
            match r {
                Ok(t) => self.dims@ == seq![t.0, t.1, t.2],
                Err(e) => self.dims@.len() != 3 && e == (Error::UnexpectedNumberOfDims {
                    expected: 3,
                    got: self.dims@.len() as usize,
                }),
            },
    {
        if self.dims.len() == 3 {
            let t: (usize, usize, usize) = (self.dims[0], self.dims[1], self.dims[2]);
            assert(self.dims@ =~= seq![t.0, t.1, t.2]);
            Ok(t)
        } else {
            Err(Error::UnexpectedNumberOfDims { expected: 3, got: self.dims.len() })
        }
    }

    /// The four extents; an error for any other rank.
    pub fn dims4(&self) -> (r: Result<(usize, usize, usize, usize)>)
        ensures
            match r {
                Ok(t) => self.dims@ == seq![t.0, t.1, t.2, t.3],
                Err(e) => self.dims@.len() != 4 && e == (Error::UnexpectedNumberOfDims {
                    expected: 4,
                    got: self.dims@.len() as usize,
                }),
            },
    {
        if self.dims.len() == 4 {
            let t: (usize, usize, usize, usize) = (
                self.dims[0],
                self.dims[1],
                self.dims[2],
                self.dims[3],
            );
            assert(self.dims@ =~= seq![t.0, t.1, t.2, t.3]);
            Ok(t)
        } else {
            Err(Error::UnexpectedNumberOfDims { expected: 4, got: self.dims.len() })
        }
    }
}

/// What is recorded of an operation on operands that gradients may flow through.
pub fn record(op: Op, flows: bool) -> (r: Option<Op>)
    ensures
        r == recorded(op, flows),
{
    if flows {
        Some(op)
    } else {
        None
    }
}

/// The positions before and behind dimension `d`.
pub fn outer_inner(dims: &[usize], d: usize) -> (r: (usize, usize))
    requires
        d < dims@.len(),
        span(dims@) <= usize::MAX,
    ensures
        r.0 == product(dims@.take(d as int)),
        r.1 == product(dims@.skip(d as int + 1)),
{
    let rank: usize = dims.len();
    let before: &[usize] = vstd::slice::slice_subrange(dims, 0, d);
    let behind: &[usize] = vstd::slice::slice_subrange(dims, d + 1, rank);
    proof {
        assert(before@ =~= dims@.take(d as int));
        assert(behind@ =~= dims@.skip(d as int + 1));
        crate::arith::lemma_span_split(dims@, d as int);
        let (a, m, b) = (
            span(before@),
            crate::arith::max_nat(dims@[d as int] as nat, 1),
            span(behind@),
        );
        crate::arith::lemma_span_positive(before@);
        crate::arith::lemma_span_positive(behind@);
        assert(a <= a * (m * b)) by (nonlinear_arith)
            requires
                1 <= a,
                1 <= m,
                1 <= b,
        ;
        assert(b <= a * (m * b)) by (nonlinear_arith)
            requires
                1 <= a,
                1 <= m,
                1 <= b,
        ;
    }
    (count(before), count(behind))
}

/// Where an index of elements with `size` positions along a dimension lies: outside, along and
/// inside of it.
pub open spec fn split_index(p: int, size: int, inner: int) -> (int, int, int) {
    ((p / inner) / size, (p / inner) % size, p % inner)
}

/// An index splits into the positions that it was put together from.
pub proof fn lemma_split_index(o: int, i: int, t: int, size: int, inner: int)
    requires
        0 <= i < size,
        0 <= t < inner,
    ensures
        split_index((o * size + i) * inner + t, size, inner) == (o, i, t),
{
    crate::arith::lemma_index_split(o * size + i, t, inner);
    crate::arith::lemma_index_split(o, i, size);
}

/// The positions of an index are in range, and put it back together.
pub proof fn lemma_join_index(p: int, outer: int, size: int, inner: int)
    requires
        0 <= p < outer * (size * inner),
        0 <= size,
        0 <= inner,
    ensures
        ({
            let (o, i, t) = split_index(p, size, inner);
            &&& 0 <= o < outer
            &&& 0 <= i < size
            &&& 0 <= t < inner
            &&& (o * size + i) * inner + t == p
        }),
{
    assert(outer * (size * inner) == (outer * size) * inner) by (nonlinear_arith);
    assert(size > 0 && inner > 0) by (nonlinear_arith)
        requires
            0 <= p < outer * (size * inner),
            0 <= size,
            0 <= inner,
    ;
    crate::arith::lemma_index_join(p, outer * size, inner);
    crate::arith::lemma_index_join(p / inner, outer, size);
}

/// An index along a dimension is below the number of elements.
pub proof fn lemma_index_in_range(o: int, i: int, t: int, outer: int, size: int, inner: int)
    requires
        0 <= o < outer,
        0 <= i < size,
        0 <= t < inner,
    ensures
        0 <= o * size + i < outer * size,
        0 <= (o * size + i) * inner + t < outer * (size * inner),
{
    crate::arith::lemma_index_bound(o, i, outer, size);
    crate::arith::lemma_index_bound(o * size + i, t, outer * size, inner);
    assert(outer * (size * inner) == (outer * size) * inner) by (nonlinear_arith);
}

/// The extents of two tensors differ along one dimension at most.
pub open spec fn appendable(a: Seq<usize>, b: Seq<usize>, d: int) -> bool {
    &&& a.len() == b.len()
    &&& forall|j: int| 0 <= j < a.len() && j != d ==> a[j] == b[j]
}

/// The extents of two tensors, one behind the other along a dimension.
pub open spec fn appended_dims(a: Seq<usize>, b: Seq<usize>, d: int) -> Seq<usize> {
    a.update(d, (a[d] + b[d]) as usize)
}

/// `r` holds the elements of `a`, and those of `b` behind them along a dimension.
pub open spec fn appended<E>(r: Tensor<E>, a: Tensor<E>, b: Tensor<E>, dim: usize) -> bool {
    let d = dim as int;
    &&& r.wf()
    &&& r.dims@ == appended_dims(a.dims@, b.dims@, d)
    &&& forall|o: int, i: int, t: int|
        within(r.dims@, d, o, i, t) ==> #[trigger] r.along(d, o, i, t) == if i < a.dims@[d] {
            a.along(d, o, i, t)
        } else {
            b.along(d, o, i - a.dims@[d], t)
        }
    &&& r.op == recorded(Op::Cat { dim }, a.differentiable() || b.differentiable())
    &&& !r.is_variable
    &&& r.backend == a.backend
}

/// Tensors with the same element everywhere hold the same.
pub proof fn lemma_same_elements<E>(a: Tensor<E>, b: Tensor<E>, d: int)
    requires
        a.wf(),
        b.wf(),
        a.dims@ == b.dims@,
        0 <= d < a.dims@.len(),
        forall|o: int, i: int, t: int|
            within(a.dims@, d, o, i, t) ==> #[trigger] a.along(d, o, i, t) == b.along(d, o, i, t),
    ensures
        a.data@ == b.data@,
{
    let dims = a.dims@;
    let (outer, size, inner) = (product(dims.take(d)), dims[d] as int, product(dims.skip(d + 1)));
    crate::arith::lemma_product_split(dims, d);
    assert forall|p: int| 0 <= p < a.data@.len() implies a.data@[p] == b.data@[p] by {
        lemma_join_index(p, outer as int, size, inner as int);
        let (o, i, t) = split_index(p, size, inner as int);
        assert(within(dims, d, o, i, t));
        assert(a.along(d, o, i, t) == b.along(d, o, i, t));
    }
    assert(a.data@ =~= b.data@);
}

/// Three tensors, one behind the other, are the same whichever two are put together first: what
/// comes in one piece is what comes in two.
pub proof fn law_appending_in_steps<E>(
    a: Tensor<E>,
    b: Tensor<E>,
    c: Tensor<E>,
    bc: Tensor<E>,
    ab: Tensor<E>,
    steps: Tensor<E>,
    whole: Tensor<E>,
    dim: usize,
)
    requires
        dim < a.dims@.len(),
        appendable(a.dims@, b.dims@, dim as int),
        appendable(b.dims@, c.dims@, dim as int),
        a.dims@[dim as int] + b.dims@[dim as int] + c.dims@[dim as int] <= usize::MAX,
        appended(bc, b, c, dim),
        appended(ab, a, b, dim),
        appended(steps, ab, c, dim),
        appended(whole, a, bc, dim),
    ensures
        steps.dims@ == whole.dims@,
        steps.data@ == whole.data@,
{
    let d = dim as int;
    assert(steps.dims@ =~= whole.dims@);
    let (na, nb) = (a.dims@[d] as int, b.dims@[d] as int);
    assert(ab.dims@.take(d) =~= steps.dims@.take(d));
    assert(ab.dims@.skip(d + 1) =~= steps.dims@.skip(d + 1));
    assert(bc.dims@.take(d) =~= steps.dims@.take(d));
    assert(bc.dims@.skip(d + 1) =~= steps.dims@.skip(d + 1));
    assert forall|o: int, i: int, t: int|
        within(steps.dims@, d, o, i, t) implies #[trigger] steps.along(d, o, i, t) == whole.along(
        d,
        o,
        i,
        t,
    ) by {
        assert(within(whole.dims@, d, o, i, t));
        assert(whole.along(d, o, i, t) == if i < na {
            a.along(d, o, i, t)
        } else {
            bc.along(d, o, i - na, t)
        });
        if i < na + nb {
            assert(within(ab.dims@, d, o, i, t));
            assert(ab.along(d, o, i, t) == if i < na {
                a.along(d, o, i, t)
            } else {
                b.along(d, o, i - na, t)
            });
        }
        if i >= na {
            assert(within(bc.dims@, d, o, i - na, t));
            assert(bc.along(d, o, i - na, t) == if i - na < nb {
                b.along(d, o, i - na, t)
            } else {
                c.along(d, o, i - na - nb, t)
            });
        }
    }
    lemma_same_elements(steps, whole, d);
}

/// What is computed on the way to an index is no larger than the index.
pub proof fn lemma_steps(o: int, size: int, i: int, inner: int)
    requires
        0 <= o,
        0 <= size,
        0 <= i,
        1 <= inner,
    ensures
        0 <= o * size <= o * size + i,
        o * size + i <= (o * size + i) * inner,
{
    assert(0 <= o * size) by (nonlinear_arith)
        requires
            0 <= o,
            0 <= size,
    ;
    assert(o * size + i <= (o * size + i) * inner) by (nonlinear_arith)
        requires
            0 <= o * size + i,
            1 <= inner,
    ;
}

/// How many parts a dimension is cut into.
pub open spec fn chunk_count(size: int, chunks: int) -> int {
    crate::arith::min_int(size, chunks)
}

/// How many positions part `i` has.
pub open spec fn chunk_size(size: int, chunks: int, i: int) -> int {
    if size < chunks {
        1
    } else if i < size % chunks {
        size / chunks + 1
    } else {
        size / chunks
    }
}

/// Where part `i` starts.
pub open spec fn chunk_start(size: int, chunks: int, i: int) -> int {
    if size < chunks {
        i
    } else {
        i * (size / chunks) + crate::arith::min_int(i, size % chunks)
    }
}

/// Each part starts where the one before it ends, and all are within the dimension.
pub proof fn lemma_chunk_start(size: int, chunks: int, i: int)
    requires
        0 < chunks,
        0 <= size,
        0 <= i <= chunk_count(size, chunks),
    ensures
        chunk_start(size, chunks, 0) == 0,
        0 <= chunk_start(size, chunks, i) <= size,
        i < chunk_count(size, chunks) ==> chunk_start(size, chunks, i + 1) == chunk_start(
            size,
            chunks,
            i,
        ) + chunk_size(size, chunks, i),
        i == chunk_count(size, chunks) ==> chunk_start(size, chunks, i) == size,
{
    if size >= chunks {
        let (q, m) = (size / chunks, size % chunks);
        vstd::arithmetic::div_mod::lemma_fundamental_div_mod(size, chunks);
        vstd::arithmetic::div_mod::lemma_mod_bound(size, chunks);
        assert((i + 1) * q == i * q + q) by (nonlinear_arith);
        assert(chunks * q == q * chunks) by (nonlinear_arith);
        assert(q >= 0) by (nonlinear_arith)
            requires
                q == size / chunks,
                size >= 0,
                chunks > 0,
        ;
        assert(0 <= i * q <= chunks * q) by (nonlinear_arith)
            requires
                0 <= i <= chunks,
                q >= 0,
        ;
    }
}

/// `r` holds the positions from `start` on of `s` along a dimension, `len` of them.
pub open spec fn narrowed<E>(
    r: Tensor<E>,
    s: Tensor<E>,
    dim: usize,
    start: usize,
    len: usize,
) -> bool {
    &&& r.wf()
    &&& r.dims@ == s.dims@.update(dim as int, len)
    &&& forall|o: int, i: int, t: int|
        within(r.dims@, dim as int, o, i, t) ==> #[trigger] r.along(dim as int, o, i, t)
            == s.along(dim as int, o, start + i, t)
    &&& r.op == recorded(Op::Narrow { dim, start, len }, s.differentiable())
    &&& !r.is_variable
    &&& r.backend == s.backend
}

impl<E: Element> Tensor<E> {
    /// A tensor of zeros.
    pub fn zeros(dims: &[usize], backend: Backend) -> (r: Self)
        requires
            span(dims@) <= usize::MAX,
        ensures
            r.wf(),
            r.dims@ == dims@,
            forall|p: int| 0 <= p < r.data@.len() ==> #[trigger] r.data@[p] == E::spec_zero(),
            r.backend == backend,
            !r.differentiable(),
    {
        let n: usize = count(dims);
        let mut data: Vec<E> = Vec::with_capacity(n);
        let mut i: usize = 0;
        while i < n
            invariant
                i <= n,
                data@.len() == i,
                forall|p: int| 0 <= p < i ==> #[trigger] data@[p] == E::spec_zero(),
            decreases n - i,
        {
            data.push(E::zero());
            i = i + 1;
        }
        Tensor { dims: copy_dims(dims), data, is_variable: false, op: None, backend }
    }
}

impl<E: Copy> Tensor<E> {
    /// The positions from `start` on along a dimension, `len` of them.
    pub fn narrow(&self, dim: usize, start: usize, len: usize) -> (r: Self)
        requires
            self.wf(),
            dim < self.dims@.len(),
            start + len <= self.dims@[dim as int],
        ensures
            narrowed(r, *self, dim, start, len),
    {
        let ghost d = dim as int;
        let (outer, inner) = outer_inner(self.dims.as_slice(), dim);
        let size: usize = self.dims[dim];
        let mut dims: Vec<usize> = copy_dims(self.dims.as_slice());
        dims.set(dim, len);
        proof {
            crate::arith::lemma_span_update(self.dims@, d, len);
            crate::arith::lemma_product_update(self.dims@, d, len);
            crate::arith::lemma_product_split(self.dims@, d);
            crate::arith::lemma_product_le_span(self.dims@);
            crate::arith::lemma_product_le_span(dims@);
            assert(dims@.take(d) =~= self.dims@.take(d));
            assert(dims@.skip(d + 1) =~= self.dims@.skip(d + 1));
        }
        let total: usize = count(dims.as_slice());
        let mut data: Vec<E> = Vec::with_capacity(total);
        let mut p: usize = 0;
        while p < total
            invariant
                p <= total,
                total == outer * (len * inner),
                self.data@.len() == outer * (size * inner),
                self.data@.len() <= usize::MAX,
                start + len <= size,
                data@.len() == p,
                forall|q: int|
                    0 <= q < p ==> #[trigger] data@[q] == ({
                        let (o, i, t) = split_index(q, len as int, inner as int);
                        self.data@[(o * size + (start + i)) * inner + t]
                    }),
            decreases total - p,
        {
            proof {
                lemma_join_index(p as int, outer as int, len as int, inner as int);
                let (o, i, t) = split_index(p as int, len as int, inner as int);
                lemma_index_in_range(o, start + i, t, outer as int, size as int, inner as int);
                assert(o * size + (start + i) <= (o * size + (start + i)) * inner)
                    by (nonlinear_arith)
                    requires
                        inner >= 1,
                        o * size + (start + i) >= 0,
                ;
            }
            let h: usize = p / inner;
            let o: usize = h / len;
            let i: usize = h % len;
            let t: usize = p % inner;
            assert(0 <= o * size <= o * size + (start + i)) by (nonlinear_arith)
                requires
                    o >= 0,
                    size >= 0,
                    start + i >= 0,
            ;
            data.push(self.data[(o * size + (start + i)) * inner + t]);
            p = p + 1;
        }
        let r: Tensor<E> = Tensor {
            dims,
            data,
            is_variable: false,
            op: record(Op::Narrow { dim, start, len }, self.track_op()),
            backend: self.backend,
        };
        proof {
            assert forall|o: int, i: int, t: int|
                within(r.dims@, d, o, i, t) implies #[trigger] r.along(d, o, i, t) == self.along(
                d,
                o,
                start + i,
                t,
            ) by {
                lemma_split_index(o, i, t, len as int, inner as int);
                lemma_index_in_range(o, i, t, outer as int, len as int, inner as int);
                let q = (o * len + i) * inner + t;
                assert(r.data@[q] == self.data@[(o * size + (start + i)) * inner + t]);
            }
        }
        r
    }

    /// Cuts a dimension into `chunks` parts that differ by one position at most, the larger ones
    /// first. Where there are fewer positions than parts, there are as many parts as positions.
    pub fn chunk(&self, chunks: usize, dim: usize) -> (r: Vec<Self>)
        requires
            self.wf(),
            dim < self.dims@.len(),
            chunks > 0,
        ensures
            r@.len() == chunk_count(self.dims@[dim as int] as int, chunks as int),
            forall|i: int|
                0 <= i < r@.len() ==> narrowed(
                    #[trigger] r@[i],
                    *self,
                    dim,
                    chunk_start(self.dims@[dim as int] as int, chunks as int, i) as usize,
                    chunk_size(self.dims@[dim as int] as int, chunks as int, i) as usize,
                ),
    {
        let size: usize = self.dims[dim];
        let parts: usize = if size < chunks {
            size
        } else {
            chunks
        };
        let mut r: Vec<Self> = Vec::new();
        let mut i: usize = 0;
        let mut start: usize = 0;
        proof {
            lemma_chunk_start(size as int, chunks as int, 0);
        }
        while i < parts
            invariant
                i <= parts,
                chunks > 0,
                self.wf(),
                dim < self.dims@.len(),
                size == self.dims@[dim as int],
                parts == chunk_count(size as int, chunks as int),
                start == chunk_start(size as int, chunks as int, i as int),
                r@.len() == i,
                forall|j: int|
                    0 <= j < i ==> narrowed(
                        #[trigger] r@[j],
                        *self,
                        dim,
                        chunk_start(size as int, chunks as int, j) as usize,
                        chunk_size(size as int, chunks as int, j) as usize,
                    ),
            decreases parts - i,
        {
            proof {
                lemma_chunk_start(size as int, chunks as int, i as int);
                lemma_chunk_start(size as int, chunks as int, i as int + 1);
            }
            let len: usize = if size < chunks {
                1
            } else if i < size % chunks {
                size / chunks + 1
            } else {
                size / chunks
            };
            r.push(self.narrow(dim, start, len));
            start = start + len;
            i = i + 1;
        }
        r
    }

    /// A copy that shares nothing with this tensor. Gradients do not flow through it.
    pub fn copy(&self) -> (r: Self)
        requires
            self.wf(),
        ensures
            r.wf(),
            r.dims@ == self.dims@,
            r.data@ == self.data@,
            r.backend == self.backend,
            !r.differentiable(),
    {
        let n: usize = self.data.len();
        let mut data: Vec<E> = Vec::with_capacity(n);
        let mut i: usize = 0;
        while i < n
            invariant
                i <= n,
                n == self.data@.len(),
                data@ == self.data@.take(i as int),
            decreases n - i,
        {
            data.push(self.data[i]);
            assert(self.data@.take(i as int + 1) =~= self.data@.take(i as int).push(
                self.data@[i as int],
            ));
            i = i + 1;
        }
        assert(self.data@.take(n as int) =~= self.data@);
        Tensor {
            dims: copy_dims(self.dims.as_slice()),
            data,
            is_variable: false,
            op: None,
            backend: self.backend,
        }
    }

    /// This tensor and another one behind it along a dimension; an error where they differ in
    /// another extent.
    pub fn append(&self, other: &Self, dim: usize) -> (r: Result<Self>)
        requires
            self.wf(),
            other.wf(),
            dim < self.dims@.len(),
            appendable(self.dims@, other.dims@, dim as int) ==> {
                &&& self.dims@[dim as int] + other.dims@[dim as int] <= usize::MAX
                &&& span(appended_dims(self.dims@, other.dims@, dim as int)) <= usize::MAX
            },
        ensures
            match r {
                Ok(t) => appendable(self.dims@, other.dims@, dim as int) && appended(
                    t,
                    *self,
                    *other,
                    dim,
                ),
                Err(e) => !appendable(self.dims@, other.dims@, dim as int) && e.is_mismatch(
                    self.dims@,
                    other.dims@,
                    "cat"@,
                ),
            },
    {
        let ghost d = dim as int;
        let rank: usize = self.dims.len();
        let mut same: bool = other.dims.len() == rank;
        let mut i: usize = 0;
        while same && i < rank
            invariant
                i <= rank,
                rank == self.dims@.len(),
                d == dim,
                same ==> other.dims@.len() == rank,
                same ==> forall|j: int|
                    0 <= j < i && j != d ==> self.dims@[j] == other.dims@[j],
                !same ==> !appendable(self.dims@, other.dims@, d),
            decreases rank - i,
        {
            if i != dim && self.dims[i] != other.dims[i] {
                same = false;
            }
            i = i + 1;
        }
        if !same {
            return Err(
                Error::ShapeMismatchBinaryOp {
                    lhs: copy_dims(self.dims.as_slice()),
                    rhs: copy_dims(other.dims.as_slice()),
                    op: "cat",
                },
            );
        }
        let (outer, inner) = outer_inner(self.dims.as_slice(), dim);
        let (left, right) = (self.dims[dim], other.dims[dim]);
        let wide: usize = left + right;
        let mut dims: Vec<usize> = copy_dims(self.dims.as_slice());
        dims.set(dim, wide);
        proof {
            assert(other.dims@ =~= self.dims@.update(d, right));
            crate::arith::lemma_product_update(self.dims@, d, wide);
            crate::arith::lemma_product_update(self.dims@, d, right);
            crate::arith::lemma_product_split(self.dims@, d);
            crate::arith::lemma_product_le_span(dims@);
            crate::arith::lemma_product_le_span(self.dims@);
            crate::arith::lemma_product_le_span(other.dims@);
            assert(dims@.take(d) =~= self.dims@.take(d));
            assert(dims@.skip(d + 1) =~= self.dims@.skip(d + 1));
            assert(other.dims@.take(d) =~= self.dims@.take(d));
            assert(other.dims@.skip(d + 1) =~= self.dims@.skip(d + 1));
        }
        let total: usize = count(dims.as_slice());
        let mut data: Vec<E> = Vec::with_capacity(total);
        let mut p: usize = 0;
        while p < total
            invariant
                p <= total,
                wide == left + right,
                total == outer * (wide * inner),
                self.data@.len() == outer * (left * inner),
                other.data@.len() == outer * (right * inner),
                self.data@.len() <= usize::MAX,
                other.data@.len() <= usize::MAX,
                data@.len() == p,
                forall|q: int|
                    0 <= q < p ==> #[trigger] data@[q] == ({
                        let (o, i, t) = split_index(q, wide as int, inner as int);
                        if i < left {
                            self.data@[(o * left + i) * inner + t]
                        } else {
                            other.data@[(o * right + (i - left)) * inner + t]
                        }
                    }),
            decreases total - p,
        {
            proof {
                lemma_join_index(p as int, outer as int, wide as int, inner as int);
            }
            let h: usize = p / inner;
            let o: usize = h / wide;
            let i: usize = h % wide;
            let t: usize = p % inner;
            if i < left {
                proof {
                    lemma_index_in_range(
                        o as int,
                        i as int,
                        t as int,
                        outer as int,
                        left as int,
                        inner as int,
                    );
                    lemma_steps(o as int, left as int, i as int, inner as int);
                }
                data.push(self.data[(o * left + i) * inner + t]);
            } else {
                proof {
                    lemma_index_in_range(
                        o as int,
                        i - left,
                        t as int,
                        outer as int,
                        right as int,
                        inner as int,
                    );
                    lemma_steps(o as int, right as int, i - left, inner as int);
                }
                data.push(other.data[(o * right + (i - left)) * inner + t]);
            }
            p = p + 1;
        }
        let r: Tensor<E> = Tensor {
            dims,
            data,
            is_variable: false,
            op: record(Op::Cat { dim }, self.track_op() || other.track_op()),
            backend: self.backend,
        };
        proof {
            assert forall|o: int, i: int, t: int|
                within(r.dims@, d, o, i, t) implies #[trigger] r.along(d, o, i, t) == if i < left {
                self.along(d, o, i, t)
            } else {
                other.along(d, o, i - left, t)
            } by {
                lemma_split_index(o, i, t, wide as int, inner as int);
                lemma_index_in_range(o, i, t, outer as int, wide as int, inner as int);
                let q = (o * wide + i) * inner + t;
                assert(r.data@[q] == if i < left {
                    self.data@[(o * left + i) * inner + t]
                } else {
                    other.data@[(o * right + (i - left)) * inner + t]
                });
            }
        }
        Ok(r)
    }

    /// Tensors of the same extents, one behind the other along a dimension; an error where there
    /// is none.
    pub fn cat(blocks: &Vec<Self>, dim: usize) -> (r: Result<Self>)
        requires
            forall|g: int|
                0 <= g < blocks@.len() ==> (#[trigger] blocks@[g]).wf() && blocks@[g].dims@
                    == blocks@[0].dims@,
            blocks@.len() > 0 ==> {
                &&& dim < blocks@[0].dims@.len()
                &&& blocks@.len() * blocks@[0].dims@[dim as int] <= usize::MAX
                &&& span(
                    blocks@[0].dims@.update(
                        dim as int,
                        (blocks@.len() * blocks@[0].dims@[dim as int]) as usize,
                    ),
                ) <= usize::MAX
            },
        ensures
            match r {
                Ok(r) => {
                    let size = blocks@[0].dims@[dim as int] as int;
                    &&& blocks@.len() > 0
                    &&& r.wf()
                    &&& r.dims@ == blocks@[0].dims@.update(
                        dim as int,
                        (blocks@.len() * size) as usize,
                    )
                    &&& forall|g: int, o: int, i: int, t: int|
                        0 <= g < blocks@.len() && within(blocks@[0].dims@, dim as int, o, i, t)
                            ==> r.along(dim as int, o, g * size + i, t) == #[trigger] blocks@[g].along(
                            dim as int,
                            o,
                            i,
                            t,
                        )
                    &&& r.op == recorded(
                        Op::Cat { dim },
                        exists|g: int| 0 <= g < blocks@.len() && (#[trigger] blocks@[g]).differentiable(),
                    )
                    &&& !r.is_variable
                    &&& r.backend == blocks@[0].backend
                },
                Err(e) => blocks@.len() == 0 && e.is_empty_list("cat"@),
            },
    {
        if blocks.len() == 0 {
            return Err(Error::OpRequiresAtLeastOneTensor { op: "cat" });
        }
        let ghost d = dim as int;
        let n: usize = blocks.len();
        let (outer, inner) = outer_inner(blocks[0].dims.as_slice(), dim);
        let size: usize = blocks[0].dims[dim];
        let wide: usize = n * size;
        let ghost dims0 = blocks@[0].dims@;
        let mut dims: Vec<usize> = copy_dims(blocks[0].dims.as_slice());
        dims.set(dim, wide);
        proof {
            crate::arith::lemma_product_update(dims0, d, wide);
            crate::arith::lemma_product_split(dims0, d);
            crate::arith::lemma_product_le_span(dims@);
            crate::arith::lemma_product_le_span(dims0);
            assert(dims@.take(d) =~= dims0.take(d));
            assert(dims@.skip(d + 1) =~= dims0.skip(d + 1));
        }
        let total: usize = count(dims.as_slice());
        let mut data: Vec<E> = Vec::with_capacity(total);
        let mut p: usize = 0;
        while p < total
            invariant
                p <= total,
                n == blocks@.len(),
                wide == n * size,
                total == outer * (wide * inner),
                forall|g: int|
                    0 <= g < n ==> (#[trigger] blocks@[g]).data@.len() == outer * (size * inner),
                outer * (size * inner) <= usize::MAX,
                data@.len() == p,
                forall|q: int|
                    0 <= q < p ==> #[trigger] data@[q] == ({
                        let (o, c, t) = split_index(q, wide as int, inner as int);
                        blocks@[c / size as int].data@[(o * size + c % size as int) * inner + t]
                    }),
            decreases total - p,
        {
            proof {
                lemma_join_index(p as int, outer as int, wide as int, inner as int);
                let (o, c, t) = split_index(p as int, wide as int, inner as int);
                assert(size > 0) by (nonlinear_arith)
                    requires
                        0 <= c < n * size,
                        n >= 0,
                        size >= 0,
                ;
                crate::arith::lemma_index_join(c, n as int, size as int);
                lemma_index_in_range(
                    o,
                    c % size as int,
                    t,
                    outer as int,
                    size as int,
                    inner as int,
                );
                assert(o * size + c % size as int <= (o * size + c % size as int) * inner)
                    by (nonlinear_arith)
                    requires
                        inner >= 1,
                        o * size + c % size as int >= 0,
                ;
            }
            let h: usize = p / inner;
            let o: usize = h / wide;
            let c: usize = h % wide;
            let t: usize = p % inner;
            let g: usize = c / size;
            let i: usize = c % size;
            assert(0 <= o * size <= o * size + i) by (nonlinear_arith)
                requires
                    o >= 0,
                    size >= 0,
                    i >= 0,
            ;
            assert(blocks@[g as int].data@.len() == outer * (size * inner));
            data.push(blocks[g].data[(o * size + i) * inner + t]);
            p = p + 1;
        }
        let mut flows: bool = false;
        let mut g: usize = 0;
        while g < n
            invariant
                g <= n,
                n == blocks@.len(),
                flows == (exists|h: int| 0 <= h < g && (#[trigger] blocks@[h]).differentiable()),
            decreases n - g,
        {
            if blocks[g].track_op() {
                flows = true;
                assert(blocks@[g as int].differentiable());
            }
            g = g + 1;
        }
        let r: Tensor<E> = Tensor {
            dims,
            data,
            is_variable: false,
            op: record(Op::Cat { dim }, flows),
            backend: blocks[0].backend,
        };
        proof {
            assert forall|g: int, o: int, i: int, t: int|
                0 <= g < n && within(dims0, d, o, i, t) implies r.along(d, o, g * size + i, t)
                == #[trigger] blocks@[g].along(d, o, i, t) by {
                crate::arith::lemma_index_bound(g, i, n as int, size as int);
                crate::arith::lemma_index_split(g, i, size as int);
                lemma_split_index(o, g * size + i, t, wide as int, inner as int);
                lemma_index_in_range(
                    o,
                    g * size + i,
                    t,
                    outer as int,
                    wide as int,
                    inner as int,
                );
                let q = (o * wide + (g * size + i)) * inner + t;
                assert(r.data@[q] == blocks@[g].data@[(o * size + i) * inner + t]);
                assert(blocks@[g].dims@ == dims0);
            }
        }
        Ok(r)
    }
}

/// The parts of a dimension lie one behind the other and together are all of it. They differ by one
/// position at most, and the larger ones come first.
pub proof fn law_chunks_are_even(size: int, chunks: int, i: int, j: int)
    requires
        0 < chunks,
        0 < size,
        0 <= i <= j < chunk_count(size, chunks),
    ensures
        chunk_start(size, chunks, 0) == 0,
        chunk_start(size, chunks, i) + chunk_size(size, chunks, i) == chunk_start(
            size,
            chunks,
            i + 1,
        ),
        chunk_start(size, chunks, chunk_count(size, chunks)) == size,
        1 <= chunk_size(size, chunks, j) <= chunk_size(size, chunks, i) <= chunk_size(
            size,
            chunks,
            j,
        ) + 1,
{
    let q = size / chunks;
    vstd::arithmetic::div_mod::lemma_fundamental_div_mod(size, chunks);
    vstd::arithmetic::div_mod::lemma_mod_bound(size, chunks);
    assert(chunks * q == q * chunks && (i + 1) * q == i * q + q && 0 * q == 0) by (nonlinear_arith);
    if size >= chunks {
        assert(q >= 1) by (nonlinear_arith)
            requires
                size >= chunks,
                chunks > 0,
                q == size / chunks,
        ;
    }
}

/// Narrowing gives back what was put together: of two tensors, one behind the other along a dimension,
/// the first positions are the first tensor and the others the second.
pub proof fn law_narrowing_undoes_appending<E>(
    r: Tensor<E>,
    a: Tensor<E>,
    b: Tensor<E>,
    first: Tensor<E>,
    second: Tensor<E>,
    dim: usize,
)
    requires
        dim < a.dims@.len(),
        appendable(a.dims@, b.dims@, dim as int),
        a.dims@[dim as int] + b.dims@[dim as int] <= usize::MAX,
        appended(r, a, b, dim),
        narrowed(first, r, dim, 0, a.dims@[dim as int]),
        narrowed(second, r, dim, a.dims@[dim as int], b.dims@[dim as int]),
    ensures
        first.dims@ == a.dims@,
        second.dims@ == b.dims@,
        forall|o: int, i: int, t: int|
            within(a.dims@, dim as int, o, i, t) ==> #[trigger] first.along(dim as int, o, i, t)
                == a.along(dim as int, o, i, t),
        forall|o: int, i: int, t: int|
            within(b.dims@, dim as int, o, i, t) ==> #[trigger] second.along(dim as int, o, i, t)
                == b.along(dim as int, o, i, t),
{
    let d = dim as int;
    let n = a.dims@[d] as int;
    assert(first.dims@ =~= a.dims@);
    assert(second.dims@ =~= b.dims@);
    let c = r.dims@;
    assert(a.dims@.take(d) =~= c.take(d) && b.dims@.take(d) =~= c.take(d));
    assert(a.dims@.skip(d + 1) =~= c.skip(d + 1) && b.dims@.skip(d + 1) =~= c.skip(d + 1));
    assert forall|o: int, i: int, t: int| within(a.dims@, d, o, i, t) implies #[trigger] first.along(
        d,
        o,
        i,
        t,
    ) == a.along(d, o, i, t) by {
        assert(within(c, d, o, 0 + i, t));
        assert(first.along(d, o, i, t) == r.along(d, o, 0 + i, t));
    }
    assert forall|o: int, i: int, t: int| within(b.dims@, d, o, i, t) implies #[trigger] second.along(
        d,
        o,
        i,
        t,
    ) == b.along(d, o, i, t) by {
        assert(within(c, d, o, n + i, t));
        assert(second.along(d, o, i, t) == r.along(d, o, n + i, t));
    }
}

} // verus!
