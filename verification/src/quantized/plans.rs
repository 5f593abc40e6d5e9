//! What the planned launches read and write, element by element.
//!
//! A plan is right where its launches, with what they bind, find every operand where it is and
//! put every element of the result where the result's shape has it.

use crate::arith::{product, span};
use crate::dtype::DType;
use crate::error::Result;
use crate::kernels::bindings::{
    fused_countable, get_rows_params, is_read, is_written, law_fused_matrix_addresses,
    law_fused_vector_addresses, law_gather_addresses, law_vector_addresses, lemma_row_of_slot, mm_id_params, mm_params, mv_id_params, mv_params,
    row_of_slot,
};
use crate::kernels::launch::{Dispatch, Launch, Source};
use crate::kernels::names::{
    law_gathering_kernels_by_format, law_matrix_kernels_by_format, spelled,
};
use crate::quantized::metal::{
    addressable, chunk_len, chunk_size, embedding_outcome, expert_row_bytes, float_strides,
    format_bytes, fwd_is_mm,
    fwd_mv_outcome, fwd_outcome, kernel_dtype, lemma_moe_offsets, lemma_pad4, lemma_vectors,
    moe_addressable, moe_chunks_outcome, moe_outcome, moe_refusal, moe_vectors_outcome, pad4,
    stride_bytes, vectors, MetalDevice, Operand, Plan, QView,
};
use crate::quantized::GgmlDType;
use crate::shape::{dense_stride, Layout, Shape};
use vstd::prelude::*;

verus! {

/// The extent `i` places before the last, or one where there is none.
pub open spec fn extent(dims: Seq<usize>, i: int) -> int {
    if dims.len() > i {
        dims[dims.len() - 1 - i] as int
    } else {
        1
    }
}

/// The product of up to four extents.
proof fn lemma_extents(dims: Seq<usize>)
    requires
        2 <= dims.len() <= 4,
    ensures
        product(dims) == ((extent(dims, 3) * extent(dims, 2)) * extent(dims, 1)) * extent(dims, 0),
{
    reveal_with_fuel(product, 5);
    let (a, b, c, d) = (extent(dims, 3), extent(dims, 2), extent(dims, 1), extent(dims, 0));
    assert(((a * b) * c) * d == a * (b * (c * (d * 1)))) by (nonlinear_arith);
    assert(((1 * b) * c) * d == b * (c * (d * 1))) by (nonlinear_arith);
    assert(((1int * 1) * c) * d == c * (d * 1)) by (nonlinear_arith);
}

/// The strides of four densely packed extents.
proof fn lemma_strides(dims: Seq<usize>)
    requires
        dims.len() == 4,
    ensures
        dense_stride(dims) == seq![
            (dims[1] * dims[2] * dims[3]) as nat,
            (dims[2] * dims[3]) as nat,
            dims[3] as nat,
            1nat,
        ],
{
    reveal_with_fuel(product, 5);
    let s = dense_stride(dims);
    let (b, c, d) = (dims[1] as int, dims[2] as int, dims[3] as int);
    assert(b * c * d == b * (c * (d * 1))) by (nonlinear_arith);
    assert(c * d == c * (d * 1)) by (nonlinear_arith);
    assert(dims.skip(4).len() == 0);
    assert(s =~= seq![
        (dims[1] * dims[2] * dims[3]) as nat,
        (dims[2] * dims[3]) as nat,
        dims[3] as nat,
        1nat,
    ]);
}

/// `e` is one of the matrices that activations hold, by their two outer extents.
pub open spec fn entry(e: (int, int), src: Seq<usize>) -> bool {
    0 <= e.0 < extent(src, 3) && 0 <= e.1 < extent(src, 2)
}

/// The extents and strides of densely packed floats fit what they are bound as.
proof fn lemma_float_strides(src: Seq<usize>)
    requires
        2 <= src.len() <= 4,
        span(src) * 4 <= i64::MAX,
        span(src) * 4 <= usize::MAX,
    ensures
        ({
            let s1 = pad4(src);
            let f = float_strides(s1);
            let (a, b) = (extent(src, 3), extent(src, 2));
            let (m, k) = (extent(src, 1), extent(src, 0));
            &&& s1.len() == 4
            &&& s1[3] == k && s1[2] == m && s1[1] == b && s1[0] == a
            &&& f.len() == 4
            &&& f[0] == b * m * k * 4 && f[1] == m * k * 4 && f[2] == k * 4 && f[3] == 4
            &&& 0 <= b * m * k * 4 <= i64::MAX && 0 <= m * k * 4 <= i64::MAX
            &&& 0 <= k * 4 <= i64::MAX && 0 <= m <= i64::MAX
            &&& 0 <= b <= i64::MAX && 0 <= a <= i64::MAX
            &&& 0 <= a * b <= usize::MAX
        }),
{
    let s1 = pad4(src);
    let (a, b) = (extent(src, 3), extent(src, 2));
    lemma_pad4(src);
    lemma_strides(s1);
    crate::arith::lemma_suffix_fits(s1, 1);
    crate::arith::lemma_suffix_fits(s1, 2);
    crate::arith::lemma_suffix_fits(s1, 3);
    crate::arith::lemma_extent_le_span(s1, 0);
    crate::arith::lemma_extent_le_span(s1, 1);
    crate::arith::lemma_extent_le_span(s1, 2);
    crate::arith::lemma_extent_le_span(s1, 3);
    crate::arith::lemma_prefix_fits(s1, 2);
    let d = dense_stride(s1);
    assert(d[0] == product(s1.skip(1)) && d[1] == product(s1.skip(2)) && d[2] == product(
        s1.skip(3),
    ));
    assert(s1.take(2) =~= seq![s1[0], s1[1]]);
    assert(product(s1.take(2)) == a * b) by {
        reveal_with_fuel(product, 3);
        assert(a * (b * 1) == a * b) by (nonlinear_arith);
    }
}

/// What the launch of a matrix-matrix product binds.
proof fn lemma_product_params(
    p: Plan,
    shape: Shape,
    s: QView,
    self_shape: Seq<usize>,
    device: MetalDevice,
    dtype: DType,
    layout: Layout,
)
    requires
        fwd_outcome(Ok((p, shape)), s, self_shape, device, dtype, layout),
        fwd_is_mm(self_shape, layout),
        span(layout.shape@) * 4 <= i64::MAX,
        span(layout.shape@) * 4 <= usize::MAX,
        span(self_shape) <= i64::MAX,
    ensures
        p.launches@.len() == 1,
        2 <= self_shape.len() <= 4,
        2 <= layout.shape@.len() <= 4,
        ({
            let src = layout.shape@;
            let l = p.launches@[0];
            let q = mm_params(l);
            let (n, k, m) = (extent(self_shape, 1), extent(self_shape, 0), extent(src, 1));
            let (a, b) = (extent(src, 3), extent(src, 2));
            let (c, d) = (extent(self_shape, 3), extent(self_shape, 2));
            let (row, matrix, group) = (
                stride_bytes(s.dtype, k as nat),
                stride_bytes(s.dtype, (n * k) as nat),
                stride_bytes(s.dtype, (d * n * k) as nat),
            );
            &&& l.source == Source::Quantized
            &&& l.name@ == "kernel_mul_mm"@ + spelled(kernel_dtype(s.dtype)) + "_f32"@
            &&& l.args@.len() == 17
            &&& l.threadgroup_memory == Some(8192usize)
            &&& is_read(l.args@[0], Operand::Weights) && is_read(l.args@[1], Operand::Input)
                && is_written(l.args@[2], Operand::Dst)
            &&& shape@ == src.update(src.len() - 1, self_shape[self_shape.len() - 2])
            &&& p.dst_elems == product(shape@)
            &&& q.src0 == s.offset && q.src1 == 0 && q.dst == 0
            &&& q.ne00 == k && q.ne0 == n && q.ne1 == m && q.ne12 == b
            &&& q.nb13 == b * m * k * 4 && q.nb12 == m * k * 4 && q.nb11 == k * 4 && q.nb10 == 4
            &&& row <= i64::MAX ==> q.nb01 == row
            &&& matrix <= i64::MAX ==> q.nb02 == matrix
            &&& group <= i64::MAX ==> q.nb03 == group
            &&& d > 0 && b / d <= u32::MAX ==> q.r2 == b / d
            &&& c > 0 && a / c <= u32::MAX ==> q.r3 == a / c
            &&& l.dispatch matches Dispatch::ThreadGroups { count, size } && {
                &&& size.width == 4 * 32 && size.height == 1 && size.depth == 1
                &&& count.width == crate::arith::ceil_div(m, 32)
                &&& count.height == crate::arith::ceil_div(n, 64)
                &&& count.depth == a * b
            }
        }),
{
    law_matrix_kernels_by_format(kernel_dtype(s.dtype));
    let src = layout.shape@;
    let s0 = pad4(self_shape);
    lemma_pad4(self_shape);
    lemma_strides(s0);
    lemma_float_strides(src);
    crate::arith::lemma_extent_le_span(s0, 2);
    crate::arith::lemma_extent_le_span(s0, 3);
    crate::arith::lemma_extent_le_span(s0, 1);
    crate::arith::lemma_ceil_div_covers(extent(src, 1), 32);
    crate::arith::lemma_ceil_div_covers(extent(self_shape, 1), 64);
    let (a, b) = (extent(src, 3), extent(src, 2));
    let (c, d) = (extent(self_shape, 3), extent(self_shape, 2));
    assert(a * b == b * a) by (nonlinear_arith);
    assert(d > 0 ==> b / d >= 0) by (nonlinear_arith)
        requires
            b >= 0,
    ;
    assert(c > 0 ==> a / c >= 0) by (nonlinear_arith)
        requires
            a >= 0,
    ;
}

/// The matrix-matrix product of `[.., n, k]` weights with `[.., m, k]` activations gives
/// `[.., m, n]` elements, and its one launch
///
/// - reads element `c` of row `i` of each matrix of activations where row-major order has it, from
///   the start of their allocation;
/// - writes output `j` of row `i` where row-major order has it in the result, which is all of the
///   result's buffer;
/// - reads the weights row by row from where they start, each batch entry its own matrix where
///   there are as many, and all of them the same one where there is one;
/// - has threadgroups for all rows, all outputs and all batch entries.
pub proof fn law_product_addresses(
    p: Plan,
    shape: Shape,
    s: QView,
    self_shape: Seq<usize>,
    device: MetalDevice,
    dtype: DType,
    layout: Layout,
)
    requires
        fwd_outcome(Ok((p, shape)), s, self_shape, device, dtype, layout),
        fwd_is_mm(self_shape, layout),
        span(layout.shape@) * 4 <= i64::MAX,
        span(layout.shape@) * 4 <= usize::MAX,
        span(self_shape) <= i64::MAX,
    ensures
        p.device == device,
        p.launches@.len() == 1,
        ({
            let src = layout.shape@;
            let l = p.launches@[0];
            let q = mm_params(l);
            let (n, k, m) = (extent(self_shape, 1), extent(self_shape, 0), extent(src, 1));
            let (a, b) = (extent(src, 3), extent(src, 2));
            let (row, matrix, group) = (
                stride_bytes(s.dtype, k as nat),
                stride_bytes(s.dtype, (n * k) as nat),
                stride_bytes(s.dtype, (extent(self_shape, 2) * n * k) as nat),
            );
            &&& l.source == Source::Quantized
            &&& l.name@ == "kernel_mul_mm"@ + spelled(kernel_dtype(s.dtype)) + "_f32"@
            &&& l.args@.len() == 17
            &&& l.threadgroup_memory == Some(8192usize)
            &&& is_read(l.args@[0], Operand::Weights) && is_read(l.args@[1], Operand::Input)
                && is_written(l.args@[2], Operand::Dst)
            &&& shape@.len() == src.len() && extent(shape@, 0) == n && extent(shape@, 1) == m
            &&& extent(shape@, 2) == b && extent(shape@, 3) == a
            &&& p.dst_elems == a * b * m * n
            &&& q.ne00 == k && q.ne0 == n && q.ne1 == m && q.ne12 == b
            &&& forall|e: (int, int), i: int, c: int| #[trigger]
                q.input_at(e, i, c) == (((e.0 * b + e.1) * m + i) * k + c) * 4
            &&& forall|e: (int, int), i: int, j: int| #[trigger]
                q.output_at(e, i, j) == (((e.0 * b + e.1) * m + i) * n + j) * 4
            &&& forall|e: (int, int), i: int, j: int|
                entry(e, src) && 0 <= i < m && 0 <= j < n ==> 0 <= #[trigger] q.output_at(e, i, j)
                    < p.dst_elems * 4
            &&& row <= i64::MAX && extent(self_shape, 2) == 1 && extent(self_shape, 3) == 1 && a
                <= u32::MAX && b <= u32::MAX ==> forall|e: (int, int), j: int|
                entry(e, src) ==> #[trigger] q.weights_at(e, j) == s.offset + j * row
            &&& row <= i64::MAX && matrix <= i64::MAX && group <= i64::MAX && extent(self_shape, 2)
                == b && extent(self_shape, 3) == a && a > 0 && b > 0 ==> forall|
                e: (int, int),
                j: int,
            | #[trigger]
                q.weights_at(e, j) == s.offset + e.0 * group + e.1 * matrix + j * row
            &&& l.dispatch matches Dispatch::ThreadGroups { count, size } && {
                &&& size.width == 4 * 32 && size.height == 1 && size.depth == 1
                &&& (count.width - 1) * 32 < m <= count.width * 32
                &&& (count.height - 1) * 64 < n <= count.height * 64
                &&& count.depth == a * b
            }
        }),
{
    let src = layout.shape@;
    let q = mm_params(p.launches@[0]);
    let (n, k, m) = (extent(self_shape, 1), extent(self_shape, 0), extent(src, 1));
    let (a, b) = (extent(src, 3), extent(src, 2));
    lemma_product_params(p, shape, s, self_shape, device, dtype, layout);
    lemma_extents(shape@);
    assert forall|e: (int, int), i: int, c: int| #[trigger]
        q.input_at(e, i, c) == (((e.0 * b + e.1) * m + i) * k + c) * 4 by {
        let (x, y) = e;
        let z = x * b + y;
        let w = m * k * 4;
        assert(b * m * k * 4 == b * w) by (nonlinear_arith)
            requires
                w == m * k * 4,
        ;
        assert(x * (b * w) + y * w == (x * b + y) * w) by (nonlinear_arith);
        crate::kernels::bindings::lemma_dense_row(z, m, i, k, c);
    }
    assert forall|e: (int, int), i: int, j: int| #[trigger]
        q.output_at(e, i, j) == (((e.0 * b + e.1) * m + i) * n + j) * 4 by {
        let (x, y) = e;
        assert((x * b + y) * m * n + i * n + j == ((x * b + y) * m + i) * n + j)
            by (nonlinear_arith);
    }
    assert forall|e: (int, int), i: int, j: int|
        entry(e, src) && 0 <= i < m && 0 <= j < n implies 0 <= #[trigger] q.output_at(e, i, j)
        < p.dst_elems * 4 by {
        crate::arith::lemma_index_bound(e.0, e.1, a, b);
        crate::arith::lemma_index_bound(e.0 * b + e.1, i, a * b, m);
        crate::arith::lemma_index_bound((e.0 * b + e.1) * m + i, j, a * b * m, n);
    }
    crate::arith::lemma_ceil_div_covers(m, 32);
    crate::arith::lemma_ceil_div_covers(n, 64);
    let (c, d) = (extent(self_shape, 3), extent(self_shape, 2));
    let row = stride_bytes(s.dtype, k as nat);
    if row <= i64::MAX && c == 1 && d == 1 && a <= u32::MAX && b <= u32::MAX {
        assert(a / 1 == a && b / 1 == b);
        assert forall|e: (int, int), j: int| entry(e, src) implies #[trigger] q.weights_at(e, j)
            == s.offset + j * row by {
            vstd::arithmetic::div_mod::lemma_basic_div(e.0, a);
            vstd::arithmetic::div_mod::lemma_basic_div(e.1, b);
            assert(0 * q.nb03 == 0 && 0 * q.nb02 == 0);
        }
    }
    if c == a && d == b && a > 0 && b > 0 {
        vstd::arithmetic::div_mod::lemma_div_by_self(a);
        vstd::arithmetic::div_mod::lemma_div_by_self(b);
        assert forall|e: (int, int), j: int| #[trigger]
            q.weights_at(e, j) == s.offset + e.0 * q.nb03 + e.1 * q.nb02 + j * q.nb01 by {
            assert(e.0 / 1 == e.0 && e.1 / 1 == e.1);
        }
    }
}

/// The product of an `[n, k]` matrix with vectors takes one launch for each vector. Launch `i`
/// reads the `i`-th of the vectors, which lie one behind the other from where the activations
/// start, and writes the `i`-th row of the result. The rows are all of the result's buffer.
pub proof fn law_vector_plan(
    p: Plan,
    shape: Shape,
    s: QView,
    self_shape: Seq<usize>,
    device: MetalDevice,
    dtype: DType,
    layout: Layout,
)
    requires
        fwd_mv_outcome(Ok((p, shape)), s, self_shape, device, dtype, layout),
        addressable(self_shape, dtype, layout),
        self_shape[0] <= i64::MAX,
        self_shape[1] <= i64::MAX,
    ensures
        p.device == device,
        ({
            let src = layout.shape@;
            let (n, k) = (self_shape[0] as int, self_shape[1] as int);
            &&& extent(shape@, 0) == n
            &&& forall|d: int| d > 0 ==> #[trigger] extent(shape@, d) == extent(src, d)
            &&& p.launches@.len() * k == product(src)
            &&& p.launches@.len() * n == p.dst_elems
            &&& forall|i: int|
                0 <= i < p.launches@.len() ==> {
                    let l = #[trigger] p.launches@[i];
                    let q = mv_params(l);
                    &&& is_read(l.args@[0], Operand::Weights) && is_read(
                        l.args@[1],
                        Operand::Input,
                    ) && is_written(l.args@[2], Operand::Dst)
                    &&& q.src0 == s.offset
                    &&& q.src1 == (layout.start_offset + i * k) * dtype.bytes()
                    &&& dtype == DType::F32 ==> forall|c: int| #[trigger]
                        q.input_at(0, 0, c) == (layout.start_offset + i * k + c) * 4
                    &&& forall|j: int| #[trigger] q.output_at(0, 0, j) == (i * n + j) * 4
                    &&& q.ne00 == k && q.ne10 == k && q.ne01 == n && q.ne0 == n
                    &&& q.ne02 == 1 && q.ne11 == 1 && q.ne12 == 1 && q.ne1 == 1
                }
        }),
{
    let src = layout.shape@;
    let (n, k) = (self_shape[0] as int, self_shape[1] as int);
    let v = vectors(src);
    lemma_vectors(src, self_shape[0]);
    lemma_extents(src);
    lemma_extents(shape@);
    let (b, m) = (extent(src, 2), extent(src, 1));
    assert(((1 * b) * m) * k == (b * m) * k && ((1 * b) * m) * n == (b * m) * n)
        by (nonlinear_arith);
    assert(v == b * m) by (nonlinear_arith)
        requires
            src.len() == 3 ==> v == b * m,
            src.len() != 3 ==> b == 1 && v == m,
    ;
    let size = dtype.bytes() as int;
    assert forall|i: int| 0 <= i < p.launches@.len() implies {
        let l = #[trigger] p.launches@[i];
        let q = mv_params(l);
        &&& is_read(l.args@[0], Operand::Weights) && is_read(l.args@[1], Operand::Input)
            && is_written(l.args@[2], Operand::Dst)
        &&& q.src0 == s.offset
        &&& q.src1 == (layout.start_offset + i * k) * dtype.bytes()
        &&& dtype == DType::F32 ==> forall|c: int| #[trigger]
            q.input_at(0, 0, c) == (layout.start_offset + i * k + c) * 4
        &&& forall|j: int| #[trigger] q.output_at(0, 0, j) == (i * n + j) * 4
        &&& q.ne00 == k && q.ne10 == k && q.ne01 == n && q.ne0 == n
        &&& q.ne02 == 1 && q.ne11 == 1 && q.ne12 == 1 && q.ne1 == 1
    } by {
        let start = layout.start_offset as int;
        let l = p.launches@[i];
        assert(0 <= i * k <= v * k && 0 <= i * n <= v * n) by (nonlinear_arith)
            requires
                0 <= i < v,
                0 <= k,
                0 <= n,
        ;
        assert(0 <= (start + i * k) * size <= (start + span(src)) * size) by (nonlinear_arith)
            requires
                0 <= i * k <= span(src),
                0 <= size,
                0 <= start,
        ;
        law_vector_addresses(
            l,
            kernel_dtype(s.dtype),
            (1, 1, self_shape[0], self_shape[1]),
            Operand::Input,
            ((start + i * k) * size) as usize,
            Operand::Weights,
            s.offset,
            (i * n * 4) as usize,
            Operand::Dst,
        );
        let q = mv_params(l);
        assert(0int * 1 + 0 == 0);
        assert forall|j: int| #[trigger] q.output_at(0, 0, j) == (i * n + j) * 4 by {
            assert(0 * n == 0);
        }
        if dtype == DType::F32 {
            assert forall|c: int| #[trigger] q.input_at(0, 0, c) == (start + i * k + c) * 4 by {
                assert(0 * k == 0);
            }
        }
    }
}

/// Where a fused launch reads element `c` of the activations of slot `s` of its token `t`. The
/// vector kernels take three parameters more than the matrix kernels.
pub open spec fn slot_input(l: Launch<'static, Operand>, t: int, s: int, c: int) -> int {
    if l.args@.len() == 23 {
        mv_id_params(l).input_at(t, s, c)
    } else {
        mm_id_params(l).input_at(t, s, c)
    }
}

/// Where a fused launch reads which expert slot `s` of its token `t` has.
pub open spec fn slot_id(l: Launch<'static, Operand>, t: int, s: int) -> int {
    if l.args@.len() == 23 {
        mv_id_params(l).id_at(t, s)
    } else {
        mm_id_params(l).id_at(t, s)
    }
}

/// Where a fused launch writes output `j` of slot `s` of its token `t`.
pub open spec fn slot_output(l: Launch<'static, Operand>, t: int, s: int, j: int) -> int {
    if l.args@.len() == 23 {
        mv_id_params(l).output_at(t, s, j)
    } else {
        mm_id_params(l).output_at(t, s, j)
    }
}

/// Where the weights of expert `e` start for a fused launch.
pub open spec fn expert_at(l: Launch<'static, Operand>, e: int) -> int {
    if l.args@.len() == 23 {
        mv_id_params(l).expert_at(e)
    } else {
        mm_id_params(l).row_at(e, 0)
    }
}

/// The tokens that a fused launch takes.
pub open spec fn tokens(l: Launch<'static, Operand>) -> int {
    if l.args@.len() == 23 {
        mv_id_params(l).nei1
    } else {
        mm_id_params(l).nei1
    }
}

/// The tokens that the first `i` launches take.
pub open spec fn tokens_before(launches: Seq<Launch<'static, Operand>>, i: int) -> int
    decreases i,
{
    if i <= 0 {
        0
    } else {
        tokens_before(launches, i - 1) + tokens(launches[i - 1])
    }
}

/// What a fused product is of: where its three operands start, and how they are laid out.
pub ghost struct Fused {
    /// The byte at which the stacked experts start, and the bytes of one output row of one.
    pub weights: int,
    pub row_bytes: int,
    /// The elements at which the activations and the ids start.
    pub input: int,
    pub ids: int,
    /// Output extent, inner extent, rows of activations per token, experts per token.
    pub n: int,
    pub k: int,
    pub in_dim1: int,
    pub topk: int,
}

/// Slot `s` of token `u` of launch `l` is slot `s` of token `t` of the whole batch: it reads that
/// slot's row of activations and its id, finds each expert in the stack, and writes that slot's
/// row of the result.
pub open spec fn serves(l: Launch<'static, Operand>, u: int, t: int, s: int, f: Fused) -> bool {
    &&& forall|c: int| #[trigger]
        slot_input(l, u, s, c) == (f.input + row_of_slot(f.in_dim1, t, s) * f.k + c) * 4
    &&& slot_id(l, u, s) == (f.ids + t * f.topk + s) * 4
    &&& forall|j: int| #[trigger] slot_output(l, u, s, j) == ((t * f.topk + s) * f.n + j) * 4
    &&& forall|e: int| #[trigger] expert_at(l, e) == f.weights + e * (f.row_bytes * f.n)
}

/// A fused launch is of a kernel for the format, and its operands are the ones that its kernel names
/// there.
pub open spec fn fused_operands(l: Launch<'static, Operand>, dtype: GgmlDType) -> bool {
    &&& l.source == Source::Quantized
    &&& l.name@ == (if l.args@.len() == 23 {
        "kernel_mul_mv_id"@
    } else {
        "kernel_mul_mm_id"@
    }) + spelled(kernel_dtype(dtype)) + "_f32"@
    &&& is_read(l.args@[0], Operand::Weights)
    &&& is_read(l.args@[1], Operand::Input)
    &&& is_written(l.args@[2], Operand::Dst)
    &&& is_read(l.args@[3], Operand::Ids)
}

/// The fused product that `indexed_moe_forward` is asked for.
pub open spec fn fused_of(
    s: QView,
    enk: (usize, usize, usize),
    bit: (usize, usize, usize),
    input_start: usize,
    ids_start: usize,
) -> Fused {
    Fused {
        weights: s.offset as int,
        row_bytes: expert_row_bytes(s.dtype, enk.2),
        input: input_start as int,
        ids: ids_start as int,
        n: enk.1 as int,
        k: enk.2 as int,
        in_dim1: bit.1 as int,
        topk: bit.2 as int,
    }
}

/// What a fused product reads and writes fits in a machine word.
pub open spec fn fused_fits(
    s: QView,
    enk: (usize, usize, usize),
    bit: (usize, usize, usize),
    input_start: usize,
    ids_start: usize,
) -> bool {
    let (batch, in_dim1, topk) = (bit.0 as int, bit.1 as int, bit.2 as int);
    &&& fused_countable(enk, bit)
    &&& (input_start + batch * (in_dim1 * enk.2)) * 4 <= usize::MAX
    &&& (ids_start + batch * topk) * 4 <= usize::MAX
    &&& batch * (topk * enk.1) * 4 <= usize::MAX
    &&& expert_row_bytes(s.dtype, enk.2) * enk.1 <= usize::MAX
}

/// A launch over the tokens from `done` on serves the slots of those tokens.
proof fn lemma_serves(
    l: Launch<'static, Operand>,
    u: int,
    done: int,
    s: int,
    f: Fused,
)
    requires
        forall|c: int| #[trigger]
            slot_input(l, u, s, c) == f.input * 4 + done * (f.in_dim1 * f.k * 4) + (row_of_slot(
                f.in_dim1,
                u,
                s,
            ) * f.k + c) * 4,
        slot_id(l, u, s) == f.ids * 4 + done * (f.topk * 4) + (u * f.topk + s) * 4,
        forall|j: int| #[trigger]
            slot_output(l, u, s, j) == done * (f.topk * f.n * 4) + ((u * f.topk + s) * f.n + j) * 4,
        forall|e: int| #[trigger] expert_at(l, e) == f.weights + e * (f.row_bytes * f.n),
    ensures
        serves(l, u, done + u, s, f),
{
    let t = done + u;
    let (d, k, p, n) = (f.in_dim1, f.k, f.topk, f.n);
    assert forall|c: int| #[trigger]
        slot_input(l, u, s, c) == (f.input + row_of_slot(d, t, s) * k + c) * 4 by {
        let r = row_of_slot(d, u, s);
        assert(row_of_slot(d, t, s) == done * d + r) by {
            assert((done + u) * d == done * d + u * d) by (nonlinear_arith);
        }
        assert((done * d + r) * k == (done * d) * k + r * k) by (nonlinear_arith);
        assert(done * (d * k * 4) == ((done * d) * k) * 4) by (nonlinear_arith);
    }
    assert(done * (p * 4) == (done * p) * 4 && (done + u) * p == done * p + u * p)
        by (nonlinear_arith);
    assert forall|j: int| #[trigger] slot_output(l, u, s, j) == ((t * p + s) * n + j) * 4 by {
        let r = u * p + s;
        assert((done * p + r) * n == (done * p) * n + r * n) by (nonlinear_arith);
        assert(done * (p * n * 4) == ((done * p) * n) * 4) by (nonlinear_arith);
    }
}

/// One fused launch of a vector kernel serves the whole batch.
proof fn lemma_vectors_serve(
    p: Plan,
    shape: Shape,
    s: QView,
    device: MetalDevice,
    enk: (usize, usize, usize),
    bit: (usize, usize, usize),
    input_start: usize,
    ids_start: usize,
)
    requires
        moe_vectors_outcome(Ok((p, shape)), s, device, enk, bit, input_start, ids_start),
        fused_fits(s, enk, bit, input_start, ids_start),
    ensures
        tokens_before(p.launches@, p.launches@.len() as int) == bit.0,
        forall|i: int|
            0 <= i < p.launches@.len() ==> fused_operands(#[trigger] p.launches@[i], s.dtype),
        forall|i: int, u: int, z: int|
            0 <= i < p.launches@.len() && 0 <= u < tokens(p.launches@[i]) && 0 <= z < bit.2
                ==> #[trigger] serves(
                p.launches@[i],
                u,
                tokens_before(p.launches@, i) + u,
                z,
                fused_of(s, enk, bit, input_start, ids_start),
            ),
{
    let f = fused_of(s, enk, bit, input_start, ids_start);
    let l = p.launches@[0];
    let stride = (expert_row_bytes(s.dtype, enk.2) * enk.1) as usize;
    assert(expert_row_bytes(s.dtype, enk.2) * enk.1 >= 0) by {
        lemma_row_bytes(s, enk.2, enk.1);
    }
    let (batch, in_dim1) = (bit.0 as int, bit.1 as int);
    assert(batch * (in_dim1 * enk.2) >= 0 && batch * bit.2 >= 0) by (nonlinear_arith)
        requires
            batch >= 0,
            in_dim1 >= 0,
            enk.2 >= 0,
            bit.2 >= 0,
    ;
    law_fused_vector_addresses(
        l,
        kernel_dtype(s.dtype),
        enk,
        bit,
        stride,
        (Operand::Weights, s.offset),
        (Operand::Input, (input_start * 4) as usize),
        (Operand::Ids, (ids_start * 4) as usize),
        (Operand::Dst, 0usize),
    );
    reveal_with_fuel(tokens_before, 2);
    assert forall|i: int, u: int, z: int|
        0 <= i < p.launches@.len() && 0 <= u < tokens(p.launches@[i]) && 0 <= z < bit.2
            implies #[trigger] serves(
        p.launches@[i],
        u,
        tokens_before(p.launches@, i) + u,
        z,
        f,
    ) by {
        assert(0 * (f.in_dim1 * f.k * 4) == 0 && 0 * (f.topk * 4) == 0 && 0 * (f.topk * f.n * 4)
            == 0) by (nonlinear_arith);
        lemma_serves(l, u, 0, z, f);
    }
}

/// Rows take no fewer than no bytes.
proof fn lemma_row_bytes(s: QView, k: usize, n: usize)
    ensures
        expert_row_bytes(s.dtype, k) >= 0,
        expert_row_bytes(s.dtype, k) * n >= 0,
{
    let (e, b) = (s.dtype.block_elems() as int, s.dtype.block_bytes() as int);
    assert(k as int / e * b >= 0) by (nonlinear_arith)
        requires
            k >= 0,
            e > 0,
            b >= 0,
    ;
    let r = expert_row_bytes(s.dtype, k);
    assert(r * n >= 0) by (nonlinear_arith)
        requires
            r >= 0,
            n >= 0,
    ;
}

/// The chunks before the `i`-th take that many whole chunks, and never more than the batch.
proof fn lemma_tokens_before(
    launches: Seq<Launch<'static, Operand>>,
    batch: int,
    size: int,
    i: int,
)
    requires
        size > 0,
        0 <= i <= launches.len(),
        launches.len() == crate::arith::ceil_div(batch, size),
        0 <= batch,
        forall|j: int|
            0 <= j < launches.len() ==> tokens(#[trigger] launches[j]) == chunk_len(batch, size, j),
    ensures
        i < launches.len() ==> tokens_before(launches, i) == i * size && i * size < batch,
        i == launches.len() ==> tokens_before(launches, i) == batch,
    decreases i,
{
    let c = crate::arith::ceil_div(batch, size);
    crate::arith::lemma_ceil_div_covers(batch, size);
    if i < c {
        assert(i * size <= (c - 1) * size) by (nonlinear_arith)
            requires
                i <= c - 1,
                size > 0,
        ;
    }
    if i > 0 {
        lemma_tokens_before(launches, batch, size, i - 1);
        assert((i - 1) * size + size == i * size) by (nonlinear_arith);
        assert(tokens(launches[i - 1]) == chunk_len(batch, size, i - 1));
    } else {
        assert(0 * size == 0);
        assert(c == 0 ==> batch == 0) by (nonlinear_arith)
            requires
                batch <= c * size,
                batch >= 0,
        ;
    }
}

/// One launch of a fused matrix kernel serves its chunk.
proof fn lemma_chunk_serves(
    l: Launch<'static, Operand>,
    s: QView,
    max_memory: usize,
    enk: (usize, usize, usize),
    bit: (usize, usize, usize),
    input_start: usize,
    ids_start: usize,
    done: int,
    len: int,
)
    requires
        fused_fits(s, enk, bit, input_start, ids_start),
        0 <= done,
        0 <= len,
        done + len <= bit.0,
        crate::kernels::quantized::mm_id_outcome(
            Ok(l),
            max_memory,
            kernel_dtype(s.dtype),
            enk,
            (len as usize, bit.1, bit.2),
            expert_row_bytes(s.dtype, enk.2) as usize,
            (expert_row_bytes(s.dtype, enk.2) * enk.1) as usize,
            (Operand::Weights, s.offset),
            (Operand::Input, (input_start * 4 + done * (bit.1 * enk.2 * 4)) as usize),
            (Operand::Ids, (ids_start * 4 + done * (bit.2 * 4)) as usize),
            (Operand::Dst, (done * (bit.2 * enk.1 * 4)) as usize),
        ),
    ensures
        tokens(l) == len,
        fused_operands(l, s.dtype),
        forall|u: int, z: int|
            0 <= u < len && 0 <= z < bit.2 ==> #[trigger] serves(
                l,
                u,
                done + u,
                z,
                fused_of(s, enk, bit, input_start, ids_start),
            ),
{
    let f = fused_of(s, enk, bit, input_start, ids_start);
    let (batch, d, p, n, k) = (bit.0 as int, f.in_dim1, f.topk, f.n, f.k);
    lemma_row_bytes(s, enk.2, enk.1);
    lemma_moe_offsets(
        batch,
        done,
        d,
        k,
        p,
        n,
        batch * (d * k),
        batch * p,
        batch * (p * n),
    );
    let row = expert_row_bytes(s.dtype, enk.2);
    assert(enk.1 > 0 ==> row <= row * enk.1) by (nonlinear_arith)
        requires
            row >= 0,
    ;
    law_fused_matrix_addresses(
        l,
        max_memory,
        kernel_dtype(s.dtype),
        enk,
        (len as usize, bit.1, bit.2),
        expert_row_bytes(s.dtype, enk.2) as usize,
        (expert_row_bytes(s.dtype, enk.2) * enk.1) as usize,
        (Operand::Weights, s.offset),
        (Operand::Input, (input_start * 4 + done * (bit.1 * enk.2 * 4)) as usize),
        (Operand::Ids, (ids_start * 4 + done * (bit.2 * 4)) as usize),
        (Operand::Dst, (done * (bit.2 * enk.1 * 4)) as usize),
    );
    assert forall|u: int, z: int| 0 <= u < len && 0 <= z < bit.2 implies #[trigger] serves(
        l,
        u,
        done + u,
        z,
        f,
    ) by {
        assert forall|e: int| #[trigger] expert_at(l, e) == f.weights + e * (f.row_bytes * f.n) by {
            assert(0 * (row as usize) == 0);
        }
        lemma_serves(l, u, done, z, f);
    }
}

/// The launches of fused matrix kernels serve the whole batch, chunk by chunk.
proof fn lemma_chunks_serve(
    p: Plan,
    shape: Shape,
    s: QView,
    device: MetalDevice,
    enk: (usize, usize, usize),
    bit: (usize, usize, usize),
    input_start: usize,
    ids_start: usize,
)
    requires
        moe_chunks_outcome(Ok((p, shape)), s, device, enk, bit, input_start, ids_start),
        fused_fits(s, enk, bit, input_start, ids_start),
        bit.2 > 0,
    ensures
        tokens_before(p.launches@, p.launches@.len() as int) == bit.0,
        forall|i: int|
            0 <= i < p.launches@.len() ==> fused_operands(#[trigger] p.launches@[i], s.dtype),
        forall|i: int, u: int, z: int|
            0 <= i < p.launches@.len() && 0 <= u < tokens(p.launches@[i]) && 0 <= z < bit.2
                ==> #[trigger] serves(
                p.launches@[i],
                u,
                tokens_before(p.launches@, i) + u,
                z,
                fused_of(s, enk, bit, input_start, ids_start),
            ),
{
    let f = fused_of(s, enk, bit, input_start, ids_start);
    let max_memory = device.device.max_threadgroup_memory_length;
    let size = chunk_size(max_memory, bit.2);
    let batch = bit.0 as int;
    let c = p.launches@.len() as int;
    crate::arith::lemma_ceil_div_covers(batch, size);
    assert forall|i: int| 0 <= i < c implies tokens(#[trigger] p.launches@[i]) == chunk_len(
        batch,
        size,
        i,
    ) && fused_operands(p.launches@[i], s.dtype) && forall|u: int, z: int|
        0 <= u < chunk_len(batch, size, i) && 0 <= z < bit.2 ==> #[trigger] serves(
            p.launches@[i],
            u,
            i * size + u,
            z,
            f,
        ) by {
        assert(0 <= i * size <= (c - 1) * size) by (nonlinear_arith)
            requires
                0 <= i <= c - 1,
                size > 0,
        ;
        lemma_chunk_serves(
            p.launches@[i],
            s,
            max_memory,
            enk,
            bit,
            input_start,
            ids_start,
            i * size,
            chunk_len(batch, size, i),
        );
    }
    lemma_tokens_before(p.launches@, batch, size, c);
    assert forall|i: int, u: int, z: int|
        0 <= i < p.launches@.len() && 0 <= u < tokens(p.launches@[i]) && 0 <= z < bit.2
            implies #[trigger] serves(
        p.launches@[i],
        u,
        tokens_before(p.launches@, i) + u,
        z,
        f,
    ) by {
        lemma_tokens_before(p.launches@, batch, size, i);
        assert(serves(p.launches@[i], u, i * size + u, z, f));
    }
}

/// A fused product takes the tokens of its batch one launch after the other, each token once. For
/// slot `s` of token `t`, the launch that takes it reads the slot's row of `[batch, in_dim1, k]`
/// activations, the slot's entry of `[batch, topk]` ids, and any expert out of the
/// `[n_experts, n, k]` stack, and writes the slot's row of the `[batch, topk, n]` result. The rows
/// that are read are within the activations, and the rows that are written are all of the result.
pub proof fn law_fused_product_addresses(
    p: Plan,
    shape: Shape,
    s: QView,
    self_shape: Seq<usize>,
    device: MetalDevice,
    input_dtype: DType,
    input_l: Layout,
    ids_dtype: DType,
    ids_l: Layout,
)
    requires
        moe_outcome(
            Ok((p, shape)),
            s,
            self_shape,
            device,
            input_dtype,
            input_l,
            ids_dtype,
            ids_l,
        ),
        moe_addressable(s, self_shape, input_dtype, input_l, ids_dtype, ids_l),
        self_shape.len() == 3 && input_l.shape@.len() == 3 && ids_l.shape@.len() == 2
            ==> fused_countable(
            (self_shape[0], self_shape[1], self_shape[2]),
            (input_l.shape@[0], input_l.shape@[1], ids_l.shape@[1]),
        ),
    ensures
        p.device == device,
        self_shape.len() == 3 && input_l.shape@.len() == 3 && ids_l.shape@.len() == 2,
        ({
            let (n, k) = (self_shape[1], self_shape[2]);
            let (batch, in_dim1, topk) = (input_l.shape@[0], input_l.shape@[1], ids_l.shape@[1]);
            let f = Fused {
                weights: s.offset as int,
                row_bytes: k as int / s.dtype.block_elems() as int * s.dtype.block_bytes(),
                input: input_l.start_offset as int,
                ids: ids_l.start_offset as int,
                n: n as int,
                k: k as int,
                in_dim1: in_dim1 as int,
                topk: topk as int,
            };
            &&& shape@ == seq![batch, topk, n]
            &&& p.dst_elems == batch * topk * n
            &&& f.row_bytes * n * self_shape[0] == s.size
            &&& tokens_before(p.launches@, p.launches@.len() as int) == batch
            &&& forall|i: int|
                0 <= i < p.launches@.len() ==> fused_operands(#[trigger] p.launches@[i], s.dtype)
            &&& forall|i: int, u: int, z: int|
                0 <= i < p.launches@.len() && 0 <= u < tokens(p.launches@[i]) && 0 <= z < topk
                    ==> #[trigger] serves(
                    p.launches@[i],
                    u,
                    tokens_before(p.launches@, i) + u,
                    z,
                    f,
                )
            &&& forall|t: int, z: int|
                0 <= t < batch && 0 <= z < topk ==> 0 <= #[trigger] row_of_slot(
                    in_dim1 as int,
                    t,
                    z,
                ) < batch * in_dim1
        }),
{
    assert(moe_refusal(s, self_shape, input_dtype, input_l, ids_dtype, ids_l) is None);
    let enk = (self_shape[0], self_shape[1], self_shape[2]);
    let bit = (input_l.shape@[0], input_l.shape@[1], ids_l.shape@[1]);
    let (batch, in_dim1, topk) = (bit.0 as int, bit.1 as int, bit.2 as int);
    assert(input_l.shape@ =~= seq![bit.0, bit.1, enk.2]);
    assert(ids_l.shape@ =~= seq![bit.0, bit.2]);
    crate::arith::lemma_span_three(bit.0, bit.1, enk.2);
    crate::arith::lemma_span_two(bit.0, bit.2);
    crate::arith::lemma_span_three(bit.0, bit.2, enk.1);
    assert(batch * (topk * enk.1) == batch * topk * enk.1) by (nonlinear_arith);
    assert(fused_fits(s, enk, bit, input_l.start_offset, ids_l.start_offset));
    if bit.0 == 1 || (bit.0 > 1 && crate::quantized::metal::vectors_only(s.dtype)) {
        lemma_vectors_serve(
            p,
            shape,
            s,
            device,
            enk,
            bit,
            input_l.start_offset,
            ids_l.start_offset,
        );
    } else {
        lemma_chunks_serve(
            p,
            shape,
            s,
            device,
            enk,
            bit,
            input_l.start_offset,
            ids_l.start_offset,
        );
    }
    assert forall|t: int, z: int| 0 <= t < batch && 0 <= z < topk implies 0 <= #[trigger] row_of_slot(
        in_dim1,
        t,
        z,
    ) < batch * in_dim1 by {
        lemma_row_of_slot(batch, in_dim1, topk, t, z);
    }
    let f = fused_of(s, enk, bit, input_l.start_offset, ids_l.start_offset);
    assert forall|i: int, u: int, z: int|
        0 <= i < p.launches@.len() && 0 <= u < tokens(p.launches@[i]) && 0 <= z < topk
            implies #[trigger] serves(
        p.launches@[i],
        u,
        tokens_before(p.launches@, i) + u,
        z,
        f,
    ) by {}
    assert(f == (Fused {
        weights: s.offset as int,
        row_bytes: enk.2 as int / s.dtype.block_elems() as int * s.dtype.block_bytes(),
        input: input_l.start_offset as int,
        ids: ids_l.start_offset as int,
        n: enk.1 as int,
        k: enk.2 as int,
        in_dim1,
        topk,
    }));
}

/// The fused product and the products of its experts one by one read alike. Let the same activations
/// be `[batch * in_dim1, k]` vectors, and the weights one expert, cut out of the stack. The vector
/// product of the row that a slot takes then reads the very bytes that the fused launch reads for
/// that slot, and multiplies them with the very weights.
pub proof fn law_fused_reads_as_one_by_one(
    l: Launch<'static, Operand>,
    u: int,
    t: int,
    z: int,
    f: Fused,
    e: int,
    single: Plan,
    shape: Shape,
    expert: QView,
    device: MetalDevice,
    rows: Layout,
)
    requires
        serves(l, u, t, z, f),
        0 <= f.n <= i64::MAX,
        0 <= f.k <= i64::MAX,
        rows.shape@.len() == 2,
        rows.start_offset == f.input,
        0 <= row_of_slot(f.in_dim1, t, z) < rows.shape@[0],
        expert.offset == f.weights + e * (f.row_bytes * f.n),
        fwd_mv_outcome(
            Ok((single, shape)),
            expert,
            seq![f.n as usize, f.k as usize],
            device,
            DType::F32,
            rows,
        ),
        addressable(seq![f.n as usize, f.k as usize], DType::F32, rows),
        f.n <= usize::MAX,
        f.k <= usize::MAX,
    ensures
        ({
            let q = mv_params(single.launches@[row_of_slot(f.in_dim1, t, z)]);
            &&& forall|c: int| #[trigger] slot_input(l, u, z, c) == q.input_at(0, 0, c)
            &&& expert_at(l, e) == q.src0
        }),
{
    law_vector_plan(
        single,
        shape,
        expert,
        seq![f.n as usize, f.k as usize],
        device,
        DType::F32,
        rows,
    );
    let r = row_of_slot(f.in_dim1, t, z);
    let q = mv_params(single.launches@[r]);
    assert forall|c: int| #[trigger] slot_input(l, u, z, c) == q.input_at(0, 0, c) by {}
}

/// Gathering rows of a table of `rows` rows of `hidden` elements takes one launch. It reads the
/// ids from where they start, finds row `r` of the table at that many rows' bytes from the start of
/// the allocation, which the rows fill, and writes row upon row, which fill the result.
pub proof fn law_embedding_addresses(
    p: Plan,
    s: QView,
    rows: usize,
    hidden: usize,
    ids_dtype: DType,
    ids_l: Layout,
)
    requires
        embedding_outcome(Ok(p), s, rows, hidden, ids_dtype, ids_l),
        hidden * 4 <= usize::MAX,
        hidden <= i64::MAX,
        product(ids_l.shape@) <= usize::MAX,
        product(ids_l.shape@) <= i64::MAX,
        ids_l.start_offset * 4 <= usize::MAX,
        hidden * s.dtype.block_bytes() <= usize::MAX,
    ensures
        p.device == s.device,
        p.launches@.len() == 1,
        ({
            let l = p.launches@[0];
            let q = get_rows_params(l);
            let count = product(ids_l.shape@) as int;
            let row_bytes = hidden as int / s.dtype.block_elems() as int * s.dtype.block_bytes();
            &&& l.name@ == "kernel_get_rows"@ + spelled(kernel_dtype(s.dtype))
            &&& is_read(l.args@[0], Operand::Weights) && is_read(l.args@[1], Operand::Ids)
                && is_written(l.args@[2], Operand::Dst)
            &&& q.ne00 == hidden && q.ne10 == count
            &&& forall|i: int| #[trigger] q.id_at(i) == (ids_l.start_offset + i) * 4
            &&& forall|r: int| #[trigger] q.row_at(r) == s.offset + r * row_bytes
            &&& rows * row_bytes == s.size
            &&& forall|i: int, c: int| #[trigger] q.output_at(i, c) == (i * hidden + c) * 4
            &&& p.dst_elems == count * hidden
            &&& l.dispatch matches Dispatch::ThreadGroups { count: groups, .. } && groups.width
                == count
        }),
{
    let l = p.launches@[0];
    let (e, b) = (s.dtype.block_elems() as int, s.dtype.block_bytes() as int);
    let h = hidden as int;
    let w = h / e;
    assert(e > 0 && b > 0);
    vstd::arithmetic::div_mod::lemma_fundamental_div_mod(h, e);
    assert(h * b == (w * b) * e && rows * h * b == (rows * (w * b)) * e) by (nonlinear_arith)
        requires
            h == e * w,
    ;
    vstd::arithmetic::div_mod::lemma_div_multiples_vanish(w * b, e);
    vstd::arithmetic::div_mod::lemma_div_multiples_vanish(rows * (w * b), e);
    assert(e * (w * b) == (w * b) * e && e * (rows * (w * b)) == (rows * (w * b)) * e)
        by (nonlinear_arith);
    assert(0 <= w * b <= h * b) by (nonlinear_arith)
        requires
            h == e * w,
            e > 0,
            b > 0,
            h >= 0,
    ;
    law_gathering_kernels_by_format(kernel_dtype(s.dtype));
    law_gather_addresses(
        l,
        crate::kernels::quantized::get_rows_kernel(kernel_dtype(s.dtype))->0,
        hidden,
        format_bytes(s.dtype, h) as usize,
        product(ids_l.shape@) as usize,
        Operand::Weights,
        (Operand::Ids, (ids_l.start_offset * 4) as usize),
        Operand::Dst,
    );
}

/// A product is planned just where the operands fit: packed activations of two extents at least and
/// no fewer than the weights have, with as many elements in a row. Single rows go one by one to a
/// matrix; all else has four extents at most, and a format that there is a kernel for.
pub proof fn law_product_accepts(
    r: Result<(Plan, Shape)>,
    s: QView,
    self_shape: Seq<usize>,
    device: MetalDevice,
    dtype: DType,
    layout: Layout,
)
    requires
        fwd_outcome(r, s, self_shape, device, dtype, layout),
    ensures
        ({
            let src = layout.shape@;
            r is Ok <==> {
                &&& layout.dense()
                &&& self_shape.len() >= 2
                &&& self_shape.len() <= src.len()
                &&& extent(src, 0) == extent(self_shape, 0)
                &&& if extent(src, 1) == 1 {
                    self_shape.len() == 2 && src.len() <= 3
                } else {
                    src.len() <= 4 && s.dtype != GgmlDType::Q8_1 && s.dtype != GgmlDType::Q8K
                }
            }
        }),
{
    crate::kernels::names::law_families_nest(kernel_dtype(s.dtype));
}

/// Gathering is planned just where the ids are packed 32-bit numbers, a row is a whole number of
/// blocks, the table is all of its allocation, and there is a kernel for its format.
pub proof fn law_embedding_accepts(
    r: Result<Plan>,
    s: QView,
    rows: usize,
    hidden: usize,
    ids_dtype: DType,
    ids_l: Layout,
)
    requires
        embedding_outcome(r, s, rows, hidden, ids_dtype, ids_l),
    ensures
        r is Ok <==> {
            &&& ids_dtype == DType::U32
            &&& ids_l.dense()
            &&& hidden as int % s.dtype.block_elems() as int == 0
            &&& rows * (hidden as int / s.dtype.block_elems() as int * s.dtype.block_bytes())
                == s.size
            &&& s.offset == 0
            &&& s.dtype != GgmlDType::Q8_1 && s.dtype != GgmlDType::Q8K
        },
{
    crate::kernels::names::law_families_nest(kernel_dtype(s.dtype));
    let (e, b) = (s.dtype.block_elems() as int, s.dtype.block_bytes() as int);
    let h = hidden as int;
    let w = h / e;
    if h % e == 0 {
        vstd::arithmetic::div_mod::lemma_fundamental_div_mod(h, e);
        assert(rows * h * b == e * (rows * (w * b))) by (nonlinear_arith)
            requires
                h == e * w,
        ;
        vstd::arithmetic::div_mod::lemma_div_multiples_vanish(rows * (w * b), e);
    }
}

/// A fused product is planned just where its operands fit and a kernel can take them. The activations
/// are packed 32-bit floats, `[batch, 1 or topk, k]`, and the ids packed 32-bit numbers,
/// `[batch, topk]`; the experts fill the storage. One token, and a prompt in a format that only they
/// know, go to the vector kernels, which write whole threadgroups of rows. Other prompts go to the
/// matrix kernels, which take inner extents of whole tiles, and hold the slots of a chunk in the
/// device's memory. A prompt of no tokens takes no launch.
pub proof fn law_fused_product_accepts(
    r: Result<(Plan, Shape)>,
    s: QView,
    self_shape: Seq<usize>,
    device: MetalDevice,
    input_dtype: DType,
    input_l: Layout,
    ids_dtype: DType,
    ids_l: Layout,
)
    requires
        moe_outcome(r, s, self_shape, device, input_dtype, input_l, ids_dtype, ids_l),
        moe_addressable(s, self_shape, input_dtype, input_l, ids_dtype, ids_l),
    ensures
        ({
            let (input, ids) = (input_l.shape@, ids_l.shape@);
            let rows = slots_held(device);
            let legacy = s.dtype is Q4_0 || s.dtype is Q4_1 || s.dtype is Q5_0 || s.dtype is Q5_1
                || s.dtype is Q3K;
            let both = s.dtype is Q4K || s.dtype is Q5K || s.dtype is Q6K || s.dtype is Q8_0;
            r is Ok <==> {
                &&& self_shape.len() == 3 && input.len() == 3 && ids.len() == 2
                &&& input_l.dense() && ids_l.dense()
                &&& input_dtype == DType::F32 && ids_dtype == DType::U32
                &&& input[2] == self_shape[2] && ids[0] == input[0]
                &&& input[1] == 1 || input[1] == ids[1]
                &&& (self_shape[2] as int / s.dtype.block_elems() as int * s.dtype.block_bytes())
                    * self_shape[1] * self_shape[0] == s.size
                &&& input[0] == 1 || (input[0] > 1 && legacy) ==> {
                    &&& legacy || both
                    &&& self_shape[0] > 0
                    &&& self_shape[1] % crate::kernels::quantized::mv_shape(
                        kernel_dtype(s.dtype),
                    ).2 == 0
                }
                &&& input[0] > 1 && !legacy ==> {
                    &&& both
                    &&& self_shape[0] > 0
                    &&& self_shape[2] % 32 == 0
                    &&& ids[1] <= rows
                }
            }
        }),
{
    let (input, ids) = (input_l.shape@, ids_l.shape@);
    if moe_refusal(s, self_shape, input_dtype, input_l, ids_dtype, ids_l) is None {
        let max_memory = device.device.max_threadgroup_memory_length;
        let (batch, topk) = (input[0] as int, ids[1]);
        if !(batch == 1 || (batch > 1 && crate::quantized::metal::vectors_only(s.dtype))) {
            let size = chunk_size(max_memory, topk);
            crate::arith::lemma_ceil_div_covers(batch, size);
            let c = crate::arith::ceil_div(batch, size);
            if batch > 1 {
                assert(c > 0) by (nonlinear_arith)
                    requires
                        batch <= c * size,
                        batch > 0,
                        size > 0,
                ;
                assert(0 * size == 0);
                let len = chunk_len(batch, size, 0);
                if topk <= slots_held(device) {
                    crate::quantized::metal::law_chunks_fit_memory(max_memory, topk, batch, 0);
                } else {
                    assert(topk * len > slots_held(device)) by (nonlinear_arith)
                        requires
                            len >= 1,
                            topk > slots_held(device),
                    ;
                }
                if r is Ok {
                    // What is said of every launch is said of the first.
                    let l = r->Ok_0.0.launches@[0];
                }
            } else {
                assert(batch == 0);
            }
        }
    }
}

/// The slots that one launch of a fused matrix kernel can hold: four bytes for each, in half of the
/// threadgroup memory, of which the kernel stages 8192 bytes.
pub open spec fn slots_held(device: MetalDevice) -> int {
    let half = device.device.max_threadgroup_memory_length as int / 2;
    if half <= 8192 {
        0
    } else {
        (half - 8192) / 4
    }
}

/// A chunk is as many tokens as there can be: one more would not fit in memory, or would be more than
/// 32. It is never none.
pub proof fn law_chunks_are_as_large_as_fits(device: MetalDevice, topk: usize)
    requires
        topk > 0,
    ensures
        ({
            let size = chunk_size(device.device.max_threadgroup_memory_length, topk);
            &&& 1 <= size <= 32
            &&& size > 1 ==> size * topk <= slots_held(device)
            &&& size < 32 ==> (size + 1) * topk > slots_held(device)
        }),
{
    let rows = slots_held(device);
    let t = topk as int;
    let fit = rows / t;
    vstd::arithmetic::div_mod::lemma_fundamental_div_mod(rows, t);
    vstd::arithmetic::div_mod::lemma_mod_bound(rows, t);
    let size = chunk_size(device.device.max_threadgroup_memory_length, topk);
    assert(t * fit == fit * t && (fit + 1) * t == fit * t + t) by (nonlinear_arith);
    if size <= fit {
        assert(size * t <= fit * t) by (nonlinear_arith)
            requires
                size <= fit,
                t > 0,
        ;
    }
    if size >= fit {
        assert((size + 1) * t >= (fit + 1) * t) by (nonlinear_arith)
            requires
                size >= fit,
                t > 0,
        ;
    }
}

} // verus!
