//! What the quantized kernels make of what is bound to them: where they read and write.
//!
//! The parameters of a kernel are read off a launch in the order in which the kernel declares
//! them. The addresses follow from them as the kernel computes them, in bytes from the start of the
//! buffer.

use crate::arith::ceil_div;
use crate::kernels::launch::{Arg, Dispatch, Launch, Source};
use crate::kernels::names::{
    law_fused_matrix_kernels_by_format, law_fused_vector_kernels_by_format,
    law_vector_kernels_by_format, spelled,
};
use crate::kernels::quantized::{
    launches_get_rows, launches_mv_t, mm_id_outcome, mv_id_outcome, mv_shape, GgmlDType,
};
use vstd::prelude::*;

verus! {

/// The number that is bound.
pub open spec fn number<'a, B>(a: Arg<'a, B>) -> int {
    match a {
        Arg::Size(n) => n as int,
        Arg::I32(n) => n as int,
        Arg::I64(n) => n as int,
        Arg::U32(n) => n as int,
        Arg::U64(n) => n as int,
        _ => -1,
    }
}

/// The byte of its buffer from which on an operand is read or written.
pub open spec fn start<'a, B>(a: Arg<'a, B>) -> int {
    match a {
        Arg::Input(_, offset) => offset as int,
        Arg::Output(_, offset) => offset as int,
        _ => -1,
    }
}

/// The buffer of an operand that is read.
pub open spec fn is_read<'a, B>(a: Arg<'a, B>, buffer: B) -> bool {
    a matches Arg::Input(b, _) && b == buffer
}

/// The buffer of an operand that is written.
pub open spec fn is_written<'a, B>(a: Arg<'a, B>, buffer: B) -> bool {
    a matches Arg::Output(b, _) && b == buffer
}

/// The parameters of the fused matrix-vector kernels, in their order.
pub ghost struct MvIdParams {
    pub src0: int,
    pub src1: int,
    pub dst: int,
    pub ids: int,
    pub nei0: int,
    pub nei1: int,
    pub nbi1: int,
    pub ne00: int,
    pub ne01: int,
    pub ne02: int,
    pub nb00: int,
    pub nb01: int,
    pub nb02: int,
    pub ne10: int,
    pub ne11: int,
    pub ne12: int,
    pub ne13: int,
    pub nb10: int,
    pub nb11: int,
    pub nb12: int,
    pub ne0: int,
    pub ne1: int,
    pub nb1: int,
}

/// What a launch binds to the parameters of a fused matrix-vector kernel.
pub open spec fn mv_id_params<'a, B>(l: Launch<'a, B>) -> MvIdParams {
    let a = l.args@;
    MvIdParams {
        src0: start(a[0]),
        src1: start(a[1]),
        dst: start(a[2]),
        ids: start(a[3]),
        nei0: number(a[4]),
        nei1: number(a[5]),
        nbi1: number(a[6]),
        ne00: number(a[7]),
        ne01: number(a[8]),
        ne02: number(a[9]),
        nb00: number(a[10]),
        nb01: number(a[11]),
        nb02: number(a[12]),
        ne10: number(a[13]),
        ne11: number(a[14]),
        ne12: number(a[15]),
        ne13: number(a[16]),
        nb10: number(a[17]),
        nb11: number(a[18]),
        nb12: number(a[19]),
        ne0: number(a[20]),
        ne1: number(a[21]),
        nb1: number(a[22]),
    }
}

impl MvIdParams {
    /// Where the expert of slot `s` of token `t` is named.
    pub open spec fn id_at(self, t: int, s: int) -> int {
        self.ids + t * self.nbi1 + s * 4
    }

    /// Where element `c` of the activations of slot `s` of token `t` is.
    pub open spec fn input_at(self, t: int, s: int, c: int) -> int {
        self.src1 + t * self.nb12 + (s % self.ne11) * self.nb11 + c * self.nb10
    }

    /// Where expert `e` starts.
    pub open spec fn expert_at(self, e: int) -> int {
        self.src0 + e * self.nb02
    }

    /// Where output `j` of slot `s` of token `t` goes.
    pub open spec fn output_at(self, t: int, s: int, j: int) -> int {
        self.dst + (t * self.ne1 * self.ne0 + s * self.ne0 + j) * 4
    }
}

/// The parameters of the fused matrix-matrix kernels, in their order.
pub ghost struct MmIdParams {
    pub src0: int,
    pub src1: int,
    pub dst: int,
    pub ids: int,
    pub nei0: int,
    pub nei1: int,
    pub nbi1: int,
    pub ne00: int,
    pub ne02: int,
    pub nb01: int,
    pub nb02: int,
    pub ne11: int,
    pub ne12: int,
    pub ne13: int,
    pub nb10: int,
    pub nb11: int,
    pub nb12: int,
    pub ne0: int,
    pub ne1: int,
    pub nb1: int,
}

/// What a launch binds to the parameters of a fused matrix-matrix kernel.
pub open spec fn mm_id_params<'a, B>(l: Launch<'a, B>) -> MmIdParams {
    let a = l.args@;
    MmIdParams {
        src0: start(a[0]),
        src1: start(a[1]),
        dst: start(a[2]),
        ids: start(a[3]),
        nei0: number(a[4]),
        nei1: number(a[5]),
        nbi1: number(a[6]),
        ne00: number(a[7]),
        ne02: number(a[8]),
        nb01: number(a[9]),
        nb02: number(a[10]),
        ne11: number(a[11]),
        ne12: number(a[12]),
        ne13: number(a[13]),
        nb10: number(a[14]),
        nb11: number(a[15]),
        nb12: number(a[16]),
        ne0: number(a[17]),
        ne1: number(a[18]),
        nb1: number(a[19]),
    }
}

impl MmIdParams {
    /// Where the expert of slot `s` of token `t` is named.
    pub open spec fn id_at(self, t: int, s: int) -> int {
        self.ids + t * self.nbi1 + s * 4
    }

    /// Where element `c` of the activations of slot `s` of token `t` is.
    pub open spec fn input_at(self, t: int, s: int, c: int) -> int {
        self.src1 + t * self.nb12 + (s % self.ne11) * self.nb11 + c * self.nb10
    }

    /// Where row `j` of expert `e` starts.
    pub open spec fn row_at(self, e: int, j: int) -> int {
        self.src0 + e * self.nb02 + j * self.nb01
    }

    /// Where output `j` of slot `s` of token `t` goes.
    pub open spec fn output_at(self, t: int, s: int, j: int) -> int {
        self.dst + (s * self.ne0 + t * self.ne0 * self.ne1 + j) * 4
    }
}

/// The arguments of a fused product are within the signed 64-bit range that the kernels count in.
pub open spec fn fused_countable(
    enk: (usize, usize, usize),
    bit: (usize, usize, usize),
) -> bool {
    &&& enk.0 <= i64::MAX && enk.1 <= i64::MAX && enk.2 <= i64::MAX
    &&& bit.0 <= i64::MAX && bit.1 <= i64::MAX && bit.2 <= i64::MAX
    &&& bit.2 * 4 <= u64::MAX
    &&& bit.1 * enk.2 * 4 <= u64::MAX
    &&& enk.2 * 4 <= u64::MAX
}

/// A row of densely packed floats in three extents lies where its index says.
pub proof fn lemma_dense_row(t: int, d: int, r: int, k: int, c: int)
    ensures
        t * (d * k * 4) + r * (k * 4) + c * 4 == ((t * d + r) * k + c) * 4,
{
    assert(t * (d * k * 4) + r * (k * 4) + c * 4 == ((t * d + r) * k + c) * 4) by (nonlinear_arith);
}

/// Which activations a slot takes: those of its token, or its own where each slot has some.
pub open spec fn row_of_slot(in_dim1: int, t: int, s: int) -> int {
    t * in_dim1 + if in_dim1 == 1 {
        0
    } else {
        s
    }
}

/// Slots take rows that are there.
pub proof fn lemma_row_of_slot(batch: int, in_dim1: int, topk: int, t: int, s: int)
    requires
        0 <= t < batch,
        0 <= s < topk,
        in_dim1 == 1 || in_dim1 == topk,
    ensures
        0 <= row_of_slot(in_dim1, t, s) < batch * in_dim1,
        s % in_dim1 == (if in_dim1 == 1 {
            0
        } else {
            s
        }),
{
    if in_dim1 == 1 {
        assert(s % 1 == 0);
        crate::arith::lemma_index_bound(t, 0, batch, 1);
    } else {
        vstd::arithmetic::div_mod::lemma_small_mod(s as nat, in_dim1 as nat);
        crate::arith::lemma_index_bound(t, s, batch, topk);
    }
}

/// With what a fused matrix-vector launch binds, slot `s` of token `t` reads its row of activations,
/// `[batch, in_dim1, k]`, its entry of the ids, `[batch, topk]`, and the expert that is named there
/// out of the stack, and writes its row of the outputs, `[batch, topk, n]`. Each slot has a
/// threadgroup for every output row.
pub proof fn law_fused_vector_addresses<'a, B>(
    l: Launch<'a, B>,
    dtype: GgmlDType,
    enk: (usize, usize, usize),
    bit: (usize, usize, usize),
    stride: usize,
    src0: (B, usize),
    src1: (B, usize),
    ids: (B, usize),
    dst: (B, usize),
)
    requires
        mv_id_outcome(Ok(l), dtype, enk, bit, stride, src0, src1, ids, dst),
        fused_countable(enk, bit),
    ensures
        l.source == Source::Quantized,
        l.name@ == "kernel_mul_mv_id"@ + spelled(dtype) + "_f32"@,
        l.args@.len() == 23,
        l.threadgroup_memory == Some(8192usize),
        is_read(l.args@[0], src0.0),
        is_read(l.args@[1], src1.0),
        is_written(l.args@[2], dst.0),
        is_read(l.args@[3], ids.0),
        ({
            let p = mv_id_params(l);
            let (n, k) = (enk.1 as int, enk.2 as int);
            let (batch, in_dim1, topk) = (bit.0 as int, bit.1 as int, bit.2 as int);
            &&& forall|t: int, s: int, c: int|
                0 <= t < batch && 0 <= s < topk ==> #[trigger] p.input_at(t, s, c) == src1.1 + (
                row_of_slot(in_dim1, t, s) * k + c) * 4
            &&& forall|t: int, s: int| #[trigger] p.id_at(t, s) == ids.1 + (t * topk + s) * 4
            &&& forall|e: int| #[trigger] p.expert_at(e) == src0.1 + e * stride
            &&& forall|t: int, s: int, j: int| #[trigger]
                p.output_at(t, s, j) == dst.1 + ((t * topk + s) * n + j) * 4
            &&& p.ne00 == k && p.ne10 == k
            &&& p.ne01 == n && p.ne0 == n
            &&& p.ne11 == in_dim1
            &&& p.nei0 == topk && p.nei1 == batch && p.ne1 == topk
            &&& p.ne02 == 1 && p.ne12 == 1 && p.ne13 == 1
            &&& l.dispatch matches Dispatch::ThreadGroups { count, size } && {
                &&& batch * topk <= usize::MAX ==> count.depth == batch * topk
                &&& count.height == 1
                &&& count.width * mv_shape(dtype).2 == n
                &&& (size.width, size.height, size.depth) == (
                    mv_shape(dtype).0,
                    mv_shape(dtype).1,
                    1usize,
                )
            }
        }),
{
    let p = mv_id_params(l);
    let (n, k) = (enk.1 as int, enk.2 as int);
    let (batch, in_dim1, topk) = (bit.0 as int, bit.1 as int, bit.2 as int);
    assert(k * 4 >= 0 && in_dim1 * k * 4 >= 0) by (nonlinear_arith)
        requires
            k >= 0,
            in_dim1 >= 0,
    ;
    assert forall|t: int, s: int, c: int|
        0 <= t < batch && 0 <= s < topk implies #[trigger] p.input_at(t, s, c) == src1.1 + (
    row_of_slot(in_dim1, t, s) * k + c) * 4 by {
        lemma_row_of_slot(batch, in_dim1, topk, t, s);
        lemma_dense_row(t, in_dim1, s % in_dim1, k, c);
    }
    assert forall|t: int, s: int| #[trigger] p.id_at(t, s) == ids.1 + (t * topk + s) * 4 by {
        assert(t * (topk * 4) + s * 4 == (t * topk + s) * 4) by (nonlinear_arith);
    }
    assert forall|t: int, s: int, j: int| #[trigger]
        p.output_at(t, s, j) == dst.1 + ((t * topk + s) * n + j) * 4 by {
        assert(t * topk * n + s * n + j == (t * topk + s) * n + j) by (nonlinear_arith);
    }
    law_fused_vector_kernels_by_format(dtype);
    let rows = mv_shape(dtype).2 as int;
    assert(rows > 0);
    vstd::arithmetic::div_mod::lemma_fundamental_div_mod(n, rows);
    assert(ceil_div(n, rows) == n / rows) by {
        crate::arith::lemma_ceil_div(n, rows);
        crate::arith::lemma_index_split(n / rows, 0, rows);
        assert((n / rows) * rows == rows * (n / rows)) by (nonlinear_arith);
        let q = n / rows;
        crate::arith::lemma_index_split(q, rows - 1, rows);
        assert(q * rows + (rows - 1) == n + rows - 1);
    }
    assert((n / rows) * rows == rows * (n / rows)) by (nonlinear_arith);
    assert(0 <= n / rows <= n) by (nonlinear_arith)
        requires
            n >= 0,
            rows > 0,
    ;
}

/// With what a fused matrix-matrix launch binds, slot `s` of token `t` reads its row of activations,
/// `[batch, in_dim1, k]`, its entry of the ids, `[batch, topk]`, and the rows of the expert that is
/// named there out of the stack, and writes its row of the outputs, `[batch, topk, n]`. Each
/// expert has threadgroups for every token and output row, and memory for every slot.
pub proof fn law_fused_matrix_addresses<'a, B>(
    l: Launch<'a, B>,
    max_memory: usize,
    dtype: GgmlDType,
    enk: (usize, usize, usize),
    bit: (usize, usize, usize),
    row_stride: usize,
    stride: usize,
    src0: (B, usize),
    src1: (B, usize),
    ids: (B, usize),
    dst: (B, usize),
)
    requires
        mm_id_outcome(
            Ok(l),
            max_memory,
            dtype,
            enk,
            bit,
            row_stride,
            stride,
            src0,
            src1,
            ids,
            dst,
        ),
        fused_countable(enk, bit),
    ensures
        l.source == Source::Quantized,
        l.name@ == "kernel_mul_mm_id"@ + spelled(dtype) + "_f32"@,
        l.args@.len() == 20,
        is_read(l.args@[0], src0.0),
        is_read(l.args@[1], src1.0),
        is_written(l.args@[2], dst.0),
        is_read(l.args@[3], ids.0),
        ({
            let p = mm_id_params(l);
            let (n, k) = (enk.1 as int, enk.2 as int);
            let (batch, in_dim1, topk) = (bit.0 as int, bit.1 as int, bit.2 as int);
            &&& forall|t: int, s: int, c: int|
                0 <= t < batch && 0 <= s < topk ==> #[trigger] p.input_at(t, s, c) == src1.1 + (
                row_of_slot(in_dim1, t, s) * k + c) * 4
            &&& forall|t: int, s: int| #[trigger] p.id_at(t, s) == ids.1 + (t * topk + s) * 4
            &&& forall|e: int, j: int| #[trigger]
                p.row_at(e, j) == src0.1 + e * stride + j * row_stride
            &&& forall|t: int, s: int, j: int| #[trigger]
                p.output_at(t, s, j) == dst.1 + ((t * topk + s) * n + j) * 4
            &&& p.ne00 == k && p.ne0 == n
            &&& p.ne02 == enk.0
            &&& p.ne11 == in_dim1
            &&& p.nei0 == topk && p.nei1 == batch && p.ne1 == topk && p.ne12 == batch
            &&& p.ne13 == 1
            &&& l.threadgroup_memory matches Some(bytes) && bytes as int % 16 == 0 && 8192 + 4 * (
            topk * batch) <= bytes < 8192 + 4 * (topk * batch) + 16
            &&& l.dispatch matches Dispatch::ThreadGroups { count, size } && {
                &&& size.width == 4 * 32 && size.height == 1 && size.depth == 1
                &&& count.depth == enk.0
                &&& (count.height - 1) * 64 < n <= count.height * 64
                &&& (count.width - 1) * 32 < batch <= count.width * 32
            }
        }),
{
    let p = mm_id_params(l);
    let (n, k) = (enk.1 as int, enk.2 as int);
    let (batch, in_dim1, topk) = (bit.0 as int, bit.1 as int, bit.2 as int);
    assert(k * 4 >= 0 && in_dim1 * k * 4 >= 0) by (nonlinear_arith)
        requires
            k >= 0,
            in_dim1 >= 0,
    ;
    assert forall|t: int, s: int, c: int|
        0 <= t < batch && 0 <= s < topk implies #[trigger] p.input_at(t, s, c) == src1.1 + (
    row_of_slot(in_dim1, t, s) * k + c) * 4 by {
        lemma_row_of_slot(batch, in_dim1, topk, t, s);
        lemma_dense_row(t, in_dim1, s % in_dim1, k, c);
    }
    assert forall|t: int, s: int| #[trigger] p.id_at(t, s) == ids.1 + (t * topk + s) * 4 by {
        assert(t * (topk * 4) + s * 4 == (t * topk + s) * 4) by (nonlinear_arith);
    }
    assert forall|t: int, s: int, j: int| #[trigger]
        p.output_at(t, s, j) == dst.1 + ((t * topk + s) * n + j) * 4 by {
        assert(s * n + t * n * topk + j == (t * topk + s) * n + j) by (nonlinear_arith);
    }
    assert(topk * batch >= 0) by (nonlinear_arith)
        requires
            topk >= 0,
            batch >= 0,
    ;
    law_fused_matrix_kernels_by_format(dtype);
    crate::arith::lemma_ceil_div_covers(n, 64);
    crate::arith::lemma_ceil_div_covers(batch, 32);
    if 8192 <= max_memory {
        crate::kernels::quantized::law_mm_id_memory_fits(topk * batch, max_memory);
    }
    crate::arith::lemma_ceil_div_covers(8192 + topk * batch * 4, 16);
}

/// The parameters of the matrix-vector kernels, in their order.
pub ghost struct MvParams {
    pub src0: int,
    pub src1: int,
    pub dst: int,
    pub ne00: int,
    pub ne01: int,
    pub ne02: int,
    pub nb00: int,
    pub nb01: int,
    pub nb02: int,
    pub ne10: int,
    pub ne11: int,
    pub ne12: int,
    pub nb10: int,
    pub nb11: int,
    pub nb12: int,
    pub ne0: int,
    pub ne1: int,
    pub r2: int,
    pub r3: int,
}

/// What a launch binds to the parameters of a matrix-vector kernel.
pub open spec fn mv_params<'a, B>(l: Launch<'a, B>) -> MvParams {
    let a = l.args@;
    MvParams {
        src0: start(a[0]),
        src1: start(a[1]),
        dst: start(a[2]),
        ne00: number(a[3]),
        ne01: number(a[4]),
        ne02: number(a[5]),
        nb00: number(a[6]),
        nb01: number(a[7]),
        nb02: number(a[8]),
        ne10: number(a[9]),
        ne11: number(a[10]),
        ne12: number(a[11]),
        nb10: number(a[12]),
        nb11: number(a[13]),
        nb12: number(a[14]),
        ne0: number(a[15]),
        ne1: number(a[16]),
        r2: number(a[17]),
        r3: number(a[18]),
    }
}

impl MvParams {
    /// Where element `c` of vector `i` of batch entry `b` is.
    pub open spec fn input_at(self, b: int, i: int, c: int) -> int {
        self.src1 + (i * self.ne10 + b * self.ne00 * self.ne1 + c) * 4
    }

    /// Where output `j` of vector `i` of batch entry `b` goes.
    pub open spec fn output_at(self, b: int, i: int, j: int) -> int {
        self.dst + (i * self.ne0 + b * self.ne0 * self.ne1 + j) * 4
    }
}

/// With what a matrix-vector launch binds, vector `i` of batch entry `b` is row `i` of that entry
/// of `[b, m, k]` activations, and its product that row of `[b, m, n]` outputs. Every vector has
/// threadgroups for all output rows, and each batch entry its own weights.
pub proof fn law_vector_addresses<'a, B>(
    l: Launch<'a, B>,
    dtype: GgmlDType,
    bmnk: (usize, usize, usize, usize),
    lhs: B,
    lhs_offset: usize,
    rhs: B,
    rhs_offset: usize,
    dst_offset: usize,
    dst: B,
)
    requires
        launches_mv_t(l, dtype, bmnk, lhs, lhs_offset, rhs, rhs_offset, dst_offset, dst),
        bmnk.0 <= i64::MAX && bmnk.1 <= i64::MAX && bmnk.2 <= i64::MAX && bmnk.3 <= i64::MAX,
    ensures
        l.source == Source::Quantized,
        l.name@ == "kernel_mul_mv"@ + spelled(dtype) + "_f32"@,
        l.args@.len() == 19,
        l.threadgroup_memory is None,
        is_read(l.args@[0], rhs),
        is_read(l.args@[1], lhs),
        is_written(l.args@[2], dst),
        ({
            let p = mv_params(l);
            let (b, m, n, k) = (bmnk.0 as int, bmnk.1 as int, bmnk.2 as int, bmnk.3 as int);
            &&& p.src0 == rhs_offset
            &&& forall|e: int, i: int, c: int| #[trigger]
                p.input_at(e, i, c) == lhs_offset + ((e * m + i) * k + c) * 4
            &&& forall|e: int, i: int, j: int| #[trigger]
                p.output_at(e, i, j) == dst_offset + ((e * m + i) * n + j) * 4
            &&& p.ne00 == k && p.ne10 == k
            &&& p.ne01 == n && p.ne0 == n
            &&& p.ne11 == m && p.ne1 == m
            &&& p.ne02 == b && p.ne12 == b
            &&& p.ne02 * p.r2 == p.ne12 && p.r3 == 1
            &&& l.dispatch matches Dispatch::ThreadGroups { count, size } && {
                &&& (count.width - 1) * mv_shape(dtype).2 < n <= count.width * mv_shape(dtype).2
                &&& count.height == m
                &&& count.depth == b
                &&& (size.width, size.height, size.depth) == (
                    mv_shape(dtype).0,
                    mv_shape(dtype).1,
                    1usize,
                )
            }
        }),
{
    let p = mv_params(l);
    let (b, m, n, k) = (bmnk.0 as int, bmnk.1 as int, bmnk.2 as int, bmnk.3 as int);
    assert forall|e: int, i: int, c: int| #[trigger]
        p.input_at(e, i, c) == lhs_offset + ((e * m + i) * k + c) * 4 by {
        assert(i * k + e * k * m + c == (e * m + i) * k + c) by (nonlinear_arith);
    }
    assert forall|e: int, i: int, j: int| #[trigger]
        p.output_at(e, i, j) == dst_offset + ((e * m + i) * n + j) * 4 by {
        assert(i * n + e * n * m + j == (e * m + i) * n + j) by (nonlinear_arith);
    }
    law_vector_kernels_by_format(dtype);
    let rows = mv_shape(dtype).2 as int;
    assert(rows >= 1);
    crate::arith::lemma_ceil_div_covers(n, rows);
    crate::arith::lemma_ceil_div(n, rows);
    let w = ceil_div(n, rows);
    assert(w <= n) by (nonlinear_arith)
        requires
            (w - 1) * rows < n,
            rows >= 1,
            n >= 0,
    ;
    assert(l.dispatch matches Dispatch::ThreadGroups { count, .. } && count.width == w);
    assert(p.r2 == 1 && p.ne02 == b && p.ne12 == b);
    assert(p.ne02 * p.r2 == p.ne12) by (nonlinear_arith)
        requires
            p.r2 == 1,
            p.ne02 == p.ne12,
    ;
}

/// The parameters of the gathering kernels, in their order.
pub ghost struct GetRowsParams {
    pub src0: int,
    pub src1: int,
    pub dst: int,
    pub ne00: int,
    pub nb01: int,
    pub nb02: int,
    pub ne10: int,
    pub nb10: int,
    pub nb11: int,
    pub nb1: int,
    pub nb2: int,
}

/// What a launch binds to the parameters of a gathering kernel.
pub open spec fn get_rows_params<'a, B>(l: Launch<'a, B>) -> GetRowsParams {
    let a = l.args@;
    GetRowsParams {
        src0: start(a[0]),
        src1: start(a[1]),
        dst: start(a[2]),
        ne00: number(a[3]),
        nb01: number(a[4]),
        nb02: number(a[5]),
        ne10: number(a[6]),
        nb10: number(a[7]),
        nb11: number(a[8]),
        nb1: number(a[9]),
        nb2: number(a[10]),
    }
}

impl GetRowsParams {
    /// Where the `i`-th row is named.
    pub open spec fn id_at(self, i: int) -> int {
        self.src1 + i * self.nb10
    }

    /// Where row `r` of the table starts.
    pub open spec fn row_at(self, r: int) -> int {
        self.src0 + r * self.nb01
    }

    /// Where element `c` of the `i`-th gathered row goes.
    pub open spec fn output_at(self, i: int, c: int) -> int {
        self.dst + i * self.nb1 + c * 4
    }
}

/// With what a gathering launch binds, the `i`-th id is read behind the ones before it, its row
/// is read at that many strides from the table's start, and goes behind the rows before it. Each
/// id has its own threadgroup.
pub proof fn law_gather_addresses<'a, B>(
    l: Launch<'a, B>,
    name: Seq<char>,
    hidden: usize,
    row_stride: usize,
    ids_len: usize,
    src: B,
    ids: (B, usize),
    dst: B,
)
    requires
        launches_get_rows(l, name, hidden, row_stride, ids_len, src, ids, dst),
        hidden <= i64::MAX,
        ids_len <= i64::MAX,
        hidden * 4 <= usize::MAX,
    ensures
        l.source == Source::Quantized,
        l.name@ == name,
        l.args@.len() == 11,
        l.threadgroup_memory is None,
        is_read(l.args@[0], src),
        is_read(l.args@[1], ids.0),
        is_written(l.args@[2], dst),
        ({
            let p = get_rows_params(l);
            &&& p.ne00 == hidden
            &&& p.ne10 == ids_len
            &&& forall|i: int| #[trigger] p.id_at(i) == ids.1 + i * 4
            &&& forall|r: int| #[trigger] p.row_at(r) == r * row_stride
            &&& forall|i: int, c: int| #[trigger] p.output_at(i, c) == (i * hidden + c) * 4
            &&& l.dispatch matches Dispatch::ThreadGroups { count, size } && count.width == ids_len
                && count.height == 1 && count.depth == 1 && size.width == 4 * 32 && size.height == 1
                && size.depth == 1
        }),
{
    let p = get_rows_params(l);
    assert forall|i: int, c: int| #[trigger] p.output_at(i, c) == (i * hidden + c) * 4 by {
        assert(i * (hidden * 4) + c * 4 == (i * hidden + c) * 4) by (nonlinear_arith);
    }
}

/// The parameters of the matrix-matrix kernels, in their order.
pub ghost struct MmParams {
    pub src0: int,
    pub src1: int,
    pub dst: int,
    pub ne00: int,
    pub ne02: int,
    pub nb01: int,
    pub nb02: int,
    pub nb03: int,
    pub ne12: int,
    pub nb10: int,
    pub nb11: int,
    pub nb12: int,
    pub nb13: int,
    pub ne0: int,
    pub ne1: int,
    pub r2: int,
    pub r3: int,
}

/// What a launch binds to the parameters of a matrix-matrix kernel.
pub open spec fn mm_params<'a, B>(l: Launch<'a, B>) -> MmParams {
    let a = l.args@;
    MmParams {
        src0: start(a[0]),
        src1: start(a[1]),
        dst: start(a[2]),
        ne00: number(a[3]),
        ne02: number(a[4]),
        nb01: number(a[5]),
        nb02: number(a[6]),
        nb03: number(a[7]),
        ne12: number(a[8]),
        nb10: number(a[9]),
        nb11: number(a[10]),
        nb12: number(a[11]),
        nb13: number(a[12]),
        ne0: number(a[13]),
        ne1: number(a[14]),
        r2: number(a[15]),
        r3: number(a[16]),
    }
}

impl MmParams {
    /// Where element `c` of row `i` of the activations of batch entry `e` is.
    pub open spec fn input_at(self, e: (int, int), i: int, c: int) -> int {
        self.src1 + e.0 * self.nb13 + e.1 * self.nb12 + i * self.nb11 + c * self.nb10
    }

    /// Where row `j` of the weights of batch entry `e` starts. Neighbouring entries share weights
    /// where there are more of them.
    pub open spec fn weights_at(self, e: (int, int), j: int) -> int {
        self.src0 + (e.0 / self.r3) * self.nb03 + (e.1 / self.r2) * self.nb02 + j * self.nb01
    }

    /// Where output `j` of row `i` of batch entry `e` goes.
    pub open spec fn output_at(self, e: (int, int), i: int, j: int) -> int {
        self.dst + ((e.0 * self.ne12 + e.1) * self.ne1 * self.ne0 + i * self.ne0 + j) * 4
    }
}

} // verus!
