//! Launches of the quantized matrix kernels.

use crate::arith::{ceil_div, divide, pad16};
use crate::error::MetalKernelError;
use crate::kernels::launch::{flat, Arg, Device, Dispatch, Launch, MTLSize, Source};
use crate::text::{decimal, decimal_text};
use vstd::prelude::*;
use vstd::string::*;

verus! {

/// The quantization formats that the kernels know.
#[derive(Debug, Clone, Copy, PartialEq, Eq, Structural)]
pub enum GgmlDType {
    Q4_0,
    Q4_1,
    Q5_0,
    Q5_1,
    Q8_0,
    Q8_1,
    Q2K,
    Q3K,
    Q4K,
    Q5K,
    Q6K,
    Q8K,
    F16,
    F32,
    BF16,
}

/// The short name of a format.
pub open spec fn label(dtype: GgmlDType) -> Seq<char> {
    match dtype {
        GgmlDType::Q4_0 => "Q4_0"@,
        GgmlDType::Q4_1 => "Q4_1"@,
        GgmlDType::Q5_0 => "Q5_0"@,
        GgmlDType::Q5_1 => "Q5_1"@,
        GgmlDType::Q8_0 => "Q8_0"@,
        GgmlDType::Q8_1 => "Q8_1"@,
        GgmlDType::Q2K => "Q2K"@,
        GgmlDType::Q3K => "Q3K"@,
        GgmlDType::Q4K => "Q4K"@,
        GgmlDType::Q5K => "Q5K"@,
        GgmlDType::Q6K => "Q6K"@,
        GgmlDType::Q8K => "Q8K"@,
        GgmlDType::F16 => "F16"@,
        GgmlDType::F32 => "F32"@,
        GgmlDType::BF16 => "BF16"@,
    }
}

/// Short name of a format for error messages. It is spelled out, so that renaming a variant does
/// not change a message.
pub fn dtype_label(dtype: GgmlDType) -> (r: &'static str)
    ensures
        r@ == label(dtype),
{
    match dtype {
        GgmlDType::Q4_0 => "Q4_0",
        GgmlDType::Q4_1 => "Q4_1",
        GgmlDType::Q5_0 => "Q5_0",
        GgmlDType::Q5_1 => "Q5_1",
        GgmlDType::Q8_0 => "Q8_0",
        GgmlDType::Q8_1 => "Q8_1",
        GgmlDType::Q2K => "Q2K",
        GgmlDType::Q3K => "Q3K",
        GgmlDType::Q4K => "Q4K",
        GgmlDType::Q5K => "Q5K",
        GgmlDType::Q6K => "Q6K",
        GgmlDType::Q8K => "Q8K",
        GgmlDType::F16 => "F16",
        GgmlDType::F32 => "F32",
        GgmlDType::BF16 => "BF16",
    }
}

/// What an allow-list of formats and kernel names gives for a format: the name beside its first
/// occurrence.
pub open spec fn lookup(
    allowed: Seq<(GgmlDType, &'static str)>,
    dtype: GgmlDType,
) -> Option<&'static str>
    decreases allowed.len(),
{
    if allowed.len() == 0 {
        None
    } else if allowed[0].0 == dtype {
        Some(allowed[0].1)
    } else {
        lookup(allowed.drop_first(), dtype)
    }
}

/// Looks `dtype` up in an allow-list of formats and kernel names, or refuses it for `op`.
pub fn require_supported_dtype(
    dtype: GgmlDType,
    allowed: &[(GgmlDType, &'static str)],
    op: &'static str,
) -> (r: core::result::Result<&'static str, MetalKernelError>)
    ensures
        match r {
            Ok(name) => lookup(allowed@, dtype) == Some(name),
            Err(e) => lookup(allowed@, dtype) is None && e.is_unsupported(label(dtype), op@),
        },
{
    let mut i: usize = 0;
    assert(allowed@.skip(0) =~= allowed@);
    while i < allowed.len()
        invariant
            i <= allowed.len(),
            lookup(allowed@, dtype) == lookup(allowed@.skip(i as int), dtype),
        decreases allowed.len() - i,
    {
        assert(allowed@.skip(i as int).drop_first() =~= allowed@.skip(i as int + 1));
        if allowed[i].0 == dtype {
            return Ok(allowed[i].1);
        }
        i = i + 1;
    }
    assert(allowed@.skip(allowed.len() as int) =~= Seq::empty());
    Err(MetalKernelError::UnsupportedDTypeForOp(dtype_label(dtype), op))
}

/// The threads along both axes of a threadgroup of the matrix-vector kernels, and the output
/// rows that such a threadgroup writes.
pub open spec fn mv_shape(dtype: GgmlDType) -> (usize, usize, usize) {
    match dtype {
        GgmlDType::Q4_0
        | GgmlDType::Q4_1
        | GgmlDType::Q5_0
        | GgmlDType::Q5_1
        | GgmlDType::Q8_0
        | GgmlDType::Q8_1 => (8, 8, 8),
        GgmlDType::Q2K | GgmlDType::Q3K | GgmlDType::Q5K => (2, 32, 4),
        GgmlDType::Q4K => (4, 8, 4),
        GgmlDType::Q6K => (2, 32, 2),
        GgmlDType::F16 | GgmlDType::BF16 | GgmlDType::Q8K | GgmlDType::F32 => (32, 1, 8),
    }
}

/// The threadgroup shape of the matrix-vector kernels, and the rows that one threadgroup writes.
/// These are properties of the kernel bodies and not tuning knobs.
pub fn mv_threadgroup_shape(dtype: GgmlDType) -> (r: (usize, usize, usize))
    ensures
        r == mv_shape(dtype),
        r.0 > 0 && r.1 > 0 && r.2 > 0,
{
    match dtype {
        GgmlDType::Q4_0
        | GgmlDType::Q4_1
        | GgmlDType::Q5_0
        | GgmlDType::Q5_1
        | GgmlDType::Q8_0
        | GgmlDType::Q8_1 => (8, 8, 8),
        GgmlDType::Q2K => (2, 32, 4),
        GgmlDType::Q4K => (4, 8, 4),
        GgmlDType::Q3K | GgmlDType::Q5K => (2, 32, 4),
        GgmlDType::Q6K => (2, 32, 2),
        GgmlDType::F16 | GgmlDType::BF16 | GgmlDType::Q8K | GgmlDType::F32 => (32, 1, 8),
    }
}

/// The matrix-vector kernel of a format.
pub open spec fn mv_kernel(dtype: GgmlDType) -> Seq<char> {
    match dtype {
        GgmlDType::Q4_0 => "kernel_mul_mv_q4_0_f32"@,
        GgmlDType::Q4_1 => "kernel_mul_mv_q4_1_f32"@,
        GgmlDType::Q5_0 => "kernel_mul_mv_q5_0_f32"@,
        GgmlDType::Q5_1 => "kernel_mul_mv_q5_1_f32"@,
        GgmlDType::Q8_0 => "kernel_mul_mv_q8_0_f32"@,
        GgmlDType::Q8_1 => "kernel_mul_mv_q8_1_f32"@,
        GgmlDType::Q2K => "kernel_mul_mv_q2_K_f32"@,
        GgmlDType::Q3K => "kernel_mul_mv_q3_K_f32"@,
        GgmlDType::Q4K => "kernel_mul_mv_q4_K_f32"@,
        GgmlDType::Q5K => "kernel_mul_mv_q5_K_f32"@,
        GgmlDType::Q6K => "kernel_mul_mv_q6_K_f32"@,
        GgmlDType::Q8K => "kernel_mul_mv_q8_K_f32"@,
        GgmlDType::F16 => "kernel_mul_mv_f16_f32"@,
        GgmlDType::BF16 => "kernel_mul_mv_bf16_f32"@,
        GgmlDType::F32 => "kernel_mul_mv_f32_f32"@,
    }
}

/// `l` multiplies a quantized `[n, k]` matrix with `[b, m, k]` vectors.
pub open spec fn launches_mv_t<'a, B>(
    l: Launch<'a, B>,
    dtype: GgmlDType,
    bmnk: (usize, usize, usize, usize),
    lhs: B,
    lhs_offset: usize,
    rhs: B,
    rhs_offset: usize,
    dst_offset: usize,
    dst: B,
) -> bool {
    let (b, m, n, k) = bmnk;
    l.encodes(
        Source::Quantized,
        mv_kernel(dtype),
        seq![
            Arg::Input(rhs, rhs_offset),
            Arg::Input(lhs, lhs_offset),
            Arg::Output(dst, dst_offset),
            Arg::I64(k as i64),
            Arg::I64(n as i64),
            Arg::I64(b as i64),
            Arg::I64(0),
            Arg::I64(0),
            Arg::I64(0),
            Arg::I64(k as i64),
            Arg::I64(m as i64),
            Arg::I64(b as i64),
            Arg::I64(0),
            Arg::I64(0),
            Arg::I64(0),
            Arg::I64(n as i64),
            Arg::I64(m as i64),
            Arg::U32(1),
            Arg::U32(1),
        ],
        None,
        Dispatch::ThreadGroups {
            count: (MTLSize {
                width: ceil_div(n as int, mv_shape(dtype).2 as int) as usize,
                height: m,
                depth: b,
            }),
            size: (MTLSize { width: mv_shape(dtype).0, height: mv_shape(dtype).1, depth: 1 }),
        },
    )
}

/// The product of a quantized `[n, k]` matrix with `[b, m, k]` vectors.
///
/// `rhs_offset` is where the weights start inside `rhs`, in bytes. It is not zero where the
/// weights are a view into a larger allocation, such as one expert of a stack.
pub fn call_quantized_matmul_mv_t<'a, B>(
    dtype: GgmlDType,
    bmnk: (usize, usize, usize, usize),
    lhs: B,
    lhs_offset: usize,
    rhs: B,
    rhs_offset: usize,
    dst_offset: usize,
    dst: B,
) -> (r: Launch<'a, B>)
    requires
        bmnk.0 > 0,
    ensures
        launches_mv_t(r, dtype, bmnk, lhs, lhs_offset, rhs, rhs_offset, dst_offset, dst),
{
    let (b, m, n, k) = bmnk;
    // Extents are given innermost first. Both operands have the same batch, so each is read once
    // per batch entry of the other.
    let ne00: i64 = k as i64;
    let ne01: i64 = n as i64;
    let ne02: i64 = b as i64;
    let ne10: i64 = k as i64;
    let ne11: i64 = m as i64;
    let ne12: i64 = b as i64;
    let ne0: i64 = n as i64;
    let ne1: i64 = m as i64;
    let r2: u32 = 1;
    let r3: u32 = 1;
    let (nth0, nth1, align) = mv_threadgroup_shape(dtype);
    let count: MTLSize = MTLSize { width: divide(n, align), height: m, depth: b };
    let size: MTLSize = MTLSize { width: nth0, height: nth1, depth: 1 };
    let name: &'static str = match dtype {
        GgmlDType::Q4_0 => "kernel_mul_mv_q4_0_f32",
        GgmlDType::Q4_1 => "kernel_mul_mv_q4_1_f32",
        GgmlDType::Q5_0 => "kernel_mul_mv_q5_0_f32",
        GgmlDType::Q5_1 => "kernel_mul_mv_q5_1_f32",
        GgmlDType::Q8_0 => "kernel_mul_mv_q8_0_f32",
        GgmlDType::Q8_1 => "kernel_mul_mv_q8_1_f32",
        GgmlDType::Q2K => "kernel_mul_mv_q2_K_f32",
        GgmlDType::Q3K => "kernel_mul_mv_q3_K_f32",
        GgmlDType::Q4K => "kernel_mul_mv_q4_K_f32",
        GgmlDType::Q5K => "kernel_mul_mv_q5_K_f32",
        GgmlDType::Q6K => "kernel_mul_mv_q6_K_f32",
        GgmlDType::Q8K => "kernel_mul_mv_q8_K_f32",
        GgmlDType::F16 => "kernel_mul_mv_f16_f32",
        GgmlDType::BF16 => "kernel_mul_mv_bf16_f32",
        GgmlDType::F32 => "kernel_mul_mv_f32_f32",
    };
    Launch {
        source: Source::Quantized,
        name,
        args: vec![
            Arg::Input(rhs, rhs_offset),
            Arg::Input(lhs, lhs_offset),
            Arg::Output(dst, dst_offset),
            Arg::I64(ne00),
            Arg::I64(ne01),
            Arg::I64(ne02),
            Arg::I64(0),
            Arg::I64(0),
            Arg::I64(0),
            Arg::I64(ne10),
            Arg::I64(ne11),
            Arg::I64(ne12),
            Arg::I64(0),
            Arg::I64(0),
            Arg::I64(0),
            Arg::I64(ne0),
            Arg::I64(ne1),
            Arg::U32(r2),
            Arg::U32(r3),
        ],
        threadgroup_memory: None,
        dispatch: Dispatch::ThreadGroups { count, size },
    }
}

/// The fused matrix-vector kernel of a format, where there is one that can be trusted.
///
/// Two-bit weights have one that writes eight rows per threadgroup unguarded, into the next
/// slot's output. The float formats have ones with another launch geometry. Neither is listed.
pub open spec fn mv_id_kernel(dtype: GgmlDType) -> Option<Seq<char>> {
    match dtype {
        GgmlDType::Q4K => Some("kernel_mul_mv_id_q4_K_f32"@),
        GgmlDType::Q5K => Some("kernel_mul_mv_id_q5_K_f32"@),
        GgmlDType::Q6K => Some("kernel_mul_mv_id_q6_K_f32"@),
        GgmlDType::Q8_0 => Some("kernel_mul_mv_id_q8_0_f32"@),
        GgmlDType::Q4_0 => Some("kernel_mul_mv_id_q4_0_f32"@),
        GgmlDType::Q4_1 => Some("kernel_mul_mv_id_q4_1_f32"@),
        GgmlDType::Q5_0 => Some("kernel_mul_mv_id_q5_0_f32"@),
        GgmlDType::Q5_1 => Some("kernel_mul_mv_id_q5_1_f32"@),
        GgmlDType::Q3K => Some("kernel_mul_mv_id_q3_K_f32"@),
        _ => None,
    }
}

/// Why the second extent of the activations does not fit.
pub open spec fn in_dim1_text(op: Seq<char>, in_dim1: usize, topk: usize) -> Seq<char> {
    op + ": src1 dim1 "@ + decimal_text(in_dim1 as nat) + " must be 1 or topk "@ + decimal_text(
        topk as nat,
    )
}

/// Why an output extent does not fit the rows that a threadgroup writes.
pub open spec fn rows_text(name: Seq<char>, n: usize, align: usize) -> Seq<char> {
    "mul_mv_id "@ + name + ": output dim "@ + decimal_text(n as nat)
        + " is not a multiple of the kernel's "@ + decimal_text(align as nat)
        + " rows per threadgroup; the kernel writes past the row it was asked for"@
}

/// `l` multiplies, for each token and expert slot, the slot's expert with the token's activations.
pub open spec fn launches_mv_id<'a, B>(
    l: Launch<'a, B>,
    dtype: GgmlDType,
    name: Seq<char>,
    enk: (usize, usize, usize),
    bit: (usize, usize, usize),
    expert_stride_bytes: usize,
    src0: (B, usize),
    src1: (B, usize),
    ids: (B, usize),
    dst: (B, usize),
) -> bool {
    let (_, n, k) = enk;
    let (batch, in_dim1, topk) = bit;
    l.encodes(
        Source::Quantized,
        name,
        seq![
            Arg::Input(src0.0, src0.1),
            Arg::Input(src1.0, src1.1),
            Arg::Output(dst.0, dst.1),
            Arg::Input(ids.0, ids.1),
            Arg::I64(topk as i64),
            Arg::I64(batch as i64),
            Arg::U64((topk * 4) as u64),
            Arg::I64(k as i64),
            Arg::I64(n as i64),
            Arg::I64(1),
            Arg::U64(0),
            Arg::U64(0),
            Arg::U64(expert_stride_bytes as u64),
            Arg::I64(k as i64),
            Arg::I64(in_dim1 as i64),
            Arg::I64(1),
            Arg::I64(1),
            Arg::U64(4),
            Arg::U64((k * 4) as u64),
            Arg::U64((in_dim1 * k * 4) as u64),
            Arg::I64(n as i64),
            Arg::I64(topk as i64),
            Arg::U64(0),
        ],
        Some(8192),
        Dispatch::ThreadGroups {
            count: (MTLSize {
                width: ceil_div(n as int, mv_shape(dtype).2 as int) as usize,
                height: 1,
                depth: (batch * topk) as usize,
            }),
            size: (MTLSize { width: mv_shape(dtype).0, height: mv_shape(dtype).1, depth: 1 }),
        },
    )
}

/// What `call_quantized_matmul_mv_id` hands back.
pub open spec fn mv_id_outcome<'a, B>(
    r: core::result::Result<Launch<'a, B>, MetalKernelError>,
    dtype: GgmlDType,
    enk: (usize, usize, usize),
    bit: (usize, usize, usize),
    expert_stride_bytes: usize,
    src0: (B, usize),
    src1: (B, usize),
    ids: (B, usize),
    dst: (B, usize),
) -> bool {
    match mv_id_kernel(dtype) {
        None => r matches Err(e) && e.is_unsupported(label(dtype), "mul_mv_id"@),
        Some(name) => if enk.0 == 0 {
            r matches Err(e) && e.is_invalid("mul_mv_id: expert stack is empty"@)
        } else if bit.1 != 1 && bit.1 != bit.2 {
            r matches Err(e) && e.is_invalid(in_dim1_text("mul_mv_id"@, bit.1, bit.2))
        } else if enk.1 % mv_shape(dtype).2 != 0 {
            r matches Err(e) && e.is_invalid(rows_text(name, enk.1, mv_shape(dtype).2))
        } else {
            r matches Ok(l) && launches_mv_id(
                l,
                dtype,
                name,
                enk,
                bit,
                expert_stride_bytes,
                src0,
                src1,
                ids,
                dst,
            )
        },
    }
}

/// Words the refusal of the activations' second extent.
fn in_dim1_message(op: &str, in_dim1: usize, topk: usize) -> (r: String)
    ensures
        r@ == in_dim1_text(op@, in_dim1, topk),
{
    let mut text: String = op.to_owned();
    text.append(": src1 dim1 ");
    text.append(decimal(in_dim1).as_str());
    text.append(" must be 1 or topk ");
    text.append(decimal(topk).as_str());
    text
}

/// Fused mixture-of-experts matrix-vector product: one quantized product per token and expert
/// slot, reading each slot's weights straight out of the stacked `[n_experts, n, k]` tensor.
///
/// - `enk` is `(n_experts, n, k)` and `bit` is `(batch, in_dim1, topk)`.
/// - `src0` is `[n_experts, n, k]`, quantized, with `expert_stride_bytes` from one expert to the
///   next.
/// - `src1` is `[batch, in_dim1, k]` floats, with `in_dim1` either 1 or `topk`.
/// - `ids` is `[batch, topk]`, and `dst` is `[batch, topk, n]` floats.
///
/// `dtype` must be the format of the very tensor that is multiplied.
pub fn call_quantized_matmul_mv_id<'a, B>(
    dtype: GgmlDType,
    enk: (usize, usize, usize),
    bit: (usize, usize, usize),
    expert_stride_bytes: usize,
    src0: (B, usize),
    src1: (B, usize),
    ids: (B, usize),
    dst: (B, usize),
) -> (r: core::result::Result<Launch<'a, B>, MetalKernelError>)
    requires
        enk.2 * 4 <= usize::MAX,
        bit.1 * enk.2 <= usize::MAX,
        bit.1 * enk.2 * 4 <= usize::MAX,
        bit.2 * 4 <= usize::MAX,
        bit.0 * bit.2 <= usize::MAX,
    ensures
        mv_id_outcome(r, dtype, enk, bit, expert_stride_bytes, src0, src1, ids, dst),
{
    let (n_experts, n, k) = enk;
    let (batch, in_dim1, topk) = bit;
    let allowed: [(GgmlDType, &'static str); 9] = [
        (GgmlDType::Q4K, "kernel_mul_mv_id_q4_K_f32"),
        (GgmlDType::Q5K, "kernel_mul_mv_id_q5_K_f32"),
        (GgmlDType::Q6K, "kernel_mul_mv_id_q6_K_f32"),
        (GgmlDType::Q8_0, "kernel_mul_mv_id_q8_0_f32"),
        (GgmlDType::Q4_0, "kernel_mul_mv_id_q4_0_f32"),
        (GgmlDType::Q4_1, "kernel_mul_mv_id_q4_1_f32"),
        (GgmlDType::Q5_0, "kernel_mul_mv_id_q5_0_f32"),
        (GgmlDType::Q5_1, "kernel_mul_mv_id_q5_1_f32"),
        (GgmlDType::Q3K, "kernel_mul_mv_id_q3_K_f32"),
    ];
    proof {
        reveal_with_fuel(lookup, 10);
    }
    let name: &'static str = match require_supported_dtype(
        dtype,
        allowed.as_slice(),
        "mul_mv_id",
    ) {
        Ok(name) => name,
        Err(e) => {
            return Err(e);
        },
    };
    assert(mv_id_kernel(dtype) == Some(name@));
    if n_experts == 0 {
        return Err(MetalKernelError::InvalidInput("mul_mv_id: expert stack is empty".to_owned()));
    }
    if in_dim1 != 1 && in_dim1 != topk {
        return Err(
            MetalKernelError::InvalidInput(in_dim1_message("mul_mv_id", in_dim1, topk)),
        );
    }
    let (nth0, nth1, align) = mv_threadgroup_shape(dtype);
    if n % align != 0 {
        let mut text: String = "mul_mv_id ".to_owned();
        text.append(name);
        text.append(": output dim ");
        text.append(decimal(n).as_str());
        text.append(" is not a multiple of the kernel's ");
        text.append(decimal(align).as_str());
        text.append(" rows per threadgroup; the kernel writes past the row it was asked for");
        return Err(MetalKernelError::InvalidInput(text));
    }
    let float_size: usize = 4;
    let ne00: i64 = k as i64;
    let ne01: i64 = n as i64;
    // The activations are contiguous: `nb11` walks a slot and `nb12` walks a token.
    let nb11: u64 = (k * float_size) as u64;
    let nb12: u64 = (in_dim1 * k * float_size) as u64;
    Ok(
        Launch {
            source: Source::Quantized,
            name,
            args: vec![
                Arg::Input(src0.0, src0.1),
                Arg::Input(src1.0, src1.1),
                Arg::Output(dst.0, dst.1),
                Arg::Input(ids.0, ids.1),
                Arg::I64(topk as i64),
                Arg::I64(batch as i64),
                Arg::U64((topk * 4) as u64),
                Arg::I64(ne00),
                Arg::I64(ne01),
                Arg::I64(1),
                Arg::U64(0),
                Arg::U64(0),
                Arg::U64(expert_stride_bytes as u64),
                Arg::I64(ne00),
                Arg::I64(in_dim1 as i64),
                Arg::I64(1),
                Arg::I64(1),
                Arg::U64(float_size as u64),
                Arg::U64(nb11),
                Arg::U64(nb12),
                Arg::I64(ne01),
                // The kernel steps from token to token by this many output rows.
                Arg::I64(topk as i64),
                Arg::U64(0),
            ],
            // The kernel binds threadgroup memory that it never reads; the binding needs a length.
            threadgroup_memory: Some(8192),
            dispatch: Dispatch::ThreadGroups {
                count: MTLSize { width: divide(n, align), height: 1, depth: batch * topk },
                size: MTLSize { width: nth0, height: nth1, depth: 1 },
            },
        },
    )
}

/// The rows that one fused matrix-matrix launch can hold in this much threadgroup memory.
pub open spec fn dst_rows_max(max_threadgroup_memory: usize) -> nat {
    let half = max_threadgroup_memory as int / 2;
    if half < 8192 {
        0
    } else {
        ((half - 8192) / 4) as nat
    }
}

/// The largest `topk * batch` that one fused matrix-matrix launch can hold in `device`'s
/// threadgroup memory. Both the launch and whoever cuts a batch into chunks ask here: a chunk
/// sized by another formula would be refused.
///
/// The kernel stages 8192 bytes and keeps four bytes per row. Half the memory is left unused, a
/// margin that only makes the bound smaller than it could be.
pub fn mul_mm_id_dst_rows_max(device: &Device) -> (r: usize)
    ensures
        r == dst_rows_max(device.max_threadgroup_memory_length),
{
    let half: usize = device.max_threadgroup_memory_length / 2;
    half.saturating_sub(8192) / 4
}

/// The fused matrix-matrix kernel of a format, for the formats that expert weights come in.
pub open spec fn mm_id_kernel(dtype: GgmlDType) -> Option<Seq<char>> {
    match dtype {
        GgmlDType::Q4K => Some("kernel_mul_mm_id_q4_K_f32"@),
        GgmlDType::Q5K => Some("kernel_mul_mm_id_q5_K_f32"@),
        GgmlDType::Q6K => Some("kernel_mul_mm_id_q6_K_f32"@),
        GgmlDType::Q8_0 => Some("kernel_mul_mm_id_q8_0_f32"@),
        _ => None,
    }
}

/// Why an inner extent does not fit the kernel's tile.
pub open spec fn tile_text(name: Seq<char>, k: usize) -> Seq<char> {
    "mul_mm_id "@ + name + ": K "@ + decimal_text(k as nat)
        + " is not a multiple of 32, the kernel's BLOCK_SIZE_K"@
}

/// Why a batch does not fit one launch.
pub open spec fn dst_rows_text(name: Seq<char>, rows: nat, max_memory: usize) -> Seq<char> {
    "mul_mm_id "@ + name + ": topk*batch "@ + decimal_text(rows)
        + " exceeds this device's dst_rows_max "@ + decimal_text(dst_rows_max(max_memory))
        + " (maxThreadgroupMemoryLength "@ + decimal_text(max_memory as nat)
        + " bytes); caller must chunk the token axis, one dispatch cannot hold this many rowids in threadgroup memory"@
}

/// The threadgroup memory that a fused matrix-matrix launch over `rows` rows binds.
pub open spec fn mm_id_memory(rows: int) -> int {
    ceil_div(8192 + rows * 4, 16) * 16
}

/// `l` multiplies every expert with the activations of the tokens routed to it.
pub open spec fn launches_mm_id<'a, B>(
    l: Launch<'a, B>,
    name: Seq<char>,
    enk: (usize, usize, usize),
    bit: (usize, usize, usize),
    row_stride_bytes: usize,
    expert_stride_bytes: usize,
    src0: (B, usize),
    src1: (B, usize),
    ids: (B, usize),
    dst: (B, usize),
) -> bool {
    let (n_experts, n, k) = enk;
    let (batch, in_dim1, topk) = bit;
    l.encodes(
        Source::Quantized,
        name,
        seq![
            Arg::Input(src0.0, src0.1),
            Arg::Input(src1.0, src1.1),
            Arg::Output(dst.0, dst.1),
            Arg::Input(ids.0, ids.1),
            Arg::I64(topk as i64),
            Arg::I64(batch as i64),
            Arg::U64((topk * 4) as u64),
            Arg::I64(k as i64),
            Arg::I64(n_experts as i64),
            Arg::U64(row_stride_bytes as u64),
            Arg::U64(expert_stride_bytes as u64),
            Arg::I64(in_dim1 as i64),
            Arg::I64(batch as i64),
            Arg::I64(1),
            Arg::U64(4),
            Arg::U64((k * 4) as u64),
            Arg::U64((in_dim1 * k * 4) as u64),
            Arg::I64(n as i64),
            Arg::I64(topk as i64),
            Arg::U64(0),
        ],
        Some(mm_id_memory(topk * batch) as usize),
        Dispatch::ThreadGroups {
            count: (MTLSize {
                width: ceil_div(batch as int, 32) as usize,
                height: ceil_div(n as int, 64) as usize,
                depth: n_experts,
            }),
            size: (MTLSize { width: 128, height: 1, depth: 1 }),
        },
    )
}

/// What `call_quantized_matmul_mm_id` hands back.
pub open spec fn mm_id_outcome<'a, B>(
    r: core::result::Result<Launch<'a, B>, MetalKernelError>,
    max_memory: usize,
    dtype: GgmlDType,
    enk: (usize, usize, usize),
    bit: (usize, usize, usize),
    row_stride_bytes: usize,
    expert_stride_bytes: usize,
    src0: (B, usize),
    src1: (B, usize),
    ids: (B, usize),
    dst: (B, usize),
) -> bool {
    match mm_id_kernel(dtype) {
        None => r matches Err(e) && e.is_unsupported(label(dtype), "mul_mm_id"@),
        Some(name) => if enk.0 == 0 {
            r matches Err(e) && e.is_invalid("mul_mm_id: expert stack is empty"@)
        } else if bit.1 != 1 && bit.1 != bit.2 {
            r matches Err(e) && e.is_invalid(in_dim1_text("mul_mm_id"@, bit.1, bit.2))
        } else if enk.2 % 32 != 0 {
            r matches Err(e) && e.is_invalid(tile_text(name, enk.2))
        } else if bit.2 * bit.0 > dst_rows_max(max_memory) {
            r matches Err(e) && e.is_invalid(
                dst_rows_text(name, (bit.2 * bit.0) as nat, max_memory),
            )
        } else {
            r matches Ok(l) && launches_mm_id(
                l,
                name,
                enk,
                bit,
                row_stride_bytes,
                expert_stride_bytes,
                src0,
                src1,
                ids,
                dst,
            )
        },
    }
}

/// Fused mixture-of-experts matrix-matrix product, for whole prompts. Every expert is launched,
/// and collects the token and slot pairs that are routed to it into threadgroup memory.
///
/// The operands are those of `call_quantized_matmul_mv_id`, with `row_stride_bytes` from one
/// output row of an expert to the next.
///
/// The memory that holds the pairs has a hard ceiling. A batch that does not fit is refused, and
/// never truncated: the caller cuts the token axis into chunks that do.
pub fn call_quantized_matmul_mm_id<'a, B>(
    device: &Device,
    dtype: GgmlDType,
    enk: (usize, usize, usize),
    bit: (usize, usize, usize),
    row_stride_bytes: usize,
    expert_stride_bytes: usize,
    src0: (B, usize),
    src1: (B, usize),
    ids: (B, usize),
    dst: (B, usize),
) -> (r: core::result::Result<Launch<'a, B>, MetalKernelError>)
    requires
        enk.2 * 4 <= usize::MAX,
        bit.1 * enk.2 <= usize::MAX,
        bit.1 * enk.2 * 4 <= usize::MAX,
        bit.2 * 4 <= usize::MAX,
        bit.2 * bit.0 <= usize::MAX,
    ensures
        mm_id_outcome(
            r,
            device.max_threadgroup_memory_length,
            dtype,
            enk,
            bit,
            row_stride_bytes,
            expert_stride_bytes,
            src0,
            src1,
            ids,
            dst,
        ),
{
    let (n_experts, n, k) = enk;
    let (batch, in_dim1, topk) = bit;
    let allowed: [(GgmlDType, &'static str); 4] = [
        (GgmlDType::Q4K, "kernel_mul_mm_id_q4_K_f32"),
        (GgmlDType::Q5K, "kernel_mul_mm_id_q5_K_f32"),
        (GgmlDType::Q6K, "kernel_mul_mm_id_q6_K_f32"),
        (GgmlDType::Q8_0, "kernel_mul_mm_id_q8_0_f32"),
    ];
    proof {
        reveal_with_fuel(lookup, 5);
    }
    let name: &'static str = match require_supported_dtype(
        dtype,
        allowed.as_slice(),
        "mul_mm_id",
    ) {
        Ok(name) => name,
        Err(e) => {
            return Err(e);
        },
    };
    assert(mm_id_kernel(dtype) == Some(name@));
    if n_experts == 0 {
        return Err(MetalKernelError::InvalidInput("mul_mm_id: expert stack is empty".to_owned()));
    }
    if in_dim1 != 1 && in_dim1 != topk {
        return Err(
            MetalKernelError::InvalidInput(in_dim1_message("mul_mm_id", in_dim1, topk)),
        );
    }
    // The kernel walks the inner extent in tiles of 32 and has no tail handling.
    if k % 32 != 0 {
        let mut text: String = "mul_mm_id ".to_owned();
        text.append(name);
        text.append(": K ");
        text.append(decimal(k).as_str());
        text.append(" is not a multiple of 32, the kernel's BLOCK_SIZE_K");
        return Err(MetalKernelError::InvalidInput(text));
    }
    let dst_rows: usize = topk * batch;
    let rows_max: usize = mul_mm_id_dst_rows_max(device);
    if dst_rows > rows_max {
        let mut text: String = "mul_mm_id ".to_owned();
        text.append(name);
        text.append(": topk*batch ");
        text.append(decimal(dst_rows).as_str());
        text.append(" exceeds this device's dst_rows_max ");
        text.append(decimal(rows_max).as_str());
        text.append(" (maxThreadgroupMemoryLength ");
        text.append(decimal(device.max_threadgroup_memory_length).as_str());
        text.append(
            " bytes); caller must chunk the token axis, one dispatch cannot hold this many rowids in threadgroup memory",
        );
        return Err(MetalKernelError::InvalidInput(text));
    }
    let float_size: usize = 4;
    // The activations are contiguous: `nb11` walks a slot and `nb12` walks a token.
    let nb11: u64 = (k * float_size) as u64;
    let nb12: u64 = (in_dim1 * k * float_size) as u64;
    Ok(
        Launch {
            source: Source::Quantized,
            name,
            args: vec![
                Arg::Input(src0.0, src0.1),
                Arg::Input(src1.0, src1.1),
                Arg::Output(dst.0, dst.1),
                Arg::Input(ids.0, ids.1),
                Arg::I64(topk as i64),
                Arg::I64(batch as i64),
                Arg::U64((topk * 4) as u64),
                Arg::I64(k as i64),
                Arg::I64(n_experts as i64),
                Arg::U64(row_stride_bytes as u64),
                Arg::U64(expert_stride_bytes as u64),
                Arg::I64(in_dim1 as i64),
                Arg::I64(batch as i64),
                Arg::I64(1),
                Arg::U64(float_size as u64),
                Arg::U64(nb11),
                Arg::U64(nb12),
                Arg::I64(n as i64),
                // The kernel steps from token to token by this many output rows.
                Arg::I64(topk as i64),
                Arg::U64(0),
            ],
            // The pairs lie behind the staging area.
            threadgroup_memory: Some(pad16(8192 + dst_rows * 4)),
            dispatch: Dispatch::ThreadGroups {
                count: MTLSize {
                    width: divide(batch, 32),
                    height: divide(n, 64),
                    depth: n_experts,
                },
                size: flat(128),
            },
        },
    )
}

/// A fused matrix-matrix launch that is not refused binds no more threadgroup memory than the
/// device has. A device with less than the staging area itself is left out: there, a launch over
/// no rows at all is not refused and binds more than there is.
pub proof fn law_mm_id_memory_fits(rows: int, max_memory: usize)
    requires
        0 <= rows <= dst_rows_max(max_memory),
        8192 <= max_memory,
    ensures
        mm_id_memory(rows) <= max_memory,
{
    let half = max_memory as int / 2;
    crate::arith::lemma_ceil_div_covers(8192 + rows * 4, 16);
    assert(mm_id_memory(rows) < 8192 + rows * 4 + 16);
    if half >= 8192 {
        assert(rows * 4 <= half - 8192);
    } else {
        assert(rows == 0);
        assert(ceil_div(8192, 16) == 512);
    }
}

/// The matrix-matrix kernel of a format.
pub open spec fn mm_kernel(dtype: GgmlDType) -> Option<Seq<char>> {
    match dtype {
        GgmlDType::Q4_0 => Some("kernel_mul_mm_q4_0_f32"@),
        GgmlDType::Q4_1 => Some("kernel_mul_mm_q4_1_f32"@),
        GgmlDType::Q5_0 => Some("kernel_mul_mm_q5_0_f32"@),
        GgmlDType::Q5_1 => Some("kernel_mul_mm_q5_1_f32"@),
        GgmlDType::Q8_0 => Some("kernel_mul_mm_q8_0_f32"@),
        GgmlDType::Q2K => Some("kernel_mul_mm_q2_K_f32"@),
        GgmlDType::Q3K => Some("kernel_mul_mm_q3_K_f32"@),
        GgmlDType::Q4K => Some("kernel_mul_mm_q4_K_f32"@),
        GgmlDType::Q5K => Some("kernel_mul_mm_q5_K_f32"@),
        GgmlDType::Q6K => Some("kernel_mul_mm_q6_K_f32"@),
        GgmlDType::F16 => Some("kernel_mul_mm_f16_f32"@),
        GgmlDType::BF16 => Some("kernel_mul_mm_bf16_f32"@),
        GgmlDType::F32 => Some("kernel_mul_mm_f32_f32"@),
        GgmlDType::Q8_1 => None,
        GgmlDType::Q8K => None,
    }
}

/// The `i`-th extent from the end, the last one being the first.
pub open spec fn from_end(s: Seq<usize>, i: int) -> usize {
    s[s.len() - i]
}

/// `l` multiplies a quantized matrix with a matrix of activations.
pub open spec fn launches_mm_t<'a, B>(
    l: Launch<'a, B>,
    name: Seq<char>,
    src0_shape: Seq<usize>,
    src0_stride: Seq<usize>,
    src0: (B, usize),
    src1_shape: Seq<usize>,
    src1_stride: Seq<usize>,
    src1: (B, usize),
    dst_shape: Seq<usize>,
    dst: (B, usize),
) -> bool {
    l.encodes(
        Source::Quantized,
        name,
        seq![
            Arg::Input(src0.0, src0.1),
            Arg::Input(src1.0, src1.1),
            Arg::Output(dst.0, dst.1),
            Arg::I64(from_end(src0_shape, 1) as i64),
            Arg::I64(from_end(src0_shape, 3) as i64),
            Arg::I64(from_end(src0_stride, 2) as i64),
            Arg::I64(from_end(src0_stride, 3) as i64),
            Arg::I64(from_end(src0_stride, 4) as i64),
            Arg::I64(from_end(src1_shape, 3) as i64),
            Arg::I64(from_end(src1_stride, 1) as i64),
            Arg::I64(from_end(src1_stride, 2) as i64),
            Arg::I64(from_end(src1_stride, 3) as i64),
            Arg::I64(from_end(src1_stride, 4) as i64),
            Arg::I64(from_end(dst_shape, 1) as i64),
            Arg::I64(from_end(dst_shape, 2) as i64),
            Arg::U32((from_end(src1_shape, 3) / from_end(src0_shape, 3)) as u32),
            Arg::U32((from_end(src1_shape, 4) / from_end(src0_shape, 4)) as u32),
        ],
        Some(8192),
        Dispatch::ThreadGroups {
            count: (MTLSize {
                width: ceil_div(from_end(src1_shape, 2) as int, 32) as usize,
                height: ceil_div(from_end(src0_shape, 2) as int, 64) as usize,
                depth: (from_end(src1_shape, 3) * from_end(src1_shape, 4)) as usize,
            }),
            size: (MTLSize { width: 128, height: 1, depth: 1 }),
        },
    )
}

/// The product of a quantized matrix (`src0`, usually the weights) with a matrix of activations
/// (`src1`). The shapes have at least four extents, those of the weights' two outer ones not
/// zero; they and their strides are within the signed 64-bit range that the kernel counts in.
pub fn call_quantized_matmul_mm_t<'a, B>(
    dtype: GgmlDType,
    src0_shape: &[usize],
    src0_stride: &[usize],
    src0: (B, usize),
    src1_shape: &[usize],
    src1_stride: &[usize],
    src1: (B, usize),
    dst_shape: &[usize],
    dst: (B, usize),
) -> (r: core::result::Result<Launch<'a, B>, MetalKernelError>)
    requires
        src0_shape@.len() >= 4,
        src0_stride@.len() >= 4,
        src1_shape@.len() >= 4,
        src1_stride@.len() >= 4,
        dst_shape@.len() >= 2,
        0 < from_end(src0_shape@, 3) <= i64::MAX,
        0 < from_end(src0_shape@, 4) <= i64::MAX,
        from_end(src1_shape@, 3) <= i64::MAX,
        from_end(src1_shape@, 4) <= i64::MAX,
        from_end(src1_shape@, 3) * from_end(src1_shape@, 4) <= i64::MAX,
        from_end(src1_shape@, 3) * from_end(src1_shape@, 4) <= usize::MAX,
    ensures
        match mm_kernel(dtype) {
            None => r matches Err(e) && e.is_unsupported(label(dtype), "qmatmul"@),
            Some(name) => r matches Ok(l) && launches_mm_t(
                l,
                name,
                src0_shape@,
                src0_stride@,
                src0,
                src1_shape@,
                src1_stride@,
                src1,
                dst_shape@,
                dst,
            ),
        },
{
    // Extents are given innermost first.
    let ne00: usize = src0_shape[src0_shape.len() - 1];
    let ne01: usize = src0_shape[src0_shape.len() - 2];
    let ne02: usize = src0_shape[src0_shape.len() - 3];
    let ne03: usize = src0_shape[src0_shape.len() - 4];

    let nb01: usize = src0_stride[src0_stride.len() - 2];
    let nb02: usize = src0_stride[src0_stride.len() - 3];
    let nb03: usize = src0_stride[src0_stride.len() - 4];

    let ne11: usize = src1_shape[src1_shape.len() - 2];
    let ne12: usize = src1_shape[src1_shape.len() - 3];
    let ne13: usize = src1_shape[src1_shape.len() - 4];

    let nb10: usize = src1_stride[src1_stride.len() - 1];
    let nb11: usize = src1_stride[src1_stride.len() - 2];
    let nb12: usize = src1_stride[src1_stride.len() - 3];
    let nb13: usize = src1_stride[src1_stride.len() - 4];

    let ne0: usize = dst_shape[dst_shape.len() - 1];
    let ne1: usize = dst_shape[dst_shape.len() - 2];
    let r2: u32 = (ne12 / ne02) as u32;
    let r3: u32 = (ne13 / ne03) as u32;

    let count: MTLSize = MTLSize {
        width: divide(ne11, 32),
        height: divide(ne01, 64),
        depth: ne12 * ne13,
    };
    let name: &'static str = match dtype {
        GgmlDType::Q4_0 => "kernel_mul_mm_q4_0_f32",
        GgmlDType::Q4_1 => "kernel_mul_mm_q4_1_f32",
        GgmlDType::Q5_0 => "kernel_mul_mm_q5_0_f32",
        GgmlDType::Q5_1 => "kernel_mul_mm_q5_1_f32",
        GgmlDType::Q8_0 => "kernel_mul_mm_q8_0_f32",
        GgmlDType::Q2K => "kernel_mul_mm_q2_K_f32",
        GgmlDType::Q3K => "kernel_mul_mm_q3_K_f32",
        GgmlDType::Q4K => "kernel_mul_mm_q4_K_f32",
        GgmlDType::Q5K => "kernel_mul_mm_q5_K_f32",
        GgmlDType::Q6K => "kernel_mul_mm_q6_K_f32",
        GgmlDType::F16 => "kernel_mul_mm_f16_f32",
        GgmlDType::BF16 => "kernel_mul_mm_bf16_f32",
        GgmlDType::F32 => "kernel_mul_mm_f32_f32",
        GgmlDType::Q8_1 => {
            return Err(MetalKernelError::UnsupportedDTypeForOp("Q8_1", "qmatmul"));
        },
        GgmlDType::Q8K => {
            return Err(MetalKernelError::UnsupportedDTypeForOp("Q8K", "qmatmul"));
        },
    };
    Ok(
        Launch {
            source: Source::Quantized,
            name,
            args: vec![
                Arg::Input(src0.0, src0.1),
                Arg::Input(src1.0, src1.1),
                Arg::Output(dst.0, dst.1),
                Arg::I64(ne00 as i64),
                Arg::I64(ne02 as i64),
                Arg::I64(nb01 as i64),
                Arg::I64(nb02 as i64),
                Arg::I64(nb03 as i64),
                Arg::I64(ne12 as i64),
                Arg::I64(nb10 as i64),
                Arg::I64(nb11 as i64),
                Arg::I64(nb12 as i64),
                Arg::I64(nb13 as i64),
                Arg::I64(ne0 as i64),
                Arg::I64(ne1 as i64),
                Arg::U32(r2),
                Arg::U32(r3),
            ],
            threadgroup_memory: Some(8192),
            dispatch: Dispatch::ThreadGroups { count, size: flat(128) },
        },
    )
}

/// The row-gathering kernel of a format.
pub open spec fn get_rows_kernel(dtype: GgmlDType) -> Option<Seq<char>> {
    match dtype {
        GgmlDType::F32 => Some("kernel_get_rows_f32"@),
        GgmlDType::F16 => Some("kernel_get_rows_f16"@),
        GgmlDType::BF16 => Some("kernel_get_rows_bf16"@),
        GgmlDType::Q4_0 => Some("kernel_get_rows_q4_0"@),
        GgmlDType::Q4_1 => Some("kernel_get_rows_q4_1"@),
        GgmlDType::Q5_0 => Some("kernel_get_rows_q5_0"@),
        GgmlDType::Q5_1 => Some("kernel_get_rows_q5_1"@),
        GgmlDType::Q8_0 => Some("kernel_get_rows_q8_0"@),
        GgmlDType::Q2K => Some("kernel_get_rows_q2_K"@),
        GgmlDType::Q3K => Some("kernel_get_rows_q3_K"@),
        GgmlDType::Q4K => Some("kernel_get_rows_q4_K"@),
        GgmlDType::Q5K => Some("kernel_get_rows_q5_K"@),
        GgmlDType::Q6K => Some("kernel_get_rows_q6_K"@),
        GgmlDType::Q8_1 => None,
        GgmlDType::Q8K => None,
    }
}

/// `l` gathers rows of a quantized table.
pub open spec fn launches_get_rows<'a, B>(
    l: Launch<'a, B>,
    name: Seq<char>,
    hidden_size: usize,
    row_stride: usize,
    ids_len: usize,
    src: B,
    ids: (B, usize),
    dst: B,
) -> bool {
    l.encodes(
        Source::Quantized,
        name,
        seq![
            Arg::Input(src, 0),
            Arg::Input(ids.0, ids.1),
            Arg::Output(dst, 0),
            Arg::I64(hidden_size as i64),
            Arg::U64(row_stride as u64),
            Arg::U64(0),
            Arg::I64(ids_len as i64),
            Arg::U64(4),
            Arg::U64(0),
            Arg::U64((hidden_size * 4) as u64),
            Arg::U64(0),
        ],
        None,
        Dispatch::ThreadGroups {
            count: (MTLSize { width: ids_len, height: 1, depth: 1 }),
            size: (MTLSize { width: 128, height: 1, depth: 1 }),
        },
    )
}

/// Gathers `ids_len` rows of a quantized table, as rows of `hidden_size` floats. The table
/// starts at the start of its buffer.
pub fn call_quantized_get_rows<'a, B>(
    dtype: GgmlDType,
    hidden_size: usize,
    row_stride: usize,
    ids_len: usize,
    src: B,
    ids: (B, usize),
    dst: B,
) -> (r: core::result::Result<Launch<'a, B>, MetalKernelError>)
    requires
        hidden_size * 4 <= usize::MAX,
    ensures
        match get_rows_kernel(dtype) {
            None => r matches Err(e) && e.is_unsupported(label(dtype), "get_rows"@),
            Some(name) => r matches Ok(l) && launches_get_rows(
                l,
                name,
                hidden_size,
                row_stride,
                ids_len,
                src,
                ids,
                dst,
            ),
        },
{
    let dst_row_stride: usize = hidden_size * 4;
    let name: &'static str = match dtype {
        GgmlDType::F32 => "kernel_get_rows_f32",
        GgmlDType::F16 => "kernel_get_rows_f16",
        GgmlDType::BF16 => "kernel_get_rows_bf16",
        GgmlDType::Q4_0 => "kernel_get_rows_q4_0",
        GgmlDType::Q4_1 => "kernel_get_rows_q4_1",
        GgmlDType::Q5_0 => "kernel_get_rows_q5_0",
        GgmlDType::Q5_1 => "kernel_get_rows_q5_1",
        GgmlDType::Q8_0 => "kernel_get_rows_q8_0",
        GgmlDType::Q2K => "kernel_get_rows_q2_K",
        GgmlDType::Q3K => "kernel_get_rows_q3_K",
        GgmlDType::Q4K => "kernel_get_rows_q4_K",
        GgmlDType::Q5K => "kernel_get_rows_q5_K",
        GgmlDType::Q6K => "kernel_get_rows_q6_K",
        GgmlDType::Q8_1 => {
            return Err(MetalKernelError::UnsupportedDTypeForOp("Q8_1", "get_rows"));
        },
        GgmlDType::Q8K => {
            return Err(MetalKernelError::UnsupportedDTypeForOp("Q8K", "get_rows"));
        },
    };
    Ok(
        Launch {
            source: Source::Quantized,
            name,
            args: vec![
                Arg::Input(src, 0),
                Arg::Input(ids.0, ids.1),
                Arg::Output(dst, 0),
                Arg::I64(hidden_size as i64),
                Arg::U64(row_stride as u64),
                Arg::U64(0),
                Arg::I64(ids_len as i64),
                Arg::U64(4),
                Arg::U64(0),
                Arg::U64(dst_row_stride as u64),
                Arg::U64(0),
            ],
            threadgroup_memory: None,
            dispatch: Dispatch::ThreadGroups { count: flat(ids_len), size: flat(128) },
        },
    )
}

/// The output rows that 32 lanes work out together in a matrix-vector kernel.
pub open spec fn rows_per_lanes(dtype: GgmlDType) -> int {
    match dtype {
        GgmlDType::Q4_0
        | GgmlDType::Q4_1
        | GgmlDType::Q5_0
        | GgmlDType::Q5_1
        | GgmlDType::Q8_0
        | GgmlDType::Q8_1
        | GgmlDType::Q4K => 4,
        GgmlDType::Q2K | GgmlDType::Q3K | GgmlDType::Q5K => 2,
        GgmlDType::Q6K => 1,
        GgmlDType::F16 | GgmlDType::BF16 | GgmlDType::F32 | GgmlDType::Q8K => 8,
    }
}

/// The threadgroups of matrix-vector kernels are whole groups of 32 lanes, one or two of them, and
/// write as many rows as those groups work out.
pub proof fn law_threadgroups_are_whole_lanes(dtype: GgmlDType)
    ensures
        ({
            let (x, y, rows) = mv_shape(dtype);
            &&& x * y == 32 || x * y == 64
            &&& x * y == 32 <==> dtype is Q4K || dtype is F16 || dtype is BF16 || dtype is F32
                || dtype is Q8K
            &&& rows * 32 == rows_per_lanes(dtype) * (x * y)
        }),
{
}

/// No two formats have the same short name, and the kernels' formats are told apart by it.
pub proof fn law_labels_tell_formats_apart(a: GgmlDType, b: GgmlDType)
    ensures
        label(a) == label(b) <==> a == b,
{
    reveal_strlit("Q4_0");
    reveal_strlit("Q4_1");
    reveal_strlit("Q5_0");
    reveal_strlit("Q5_1");
    reveal_strlit("Q8_0");
    reveal_strlit("Q8_1");
    reveal_strlit("Q2K");
    reveal_strlit("Q3K");
    reveal_strlit("Q4K");
    reveal_strlit("Q5K");
    reveal_strlit("Q6K");
    reveal_strlit("Q8K");
    reveal_strlit("F16");
    reveal_strlit("F32");
    reveal_strlit("BF16");
    if a != b {
        let (x, y) = (label(a), label(b));
        assert(x.len() != y.len() || x[0] != y[0] || x[1] != y[1] || x[2] != y[2] || (x.len() == 4
            && x[3] != y[3]));
    }
}

} // verus!
