//! The names of the quantized kernels.
//!
//! A kernel is named after what it does, the format of the weights and the type of the
//! activations. All families spell a format the same way.

use crate::kernels::quantized::{
    get_rows_kernel, mm_id_kernel, mm_kernel, mv_id_kernel, mv_kernel, GgmlDType,
};
use vstd::prelude::*;

verus! {

/// How the names of kernels spell a format.
pub open spec fn spelled(dtype: GgmlDType) -> Seq<char> {
    match dtype {
        GgmlDType::Q4_0 => "_q4_0"@,
        GgmlDType::Q4_1 => "_q4_1"@,
        GgmlDType::Q5_0 => "_q5_0"@,
        GgmlDType::Q5_1 => "_q5_1"@,
        GgmlDType::Q8_0 => "_q8_0"@,
        GgmlDType::Q8_1 => "_q8_1"@,
        GgmlDType::Q2K => "_q2_K"@,
        GgmlDType::Q3K => "_q3_K"@,
        GgmlDType::Q4K => "_q4_K"@,
        GgmlDType::Q5K => "_q5_K"@,
        GgmlDType::Q6K => "_q6_K"@,
        GgmlDType::Q8K => "_q8_K"@,
        GgmlDType::F16 => "_f16"@,
        GgmlDType::BF16 => "_bf16"@,
        GgmlDType::F32 => "_f32"@,
    }
}

/// The matrix-vector kernel of every format is the one that is named after it.
pub proof fn law_vector_kernels_by_format(dtype: GgmlDType)
    ensures
        mv_kernel(dtype) == "kernel_mul_mv"@ + spelled(dtype) + "_f32"@,
{
    reveal_strlit("kernel_mul_mv");
    reveal_strlit("_f32");
    match dtype {
        GgmlDType::Q4_0 => {
            reveal_strlit("_q4_0");
            reveal_strlit("kernel_mul_mv_q4_0_f32");
            assert("kernel_mul_mv_q4_0_f32"@ =~= "kernel_mul_mv"@ + "_q4_0"@ + "_f32"@);
        },
        GgmlDType::Q4_1 => {
            reveal_strlit("_q4_1");
            reveal_strlit("kernel_mul_mv_q4_1_f32");
            assert("kernel_mul_mv_q4_1_f32"@ =~= "kernel_mul_mv"@ + "_q4_1"@ + "_f32"@);
        },
        GgmlDType::Q5_0 => {
            reveal_strlit("_q5_0");
            reveal_strlit("kernel_mul_mv_q5_0_f32");
            assert("kernel_mul_mv_q5_0_f32"@ =~= "kernel_mul_mv"@ + "_q5_0"@ + "_f32"@);
        },
        GgmlDType::Q5_1 => {
            reveal_strlit("_q5_1");
            reveal_strlit("kernel_mul_mv_q5_1_f32");
            assert("kernel_mul_mv_q5_1_f32"@ =~= "kernel_mul_mv"@ + "_q5_1"@ + "_f32"@);
        },
        GgmlDType::Q8_0 => {
            reveal_strlit("_q8_0");
            reveal_strlit("kernel_mul_mv_q8_0_f32");
            assert("kernel_mul_mv_q8_0_f32"@ =~= "kernel_mul_mv"@ + "_q8_0"@ + "_f32"@);
        },
        GgmlDType::Q8_1 => {
            reveal_strlit("_q8_1");
            reveal_strlit("kernel_mul_mv_q8_1_f32");
            assert("kernel_mul_mv_q8_1_f32"@ =~= "kernel_mul_mv"@ + "_q8_1"@ + "_f32"@);
        },
        GgmlDType::Q2K => {
            reveal_strlit("_q2_K");
            reveal_strlit("kernel_mul_mv_q2_K_f32");
            assert("kernel_mul_mv_q2_K_f32"@ =~= "kernel_mul_mv"@ + "_q2_K"@ + "_f32"@);
        },
        GgmlDType::Q3K => {
            reveal_strlit("_q3_K");
            reveal_strlit("kernel_mul_mv_q3_K_f32");
            assert("kernel_mul_mv_q3_K_f32"@ =~= "kernel_mul_mv"@ + "_q3_K"@ + "_f32"@);
        },
        GgmlDType::Q4K => {
            reveal_strlit("_q4_K");
            reveal_strlit("kernel_mul_mv_q4_K_f32");
            assert("kernel_mul_mv_q4_K_f32"@ =~= "kernel_mul_mv"@ + "_q4_K"@ + "_f32"@);
        },
        GgmlDType::Q5K => {
            reveal_strlit("_q5_K");
            reveal_strlit("kernel_mul_mv_q5_K_f32");
            assert("kernel_mul_mv_q5_K_f32"@ =~= "kernel_mul_mv"@ + "_q5_K"@ + "_f32"@);
        },
        GgmlDType::Q6K => {
            reveal_strlit("_q6_K");
            reveal_strlit("kernel_mul_mv_q6_K_f32");
            assert("kernel_mul_mv_q6_K_f32"@ =~= "kernel_mul_mv"@ + "_q6_K"@ + "_f32"@);
        },
        GgmlDType::Q8K => {
            reveal_strlit("_q8_K");
            reveal_strlit("kernel_mul_mv_q8_K_f32");
            assert("kernel_mul_mv_q8_K_f32"@ =~= "kernel_mul_mv"@ + "_q8_K"@ + "_f32"@);
        },
        GgmlDType::F16 => {
            reveal_strlit("_f16");
            reveal_strlit("kernel_mul_mv_f16_f32");
            assert("kernel_mul_mv_f16_f32"@ =~= "kernel_mul_mv"@ + "_f16"@ + "_f32"@);
        },
        GgmlDType::BF16 => {
            reveal_strlit("_bf16");
            reveal_strlit("kernel_mul_mv_bf16_f32");
            assert("kernel_mul_mv_bf16_f32"@ =~= "kernel_mul_mv"@ + "_bf16"@ + "_f32"@);
        },
        GgmlDType::F32 => {
            reveal_strlit("_f32");
            reveal_strlit("kernel_mul_mv_f32_f32");
            assert("kernel_mul_mv_f32_f32"@ =~= "kernel_mul_mv"@ + "_f32"@ + "_f32"@);
        },
    }
}

/// The matrix-matrix kernel of a format is the one that is named after it.
pub proof fn law_matrix_kernels_by_format(dtype: GgmlDType)
    ensures
        mm_kernel(dtype) matches Some(name) ==> name == "kernel_mul_mm"@ + spelled(dtype) + "_f32"@,
{
    reveal_strlit("kernel_mul_mm");
    reveal_strlit("_f32");
    match dtype {
        GgmlDType::Q4_0 => {
            reveal_strlit("_q4_0");
            reveal_strlit("kernel_mul_mm_q4_0_f32");
            assert("kernel_mul_mm_q4_0_f32"@ =~= "kernel_mul_mm"@ + "_q4_0"@ + "_f32"@);
        },
        GgmlDType::Q4_1 => {
            reveal_strlit("_q4_1");
            reveal_strlit("kernel_mul_mm_q4_1_f32");
            assert("kernel_mul_mm_q4_1_f32"@ =~= "kernel_mul_mm"@ + "_q4_1"@ + "_f32"@);
        },
        GgmlDType::Q5_0 => {
            reveal_strlit("_q5_0");
            reveal_strlit("kernel_mul_mm_q5_0_f32");
            assert("kernel_mul_mm_q5_0_f32"@ =~= "kernel_mul_mm"@ + "_q5_0"@ + "_f32"@);
        },
        GgmlDType::Q5_1 => {
            reveal_strlit("_q5_1");
            reveal_strlit("kernel_mul_mm_q5_1_f32");
            assert("kernel_mul_mm_q5_1_f32"@ =~= "kernel_mul_mm"@ + "_q5_1"@ + "_f32"@);
        },
        GgmlDType::Q8_0 => {
            reveal_strlit("_q8_0");
            reveal_strlit("kernel_mul_mm_q8_0_f32");
            assert("kernel_mul_mm_q8_0_f32"@ =~= "kernel_mul_mm"@ + "_q8_0"@ + "_f32"@);
        },
        GgmlDType::Q2K => {
            reveal_strlit("_q2_K");
            reveal_strlit("kernel_mul_mm_q2_K_f32");
            assert("kernel_mul_mm_q2_K_f32"@ =~= "kernel_mul_mm"@ + "_q2_K"@ + "_f32"@);
        },
        GgmlDType::Q3K => {
            reveal_strlit("_q3_K");
            reveal_strlit("kernel_mul_mm_q3_K_f32");
            assert("kernel_mul_mm_q3_K_f32"@ =~= "kernel_mul_mm"@ + "_q3_K"@ + "_f32"@);
        },
        GgmlDType::Q4K => {
            reveal_strlit("_q4_K");
            reveal_strlit("kernel_mul_mm_q4_K_f32");
            assert("kernel_mul_mm_q4_K_f32"@ =~= "kernel_mul_mm"@ + "_q4_K"@ + "_f32"@);
        },
        GgmlDType::Q5K => {
            reveal_strlit("_q5_K");
            reveal_strlit("kernel_mul_mm_q5_K_f32");
            assert("kernel_mul_mm_q5_K_f32"@ =~= "kernel_mul_mm"@ + "_q5_K"@ + "_f32"@);
        },
        GgmlDType::Q6K => {
            reveal_strlit("_q6_K");
            reveal_strlit("kernel_mul_mm_q6_K_f32");
            assert("kernel_mul_mm_q6_K_f32"@ =~= "kernel_mul_mm"@ + "_q6_K"@ + "_f32"@);
        },
        GgmlDType::F16 => {
            reveal_strlit("_f16");
            reveal_strlit("kernel_mul_mm_f16_f32");
            assert("kernel_mul_mm_f16_f32"@ =~= "kernel_mul_mm"@ + "_f16"@ + "_f32"@);
        },
        GgmlDType::BF16 => {
            reveal_strlit("_bf16");
            reveal_strlit("kernel_mul_mm_bf16_f32");
            assert("kernel_mul_mm_bf16_f32"@ =~= "kernel_mul_mm"@ + "_bf16"@ + "_f32"@);
        },
        GgmlDType::F32 => {
            reveal_strlit("_f32");
            reveal_strlit("kernel_mul_mm_f32_f32");
            assert("kernel_mul_mm_f32_f32"@ =~= "kernel_mul_mm"@ + "_f32"@ + "_f32"@);
        },
        _ => {},
    }
}

/// The fused matrix-vector kernel of a format is the one that is named after it.
pub proof fn law_fused_vector_kernels_by_format(dtype: GgmlDType)
    ensures
        mv_id_kernel(dtype) matches Some(name) ==> name == "kernel_mul_mv_id"@ + spelled(dtype) + "_f32"@,
{
    reveal_strlit("kernel_mul_mv_id");
    reveal_strlit("_f32");
    match dtype {
        GgmlDType::Q4_0 => {
            reveal_strlit("_q4_0");
            reveal_strlit("kernel_mul_mv_id_q4_0_f32");
            assert("kernel_mul_mv_id_q4_0_f32"@ =~= "kernel_mul_mv_id"@ + "_q4_0"@ + "_f32"@);
        },
        GgmlDType::Q4_1 => {
            reveal_strlit("_q4_1");
            reveal_strlit("kernel_mul_mv_id_q4_1_f32");
            assert("kernel_mul_mv_id_q4_1_f32"@ =~= "kernel_mul_mv_id"@ + "_q4_1"@ + "_f32"@);
        },
        GgmlDType::Q5_0 => {
            reveal_strlit("_q5_0");
            reveal_strlit("kernel_mul_mv_id_q5_0_f32");
            assert("kernel_mul_mv_id_q5_0_f32"@ =~= "kernel_mul_mv_id"@ + "_q5_0"@ + "_f32"@);
        },
        GgmlDType::Q5_1 => {
            reveal_strlit("_q5_1");
            reveal_strlit("kernel_mul_mv_id_q5_1_f32");
            assert("kernel_mul_mv_id_q5_1_f32"@ =~= "kernel_mul_mv_id"@ + "_q5_1"@ + "_f32"@);
        },
        GgmlDType::Q8_0 => {
            reveal_strlit("_q8_0");
            reveal_strlit("kernel_mul_mv_id_q8_0_f32");
            assert("kernel_mul_mv_id_q8_0_f32"@ =~= "kernel_mul_mv_id"@ + "_q8_0"@ + "_f32"@);
        },
        GgmlDType::Q3K => {
            reveal_strlit("_q3_K");
            reveal_strlit("kernel_mul_mv_id_q3_K_f32");
            assert("kernel_mul_mv_id_q3_K_f32"@ =~= "kernel_mul_mv_id"@ + "_q3_K"@ + "_f32"@);
        },
        GgmlDType::Q4K => {
            reveal_strlit("_q4_K");
            reveal_strlit("kernel_mul_mv_id_q4_K_f32");
            assert("kernel_mul_mv_id_q4_K_f32"@ =~= "kernel_mul_mv_id"@ + "_q4_K"@ + "_f32"@);
        },
        GgmlDType::Q5K => {
            reveal_strlit("_q5_K");
            reveal_strlit("kernel_mul_mv_id_q5_K_f32");
            assert("kernel_mul_mv_id_q5_K_f32"@ =~= "kernel_mul_mv_id"@ + "_q5_K"@ + "_f32"@);
        },
        GgmlDType::Q6K => {
            reveal_strlit("_q6_K");
            reveal_strlit("kernel_mul_mv_id_q6_K_f32");
            assert("kernel_mul_mv_id_q6_K_f32"@ =~= "kernel_mul_mv_id"@ + "_q6_K"@ + "_f32"@);
        },
        _ => {},
    }
}

/// The fused matrix-matrix kernel of a format is the one that is named after it.
pub proof fn law_fused_matrix_kernels_by_format(dtype: GgmlDType)
    ensures
        mm_id_kernel(dtype) matches Some(name) ==> name == "kernel_mul_mm_id"@ + spelled(dtype) + "_f32"@,
{
    reveal_strlit("kernel_mul_mm_id");
    reveal_strlit("_f32");
    match dtype {
        GgmlDType::Q8_0 => {
            reveal_strlit("_q8_0");
            reveal_strlit("kernel_mul_mm_id_q8_0_f32");
            assert("kernel_mul_mm_id_q8_0_f32"@ =~= "kernel_mul_mm_id"@ + "_q8_0"@ + "_f32"@);
        },
        GgmlDType::Q4K => {
            reveal_strlit("_q4_K");
            reveal_strlit("kernel_mul_mm_id_q4_K_f32");
            assert("kernel_mul_mm_id_q4_K_f32"@ =~= "kernel_mul_mm_id"@ + "_q4_K"@ + "_f32"@);
        },
        GgmlDType::Q5K => {
            reveal_strlit("_q5_K");
            reveal_strlit("kernel_mul_mm_id_q5_K_f32");
            assert("kernel_mul_mm_id_q5_K_f32"@ =~= "kernel_mul_mm_id"@ + "_q5_K"@ + "_f32"@);
        },
        GgmlDType::Q6K => {
            reveal_strlit("_q6_K");
            reveal_strlit("kernel_mul_mm_id_q6_K_f32");
            assert("kernel_mul_mm_id_q6_K_f32"@ =~= "kernel_mul_mm_id"@ + "_q6_K"@ + "_f32"@);
        },
        _ => {},
    }
}

/// The gathering kernel of a format is the one that is named after it.
pub proof fn law_gathering_kernels_by_format(dtype: GgmlDType)
    ensures
        get_rows_kernel(dtype) matches Some(name) ==> name == "kernel_get_rows"@ + spelled(dtype),
{
    reveal_strlit("kernel_get_rows");
    match dtype {
        GgmlDType::Q4_0 => {
            reveal_strlit("_q4_0");
            reveal_strlit("kernel_get_rows_q4_0");
            assert("kernel_get_rows_q4_0"@ =~= "kernel_get_rows"@ + "_q4_0"@);
        },
        GgmlDType::Q4_1 => {
            reveal_strlit("_q4_1");
            reveal_strlit("kernel_get_rows_q4_1");
            assert("kernel_get_rows_q4_1"@ =~= "kernel_get_rows"@ + "_q4_1"@);
        },
        GgmlDType::Q5_0 => {
            reveal_strlit("_q5_0");
            reveal_strlit("kernel_get_rows_q5_0");
            assert("kernel_get_rows_q5_0"@ =~= "kernel_get_rows"@ + "_q5_0"@);
        },
        GgmlDType::Q5_1 => {
            reveal_strlit("_q5_1");
            reveal_strlit("kernel_get_rows_q5_1");
            assert("kernel_get_rows_q5_1"@ =~= "kernel_get_rows"@ + "_q5_1"@);
        },
        GgmlDType::Q8_0 => {
            reveal_strlit("_q8_0");
            reveal_strlit("kernel_get_rows_q8_0");
            assert("kernel_get_rows_q8_0"@ =~= "kernel_get_rows"@ + "_q8_0"@);
        },
        GgmlDType::Q2K => {
            reveal_strlit("_q2_K");
            reveal_strlit("kernel_get_rows_q2_K");
            assert("kernel_get_rows_q2_K"@ =~= "kernel_get_rows"@ + "_q2_K"@);
        },
        GgmlDType::Q3K => {
            reveal_strlit("_q3_K");
            reveal_strlit("kernel_get_rows_q3_K");
            assert("kernel_get_rows_q3_K"@ =~= "kernel_get_rows"@ + "_q3_K"@);
        },
        GgmlDType::Q4K => {
            reveal_strlit("_q4_K");
            reveal_strlit("kernel_get_rows_q4_K");
            assert("kernel_get_rows_q4_K"@ =~= "kernel_get_rows"@ + "_q4_K"@);
        },
        GgmlDType::Q5K => {
            reveal_strlit("_q5_K");
            reveal_strlit("kernel_get_rows_q5_K");
            assert("kernel_get_rows_q5_K"@ =~= "kernel_get_rows"@ + "_q5_K"@);
        },
        GgmlDType::Q6K => {
            reveal_strlit("_q6_K");
            reveal_strlit("kernel_get_rows_q6_K");
            assert("kernel_get_rows_q6_K"@ =~= "kernel_get_rows"@ + "_q6_K"@);
        },
        GgmlDType::F16 => {
            reveal_strlit("_f16");
            reveal_strlit("kernel_get_rows_f16");
            assert("kernel_get_rows_f16"@ =~= "kernel_get_rows"@ + "_f16"@);
        },
        GgmlDType::BF16 => {
            reveal_strlit("_bf16");
            reveal_strlit("kernel_get_rows_bf16");
            assert("kernel_get_rows_bf16"@ =~= "kernel_get_rows"@ + "_bf16"@);
        },
        GgmlDType::F32 => {
            reveal_strlit("_f32");
            reveal_strlit("kernel_get_rows_f32");
            assert("kernel_get_rows_f32"@ =~= "kernel_get_rows"@ + "_f32"@);
        },
        _ => {},
    }
}

/// The formats that a family knows nest: what has a fused matrix-matrix kernel has a fused
/// matrix-vector kernel, what has that has a matrix-matrix kernel, and what has that can be gathered
/// from. Only the two formats of intermediate results, of eight bits with sums, have neither.
pub proof fn law_families_nest(dtype: GgmlDType)
    ensures
        mm_id_kernel(dtype) is Some ==> mv_id_kernel(dtype) is Some,
        mv_id_kernel(dtype) is Some ==> mm_kernel(dtype) is Some,
        mm_kernel(dtype) is Some <==> get_rows_kernel(dtype) is Some,
        mm_kernel(dtype) is None <==> dtype == GgmlDType::Q8_1 || dtype == GgmlDType::Q8K,
{
}

} // verus!
