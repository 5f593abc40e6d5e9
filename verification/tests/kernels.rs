//! What single launches bind and how many threads they run.

use candle::conv::ParamsConvTranspose1D;
use candle::error::MetalKernelError;
use candle::kernels::convolution::{
    call_col2im1d, call_conv2d_grouped_tiled, call_conv_transpose1d, call_conv_transpose2d,
    call_im2col1d_strided, call_im2col_strided, call_pool2d, call_upsample_bilinear_2d,
    call_upsample_nearest_2d, CallConvTranspose2dCfg, Conv2dGroupedCfg, Conv2dGroupedTiledVariant,
};
use candle::kernels::gated_delta::call_gated_delta;
use candle::kernels::launch::{
    linear_split, Arg, BufferOffset, Device, Dispatch, Launch, MTLSize,
};
use candle::kernels::quantized::{
    call_quantized_matmul_mm_id, call_quantized_matmul_mv_id, dtype_label, mul_mm_id_dst_rows_max,
    mv_threadgroup_shape, require_supported_dtype, GgmlDType,
};

fn device(memory: usize) -> Device {
    Device {
        max_threadgroup_memory_length: memory,
    }
}

#[test]
fn threads_are_cut_into_groups() {
    let (count, size) = linear_split(256, 1000);
    assert_eq!(
        count,
        MTLSize {
            width: 4,
            height: 1,
            depth: 1
        }
    );
    assert_eq!(
        size,
        MTLSize {
            width: 256,
            height: 1,
            depth: 1
        }
    );
    assert_eq!(linear_split(256, 10).1.width, 10);
}

#[test]
fn rows_that_fit_in_memory() {
    assert_eq!(mul_mm_id_dst_rows_max(&device(32768)), 2048);
    assert_eq!(mul_mm_id_dst_rows_max(&device(16384)), 0);
    assert_eq!(mul_mm_id_dst_rows_max(&device(0)), 0);
}

#[test]
fn shapes_and_labels_of_formats() {
    assert_eq!(mv_threadgroup_shape(GgmlDType::Q8_0), (8, 8, 8));
    assert_eq!(mv_threadgroup_shape(GgmlDType::Q4K), (4, 8, 4));
    assert_eq!(mv_threadgroup_shape(GgmlDType::Q6K), (2, 32, 2));
    assert_eq!(mv_threadgroup_shape(GgmlDType::F32), (32, 1, 8));
    assert_eq!(dtype_label(GgmlDType::BF16), "BF16");
    let allowed = [(GgmlDType::Q4K, "a"), (GgmlDType::Q5K, "b")];
    assert_eq!(require_supported_dtype(GgmlDType::Q5K, &allowed, "op"), Ok("b"));
    assert_eq!(
        require_supported_dtype(GgmlDType::Q2K, &allowed, "op"),
        Err(MetalKernelError::UnsupportedDTypeForOp("Q2K", "op"))
    );
}

#[test]
fn vector_kernel_refuses_what_it_would_get_wrong() {
    let run = |dtype, enk, bit| {
        call_quantized_matmul_mv_id(dtype, enk, bit, 0, ('w', 0), ('x', 0), ('i', 0), ('d', 0))
            .map(|l| l.name)
    };
    assert_eq!(
        run(GgmlDType::Q2K, (4, 64, 256), (1, 1, 2)),
        Err(MetalKernelError::UnsupportedDTypeForOp("Q2K", "mul_mv_id"))
    );
    assert_eq!(
        run(GgmlDType::Q4K, (0, 64, 256), (1, 1, 2)),
        Err(MetalKernelError::InvalidInput(
            "mul_mv_id: expert stack is empty".to_string()
        ))
    );
    assert_eq!(
        run(GgmlDType::Q4K, (4, 64, 256), (1, 3, 2)),
        Err(MetalKernelError::InvalidInput(
            "mul_mv_id: src1 dim1 3 must be 1 or topk 2".to_string()
        ))
    );
    assert_eq!(
        run(GgmlDType::Q4K, (4, 66, 256), (1, 1, 2)),
        Err(MetalKernelError::InvalidInput(
            "mul_mv_id kernel_mul_mv_id_q4_K_f32: output dim 66 is not a multiple of the kernel's 4 rows per threadgroup; the kernel writes past the row it was asked for"
                .to_string()
        ))
    );
    assert_eq!(
        run(GgmlDType::Q3K, (4, 64, 256), (1, 1, 2)),
        Ok("kernel_mul_mv_id_q3_K_f32")
    );
}

#[test]
fn matrix_kernel_refuses_what_it_would_get_wrong() {
    let run = |dtype, enk, bit| {
        call_quantized_matmul_mm_id(
            &device(32768),
            dtype,
            enk,
            bit,
            144,
            9216,
            ('w', 0),
            ('x', 0),
            ('i', 0),
            ('d', 0),
        )
        .map(|l| (l.name, l.threadgroup_memory))
    };
    assert_eq!(
        run(GgmlDType::Q4_0, (4, 64, 256), (8, 1, 2)),
        Err(MetalKernelError::UnsupportedDTypeForOp("Q4_0", "mul_mm_id"))
    );
    assert_eq!(
        run(GgmlDType::Q4K, (4, 64, 250), (8, 1, 2)),
        Err(MetalKernelError::InvalidInput(
            "mul_mm_id kernel_mul_mm_id_q4_K_f32: K 250 is not a multiple of 32, the kernel's BLOCK_SIZE_K"
                .to_string()
        ))
    );
    assert!(matches!(
        run(GgmlDType::Q4K, (4, 64, 256), (257, 1, 8)),
        Err(MetalKernelError::InvalidInput(t))
            if t.contains("topk*batch 2056 exceeds this device's dst_rows_max 2048")
    ));
    let (name, memory) = run(GgmlDType::Q4K, (4, 64, 256), (8, 1, 2)).unwrap();
    assert_eq!(name, "kernel_mul_mm_id_q4_K_f32");
    assert!(memory.unwrap() >= 8192 + 16 * 4);
}

#[test]
fn recurrence_has_one_kernel() {
    let run = |dk, dv| {
        call_gated_delta(
            1,
            16,
            2,
            dk,
            dv,
            (0, 0),
            (1, 0),
            (2, 0),
            (3, 0),
            (4, 0),
            (5, 0),
            (6, 0),
            (6, 400),
        )
    };
    let l = run(128, 128).unwrap();
    assert_eq!(l.name, "gated_delta_f32_dk128_dv128");
    assert!(matches!(l.args[7], Arg::Output(6, 400)));
    assert!(matches!(l.args[8], Arg::I32(16)));
    assert_eq!(
        l.dispatch,
        Dispatch::Threads {
            grid: MTLSize {
                width: 32,
                height: 128,
                depth: 2
            },
            group: MTLSize {
                width: 32,
                height: 4,
                depth: 1
            },
        }
    );
    assert!(matches!(
        run(64, 128).map(|l| l.name),
        Err(MetalKernelError::LoadFunctionError(t)) if t.contains("dk=64 dv=128")
    ));
}

#[test]
fn tiled_convolution_covers_its_columns() {
    let variant = Conv2dGroupedTiledVariant::t224_c4_r8x4();
    assert_eq!(variant.ci_chunk(), 4);
    let cfg = Conv2dGroupedCfg {
        b_size: 2,
        groups: 3,
        c_in_pg: 8,
        c_out_pg: 32,
        h_in: 10,
        w_in: 500,
        h_out: 10,
        w_out: 500,
        k_h: 3,
        k_w: 3,
        stride: 1,
        padding: 1,
        dilation: 1,
    };
    assert_eq!(cfg.dst_el(), 2 * 3 * 32 * 10 * 500);
    let at = |buffer, offset_in_bytes| BufferOffset {
        buffer,
        offset_in_bytes,
    };
    let l = call_conv2d_grouped_tiled(variant, cfg, at('x', 16), at('w', 0), 'y');
    assert_eq!(l.name, "conv2d_grouped_tiled_f32_t224_c4_r8x4");
    assert!(matches!(l.args[4], Arg::Input('x', 16)));
    assert_eq!(
        l.dispatch,
        Dispatch::ThreadGroups {
            count: MTLSize {
                width: 3,
                height: 10,
                depth: 6
            },
            size: MTLSize {
                width: 224,
                height: 1,
                depth: 1
            },
        }
    );
}

fn at(buffer: char, offset_in_bytes: usize) -> BufferOffset<char> {
    BufferOffset {
        buffer,
        offset_in_bytes,
    }
}

/// The sizes bound to a launch, in order, and how many threads it runs.
fn sizes_of(l: &Launch<char>) -> (Vec<usize>, usize) {
    let sizes = l
        .args
        .iter()
        .filter_map(|a| match a {
            Arg::Size(n) => Some(*n),
            _ => None,
        })
        .collect();
    match l.dispatch {
        Dispatch::Linear { length } => (sizes, length),
        _ => panic!("not one thread for each element"),
    }
}

#[test]
fn columns_of_a_signal() {
    // Five samples of three channels, a kernel of two taps: four positions.
    let l = call_im2col1d_strided("im2col1d", &[2, 3, 5], &[15, 5, 1], (2, 1, 0, 1), at('x', 8), 'y');
    let n = 2 * 4 * 3 * 2;
    assert_eq!(sizes_of(&l), (vec![n, 4, 2, 1, 0, 1], n));
    assert!(matches!(l.args[6], Arg::Sizes(&[2, 3, 5])));
    assert!(matches!(l.args[8], Arg::Input('x', 8)));
    assert!(matches!(l.args[9], Arg::Output('y', 0)));

    let l = call_col2im1d("col2im1d", &[2, 4, 3, 2], 2, 3, at('x', 0), 'y');
    let (l_out, n) = (3 * 3 + 2, 2 * 3 * 11);
    assert_eq!(sizes_of(&l), (vec![n, l_out, 4, 3, 2, 3], n));
    let params = ParamsConvTranspose1D {
        b_size: 2,
        l_in: 4,
        c_out: 3,
        c_in: 1,
        k_size: 2,
        padding: 0,
        output_padding: 0,
        stride: 3,
        dilation: 1,
    };
    assert_eq!(params.l_out(), l_out);
}

#[test]
fn columns_of_an_image() {
    let l = call_im2col_strided(
        "im2col",
        &[1, 2, 6, 5],
        &[60, 30, 5, 1],
        (3, 2, 1, 1, 1),
        at('x', 0),
        'y',
    );
    let n = 6 * 6 * 2 * 3 * 2;
    assert_eq!(sizes_of(&l), (vec![n, 6, 6, 3, 2, 1, 1, 1], n));
}

#[test]
fn images_are_scaled() {
    let shape = [1, 2, 6, 5];
    let strides = [60, 30, 5, 1];
    let l = call_upsample_nearest_2d("nearest", &shape, &strides, 12, 10, at('x', 4), 'y');
    assert_eq!(sizes_of(&l), (vec![12, 10], 12 * 10 * 2));
    assert!(matches!(l.args[2], Arg::Ratio(6, 12)));
    assert!(matches!(l.args[3], Arg::Ratio(5, 10)));
    assert!(matches!(l.args[6], Arg::Input('x', 4)));

    let half = 0.5f64.to_bits();
    let l = call_upsample_bilinear_2d(
        "bilinear",
        &shape,
        &strides,
        12,
        10,
        true,
        Some(half),
        None,
        at('x', 0),
        'y',
    );
    assert_eq!(sizes_of(&l).1, 12 * 10 * 2);
    assert!(matches!(l.args[2], Arg::Bool(true)));
    assert!(matches!(l.args[3], Arg::Bool(true)));
    assert!(matches!(l.args[4], Arg::Narrowed(bits) if bits == half));
    assert!(matches!(l.args[5], Arg::Bool(false)));
    assert!(matches!(l.args[6], Arg::Narrowed(0)));

    let l = call_pool2d("pool", &shape, &strides, 3, 2, 2, 3, 4, 5, 'x', 'y');
    assert_eq!(sizes_of(&l), (vec![2, 3, 4, 5], 3 * 2 * 2));
}

#[test]
fn transposed_convolutions() {
    let l = call_conv_transpose1d(
        "transpose1d",
        1,
        2,
        3,
        4,
        5,
        6,
        7,
        &[7, 3, 4],
        &[12, 4, 1],
        &[3, 5, 2],
        &[10, 2, 1],
        'x',
        8,
        'k',
        16,
        'y',
    );
    assert_eq!(sizes_of(&l), (vec![6, 2, 3, 4, 1], 5 * 6 * 7));
    assert!(matches!(l.args[10], Arg::Input('k', 16)));

    let cfg = CallConvTranspose2dCfg {
        dilation: 1,
        stride: 2,
        padding: 3,
        output_padding: 4,
        c_out: 5,
        out_w: 6,
        out_h: 7,
        b_size: 8,
        input_dims: &[8, 3, 4, 4],
        input_stride: &[48, 16, 4, 1],
        kernel_dims: &[3, 5, 2, 2],
        kernel_stride: &[20, 4, 2, 1],
        input_offset: 4,
        kernel_offset: 12,
    };
    let l = call_conv_transpose2d("transpose2d", cfg, 'x', 'k', 'y');
    assert_eq!(sizes_of(&l), (vec![6, 7, 2, 3, 4, 1], 5 * 6 * 7 * 8));
    assert!(matches!(l.args[10], Arg::Input('x', 4)));
    assert!(matches!(l.args[11], Arg::Input('k', 12)));
}
