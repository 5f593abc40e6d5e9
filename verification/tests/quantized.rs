//! Quantized storage, and what is launched to compute with it.

use candle::dtype::DType;
use candle::error::{Error, MetalKernelError};
use candle::kernels::launch::{Arg, Device, Dispatch, Launch, MTLSize, Source};
use candle::quantized::metal::{
    load_quantized, Buffer, Dequantized, MetalDevice, MetalStorage, Operand, QMetalStorage,
};
use candle::quantized::{dummy_metal, GgmlDType};
use candle::shape::{Layout, Shape};
use std::sync::Arc;

const N_EXPERTS: usize = 4;
const N: usize = 64;
const K: usize = 256;
const BATCH: usize = 3;
const TOPK: usize = 2;

const DISPATCH_TABLE: &[(GgmlDType, bool)] = &[
    (GgmlDType::Q4K, true),
    (GgmlDType::Q5K, true),
    (GgmlDType::Q6K, true),
    (GgmlDType::Q8_0, true),
    (GgmlDType::Q4_0, true),
    (GgmlDType::Q4_1, true),
    (GgmlDType::Q5_0, true),
    (GgmlDType::Q5_1, true),
    (GgmlDType::Q3K, true),
    (GgmlDType::Q2K, false),
    (GgmlDType::F16, false),
    (GgmlDType::F32, false),
    (GgmlDType::BF16, false),
    (GgmlDType::Q8_1, false),
    (GgmlDType::Q8K, false),
];

fn device() -> MetalDevice {
    MetalDevice {
        id: 0,
        device: Device {
            max_threadgroup_memory_length: 32768,
        },
    }
}

fn layout(dims: &[usize]) -> Layout {
    Layout::contiguous(Shape::from_dims(dims))
}

fn elements(count: usize, dtype: DType) -> MetalStorage {
    MetalStorage {
        buffer: Arc::new(Buffer::zeros(count * dtype.size_in_bytes())),
        device: device(),
        count,
        dtype,
    }
}

fn text(e: Error) -> String {
    match e {
        Error::Msg(text) => text,
        other => panic!("unexpected {other:?}"),
    }
}

fn stack(dtype: GgmlDType) -> QMetalStorage {
    let bytes = N_EXPERTS * N * K / dtype.block_size() * dtype.type_size();
    let data: Vec<u8> = (0..bytes).map(|i| (i % 251) as u8).collect();
    load_quantized(&device(), dtype, &data).unwrap()
}

fn depth(l: &Launch<'static, Operand>) -> usize {
    match l.dispatch {
        Dispatch::ThreadGroups { count, .. } => count.depth,
        other => panic!("unexpected {other:?}"),
    }
}

#[test]
fn mv_id_matches_per_expert_mv() {
    let ids_host: Vec<u32> = vec![3, 1, 0, 3, 1, 1];
    assert_eq!(ids_host.len(), BATCH * TOPK);
    for &(dtype, supported) in DISPATCH_TABLE {
        let stacked = stack(dtype);
        let shape = Shape::from_dims(&[N_EXPERTS, N, K]);
        let ids = elements(BATCH * TOPK, DType::U32);
        for in_dim1 in [1, TOPK] {
            let x = elements(BATCH * in_dim1 * K, DType::F32);
            let got = stacked.indexed_moe_forward(
                &shape,
                &x,
                &layout(&[BATCH, in_dim1, K]),
                &ids,
                &layout(&[BATCH, TOPK]),
            );
            if !supported {
                assert!(
                    got.is_err(),
                    "{dtype:?} is not dispatchable but indexed_moe_forward returned Ok"
                );
                continue;
            }
            let (plan, out) = got.unwrap();
            assert_eq!(out.dims(), &[BATCH, TOPK, N]);
            assert_eq!(plan.dst_elems, BATCH * TOPK * N);
            assert_eq!(plan.launches.len(), 1);
        }
        // The matrix-vector kernel reads expert `e` where a view of it starts.
        if supported {
            let x = elements(K, DType::F32);
            let one = elements(TOPK, DType::U32);
            let (plan, _) = stacked
                .indexed_moe_forward(&shape, &x, &layout(&[1, 1, K]), &one, &layout(&[1, TOPK]))
                .unwrap();
            let l = &plan.launches[0];
            assert_eq!(depth(l), TOPK);
            let per_expert = N * K / dtype.block_size() * dtype.type_size();
            assert!(matches!(l.args[0], Arg::Input(Operand::Weights, 0)));
            assert!(matches!(l.args[12], Arg::U64(stride) if stride == per_expert as u64));
            let data = stacked.data().unwrap();
            for e in 0..N_EXPERTS {
                let own = load_quantized(
                    &device(),
                    dtype,
                    &data[e * per_expert..(e + 1) * per_expert],
                )
                .unwrap();
                assert_eq!(
                    own.data().unwrap(),
                    data[e * per_expert..(e + 1) * per_expert].to_vec()
                );
            }
        }
    }
}

#[test]
fn byte_view_rejects_misblocked_offset() {
    let rows = 512;
    let type_size = GgmlDType::Q6K.type_size();
    assert_eq!(
        type_size, 210,
        "this test's premise is Q6_K's 210-byte block"
    );
    let data: Vec<u8> = (0..rows * K / 256 * type_size)
        .map(|i| (i * 7 % 253) as u8)
        .collect();
    let t = load_quantized(&device(), GgmlDType::Q6K, &data).unwrap();

    assert_eq!(256 % 256, 0);
    assert_ne!(256 % type_size, 0);
    let view_rows = 64;
    let err = t
        .byte_view(256, view_rows * K / 256 * type_size, &[view_rows, K])
        .expect_err("a mid-block offset must be rejected, not silently aliased");
    let msg = text(err);
    assert!(
        msg.contains("whole number of") && msg.contains("Q6K"),
        "expected a block-alignment error, got: {msg}"
    );

    let stride = view_rows * K / 256 * type_size;
    let aligned = 26880;
    assert_eq!(aligned % 256, 0);
    assert_eq!(aligned % type_size, 0);
    let err = t
        .byte_view(aligned, stride - type_size, &[view_rows, K])
        .expect_err("a size that disagrees with the shape must be rejected");
    let msg = text(err);
    assert!(
        msg.contains("do not describe"),
        "expected a size-vs-shape error, got: {msg}"
    );

    let ok = t.byte_view(aligned, stride, &[view_rows, K]).unwrap();
    assert_eq!(ok.dtype(), GgmlDType::Q6K);
    assert_eq!(ok.storage_size_in_bytes(), stride);

    let via_view = ok.data().unwrap();
    let start_row = aligned / type_size * GgmlDType::Q6K.block_size() / K;
    let row = K / 256 * type_size;
    let want = data[start_row * row..(start_row + view_rows) * row].to_vec();
    assert_eq!(via_view, want, "a view must read from its own offset");
    assert_ne!(
        via_view,
        data[..view_rows * row].to_vec(),
        "the offset must actually matter -- this view must NOT equal one at offset 0"
    );
}

#[test]
fn views_are_refused_with_the_first_reason() {
    let t = load_quantized(&device(), GgmlDType::Q6K, &vec![0; 210 * 512]).unwrap();
    assert_eq!(
        text(t.view(100, 210).unwrap_err()),
        "QMetalStorage::view offset 100 is not 256-byte aligned"
    );
    assert_eq!(
        text(t.view(256, 210).unwrap_err()),
        "QMetalStorage::view offset 256 is not a whole number of Q6K blocks (210 bytes)"
    );
    assert_eq!(
        text(t.view(26880, 211).unwrap_err()),
        "QMetalStorage::view size 211 is not a whole number of Q6K blocks (210 bytes)"
    );
    assert_eq!(
        text(t.view(26880, 210 * 400).unwrap_err()),
        "QMetalStorage::view 26880+84000 out of bounds for 107520 bytes"
    );
}

#[test]
fn views_share_and_compose() {
    let data: Vec<u8> = (0..144 * 64).map(|i| (i % 256) as u8).collect();
    let t = load_quantized(&device(), GgmlDType::Q4K, &data).unwrap();
    let outer = t.view(2304, 4608).unwrap();
    let inner = outer.view(2304, 144).unwrap();
    let direct = t.view(4608, 144).unwrap();
    assert_eq!(inner.buffer_offset(), 4608);
    assert_eq!(direct.buffer_offset(), 4608);
    assert_eq!(inner.data().unwrap(), direct.data().unwrap());
    assert_eq!(inner.data().unwrap(), data[4608..4752].to_vec());
    assert_eq!(inner.buffer().bytes.len(), data.len());
}

#[test]
fn contents_of_a_view_are_not_replaced() {
    let mut t = load_quantized(&device(), GgmlDType::Q4K, &vec![1; 144 * 32]).unwrap();
    let mut v = t.view(2304, 144).unwrap();
    assert_eq!(
        text(v.quantize(&[0; 144]).unwrap_err()),
        "cannot quantize into a QMetalStorage view (offset 2304)"
    );
    assert_eq!(v.data().unwrap(), vec![1; 144]);
    // A range that starts where the storage does is a range all the same.
    let mut whole = t.view(0, 144 * 32).unwrap();
    assert_eq!(
        text(whole.quantize(&[0; 144]).unwrap_err()),
        "cannot quantize into a QMetalStorage view (offset 0)"
    );
    assert_eq!(whole.data().unwrap(), vec![1; 144 * 32]);
    assert_eq!(whole.buffer_offset(), 0);
    t.quantize_onto(&[7; 288]).unwrap();
    assert_eq!(t.storage_size_in_bytes(), 288);
    assert_eq!(t.data().unwrap(), vec![7; 288]);
    assert_eq!(v.data().unwrap(), vec![1; 144]);
}

#[test]
fn storage_starts_with_zeros() {
    let t = QMetalStorage::zeros(&device(), 512, GgmlDType::Q5K).unwrap();
    assert_eq!(t.storage_size_in_bytes(), 2 * 176);
    assert_eq!(t.data().unwrap(), vec![0; 352]);
    assert_eq!(*t.device(), device());
}

#[test]
fn brain_floats_are_widened() {
    let words: [u16; 5] = [0x3fc0, 0xc000, 0x0001, 0x7f81, 0xff80];
    let data: Vec<u8> = words.iter().flat_map(|w| w.to_le_bytes()).collect();
    let t = load_quantized(&device(), GgmlDType::BF16, &data).unwrap();
    match t.dequantize(5) {
        Dequantized::Floats(bits) => {
            assert_eq!(
                bits,
                vec![0x3fc0_0000, 0xc000_0000, 0x0001_0000, 0x7fc1_0000, 0xff80_0000]
            );
            assert_eq!(f32::from_bits(bits[0]), 1.5);
            assert_eq!(f32::from_bits(bits[1]), -2.0);
            assert!(f32::from_bits(bits[3]).is_nan());
        }
        other => panic!("unexpected {other:?}"),
    }
}

#[test]
fn half_floats_are_widened() {
    let words: [u16; 9] = [
        0x3c00, 0xc000, 0x0001, 0x83ff, 0x7bff, 0xfc00, 0x7c01, 0x8000, 0x7e00,
    ];
    let data: Vec<u8> = words.iter().flat_map(|w| w.to_le_bytes()).collect();
    let t = load_quantized(&device(), GgmlDType::F16, &data).unwrap();
    match t.dequantize(9) {
        Dequantized::Floats(bits) => {
            assert_eq!(
                bits,
                vec![
                    0x3f80_0000,
                    0xc000_0000,
                    0x3380_0000,
                    0xb87f_c000,
                    0x477f_e000,
                    0xff80_0000,
                    0x7fc0_2000,
                    0x8000_0000,
                    0x7fc0_0000
                ]
            );
            assert_eq!(f32::from_bits(bits[0]), 1.0);
            assert_eq!(f32::from_bits(bits[2]), 2f32.powi(-24));
            assert_eq!(f32::from_bits(bits[3]), -1023.0 * 2f32.powi(-24));
            assert_eq!(f32::from_bits(bits[4]), 65504.0);
        }
        other => panic!("unexpected {other:?}"),
    }
}

#[test]
fn every_half_float_is_widened_as_the_half_crate_does() {
    let data: Vec<u8> = (0..=u16::MAX).flat_map(|w| w.to_le_bytes()).collect();
    let t = load_quantized(&device(), GgmlDType::F16, &data).unwrap();
    match t.dequantize(0x1_0000) {
        Dequantized::Floats(bits) => {
            for (w, bits) in (0..=u16::MAX).zip(bits) {
                assert_eq!(bits, half::f16::from_bits(w).to_f32().to_bits());
            }
        }
        other => panic!("unexpected {other:?}"),
    }
}

#[test]
fn every_brain_float_is_widened_as_the_half_crate_does() {
    let data: Vec<u8> = (0..=u16::MAX).flat_map(|w| w.to_le_bytes()).collect();
    let t = load_quantized(&device(), GgmlDType::BF16, &data).unwrap();
    match t.dequantize(0x1_0000) {
        Dequantized::Floats(bits) => {
            for (w, bits) in (0..=u16::MAX).zip(bits) {
                assert_eq!(bits, half::bf16::from_bits(w).to_f32().to_bits());
            }
        }
        other => panic!("unexpected {other:?}"),
    }
}

#[test]
fn floats_and_blocks_are_read_back() {
    let data: Vec<u8> = [1.5f32, -0.25, 3.0]
        .iter()
        .flat_map(|x| x.to_le_bytes())
        .collect();
    let t = load_quantized(&device(), GgmlDType::F32, &data).unwrap();
    match t.dequantize(2) {
        Dequantized::Floats(bits) => {
            assert_eq!(bits, vec![1.5f32.to_bits(), (-0.25f32).to_bits()])
        }
        other => panic!("unexpected {other:?}"),
    }
    let data: Vec<u8> = (0..3 * 34).map(|i| i as u8).collect();
    let t = load_quantized(&device(), GgmlDType::Q8_0, &data).unwrap();
    match t.dequantize(70) {
        Dequantized::Blocks(blocks) => {
            assert_eq!(blocks.len(), 2);
            assert_eq!(blocks[0], data[..34].to_vec());
            assert_eq!(blocks[1], data[34..68].to_vec());
        }
        other => panic!("unexpected {other:?}"),
    }
}

#[test]
fn a_prompt_is_cut_into_chunks() {
    let stacked = stack(GgmlDType::Q4K);
    let shape = Shape::from_dims(&[N_EXPERTS, N, K]);
    let batch = 70;
    let mut input_l = layout(&[batch, 1, K]);
    input_l.start_offset = 8;
    let (plan, _) = stacked
        .indexed_moe_forward(
            &shape,
            &elements(8 + batch * K, DType::F32),
            &input_l,
            &elements(batch * TOPK, DType::U32),
            &layout(&[batch, TOPK]),
        )
        .unwrap();
    assert_eq!(plan.launches.len(), 3);
    for (i, l) in plan.launches.iter().enumerate() {
        assert_eq!(l.source, Source::Quantized);
        assert_eq!(l.name, "kernel_mul_mm_id_q4_K_f32");
        assert!(
            matches!(l.args[1], Arg::Input(Operand::Input, at) if at == 32 + i * 32 * K * 4)
        );
        assert!(
            matches!(l.args[2], Arg::Output(Operand::Dst, at) if at == i * 32 * TOPK * N * 4)
        );
        assert!(matches!(l.args[3], Arg::Input(Operand::Ids, at) if at == i * 32 * TOPK * 4));
        let tokens = if i < 2 { 32 } else { 6 };
        assert!(matches!(l.args[5], Arg::I64(n) if n == tokens));
    }
}

#[test]
fn fused_launches_read_experts_where_views_of_them_are_read() {
    let stacked = stack(GgmlDType::Q4K);
    let shape = Shape::from_dims(&[N_EXPERTS, N, K]);
    let per_expert = N * K / 256 * 144;
    // One token takes the vector kernel, whose stride is argument 12; more take the matrix kernel,
    // whose stride is argument 10.
    for (batch, stride_at) in [(1, 12), (BATCH, 10)] {
        let (fused, _) = stacked
            .indexed_moe_forward(
                &shape,
                &elements(batch * K, DType::F32),
                &layout(&[batch, 1, K]),
                &elements(batch * TOPK, DType::U32),
                &layout(&[batch, TOPK]),
            )
            .unwrap();
        for l in &fused.launches {
            let (Arg::Input(Operand::Weights, start), Arg::U64(stride)) =
                (&l.args[0], &l.args[stride_at])
            else {
                panic!("unexpected {l:?}");
            };
            for e in 0..N_EXPERTS {
                let expert = stacked.view(e * per_expert, per_expert).unwrap();
                for rows in [1, 5] {
                    let (single, _) = expert
                        .fwd(
                            &Shape::from_dims(&[N, K]),
                            &elements(rows * K, DType::F32),
                            &layout(&[rows, K]),
                        )
                        .unwrap();
                    assert!(matches!(
                        single.launches[0].args[0],
                        Arg::Input(Operand::Weights, at) if at == start + e * *stride as usize
                    ));
                }
            }
        }
    }
}

#[test]
fn moe_forward_says_what_does_not_fit() {
    let stacked = stack(GgmlDType::Q4K);
    let shape = Shape::from_dims(&[N_EXPERTS, N, K]);
    let floats = elements(6 * K, DType::F32);
    let ids = elements(12, DType::U32);
    let run = |shape: &Shape, x: &MetalStorage, xl: &[usize], i: &MetalStorage, il: &[usize]| {
        stacked
            .indexed_moe_forward(shape, x, &layout(xl), i, &layout(il))
            .map(|_| ())
            .unwrap_err()
    };
    assert_eq!(
        run(&Shape::from_dims(&[N, K]), &floats, &[3, 1, K], &ids, &[3, 2]),
        Error::UnexpectedNumberOfDims {
            expected: 3,
            got: 2
        }
    );
    assert_eq!(
        text(run(&shape, &ids, &[3, 1, K], &ids, &[3, 2])),
        "indexed_moe_forward expects f32 input, got U32"
    );
    assert_eq!(
        text(run(&shape, &floats, &[3, 1, K], &floats, &[3, 2])),
        "indexed_moe_forward expects u32 ids, got F32"
    );
    assert_eq!(
        text(run(&shape, &floats, &[3, 1, 128], &ids, &[3, 2])),
        "indexed_moe_forward input k 128 != weight k 256"
    );
    assert_eq!(
        text(run(&shape, &floats, &[3, 1, K], &ids, &[2, 2])),
        "indexed_moe_forward batch mismatch: input 3, ids 2"
    );
    assert_eq!(
        text(run(&shape, &floats, &[2, 3, K], &ids, &[2, 2])),
        "indexed_moe_forward input dim1 3 must be 1 or topk 2"
    );
    assert_eq!(
        text(run(&Shape::from_dims(&[3, N, K]), &floats, &[3, 1, K], &ids, &[3, 2])),
        "indexed_moe_forward: 3 experts of 9216 bytes do not fill this tensor's 36864 bytes"
    );
    let halves = elements(2 * K, DType::F16);
    let none = elements(0, DType::U32);
    assert_eq!(
        text(run(&shape, &halves, &[2, 1, K], &none, &[2, 0])),
        "indexed_moe_forward expects f32 input, got F16"
    );
    let mut strided = layout(&[2, 1, K]);
    strided.stride[0] = 2 * K;
    assert_eq!(
        text(
            stacked
                .indexed_moe_forward(&shape, &floats, &strided, &ids, &layout(&[2, 2]))
                .map(|_| ())
                .unwrap_err()
        ),
        "indexed_moe_forward requires contiguous input and ids"
    );
}

#[test]
fn too_many_slots_for_the_device_are_refused() {
    let stacked = stack(GgmlDType::Q4K);
    let shape = Shape::from_dims(&[N_EXPERTS, N, K]);
    let mut x = elements(2 * K, DType::F32);
    x.device.device.max_threadgroup_memory_length = 16384 + 8;
    let err = stacked
        .indexed_moe_forward(
            &shape,
            &x,
            &layout(&[2, 1, K]),
            &elements(4, DType::U32),
            &layout(&[2, 2]),
        )
        .map(|_| ())
        .unwrap_err();
    assert!(matches!(
        err,
        Error::Metal(MetalKernelError::InvalidInput(t))
            if t.contains("topk*batch 2 exceeds this device's dst_rows_max 1")
    ));
}

#[test]
fn one_vector_goes_to_the_vector_kernel() {
    let w = load_quantized(&device(), GgmlDType::Q4K, &vec![0; 64 * 144]).unwrap();
    let shape = Shape::from_dims(&[64, 256]);
    let (plan, out) = w
        .fwd(&shape, &elements(256, DType::F32), &layout(&[1, 256]))
        .unwrap();
    assert_eq!(out.dims(), &[1, 64]);
    assert_eq!(plan.launches[0].name, "kernel_mul_mv_q4_K_f32");
    assert_eq!(
        plan.launches[0].dispatch,
        Dispatch::ThreadGroups {
            count: MTLSize {
                width: 16,
                height: 1,
                depth: 1
            },
            size: MTLSize {
                width: 4,
                height: 8,
                depth: 1
            },
        }
    );
    let (plan, out) = w
        .fwd(&shape, &elements(40 * 256, DType::F32), &layout(&[40, 256]))
        .unwrap();
    assert_eq!(out.dims(), &[40, 64]);
    assert_eq!(plan.launches[0].name, "kernel_mul_mm_q4_K_f32");
}

#[test]
fn embedding_says_what_does_not_fit() {
    let w = load_quantized(&device(), GgmlDType::Q8_0, &vec![0; 10 * 2 * 34]).unwrap();
    let ids = elements(3, DType::U32);
    let l = layout(&[3]);
    assert_eq!(w.embedding(10, 64, &ids, &l).unwrap().dst_elems, 3 * 64);
    assert_eq!(
        text(w.embedding(10, 64, &elements(3, DType::I64), &l).unwrap_err()),
        "quantized embedding expects u32 ids, got I64"
    );
    assert_eq!(
        text(w.embedding(10, 60, &ids, &l).unwrap_err()),
        "quantized embedding hidden size 60 is not divisible by block size 32"
    );
    assert_eq!(
        text(w.embedding(11, 64, &ids, &l).unwrap_err()),
        "quantized tensor has 680 bytes, expected 748"
    );
    let view = load_quantized(&device(), GgmlDType::Q4K, &vec![0; 32 * 144])
        .unwrap()
        .view(2304, 144)
        .unwrap();
    assert_eq!(
        text(view.embedding(1, 256, &ids, &l).unwrap_err()),
        "quantized embedding is not implemented for a QMetalStorage view"
    );
}

#[test]
fn nothing_runs_without_the_backend() {
    assert_eq!(
        dummy_metal::QMetalStorage::zeros(&device(), 1, GgmlDType::F32).unwrap_err(),
        Error::NotCompiledWithMetalSupport
    );
    assert_eq!(
        dummy_metal::load_quantized(&device(), GgmlDType::F32, &[0; 4]).unwrap_err(),
        Error::NotCompiledWithMetalSupport
    );
    let mut s = dummy_metal::QMetalStorage {
        dtype: GgmlDType::Q4K,
        device: device(),
    };
    assert_eq!(s.dtype(), GgmlDType::Q4K);
    assert_eq!(s.storage_size_in_bytes(), 0);
    assert_eq!(s.data().unwrap_err(), Error::NotCompiledWithMetalSupport);
    assert_eq!(s.view(0, 0).unwrap_err(), Error::NotCompiledWithMetalSupport);
    assert_eq!(
        s.quantize_imatrix_onto(&[], &[], 0).unwrap_err(),
        Error::NotCompiledWithMetalSupport
    );
    assert_eq!(
        s.quantize_onto(&[]).unwrap_err(),
        Error::NotCompiledWithCudaSupport
    );
}

#[test]
fn contents_are_replaced() {
    let mut s = load_quantized(&device(), GgmlDType::Q8_0, &[1; 34 * 128]).unwrap();
    s.quantize_imatrix(&[2; 34]).unwrap();
    assert_eq!(s.data().unwrap(), vec![2; 34]);
    s.quantize_imatrix_onto(&[3; 68]).unwrap();
    assert_eq!(s.storage_size_in_bytes(), 68);
    s.quantize_onto(&[4; 34 * 128]).unwrap();
    // 4352 is the first offset that is a multiple of 256 bytes and of a block's 34.
    s.quantize_onto(&[4; 34 * 256]).unwrap();
    let mut view = s.view(4352, 34).unwrap();
    assert_eq!(
        text(view.quantize_imatrix(&[5; 34]).unwrap_err()),
        "cannot quantize into a QMetalStorage view (offset 4352)"
    );
    let mut view = s.view(0, 34).unwrap();
    assert!(view.quantize_imatrix_onto(&[6; 34]).is_err());
    assert_eq!(view.data().unwrap(), vec![4; 34]);
    assert_eq!(s.data().unwrap(), vec![4; 34 * 256]);
}

#[test]
fn formats_and_blocks() {
    assert_eq!(GgmlDType::Q4K.block_size(), 256);
    assert_eq!(GgmlDType::Q4K.type_size(), 144);
    assert_eq!(GgmlDType::Q5K.type_size(), 176);
    assert_eq!(GgmlDType::Q8_0.block_size(), 32);
    assert_eq!(GgmlDType::Q8_0.type_size(), 34);
    assert_eq!(GgmlDType::BF16.type_size(), 2);
    assert_eq!(GgmlDType::Q5_1.name(), "Q5_1");
}
