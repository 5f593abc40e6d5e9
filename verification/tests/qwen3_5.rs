//! The hybrid model: its weights in a file, its caches and its states.

use candle::dtype::DType;
use candle::error::Error;
use candle::kernels::launch::{Arg, Device};
use candle::models::heads::{merge_heads, split_heads};
use candle::models::qwen3_5::attention::AttentionWeights;
use candle::models::qwen3_5::config::Config;
use candle::models::qwen3_5::delta::{takes_one_step, DeltaDims, GatedDeltaNetWeights};
use candle::models::qwen3_5::experts::{combine_fused, combine_loop, select_rows, sort_slots};
use candle::models::qwen3_5::ffn::{Ffn, MlpWeights, MoeWeights};
use candle::models::qwen3_5::gguf::{Content, Gguf, TensorInfo, Value};
use candle::models::qwen3_5::layer::{LayerWeights, TokenMixer};
use candle::models::qwen3_5::model::{causal_mask, ModelWeights};
use candle::models::qwen3_5::moe::{
    check_expert_quant, read_expert_quants_per_layer, split_stacked_experts, MoeMode, MoeModes,
};
use candle::models::qwen3_5::repeat::{repeat_interleave, repeat_tiled};
use candle::models::qwen3_5::rotary::RotaryEmbedding;
use candle::models::qwen3_5::route::top_experts;
use candle::models::qwen3_5::routing::{ascending_order, group_by_expert};
use candle::models::qwen3_5::state::{check_delta_state_complete, LayerState};
use candle::models::state::{ConcatKvCache, State};
use candle::quantized::metal::{load_quantized, Buffer, MetalDevice, MetalStorage};
use candle::quantized::GgmlDType;
use candle::shape::{Layout, Shape};
use candle::tensor::{Backend, Element, Tensor};
use std::sync::Arc;

/// A single-precision float.
#[derive(Debug, Clone, Copy, PartialEq)]
struct F(f32);

impl Element for F {
    fn spec_zero() -> F {
        unreachable!()
    }

    fn spec_plus(self, _other: F) -> F {
        unreachable!()
    }

    fn spec_times(self, _other: F) -> F {
        unreachable!()
    }

    fn zero_laws(self) {}

    fn zero() -> F {
        F(0.0)
    }

    fn plus(self, other: F) -> F {
        F(self.0 + other.0)
    }

    fn times(self, other: F) -> F {
        F(self.0 * other.0)
    }
}

struct Lcg(u64);

impl Lcg {
    fn next_f32(&mut self) -> f32 {
        self.0 = self
            .0
            .wrapping_mul(6364136223846793005)
            .wrapping_add(1442695040888963407);
        (self.0 >> 40) as f32 / (1u64 << 23) as f32 - 1.0
    }

    fn floats(&mut self, n: usize, scale: f32) -> Vec<f32> {
        (0..n).map(|_| self.next_f32() * scale).collect()
    }
}

fn ints(data: Vec<i64>, dims: &[usize]) -> Tensor<i64> {
    Tensor::from_vec(data, dims, Backend::Split).unwrap()
}

fn state(data: Vec<i64>, dims: &[usize]) -> State<i64> {
    State {
        dtype: DType::F32,
        tensor: ints(data, dims),
    }
}

fn text(e: Error) -> String {
    match e {
        Error::Msg(text) => text,
        other => panic!("unexpected {other:?}"),
    }
}

/// The numbers of a small file: layers, the interval of full attention, and experts.
fn content(layers: usize, interval: u32, experts: u32) -> Content {
    let numbers: [(&str, u32); 13] = [
        ("attention.head_count", 2),
        ("attention.head_count_kv", 1),
        ("attention.key_length", 8),
        ("block_count", layers as u32),
        ("embedding_length", 32),
        ("context_length", 64),
        ("full_attention_interval", interval),
        ("ssm.group_count", 2),
        ("ssm.inner_size", 32),
        ("ssm.state_size", 8),
        ("ssm.conv_kernel", 4),
        ("expert_count", experts),
        ("expert_used_count", 2),
    ];
    let mut metadata = vec![(
        "general.architecture".to_string(),
        Value::String("qwen35".to_string()),
    )];
    for (key, n) in numbers {
        metadata.push((format!("qwen35.{key}"), Value::U32(n)));
    }
    metadata.push((
        "qwen35.attention.layer_norm_rms_epsilon".to_string(),
        Value::F32(1e-6f32.to_bits()),
    ));
    metadata.push((
        "qwen35.rope.freq_base".to_string(),
        Value::F32(1e7f32.to_bits()),
    ));
    let mut tensor_infos = Vec::new();
    let mut put = |name: String, ggml_dtype: GgmlDType, dims: &[usize]| {
        tensor_infos.push((
            name,
            TensorInfo {
                ggml_dtype,
                dims: dims.to_vec(),
            },
        ));
    };
    put("token_embd.weight".to_string(), GgmlDType::F32, &[100, 32]);
    put("output_norm.weight".to_string(), GgmlDType::F32, &[32]);
    for i in 0..layers {
        let mut layer = |suffix: &str, dtype: GgmlDType, dims: &[usize]| {
            put(format!("blk.{i}.{suffix}"), dtype, dims)
        };
        let dense = GgmlDType::F32;
        layer("attn_norm.weight", dense, &[32]);
        layer("post_attention_norm.weight", dense, &[32]);
        if interval != 0 && (i + 1) % interval as usize == 0 {
            layer("attn_q.weight", dense, &[32, 32]);
            layer("attn_k.weight", dense, &[8, 32]);
            layer("attn_v.weight", dense, &[8, 32]);
            layer("attn_output.weight", dense, &[32, 16]);
            layer("attn_q_norm.weight", dense, &[8]);
            layer("attn_k_norm.weight", dense, &[8]);
        } else {
            for suffix in [
                "attn_qkv.weight",
                "attn_gate.weight",
                "ssm_beta.weight",
                "ssm_alpha.weight",
                "ssm_out.weight",
                "ssm_conv1d.weight",
                "ssm_a",
                "ssm_dt.bias",
                "ssm_norm.weight",
            ] {
                layer(suffix, dense, &[8, 8]);
            }
        }
        if experts > 0 {
            layer("ffn_gate_inp.weight", dense, &[experts as usize, 32]);
            let down = if [34, 38, 39].contains(&i) {
                GgmlDType::Q6K
            } else {
                GgmlDType::Q5K
            };
            layer("ffn_gate_exps.weight", GgmlDType::Q4K, &[experts as usize, 16, 256]);
            layer("ffn_up_exps.weight", GgmlDType::Q4K, &[experts as usize, 16, 256]);
            layer("ffn_down_exps.weight", down, &[experts as usize, 32, 256]);
            layer("ffn_gate_inp_shexp.weight", dense, &[32]);
            layer("ffn_gate_shexp.weight", dense, &[16, 32]);
            layer("ffn_up_shexp.weight", dense, &[16, 32]);
            layer("ffn_down_shexp.weight", dense, &[32, 16]);
        } else {
            layer("ffn_gate.weight", dense, &[64, 32]);
            layer("ffn_up.weight", dense, &[64, 32]);
            layer("ffn_down.weight", dense, &[32, 64]);
        }
    }
    Content {
        metadata,
        tensor_infos,
    }
}

fn place(ct: &Content, name: &str) -> usize {
    ct.tensor_infos.iter().position(|t| t.0 == name).unwrap()
}

fn drop_key(ct: &mut Content, key: &str) {
    ct.metadata.retain(|m| m.0 != key);
}

fn drop_tensor(ct: &mut Content, name: &str) {
    ct.tensor_infos.retain(|t| t.0 != name);
}

#[test]
fn half_set_delta_state_is_rejected() {
    let t = || {
        Some(State {
            dtype: DType::F32,
            tensor: Tensor::from_vec(vec![0i64; 256], &[1, 4, 8, 8], Backend::Split).unwrap(),
        })
    };

    check_delta_state_complete::<i64>(3, &None, &None).expect("both None is a cleared layer");
    check_delta_state_complete(3, &t(), &t()).expect("both Some is a live layer");

    for (conv, rec) in [(t(), None), (None, t())] {
        let err = check_delta_state_complete(3, &conv, &rec)
            .expect_err("half-set Delta state must be refused");
        let msg = text(err);
        assert!(msg.contains("conv=") && msg.contains("recurrent="), "{msg}");
        assert!(msg.contains("layer 3"), "{msg}");
    }
    assert_eq!(
        text(check_delta_state_complete(3, &t(), &None).unwrap_err()),
        "layer 3: Delta state is half-set (conv=Some, recurrent=None); both must be Some or both None"
    );
}

#[test]
fn expert_quants_are_read_per_layer_not_once() {
    let quants = read_expert_quants_per_layer(&content(40, 4, 4))
        .expect("failed to read expert quant types");
    assert_eq!(quants.len(), 40);

    let downs: Vec<GgmlDType> = quants.iter().map(|q| q.down).collect();
    assert!(downs.iter().any(|d| *d != downs[0]));
    assert_eq!(
        quants.iter().filter(|q| q.down == GgmlDType::Q6K).count(),
        3
    );
    assert_eq!(
        quants.iter().filter(|q| q.down == GgmlDType::Q5K).count(),
        37
    );
    assert!(quants
        .iter()
        .all(|q| q.gate == GgmlDType::Q4K && q.up == GgmlDType::Q4K));

    let q6_layers: Vec<usize> = quants
        .iter()
        .enumerate()
        .filter(|(_, q)| q.down == GgmlDType::Q6K)
        .map(|(i, _)| i)
        .collect();
    assert_eq!(q6_layers, vec![34, 38, 39]);
}

#[test]
fn quants_of_a_layer_are_those_of_the_table() {
    let ct = content(36, 4, 4);
    let quants = read_expert_quants_per_layer(&ct).unwrap();
    let gg = Gguf::new(&ct);
    let moe = MoeWeights::new(&gg, 34, 2, MoeModes::default()).unwrap();
    assert_eq!(moe.expert_quants(), quants[34]);
    assert_eq!(moe.expert_quants().down, GgmlDType::Q6K);
}

#[test]
fn unsupported_experts_are_refused() {
    assert_eq!(
        check_expert_quant("x", GgmlDType::Q8_0).unwrap(),
        GgmlDType::Q8_0
    );
    assert_eq!(
        text(check_expert_quant("blk.0.ffn_up_exps.weight", GgmlDType::Q2K).unwrap_err()),
        "unsupported expert quant type Q2K on tensor blk.0.ffn_up_exps.weight; expected one of [Q4K, Q5K, Q6K, Q8_0]"
    );
    let mut ct = content(2, 4, 4);
    drop_tensor(&mut ct, "blk.1.ffn_up_exps.weight");
    assert_eq!(
        text(read_expert_quants_per_layer(&ct).unwrap_err()),
        "missing tensor blk.1.ffn_up_exps.weight in gguf tensor table"
    );
    drop_key(&mut ct, "general.architecture");
    assert_eq!(
        text(read_expert_quants_per_layer(&ct).unwrap_err()),
        "cannot find general.architecture in metadata"
    );
}

#[test]
fn modes_have_names() {
    assert_eq!("loop".parse::<MoeMode>().unwrap(), MoeMode::Loop);
    assert_eq!("fused".parse::<MoeMode>().unwrap(), MoeMode::Fused);
    assert_eq!(
        text("both".parse::<MoeMode>().unwrap_err()),
        "unknown MoE mode both, expected `loop` or `fused`"
    );
    assert_eq!(MoeMode::default(), MoeMode::Loop);
    assert_eq!(MoeModes::default(), MoeModes::both(MoeMode::Loop));
}

#[test]
fn each_phase_has_its_mode() {
    let modes = MoeModes {
        prefill: MoeMode::Loop,
        decode: MoeMode::Fused,
    };
    assert!(modes.any_fused());
    assert_eq!(modes.phase_mode(1, true), MoeMode::Fused);
    assert_eq!(modes.phase_mode(2, true), MoeMode::Loop);
    assert_eq!(modes.phase_mode(1, false), MoeMode::Loop);
    let ct = content(1, 4, 4);
    let gg = Gguf::new(&ct);
    let moe = MoeWeights::new(&gg, 0, 2, modes).unwrap();
    assert!(moe.stacked);
    assert_eq!(moe.phase_mode(1), MoeMode::Fused);
    assert_eq!(moe.phase_mode(7), MoeMode::Loop);
    let moe = MoeWeights::new(&gg, 0, 2, MoeModes::default()).unwrap();
    assert!(!moe.stacked);
}

#[test]
fn experts_are_cut_out_of_the_stack() {
    let device = MetalDevice {
        id: 0,
        device: Device {
            max_threadgroup_memory_length: 32768,
        },
    };
    // 16 rows of 256 elements are 2304 bytes, a multiple of 256 and of the block's 144.
    let data: Vec<u8> = (0..4 * 2304).map(|i| (i % 241) as u8).collect();
    let t = load_quantized(&device, GgmlDType::Q4K, &data).unwrap();
    let shape = Shape::from_dims(&[4, 16, 256]);
    // The fused kernel steps by the bytes of one expert, too.
    let stored = |dtype: DType| MetalStorage {
        buffer: Arc::new(Buffer::zeros(0)),
        device,
        count: 0,
        dtype,
    };
    let (plan, _) = t
        .indexed_moe_forward(
            &shape,
            &stored(DType::F32),
            &Layout::contiguous(Shape::from_dims(&[1, 1, 256])),
            &stored(DType::U32),
            &Layout::contiguous(Shape::from_dims(&[1, 2])),
        )
        .unwrap();
    assert!(matches!(plan.launches[0].args[12], Arg::U64(2304)));
    let shared = split_stacked_experts(&t, &shape, true).unwrap();
    let copied = split_stacked_experts(&t, &shape, false).unwrap();
    assert_eq!(shared.len(), 4);
    for e in 0..4 {
        assert_eq!(shared[e].buffer_offset(), e * 2304);
        assert_eq!(shared[e].buffer().bytes.len(), data.len());
        assert_eq!(copied[e].buffer_offset(), 0);
        assert_eq!(copied[e].buffer().bytes.len(), 2304);
        let want = data[e * 2304..(e + 1) * 2304].to_vec();
        assert_eq!(shared[e].data().unwrap(), want);
        assert_eq!(copied[e].data().unwrap(), want);
    }
    // One row is 144 bytes, which no device can start a buffer at: each expert gets a copy.
    let t = load_quantized(&device, GgmlDType::Q4K, &data[..4 * 144]).unwrap();
    let experts = split_stacked_experts(&t, &Shape::from_dims(&[4, 1, 256]), true).unwrap();
    assert!(experts.iter().all(|e| e.buffer_offset() == 0));
    assert_eq!(
        text(split_stacked_experts(&t, &Shape::from_dims(&[5, 1, 256]), true).unwrap_err()),
        "expert stack [5, 1, 256] of 576 bytes does not divide evenly into 5 experts"
    );
    assert_eq!(
        split_stacked_experts(&t, &Shape::from_dims(&[4, 256]), true).unwrap_err(),
        Error::UnexpectedNumberOfDims {
            expected: 3,
            got: 2
        }
    );
    let t = load_quantized(&device, GgmlDType::Q4K, &data).unwrap();
    assert!(text(
        split_stacked_experts(&t, &Shape::from_dims(&[4, 15, 256]), true).unwrap_err()
    )
    .contains("do not describe"));
}

#[test]
fn the_most_probable_experts_are_chosen() {
    let keys = [5u32, 9, 1, 7, 30, 10, 20, 40];
    let probs = ["a", "b", "c", "d", "e", "f", "g", "h"];
    let (ids, weights) = top_experts(&keys, &probs, 2, 4, 2).unwrap();
    assert_eq!(ids, vec![1, 3, 3, 0]);
    assert_eq!(weights, vec!["b", "d", "h", "e"]);
    assert_eq!(top_experts(&keys, &probs, 2, 4, 0).unwrap().0, Vec::<u32>::new());
    assert_eq!(
        top_experts(&keys, &probs, 2, 4, 5).unwrap_err(),
        Error::NarrowInvalidArgs {
            shape: vec![2, 4],
            dim: 1,
            start: 0,
            len: 5
        }
    );
    let ct = content(1, 4, 4);
    let gg = Gguf::new(&ct);
    let moe = MoeWeights::new(&gg, 0, 2, MoeModes::default()).unwrap();
    assert_eq!(moe.route(&keys, &probs, 2, 4).unwrap().0, ids);
}

#[test]
fn slots_are_grouped_by_expert() {
    let ids = [3u32, 1, 0, 3, 1, 2];
    let weights = [10i64, 20, 30, 40, 50, 60];
    let (rows, coefs) = group_by_expert(&ids, &weights, 5, 2);
    assert_eq!(rows, vec![vec![1], vec![0, 2], vec![2], vec![0, 1], vec![]]);
    assert_eq!(
        coefs,
        vec![vec![30], vec![20, 50], vec![60], vec![10, 40], vec![]]
    );
    assert_eq!(ascending_order(&[7, 2, 9, 2]), vec![1, 3, 0, 2]);
}

#[test]
fn both_ways_to_run_experts_add_up_alike() {
    let (tokens, k, hidden, experts) = (3usize, 2usize, 4usize, 5usize);
    let ids: Vec<u32> = vec![3, 1, 0, 3, 4, 2];
    let mut rng = Lcg(9);
    let weights: Vec<F> = rng.floats(tokens * k, 1.0).into_iter().map(F).collect();
    let xs = Tensor::from_vec(
        rng.floats(tokens * hidden, 1.0).into_iter().map(F).collect(),
        &[tokens, hidden],
        Backend::Split,
    )
    .unwrap();
    // An expert scales by its number plus one third.
    let scale = |e: u32, v: F| F(v.0 * (e as f32 + 1.0 / 3.0));

    let (rows, coefs) = group_by_expert(&ids, &weights, experts, k);
    let mut ys = Vec::new();
    for e in 0..experts {
        let xe = select_rows(&xs, &rows[e]);
        let data: Vec<F> = xe.data.iter().map(|v| scale(e as u32, *v)).collect();
        ys.push(Tensor::from_vec(data, &[rows[e].len(), hidden], Backend::Split).unwrap());
    }
    let by_loop = combine_loop(&rows, &coefs, &ys, tokens, hidden, Backend::Split);

    let (sorted_ids, sorted_weights, orders) = sort_slots(&ids, &weights, tokens, k);
    assert_eq!(sorted_ids, vec![1, 3, 0, 3, 2, 4]);
    assert_eq!(orders, vec![1, 0, 0, 1, 1, 0]);
    let mut data = Vec::new();
    for t in 0..tokens {
        for j in 0..k {
            for c in 0..hidden {
                data.push(scale(sorted_ids[t * k + j], xs.data[t * hidden + c]));
            }
        }
    }
    let y = Tensor::from_vec(data, &[tokens, k, hidden], Backend::Split).unwrap();
    let fused = combine_fused(&y, &sorted_weights);
    assert_eq!(by_loop.dims, vec![tokens, hidden]);
    assert_eq!(by_loop.data, fused.data);
}

#[test]
fn heads_are_repeated_in_two_orders() {
    let x = ints(vec![1, 2, 3, 4, 5, 6], &[1, 3, 2]);
    let tiled = repeat_tiled(&x, 2, 1).unwrap();
    assert_eq!(tiled.dims, vec![1, 6, 2]);
    assert_eq!(tiled.data, vec![1, 2, 3, 4, 5, 6, 1, 2, 3, 4, 5, 6]);
    let grouped = repeat_interleave(&x, 2, 1);
    assert_eq!(grouped.data, vec![1, 2, 1, 2, 3, 4, 3, 4, 5, 6, 5, 6]);
    assert_eq!(
        repeat_tiled(&x, 1, 1).unwrap().data,
        repeat_interleave(&x, 1, 1).data
    );
    assert_eq!(
        repeat_tiled(&x, 0, 1).unwrap_err(),
        Error::OpRequiresAtLeastOneTensor { op: "cat" }
    );
    // Once is a copy along any dimension, also along one that is not there.
    assert_eq!(repeat_tiled(&x, 1, 7).unwrap().dims, x.dims);
    assert_eq!(repeat_tiled(&x, 1, 7).unwrap().data, x.data);
    assert_eq!(repeat_interleave(&x, 1, 7).dims, x.dims);
    assert_eq!(repeat_interleave(&x, 1, 7).data, x.data);
    assert_eq!(
        repeat_tiled(&x, 2, 3).unwrap_err(),
        Error::DimOutOfRange { dim: 3, rank: 3 }
    );
}

#[test]
fn heads_are_split_and_merged() {
    let x = ints((0..24).collect(), &[1, 3, 8]);
    let heads = split_heads(&x, 2, 4).unwrap();
    assert_eq!(heads.dims, vec![1, 2, 3, 4]);
    assert_eq!(heads.data[..8], [0, 1, 2, 3, 8, 9, 10, 11]);
    assert_eq!(heads.data[12..16], [4, 5, 6, 7]);
    let merged = merge_heads(&heads).unwrap();
    assert_eq!(merged.dims, x.dims);
    assert_eq!(merged.data, x.data);
    assert!(matches!(
        split_heads(&x, 3, 2).unwrap_err(),
        Error::ShapeMismatchBinaryOp { op: "reshape", .. }
    ));
    assert!(matches!(
        merge_heads(&x).unwrap_err(),
        Error::UnexpectedNumberOfDims { expected: 4, got: 3 }
    ));
}

#[test]
fn part_of_a_head_is_turned() {
    // Two positions, two pairs: the cosines are 1, 2 and 3, 4, the sines 5, 6 and 7, 8.
    let rotary =
        RotaryEmbedding::new(5, 4, 2, vec![5, 6, 7, 8], vec![1, 2, 3, 4], Backend::Split).unwrap();
    let q = ints(vec![1, 10, 100, 1000, 9], &[1, 1, 1, 5]);
    let (at0, _) = rotary.apply(&q, &q, 0).unwrap();
    assert_eq!(
        at0.data,
        vec![1 - 500, 20 - 6000, 5 + 100, 60 + 2000, 9]
    );
    let (at1, _) = rotary.apply(&q, &q, 1).unwrap();
    assert_eq!(
        at1.data,
        vec![3 - 700, 40 - 8000, 7 + 300, 80 + 4000, 9]
    );
    let both = ints(vec![1, 10, 100, 1000, 9, 1, 10, 100, 1000, 9], &[1, 1, 2, 5]);
    let (whole, _) = rotary.apply(&both, &q, 0).unwrap();
    assert_eq!(whole.data[..5], at0.data);
    assert_eq!(whole.data[5..], at1.data);
    assert!(matches!(
        rotary.apply(&both, &q, 1).unwrap_err(),
        Error::NarrowInvalidArgs { dim: 0, start: 1, len: 2, .. }
    ));
    assert!(matches!(
        rotary.apply(&q, &both, 0).unwrap_err(),
        Error::ShapeMismatchBinaryOp { op: "rope", .. }
    ));
    assert!(matches!(
        rotary.apply(&q, &ints(vec![1, 2, 3], &[1, 1, 1, 3]), 0).unwrap_err(),
        Error::NarrowInvalidArgs { dim: 3, start: 0, len: 4, .. }
    ));
    for rotary_dim in [0, 3, 8] {
        assert_eq!(
            text(
                RotaryEmbedding::<i64>::new(6, rotary_dim, 0, vec![], vec![], Backend::Split)
                    .unwrap_err()
            ),
            format!("invalid Qwen 3.5 rotary dimension {rotary_dim} for head dimension 6")
        );
    }
}

#[test]
fn sizes_are_read_off_the_header() {
    let ct = content(4, 4, 0);
    let cfg = Config::read(&ct).unwrap();
    assert_eq!(cfg.num_layers, 4);
    assert_eq!(cfg.head_dim, 8);
    assert_eq!(cfg.rotary_dim, 8);
    assert_eq!(cfg.linear_num_value_heads, 4);
    assert_eq!(cfg.linear_key_head_dim, 8);
    assert_eq!(cfg.num_experts, 0);
    assert_eq!(f32::from_bits(cfg.rope_freq_base), 1e7);
    assert_eq!(cfg.dtype, DType::F16);

    let mut ct = content(4, 4, 0);
    ct.metadata
        .push(("general.dtype".to_string(), Value::U32(0)));
    ct.metadata
        .push(("qwen3.rope.dimension_count".to_string(), Value::U32(4)));
    let cfg = Config::read(&ct).unwrap();
    assert_eq!(cfg.dtype, DType::F32);
    assert_eq!(cfg.rotary_dim, 4);

    drop_key(&mut ct, "qwen35.ssm.inner_size");
    assert_eq!(
        text(Config::read(&ct).unwrap_err()),
        "cannot find qwen3.ssm.inner_size or qwen35.ssm.inner_size in metadata"
    );
    drop_key(&mut ct, "qwen35.block_count");
    assert_eq!(
        text(Config::read(&ct).unwrap_err()),
        "cannot find qwen3.block_count or qwen35.block_count in metadata"
    );
    let mut ct = content(4, 4, 0);
    drop_key(&mut ct, "qwen35.embedding_length");
    ct.metadata
        .push(("qwen3.embedding_length".to_string(), Value::Other));
    assert!(Config::read(&ct).is_err());
}

#[test]
fn layers_alternate() {
    let ct = content(5, 4, 0);
    let m = ModelWeights::<i64>::from_gguf(&ct).unwrap();
    assert_eq!(m.layers.len(), 5);
    let full: Vec<bool> = m
        .layers
        .iter()
        .map(|l| matches!(l.token_mixer, TokenMixer::FullAttention(_)))
        .collect();
    assert_eq!(full, vec![false, false, false, true, false]);
    assert_eq!(m.embed_tokens, place(&ct, "token_embd.weight"));
    assert_eq!(m.norm, place(&ct, "output_norm.weight"));
    assert_eq!(m.lm_head, place(&ct, "token_embd.weight"));
    match &m.layers[3].token_mixer {
        TokenMixer::FullAttention(a) => {
            assert_eq!(a.num_heads, 2);
            assert_eq!(a.num_kv_heads, 1);
            assert_eq!(a.num_kv_groups, 2);
            assert_eq!(a.q_proj, place(&ct, "blk.3.attn_q.weight"));
        }
        TokenMixer::LinearAttention(_) => unreachable!(),
    }
    match &m.layers[0].token_mixer {
        TokenMixer::LinearAttention(d) => {
            assert_eq!(d.key_dim, 16);
            assert_eq!(d.value_dim, 32);
            assert_eq!(d.conv_dim, 64);
            assert_eq!(d.neg_a, place(&ct, "blk.0.ssm_a"));
        }
        TokenMixer::FullAttention(_) => unreachable!(),
    }
    assert!(matches!(
        m.layers[0].mlp,
        Ffn::Dense(MlpWeights { gate_proj, .. }) if gate_proj == place(&ct, "blk.0.ffn_gate.weight")
    ));

    let mut ct = content(2, 0, 4);
    ct.tensor_infos.push((
        "output.weight".to_string(),
        TensorInfo {
            ggml_dtype: GgmlDType::Q6K,
            dims: vec![100, 32],
        },
    ));
    let m = ModelWeights::<i64>::from_gguf_with_moe(&ct, MoeModes::both(MoeMode::Fused)).unwrap();
    assert_eq!(m.lm_head, place(&ct, "output.weight"));
    match m.layers[1].mlp {
        Ffn::Moe(moe) => {
            assert!(moe.stacked);
            assert_eq!(moe.gate_experts.n_experts, 4);
            assert_eq!(moe.gate_experts.per_expert, 16 * 144);
            assert_eq!(moe.num_experts_per_tok, 2);
        }
        Ffn::Dense(_) => unreachable!(),
    }
}

#[test]
fn missing_weights_are_named() {
    let missing = |name: &str| {
        let mut ct = content(4, 4, 0);
        drop_tensor(&mut ct, name);
        text(ModelWeights::<i64>::from_gguf(&ct).map(|_| ()).unwrap_err())
    };
    for name in [
        "token_embd.weight",
        "blk.1.ssm_a",
        "blk.2.ffn_down.weight",
        "blk.3.attn_q_norm.weight",
        "blk.3.post_attention_norm.weight",
        "output_norm.weight",
    ] {
        assert_eq!(missing(name), format!("cannot find tensor info for {name}"));
    }
    let mut ct = content(4, 4, 0);
    ct.metadata
        .push(("qwen3.rope.dimension_count".to_string(), Value::U32(3)));
    assert_eq!(
        text(ModelWeights::<i64>::from_gguf(&ct).map(|_| ()).unwrap_err()),
        "invalid Qwen 3.5 rotary dimension 3 for head dimension 8"
    );
    let mut ct = content(1, 4, 3);
    let i = place(&ct, "blk.0.ffn_up_exps.weight");
    ct.tensor_infos[i].1.dims = vec![16, 256];
    assert_eq!(
        ModelWeights::<i64>::from_gguf(&ct).map(|_| ()).unwrap_err(),
        Error::UnexpectedNumberOfDims {
            expected: 3,
            got: 2
        }
    );
    ct.tensor_infos[i].1.dims = vec![5, 1, 256 * 7 / 5];
    assert!(text(ModelWeights::<i64>::from_gguf(&ct).map(|_| ()).unwrap_err())
        .contains("does not divide evenly into 5 experts"));
}

#[test]
fn tensors_that_are_not_looked_at_can_have_any_extents() {
    let mut ct = content(4, 4, 3);
    for (name, dims) in [("scalar", vec![]), ("empty", vec![0, 4, 4]), ("flat", vec![0])] {
        ct.tensor_infos.push((
            name.to_string(),
            TensorInfo {
                ggml_dtype: GgmlDType::Q4K,
                dims,
            },
        ));
    }
    let i = place(&ct, "output_norm.weight");
    ct.tensor_infos[i].1.dims = vec![];
    let model = ModelWeights::<i64>::from_gguf(&ct).unwrap();
    assert_eq!(model.layers.len(), 4);
    assert_eq!(read_expert_quants_per_layer(&ct).unwrap().len(), 4);
}

#[test]
fn a_mask_lets_positions_look_back() {
    let m = causal_mask(1, 2, 3, Backend::Split).unwrap();
    assert_eq!(m.dims, vec![1, 1, 2, 5]);
    assert_eq!(
        m.data,
        vec![true, true, true, true, false, true, true, true, true, true]
    );
    assert!(matches!(
        causal_mask(2, 2, 0, Backend::Split).unwrap_err(),
        Error::ShapeMismatchBinaryOp { .. }
    ));
    let ct = content(1, 4, 0);
    let model = ModelWeights::<i64>::from_gguf(&ct).unwrap();
    let step = model.step(1, 1, 7, Backend::Split).unwrap();
    assert!(step.mask.is_none());
    assert_eq!(step.last, 0);
    let step = model.step(1, 4, 7, Backend::Split).unwrap();
    assert_eq!(step.mask.unwrap().dims, vec![1, 1, 4, 11]);
    assert_eq!(step.last, 3);
}

#[test]
fn caches_grow_by_steps() {
    let mut whole = ConcatKvCache::new(2);
    let mut steps = ConcatKvCache::new(2);
    let k = state((0..12).collect(), &[1, 2, 3, 2]);
    let v = state((100..112).collect(), &[1, 2, 3, 2]);
    let part = |s: &State<i64>, at: usize, n: usize| State {
        dtype: s.dtype,
        tensor: s.tensor.narrow(2, at, n),
    };
    whole.append(&k, &v).unwrap();
    steps.append(&part(&k, 0, 2), &part(&v, 0, 2)).unwrap();
    steps.append(&part(&k, 2, 1), &part(&v, 2, 1)).unwrap();
    assert_eq!(
        whole.k.as_ref().unwrap().tensor.data,
        steps.k.as_ref().unwrap().tensor.data
    );
    assert_eq!(
        whole.v.as_ref().unwrap().tensor.data,
        steps.v.as_ref().unwrap().tensor.data
    );
    let other = state(vec![0; 3], &[1, 1, 1, 3]);
    assert!(matches!(
        steps.append(&other, &other).unwrap_err(),
        Error::ShapeMismatchBinaryOp { op: "cat", .. }
    ));
    let mut wide = part(&k, 0, 1);
    wide.dtype = DType::F64;
    assert!(matches!(
        steps.append(&wide, &wide).unwrap_err(),
        Error::DTypeMismatchBinaryOp {
            lhs: DType::F32,
            rhs: DType::F64,
            op: "cat"
        }
    ));
    steps.reset();
    assert!(steps.k.is_none() && steps.v.is_none());
}

#[test]
fn attention_cuts_and_shares_heads() {
    let ct = content(1, 1, 0);
    let gg = Gguf::new(&ct);
    let mut a = AttentionWeights::<i64>::new(&gg, 0, 8).unwrap();
    let q_out = ints((0..32).collect(), &[1, 1, 32]);
    let (q, gate) = a.queries(&q_out).unwrap();
    assert_eq!(q.dims, vec![1, 2, 1, 8]);
    assert_eq!(q.data, [(0..8).collect::<Vec<i64>>(), (16..24).collect()].concat());
    assert_eq!(gate.data, [(8..16).collect::<Vec<i64>>(), (24..32).collect()].concat());
    let k = a.keys(&ints((0..8).collect(), &[1, 1, 8])).unwrap();
    assert_eq!(k.dims, vec![1, 1, 1, 8]);
    let k = State {
        dtype: DType::F32,
        tensor: k,
    };
    a.extend(&k, &k).unwrap();
    let (keys, values) = a.extend(&k, &k).unwrap();
    assert_eq!(keys.dims, vec![1, 2, 2, 8]);
    assert_eq!(keys.data, (0..32).map(|i| i % 8).collect::<Vec<i64>>());
    assert_eq!(values.data, keys.data);
    let out = a.gated(&q, &gate).unwrap();
    assert_eq!(out.dims, vec![1, 1, 16]);
    assert_eq!(out.data[0], 0);
    assert_eq!(out.data[15], 23 * 31);
    a.clear_kv_cache();
    assert!(a.kv_cache.k.is_none());
}

#[test]
fn parts_score_as_the_sequence() {
    let ct = content(1, 1, 0);
    let a = AttentionWeights::<i64>::new(&Gguf::new(&ct), 0, 8).unwrap();
    let q = ints((0..24).collect(), &[1, 2, 3, 4]);
    let k = ints((5..29).collect(), &[1, 2, 3, 4]);
    let model = ModelWeights::<i64>::from_gguf(&ct).unwrap();
    let hidden = -1_000_000;
    let scores = |l: usize, offset: usize| {
        let mask = model.step(1, l, offset, Backend::Split).unwrap().mask;
        a.scores(&q.narrow(2, offset, l), &k, mask.as_ref(), 3, hidden)
            .unwrap()
    };
    let whole = scores(3, 0);
    assert_eq!(whole.dims, vec![1, 2, 3, 3]);
    let products = |i: i64, j: i64| -> i64 { (0..4).map(|c| (i * 4 + c) * (j * 4 + c + 5)).sum() };
    assert_eq!(whole.data[3], 3 * products(1, 0));
    assert_eq!(whole.data[1], 3 * products(0, 1) + hidden);
    let two = scores(2, 1);
    assert_eq!(two.data[..6], whole.data[3..9]);
    let one = scores(1, 2);
    assert_eq!(one.data[..3], whole.data[6..9]);
    let mask = causal_mask(1, 2, 0, Backend::Split).unwrap();
    assert!(matches!(
        a.scores(&q, &k, Some(&mask), 1, 0).map(|_| ()).unwrap_err(),
        Error::ShapeMismatchBinaryOp { op: "broadcast_add", .. }
    ));
    assert!(matches!(
        a.scores(&q, &k.narrow(1, 0, 1), None, 1, 0).map(|_| ()).unwrap_err(),
        Error::ShapeMismatchBinaryOp { op: "matmul", .. }
    ));
}

#[test]
fn tokens_are_looked_up() {
    let ct = content(1, 1, 0);
    let model = ModelWeights::<i64>::from_gguf(&ct).unwrap();
    let table = ints((0..96).collect(), &[3, 32]);
    let x = model.embed(&[2, 0], 1, 2, &table).unwrap();
    assert_eq!(x.dims, vec![1, 2, 32]);
    assert_eq!(x.data[0], 64);
    assert_eq!(x.data[32], 0);
    assert_eq!(
        model.embed(&[3], 1, 1, &table).map(|_| ()).unwrap_err(),
        Error::InvalidIndex {
            op: "index-select",
            index: 3,
            size: 3
        }
    );
    let narrow = ints(vec![0; 6], &[3, 2]);
    assert_eq!(
        model.embed(&[1, 2], 2, 1, &narrow).map(|_| ()).unwrap_err(),
        Error::ShapeMismatchBinaryOp {
            lhs: vec![2, 2],
            rhs: vec![2, 1, 32],
            op: "reshape"
        }
    );
}

#[test]
fn states_are_put_back() {
    let ct = content(4, 4, 0);
    let mut m = ModelWeights::<i64>::from_gguf(&ct).unwrap();
    let kv = || state((0..8).collect(), &[1, 1, 1, 8]);
    let conv = || state((0..192).collect(), &[1, 64, 3]);
    let rec = || state((0..256).collect(), &[1, 4, 8, 8]);
    let delta = || LayerState::Delta {
        conv: Some(conv()),
        recurrent: Some(rec()),
    };
    let states = vec![
        delta(),
        delta(),
        delta(),
        LayerState::Kv {
            k: Some(kv()),
            v: Some(kv()),
        },
    ];
    assert_eq!(states[0].size_in_bytes(), (192 + 256) * 4);
    assert_eq!(states[3].size_in_bytes(), 16 * 4);
    m.set_layer_states(&states).unwrap();
    let read = m.layer_states();
    let flat = |s: &LayerState<i64>| match s {
        LayerState::Kv { k, v } => (
            k.as_ref().map(|t| t.tensor.data.clone()),
            v.as_ref().map(|t| t.tensor.data.clone()),
        ),
        LayerState::Delta { conv, recurrent } => (
            conv.as_ref().map(|t| t.tensor.data.clone()),
            recurrent.as_ref().map(|t| t.tensor.data.clone()),
        ),
    };
    for (a, b) in read.iter().zip(&states) {
        assert_eq!(flat(a), flat(b));
        assert_eq!(flat(&a.deep_copy()), flat(b));
    }
    m.clear_kv_cache();
    assert!(m.layer_states().iter().all(|s| flat(s) == (None, None)));
    m.set_layer_states(&read).unwrap();
    assert_eq!(flat(&m.layer_states()[2]), flat(&states[2]));
}

#[test]
fn states_that_do_not_fit_are_refused() {
    let ct = content(4, 4, 0);
    let mut m = ModelWeights::<i64>::from_gguf(&ct).unwrap();
    let empty = || LayerState::<i64>::Delta {
        conv: None,
        recurrent: None,
    };
    assert_eq!(
        text(m.set_layer_states(&[empty()]).unwrap_err()),
        "state has 1 layers, model has 4"
    );
    assert_eq!(
        text(
            m.set_layer_states(&[empty(), empty(), empty(), empty()])
                .unwrap_err()
        ),
        "layer 3: state kind does not match the model's layer kind"
    );
    let whole = LayerState::Delta {
        conv: Some(state(vec![1; 3], &[1, 1, 3])),
        recurrent: Some(state(vec![2; 1], &[1, 1, 1, 1])),
    };
    let half = LayerState::Delta {
        conv: Some(state(vec![1; 3], &[1, 1, 3])),
        recurrent: None,
    };
    assert_eq!(
        text(
            m.set_layer_states(&[whole, half, empty(), empty()])
                .unwrap_err()
        ),
        "layer 1: Delta state is half-set (conv=Some, recurrent=None); both must be Some or both None"
    );
    // The layer before the refused one has taken its state.
    let now = m.layer_states();
    assert!(matches!(&now[0], LayerState::Delta { conv: Some(_), recurrent: Some(_) }));
    assert!(matches!(&now[1], LayerState::Delta { conv: None, recurrent: None }));
    // Keys without values are as good as none.
    let keys = LayerState::Kv {
        k: Some(state(vec![0; 8], &[1, 1, 1, 8])),
        v: None,
    };
    m.set_layer_states(&[empty(), empty(), empty(), keys]).unwrap();
    assert!(matches!(&m.layer_states()[3], LayerState::Kv { k: None, v: None }));
}

fn delta_layer<E: Element>(
    num_v_heads: usize,
    num_k_heads: usize,
    head_k_dim: usize,
    head_v_dim: usize,
    conv_kernel_size: usize,
) -> GatedDeltaNetWeights<E> {
    let ct = content(1, 0, 0);
    let gg = Gguf::new(&ct);
    let dims = DeltaDims {
        num_v_heads,
        num_k_heads,
        head_k_dim,
        head_v_dim,
        conv_kernel_size,
    };
    GatedDeltaNetWeights::new(&gg, 0, dims).unwrap()
}

/// The dense weights of a small layer.
struct Dense {
    hidden: usize,
    qkv: Vec<f32>,
    b: Vec<f32>,
    a: Vec<f32>,
    conv: Tensor<F>,
    dt_bias: Vec<f32>,
    neg_a: f32,
}

/// The columns `w` times each of the rows `x`, `[1, out, rows]`.
fn project(w: &[f32], x: &[f32], hidden: usize) -> Tensor<F> {
    let (rows, out) = (x.len() / hidden, w.len() / hidden);
    let mut data = Vec::with_capacity(rows * out);
    for o in 0..out {
        for t in 0..rows {
            let mut sum = 0.0;
            for i in 0..hidden {
                sum += w[o * hidden + i] * x[t * hidden + i];
            }
            data.push(F(sum));
        }
    }
    Tensor::from_vec(data, &[1, out, rows], Backend::Split).unwrap()
}

/// One call of the layer, up to its gated normalization: `[rows, heads, head width]`.
fn run(layer: &mut GatedDeltaNetWeights<F>, w: &Dense, x: &[f32]) -> Vec<f32> {
    let rows = x.len() / w.hidden;
    let mixed = State {
        dtype: DType::F32,
        tensor: project(&w.qkv, x, w.hidden),
    };
    let mut out = layer.convolve(&mixed, &w.conv).unwrap();
    for v in out.data.iter_mut() {
        *v = F(v.0 / (1.0 + (-v.0).exp()));
    }
    let (q, k, v) = layer.heads(&out).unwrap();
    let (heads, dk, dv) = (layer.num_v_heads, layer.head_k_dim, layer.head_v_dim);
    assert_eq!(q.dims, vec![1, rows, heads, dk]);
    assert_eq!(v.dims, vec![1, rows, heads, dv]);
    let beta = project(&w.b, x, w.hidden);
    let decay = project(&w.a, x, w.hidden);
    let s = layer.initial_state(1, heads, dk, dv, Backend::Split);
    assert_eq!(s.dims, vec![1, heads, dk, dv]);
    let mut s: Vec<f32> = s.data.iter().map(|v| v.0).collect();
    let mut y = vec![0.0; rows * heads * dv];
    for t in 0..rows {
        for h in 0..heads {
            let row = |x: &Tensor<F>, n: usize| -> Vec<f32> {
                let at = (t * heads + h) * n;
                x.data[at..at + n].iter().map(|v| v.0).collect()
            };
            let unit = |r: Vec<f32>| -> Vec<f32> {
                let norm = (r.iter().map(|v| v * v).sum::<f32>() + 1e-6).sqrt();
                r.into_iter().map(|v| v / norm).collect()
            };
            let (qt, kt, vt) = (unit(row(&q, dk)), unit(row(&k, dk)), row(&v, dv));
            let b = 1.0 / (1.0 + (-beta.data[h * rows + t].0).exp());
            let a = decay.data[h * rows + t].0 + w.dt_bias[h];
            let g = (w.neg_a * (a.exp() + 1.0).ln()).exp();
            for j in 0..dv {
                let at = |i: usize| (h * dk + i) * dv + j;
                let mut seen = 0.0;
                for i in 0..dk {
                    s[at(i)] *= g;
                    seen += s[at(i)] * kt[i];
                }
                let change = (vt[j] - seen) * b;
                let mut sum = 0.0;
                for i in 0..dk {
                    s[at(i)] += kt[i] * change;
                    sum += s[at(i)] * qt[i] / (dk as f32).sqrt();
                }
                y[(t * heads + h) * dv + j] = sum;
            }
        }
    }
    let tensor = Tensor::from_vec(
        s.into_iter().map(F).collect(),
        &[1, heads, dk, dv],
        Backend::Split,
    )
    .unwrap();
    layer.carry(State {
        dtype: DType::F32,
        tensor,
    });
    y
}

fn max_abs_diff(a: &[f32], b: &[f32]) -> f32 {
    assert_eq!(a.len(), b.len());
    a.iter()
        .zip(b)
        .map(|(x, y)| (x - y).abs())
        .fold(0.0f32, f32::max)
}

#[test]
fn delta_layer_split_prefill_matches_undivided_cpu() {
    let (hidden, t, split) = (32usize, 192usize, 128usize);
    let mut rng = Lcg(3);
    let (num_v_heads, conv_dim) = (4usize, 2 * 16 + 32);
    let w = Dense {
        hidden,
        qkv: rng.floats(conv_dim * hidden, 0.1),
        b: rng.floats(num_v_heads * hidden, 0.1),
        a: rng.floats(num_v_heads * hidden, 0.1),
        conv: Tensor::from_vec(
            rng.floats(conv_dim * 4, 0.1).into_iter().map(F).collect(),
            &[conv_dim, 1, 4],
            Backend::Split,
        )
        .unwrap(),
        dt_bias: rng.floats(num_v_heads, 0.1),
        neg_a: -0.5,
    };
    let mut whole = delta_layer::<F>(4, 2, 8, 8, 4);
    let mut split_layer = delta_layer::<F>(4, 2, 8, 8, 4);
    assert_eq!(whole.conv_dim, conv_dim);
    let x = rng.floats(t * hidden, 1.0);

    let out_whole = run(&mut whole, &w, &x);
    let out_a = run(&mut split_layer, &w, &x[..split * hidden]);
    let out_b = run(&mut split_layer, &w, &x[split * hidden..]);
    let out_split = [out_a, out_b].concat();

    let values = |s: &Option<State<F>>| -> Vec<f32> {
        s.as_ref().unwrap().tensor.data.iter().map(|v| v.0).collect()
    };
    assert_eq!(
        max_abs_diff(&out_whole, &out_split),
        0.0,
        "chunk-aligned split changed the layer output"
    );
    assert_eq!(
        max_abs_diff(
            &values(&whole.recurrent_state),
            &values(&split_layer.recurrent_state)
        ),
        0.0,
        "chunk-aligned split left a different recurrent state"
    );
    assert_eq!(
        max_abs_diff(&values(&whole.conv_state), &values(&split_layer.conv_state)),
        0.0,
        "chunk-aligned split left a different conv state"
    );
}

#[test]
fn the_window_of_a_convolution_is_carried_along() {
    let mut layer = delta_layer::<i64>(1, 1, 1, 1, 3);
    assert_eq!(layer.conv_dim, 3);
    let x = state(
        vec![1, 2, 3, 4, 10, 20, 30, 40, 100, 200, 300, 400],
        &[1, 3, 4],
    );
    let weight = ints(vec![1, 1, 1, 1, 0, 0, 0, 0, 1], &[3, 1, 3]);
    let y = layer.convolve(&x, &weight).unwrap();
    assert_eq!(y.dims, vec![1, 3, 4]);
    assert_eq!(
        y.data,
        vec![1, 3, 6, 9, 0, 0, 10, 20, 100, 200, 300, 400]
    );
    let carried = layer.conv_state.as_ref().unwrap();
    assert_eq!(carried.tensor.dims, vec![1, 3, 2]);
    assert_eq!(carried.tensor.data, vec![3, 4, 30, 40, 300, 400]);
    let next = state(vec![5, 50, 500], &[1, 3, 1]);
    let y = layer.convolve(&next, &weight).unwrap();
    assert_eq!(y.data, vec![12, 30, 500]);
    assert_eq!(
        layer.conv_state.as_ref().unwrap().tensor.data,
        vec![4, 5, 40, 50, 400, 500]
    );
    let narrow = state(vec![5, 50], &[1, 2, 1]);
    assert!(matches!(
        layer.convolve(&narrow, &weight).unwrap_err(),
        Error::ShapeMismatchBinaryOp { op: "cat", .. }
    ));
    layer.conv_state = Some(state(vec![1, 1, 1], &[1, 3, 1]));
    assert!(matches!(
        layer.convolve(&next, &weight).unwrap_err(),
        Error::NarrowInvalidArgs { dim: 2, start: 1, len: 2, .. }
    ));
    layer.clear_kv_cache();
    assert!(layer.conv_state.is_none() && layer.recurrent_state.is_none());
}

#[test]
fn value_heads_share_key_heads_in_turn() {
    let layer = delta_layer::<i64>(4, 2, 1, 1, 2);
    assert_eq!(layer.conv_dim, 8);
    // Channels: two queries, two keys, four values.
    let mixed = ints((0..8).collect(), &[1, 8, 1]);
    let (q, k, v) = layer.heads(&mixed).unwrap();
    assert_eq!(q.data, vec![0, 1, 0, 1]);
    assert_eq!(k.data, vec![2, 3, 2, 3]);
    assert_eq!(v.data, vec![4, 5, 6, 7]);
    assert!(matches!(
        layer.heads(&ints((0..7).collect(), &[1, 7, 1])).unwrap_err(),
        Error::NarrowInvalidArgs { dim: 2, start: 4, len: 4, .. }
    ));
    let few = delta_layer::<i64>(1, 2, 1, 1, 2);
    assert_eq!(
        few.heads(&ints((0..5).collect(), &[1, 5, 1])).unwrap_err(),
        Error::OpRequiresAtLeastOneTensor { op: "cat" }
    );
}

#[test]
fn one_position_takes_one_step() {
    assert!(takes_one_step(1));
    for l in [0, 2, 64, 192] {
        assert!(!takes_one_step(l));
    }
}

#[test]
fn a_layer_forgets() {
    let ct = content(1, 0, 0);
    let gg = Gguf::new(&ct);
    let cfg = Config::read(&ct).unwrap();
    let mut layer = LayerWeights::<i64>::new(&gg, 0, &cfg, MoeModes::default()).unwrap();
    assert!(matches!(layer.state(), LayerState::Delta { conv: None, recurrent: None }));
    let held = LayerState::Delta {
        conv: Some(state(vec![1], &[1, 1, 1])),
        recurrent: Some(state(vec![2], &[1, 1, 1])),
    };
    layer.set_state(0, &held).unwrap();
    assert!(matches!(layer.state(), LayerState::Delta { conv: Some(_), .. }));
    layer.clear_kv_cache();
    assert!(matches!(layer.state(), LayerState::Delta { conv: None, recurrent: None }));
}
