//! The speech model: its weights in a checkpoint, its caches and its masks.

use candle::dtype::DType;
use candle::error::Error;
use candle::models::state::State;
use candle::models::whisper::attention::{
    causal_mask, key_offset, mask_window, MultiHeadAttention,
};
use candle::models::whisper::checkpoint::{Checkpoint, VarBuilder};
use candle::models::whisper::model::{Config, TextDecoder, Whisper};
use candle::tensor::{Backend, Tensor};

const CFG: Config = Config {
    num_mel_bins: 5,
    max_source_positions: 6,
    d_model: 4,
    encoder_attention_heads: 2,
    encoder_layers: 1,
    vocab_size: 11,
    max_target_positions: 7,
    decoder_attention_heads: 2,
    decoder_layers: 2,
};

fn checkpoint() -> Checkpoint {
    let mut tensors: Vec<(String, Vec<usize>)> = Vec::new();
    let mut put = |path: String, dims: &[usize]| tensors.push((path, dims.to_vec()));
    let d = CFG.d_model;
    let affine = |put: &mut dyn FnMut(String, &[usize]), path: &str, dims: &[usize]| {
        put(format!("{path}.weight"), dims);
        put(format!("{path}.bias"), &dims[..1]);
    };
    affine(&mut put, "model.encoder.conv1", &[d, CFG.num_mel_bins, 3]);
    affine(&mut put, "model.encoder.conv2", &[d, d, 3]);
    for (part, layers, cross) in [
        ("encoder", CFG.encoder_layers, false),
        ("decoder", CFG.decoder_layers, true),
    ] {
        for i in 0..layers {
            let at = format!("model.{part}.layers.{i}");
            let mut attentions = vec!["self_attn"];
            if cross {
                attentions.push("encoder_attn");
            }
            for a in attentions {
                for p in ["q_proj", "v_proj", "out_proj"] {
                    affine(&mut put, &format!("{at}.{a}.{p}"), &[d, d]);
                }
                put(format!("{at}.{a}.k_proj.weight"), &[d, d]);
                affine(&mut put, &format!("{at}.{a}_layer_norm"), &[d]);
            }
            affine(&mut put, &format!("{at}.fc1"), &[4 * d, d]);
            affine(&mut put, &format!("{at}.fc2"), &[d, 4 * d]);
            affine(&mut put, &format!("{at}.final_layer_norm"), &[d]);
        }
        affine(&mut put, &format!("model.{part}.layer_norm"), &[d]);
    }
    put(
        "model.decoder.embed_tokens.weight".to_string(),
        &[CFG.vocab_size, d],
    );
    put(
        "model.decoder.embed_positions.weight".to_string(),
        &[CFG.max_target_positions, d],
    );
    Checkpoint { tensors }
}

fn root(ck: &Checkpoint) -> VarBuilder<'_> {
    VarBuilder {
        ck,
        path: String::new(),
    }
}

fn load(ck: &Checkpoint) -> Result<Whisper<i64>, Error> {
    Whisper::load(&root(ck), CFG, Backend::Split)
}

fn text(e: Error) -> String {
    match e {
        Error::Msg(text) => text,
        other => panic!("unexpected {other:?}"),
    }
}

fn state(data: Vec<i64>, dims: &[usize]) -> State<i64> {
    State {
        dtype: DType::F32,
        tensor: Tensor::from_vec(data, dims, Backend::Split).unwrap(),
    }
}

fn place(ck: &Checkpoint, path: &str) -> usize {
    ck.tensors.iter().position(|t| t.0 == path).unwrap()
}

#[test]
fn a_model_is_found_in_a_checkpoint() {
    let ck = checkpoint();
    let m = load(&ck).unwrap();
    assert_eq!(m.encoder.blocks.len(), 1);
    assert_eq!(m.decoder.blocks.len(), 2);
    assert_eq!(m.encoder.conv1.bias, place(&ck, "model.encoder.conv1.bias"));
    assert_eq!(m.encoder.conv1_config.stride, 1);
    assert_eq!(m.encoder.conv2_config.stride, 2);
    assert!(m.encoder.blocks[0].cross_attn.is_none());
    let (cross, ln) = m.decoder.blocks[1].cross_attn.as_ref().unwrap();
    assert_eq!(
        cross.value.weight,
        place(&ck, "model.decoder.layers.1.encoder_attn.v_proj.weight")
    );
    assert_eq!(cross.key.bias, None);
    assert_eq!(
        ln.weight,
        place(&ck, "model.decoder.layers.1.encoder_attn_layer_norm.weight")
    );
    assert_eq!(
        m.decoder.positional_embedding,
        place(&ck, "model.decoder.embed_positions.weight")
    );
    assert_eq!(m.decoder.cache_len, 0);
    assert_eq!(m.config, CFG);
}

#[test]
fn what_is_not_in_a_checkpoint_is_named() {
    for path in [
        "model.encoder.conv2.bias",
        "model.encoder.layers.0.fc1.weight",
        "model.decoder.embed_tokens.weight",
        "model.decoder.layers.1.encoder_attn.out_proj.bias",
        "model.decoder.layer_norm.bias",
    ] {
        let mut ck = checkpoint();
        ck.tensors.retain(|t| t.0 != path);
        assert_eq!(
            text(load(&ck).map(|_| ()).unwrap_err()),
            format!("cannot find tensor {path}")
        );
    }
    let mut ck = checkpoint();
    let i = place(&ck, "model.decoder.layers.0.fc2.weight");
    ck.tensors[i].1 = vec![4, 15];
    assert_eq!(
        load(&ck).map(|_| ()).unwrap_err(),
        Error::UnexpectedShape {
            msg: "shape mismatch for model.decoder.layers.0.fc2.weight".to_string(),
            expected: vec![4, 16],
            got: vec![4, 15],
        }
    );
}

#[test]
fn names_are_joined_below_a_place() {
    let ck = checkpoint();
    let vb = root(&ck).pp("model").pp("decoder").layer(12).pp("fc1");
    assert_eq!(vb.path, "model.decoder.layers.12.fc1");
}

fn decoder(ck: &Checkpoint) -> TextDecoder<i64> {
    load(ck).unwrap().decoder
}

/// The embeddings of tokens, and those of positions: `1000 * token + channel`, and
/// `100000 * position`.
fn tables() -> (Tensor<i64>, Tensor<i64>) {
    let tokens = (0..44).map(|p| 1000 * (p / 4) + p % 4).collect();
    let positions = (0..28).map(|p| 100_000 * (p / 4)).collect();
    (
        state(tokens, &[11, 4]).tensor,
        state(positions, &[7, 4]).tensor,
    )
}

#[test]
fn steps_start_where_the_last_one_ended() {
    let ck = checkpoint();
    let mut d = decoder(&ck);
    let (tokens, positions) = tables();
    let ids: Vec<u32> = vec![3, 1, 4, 1, 5, 9];
    let whole = d.embed(&ids, 1, 6, &tokens, &positions).unwrap();
    assert_eq!(whole.dims, vec![1, 6, 4]);
    assert_eq!(whole.data[4..8], [101_000, 101_001, 101_002, 101_003]);
    let step = |d: &mut TextDecoder<i64>, ids: &[u32], start: usize, reset: bool| {
        let n = ids.len();
        let x = d.begin_step(ids, 1, n, &tokens, &positions, reset).unwrap();
        assert_eq!(x.data, whole.data[start * 4..(start + n) * 4]);
        for i in 0..d.blocks.len() {
            let k = state(vec![1; n * 4], &[1, n, 4]);
            let (keys, _) = d.blocks[i].attn.extend_self(&k, &k, true).unwrap();
            let n_kv = keys.tensor.dims[1];
            assert_eq!(key_offset(n, n_kv).unwrap(), start);
        }
        d.end_step(n);
    };
    step(&mut d, &ids[..3], 0, true);
    step(&mut d, &ids[3..4], 3, false);
    step(&mut d, &ids[4..], 4, false);
    assert_eq!(d.cache_len, 6);
    assert_eq!(
        d.begin_step(&[1, 2], 1, 2, &tokens, &positions, false)
            .unwrap_err(),
        Error::NarrowInvalidArgs {
            shape: vec![7, 4],
            dim: 0,
            start: 6,
            len: 2
        }
    );
    assert_eq!(d.cache_len, 6);
    step(&mut d, &ids, 0, true);
    assert_eq!(
        d.embed(&[1, 12, 13], 1, 3, &tokens, &positions).unwrap_err(),
        Error::InvalidIndex {
            op: "index-select",
            index: 12,
            size: 11
        }
    );
    assert!(d.embed(&[0; 8], 1, 8, &tokens, &positions).is_err());
    assert!(d.embed(&[0; 14], 2, 7, &tokens, &positions).is_ok());
    d.reset_kv_cache();
    assert_eq!(d.cache_len, 0);
    assert!(d.blocks.iter().all(|b| b.attn.self_kv_cache.is_none()));
}

#[test]
fn logits_are_products_with_the_embeddings() {
    let ck = checkpoint();
    let d = decoder(&ck);
    let (tokens, _) = tables();
    let x = state(vec![1, 0, 0, 0, 0, 0, 0, 1], &[1, 2, 4]).tensor;
    let logits = d.final_linear(&x, &tokens).unwrap();
    assert_eq!(logits.dims, vec![1, 2, 11]);
    assert_eq!(logits.data[..3], [0, 1000, 2000]);
    assert_eq!(logits.data[11..14], [3, 1003, 2003]);
    let flat = state(vec![0; 8], &[2, 4]).tensor;
    assert_eq!(
        d.final_linear(&flat, &tokens).map(|_| ()).unwrap_err(),
        Error::ShapeMismatchBinaryOp {
            lhs: vec![2, 4],
            rhs: vec![2, 4, 11],
            op: "matmul"
        }
    );
}

#[test]
fn audio_is_turned_and_positioned() {
    let ck = checkpoint();
    let m = load(&ck).unwrap();
    let positions = state((0..24).map(|p| 100 * p).collect(), &[6, 4]).tensor;
    let x = state((0..8).collect(), &[1, 4, 2]).tensor;
    let y = m.encoder.positioned(&x, &positions).unwrap();
    assert_eq!(y.dims, vec![1, 2, 4]);
    assert_eq!(y.data, vec![0, 102, 204, 306, 401, 503, 605, 707]);
    let long = state(vec![0; 28], &[1, 4, 7]).tensor;
    assert_eq!(
        m.encoder.positioned(&long, &positions).map(|_| ()).unwrap_err(),
        Error::NarrowInvalidArgs {
            shape: vec![6, 4],
            dim: 0,
            start: 0,
            len: 7
        }
    );
}

#[test]
fn steps_score_and_weigh_as_the_sequence() {
    let ck = checkpoint();
    let a = attention(&ck);
    let mask = causal_mask(5, Backend::Split);
    let q = state((1..13).collect(), &[1, 3, 4]).tensor;
    let k = state((3..15).map(|x| x * x).collect(), &[1, 3, 4]).tensor;
    let v = state((0..12).collect(), &[1, 3, 4]).tensor;
    let hidden = -1_000_000;
    let (whole, heads) = a.scores(&q, &k, &v, Some(&mask), 2, hidden).unwrap();
    assert_eq!(whole.dims, vec![1, 2, 3, 3]);
    // Head 1 of query 0 against key 0: four times 3 * 25 + 4 * 36.
    assert_eq!(whole.data[9], 4 * (3 * 25 + 4 * 36));
    assert_eq!(whole.data[10], 4 * (3 * 81 + 4 * 100) + hidden);
    let last = q.narrow(1, 2, 1);
    let (step, _) = a.scores(&last, &k, &v, Some(&mask), 2, hidden).unwrap();
    assert_eq!(step.dims, vec![1, 2, 1, 3]);
    assert_eq!(step.data[..3], whole.data[6..9]);
    assert_eq!(step.data[3..], whole.data[15..18]);

    let all = a.weigh(&whole, &heads).unwrap();
    assert_eq!(all.dims, vec![1, 3, 4]);
    let one = a.weigh(&step, &heads).unwrap();
    assert_eq!(one.data, all.data[8..]);
    let w = &step.data;
    assert_eq!(one.data[3], w[3] * 3 + w[4] * 7 + w[5] * 11);

    assert_eq!(
        text(a.scores(&q, &last, &v, None, 1, 0).map(|_| ()).unwrap_err()),
        "3 queries against 1 keys"
    );
    assert!(matches!(
        a.scores(&q, &k, &state(vec![0; 5], &[1, 1, 5]).tensor, None, 1, 0)
            .map(|_| ())
            .unwrap_err(),
        Error::ShapeMismatchBinaryOp { op: "reshape", .. }
    ));
    assert!(matches!(
        a.scores(&q, &k, &v, Some(&causal_mask(2, Backend::Split)), 1, 0)
            .map(|_| ())
            .unwrap_err(),
        Error::NarrowInvalidArgs { dim: 0, start: 0, len: 3, .. }
    ));
}

/// Weights that pass over hidden scores.
fn weights(scores: &Tensor<i64>, hidden: i64) -> Tensor<i64> {
    let data = scores
        .data
        .iter()
        .map(|s| if *s < hidden / 2 { 0 } else { *s % 100 + 1 })
        .collect();
    Tensor::from_vec(data, &scores.dims, Backend::Split).unwrap()
}

#[test]
fn attention_in_steps_is_attention_to_the_sequence() {
    let ck = checkpoint();
    let mut a = attention(&ck);
    let mask = causal_mask(7, Backend::Split);
    let hidden = -1_000_000_000;
    let (b, l, d) = (2, 5, 4);
    let x = state((0..b * l * d).map(|i| (i * 7 % 13) as i64 - 6).collect(), &[b, l, d]);
    let double = |t: &Tensor<i64>, n: i64| {
        Tensor::from_vec(t.data.iter().map(|v| v * n + 1).collect(), &t.dims, Backend::Split)
            .unwrap()
    };
    let mut attend = |x: &Tensor<i64>, cache_self: bool| {
        let (k, v) = (double(x, 3), double(x, 5));
        let (k, v) = (state(k.data, &k.dims), state(v.data, &v.dims));
        let (keys, values) = a.extend_self(&k, &v, cache_self).unwrap();
        let (qk, heads) = a
            .scores(x, &keys.tensor, &values.tensor, Some(&mask), 2, hidden)
            .unwrap();
        a.weigh(&weights(&qk, hidden), &heads).unwrap()
    };
    let whole = attend(&x.tensor, false);
    assert_eq!(whole.dims, vec![b, l, d]);
    let mut at = 0;
    for n in [2, 1, 2] {
        let step = attend(&x.tensor.narrow(1, at, n), true);
        assert_eq!(step.data, whole.narrow(1, at, n).data);
        at += n;
    }
}

#[test]
fn a_step_sees_what_the_sequence_sees() {
    let full = causal_mask(5, Backend::Split);
    assert_eq!(full.data[..10], [true, false, false, false, false, true, true, false, false, false]);
    let row = mask_window(&full, key_offset(1, 4).unwrap(), 1, 4).unwrap();
    assert_eq!(row.data, vec![true; 4]);
    let rows = mask_window(&full, key_offset(2, 4).unwrap(), 2, 4).unwrap();
    assert_eq!(rows.dims, vec![2, 4]);
    assert_eq!(rows.data, vec![true, true, true, false, true, true, true, true]);
    let whole = mask_window(&full, key_offset(3, 3).unwrap(), 3, 3).unwrap();
    assert_eq!(whole.data[3..6], [true, true, false]);
    assert_eq!(text(key_offset(3, 2).unwrap_err()), "3 queries against 2 keys");
    assert!(matches!(
        mask_window(&full, 4, 2, 6).unwrap_err(),
        Error::NarrowInvalidArgs { dim: 0, start: 4, len: 2, .. }
    ));
    assert!(matches!(
        mask_window(&full, 0, 2, 6).unwrap_err(),
        Error::NarrowInvalidArgs { dim: 1, start: 0, len: 6, .. }
    ));
}

fn attention(ck: &Checkpoint) -> MultiHeadAttention<i64> {
    MultiHeadAttention::load(4, 2, &root(ck).pp("model.encoder.layers.0.self_attn")).unwrap()
}

#[test]
fn keys_grow_only_in_steps() {
    let ck = checkpoint();
    let mut a = attention(&ck);
    let k = state((0..8).collect(), &[1, 2, 4]);
    let v = state((100..108).collect(), &[1, 2, 4]);
    let (keys, values) = a.extend_self(&k, &v, false).unwrap();
    assert_eq!(keys.tensor.data, k.tensor.data);
    assert_eq!(values.tensor.data, v.tensor.data);
    assert!(a.self_kv_cache.is_none());
    a.extend_self(&k, &v, true).unwrap();
    let one = state(vec![9; 4], &[1, 1, 4]);
    let (keys, values) = a.extend_self(&one, &one, true).unwrap();
    assert_eq!(keys.tensor.dims, vec![1, 3, 4]);
    assert_eq!(keys.tensor.data[8..], [9; 4]);
    assert_eq!(values.tensor.data[..8], (100..108).collect::<Vec<i64>>()[..]);
    let other = state(vec![9; 3], &[1, 1, 3]);
    assert!(a.extend_self(&one, &other, true).is_err());
    assert_eq!(a.self_kv_cache.as_ref().unwrap().0.tensor.dims, vec![1, 3, 4]);
}

#[test]
fn keys_across_are_kept_until_flushed() {
    let ck = checkpoint();
    let mut a = attention(&ck);
    assert!(a.cached_cross(false).is_none());
    let k = state((0..8).collect(), &[1, 2, 4]);
    a.keep_cross(&k, &k);
    assert_eq!(a.cached_cross(false).unwrap().0.tensor.data, k.tensor.data);
    assert!(a.self_kv_cache.is_none());
    assert!(a.cached_cross(true).is_none());
    assert!(a.kv_cache.is_none());
    a.keep_cross(&k, &k);
    a.reset_kv_cache();
    assert!(a.kv_cache.is_none());
}

#[test]
fn heads_of_a_state() {
    let ck = checkpoint();
    let a = attention(&ck);
    let x = state((0..8).collect(), &[1, 2, 4]).tensor;
    let heads = a.reshape_head(&x).unwrap();
    assert_eq!(heads.dims, vec![1, 2, 2, 2]);
    assert_eq!(heads.data, vec![0, 1, 4, 5, 2, 3, 6, 7]);
    let odd = state((0..5).collect(), &[1, 1, 5]).tensor;
    assert!(matches!(
        a.reshape_head(&odd).unwrap_err(),
        Error::ShapeMismatchBinaryOp { op: "reshape", .. }
    ));
}

#[test]
fn a_model_forgets() {
    let ck = checkpoint();
    let mut m = load(&ck).unwrap();
    let k = state(vec![0; 4], &[1, 1, 4]);
    m.encoder.blocks[0].attn.keep_cross(&k, &k);
    m.decoder.blocks[1].attn.extend_self(&k, &k, true).unwrap();
    m.decoder.end_step(1);
    m.reset_kv_cache();
    assert!(m.encoder.blocks[0].attn.kv_cache.is_none());
    assert!(m.decoder.blocks[1].attn.self_kv_cache.is_none());
    assert_eq!(m.decoder.cache_len, 0);
}
