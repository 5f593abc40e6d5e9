//! Which tensors of a checkpoint a loaded model holds, by their names and extents.

use crate::models::whisper::attention::{
    attention_of, block_of, MultiHeadAttention, ResidualAttentionBlock,
};
use crate::models::whisper::checkpoint::{
    affine_of, first_at, found, linear_of, Affine, Checkpoint, Linear,
};
use crate::models::whisper::model::{is_decoder, is_encoder, AudioEncoder, Config, TextDecoder};
use crate::text::decimal_text;
use vstd::prelude::*;

verus! {

/// A name under a path: the two with a dot between them, or the name alone where there is no path.
pub open spec fn under(path: Seq<char>, name: Seq<char>) -> Seq<char> {
    if path == Seq::<char>::empty() {
        name
    } else {
        path + "."@ + name
    }
}

/// Entry `i` of the table is the tensor of that name, the first one where there are more, and has
/// these extents.
pub open spec fn is_tensor(ck: Checkpoint, i: usize, name: Seq<char>, dims: Seq<usize>) -> bool {
    &&& i < ck.tensors@.len()
    &&& ck.tensors@[i as int].0@ == name
    &&& ck.tensors@[i as int].1@ == dims
    &&& forall|j: int| 0 <= j < i ==> (#[trigger] ck.tensors@[j]).0@ != name
}

/// What is found is the first of its name, and nothing is found only where nothing has it.
proof fn lemma_first_at(s: Seq<(String, Vec<usize>)>, name: Seq<char>, i: int)
    requires
        0 <= i,
    ensures
        match first_at(s, name, i) {
            Some(j) => i <= j < s.len() && s[j].0@ == name && forall|m: int|
                i <= m < j ==> (#[trigger] s[m]).0@ != name,
            None => forall|m: int| i <= m < s.len() ==> (#[trigger] s[m]).0@ != name,
        },
    decreases s.len() - i,
{
    if i < s.len() {
        lemma_first_at(s, name, i + 1);
    }
}

/// Looking a tensor up gives the place of the tensor of that name and those extents, and fails where
/// the first of that name has others or there is none.
pub proof fn law_lookup_by_name(ck: Checkpoint, path: Seq<char>, name: Seq<char>, dims: Seq<usize>)
    ensures
        found(ck, path, name, dims) matches Ok(i) ==> is_tensor(ck, i, under(path, name), dims),
        found(ck, path, name, dims) is Err ==> forall|i: usize|
            !is_tensor(ck, i, under(path, name), dims),
{
    let s = ck.tensors@;
    let full = under(path, name);
    assert(ck.tensors.len() == s.len());
    assert(path.len() == 0 ==> path =~= Seq::<char>::empty());
    lemma_first_at(s, full, 0);
    if found(ck, path, name, dims) is Err {
        assert forall|i: usize| !is_tensor(ck, i, full, dims) by {
            if is_tensor(ck, i, full, dims) {
                match first_at(s, full, 0) {
                    Some(j) => {
                        if j < i {
                            assert(s[j].0@ != full);
                        }
                        if i < j {
                            assert(s[i as int].0@ != full);
                        }
                    },
                    None => {
                        assert(s[i as int].0@ != full);
                    },
                }
            }
        }
    }
}

/// `l` holds a linear map under a path: weights of as many rows as outputs, and a bias where there
/// has to be one.
pub open spec fn holds_linear(
    ck: Checkpoint,
    path: Seq<char>,
    inputs: usize,
    outs: usize,
    biased: bool,
    l: Linear,
) -> bool {
    &&& is_tensor(ck, l.weight, under(path, "weight"@), seq![outs, inputs])
    &&& match l.bias {
        Some(b) => biased && is_tensor(ck, b, under(path, "bias"@), seq![outs]),
        None => !biased,
    }
}

/// `a` holds weights and a bias under a path.
pub open spec fn holds_affine(
    ck: Checkpoint,
    path: Seq<char>,
    weight: Seq<usize>,
    bias: usize,
    a: Affine,
) -> bool {
    &&& is_tensor(ck, a.weight, under(path, "weight"@), weight)
    &&& is_tensor(ck, a.bias, under(path, "bias"@), seq![bias])
}

/// `m` holds attention under a path: four square maps, each by its own name, of which the keys' alone
/// has no bias. Nothing is cached.
pub open spec fn holds_attention<E>(
    ck: Checkpoint,
    path: Seq<char>,
    n: usize,
    n_head: usize,
    m: MultiHeadAttention<E>,
) -> bool {
    &&& holds_linear(ck, under(path, "q_proj"@), n, n, true, m.query)
    &&& holds_linear(ck, under(path, "k_proj"@), n, n, false, m.key)
    &&& holds_linear(ck, under(path, "v_proj"@), n, n, true, m.value)
    &&& holds_linear(ck, under(path, "out_proj"@), n, n, true, m.out)
    &&& m.n_head == n_head
    &&& m.kv_cache is None && m.self_kv_cache is None
}

/// `b` holds a block under a path: attention to itself, attention across where it is a decoder's, and
/// a network that is four times as wide inside, each with its own norm.
pub open spec fn holds_block<E>(
    ck: Checkpoint,
    path: Seq<char>,
    n: usize,
    n_head: usize,
    across: bool,
    b: ResidualAttentionBlock<E>,
) -> bool {
    let wide = (4 * n) as usize;
    &&& holds_attention(ck, under(path, "self_attn"@), n, n_head, b.attn)
    &&& holds_affine(ck, under(path, "self_attn_layer_norm"@), seq![n], n, b.attn_ln)
    &&& match b.cross_attn {
        Some(c) => {
            &&& across
            &&& holds_attention(ck, under(path, "encoder_attn"@), n, n_head, c.0)
            &&& holds_affine(ck, under(path, "encoder_attn_layer_norm"@), seq![n], n, c.1)
        },
        None => !across,
    }
    &&& holds_linear(ck, under(path, "fc1"@), n, wide, true, b.mlp_linear1)
    &&& holds_linear(ck, under(path, "fc2"@), wide, n, true, b.mlp_linear2)
    &&& holds_affine(ck, under(path, "final_layer_norm"@), seq![n], n, b.mlp_ln)
}

/// A linear map that is found is held by its names.
proof fn lemma_linear(ck: Checkpoint, path: Seq<char>, inputs: usize, outs: usize, biased: bool)
    ensures
        linear_of(ck, path, inputs, outs, biased) matches Ok(l) ==> holds_linear(
            ck,
            path,
            inputs,
            outs,
            biased,
            l,
        ),
{
    law_lookup_by_name(ck, path, "weight"@, seq![outs, inputs]);
    law_lookup_by_name(ck, path, "bias"@, seq![outs]);
}

/// Weights and a bias that are found are held by their names.
proof fn lemma_affine(ck: Checkpoint, path: Seq<char>, weight: Seq<usize>, bias: usize)
    ensures
        affine_of(ck, path, weight, seq![bias]) matches Ok(a) ==> holds_affine(
            ck,
            path,
            weight,
            bias,
            a,
        ),
{
    law_lookup_by_name(ck, path, "weight"@, weight);
    law_lookup_by_name(ck, path, "bias"@, seq![bias]);
}

/// A path with a name under it is the same, however it is put together.
proof fn lemma_under(path: Seq<char>, name: Seq<char>)
    ensures
        crate::models::whisper::checkpoint::below(path, name) == under(path, name),
{
    assert(path.len() == 0 ==> path =~= Seq::<char>::empty());
}

/// Attention that is found holds each of its maps by its name.
pub proof fn law_attention_by_name<E>(ck: Checkpoint, path: Seq<char>, n: usize, n_head: usize)
    ensures
        attention_of::<E>(ck, path, n, n_head) matches Ok(m) ==> holds_attention(
            ck,
            path,
            n,
            n_head,
            m,
        ),
{
    lemma_under(path, "q_proj"@);
    lemma_under(path, "k_proj"@);
    lemma_under(path, "v_proj"@);
    lemma_under(path, "out_proj"@);
    lemma_linear(ck, under(path, "q_proj"@), n, n, true);
    lemma_linear(ck, under(path, "k_proj"@), n, n, false);
    lemma_linear(ck, under(path, "v_proj"@), n, n, true);
    lemma_linear(ck, under(path, "out_proj"@), n, n, true);
}

/// A block that is found holds each of its parts by its name.
pub proof fn law_block_by_name<E>(
    ck: Checkpoint,
    path: Seq<char>,
    n: usize,
    n_head: usize,
    across: bool,
)
    requires
        4 * n <= usize::MAX,
    ensures
        block_of::<E>(ck, path, n, n_head, across) matches Ok(b) ==> holds_block(
            ck,
            path,
            n,
            n_head,
            across,
            b,
        ),
{
    let wide = (4 * n) as usize;
    lemma_under(path, "self_attn"@);
    lemma_under(path, "self_attn_layer_norm"@);
    lemma_under(path, "encoder_attn"@);
    lemma_under(path, "encoder_attn_layer_norm"@);
    lemma_under(path, "fc1"@);
    lemma_under(path, "fc2"@);
    lemma_under(path, "final_layer_norm"@);
    law_attention_by_name::<E>(ck, under(path, "self_attn"@), n, n_head);
    law_attention_by_name::<E>(ck, under(path, "encoder_attn"@), n, n_head);
    lemma_affine(ck, under(path, "self_attn_layer_norm"@), seq![n], n);
    lemma_affine(ck, under(path, "encoder_attn_layer_norm"@), seq![n], n);
    lemma_affine(ck, under(path, "final_layer_norm"@), seq![n], n);
    lemma_linear(ck, under(path, "fc1"@), n, wide, true);
    lemma_linear(ck, under(path, "fc2"@), wide, n, true);
}

/// The path of a numbered layer.
pub open spec fn layer_under(path: Seq<char>, i: int) -> Seq<char> {
    under(path, "layers."@ + decimal_text(i as nat))
}

/// An encoder that is found holds each of its parts by its name: two convolutions of three taps, of
/// which the first takes the bins of the spectrum and the second moves by two, as many blocks without
/// attention across as there have to be, numbered from zero, and a last norm.
pub proof fn law_encoder_by_name<E>(
    m: AudioEncoder<E>,
    ck: Checkpoint,
    path: Seq<char>,
    cfg: Config,
)
    requires
        is_encoder(m, ck, path, cfg),
        4 * cfg.d_model <= usize::MAX,
    ensures
        ({
            let n = cfg.d_model;
            &&& holds_affine(ck, under(path, "conv1"@), seq![n, cfg.num_mel_bins, 3usize], n, m.conv1)
            &&& holds_affine(ck, under(path, "conv2"@), seq![n, n, 3usize], n, m.conv2)
            &&& m.conv1_config.stride == 1 && m.conv2_config.stride == 2
            &&& m.conv1_config.padding == 1 && m.conv2_config.padding == 1
            &&& m.conv1_config.groups == 1 && m.conv2_config.groups == 1
            &&& m.conv1_config.dilation == 1 && m.conv2_config.dilation == 1
            &&& m.n_ctx == cfg.max_source_positions
            &&& m.n_state == n
            &&& m.blocks@.len() == cfg.encoder_layers
            &&& forall|i: int|
                0 <= i < m.blocks@.len() ==> holds_block(
                    ck,
                    layer_under(path, i),
                    n,
                    cfg.encoder_attention_heads,
                    false,
                    #[trigger] m.blocks@[i],
                )
            &&& holds_affine(ck, under(path, "layer_norm"@), seq![n], n, m.ln_post)
        }),
{
    let n = cfg.d_model;
    lemma_under(path, "conv1"@);
    lemma_under(path, "conv2"@);
    lemma_under(path, "layer_norm"@);
    lemma_affine(ck, under(path, "conv1"@), seq![n, cfg.num_mel_bins, 3usize], n);
    lemma_affine(ck, under(path, "conv2"@), seq![n, n, 3usize], n);
    lemma_affine(ck, under(path, "layer_norm"@), seq![n], n);
    assert forall|i: int| 0 <= i < m.blocks@.len() implies holds_block(
        ck,
        layer_under(path, i),
        n,
        cfg.encoder_attention_heads,
        false,
        #[trigger] m.blocks@[i],
    ) by {
        lemma_under(path, "layers."@ + decimal_text(i as nat));
        law_block_by_name::<E>(
            ck,
            layer_under(path, i),
            n,
            cfg.encoder_attention_heads,
            false,
        );
    }
}

/// A decoder that is found holds each of its parts by its name: an embedding for every token and one
/// for every position, as many blocks with attention across as there have to be, numbered from zero,
/// and a last norm.
pub proof fn law_decoder_by_name<E>(
    m: TextDecoder<E>,
    ck: Checkpoint,
    path: Seq<char>,
    cfg: Config,
)
    requires
        is_decoder(m, ck, path, cfg),
        4 * cfg.d_model <= usize::MAX,
    ensures
        ({
            let n = cfg.d_model;
            &&& is_tensor(
                ck,
                m.token_embedding,
                under(under(path, "embed_tokens"@), "weight"@),
                seq![cfg.vocab_size, n],
            )
            &&& is_tensor(
                ck,
                m.positional_embedding,
                under(path, "embed_positions.weight"@),
                seq![cfg.max_target_positions, n],
            )
            &&& m.n_ctx == cfg.max_target_positions
            &&& m.n_state == n
            &&& m.cache_len == 0
            &&& m.blocks@.len() == cfg.decoder_layers
            &&& forall|i: int|
                0 <= i < m.blocks@.len() ==> holds_block(
                    ck,
                    layer_under(path, i),
                    n,
                    cfg.decoder_attention_heads,
                    true,
                    #[trigger] m.blocks@[i],
                )
            &&& holds_affine(ck, under(path, "layer_norm"@), seq![n], n, m.ln)
        }),
{
    let n = cfg.d_model;
    lemma_under(path, "embed_tokens"@);
    lemma_under(path, "layer_norm"@);
    law_lookup_by_name(
        ck,
        under(path, "embed_tokens"@),
        "weight"@,
        seq![cfg.vocab_size, n],
    );
    law_lookup_by_name(
        ck,
        path,
        "embed_positions.weight"@,
        seq![cfg.max_target_positions, n],
    );
    lemma_affine(ck, under(path, "layer_norm"@), seq![n], n);
    assert forall|i: int| 0 <= i < m.blocks@.len() implies holds_block(
        ck,
        layer_under(path, i),
        n,
        cfg.decoder_attention_heads,
        true,
        #[trigger] m.blocks@[i],
    ) by {
        lemma_under(path, "layers."@ + decimal_text(i as nat));
        law_block_by_name::<E>(ck, layer_under(path, i), n, cfg.decoder_attention_heads, true);
    }
}

} // verus!
