//! The encoder, the decoder, and how many positions the decoder has seen.

use crate::arith::{span, window_positions};
use crate::error::{first_of, refusal_of, Error, Refusal, Result};
use crate::models::embedding::{all_rows, embedded, first_beyond, positioned, transposed};
use crate::models::products::{linear, linear_at, rewidened};
use crate::models::whisper::attention::{
    block_of, cached_positions, causal_mask, is_causal, offset_of, ResidualAttentionBlock,
};
use crate::models::whisper::checkpoint::{
    below, conv1d, conv1d_of, found, layer_norm, layer_norm_of, Affine, Checkpoint, VarBuilder,
};
use crate::models::whisper::qkv::is_step;
use crate::shape::copy_dims;
use crate::tensor::{Backend, Element, Tensor};
use crate::text::decimal_text;
use vstd::prelude::*;

verus! {

/// The sizes of a model.
#[derive(Debug, Clone, Copy, PartialEq, Eq, Structural)]
pub struct Config {
    pub num_mel_bins: usize,
    pub max_source_positions: usize,
    pub d_model: usize,
    pub encoder_attention_heads: usize,
    pub encoder_layers: usize,
    pub vocab_size: usize,
    pub max_target_positions: usize,
    pub decoder_attention_heads: usize,
    pub decoder_layers: usize,
}

/// How a convolution moves over its input.
#[derive(Debug, Clone, Copy, PartialEq, Eq, Structural)]
pub struct Conv1dConfig {
    pub padding: usize,
    pub stride: usize,
    pub groups: usize,
    pub dilation: usize,
}

/// The path of a numbered layer.
pub open spec fn layer_path(path: Seq<char>, i: int) -> Seq<char> {
    below(path, "layers."@ + decimal_text(i as nat))
}

/// Why blocks below a path cannot be found: the first of `n`, from `i` on, that cannot.
pub open spec fn blocks_refusal<E>(
    ck: Checkpoint,
    path: Seq<char>,
    n_state: usize,
    n_head: usize,
    ca: bool,
    n: int,
    i: int,
) -> Option<Refusal>
    decreases n - i,
{
    if i >= n {
        None
    } else {
        match block_of::<E>(ck, layer_path(path, i), n_state, n_head, ca) {
            Err(why) => Some(why),
            Ok(_) => blocks_refusal::<E>(ck, path, n_state, n_head, ca, n, i + 1),
        }
    }
}

/// `blocks` are the blocks below a path.
pub open spec fn are_blocks<E>(
    blocks: Seq<ResidualAttentionBlock<E>>,
    ck: Checkpoint,
    path: Seq<char>,
    n_state: usize,
    n_head: usize,
    ca: bool,
    n: int,
) -> bool {
    &&& blocks.len() == n
    &&& forall|i: int|
        0 <= i < n ==> block_of::<E>(ck, layer_path(path, i), n_state, n_head, ca) == Ok::<
            ResidualAttentionBlock<E>,
            Refusal,
        >(#[trigger] blocks[i])
}

/// Finds the blocks below a path.
fn load_blocks<E: Element>(n_state: usize, n_head: usize, ca: bool, n: usize, vb: &VarBuilder) -> (r:
    Result<Vec<ResidualAttentionBlock<E>>>)
    requires
        n_state * 4 <= usize::MAX,
    ensures
        match blocks_refusal::<E>(*vb.ck, vb.path@, n_state, n_head, ca, n as int, 0) {
            Some(why) => r matches Err(e) && why.is(e),
            None => r matches Ok(v) && are_blocks(
                v@,
                *vb.ck,
                vb.path@,
                n_state,
                n_head,
                ca,
                n as int,
            ),
        },
{
    let mut blocks: Vec<ResidualAttentionBlock<E>> = Vec::new();
    let mut i: usize = 0;
    while i < n
        invariant
            i <= n,
            n_state * 4 <= usize::MAX,
            blocks_refusal::<E>(*vb.ck, vb.path@, n_state, n_head, ca, n as int, 0)
                == blocks_refusal::<E>(*vb.ck, vb.path@, n_state, n_head, ca, n as int, i as int),
            are_blocks(blocks@, *vb.ck, vb.path@, n_state, n_head, ca, i as int),
        decreases n - i,
    {
        let place: VarBuilder = vb.layer(i);
        match ResidualAttentionBlock::load(n_state, n_head, ca, &place) {
            Ok(block) => {
                blocks.push(block);
            },
            Err(e) => {
                return Err(e);
            },
        }
        i = i + 1;
    }
    Ok(blocks)
}

/// The encoder of audio: where its weights are in the table.
#[derive(Debug)]
pub struct AudioEncoder<E> {
    pub conv1: Affine,
    pub conv1_config: Conv1dConfig,
    pub conv2: Affine,
    pub conv2_config: Conv1dConfig,
    /// How many positions have an embedding.
    pub n_ctx: usize,
    pub n_state: usize,
    pub blocks: Vec<ResidualAttentionBlock<E>>,
    pub ln_post: Affine,
}

/// Why the convolutions of an encoder cannot be found.
pub open spec fn convs_refusal(ck: Checkpoint, path: Seq<char>, cfg: Config) -> Option<Refusal> {
    first_of(
        refusal_of(conv1d_of(ck, below(path, "conv1"@), cfg.num_mel_bins, cfg.d_model, 3)),
        refusal_of(conv1d_of(ck, below(path, "conv2"@), cfg.d_model, cfg.d_model, 3)),
    )
}

/// Why an encoder cannot be found.
pub open spec fn encoder_refusal<E>(
    ck: Checkpoint,
    path: Seq<char>,
    cfg: Config,
) -> Option<Refusal> {
    first_of(
        convs_refusal(ck, path, cfg),
        first_of(
            blocks_refusal::<E>(
                ck,
                path,
                cfg.d_model,
                cfg.encoder_attention_heads,
                false,
                cfg.encoder_layers as int,
                0,
            ),
            refusal_of(layer_norm_of(ck, below(path, "layer_norm"@), cfg.d_model)),
        ),
    )
}

/// `m` is the encoder below a path.
pub open spec fn is_encoder<E>(
    m: AudioEncoder<E>,
    ck: Checkpoint,
    path: Seq<char>,
    cfg: Config,
) -> bool {
    let (n_state, n_head) = (cfg.d_model, cfg.encoder_attention_heads);
    &&& conv1d_of(ck, below(path, "conv1"@), cfg.num_mel_bins, n_state, 3) == Ok::<
        Affine,
        Refusal,
    >(m.conv1)
    &&& conv1d_of(ck, below(path, "conv2"@), n_state, n_state, 3) == Ok::<Affine, Refusal>(
        m.conv2,
    )
    &&& m.conv1_config == (Conv1dConfig { padding: 1, stride: 1, groups: 1, dilation: 1 })
    &&& m.conv2_config == (Conv1dConfig { padding: 1, stride: 2, groups: 1, dilation: 1 })
    &&& m.n_ctx == cfg.max_source_positions
    &&& m.n_state == n_state
    &&& are_blocks(m.blocks@, ck, path, n_state, n_head, false, cfg.encoder_layers as int)
    &&& layer_norm_of(ck, below(path, "layer_norm"@), n_state) == Ok::<Affine, Refusal>(m.ln_post)
}

/// Both convolutions together halve the length, rounding up: the first keeps it, and the second
/// moves by two.
pub proof fn law_encoder_halves(len: int)
    requires
        1 <= len,
    ensures
        window_positions(len, 1, 1, 3, 1) == len,
        window_positions(window_positions(len, 1, 1, 3, 1), 1, 1, 3, 2) == (len + 1) / 2,
{
}

impl<E: Element> AudioEncoder<E> {
    /// This and another encoder have the same weights and embeddings.
    pub open spec fn same_weights(&self, other: &Self) -> bool {
        &&& self.conv1 == other.conv1
        &&& self.conv1_config == other.conv1_config
        &&& self.conv2 == other.conv2
        &&& self.conv2_config == other.conv2_config
        &&& self.n_ctx == other.n_ctx
        &&& self.n_state == other.n_state
        &&& self.ln_post == other.ln_post
        &&& self.blocks@.len() == other.blocks@.len()
        &&& forall|i: int|
            0 <= i < self.blocks@.len() ==> (#[trigger] self.blocks@[i]).bare()
                == other.blocks@[i].bare()
    }

    /// Finds an encoder.
    pub fn load(vb: &VarBuilder, cfg: &Config) -> (r: Result<Self>)
        requires
            cfg.d_model * 4 <= usize::MAX,
            convs_refusal(*vb.ck, vb.path@, *cfg) is None ==> cfg.d_model >= 2,
        ensures
            match encoder_refusal::<E>(*vb.ck, vb.path@, *cfg) {
                Some(why) => r matches Err(e) && why.is(e),
                None => r matches Ok(m) && is_encoder(m, *vb.ck, vb.path@, *cfg),
            },
    {
        let n_state: usize = cfg.d_model;
        let n_head: usize = cfg.encoder_attention_heads;
        let conv1: Affine = conv1d(cfg.num_mel_bins, n_state, 3, &vb.pp("conv1"))?;
        let conv2: Affine = conv1d(n_state, n_state, 3, &vb.pp("conv2"))?;
        let blocks: Vec<ResidualAttentionBlock<E>> = load_blocks(
            n_state,
            n_head,
            false,
            cfg.encoder_layers,
            vb,
        )?;
        let ln_post: Affine = layer_norm(n_state, &vb.pp("layer_norm"))?;
        Ok(
            AudioEncoder {
                conv1,
                conv1_config: Conv1dConfig { padding: 1, stride: 1, groups: 1, dilation: 1 },
                conv2,
                conv2_config: Conv1dConfig { padding: 1, stride: 2, groups: 1, dilation: 1 },
                n_ctx: cfg.max_source_positions,
                n_state,
                blocks,
                ln_post,
            },
        )
    }

    /// The positions of the convolved audio, `[batch, width, length]`, with the embedding of each
    /// added, `[batch, length, width]`; an error for audio that is longer than there are
    /// embeddings.
    pub fn positioned(&self, x: &Tensor<E>, positions: &Tensor<E>) -> (r: Result<Tensor<E>>)
        requires
            x.wf(),
            positions.wf(),
            positions.dims@ == seq![self.n_ctx, self.n_state],
        ensures
            if x.dims@.len() != 3 {
                r == Err::<Tensor<E>, Error>(
                    Error::UnexpectedNumberOfDims { expected: 3, got: x.dims@.len() as usize },
                )
            } else {
                let (b, width, len) = (x.dims@[0], x.dims@[1], x.dims@[2]);
                if len > self.n_ctx {
                    r matches Err(e) && e.is_out_of_range(positions.dims@, 0, 0, len)
                } else if width != self.n_state {
                    r matches Err(e) && e.is_mismatch(
                        seq![b, len, width],
                        seq![len, self.n_state],
                        "broadcast_add"@,
                    )
                } else {
                    &&& r matches Ok(t)
                    &&& t.wf()
                    &&& t.dims@ == seq![b, len, width]
                    &&& forall|a: int, i: int, c: int|
                        0 <= a < b && 0 <= i < len && 0 <= c < width ==> #[trigger] t.at3(a, i, c)
                            == x.at3(a, c, i).spec_plus(positions.at2(i, c))
                }
            },
    {
        let turned: Tensor<E> = transposed(x)?;
        let r: Tensor<E> = positioned(&turned, positions, 0)?;
        proof {
            let (b, width, len) = (x.dims@[0], x.dims@[1], x.dims@[2]);
            assert forall|a: int, i: int, c: int|
                0 <= a < b && 0 <= i < len && 0 <= c < width implies #[trigger] r.at3(a, i, c)
                == x.at3(a, c, i).spec_plus(positions.at2(i, c)) by {
                assert(turned.at3(a, i, c) == x.at3(a, c, i));
            }
        }
        Ok(r)
    }

    /// Forgets all that is cached.
    pub fn reset_kv_cache(&mut self)
        ensures
            all_bare(final(self).blocks@, old(self).blocks@),
            final(self).same_weights(old(self)),
    {
        reset_blocks(&mut self.blocks);
    }
}

/// `now` are the blocks `before`, with nothing cached.
pub open spec fn all_bare<E: Element>(
    now: Seq<ResidualAttentionBlock<E>>,
    before: Seq<ResidualAttentionBlock<E>>,
) -> bool {
    now == before.map_values(|b: ResidualAttentionBlock<E>| b.bare())
}

/// Forgets all that the blocks cache.
fn reset_blocks<E: Element>(blocks: &mut Vec<ResidualAttentionBlock<E>>)
    ensures
        all_bare(final(blocks)@, old(blocks)@),
{
    let n: usize = blocks.len();
    let mut i: usize = 0;
    while i < n
        invariant
            i <= n,
            n == blocks@.len(),
            n == old(blocks)@.len(),
            forall|j: int| 0 <= j < i ==> #[trigger] blocks@[j] == old(blocks)@[j].bare(),
            forall|j: int| i <= j < n ==> #[trigger] blocks@[j] == old(blocks)@[j],
        decreases n - i,
    {
        blocks[i].reset_kv_cache();
        i = i + 1;
    }
    assert(blocks@ =~= old(blocks)@.map_values(|b: ResidualAttentionBlock<E>| b.bare()));
}

/// The decoder of text: where its weights are in the table, and how many positions its blocks
/// have seen.
#[derive(Debug)]
pub struct TextDecoder<E> {
    pub token_embedding: usize,
    pub positional_embedding: usize,
    pub blocks: Vec<ResidualAttentionBlock<E>>,
    pub ln: Affine,
    /// Which positions may look at which.
    pub mask: Tensor<bool>,
    /// How many positions have an embedding.
    pub n_ctx: usize,
    pub n_state: usize,
    /// How many positions the caches of the blocks hold, which is where the next step starts.
    pub cache_len: usize,
}

/// Why a decoder cannot be found.
pub open spec fn decoder_refusal<E>(
    ck: Checkpoint,
    path: Seq<char>,
    cfg: Config,
) -> Option<Refusal> {
    let n_state = cfg.d_model;
    first_of(
        refusal_of(
            found(ck, below(path, "embed_tokens"@), "weight"@, seq![cfg.vocab_size, n_state]),
        ),
        first_of(
            refusal_of(
                found(
                    ck,
                    path,
                    "embed_positions.weight"@,
                    seq![cfg.max_target_positions, n_state],
                ),
            ),
            first_of(
                blocks_refusal::<E>(
                    ck,
                    path,
                    n_state,
                    cfg.decoder_attention_heads,
                    true,
                    cfg.decoder_layers as int,
                    0,
                ),
                refusal_of(layer_norm_of(ck, below(path, "layer_norm"@), n_state)),
            ),
        ),
    )
}

/// `m` is the decoder below a path, with nothing cached.
pub open spec fn is_decoder<E>(
    m: TextDecoder<E>,
    ck: Checkpoint,
    path: Seq<char>,
    cfg: Config,
) -> bool {
    let (n_state, n_ctx) = (cfg.d_model, cfg.max_target_positions);
    &&& found(ck, below(path, "embed_tokens"@), "weight"@, seq![cfg.vocab_size, n_state]) == Ok::<
        usize,
        Refusal,
    >(m.token_embedding)
    &&& found(ck, path, "embed_positions.weight"@, seq![n_ctx, n_state]) == Ok::<usize, Refusal>(
        m.positional_embedding,
    )
    &&& are_blocks(
        m.blocks@,
        ck,
        path,
        n_state,
        cfg.decoder_attention_heads,
        true,
        cfg.decoder_layers as int,
    )
    &&& layer_norm_of(ck, below(path, "layer_norm"@), n_state) == Ok::<Affine, Refusal>(m.ln)
    &&& is_causal(m.mask, n_ctx)
    &&& m.n_ctx == n_ctx
    &&& m.n_state == n_state
    &&& m.cache_len == 0
}

/// The embedding of the token at `t`, with the embedding of its position added.
pub open spec fn token_at<E: Element>(
    ids: Seq<u32>,
    l: int,
    tokens: Tensor<E>,
    positions: Tensor<E>,
    start: int,
    a: int,
    t: int,
    c: int,
) -> E {
    tokens.at2(ids[a * l + t] as int, c).spec_plus(positions.at2(start + t, c))
}

/// What embedding tokens at the positions from `start` on hands back.
pub open spec fn embedding_outcome<E: Element>(
    r: Result<Tensor<E>>,
    ids: Seq<u32>,
    b: usize,
    l: usize,
    tokens: Tensor<E>,
    positions: Tensor<E>,
    start: usize,
) -> bool {
    if !all_rows(ids, tokens.dims@[0]) {
        r matches Err(e) && exists|i: int| #[trigger]
            first_beyond(ids, tokens.dims@[0], i) && e.is_beyond(
                ids[i] as int,
                tokens.dims@[0],
                "index-select"@,
            )
    } else if start + l > positions.dims@[0] {
        r matches Err(e) && e.is_out_of_range(positions.dims@, 0, start, l)
    } else {
        &&& r matches Ok(x)
        &&& x.wf()
        &&& x.dims@ == seq![b, l, tokens.dims@[1]]
        &&& forall|a: int, t: int, c: int|
            0 <= a < b && 0 <= t < l && 0 <= c < tokens.dims@[1] ==> #[trigger] x.at3(a, t, c)
                == token_at(ids, l as int, tokens, positions, start as int, a, t, c)
    }
}

/// Decoding in steps: the tokens of a step are embedded as they are in the whole sequence.
pub proof fn law_step_embeds_as_the_sequence<E: Element>(
    step: Tensor<E>,
    whole: Tensor<E>,
    ids: Seq<u32>,
    all_ids: Seq<u32>,
    b: usize,
    l: usize,
    len: usize,
    tokens: Tensor<E>,
    positions: Tensor<E>,
    start: usize,
)
    requires
        start + l <= len,
        all_ids.len() == b * len,
        all_rows(all_ids, tokens.dims@[0]),
        forall|a: int, t: int|
            0 <= a < b && 0 <= t < l ==> #[trigger] ids[a * l + t] == all_ids[a * len + (start
                + t)],
        ids.len() == b * l,
        embedding_outcome(Ok(step), ids, b, l, tokens, positions, start),
        embedding_outcome(Ok(whole), all_ids, b, len, tokens, positions, 0),
    ensures
        is_step(step, whole, start as int),
{
    assert forall|a: int, t: int, c: int|
        0 <= a < step.dims@[0] && 0 <= t < step.dims@[1] && 0 <= c
            < step.dims@[2] implies #[trigger] step.at3(a, t, c) == whole.at3(
        a,
        start + t,
        c,
    ) by {
        assert(ids[a * l + t] == all_ids[a * len + (start + t)]);
    }
}

impl<E: Element> TextDecoder<E> {
    /// Every block has seen as many positions as are counted.
    pub open spec fn in_step(&self) -> bool {
        forall|i: int|
            0 <= i < self.blocks@.len() ==> cached_positions(
                (#[trigger] self.blocks@[i]).attn.self_kv_cache,
            ) == self.cache_len
    }

    /// This and another decoder have the same weights, mask and embeddings.
    pub open spec fn same_weights(&self, other: &Self) -> bool {
        &&& self.token_embedding == other.token_embedding
        &&& self.positional_embedding == other.positional_embedding
        &&& self.ln == other.ln
        &&& self.mask == other.mask
        &&& self.n_ctx == other.n_ctx
        &&& self.n_state == other.n_state
        &&& self.blocks@.len() == other.blocks@.len()
        &&& forall|i: int|
            0 <= i < self.blocks@.len() ==> (#[trigger] self.blocks@[i]).bare()
                == other.blocks@[i].bare()
    }

    /// There is a token for each of `l` positions of `b` sequences, and the tables of embeddings
    /// have the decoder's extents.
    pub open spec fn embeds(
        &self,
        ids: Seq<u32>,
        b: usize,
        l: usize,
        tokens: Tensor<E>,
        positions: Tensor<E>,
    ) -> bool {
        &&& ids.len() == b * l
        &&& tokens.wf()
        &&& positions.wf()
        &&& tokens.dims@.len() == 2
        &&& tokens.dims@[1] == self.n_state
        &&& positions.dims@ == seq![self.n_ctx, self.n_state]
        &&& span(seq![b, l, self.n_state]) <= usize::MAX
    }

    /// Finds a decoder, with nothing cached.
    pub fn load(vb: &VarBuilder, cfg: &Config, backend: Backend) -> (r: Result<Self>)
        requires
            cfg.d_model * 4 <= usize::MAX,
            span(seq![cfg.max_target_positions, cfg.max_target_positions]) <= usize::MAX,
        ensures
            match decoder_refusal::<E>(*vb.ck, vb.path@, *cfg) {
                Some(why) => r matches Err(e) && why.is(e),
                None => r matches Ok(m) && is_decoder(m, *vb.ck, vb.path@, *cfg) && m.in_step(),
            },
    {
        let n_state: usize = cfg.d_model;
        let n_head: usize = cfg.decoder_attention_heads;
        let n_ctx: usize = cfg.max_target_positions;
        let dims: Vec<usize> = vec![cfg.vocab_size, n_state];
        assert(dims@ =~= seq![cfg.vocab_size, n_state]);
        let token_embedding: usize = vb.pp("embed_tokens").get(dims.as_slice(), "weight")?;
        let dims: Vec<usize> = vec![n_ctx, n_state];
        assert(dims@ =~= seq![n_ctx, n_state]);
        let positional_embedding: usize = vb.get(dims.as_slice(), "embed_positions.weight")?;
        let blocks: Vec<ResidualAttentionBlock<E>> = load_blocks(
            n_state,
            n_head,
            true,
            cfg.decoder_layers,
            vb,
        )?;
        let ln: Affine = layer_norm(n_state, &vb.pp("layer_norm"))?;
        let mask: Tensor<bool> = causal_mask(n_ctx, backend);
        let r: Self = TextDecoder {
            token_embedding,
            positional_embedding,
            blocks,
            ln,
            mask,
            n_ctx,
            n_state,
            cache_len: 0,
        };
        proof {
            assert forall|i: int| 0 <= i < r.blocks@.len() implies cached_positions(
                (#[trigger] r.blocks@[i]).attn.self_kv_cache,
            ) == 0 by {
                assert(block_of::<E>(
                    *vb.ck,
                    layer_path(vb.path@, i),
                    n_state,
                    n_head,
                    true,
                ) == Ok::<ResidualAttentionBlock<E>, Refusal>(r.blocks@[i]));
            }
        }
        Ok(r)
    }

    /// The embeddings of tokens, `[batch, length, width]`, at the positions from `start` on.
    fn embed_from(
        &self,
        ids: &[u32],
        b: usize,
        l: usize,
        tokens: &Tensor<E>,
        positions: &Tensor<E>,
        start: usize,
    ) -> (r: Result<Tensor<E>>)
        requires
            self.embeds(ids@, b, l, *tokens, *positions),
        ensures
            embedding_outcome(r, ids@, b, l, *tokens, *positions, start),
    {
        let x: Tensor<E> = embedded(ids, b, l, tokens)?;
        let r: Tensor<E> = positioned(&x, positions, start)?;
        proof {
            let width = tokens.dims@[1];
            assert forall|a: int, t: int, c: int|
                0 <= a < b && 0 <= t < l && 0 <= c < width implies #[trigger] r.at3(a, t, c)
                == token_at(ids@, l as int, *tokens, *positions, start as int, a, t, c) by {
                assert(x.at3(a, t, c) == tokens.at2(ids@[a * l + t] as int, c));
            }
        }
        Ok(r)
    }

    /// The embeddings of whole sequences, `[batch, length, width]`; an error for a token that
    /// has none, or for sequences that are longer than there are embeddings of positions.
    pub fn embed(
        &self,
        ids: &[u32],
        b: usize,
        l: usize,
        tokens: &Tensor<E>,
        positions: &Tensor<E>,
    ) -> (r: Result<Tensor<E>>)
        requires
            self.embeds(ids@, b, l, *tokens, *positions),
        ensures
            embedding_outcome(r, ids@, b, l, *tokens, *positions, 0),
    {
        self.embed_from(ids, b, l, tokens, positions, 0)
    }

    /// Starts a step on `l` new positions, and hands out their embeddings, from the position on
    /// that the last step ended at. With `reset` it is the first step of a sequence: all that is
    /// cached is forgotten, so that a new window of audio is not decoded against the one before.
    pub fn begin_step(
        &mut self,
        ids: &[u32],
        b: usize,
        l: usize,
        tokens: &Tensor<E>,
        positions: &Tensor<E>,
        reset: bool,
    ) -> (r: Result<Tensor<E>>)
        requires
            old(self).embeds(ids@, b, l, *tokens, *positions),
        ensures
            final(self).same_weights(old(self)),
            if reset {
                &&& all_bare(final(self).blocks@, old(self).blocks@)
                &&& final(self).cache_len == 0
                &&& final(self).in_step()
            } else {
                *final(self) == *old(self)
            },
            embedding_outcome(r, ids@, b, l, *tokens, *positions, final(self).cache_len),
    {
        if reset {
            self.reset_kv_cache();
        }
        self.embed_from(ids, b, l, tokens, positions, self.cache_len)
    }

    /// The logits of every position, `[batch, length, vocabulary]`: its state times the embedding
    /// of each token.
    pub fn final_linear(&self, x: &Tensor<E>, tokens: &Tensor<E>) -> (r: Result<Tensor<E>>)
        requires
            x.wf(),
            tokens.wf(),
            tokens.dims@.len() == 2,
            x.dims@.len() == 3 ==> span(seq![x.dims@[0], x.dims@[1], tokens.dims@[0]])
                <= usize::MAX,
        ensures
            if x.dims@.len() == 0 {
                r == Err::<Tensor<E>, Error>(Error::DimOutOfRange { dim: 0, rank: 0 })
            } else if x.dims@.len() != 3 || x.dims@[2] != tokens.dims@[1] {
                r matches Err(e) && e.is_mismatch(
                    x.dims@,
                    seq![x.dims@[0], tokens.dims@[1], tokens.dims@[0]],
                    "matmul"@,
                )
            } else {
                &&& r matches Ok(t)
                &&& t.wf()
                &&& t.dims@ == seq![x.dims@[0], x.dims@[1], tokens.dims@[0]]
                &&& forall|a: int, t_: int, o: int|
                    0 <= a < x.dims@[0] && 0 <= t_ < x.dims@[1] && 0 <= o < tokens.dims@[0]
                        ==> #[trigger] t.at3(a, t_, o) == linear_at(
                        *x,
                        *tokens,
                        None,
                        a * x.dims@[1] + t_,
                        o,
                    )
            },
    {
        if x.dims.len() == 0 {
            return Err(Error::DimOutOfRange { dim: 0, rank: 0 });
        }
        if x.dims.len() != 3 || x.dims[2] != tokens.dims[1] {
            let rhs: Vec<usize> = vec![x.dims[0], tokens.dims[1], tokens.dims[0]];
            assert(rhs@ =~= seq![x.dims@[0], tokens.dims@[1], tokens.dims@[0]]);
            return Err(
                Error::ShapeMismatchBinaryOp {
                    lhs: copy_dims(x.dims.as_slice()),
                    rhs,
                    op: "matmul",
                },
            );
        }
        proof {
            assert(rewidened(x.dims@, tokens.dims@[0]) =~= seq![
                x.dims@[0],
                x.dims@[1],
                tokens.dims@[0],
            ]);
        }
        let r: Tensor<E> = linear(x, tokens, None)?;
        proof {
            let (b, l, v) = (x.dims@[0], x.dims@[1], tokens.dims@[0]);
            assert(x.dims@.take(2) =~= seq![b, l]);
            crate::arith::lemma_span_two(b, l);
            assert forall|a: int, t: int, o: int|
                0 <= a < b && 0 <= t < l && 0 <= o < v implies #[trigger] r.at3(a, t, o)
                == linear_at(*x, *tokens, None, a * l + t, o) by {
                crate::arith::lemma_index_bound(a, t, b as int, l as int);
                assert(r.data@[(a * l + t) * v + o] == linear_at(*x, *tokens, None, a * l + t, o));
            }
        }
        Ok(r)
    }

    /// Ends a step on `seq_len` new positions, once all blocks have seen them.
    pub fn end_step(&mut self, seq_len: usize)
        requires
            old(self).cache_len + seq_len <= usize::MAX,
        ensures
            final(self).cache_len == old(self).cache_len + seq_len,
            final(self).blocks == old(self).blocks,
            final(self).same_weights(old(self)),
    {
        self.cache_len = self.cache_len + seq_len;
    }

    /// Forgets all that is cached.
    pub fn reset_kv_cache(&mut self)
        ensures
            all_bare(final(self).blocks@, old(self).blocks@),
            final(self).cache_len == 0,
            final(self).same_weights(old(self)),
            final(self).in_step(),
    {
        reset_blocks(&mut self.blocks);
        self.cache_len = 0;
        proof {
            assert forall|i: int| 0 <= i < self.blocks@.len() implies (#[trigger] self.blocks@[i])
                == old(self).blocks@[i].bare() by {}
        }
    }
}

/// A step in which every block sees the same new positions keeps the blocks and the count in
/// step.
pub proof fn law_step_keeps_in_step<E: Element>(
    before: TextDecoder<E>,
    after: TextDecoder<E>,
    seq_len: int,
)
    requires
        before.in_step(),
        after.blocks@.len() == before.blocks@.len(),
        after.cache_len == before.cache_len + seq_len,
        forall|i: int|
            0 <= i < before.blocks@.len() ==> cached_positions(
                (#[trigger] after.blocks@[i]).attn.self_kv_cache,
            ) == cached_positions(before.blocks@[i].attn.self_kv_cache) + seq_len,
    ensures
        after.in_step(),
{
    assert forall|i: int| 0 <= i < after.blocks@.len() implies cached_positions(
        (#[trigger] after.blocks@[i]).attn.self_kv_cache,
    ) == after.cache_len by {
        assert(cached_positions(before.blocks@[i].attn.self_kv_cache) == before.cache_len);
    }
}

/// The mask of a step is taken from the same position on as the embeddings of its positions.
pub proof fn law_mask_starts_with_the_positions(cache_len: usize, seq_len: usize)
    requires
        cache_len + seq_len <= usize::MAX,
    ensures
        offset_of(seq_len, (cache_len + seq_len) as usize) == Ok::<usize, Refusal>(cache_len),
{
}

/// The whole model.
#[derive(Debug)]
pub struct Whisper<E> {
    pub encoder: AudioEncoder<E>,
    pub decoder: TextDecoder<E>,
    pub config: Config,
}

impl<E: Element> Whisper<E> {
    /// Finds a model in a checkpoint.
    pub fn load(vb: &VarBuilder, config: Config, backend: Backend) -> (r: Result<Self>)
        requires
            config.d_model * 4 <= usize::MAX,
            span(seq![config.max_target_positions, config.max_target_positions]) <= usize::MAX,
            convs_refusal(*vb.ck, below(vb.path@, "model.encoder"@), config) is None
                ==> config.d_model >= 2,
        ensures
            ({
                let (ck, top) = (*vb.ck, vb.path@);
                let (enc, dec) = (below(top, "model.encoder"@), below(top, "model.decoder"@));
                match first_of(
                    encoder_refusal::<E>(ck, enc, config),
                    decoder_refusal::<E>(ck, dec, config),
                ) {
                    Some(why) => r matches Err(e) && why.is(e),
                    None => {
                        &&& r matches Ok(m)
                        &&& is_encoder(m.encoder, ck, enc, config)
                        &&& is_decoder(m.decoder, ck, dec, config)
                        &&& m.decoder.in_step()
                        &&& m.config == config
                    },
                }
            }),
    {
        let encoder: AudioEncoder<E> = AudioEncoder::load(&vb.pp("model.encoder"), &config)?;
        let decoder: TextDecoder<E> = TextDecoder::load(
            &vb.pp("model.decoder"),
            &config,
            backend,
        )?;
        Ok(Whisper { encoder, decoder, config })
    }

    /// Forgets all that is cached.
    pub fn reset_kv_cache(&mut self)
        ensures
            all_bare(final(self).encoder.blocks@, old(self).encoder.blocks@),
            all_bare(final(self).decoder.blocks@, old(self).decoder.blocks@),
            final(self).decoder.cache_len == 0,
            final(self).encoder.same_weights(&old(self).encoder),
            final(self).decoder.same_weights(&old(self).decoder),
            final(self).decoder.in_step(),
            final(self).config == old(self).config,
    {
        self.encoder.reset_kv_cache();
        self.decoder.reset_kv_cache();
    }
}

} // verus!
