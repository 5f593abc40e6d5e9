//! A layer: a token mixer, and a feed-forward part.

use crate::error::{agrees, first_of, refusal_of, Error, Refusal, Result};
use crate::models::qwen3_5::attention::{attention_of, countable_attention, AttentionWeights};
use crate::models::qwen3_5::config::Config;
use crate::models::qwen3_5::delta::{delta_of, DeltaDims, GatedDeltaNetWeights};
use crate::models::qwen3_5::ffn::{
    countable_experts, layer_place, missing, mlp_of, moe_of, place, Ffn, MlpWeights, MoeWeights,
};
use crate::models::qwen3_5::gguf::{Content, Gguf};
use crate::models::qwen3_5::moe::MoeModes;
use crate::models::qwen3_5::state::{
    check_delta_state_complete, half_set_text, LayerState, LayerView,
};
use crate::models::state::{append_outcome, copy_maybe, maybe, ConcatKvCache, State};
use crate::tensor::Element;
use crate::text::{decimal_text, push_decimal};
use vstd::prelude::*;
use vstd::string::*;

verus! {

/// How a layer mixes tokens.
#[derive(Debug)]
pub enum TokenMixer<E> {
    FullAttention(AttentionWeights<E>),
    LinearAttention(GatedDeltaNetWeights<E>),
}

/// A layer: where its weights are in the table, and what it carries along.
#[derive(Debug)]
pub struct LayerWeights<E> {
    pub token_mixer: TokenMixer<E>,
    pub mlp: Ffn,
    pub input_layernorm: usize,
    pub post_attention_layernorm: usize,
}

/// A layer attends fully: every layer whose number, from one on, is a multiple of the interval.
/// With an interval of zero there is none.
pub open spec fn attends_fully(layer: usize, interval: usize) -> bool {
    interval != 0 && (layer + 1) % interval as int == 0
}

impl Config {
    /// The extents of a gated delta network.
    pub open spec fn delta_dims(self) -> DeltaDims {
        DeltaDims {
            num_v_heads: self.linear_num_value_heads,
            num_k_heads: self.linear_num_key_heads,
            head_k_dim: self.linear_key_head_dim,
            head_v_dim: self.linear_value_head_dim,
            conv_kernel_size: self.linear_conv_kernel_dim,
        }
    }
}

/// How a layer of a file mixes tokens, or why that cannot be found.
pub open spec fn mixer_of<E>(ct: Content, layer: usize, cfg: Config) -> core::result::Result<
    TokenMixer<E>,
    Refusal,
> {
    if attends_fully(layer, cfg.full_attention_interval) {
        match attention_of(ct, layer, cfg.head_dim) {
            Ok(attn) => Ok(TokenMixer::FullAttention(attn)),
            Err(why) => Err(why),
        }
    } else {
        match delta_of(ct, layer, cfg.delta_dims()) {
            Ok(attn) => Ok(TokenMixer::LinearAttention(attn)),
            Err(why) => Err(why),
        }
    }
}

/// The feed-forward part of a layer of a file, or why it cannot be found: a mixture of experts
/// in every layer, where there are experts at all.
pub open spec fn ffn_of(
    ct: Content,
    layer: usize,
    cfg: Config,
    modes: MoeModes,
) -> core::result::Result<Ffn, Refusal> {
    if cfg.num_experts > 0 {
        match moe_of(ct, layer, cfg.num_experts_per_tok, modes) {
            Ok(moe) => Ok(Ffn::Moe(moe)),
            Err(why) => Err(why),
        }
    } else {
        match mlp_of(ct, layer) {
            Ok(mlp) => Ok(Ffn::Dense(mlp)),
            Err(why) => Err(why),
        }
    }
}

/// A layer of a file, or why it cannot be found.
pub open spec fn layer_of<E>(
    ct: Content,
    layer: usize,
    cfg: Config,
    modes: MoeModes,
) -> core::result::Result<LayerWeights<E>, Refusal> {
    match first_of(
        refusal_of(mixer_of::<E>(ct, layer, cfg)),
        first_of(
            refusal_of(ffn_of(ct, layer, cfg, modes)),
            first_of(
                missing(ct, layer, "attn_norm.weight"@),
                missing(ct, layer, "post_attention_norm.weight"@),
            ),
        ),
    ) {
        Some(why) => Err(why),
        None => Ok(
            LayerWeights {
                token_mixer: mixer_of(ct, layer, cfg)->Ok_0,
                mlp: ffn_of(ct, layer, cfg, modes)->Ok_0,
                input_layernorm: place(ct, layer, "attn_norm.weight"@),
                post_attention_layernorm: place(ct, layer, "post_attention_norm.weight"@),
            },
        ),
    }
}

/// The extents of a layer can be worked out.
pub open spec fn countable_layer<E>(ct: Content, layer: usize, cfg: Config) -> bool {
    &&& layer < usize::MAX
    &&& if attends_fully(layer, cfg.full_attention_interval) {
        countable_attention(ct, layer, cfg.head_dim)
    } else {
        cfg.delta_dims().conv_dim() <= usize::MAX
    }
    &&& mixer_of::<E>(ct, layer, cfg) is Ok && cfg.num_experts > 0 ==> countable_experts(ct, layer)
}

/// What becomes of what a layer carries along when a state is put in its place, or why it is
/// turned down: a state of the other kind, or half a delta state. Keys without values are as good
/// as none.
pub open spec fn installed<E>(
    held: LayerView<E>,
    state: LayerView<E>,
    layer: usize,
) -> core::result::Result<LayerView<E>, Refusal> {
    match (held, state) {
        (LayerView::Kv { .. }, LayerView::Kv { k, v }) => if k is Some && v is Some {
            Ok(state)
        } else {
            Ok(LayerView::Kv { k: None, v: None })
        },
        (LayerView::Delta { .. }, LayerView::Delta { conv, recurrent }) => if conv is Some
            == recurrent is Some {
            Ok(state)
        } else {
            Err(Refusal::Says(half_set_text(layer, conv is Some, recurrent is Some)))
        },
        _ => Err(
            Refusal::Says(
                "layer "@ + decimal_text(layer as nat)
                    + ": state kind does not match the model's layer kind"@,
            ),
        ),
    }
}

/// A state that is whole is taken as it is by a layer of its kind, so that what is read off a
/// layer can be put back.
pub proof fn law_state_put_back<E>(held: LayerView<E>, state: LayerView<E>, layer: usize)
    requires
        state.complete(),
        state is Kv == held is Kv,
    ensures
        installed(held, state, layer) == Ok::<LayerView<E>, Refusal>(state),
{
}

/// Whatever state is put into a layer, what it carries along is whole afterwards.
pub proof fn law_installed_is_complete<E>(held: LayerView<E>, state: LayerView<E>, layer: usize)
    requires
        installed(held, state, layer) is Ok,
    ensures
        (installed(held, state, layer)->Ok_0).complete(),
        installed(held, state, layer)->Ok_0 is Kv == held is Kv,
{
}

impl<E: Element> LayerWeights<E> {
    /// The weights and extents, with nothing carried along.
    pub open spec fn bare(self) -> LayerWeights<E> {
        LayerWeights {
            token_mixer: match self.token_mixer {
                TokenMixer::FullAttention(attn) => TokenMixer::FullAttention(attn.bare()),
                TokenMixer::LinearAttention(attn) => TokenMixer::LinearAttention(attn.bare()),
            },
            ..self
        }
    }

    /// What is carried along.
    pub open spec fn carried(&self) -> LayerView<E> {
        match self.token_mixer {
            TokenMixer::FullAttention(attn) => LayerView::Kv {
                k: maybe(attn.kv_cache.k),
                v: maybe(attn.kv_cache.v),
            },
            TokenMixer::LinearAttention(attn) => LayerView::Delta {
                conv: maybe(attn.conv_state),
                recurrent: maybe(attn.recurrent_state),
            },
        }
    }

    /// What is carried along is well formed.
    pub open spec fn wf(&self) -> bool {
        match self.token_mixer {
            TokenMixer::FullAttention(attn) => attn.kv_cache.wf() && attn.kv_cache.dim == 2,
            TokenMixer::LinearAttention(attn) => attn.wf(),
        }
    }

    /// Finds a layer, with nothing carried along.
    pub fn new(gg: &Gguf, layer_idx: usize, cfg: &Config, moe_modes: MoeModes) -> (r: Result<Self>)
        requires
            countable_layer::<E>(*gg.ct, layer_idx, *cfg),
        ensures
            agrees(r, layer_of(*gg.ct, layer_idx, *cfg, moe_modes)),
    {
        let is_full_attention: bool = cfg.full_attention_interval != 0 && (layer_idx + 1)
            % cfg.full_attention_interval == 0;
        let token_mixer: TokenMixer<E> = if is_full_attention {
            TokenMixer::FullAttention(AttentionWeights::new(gg, layer_idx, cfg.head_dim)?)
        } else {
            let dims: DeltaDims = DeltaDims {
                num_v_heads: cfg.linear_num_value_heads,
                num_k_heads: cfg.linear_num_key_heads,
                head_k_dim: cfg.linear_key_head_dim,
                head_v_dim: cfg.linear_value_head_dim,
                conv_kernel_size: cfg.linear_conv_kernel_dim,
            };
            TokenMixer::LinearAttention(GatedDeltaNetWeights::new(gg, layer_idx, dims)?)
        };
        let mlp: Ffn = if cfg.num_experts > 0 {
            Ffn::Moe(MoeWeights::new(gg, layer_idx, cfg.num_experts_per_tok, moe_modes)?)
        } else {
            Ffn::Dense(MlpWeights::new(gg, layer_idx)?)
        };
        let input_layernorm: usize = layer_place(gg, layer_idx, "attn_norm.weight")?;
        let post_attention_layernorm: usize = layer_place(
            gg,
            layer_idx,
            "post_attention_norm.weight",
        )?;
        Ok(LayerWeights { token_mixer, mlp, input_layernorm, post_attention_layernorm })
    }

    /// Forgets all tokens.
    pub fn clear_kv_cache(&mut self)
        ensures
            final(self).bare() == old(self).bare(),
            final(self).carried() == old(self).carried().cleared(),
            old(self).wf() ==> final(self).wf(),
    {
        match &mut self.token_mixer {
            TokenMixer::FullAttention(attn) => attn.clear_kv_cache(),
            TokenMixer::LinearAttention(attn) => attn.clear_kv_cache(),
        }
    }

    /// A copy of what is carried along.
    pub fn state(&self) -> (r: LayerState<E>)
        requires
            self.wf(),
        ensures
            r@ == self.carried(),
            r.wf(),
    {
        match &self.token_mixer {
            TokenMixer::FullAttention(attn) => LayerState::Kv {
                k: copy_maybe(&attn.kv_cache.k),
                v: copy_maybe(&attn.kv_cache.v),
            },
            TokenMixer::LinearAttention(attn) => LayerState::Delta {
                conv: copy_maybe(&attn.conv_state),
                recurrent: copy_maybe(&attn.recurrent_state),
            },
        }
    }

    /// Puts a state in the place of what is carried along.
    pub fn set_state(&mut self, i: usize, state: &LayerState<E>) -> (r: Result<()>)
        requires
            old(self).wf(),
            state.wf(),
        ensures
            final(self).bare() == old(self).bare(),
            final(self).wf(),
            match installed(old(self).carried(), state@, i) {
                Ok(now) => r is Ok && final(self).carried() == now,
                Err(why) => r matches Err(e) && why.is(e) && *final(self) == *old(self),
            },
    {
        match (&mut self.token_mixer, state) {
            (TokenMixer::FullAttention(attn), LayerState::Kv { k, v }) => {
                attn.kv_cache.reset();
                if let (Some(k), Some(v)) = (k, v) {
                    attn.kv_cache.k = Some(k.copy());
                    attn.kv_cache.v = Some(v.copy());
                }
                Ok(())
            },
            (TokenMixer::LinearAttention(attn), LayerState::Delta { conv, recurrent }) => {
                check_delta_state_complete(i, conv, recurrent)?;
                attn.conv_state = copy_maybe(conv);
                attn.recurrent_state = copy_maybe(recurrent);
                Ok(())
            },
            _ => {
                let mut text: String = "layer ".to_owned();
                push_decimal(&mut text, i);
                text.append(": state kind does not match the model's layer kind");
                Err(Error::Msg(text))
            },
        }
    }
}

/// A layer that was just loaded carries nothing along, as one that was made to forget does.
pub proof fn law_loaded_layer_is_clear<E: Element>(
    ct: Content,
    layer: usize,
    cfg: Config,
    modes: MoeModes,
)
    requires
        layer_of::<E>(ct, layer, cfg, modes) is Ok,
    ensures
        ({
            let loaded = layer_of::<E>(ct, layer, cfg, modes)->Ok_0;
            &&& loaded.carried() == loaded.carried().cleared()
            &&& loaded.carried() is Kv == attends_fully(layer, cfg.full_attention_interval)
            &&& loaded.bare() == loaded
        }),
{
}

/// What a layer carries along as keys are the keys that its attention has grown, and what it carries
/// along as values are the values: a state that is read off a layer after its first tokens holds the
/// tokens' own keys and values.
pub proof fn law_carried_keys_are_the_keys<E: Element>(
    l: LayerWeights<E>,
    before: ConcatKvCache<E>,
    k: State<E>,
    v: State<E>,
)
    requires
        l.token_mixer matches TokenMixer::FullAttention(a) && append_outcome(
            Ok(()),
            before,
            a.kv_cache,
            k,
            v,
        ),
        before.k is None,
        before.v is None,
    ensures
        l.carried() matches LayerView::Kv { k: keys, v: values } && keys == Some(k@) && values
            == Some(v@),
{
}

/// What a layer carries along of a delta network are its window and its recurrent state.
pub proof fn law_carried_delta_is_the_state<E: Element>(
    l: LayerWeights<E>,
    conv: State<E>,
    recurrent: State<E>,
)
    requires
        l.token_mixer matches TokenMixer::LinearAttention(d) && d.conv_state == Some(conv)
            && d.recurrent_state == Some(recurrent),
    ensures
        l.carried() matches LayerView::Delta { conv: c, recurrent: s } && c == Some(conv@) && s
            == Some(recurrent@),
{
}

} // verus!
