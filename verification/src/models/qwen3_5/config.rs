//! The sizes of a model, which the header of a weight file gives.

use crate::dtype::DType;
use crate::error::{first_of, refusal_of, Refusal, Result};
use crate::models::qwen3_5::gguf::{
    architecture, keyed_float, keyed_number, number_or, position, value_of, Content, Value,
};
use vstd::prelude::*;

verus! {

/// The sizes of a model. Floats are given by their bits.
#[derive(Debug, Clone, Copy, PartialEq, Eq, Structural)]
pub struct Config {
    pub num_attention_heads: usize,
    pub num_kv_heads: usize,
    pub head_dim: usize,
    pub num_layers: usize,
    pub hidden_size: usize,
    pub max_position_embeddings: usize,
    pub rms_norm_eps: u32,
    pub rope_freq_base: u32,
    pub rotary_dim: usize,
    pub full_attention_interval: usize,
    pub linear_num_key_heads: usize,
    pub linear_num_value_heads: usize,
    pub linear_key_head_dim: usize,
    pub linear_value_head_dim: usize,
    pub linear_conv_kernel_dim: usize,
    pub num_experts: usize,
    pub num_experts_per_tok: usize,
    pub dtype: DType,
}

/// Why a number cannot be read.
pub open spec fn number_refusal(ct: Content, arch: Seq<char>, key: Seq<char>) -> Option<Refusal> {
    refusal_of(keyed_number(ct, arch, key))
}

/// Why a float cannot be read.
pub open spec fn float_refusal(ct: Content, arch: Seq<char>, key: Seq<char>) -> Option<Refusal> {
    refusal_of(keyed_float(ct, arch, key))
}

/// Why the sizes up to that of the recurrent state cannot be read.
pub open spec fn sizes_refusal(ct: Content, arch: Seq<char>) -> Option<Refusal> {
    let n = |key: Seq<char>| number_refusal(ct, arch, key);
    let f = |key: Seq<char>| float_refusal(ct, arch, key);
    first_of(n("attention.head_count"@),
    first_of(n("attention.head_count_kv"@),
    first_of(n("attention.key_length"@),
    first_of(n("block_count"@),
    first_of(n("embedding_length"@),
    first_of(n("context_length"@),
    first_of(f("attention.layer_norm_rms_epsilon"@),
    first_of(f("rope.freq_base"@),
    first_of(n("full_attention_interval"@),
    first_of(n("ssm.group_count"@),
    first_of(n("ssm.inner_size"@),
    n("ssm.state_size"@))))))))))))
}

/// The element type that a file asks for.
pub open spec fn asked_dtype(ct: Content) -> DType {
    if value_of(ct.metadata@, "general.dtype"@) == Some(Value::U32(0)) {
        DType::F32
    } else {
        DType::F16
    }
}

/// The sizes that a file gives, or why there are none: the first key that cannot be read.
///
/// Files without experts do not say how many there are. The part of a head that is rotated is
/// the whole head where nothing is said.
pub open spec fn config_of(ct: Content) -> core::result::Result<Config, Refusal> {
    match architecture(ct) {
        Err(why) => Err(why),
        Ok(arch) => {
            let n = |key: Seq<char>| keyed_number(ct, arch, key)->Ok_0;
            match first_of(sizes_refusal(ct, arch), number_refusal(ct, arch, "ssm.conv_kernel"@)) {
                Some(why) => Err(why),
                None => Ok(
                    Config {
                        num_attention_heads: n("attention.head_count"@),
                        num_kv_heads: n("attention.head_count_kv"@),
                        head_dim: n("attention.key_length"@),
                        num_layers: n("block_count"@),
                        hidden_size: n("embedding_length"@),
                        max_position_embeddings: n("context_length"@),
                        rms_norm_eps: keyed_float(
                            ct,
                            arch,
                            "attention.layer_norm_rms_epsilon"@,
                        )->Ok_0,
                        rope_freq_base: keyed_float(ct, arch, "rope.freq_base"@)->Ok_0,
                        rotary_dim: number_or(
                            ct,
                            arch,
                            "rope.dimension_count"@,
                            n("attention.key_length"@),
                        ),
                        full_attention_interval: n("full_attention_interval"@),
                        linear_num_key_heads: n("ssm.group_count"@),
                        linear_num_value_heads: (n("ssm.inner_size"@) as int / n(
                            "ssm.state_size"@,
                        ) as int) as usize,
                        linear_key_head_dim: n("ssm.state_size"@),
                        linear_value_head_dim: n("ssm.state_size"@),
                        linear_conv_kernel_dim: n("ssm.conv_kernel"@),
                        num_experts: number_or(ct, arch, "expert_count"@, 0),
                        num_experts_per_tok: number_or(ct, arch, "expert_used_count"@, 0),
                        dtype: asked_dtype(ct),
                    },
                ),
            }
        },
    }
}

/// The number of heads can be worked out: a recurrent state is not empty, where its size is
/// given at all.
pub open spec fn countable_heads(ct: Content) -> bool {
    match architecture(ct) {
        Ok(arch) => sizes_refusal(ct, arch) is None ==> keyed_number(
            ct,
            arch,
            "ssm.state_size"@,
        )->Ok_0 > 0,
        Err(_) => true,
    }
}

impl Config {
    /// Reads the sizes of a model off the header of a file.
    pub fn read(ct: &Content) -> (r: Result<Config>)
        requires
            countable_heads(*ct),
        ensures
            crate::error::agrees(r, config_of(*ct)),
    {
        let arch: String = ct.architecture()?;
        let a: &str = arch.as_str();
        let num_attention_heads: usize = ct.number(a, "attention.head_count")?;
        let num_kv_heads: usize = ct.number(a, "attention.head_count_kv")?;
        let head_dim: usize = ct.number(a, "attention.key_length")?;
        let num_layers: usize = ct.number(a, "block_count")?;
        let hidden_size: usize = ct.number(a, "embedding_length")?;
        let max_position_embeddings: usize = ct.number(a, "context_length")?;
        let rms_norm_eps: u32 = ct.float_bits(a, "attention.layer_norm_rms_epsilon")?;
        let rope_freq_base: u32 = ct.float_bits(a, "rope.freq_base")?;
        let rotary_dim: usize = ct.number_or(a, "rope.dimension_count", head_dim);
        let full_attention_interval: usize = ct.number(a, "full_attention_interval")?;
        let linear_num_key_heads: usize = ct.number(a, "ssm.group_count")?;
        let ssm_inner_size: usize = ct.number(a, "ssm.inner_size")?;
        let linear_key_head_dim: usize = ct.number(a, "ssm.state_size")?;
        let linear_value_head_dim: usize = linear_key_head_dim;
        let linear_num_value_heads: usize = ssm_inner_size / linear_value_head_dim;
        let linear_conv_kernel_dim: usize = ct.number(a, "ssm.conv_kernel")?;
        let num_experts: usize = ct.number_or(a, "expert_count", 0);
        let num_experts_per_tok: usize = ct.number_or(a, "expert_used_count", 0);
        let dtype: DType = match position(&ct.metadata, "general.dtype") {
            Some(i) => match &ct.metadata[i].1 {
                Value::U32(0) => DType::F32,
                _ => DType::F16,
            },
            None => DType::F16,
        };
        Ok(
            Config {
                num_attention_heads,
                num_kv_heads,
                head_dim,
                num_layers,
                hidden_size,
                max_position_embeddings,
                rms_norm_eps,
                rope_freq_base,
                rotary_dim,
                full_attention_interval,
                linear_num_key_heads,
                linear_num_value_heads,
                linear_key_head_dim,
                linear_value_head_dim,
                linear_conv_kernel_dim,
                num_experts,
                num_experts_per_tok,
                dtype,
            },
        )
    }
}

} // verus!
