//! Which tensors of a file a loaded model holds, by their names.
//!
//! The table of a file names the tensors of layer `i` after the layer and after what they are for.
//! A loaded model holds places in that table.

use crate::models::qwen3_5::attention::{attention_of, AttentionWeights};
use crate::models::qwen3_5::config::{config_of, Config};
use crate::models::qwen3_5::delta::{delta_of, GatedDeltaNetWeights};
use crate::models::qwen3_5::ffn::{
    mlp_of, moe_of, stack_of, ExpertStack, Ffn, MlpWeights, MoeWeights,
};
use crate::models::qwen3_5::gguf::{
    architecture, first_entry, keyed_float, keyed_number, tensor_at, value_of, Content, Value,
};
use crate::models::qwen3_5::layer::{LayerWeights, TokenMixer};
use crate::models::qwen3_5::model::{model_outcome, ModelWeights};
use crate::models::qwen3_5::moe::MoeModes;
use crate::text::decimal_text;
use vstd::prelude::*;

verus! {

/// The name of a tensor of a layer: the block, its number, and what the tensor is for.
pub open spec fn block_tensor(layer: int, role: Seq<char>) -> Seq<char> {
    "blk."@ + decimal_text(layer as nat) + "."@ + role
}

/// Entry `i` of the table is the tensor of that name: the first one, where there are more.
pub open spec fn is_tensor(ct: Content, i: usize, name: Seq<char>) -> bool {
    &&& i < ct.tensor_infos@.len()
    &&& ct.tensor_infos@[i as int].0@ == name
    &&& forall|j: int| 0 <= j < i ==> (#[trigger] ct.tensor_infos@[j]).0@ != name
}

/// The table has a tensor of that name.
pub open spec fn has_tensor(ct: Content, name: Seq<char>) -> bool {
    exists|j: int| 0 <= j < ct.tensor_infos@.len() && (#[trigger] ct.tensor_infos@[j]).0@ == name
}

/// What is found is the first of its name, and nothing is found only where nothing has it.
proof fn lemma_found<T>(s: Seq<(String, T)>, name: Seq<char>, i: int)
    requires
        0 <= i,
    ensures
        match first_entry(s, name, i) {
            Some(j) => i <= j < s.len() && s[j].0@ == name && forall|m: int|
                i <= m < j ==> (#[trigger] s[m]).0@ != name,
            None => forall|m: int| i <= m < s.len() ==> (#[trigger] s[m]).0@ != name,
        },
    decreases s.len() - i,
{
    if i < s.len() {
        lemma_found(s, name, i + 1);
    }
}

/// Looking a tensor up gives the place of the tensor of that name, and fails where there is none.
pub proof fn law_lookup_by_name(ct: Content, name: Seq<char>)
    ensures
        tensor_at(ct, name) matches Ok(i) ==> is_tensor(ct, i, name),
        tensor_at(ct, name) is Ok <==> has_tensor(ct, name),
{
    lemma_found(ct.tensor_infos@, name, 0);
    let s = ct.tensor_infos@;
    assert(ct.tensor_infos.len() == s.len());
    match first_entry(s, name, 0) {
        Some(j) => {
            assert(s[j].0@ == name);
        },
        None => {},
    }
}

/// `a` holds the tensors of full attention of a layer, each for what its name says.
pub open spec fn holds_attention<E>(ct: Content, layer: int, a: AttentionWeights<E>) -> bool {
    &&& is_tensor(ct, a.q_proj, block_tensor(layer, "attn_q.weight"@))
    &&& is_tensor(ct, a.k_proj, block_tensor(layer, "attn_k.weight"@))
    &&& is_tensor(ct, a.v_proj, block_tensor(layer, "attn_v.weight"@))
    &&& is_tensor(ct, a.o_proj, block_tensor(layer, "attn_output.weight"@))
    &&& is_tensor(ct, a.q_norm, block_tensor(layer, "attn_q_norm.weight"@))
    &&& is_tensor(ct, a.k_norm, block_tensor(layer, "attn_k_norm.weight"@))
}

/// `d` holds the tensors of the gated delta network of a layer, each for what its name says.
pub open spec fn holds_delta<E>(ct: Content, layer: int, d: GatedDeltaNetWeights<E>) -> bool {
    &&& is_tensor(ct, d.in_proj_qkv, block_tensor(layer, "attn_qkv.weight"@))
    &&& is_tensor(ct, d.in_proj_z, block_tensor(layer, "attn_gate.weight"@))
    &&& is_tensor(ct, d.in_proj_b, block_tensor(layer, "ssm_beta.weight"@))
    &&& is_tensor(ct, d.in_proj_a, block_tensor(layer, "ssm_alpha.weight"@))
    &&& is_tensor(ct, d.out_proj, block_tensor(layer, "ssm_out.weight"@))
    &&& is_tensor(ct, d.conv1d_weight, block_tensor(layer, "ssm_conv1d.weight"@))
    &&& is_tensor(ct, d.neg_a, block_tensor(layer, "ssm_a"@))
    &&& is_tensor(ct, d.dt_bias, block_tensor(layer, "ssm_dt.bias"@))
    &&& is_tensor(ct, d.norm_weight, block_tensor(layer, "ssm_norm.weight"@))
}

/// `m` holds the tensors of the dense network of a layer, each for what its name says.
pub open spec fn holds_mlp(ct: Content, layer: int, m: MlpWeights) -> bool {
    &&& is_tensor(ct, m.gate_proj, block_tensor(layer, "ffn_gate.weight"@))
    &&& is_tensor(ct, m.up_proj, block_tensor(layer, "ffn_up.weight"@))
    &&& is_tensor(ct, m.down_proj, block_tensor(layer, "ffn_down.weight"@))
}

/// `m` holds the tensors of the mixture of experts of a layer, each for what its name says.
pub open spec fn holds_experts(ct: Content, layer: int, m: MoeWeights) -> bool {
    &&& is_tensor(ct, m.router, block_tensor(layer, "ffn_gate_inp.weight"@))
    &&& is_tensor(ct, m.gate_experts.tensor, block_tensor(layer, "ffn_gate_exps.weight"@))
    &&& is_tensor(ct, m.up_experts.tensor, block_tensor(layer, "ffn_up_exps.weight"@))
    &&& is_tensor(ct, m.down_experts.tensor, block_tensor(layer, "ffn_down_exps.weight"@))
    &&& is_tensor(ct, m.shared_router, block_tensor(layer, "ffn_gate_inp_shexp.weight"@))
    &&& is_tensor(ct, m.shared_gate, block_tensor(layer, "ffn_gate_shexp.weight"@))
    &&& is_tensor(ct, m.shared_up, block_tensor(layer, "ffn_up_shexp.weight"@))
    &&& is_tensor(ct, m.shared_down, block_tensor(layer, "ffn_down_shexp.weight"@))
}

/// Full attention is found where all its tensors are, and holds each of them by its name. How many
/// heads there are follows from the extents of the queries' and keys' projections.
pub proof fn law_attention_by_name<E>(ct: Content, layer: usize, head_dim: usize)
    ensures
        attention_of::<E>(ct, layer, head_dim) matches Ok(w) ==> holds_attention(ct, layer as int, w),
        attention_of::<E>(ct, layer, head_dim) is Ok <==> {
            &&& has_tensor(ct, block_tensor(layer as int, "attn_q.weight"@))
            &&& has_tensor(ct, block_tensor(layer as int, "attn_k.weight"@))
            &&& has_tensor(ct, block_tensor(layer as int, "attn_v.weight"@))
            &&& has_tensor(ct, block_tensor(layer as int, "attn_output.weight"@))
            &&& has_tensor(ct, block_tensor(layer as int, "attn_q_norm.weight"@))
            &&& has_tensor(ct, block_tensor(layer as int, "attn_k_norm.weight"@))
        },
        attention_of::<E>(ct, layer, head_dim) matches Ok(w) ==> {
            let q = ct.tensor_infos@[w.q_proj as int].1.dims@;
            let k = ct.tensor_infos@[w.k_proj as int].1.dims@;
            &&& w.head_dim == head_dim
            &&& 0 < head_dim ==> w.num_heads * (2 * head_dim) <= q[0] < (w.num_heads + 1) * (2
                * head_dim)
            &&& 0 < head_dim ==> w.num_kv_heads * head_dim <= k[0] < (w.num_kv_heads + 1)
                * head_dim
            &&& 0 < w.num_kv_heads && 0 < head_dim ==> w.num_kv_groups * w.num_kv_heads
                <= w.num_heads < (w.num_kv_groups + 1) * w.num_kv_heads
            &&& w.kv_cache.k is None && w.kv_cache.v is None
        },
{
    law_lookup_by_name(ct, block_tensor(layer as int, "attn_q.weight"@));
    law_lookup_by_name(ct, block_tensor(layer as int, "attn_k.weight"@));
    law_lookup_by_name(ct, block_tensor(layer as int, "attn_v.weight"@));
    law_lookup_by_name(ct, block_tensor(layer as int, "attn_output.weight"@));
    law_lookup_by_name(ct, block_tensor(layer as int, "attn_q_norm.weight"@));
    law_lookup_by_name(ct, block_tensor(layer as int, "attn_k_norm.weight"@));
    if let Ok(w) = attention_of::<E>(ct, layer, head_dim) {
        let q = ct.tensor_infos@[w.q_proj as int].1.dims@[0] as int;
        let k = ct.tensor_infos@[w.k_proj as int].1.dims@[0] as int;
        let h = head_dim as int;
        if 0 < head_dim {
            lemma_quotient(q, h * 2);
            lemma_quotient(k, h);
            assert(h * 2 == 2 * h);
            if 0 < w.num_kv_heads {
                lemma_quotient(w.num_heads as int, w.num_kv_heads as int);
            }
        }
    }
}

/// A gated delta network is found where all its tensors are, and holds each of them by its name.
pub proof fn law_delta_by_name<E>(
    ct: Content,
    layer: usize,
    dims: crate::models::qwen3_5::delta::DeltaDims,
)
    ensures
        delta_of::<E>(ct, layer, dims) matches Ok(w) ==> holds_delta(ct, layer as int, w),
        delta_of::<E>(ct, layer, dims) is Ok <==> {
            &&& has_tensor(ct, block_tensor(layer as int, "attn_qkv.weight"@))
            &&& has_tensor(ct, block_tensor(layer as int, "attn_gate.weight"@))
            &&& has_tensor(ct, block_tensor(layer as int, "ssm_beta.weight"@))
            &&& has_tensor(ct, block_tensor(layer as int, "ssm_alpha.weight"@))
            &&& has_tensor(ct, block_tensor(layer as int, "ssm_out.weight"@))
            &&& has_tensor(ct, block_tensor(layer as int, "ssm_conv1d.weight"@))
            &&& has_tensor(ct, block_tensor(layer as int, "ssm_a"@))
            &&& has_tensor(ct, block_tensor(layer as int, "ssm_dt.bias"@))
            &&& has_tensor(ct, block_tensor(layer as int, "ssm_norm.weight"@))
        },
        delta_of::<E>(ct, layer, dims) matches Ok(w) ==> {
            &&& w.num_k_heads == dims.num_k_heads && w.num_v_heads == dims.num_v_heads
            &&& w.head_k_dim == dims.head_k_dim && w.head_v_dim == dims.head_v_dim
            &&& w.conv_kernel_size == dims.conv_kernel_size
            &&& 2 * (dims.head_k_dim * dims.num_k_heads) + dims.head_v_dim * dims.num_v_heads
                <= usize::MAX ==> {
                &&& w.key_dim == w.num_k_heads * w.head_k_dim
                &&& w.value_dim == w.num_v_heads * w.head_v_dim
                &&& w.conv_dim == w.key_dim + w.key_dim + w.value_dim
            }
            &&& w.conv_state is None && w.recurrent_state is None
        },
{
    law_lookup_by_name(ct, block_tensor(layer as int, "attn_qkv.weight"@));
    law_lookup_by_name(ct, block_tensor(layer as int, "attn_gate.weight"@));
    law_lookup_by_name(ct, block_tensor(layer as int, "ssm_beta.weight"@));
    law_lookup_by_name(ct, block_tensor(layer as int, "ssm_alpha.weight"@));
    law_lookup_by_name(ct, block_tensor(layer as int, "ssm_out.weight"@));
    law_lookup_by_name(ct, block_tensor(layer as int, "ssm_conv1d.weight"@));
    law_lookup_by_name(ct, block_tensor(layer as int, "ssm_a"@));
    law_lookup_by_name(ct, block_tensor(layer as int, "ssm_dt.bias"@));
    law_lookup_by_name(ct, block_tensor(layer as int, "ssm_norm.weight"@));
    let (a, b) = (dims.head_k_dim as int, dims.num_k_heads as int);
    let (c, d) = (dims.head_v_dim as int, dims.num_v_heads as int);
    assert(a * b == b * a && c * d == d * c && a * b >= 0 && c * d >= 0) by (nonlinear_arith)
        requires
            a >= 0,
            b >= 0,
            c >= 0,
            d >= 0,
    ;
}

/// A dense network is found where all its tensors are, and holds each of them by its name.
pub proof fn law_mlp_by_name(ct: Content, layer: usize)
    ensures
        mlp_of(ct, layer) matches Ok(w) ==> holds_mlp(ct, layer as int, w),
        mlp_of(ct, layer) is Ok <==> {
            &&& has_tensor(ct, block_tensor(layer as int, "ffn_gate.weight"@))
            &&& has_tensor(ct, block_tensor(layer as int, "ffn_up.weight"@))
            &&& has_tensor(ct, block_tensor(layer as int, "ffn_down.weight"@))
        },
{
    law_lookup_by_name(ct, block_tensor(layer as int, "ffn_gate.weight"@));
    law_lookup_by_name(ct, block_tensor(layer as int, "ffn_up.weight"@));
    law_lookup_by_name(ct, block_tensor(layer as int, "ffn_down.weight"@));
}

/// A mixture of experts holds each of its tensors by its name, and each of its stacks as the table
/// describes that very tensor: its format, its extents, and as many bytes for each expert as all
/// of them take together.
pub proof fn law_experts_by_name(
    ct: Content,
    layer: usize,
    num_experts_per_tok: usize,
    modes: MoeModes,
)
    ensures
        moe_of(ct, layer, num_experts_per_tok, modes) matches Ok(w) ==> holds_experts(ct, layer as int, w),
        moe_of(ct, layer, num_experts_per_tok, modes) matches Ok(w) ==> {
            &&& described(ct, w.gate_experts)
            &&& described(ct, w.up_experts)
            &&& described(ct, w.down_experts)
            &&& w.expert_quants.gate == w.gate_experts.dtype
            &&& w.expert_quants.up == w.up_experts.dtype
            &&& w.expert_quants.down == w.down_experts.dtype
            &&& w.num_experts_per_tok == num_experts_per_tok
            &&& w.prefill_mode == modes.prefill && w.decode_mode == modes.decode
        },
{
    law_lookup_by_name(ct, block_tensor(layer as int, "ffn_gate_inp.weight"@));
    law_lookup_by_name(ct, block_tensor(layer as int, "ffn_gate_exps.weight"@));
    law_lookup_by_name(ct, block_tensor(layer as int, "ffn_up_exps.weight"@));
    law_lookup_by_name(ct, block_tensor(layer as int, "ffn_down_exps.weight"@));
    law_lookup_by_name(ct, block_tensor(layer as int, "ffn_gate_inp_shexp.weight"@));
    law_lookup_by_name(ct, block_tensor(layer as int, "ffn_gate_shexp.weight"@));
    law_lookup_by_name(ct, block_tensor(layer as int, "ffn_up_shexp.weight"@));
    law_lookup_by_name(ct, block_tensor(layer as int, "ffn_down_shexp.weight"@));
    lemma_described(ct, layer, "ffn_gate_exps.weight"@);
    lemma_described(ct, layer, "ffn_up_exps.weight"@);
    lemma_described(ct, layer, "ffn_down_exps.weight"@);
}

/// A stack is as the table describes its tensor.
pub open spec fn described(ct: Content, e: ExpertStack) -> bool {
    let info = ct.tensor_infos@[e.tensor as int].1;
    &&& e.dtype == info.ggml_dtype
    &&& info.dims@ == seq![e.n_experts, e.n_out, e.n_in]
    &&& e.n_experts > 0 && crate::quantized::metal::stored_bytes(info.dims@, info.ggml_dtype)
        <= usize::MAX ==> e.per_expert * e.n_experts == crate::quantized::metal::stored_bytes(
        info.dims@,
        info.ggml_dtype,
    )
}

/// A stack that is found is as the table describes its tensor.
proof fn lemma_described(ct: Content, layer: usize, suffix: Seq<char>)
    ensures
        stack_of(ct, layer, suffix) matches Ok(e) ==> described(ct, e),
{
    if let Ok(e) = stack_of(ct, layer, suffix) {
        let info = ct.tensor_infos@[e.tensor as int].1;
        assert(info.dims@ =~= seq![e.n_experts, e.n_out, e.n_in]);
        let total = crate::quantized::metal::stored_bytes(info.dims@, info.ggml_dtype) as int;
        if e.n_experts > 0 && total <= usize::MAX {
            lemma_quotient(total, e.n_experts as int);
            vstd::arithmetic::div_mod::lemma_fundamental_div_mod(total, e.n_experts as int);
            assert(e.n_experts * (total / e.n_experts as int) == (total / e.n_experts as int)
                * e.n_experts) by (nonlinear_arith);
        }
    }
}

/// A quotient is the largest number that often fits.
proof fn lemma_quotient(a: int, b: int)
    requires
        a >= 0,
        b > 0,
    ensures
        (a / b) * b <= a < (a / b + 1) * b,
        0 <= a / b <= a,
{
    let q = a / b;
    vstd::arithmetic::div_mod::lemma_fundamental_div_mod(a, b);
    vstd::arithmetic::div_mod::lemma_mod_bound(a, b);
    assert(b * q == q * b && (q + 1) * b == q * b + b) by (nonlinear_arith);
    assert(0 <= q <= a) by (nonlinear_arith)
        requires
            q * b <= a < q * b + b,
            a >= 0,
            b > 0,
    ;
}

/// The metadata has a value under that key: the first one, where there are more.
pub open spec fn is_value(ct: Content, key: Seq<char>, v: Value) -> bool {
    exists|i: int|
        0 <= i < ct.metadata@.len() && (#[trigger] ct.metadata@[i]).0@ == key && ct.metadata@[i].1
            == v && forall|j: int| 0 <= j < i ==> (#[trigger] ct.metadata@[j]).0@ != key
}

/// The metadata has that key.
pub open spec fn has_key(ct: Content, key: Seq<char>) -> bool {
    exists|i: int| 0 <= i < ct.metadata@.len() && (#[trigger] ct.metadata@[i]).0@ == key
}

/// The metadata says `v` of `key`: under the name of the model family, or otherwise under that of
/// the file's architecture.
pub open spec fn says(ct: Content, arch: Seq<char>, key: Seq<char>, v: Value) -> bool {
    ||| is_value(ct, "qwen3."@ + key, v)
    ||| !has_key(ct, "qwen3."@ + key) && is_value(ct, arch + "."@ + key, v)
}

/// The metadata says a number of `key`.
pub open spec fn says_number(ct: Content, arch: Seq<char>, key: Seq<char>, n: usize) -> bool {
    n <= u32::MAX && says(ct, arch, key, Value::U32(n as u32))
}

/// What is looked up in the metadata is what it has under that key.
proof fn lemma_value(ct: Content, key: Seq<char>)
    ensures
        value_of(ct.metadata@, key) matches Some(v) ==> is_value(ct, key, v),
        value_of(ct.metadata@, key) is Some <==> has_key(ct, key),
        forall|v: Value| is_value(ct, key, v) ==> value_of(ct.metadata@, key) == Some(v),
{
    let s = ct.metadata@;
    lemma_found(s, key, 0);
    match first_entry(s, key, 0) {
        Some(j) => {
            assert(s[j].0@ == key);
            assert forall|v: Value| is_value(ct, key, v) implies value_of(s, key) == Some(v) by {
                let i = choose|i: int|
                    0 <= i < s.len() && (#[trigger] s[i]).0@ == key && s[i].1 == v && forall|
                        m: int,
                    |
                        0 <= m < i ==> (#[trigger] s[m]).0@ != key;
                if i < j {
                    assert(s[i].0@ != key);
                }
                if j < i {
                    assert(s[j].0@ != key);
                }
            }
        },
        None => {},
    }
}

/// What a key is read as is what the metadata says of it.
proof fn lemma_says(ct: Content, arch: Seq<char>, key: Seq<char>)
    ensures
        keyed_number(ct, arch, key) matches Ok(n) ==> says_number(ct, arch, key, n),
        keyed_number(ct, arch, key) is Err ==> forall|n: usize|
            !says_number(ct, arch, key, n),
        keyed_float(ct, arch, key) matches Ok(bits) ==> says(ct, arch, key, Value::F32(bits)),
{
    lemma_value(ct, "qwen3."@ + key);
    lemma_value(ct, arch + "."@ + key);
}

/// Every size of a model is the number that the metadata gives under its key. Files need not say
/// how much of a head is rotated, which is all of it then, nor how many experts there are, which
/// are none then. Values are as wide as keys in the recurrent state, and as many of their heads as
/// fit its inner size.
pub proof fn law_config_by_key(ct: Content, cfg: Config)
    requires
        config_of(ct) == Ok::<Config, crate::error::Refusal>(cfg),
    ensures
        architecture(ct) matches Ok(arch) && {
            &&& value_of(ct.metadata@, "general.architecture"@) matches Some(Value::String(s))
                && s@ == arch
            &&& says_number(ct, arch, "attention.head_count"@, cfg.num_attention_heads)
            &&& says_number(ct, arch, "attention.head_count_kv"@, cfg.num_kv_heads)
            &&& says_number(ct, arch, "attention.key_length"@, cfg.head_dim)
            &&& says_number(ct, arch, "block_count"@, cfg.num_layers)
            &&& says_number(ct, arch, "embedding_length"@, cfg.hidden_size)
            &&& says_number(ct, arch, "context_length"@, cfg.max_position_embeddings)
            &&& says_number(ct, arch, "full_attention_interval"@, cfg.full_attention_interval)
            &&& says_number(ct, arch, "ssm.group_count"@, cfg.linear_num_key_heads)
            &&& says_number(ct, arch, "ssm.state_size"@, cfg.linear_key_head_dim)
            &&& says_number(ct, arch, "ssm.state_size"@, cfg.linear_value_head_dim)
            &&& says_number(ct, arch, "ssm.conv_kernel"@, cfg.linear_conv_kernel_dim)
            &&& says(ct, arch, "attention.layer_norm_rms_epsilon"@, Value::F32(cfg.rms_norm_eps))
            &&& says(ct, arch, "rope.freq_base"@, Value::F32(cfg.rope_freq_base))
            &&& says_number(ct, arch, "rope.dimension_count"@, cfg.rotary_dim) || (cfg.rotary_dim == cfg.head_dim && forall|n: usize|
                !says_number(ct, arch, "rope.dimension_count"@, n))
            &&& says_number(ct, arch, "expert_count"@, cfg.num_experts) || (cfg.num_experts == 0 && forall|n: usize|
                !says_number(ct, arch, "expert_count"@, n))
            &&& says_number(ct, arch, "expert_used_count"@, cfg.num_experts_per_tok) || (cfg.num_experts_per_tok == 0 && forall|n: usize|
                !says_number(ct, arch, "expert_used_count"@, n))
            &&& cfg.linear_value_head_dim > 0 ==> exists|inner: usize|
                #![trigger says_number(ct, arch, "ssm.inner_size"@, inner)]
                says_number(ct, arch, "ssm.inner_size"@, inner) && cfg.linear_num_value_heads
                    * cfg.linear_value_head_dim <= inner < (cfg.linear_num_value_heads + 1)
                    * cfg.linear_value_head_dim
        },
        cfg.dtype == (if is_value(ct, "general.dtype"@, Value::U32(0)) {
            crate::dtype::DType::F32
        } else {
            crate::dtype::DType::F16
        }),
{
    let arch = architecture(ct)->Ok_0;
    lemma_value(ct, "general.architecture"@);
    lemma_value(ct, "general.dtype"@);
    lemma_says(ct, arch, "attention.head_count"@);
    lemma_says(ct, arch, "attention.head_count_kv"@);
    lemma_says(ct, arch, "attention.key_length"@);
    lemma_says(ct, arch, "attention.layer_norm_rms_epsilon"@);
    lemma_says(ct, arch, "block_count"@);
    lemma_says(ct, arch, "context_length"@);
    lemma_says(ct, arch, "embedding_length"@);
    lemma_says(ct, arch, "expert_count"@);
    lemma_says(ct, arch, "expert_used_count"@);
    lemma_says(ct, arch, "full_attention_interval"@);
    lemma_says(ct, arch, "rope.dimension_count"@);
    lemma_says(ct, arch, "rope.freq_base"@);
    lemma_says(ct, arch, "ssm.conv_kernel"@);
    lemma_says(ct, arch, "ssm.group_count"@);
    lemma_says(ct, arch, "ssm.inner_size"@);
    lemma_says(ct, arch, "ssm.state_size"@);
    let inner = keyed_number(ct, arch, "ssm.inner_size"@)->Ok_0;
    assert(says_number(ct, arch, "ssm.inner_size"@, inner));
    if cfg.linear_value_head_dim > 0 {
        lemma_quotient(inner as int, cfg.linear_value_head_dim as int);
    }
}

/// A layer holds its tensors by their names, and is of the kind and the sizes that the
/// configuration gives it.
pub open spec fn layer_by_name<E>(
    ct: Content,
    cfg: Config,
    i: int,
    l: LayerWeights<E>,
) -> bool {
    &&& match l.token_mixer {
        TokenMixer::FullAttention(a) => {
            &&& cfg.full_attention_interval > 0 && (i + 1) % cfg.full_attention_interval as int == 0
            &&& holds_attention(ct, i, a)
            &&& a.head_dim == cfg.head_dim
        },
        TokenMixer::LinearAttention(d) => {
            &&& cfg.full_attention_interval == 0 || (i + 1) % cfg.full_attention_interval as int
                != 0
            &&& holds_delta(ct, i, d)
            &&& d.num_k_heads == cfg.linear_num_key_heads
            &&& d.num_v_heads == cfg.linear_num_value_heads
            &&& d.head_k_dim == cfg.linear_key_head_dim
            &&& d.head_v_dim == cfg.linear_value_head_dim
            &&& d.conv_kernel_size == cfg.linear_conv_kernel_dim
        },
    }
    &&& match l.mlp {
        Ffn::Dense(m) => cfg.num_experts == 0 && holds_mlp(ct, i, m),
        Ffn::Moe(m) => cfg.num_experts > 0 && holds_experts(ct, i, m) && m.num_experts_per_tok
            == cfg.num_experts_per_tok,
    }
    &&& is_tensor(ct, l.input_layernorm, block_tensor(i, "attn_norm.weight"@))
    &&& is_tensor(ct, l.post_attention_layernorm, block_tensor(i, "post_attention_norm.weight"@))
}

/// A loaded model holds the tensors of its file by their names: the embedding, the last norm, the
/// output projection, which is the embedding where the file has none, and those of each layer. Its
/// layers are as many as the file says, and every so many of them attend fully.
pub proof fn law_model_by_name<E>(m: ModelWeights<E>, ct: Content, modes: MoeModes)
    requires
        model_outcome(Ok(m), ct, modes),
    ensures
        config_of(ct) == Ok::<Config, crate::error::Refusal>(m.config),
        is_tensor(ct, m.embed_tokens, "token_embd.weight"@),
        is_tensor(ct, m.norm, "output_norm.weight"@),
        is_tensor(ct, m.lm_head, "output.weight"@) || (!has_tensor(ct, "output.weight"@)
            && m.lm_head == m.embed_tokens),
        m.layers@.len() == m.config.num_layers,
        forall|i: int|
            0 <= i < m.layers@.len() ==> layer_by_name(ct, m.config, i, #[trigger] m.layers@[i]),
{
    law_lookup_by_name(ct, "token_embd.weight"@);
    law_lookup_by_name(ct, "output_norm.weight"@);
    law_lookup_by_name(ct, "output.weight"@);
    let cfg = m.config;
    assert(m.layers.len() == m.layers@.len());
    assert forall|i: int| 0 <= i < m.layers@.len() implies layer_by_name(
        ct,
        cfg,
        i,
        #[trigger] m.layers@[i],
    ) by {
        let layer = i as usize;
        law_attention_by_name::<E>(ct, layer, cfg.head_dim);
        law_delta_by_name::<E>(ct, layer, cfg.delta_dims());
        law_mlp_by_name(ct, layer);
        law_experts_by_name(ct, layer, cfg.num_experts_per_tok, modes);
        law_lookup_by_name(ct, block_tensor(i, "attn_norm.weight"@));
        law_lookup_by_name(ct, block_tensor(i, "post_attention_norm.weight"@));
    }
}

} // verus!
