//! The feed-forward part of a layer: one dense network, or a mixture of experts.

use crate::arith::span;
use crate::error::{agrees, first_of, refusal_of, Error, Refusal, Result};
use crate::models::qwen3_5::gguf::{lemma_first_entry, tensor_at, Content, Gguf, TensorInfo};
use crate::models::qwen3_5::moe::{
    check_expert_quant, checked_quant, layer_quants, layer_tensor, layer_tensor_name, table_quant,
    uneven_text, ExpertQuants, MoeMode, MoeModes,
};
use crate::quantized::metal::{lemma_stored_bytes, stored_bytes};
use crate::quantized::GgmlDType;
use crate::shape::count;
use crate::text::{list, push_decimal};
use vstd::prelude::*;
use vstd::string::*;

verus! {

/// Why a tensor of a layer cannot be found.
pub open spec fn missing(ct: Content, layer: usize, suffix: Seq<char>) -> Option<Refusal> {
    refusal_of(tensor_at(ct, layer_tensor(layer as int, suffix)))
}

/// Where a tensor of a layer is in the table.
pub open spec fn place(ct: Content, layer: usize, suffix: Seq<char>) -> usize {
    tensor_at(ct, layer_tensor(layer as int, suffix))->Ok_0
}

/// The output extent of a projection of a layer.
pub open spec fn outputs(ct: Content, layer: usize, suffix: Seq<char>) -> usize {
    ct.tensor_infos@[place(ct, layer, suffix) as int].1.dims@[0]
}

/// Where a tensor of a layer is in the table, or why it is not there.
pub fn layer_place(gg: &Gguf, layer: usize, suffix: &str) -> (r: Result<usize>)
    ensures
        agrees(r, tensor_at(*gg.ct, layer_tensor(layer as int, suffix@))),
        r matches Ok(i) ==> i < gg.ct.tensor_infos@.len(),
{
    gg.tensor(layer_tensor_name(layer, suffix).as_str())
}

/// A dense feed-forward network: where its weights are in the table.
#[derive(Debug, Clone, Copy, PartialEq, Eq, Structural)]
pub struct MlpWeights {
    pub gate_proj: usize,
    pub up_proj: usize,
    pub down_proj: usize,
}

/// The dense network of a layer, or why there is none.
pub open spec fn mlp_of(ct: Content, layer: usize) -> core::result::Result<MlpWeights, Refusal> {
    match first_of(
        missing(ct, layer, "ffn_gate.weight"@),
        first_of(missing(ct, layer, "ffn_up.weight"@), missing(ct, layer, "ffn_down.weight"@)),
    ) {
        Some(why) => Err(why),
        None => Ok(
            MlpWeights {
                gate_proj: place(ct, layer, "ffn_gate.weight"@),
                up_proj: place(ct, layer, "ffn_up.weight"@),
                down_proj: place(ct, layer, "ffn_down.weight"@),
            },
        ),
    }
}

impl MlpWeights {
    /// Finds the dense network of a layer.
    pub fn new(gg: &Gguf, layer: usize) -> (r: Result<Self>)
        ensures
            agrees(r, mlp_of(*gg.ct, layer)),
    {
        let gate_proj: usize = layer_place(gg, layer, "ffn_gate.weight")?;
        let up_proj: usize = layer_place(gg, layer, "ffn_up.weight")?;
        let down_proj: usize = layer_place(gg, layer, "ffn_down.weight")?;
        Ok(MlpWeights { gate_proj, up_proj, down_proj })
    }
}

/// The weights of all experts of one projection, `[n_experts, n_out, n_in]`: where they are in
/// the table, and how they are dealt to the experts.
#[derive(Debug, Clone, Copy, PartialEq, Eq, Structural)]
pub struct ExpertStack {
    pub tensor: usize,
    pub dtype: GgmlDType,
    pub n_experts: usize,
    pub n_out: usize,
    pub n_in: usize,
    /// The bytes of one expert.
    pub per_expert: usize,
}

/// The stack of a projection of a layer, or why there is none: it is missing, its format is one
/// that experts do not have, or it cannot be dealt evenly.
pub open spec fn stack_of(ct: Content, layer: usize, suffix: Seq<char>) -> core::result::Result<
    ExpertStack,
    Refusal,
> {
    let name = layer_tensor(layer as int, suffix);
    match tensor_at(ct, name) {
        Err(why) => Err(why),
        Ok(i) => {
            let info = ct.tensor_infos@[i as int].1;
            let dims = info.dims@;
            match checked_quant(name, info.ggml_dtype) {
                Err(why) => Err(why),
                Ok(dtype) => {
                    let total = stored_bytes(dims, dtype);
                    if dims.len() != 3 {
                        Err(Refusal::Rank { expected: 3, got: dims.len() as usize })
                    } else if total as int % dims[0] as int != 0 {
                        Err(Refusal::Says(uneven_text(dims, total as usize, dims[0])))
                    } else {
                        Ok(
                            ExpertStack {
                                tensor: i,
                                dtype,
                                n_experts: dims[0],
                                n_out: dims[1],
                                n_in: dims[2],
                                per_expert: (total as int / dims[0] as int) as usize,
                            },
                        )
                    }
                },
            }
        },
    }
}

/// A stack that is dealt to experts has some, and its bytes can be counted.
pub open spec fn countable_stack(ct: Content, layer: usize, suffix: Seq<char>) -> bool {
    let name = layer_tensor(layer as int, suffix);
    tensor_at(ct, name) matches Ok(i) ==> {
        let info = ct.tensor_infos@[i as int].1;
        checked_quant(name, info.ggml_dtype) is Ok && info.dims@.len() == 3 ==> {
            &&& info.dims@[0] > 0
            &&& span(info.dims@) * info.ggml_dtype.block_bytes() <= usize::MAX
        }
    }
}

/// The stacks of a layer that are looked for can be dealt.
pub open spec fn countable_experts(ct: Content, layer: usize) -> bool {
    missing(ct, layer, "ffn_gate_inp.weight"@) is None ==> {
        &&& countable_stack(ct, layer, "ffn_gate_exps.weight"@)
        &&& stack_of(ct, layer, "ffn_gate_exps.weight"@) is Ok ==> {
            &&& countable_stack(ct, layer, "ffn_up_exps.weight"@)
            &&& stack_of(ct, layer, "ffn_up_exps.weight"@) is Ok ==> countable_stack(
                ct,
                layer,
                "ffn_down_exps.weight"@,
            )
        }
    }
}

impl ExpertStack {
    /// Finds the stack of a projection of a layer.
    pub fn find(gg: &Gguf, layer: usize, suffix: &str) -> (r: Result<Self>)
        requires
            countable_stack(*gg.ct, layer, suffix@),
        ensures
            agrees(r, stack_of(*gg.ct, layer, suffix@)),
    {
        let name: String = layer_tensor_name(layer, suffix);
        let tensor: usize = gg.tensor(name.as_str())?;
        let info: &TensorInfo = &gg.ct.tensor_infos[tensor].1;
        let dtype: GgmlDType = check_expert_quant(name.as_str(), info.ggml_dtype)?;
        let ghost dims = info.dims@;
        assert(gg.ct.tensor_infos@[tensor as int].1 == *info);
        if info.dims.len() != 3 {
            return Err(Error::UnexpectedNumberOfDims { expected: 3, got: info.dims.len() });
        }
        proof {
            lemma_stored_bytes(dims, dtype);
        }
        let n_experts: usize = info.dims[0];
        let total: usize = count(info.dims.as_slice()) / dtype.block_size() * dtype.type_size();
        let per_expert: usize = total / n_experts;
        if total % n_experts != 0 {
            let mut text: String = "expert stack ".to_owned();
            text.append(list(info.dims.as_slice()).as_str());
            text.append(" of ");
            push_decimal(&mut text, total);
            text.append(" bytes does not divide evenly into ");
            push_decimal(&mut text, n_experts);
            text.append(" experts");
            return Err(Error::Msg(text));
        }
        Ok(
            ExpertStack {
                tensor,
                dtype,
                n_experts,
                n_out: info.dims[1],
                n_in: info.dims[2],
                per_expert,
            },
        )
    }
}

/// A mixture of experts, with a gated expert that all tokens share: where its weights are in the
/// table, and how the experts are evaluated.
#[derive(Debug, Clone, Copy, PartialEq, Eq, Structural)]
pub struct MoeWeights {
    pub router: usize,
    pub gate_experts: ExpertStack,
    pub up_experts: ExpertStack,
    pub down_experts: ExpertStack,
    pub shared_router: usize,
    pub shared_gate: usize,
    pub shared_up: usize,
    pub shared_down: usize,
    pub num_experts_per_tok: usize,
    /// The formats of this layer's experts, which other layers need not have.
    pub expert_quants: ExpertQuants,
    /// The undivided stacks are kept, because some phase indexes them.
    pub stacked: bool,
    pub prefill_mode: MoeMode,
    pub decode_mode: MoeMode,
}

/// Why a mixture of experts cannot be found: the first of its tensors that is turned down.
pub open spec fn moe_refusal(ct: Content, layer: usize) -> Option<Refusal> {
    let m = |suffix: Seq<char>| missing(ct, layer, suffix);
    let s = |suffix: Seq<char>| refusal_of(stack_of(ct, layer, suffix));
    first_of(
        m("ffn_gate_inp.weight"@),
        first_of(
            s("ffn_gate_exps.weight"@),
            first_of(
                s("ffn_up_exps.weight"@),
                first_of(
                    s("ffn_down_exps.weight"@),
                    first_of(
                        m("ffn_gate_inp_shexp.weight"@),
                        first_of(
                            m("ffn_gate_shexp.weight"@),
                            first_of(m("ffn_up_shexp.weight"@), m("ffn_down_shexp.weight"@)),
                        ),
                    ),
                ),
            ),
        ),
    )
}

/// The mixture of experts of a layer, or why there is none.
pub open spec fn moe_of(
    ct: Content,
    layer: usize,
    num_experts_per_tok: usize,
    modes: MoeModes,
) -> core::result::Result<MoeWeights, Refusal> {
    match moe_refusal(ct, layer) {
        Some(why) => Err(why),
        None => {
            let gate = stack_of(ct, layer, "ffn_gate_exps.weight"@)->Ok_0;
            let up = stack_of(ct, layer, "ffn_up_exps.weight"@)->Ok_0;
            let down = stack_of(ct, layer, "ffn_down_exps.weight"@)->Ok_0;
            Ok(
                MoeWeights {
                    router: place(ct, layer, "ffn_gate_inp.weight"@),
                    gate_experts: gate,
                    up_experts: up,
                    down_experts: down,
                    shared_router: place(ct, layer, "ffn_gate_inp_shexp.weight"@),
                    shared_gate: place(ct, layer, "ffn_gate_shexp.weight"@),
                    shared_up: place(ct, layer, "ffn_up_shexp.weight"@),
                    shared_down: place(ct, layer, "ffn_down_shexp.weight"@),
                    num_experts_per_tok,
                    expert_quants: ExpertQuants {
                        gate: gate.dtype,
                        up: up.dtype,
                        down: down.dtype,
                    },
                    stacked: modes.keeps_stacks(),
                    prefill_mode: modes.prefill,
                    decode_mode: modes.decode,
                },
            )
        },
    }
}

impl MoeWeights {
    /// Finds the mixture of experts of a layer. The formats are read off this layer's tensors.
    pub fn new(
        gg: &Gguf,
        layer: usize,
        num_experts_per_tok: usize,
        modes: MoeModes,
    ) -> (r: Result<Self>)
        requires
            countable_experts(*gg.ct, layer),
        ensures
            agrees(r, moe_of(*gg.ct, layer, num_experts_per_tok, modes)),
    {
        let router: usize = layer_place(gg, layer, "ffn_gate_inp.weight")?;
        let gate_experts: ExpertStack = ExpertStack::find(gg, layer, "ffn_gate_exps.weight")?;
        let up_experts: ExpertStack = ExpertStack::find(gg, layer, "ffn_up_exps.weight")?;
        let down_experts: ExpertStack = ExpertStack::find(gg, layer, "ffn_down_exps.weight")?;
        let expert_quants: ExpertQuants = ExpertQuants {
            gate: gate_experts.dtype,
            up: up_experts.dtype,
            down: down_experts.dtype,
        };
        let stacked: bool = modes.any_fused();
        let shared_router: usize = layer_place(gg, layer, "ffn_gate_inp_shexp.weight")?;
        let shared_gate: usize = layer_place(gg, layer, "ffn_gate_shexp.weight")?;
        let shared_up: usize = layer_place(gg, layer, "ffn_up_shexp.weight")?;
        let shared_down: usize = layer_place(gg, layer, "ffn_down_shexp.weight")?;
        Ok(
            MoeWeights {
                router,
                gate_experts,
                up_experts,
                down_experts,
                shared_router,
                shared_gate,
                shared_up,
                shared_down,
                num_experts_per_tok,
                expert_quants,
                stacked,
                prefill_mode: modes.prefill,
                decode_mode: modes.decode,
            },
        )
    }

    /// The formats of this layer's experts.
    pub fn expert_quants(&self) -> (r: ExpertQuants)
        ensures
            r == self.expert_quants,
    {
        self.expert_quants
    }

    /// The modes that the weights were loaded for.
    pub open spec fn modes(self) -> MoeModes {
        MoeModes { prefill: self.prefill_mode, decode: self.decode_mode }
    }

    /// How the experts are evaluated for this many tokens.
    pub fn phase_mode(&self, n_tokens: usize) -> (r: MoeMode)
        ensures
            r == self.modes().phase(n_tokens, self.stacked),
    {
        MoeModes { prefill: self.prefill_mode, decode: self.decode_mode }.phase_mode(
            n_tokens,
            self.stacked,
        )
    }
}

/// The feed-forward part of a layer.
#[derive(Debug, Clone, Copy, PartialEq, Eq, Structural)]
pub enum Ffn {
    Dense(MlpWeights),
    Moe(MoeWeights),
}

/// The formats that are read with a layer's weights are those that the table alone gives for it.
pub proof fn law_quants_of_the_layer(
    ct: Content,
    layer: usize,
    num_experts_per_tok: usize,
    modes: MoeModes,
)
    requires
        moe_of(ct, layer, num_experts_per_tok, modes) is Ok,
        ct.tensor_infos@.len() <= usize::MAX,
    ensures
        layer_quants(ct.tensor_infos@, layer as int) == Ok::<
            ExpertQuants,
            Refusal,
        >(moe_of(ct, layer, num_experts_per_tok, modes)->Ok_0.expert_quants),
{
    lemma_stack_quant(ct, layer, "ffn_gate_exps.weight"@);
    lemma_stack_quant(ct, layer, "ffn_up_exps.weight"@);
    lemma_stack_quant(ct, layer, "ffn_down_exps.weight"@);
}

/// The format of a stack is that of its entry in the table.
proof fn lemma_stack_quant(ct: Content, layer: usize, suffix: Seq<char>)
    requires
        stack_of(ct, layer, suffix) is Ok,
        ct.tensor_infos@.len() <= usize::MAX,
    ensures
        table_quant(ct.tensor_infos@, layer_tensor(layer as int, suffix)) == Ok::<
            GgmlDType,
            Refusal,
        >(stack_of(ct, layer, suffix)->Ok_0.dtype),
{
    lemma_first_entry(ct.tensor_infos@, layer_tensor(layer as int, suffix), 0);
}

} // verus!
