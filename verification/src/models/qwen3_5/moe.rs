//! The mixture-of-experts network: the formats of its weights, how they are cut, and in which
//! order its terms are added up.

use crate::arith::span;
use crate::dtype::DType;
use crate::error::{Error, Refusal, Result};
use crate::kernels::launch::{Arg, Launch};
use crate::models::qwen3_5::gguf::{
    architecture, first_entry, keyed_number, position, Content, TensorInfo,
};
use crate::quantized::GgmlDType;
use crate::quantized::metal::{
    byte_view_outcome, expert_row_bytes, fwd_outcome, load_quantized, moe_outcome, stored_bytes,
    vectors_only, viewable, viewed, MetalDevice, Operand, Plan, QMetalStorage, QView,
};
use crate::shape::{Layout, Shape};
use crate::text::{decimal, decimal_text, list, list_text, push_decimal, same_text};
use vstd::prelude::*;
use vstd::string::*;

verus! {

/// The formats of the three stacks of expert weights of one layer.
///
/// They are not the same in all layers of a file, so they are read in each layer and carried
/// along with its weights.
#[derive(Debug, Clone, Copy, PartialEq, Eq, Structural)]
pub struct ExpertQuants {
    pub gate: GgmlDType,
    pub up: GgmlDType,
    pub down: GgmlDType,
}

/// The formats that expert weights may have.
pub open spec fn supported(dtype: GgmlDType) -> bool {
    dtype is Q4K || dtype is Q5K || dtype is Q6K || dtype is Q8_0
}

/// Why a format is turned down.
pub open spec fn quant_text(name: Seq<char>, dtype: GgmlDType) -> Seq<char> {
    "unsupported expert quant type "@ + dtype.label() + " on tensor "@ + name
        + "; expected one of [Q4K, Q5K, Q6K, Q8_0]"@
}

/// The format of expert weights, turned down unless it is one that they may have.
pub open spec fn checked_quant(name: Seq<char>, dtype: GgmlDType) -> core::result::Result<
    GgmlDType,
    Refusal,
> {
    if supported(dtype) {
        Ok(dtype)
    } else {
        Err(Refusal::Says(quant_text(name, dtype)))
    }
}

/// Turns formats down that expert weights do not have: they would be decoded wrongly in silence.
pub fn check_expert_quant(tensor_name: &str, dtype: GgmlDType) -> (r: Result<GgmlDType>)
    ensures
        match checked_quant(tensor_name@, dtype) {
            Ok(d) => r == Ok::<GgmlDType, Error>(d),
            Err(why) => r matches Err(e) && why.is(e),
        },
{
    match dtype {
        GgmlDType::Q4K | GgmlDType::Q5K | GgmlDType::Q6K | GgmlDType::Q8_0 => Ok(dtype),
        _ => {
            let mut text: String = "unsupported expert quant type ".to_owned();
            text.append(dtype.name());
            text.append(" on tensor ");
            text.append(tensor_name);
            text.append("; expected one of [Q4K, Q5K, Q6K, Q8_0]");
            Err(Error::Msg(text))
        },
    }
}

/// The name of a tensor of a layer.
pub open spec fn layer_tensor(layer: int, suffix: Seq<char>) -> Seq<char> {
    "blk."@ + decimal_text(layer as nat) + "."@ + suffix
}

/// Names a tensor of a layer.
pub fn layer_tensor_name(layer: usize, suffix: &str) -> (r: String)
    ensures
        r@ == layer_tensor(layer as int, suffix@),
{
    let mut name: String = "blk.".to_owned();
    name.append(decimal(layer).as_str());
    name.append(".");
    name.append(suffix);
    name
}

/// The format of a stack of expert weights in the tensor table.
pub open spec fn table_quant(infos: Seq<(String, TensorInfo)>, name: Seq<char>) -> core::result::Result<
    GgmlDType,
    Refusal,
> {
    match first_entry(infos, name, 0) {
        Some(i) => checked_quant(name, infos[i].1.ggml_dtype),
        None => Err(
            Refusal::Says("missing tensor "@ + name + " in gguf tensor table"@),
        ),
    }
}

/// The formats of a layer's expert weights in the tensor table.
pub open spec fn layer_quants(infos: Seq<(String, TensorInfo)>, layer: int) -> core::result::Result<
    ExpertQuants,
    Refusal,
> {
    match table_quant(infos, layer_tensor(layer, "ffn_gate_exps.weight"@)) {
        Err(why) => Err(why),
        Ok(gate) => match table_quant(infos, layer_tensor(layer, "ffn_up_exps.weight"@)) {
            Err(why) => Err(why),
            Ok(up) => match table_quant(infos, layer_tensor(layer, "ffn_down_exps.weight"@)) {
                Err(why) => Err(why),
                Ok(down) => Ok(ExpertQuants { gate, up, down }),
            },
        },
    }
}

/// The first layer from `i` on whose formats are turned down, of `n` layers: why they are.
pub open spec fn quants_refusal(
    infos: Seq<(String, TensorInfo)>,
    n: int,
    i: int,
) -> Option<Refusal>
    decreases n - i,
{
    if i >= n {
        None
    } else {
        match layer_quants(infos, i) {
            Err(why) => Some(why),
            Ok(_) => quants_refusal(infos, n, i + 1),
        }
    }
}

/// The format of a stack of expert weights in the tensor table.
fn read_table_quant(infos: &Vec<(String, TensorInfo)>, name: &str) -> (r: Result<GgmlDType>)
    ensures
        match table_quant(infos@, name@) {
            Ok(d) => r == Ok::<GgmlDType, Error>(d),
            Err(why) => r matches Err(e) && why.is(e),
        },
{
    match position(infos, name) {
        Some(i) => check_expert_quant(name, infos[i].1.ggml_dtype),
        None => {
            let mut text: String = "missing tensor ".to_owned();
            text.append(name);
            text.append(" in gguf tensor table");
            Err(Error::Msg(text))
        },
    }
}

/// The formats of the expert weights of every layer, read off the header of a file: each layer
/// has its own.
pub fn read_expert_quants_per_layer(ct: &Content) -> (r: Result<Vec<ExpertQuants>>)
    ensures
        match architecture(*ct) {
            Err(why) => r matches Err(e) && why.is(e),
            Ok(arch) => match keyed_number(*ct, arch, "block_count"@) {
                Err(why) => r matches Err(e) && why.is(e),
                Ok(n) => match quants_refusal(ct.tensor_infos@, n as int, 0) {
                    Some(why) => r matches Err(e) && why.is(e),
                    None => r matches Ok(v) && v@.len() == n && forall|i: int|
                        0 <= i < n ==> layer_quants(ct.tensor_infos@, i) == (
                        Ok::<ExpertQuants, Refusal>(#[trigger] v@[i])),
                },
            },
        },
{
    let arch: String = ct.architecture()?;
    let num_layers: usize = ct.number(arch.as_str(), "block_count")?;
    let infos: &Vec<(String, TensorInfo)> = &ct.tensor_infos;
    let mut out: Vec<ExpertQuants> = Vec::new();
    let mut i: usize = 0;
    let mut failed: Option<Error> = None;
    while failed.is_none() && i < num_layers
        invariant
            i <= num_layers,
            infos@ == ct.tensor_infos@,
            failed is None ==> quants_refusal(infos@, num_layers as int, 0) == quants_refusal(
                infos@,
                num_layers as int,
                i as int,
            ),
            failed matches Some(e) ==> quants_refusal(infos@, num_layers as int, 0) matches Some(
                why,
            ) && why.is(e),
            failed is None ==> out@.len() == i,
            failed is None ==> forall|j: int|
                0 <= j < i ==> layer_quants(infos@, j) == Ok::<ExpertQuants, Refusal>(
                    #[trigger] out@[j],
                ),
        decreases num_layers - i,
    {
        match read_layer_quants(infos, i) {
            Ok(quants) => {
                out.push(quants);
            },
            Err(e) => {
                failed = Some(e);
            },
        }
        i = i + 1;
    }
    match failed {
        Some(e) => Err(e),
        None => Ok(out),
    }
}

/// The formats of a layer's expert weights in the tensor table.
fn read_layer_quants(infos: &Vec<(String, TensorInfo)>, layer: usize) -> (r: Result<ExpertQuants>)
    ensures
        match layer_quants(infos@, layer as int) {
            Ok(q) => r == Ok::<ExpertQuants, Error>(q),
            Err(why) => r matches Err(e) && why.is(e),
        },
{
    let gate: GgmlDType = read_table_quant(
        infos,
        layer_tensor_name(layer, "ffn_gate_exps.weight").as_str(),
    )?;
    let up: GgmlDType = read_table_quant(
        infos,
        layer_tensor_name(layer, "ffn_up_exps.weight").as_str(),
    )?;
    let down: GgmlDType = read_table_quant(
        infos,
        layer_tensor_name(layer, "ffn_down_exps.weight").as_str(),
    )?;
    Ok(ExpertQuants { gate, up, down })
}

/// How the experts are evaluated, in one phase.
///
/// This is chosen when the weights are loaded, because it decides what is kept of them.
#[derive(Debug, Clone, Copy, PartialEq, Eq, Structural)]
pub enum MoeMode {
    /// Tokens are grouped by expert on the host, and each group is multiplied with its expert.
    Loop,
    /// A fused kernel reads the routing on the device and indexes the stacked experts.
    Fused,
}

impl Default for MoeMode {
    /// The experts one by one, which works everywhere.
    fn default() -> (r: Self)
        ensures
            r == MoeMode::Loop,
    {
        MoeMode::Loop
    }
}

impl MoeMode {
    /// The mode with a name; an error for any other name.
    pub fn parse(s: &str) -> (r: Result<Self>)
        ensures
            if s@ == "loop"@ {
                r == Ok::<Self, Error>(MoeMode::Loop)
            } else if s@ == "fused"@ {
                r == Ok::<Self, Error>(MoeMode::Fused)
            } else {
                r matches Err(e) && e.says(
                    "unknown MoE mode "@ + s@ + ", expected `loop` or `fused`"@,
                )
            },
    {
        if same_text(s, "loop") {
            return Ok(MoeMode::Loop);
        }
        if same_text(s, "fused") {
            return Ok(MoeMode::Fused);
        }
        let mut text: String = "unknown MoE mode ".to_owned();
        text.append(s);
        text.append(", expected `loop` or `fused`");
        Err(Error::Msg(text))
    }
}

impl core::str::FromStr for MoeMode {
    type Err = Error;

    /// The mode with a name; an error for any other name.
    fn from_str(s: &str) -> (r: core::result::Result<Self, Error>)
        ensures
            if s@ == "loop"@ {
                r == Ok::<Self, Error>(MoeMode::Loop)
            } else if s@ == "fused"@ {
                r == Ok::<Self, Error>(MoeMode::Fused)
            } else {
                r matches Err(e) && e.says(
                    "unknown MoE mode "@ + s@ + ", expected `loop` or `fused`"@,
                )
            },
    {
        MoeMode::parse(s)
    }
}

/// How the experts are evaluated for a whole prompt, and for one token at a time.
#[derive(Debug, Clone, Copy, PartialEq, Eq, Structural)]
pub struct MoeModes {
    pub prefill: MoeMode,
    pub decode: MoeMode,
}

impl Default for MoeModes {
    /// The experts one by one in both phases.
    fn default() -> (r: Self)
        ensures
            r == (MoeModes { prefill: MoeMode::Loop, decode: MoeMode::Loop }),
    {
        MoeModes { prefill: MoeMode::Loop, decode: MoeMode::Loop }
    }
}

impl MoeModes {
    /// Some phase is fused, so that the stacks have to be kept.
    pub open spec fn keeps_stacks(self) -> bool {
        self.prefill == MoeMode::Fused || self.decode == MoeMode::Fused
    }

    /// The same mode in both phases.
    pub fn both(mode: MoeMode) -> (r: Self)
        ensures
            r == (MoeModes { prefill: mode, decode: mode }),
    {
        MoeModes { prefill: mode, decode: mode }
    }

    /// Whether some phase is fused.
    pub fn any_fused(self) -> (r: bool)
        ensures
            r == self.keeps_stacks(),
    {
        self.prefill == MoeMode::Fused || self.decode == MoeMode::Fused
    }

    /// The mode that is asked for with this many tokens: one token is decoded, and any other
    /// number is a prompt.
    pub open spec fn asked(self, n_tokens: usize) -> MoeMode {
        if n_tokens == 1 {
            self.decode
        } else {
            self.prefill
        }
    }

    /// How the experts are evaluated for this many tokens: fused only where the stacks are kept.
    pub open spec fn phase(self, n_tokens: usize, stacked: bool) -> MoeMode {
        if stacked {
            self.asked(n_tokens)
        } else {
            MoeMode::Loop
        }
    }

    /// How the experts are evaluated for this many tokens, where the stacks are kept or not.
    pub fn phase_mode(self, n_tokens: usize, stacked: bool) -> (r: MoeMode)
        ensures
            r == self.phase(n_tokens, stacked),
    {
        let mode: MoeMode = if n_tokens == 1 {
            self.decode
        } else {
            self.prefill
        };
        match (mode, stacked) {
            (MoeMode::Fused, true) => MoeMode::Fused,
            _ => MoeMode::Loop,
        }
    }
}

/// With the stacks kept as the modes say, each phase is evaluated as it was asked for.
pub proof fn law_phases_as_asked(modes: MoeModes, n_tokens: usize)
    ensures
        modes.phase(n_tokens, modes.keeps_stacks()) == modes.asked(n_tokens),
{
}

/// The bytes of one expert in a stack of `total` bytes.
pub open spec fn expert_bytes(total: int, n_experts: int) -> int {
    total / n_experts
}

/// Every expert of a stack starts where storage can be cut.
pub open spec fn aliasable(dtype: GgmlDType, per_expert: int) -> bool {
    per_expert % 256 == 0 && per_expert % dtype.block_bytes() as int == 0
}

/// Why a stack cannot be dealt into experts.
pub open spec fn uneven_text(dims: Seq<usize>, total: usize, n_experts: usize) -> Seq<char> {
    "expert stack "@ + list_text(dims) + " of "@ + decimal_text(total as nat)
        + " bytes does not divide evenly into "@ + decimal_text(n_experts as nat) + " experts"@
}

/// Expert `e` of a stack: a range of the stack's allocation, or an allocation of its own with
/// those bytes.
pub open spec fn is_expert(x: QView, stack: QView, per_expert: int, e: int, shared: bool) -> bool {
    &&& x.wf()
    &&& x.dtype == stack.dtype
    &&& x.device == stack.device
    &&& x.data() == stack.data().subrange(e * per_expert, (e + 1) * per_expert)
    &&& if shared {
        x == viewed(stack, (e * per_expert) as usize, per_expert as usize)
    } else {
        !x.borrowed && x.offset == 0 && x.buffer == x.data()
    }
}

/// Cuts a stack of experts, `[n_experts, n_out, n_in]`, into one matrix for each.
///
/// Where `views` says that the device can cut storage, and every expert starts where that is
/// possible, all matrices share the stack's allocation. Otherwise each gets a copy. That is
/// decided once, from the experts' size: the first expert alone starts at zero, which is always
/// possible.
pub fn split_stacked_experts(t: &QMetalStorage, shape: &Shape, views: bool) -> (r: Result<
    Vec<QMetalStorage>,
>)
    requires
        t.model().wf(),
        shape@.len() == 3 ==> {
            &&& shape@[0] > 0
            &&& span(seq![shape@[1], shape@[2]]) * t.model().dtype.block_bytes() <= usize::MAX
        },
    ensures
        if shape@.len() != 3 {
            r matches Err(e) && e == (Error::UnexpectedNumberOfDims {
                expected: 3,
                got: shape@.len() as usize,
            })
        } else if t.model().size as int % shape@[0] as int != 0 {
            r matches Err(e) && e.says(uneven_text(shape@, t.model().size, shape@[0]))
        } else {
            let per_expert = expert_bytes(t.model().size as int, shape@[0] as int);
            let shared = views && aliasable(t.model().dtype, per_expert);
            let dims = seq![shape@[1], shape@[2]];
            if shared && stored_bytes(dims, t.model().dtype) != per_expert {
                r matches Err(e) && byte_view_outcome(
                    Err(e),
                    t.model(),
                    0,
                    per_expert as usize,
                    dims,
                )
            } else {
                &&& r matches Ok(v)
                &&& v@.len() == shape@[0]
                &&& forall|e: int|
                    0 <= e < v@.len() ==> is_expert(
                        (#[trigger] v@[e]).model(),
                        t.model(),
                        per_expert,
                        e,
                        shared,
                    )
            }
        },
{
    let (n_experts, n_out, n_in) = shape.dims3()?;
    let matrix: Vec<usize> = vec![n_out, n_in];
    assert(matrix@ =~= seq![n_out, n_in]);
    let dtype: GgmlDType = t.dtype();
    let total: usize = t.storage_size_in_bytes();
    let per_expert: usize = total / n_experts;
    proof {
        vstd::arithmetic::div_mod::lemma_fundamental_div_mod(total as int, n_experts as int);
        vstd::arithmetic::div_mod::lemma_mod_bound(total as int, n_experts as int);
        assert(per_expert * n_experts == n_experts * per_expert) by (nonlinear_arith);
    }
    if per_expert * n_experts != total {
        let mut text: String = "expert stack ".to_owned();
        text.append(list(shape.dims()).as_str());
        text.append(" of ");
        push_decimal(&mut text, total);
        text.append(" bytes does not divide evenly into ");
        push_decimal(&mut text, n_experts);
        text.append(" experts");
        return Err(Error::Msg(text));
    }
    let shared: bool = views && per_expert % 256 == 0 && per_expert % dtype.type_size() == 0;
    let data: Vec<u8> = if shared {
        Vec::new()
    } else {
        t.data()?
    };
    let ghost stack = t.model();
    let mut out: Vec<QMetalStorage> = Vec::new();
    let mut e: usize = 0;
    while e < n_experts
        invariant
            e <= n_experts,
            stack == t.model(),
            stack.wf(),
            dtype == stack.dtype,
            total == stack.size,
            total == n_experts * per_expert,
            shared ==> aliasable(dtype, per_expert as int),
            !shared ==> data@ == stack.data(),
            out@.len() == e,
            forall|i: int|
                0 <= i < e ==> is_expert(
                    (#[trigger] out@[i]).model(),
                    stack,
                    per_expert as int,
                    i,
                    shared,
                ),
            shape@.len() == 3,
            shape@[0] == n_experts,
            per_expert == expert_bytes(total as int, n_experts as int),
            total as int % n_experts as int == 0,
            shared == (views && aliasable(dtype, per_expert as int)),
            matrix@ == seq![shape@[1], shape@[2]],
            span(matrix@) * dtype.block_bytes() <= usize::MAX,
            e > 0 && shared ==> stored_bytes(matrix@, dtype) == per_expert,
        decreases n_experts - e,
    {
        proof {
            lemma_expert_range(e as int, n_experts as int, per_expert as int);
        }
        let start: usize = e * per_expert;
        if shared {
            proof {
                lemma_multiple(e as int, per_expert as int, 256);
                lemma_multiple(e as int, per_expert as int, dtype.block_bytes() as int);
                assert(viewable(stack, start, per_expert));
                crate::quantized::metal::law_view_is_a_range(stack, start, per_expert);
            }
            match t.byte_view(start, per_expert, matrix.as_slice()) {
                Ok(view) => {
                    out.push(view);
                },
                Err(e) => {
                    return Err(e);
                },
            }
        } else {
            let bytes: &[u8] = vstd::slice::slice_subrange(
                data.as_slice(),
                start,
                start + per_expert,
            );
            let own: QMetalStorage = load_quantized(t.device(), dtype, bytes)?;
            out.push(own);
        }
        e = e + 1;
    }
    Ok(out)
}

/// The bytes of expert `e` lie within the stack.
proof fn lemma_expert_range(e: int, n: int, per_expert: int)
    requires
        0 <= e < n,
        0 <= per_expert,
    ensures
        0 <= e * per_expert,
        (e + 1) * per_expert == e * per_expert + per_expert,
        (e + 1) * per_expert <= n * per_expert,
{
    assert(0 <= e * per_expert) by (nonlinear_arith)
        requires
            0 <= e,
            0 <= per_expert,
    ;
    assert((e + 1) * per_expert == e * per_expert + per_expert) by (nonlinear_arith);
    assert((e + 1) * per_expert <= n * per_expert) by (nonlinear_arith)
        requires
            e + 1 <= n,
            0 <= per_expert,
    ;
}

/// Multiples of a multiple of `m` are multiples of `m`.
proof fn lemma_multiple(e: int, a: int, m: int)
    requires
        m > 0,
        a % m == 0,
    ensures
        (e * a) % m == 0,
{
    vstd::arithmetic::div_mod::lemma_mul_mod_noop_right(e, a, m);
    assert(e * 0 == 0);
    assert(0int % m == 0) by {
        vstd::arithmetic::div_mod::lemma_small_mod(0, m as nat);
    }
}

/// Shared or copied, the experts of a stack hold the same bytes: those of the stack, dealt evenly.
pub proof fn law_experts_hold_the_stack(
    shared: QView,
    copied: QView,
    stack: QView,
    per_expert: int,
    e: int,
)
    requires
        is_expert(shared, stack, per_expert, e, true),
        is_expert(copied, stack, per_expert, e, false),
    ensures
        shared.data() == copied.data(),
        shared.dtype == copied.dtype,
{
}

/// The fused kernels read the experts that the stack is cut into: in a stack that they take, they
/// step by the bytes of one expert, which is where the next one starts.
pub proof fn law_fused_reads_the_experts(
    x: QView,
    stack: QView,
    n_experts: usize,
    n: usize,
    k: usize,
    e: int,
    shared: bool,
)
    requires
        stack.wf(),
        0 <= e < n_experts,
        expert_row_bytes(stack.dtype, k) * n * n_experts == stack.size,
        is_expert(x, stack, expert_bytes(stack.size as int, n_experts as int), e, shared),
    ensures
        ({
            let stride = expert_row_bytes(stack.dtype, k) * n;
            &&& stack.size as int % n_experts as int == 0
            &&& expert_bytes(stack.size as int, n_experts as int) == stride
            &&& x.data() == stack.data().subrange(e * stride, e * stride + stride)
            &&& shared ==> x.buffer == stack.buffer && x.offset == stack.offset + e * stride
        }),
{
    let stride = expert_row_bytes(stack.dtype, k) * n;
    vstd::arithmetic::div_mod::lemma_fundamental_div_mod_converse(
        stack.size as int,
        n_experts as int,
        stride,
        0,
    );
    assert(stride >= 0) by (nonlinear_arith)
        requires
            stride * n_experts == stack.size,
            n_experts > 0,
            stack.size >= 0,
    ;
    lemma_expert_range(e, n_experts as int, stride);
    assert(n_experts * stride == stack.size) by (nonlinear_arith)
        requires
            stride * n_experts == stack.size,
    ;
}

/// The launch reads weights from the byte `at` of their allocation on.
pub open spec fn reads_weights<'a>(l: Launch<'a, Operand>, at: int) -> bool {
    l.args@[0] matches Arg::Input(operand, offset) && operand is Weights && offset == at
}

/// A fused launch steps by `stride` bytes from one expert to the next. `vectors` tells the
/// matrix-vector kernels from the matrix-matrix kernels.
pub open spec fn steps_by<'a>(l: Launch<'a, Operand>, vectors: bool, stride: int) -> bool {
    l.args@[if vectors {
        12int
    } else {
        10int
    }] matches Arg::U64(bytes) && bytes == stride
}

/// The fused launches read each expert where a launch on a view of that expert reads it: they
/// start at the stack, and take `e` steps to expert `e`.
pub proof fn law_fused_launches_read_the_views(
    fused: (Plan, Shape),
    single: (Plan, Shape),
    x: QView,
    stack: QView,
    self_shape: Seq<usize>,
    device: MetalDevice,
    input_l: Layout,
    ids_l: Layout,
    dtype: DType,
    layout: Layout,
    e: int,
)
    requires
        stack.wf(),
        self_shape.len() == 3,
        0 <= e < self_shape[0],
        moe_outcome(
            Ok(fused),
            stack,
            self_shape,
            device,
            DType::F32,
            input_l,
            DType::U32,
            ids_l,
        ),
        is_expert(x, stack, expert_bytes(stack.size as int, self_shape[0] as int), e, true),
        fwd_outcome(
            Ok(single),
            x,
            seq![self_shape[1], self_shape[2]],
            device,
            dtype,
            layout,
        ),
    ensures
        ({
            let stride = expert_row_bytes(stack.dtype, self_shape[2]) * self_shape[1];
            let vectors = input_l.shape@[0] == 1 || vectors_only(stack.dtype);
            &&& forall|i: int|
                0 <= i < fused.0.launches@.len() ==> reads_weights(
                    #[trigger] fused.0.launches@[i],
                    stack.offset as int,
                ) && steps_by(fused.0.launches@[i], vectors, stride)
            &&& forall|j: int|
                0 <= j < single.0.launches@.len() ==> reads_weights(
                    #[trigger] single.0.launches@[j],
                    stack.offset + e * stride,
                )
        }),
{
    let stride = expert_row_bytes(stack.dtype, self_shape[2]) * self_shape[1];
    law_fused_reads_the_experts(
        x,
        stack,
        self_shape[0],
        self_shape[1],
        self_shape[2],
        e,
        true,
    );
    assert(0 <= stride <= stack.size) by (nonlinear_arith)
        requires
            stride * self_shape[0] == stack.size,
            self_shape[0] > 0,
            stack.size >= 0,
    ;
}

} // verus!
