//! The whole model: its layers, what it may look at, and the states it can be put into.

use crate::arith::{product, span};
use crate::error::{first_of, refusal_of, Error, Refusal, Result};
use crate::models::embedding::{all_rows, embedded, first_beyond};
use crate::models::qwen3_5::config::{config_of, countable_heads, Config};
use crate::models::qwen3_5::gguf::{tensor_at, Content, Gguf};
use crate::models::qwen3_5::layer::{countable_layer, installed, layer_of, LayerWeights};
use crate::models::qwen3_5::moe::{MoeMode, MoeModes};
use crate::models::qwen3_5::rotary::{check_rotary_dim, rotary_text, rotatable};
use crate::models::qwen3_5::state::{LayerState, LayerView};
use crate::tensor::{Backend, Element, Tensor};
use crate::text::{decimal_text, push_decimal};
use vstd::prelude::*;
use vstd::string::*;

verus! {

/// A model: where its weights are in the table, and what its layers carry along.
#[derive(Debug)]
pub struct ModelWeights<E> {
    pub embed_tokens: usize,
    pub layers: Vec<LayerWeights<E>>,
    pub norm: usize,
    pub lm_head: usize,
    pub config: Config,
}

/// Why the layers of a file cannot be found: the first of them, from `i` on, that cannot.
pub open spec fn layers_refusal<E>(
    ct: Content,
    cfg: Config,
    modes: MoeModes,
    n: int,
    i: int,
) -> Option<Refusal>
    decreases n - i,
{
    if i >= n {
        None
    } else {
        match layer_of::<E>(ct, i as usize, cfg, modes) {
            Err(why) => Some(why),
            Ok(_) => layers_refusal::<E>(ct, cfg, modes, n, i + 1),
        }
    }
}

/// Why a model cannot be found, once its sizes are known.
pub open spec fn model_refusal<E>(ct: Content, cfg: Config, modes: MoeModes) -> Option<Refusal> {
    first_of(
        refusal_of(tensor_at(ct, "token_embd.weight"@)),
        first_of(
            if rotatable(cfg.head_dim, cfg.rotary_dim) {
                None
            } else {
                Some(Refusal::Says(rotary_text(cfg.head_dim, cfg.rotary_dim)))
            },
            first_of(
                layers_refusal::<E>(ct, cfg, modes, cfg.num_layers as int, 0),
                refusal_of(tensor_at(ct, "output_norm.weight"@)),
            ),
        ),
    )
}

/// Where the output projection is in the table: it may be that of the embedding.
pub open spec fn output_place(ct: Content) -> usize {
    match tensor_at(ct, "output.weight"@) {
        Ok(i) => i,
        Err(_) => tensor_at(ct, "token_embd.weight"@)->Ok_0,
    }
}

/// `m` is the model of a file, with nothing carried along.
pub open spec fn is_model<E>(
    m: ModelWeights<E>,
    ct: Content,
    cfg: Config,
    modes: MoeModes,
) -> bool {
    &&& tensor_at(ct, "token_embd.weight"@) == Ok::<usize, Refusal>(m.embed_tokens)
    &&& m.layers@.len() == cfg.num_layers
    &&& forall|i: int|
        0 <= i < m.layers@.len() ==> layer_of::<E>(ct, i as usize, cfg, modes) == Ok::<
            LayerWeights<E>,
            Refusal,
        >(#[trigger] m.layers@[i])
    &&& tensor_at(ct, "output_norm.weight"@) == Ok::<usize, Refusal>(m.norm)
    &&& m.lm_head == output_place(ct)
    &&& m.config == cfg
}

/// The extents of the layers that are looked for can be worked out.
pub open spec fn countable_model<E>(ct: Content, modes: MoeModes) -> bool {
    &&& countable_heads(ct)
    &&& config_of(ct) matches Ok(cfg) ==> forall|i: int|
        0 <= i < cfg.num_layers && tensor_at(ct, "token_embd.weight"@) is Ok && rotatable(
            cfg.head_dim,
            cfg.rotary_dim,
        ) && #[trigger] layers_refusal::<E>(ct, cfg, modes, i, 0) is None ==> countable_layer::<E>(
            ct,
            i as usize,
            cfg,
        )
}

/// Position `i` of a call may look at position `j`, where `offset` positions came before the call.
pub open spec fn visible(i: int, j: int, offset: int) -> bool {
    j <= i + offset
}

/// How far a position may look depends on where it is, and not on where a call starts.
pub proof fn law_visibility_by_position(i1: int, offset1: int, i2: int, offset2: int, j: int)
    requires
        i1 + offset1 == i2 + offset2,
    ensures
        visible(i1, j, offset1) == visible(i2, j, offset2),
{
}

/// A position that comes alone may look at everything, so that it needs no mask.
pub proof fn law_one_position_sees_all(j: int, offset: int)
    requires
        0 <= j < 1 + offset,
    ensures
        visible(0, j, offset),
{
}

/// What a call needs to know before the layers run.
#[derive(Debug)]
pub struct Step {
    /// Which positions may look at which, where that is not all of them.
    pub mask: Option<Tensor<bool>>,
    /// The position whose output is asked for.
    pub last: usize,
}

/// `m` says which of `tgt` positions may look at which.
pub open spec fn is_mask(m: Tensor<bool>, b: usize, tgt: usize, offset: usize) -> bool {
    &&& m.wf()
    &&& m.dims@ == seq![b, 1, tgt, (tgt + offset) as usize]
    &&& forall|a: int, i: int, j: int|
        0 <= a < b && 0 <= i < tgt && 0 <= j < tgt + offset ==> #[trigger] m.at4(a, 0, i, j)
            == visible(i, j, offset as int)
}

/// The extents of a mask can be counted.
pub open spec fn mask_fits(b: usize, tgt: usize, offset: usize) -> bool {
    &&& tgt + offset <= usize::MAX
    &&& tgt * (tgt + offset) <= usize::MAX
    &&& span(seq![b, 1, tgt, (tgt + offset) as usize]) <= usize::MAX
}

/// What asking for a mask hands back: there is one row of it for each position, so that there
/// has to be one sequence at a time.
pub open spec fn mask_outcome(r: Result<Tensor<bool>>, b: usize, tgt: usize, offset: usize) -> bool {
    let dims = seq![b, 1, tgt, (tgt + offset) as usize];
    if tgt * (tgt + offset) != product(dims) {
        r matches Err(e) && e.is_mismatch(
            seq![(tgt * (tgt + offset)) as usize],
            dims,
            "from_vec"@,
        )
    } else {
        r matches Ok(m) && is_mask(m, b, tgt, offset)
    }
}

/// Which of `tgt` positions may look at which, where `offset` positions came before them.
pub fn causal_mask(b: usize, tgt: usize, offset: usize, backend: Backend) -> (r: Result<
    Tensor<bool>,
>)
    requires
        mask_fits(b, tgt, offset),
    ensures
        mask_outcome(r, b, tgt, offset),
{
    let wide: usize = tgt + offset;
    let total: usize = tgt * wide;
    let mut mask: Vec<bool> = Vec::with_capacity(total);
    let mut p: usize = 0;
    while p < total
        invariant
            p <= total,
            total == tgt * wide,
            wide == tgt + offset,
            mask@.len() == p,
            forall|q: int|
                0 <= q < p ==> #[trigger] mask@[q] == visible(
                    q / wide as int,
                    q % wide as int,
                    offset as int,
                ),
        decreases total - p,
    {
        proof {
            assert(wide > 0) by (nonlinear_arith)
                requires
                    p < tgt * wide,
            ;
            crate::arith::lemma_index_join(p as int, tgt as int, wide as int);
        }
        let i: usize = p / wide;
        let j: usize = p % wide;
        mask.push(j <= i + offset);
        p = p + 1;
    }
    let dims: Vec<usize> = vec![b, 1, tgt, wide];
    assert(dims@ =~= seq![b, 1, tgt, wide]);
    let r: Result<Tensor<bool>> = Tensor::from_vec(mask, dims.as_slice(), backend);
    proof {
        if r is Ok {
            let m = r->Ok_0;
            assert forall|a: int, i: int, j: int|
                0 <= a < b && 0 <= i < tgt && 0 <= j < wide implies #[trigger] m.at4(a, 0, i, j)
                == visible(i, j, offset as int) by {
                crate::arith::lemma_index_bound(i, j, tgt as int, wide as int);
                lemma_one_sequence(b as int, tgt as int, wide as int);
                assert(a == 0);
                assert(((a * 1 + 0) * tgt + i) * wide + j == i * wide + j) by (nonlinear_arith)
                    requires
                        a == 0,
                ;
                crate::arith::lemma_index_split(i, j, wide as int);
                assert(m.data@[i * wide + j] == visible(i, j, offset as int));
            }
        }
    }
    r
}

/// One row for each position is enough for one sequence only.
proof fn lemma_one_sequence(b: int, tgt: int, wide: int)
    requires
        tgt > 0,
        wide > 0,
        0 < b <= usize::MAX,
        tgt <= usize::MAX,
        wide <= usize::MAX,
        tgt * wide == product(seq![b as usize, 1, tgt as usize, wide as usize]),
    ensures
        b == 1,
{
    crate::conv2d::lemma_product_four(seq![b as usize, 1, tgt as usize, wide as usize]);
    assert(b == 1) by (nonlinear_arith)
        requires
            tgt * wide == b * (1 * (tgt * wide)),
            tgt > 0,
            wide > 0,
    ;
}

/// What the layers of a model carry along.
pub open spec fn carried_by<E: Element>(layers: Seq<LayerWeights<E>>) -> Seq<LayerView<E>> {
    layers.map_values(|l: LayerWeights<E>| l.carried())
}

/// What states amount to.
pub open spec fn views_of<E>(states: Seq<LayerState<E>>) -> Seq<LayerView<E>> {
    states.map_values(|s: LayerState<E>| s@)
}

/// The first layer, from `i` on, that turns its state down, and why.
pub open spec fn first_refused<E>(
    held: Seq<LayerView<E>>,
    states: Seq<LayerView<E>>,
    i: int,
) -> Option<(int, Refusal)>
    decreases held.len() - i,
{
    if i < 0 || i >= held.len() {
        None
    } else {
        match installed(held[i], states[i], i as usize) {
            Err(why) => Some((i, why)),
            Ok(_) => first_refused(held, states, i + 1),
        }
    }
}

/// The layers before the first one that turns its state down take theirs.
proof fn lemma_first_refused<E>(held: Seq<LayerView<E>>, states: Seq<LayerView<E>>, i: int)
    requires
        0 <= i,
    ensures
        match first_refused(held, states, i) {
            Some(at) => {
                &&& i <= at.0 < held.len()
                &&& installed(held[at.0], states[at.0], at.0 as usize) == Err::<
                    LayerView<E>,
                    Refusal,
                >(at.1)
                &&& forall|j: int|
                    i <= j < at.0 ==> installed(#[trigger] held[j], states[j], j as usize) is Ok
            },
            None => forall|j: int|
                i <= j < held.len() ==> installed(#[trigger] held[j], states[j], j as usize) is Ok,
        },
    decreases held.len() - i,
{
    if i < held.len() {
        lemma_first_refused(held, states, i + 1);
    }
}

impl<E: Element> ModelWeights<E> {
    /// What the layers carry along is well formed.
    pub open spec fn wf(&self) -> bool {
        forall|i: int| 0 <= i < self.layers@.len() ==> (#[trigger] self.layers@[i]).wf()
    }

    /// What the layers carry along.
    pub open spec fn carried(&self) -> Seq<LayerView<E>> {
        carried_by(self.layers@)
    }

    /// This and another model have the same weights.
    pub open spec fn same_weights(&self, other: &Self) -> bool {
        &&& self.embed_tokens == other.embed_tokens
        &&& self.norm == other.norm
        &&& self.lm_head == other.lm_head
        &&& self.config == other.config
        &&& self.layers@.len() == other.layers@.len()
        &&& forall|i: int|
            0 <= i < self.layers@.len() ==> (#[trigger] self.layers@[i]).bare()
                == other.layers@[i].bare()
    }

    /// Finds a model in the header of a file, with the experts one by one.
    pub fn from_gguf(ct: &Content) -> (r: Result<Self>)
        requires
            countable_model::<E>(
                *ct,
                (MoeModes { prefill: MoeMode::Loop, decode: MoeMode::Loop }),
            ),
        ensures
            model_outcome(
                r,
                *ct,
                (MoeModes { prefill: MoeMode::Loop, decode: MoeMode::Loop }),
            ),
    {
        Self::from_gguf_with_moe(ct, MoeModes::default())
    }

    /// Finds a model in the header of a file. How the experts are evaluated is chosen here,
    /// because it decides what has to be kept of them.
    pub fn from_gguf_with_moe(ct: &Content, moe_modes: MoeModes) -> (r: Result<Self>)
        requires
            countable_model::<E>(*ct, moe_modes),
        ensures
            model_outcome(r, *ct, moe_modes),
    {
        let gg: Gguf = Gguf::new(ct);
        let config: Config = Config::read(ct)?;
        let embed_tokens: usize = gg.tensor("token_embd.weight")?;
        check_rotary_dim(config.head_dim, config.rotary_dim)?;
        let n: usize = config.num_layers;
        let mut layers: Vec<LayerWeights<E>> = Vec::new();
        let mut failed: Option<Error> = None;
        let mut i: usize = 0;
        while failed.is_none() && i < n
            invariant
                i <= n,
                n == config.num_layers,
                *gg.ct == *ct,
                config_of(*ct) == Ok::<Config, Refusal>(config),
                countable_model::<E>(*ct, moe_modes),
                tensor_at(*ct, "token_embd.weight"@) is Ok,
                rotatable(config.head_dim, config.rotary_dim),
                failed is None ==> {
                    &&& layers_refusal::<E>(*ct, config, moe_modes, n as int, 0)
                        == layers_refusal::<E>(*ct, config, moe_modes, n as int, i as int)
                    &&& layers_refusal::<E>(*ct, config, moe_modes, i as int, 0) is None
                    &&& layers@.len() == i
                    &&& forall|j: int|
                        0 <= j < i ==> layer_of::<E>(*ct, j as usize, config, moe_modes) == Ok::<
                            LayerWeights<E>,
                            Refusal,
                        >(#[trigger] layers@[j])
                },
                failed matches Some(e) ==> layers_refusal::<E>(
                    *ct,
                    config,
                    moe_modes,
                    n as int,
                    0,
                ) matches Some(why) && why.is(e),
            decreases n - i,
        {
            proof {
                assert(countable_layer::<E>(*ct, i, config));
            }
            match LayerWeights::new(&gg, i, &config, moe_modes) {
                Ok(layer) => {
                    layers.push(layer);
                    proof {
                        assert forall|j: int| 0 <= j < i + 1 implies layer_of::<E>(
                            *ct,
                            j as usize,
                            config,
                            moe_modes,
                        ) == Ok::<LayerWeights<E>, Refusal>(#[trigger] layers@[j]) by {}
                        lemma_prefix_found::<E>(*ct, config, moe_modes, i as int + 1, layers@, 0);
                    }
                },
                Err(e) => {
                    failed = Some(e);
                },
            }
            i = i + 1;
        }
        if let Some(e) = failed {
            return Err(e);
        }
        let norm: usize = gg.tensor("output_norm.weight")?;
        let lm_head: usize = match gg.tensor("output.weight") {
            Ok(tensor) => tensor,
            Err(_) => gg.tensor("token_embd.weight")?,
        };
        Ok(ModelWeights { embed_tokens, layers, norm, lm_head, config })
    }

    /// What a call on `[batch, length]` tokens needs to know, where `offset` positions came
    /// before: which positions may look at which, and whose output is asked for. A position that
    /// comes alone may look at everything.
    pub fn step(&self, b: usize, l: usize, offset: usize, backend: Backend) -> (r: Result<Step>)
        requires
            l > 0,
            mask_fits(b, l, offset),
        ensures
            if l == 1 {
                r matches Ok(s) && s.mask is None && s.last == 0
            } else if l * (l + offset) != product(seq![b, 1, l, (l + offset) as usize]) {
                r matches Err(e) && e.is_mismatch(
                    seq![(l * (l + offset)) as usize],
                    seq![b, 1, l, (l + offset) as usize],
                    "from_vec"@,
                )
            } else {
                &&& r matches Ok(s)
                &&& s.mask matches Some(m) && is_mask(m, b, l, offset)
                &&& s.last == l - 1
            },
    {
        let mask: Option<Tensor<bool>> = if l == 1 {
            None
        } else {
            Some(causal_mask(b, l, offset, backend)?)
        };
        Ok(Step { mask, last: l - 1 })
    }

    /// The embeddings of the tokens of a call, `[batch, length, width]`; an error for a token that
    /// has none, or for embeddings of another width than the model's.
    pub fn embed(&self, ids: &[u32], b: usize, l: usize, table: &Tensor<E>) -> (r: Result<
        Tensor<E>,
    >)
        requires
            table.wf(),
            table.dims@.len() == 2,
            ids@.len() == b * l,
            span(seq![b, l, table.dims@[1]]) <= usize::MAX,
            span(seq![b, l, self.config.hidden_size]) <= usize::MAX,
        ensures
            ({
                let (width, hidden) = (table.dims@[1], self.config.hidden_size);
                if !all_rows(ids@, table.dims@[0]) {
                    r matches Err(e) && exists|i: int| #[trigger]
                        first_beyond(ids@, table.dims@[0], i) && e.is_beyond(
                            ids@[i] as int,
                            table.dims@[0],
                            "index-select"@,
                        )
                } else if width != hidden && b * l != 0 {
                    r matches Err(e) && e.is_mismatch(
                        seq![(b * l) as usize, width],
                        seq![b, l, hidden],
                        "reshape"@,
                    )
                } else {
                    &&& r matches Ok(x)
                    &&& x.wf()
                    &&& x.dims@ == seq![b, l, hidden]
                    &&& forall|a: int, t: int, c: int|
                        0 <= a < b && 0 <= t < l && 0 <= c < hidden ==> #[trigger] x.at3(a, t, c)
                            == table.at2(ids@[a * l + t] as int, c)
                }
            }),
    {
        let x: Tensor<E> = embedded(ids, b, l, table)?;
        let (n, width, hidden) = (ids.len(), table.dims[1], self.config.hidden_size);
        let wanted: Vec<usize> = vec![b, l, hidden];
        assert(wanted@ =~= seq![b, l, hidden]);
        if width != hidden && n != 0 {
            let lhs: Vec<usize> = vec![n, width];
            assert(lhs@ =~= seq![n, width]);
            return Err(Error::ShapeMismatchBinaryOp { lhs, rhs: wanted, op: "reshape" });
        }
        proof {
            crate::arith::lemma_span_three(b, l, hidden);
            crate::arith::lemma_span_three(b, l, width);
            assert(b * (l * hidden) == b * (l * width)) by (nonlinear_arith)
                requires
                    width == hidden || b * l == 0,
            ;
            if b * l == 0 {
                assert(b == 0 || l == 0) by (nonlinear_arith)
                    requires
                        b * l == 0,
                ;
            }
        }
        let r: Tensor<E> = Tensor {
            dims: wanted,
            data: x.data,
            is_variable: false,
            op: None,
            backend: x.backend,
        };
        proof {
            assert forall|a: int, t: int, c: int|
                0 <= a < b && 0 <= t < l && 0 <= c < hidden implies #[trigger] r.at3(a, t, c)
                == table.at2(ids@[a * l + t] as int, c) by {
                assert(x.at3(a, t, c) == table.at2(ids@[a * l + t] as int, c));
            }
        }
        Ok(r)
    }

    /// Forgets all tokens.
    pub fn clear_kv_cache(&mut self)
        requires
            old(self).wf(),
        ensures
            final(self).same_weights(old(self)),
            final(self).wf(),
            final(self).carried() == old(self).carried().map_values(
                |v: LayerView<E>| v.cleared(),
            ),
    {
        let n: usize = self.layers.len();
        let mut i: usize = 0;
        while i < n
            invariant
                i <= n,
                n == self.layers@.len(),
                n == old(self).layers@.len(),
                self.wf(),
                self.same_weights(old(self)),
                forall|j: int|
                    0 <= j < i ==> (#[trigger] self.layers@[j]).carried()
                        == old(self).layers@[j].carried().cleared(),
                forall|j: int|
                    i <= j < n ==> #[trigger] self.layers@[j] == old(self).layers@[j],
            decreases n - i,
        {
            self.layers[i].clear_kv_cache();
            i = i + 1;
        }
        assert(self.carried() =~= old(self).carried().map_values(|v: LayerView<E>| v.cleared()));
    }

    /// What each layer carries along, in the order of the layers.
    pub fn layer_states(&self) -> (r: Vec<LayerState<E>>)
        requires
            self.wf(),
        ensures
            views_of(r@) == self.carried(),
            forall|i: int| 0 <= i < r@.len() ==> (#[trigger] r@[i]).wf(),
    {
        let n: usize = self.layers.len();
        let mut r: Vec<LayerState<E>> = Vec::new();
        let mut i: usize = 0;
        while i < n
            invariant
                i <= n,
                n == self.layers@.len(),
                self.wf(),
                r@.len() == i,
                forall|j: int|
                    0 <= j < i ==> (#[trigger] r@[j])@ == self.layers@[j].carried() && r@[j].wf(),
            decreases n - i,
        {
            assert(self.layers@[i as int].wf());
            r.push(self.layers[i].state());
            i = i + 1;
        }
        assert(views_of(r@) =~= self.carried());
        r
    }

    /// Puts a state into each layer. States that do not go with the layers are turned down: there
    /// has to be one for each layer, of the layer's kind, and whole. The layers before the first
    /// one that turns its state down have taken theirs by then.
    pub fn set_layer_states(&mut self, states: &[LayerState<E>]) -> (r: Result<()>)
        requires
            old(self).wf(),
            forall|i: int| 0 <= i < states@.len() ==> (#[trigger] states@[i]).wf(),
        ensures
            final(self).same_weights(old(self)),
            final(self).wf(),
            ({
                let held = old(self).carried();
                let now = final(self).carried();
                let given = views_of(states@);
                if states@.len() != held.len() {
                    &&& r matches Err(e) && e.says(
                        "state has "@ + decimal_text(states@.len()) + " layers, model has "@
                            + decimal_text(held.len()),
                    )
                    &&& now == held
                } else {
                    match first_refused(held, given, 0) {
                        None => r is Ok && forall|i: int|
                            0 <= i < held.len() ==> installed(held[i], given[i], i as usize)
                                == Ok::<LayerView<E>, Refusal>(#[trigger] now[i]),
                        Some(at) => {
                            &&& r matches Err(e) && at.1.is(e)
                            &&& forall|i: int|
                                0 <= i < at.0 ==> installed(held[i], given[i], i as usize)
                                    == Ok::<LayerView<E>, Refusal>(#[trigger] now[i])
                            &&& forall|i: int|
                                at.0 <= i < held.len() ==> #[trigger] now[i] == held[i]
                        },
                    }
                }
            }),
    {
        let n: usize = self.layers.len();
        if states.len() != n {
            let mut text: String = "state has ".to_owned();
            push_decimal(&mut text, states.len());
            text.append(" layers, model has ");
            push_decimal(&mut text, n);
            return Err(Error::Msg(text));
        }
        let ghost held = old(self).carried();
        let ghost given = views_of(states@);
        let mut i: usize = 0;
        while i < n
            invariant
                i <= n,
                n == self.layers@.len(),
                n == old(self).layers@.len(),
                n == states@.len(),
                held == old(self).carried(),
                given == views_of(states@),
                forall|j: int| 0 <= j < states@.len() ==> (#[trigger] states@[j]).wf(),
                self.wf(),
                self.same_weights(old(self)),
                first_refused(held, given, 0) == first_refused(held, given, i as int),
                forall|j: int|
                    0 <= j < i ==> installed(held[j], given[j], j as usize) == Ok::<
                        LayerView<E>,
                        Refusal,
                    >((#[trigger] self.layers@[j]).carried()),
                forall|j: int|
                    i <= j < n ==> #[trigger] self.layers@[j] == old(self).layers@[j],
            decreases n - i,
        {
            assert(self.layers@[i as int].wf());
            assert(states@[i as int].wf());
            assert(held[i as int] == self.layers@[i as int].carried());
            assert(given[i as int] == states@[i as int]@);
            match self.layers[i].set_state(i, &states[i]) {
                Ok(_) => {},
                Err(e) => {
                    return Err(e);
                },
            }
            i = i + 1;
        }
        Ok(())
    }
}

/// What looking for a model hands back.
pub open spec fn model_outcome<E>(
    r: Result<ModelWeights<E>>,
    ct: Content,
    modes: MoeModes,
) -> bool {
    match config_of(ct) {
        Err(why) => r matches Err(e) && why.is(e),
        Ok(cfg) => match model_refusal::<E>(ct, cfg, modes) {
            Some(why) => r matches Err(e) && why.is(e),
            None => r matches Ok(m) && is_model(m, ct, cfg, modes),
        },
    }
}

/// Layers that were all found are turned down by none.
proof fn lemma_prefix_found<E>(
    ct: Content,
    cfg: Config,
    modes: MoeModes,
    n: int,
    layers: Seq<LayerWeights<E>>,
    i: int,
)
    requires
        0 <= i <= n <= layers.len(),
        forall|j: int|
            0 <= j < n ==> layer_of::<E>(ct, j as usize, cfg, modes) == Ok::<LayerWeights<E>, Refusal>(
                #[trigger] layers[j],
            ),
    ensures
        layers_refusal::<E>(ct, cfg, modes, n, i) is None,
    decreases n - i,
{
    if i < n {
        assert(layer_of::<E>(ct, i as usize, cfg, modes) == Ok::<LayerWeights<E>, Refusal>(layers[i]));
        lemma_prefix_found(ct, cfg, modes, n, layers, i + 1);
    }
}

/// States that are read off a model can be put back into it, or into another one whose layers are
/// of the same kinds: every layer takes its state as it is.
pub proof fn law_states_put_back<E>(held: Seq<LayerView<E>>, states: Seq<LayerView<E>>)
    requires
        held.len() == states.len(),
        forall|i: int| 0 <= i < held.len() ==> (#[trigger] states[i]).complete(),
        forall|i: int| 0 <= i < held.len() ==> held[i] is Kv == #[trigger] states[i] is Kv,
    ensures
        first_refused(held, states, 0) is None,
        forall|i: int|
            0 <= i < held.len() ==> installed(held[i], states[i], i as usize) == Ok::<
                LayerView<E>,
                Refusal,
            >(#[trigger] states[i]),
{
    lemma_first_refused(held, states, 0);
    assert forall|i: int| 0 <= i < held.len() implies installed(held[i], states[i], i as usize)
        == Ok::<LayerView<E>, Refusal>(#[trigger] states[i]) by {
        assert(states[i].complete());
        assert(held[i] is Kv == states[i] is Kv);
        crate::models::qwen3_5::layer::law_state_put_back(held[i], states[i], i as usize);
    }
    if first_refused(held, states, 0) is Some {
        let at = first_refused(held, states, 0)->Some_0;
        assert(states[at.0].complete());
    }
}

} // verus!
