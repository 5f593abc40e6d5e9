//! The gated delta network: a causal convolution and a recurrence, both of which carry a state of
//! fixed size from call to call.

use crate::arith::{product, span};
use crate::conv::{
    conv1d_at, conv1d_ends, conv1d_outcome, conv1d_params, conv1d_sum, is_conv1d, plane,
    ParamsConv1D,
};
use crate::conv2d::{lemma_at4_in_range, lemma_product_four};
use crate::error::{agrees, first_of, Error, Refusal, Result};
use crate::models::qwen3_5::ffn::{layer_place, missing, place};
use crate::models::qwen3_5::gguf::{Content, Gguf};
use crate::models::qwen3_5::repeat::{repeat_tiled, tiled};
use crate::models::state::{
    grow_refusal, grown, grown_dims, maybe_wf, put_behind, State,
};
use crate::shape::copy_dims;
use crate::tensor::{appended, narrowed, within, Backend, Element, Tensor};
use vstd::prelude::*;

verus! {

/// A gated delta network: where its weights are in the table, its extents, and what it carries
/// along.
#[derive(Debug)]
pub struct GatedDeltaNetWeights<E> {
    pub num_v_heads: usize,
    pub num_k_heads: usize,
    pub head_k_dim: usize,
    pub head_v_dim: usize,
    pub key_dim: usize,
    pub value_dim: usize,
    pub conv_dim: usize,
    pub conv_kernel_size: usize,
    pub in_proj_qkv: usize,
    pub in_proj_z: usize,
    pub in_proj_b: usize,
    pub in_proj_a: usize,
    pub out_proj: usize,
    pub conv1d_weight: usize,
    /// The decay of each head, which the file holds as it is used.
    pub neg_a: usize,
    pub dt_bias: usize,
    pub norm_weight: usize,
    /// The last columns that the convolution has seen, one fewer than it has taps.
    pub conv_state: Option<State<E>>,
    pub recurrent_state: Option<State<E>>,
}

/// The extents of a gated delta network.
#[derive(Debug, Clone, Copy, PartialEq, Eq, Structural)]
pub struct DeltaDims {
    pub num_v_heads: usize,
    pub num_k_heads: usize,
    pub head_k_dim: usize,
    pub head_v_dim: usize,
    pub conv_kernel_size: usize,
}

impl DeltaDims {
    /// The width of all queries, or of all keys.
    pub open spec fn key_dim(self) -> int {
        self.head_k_dim * self.num_k_heads
    }

    /// The width of all values.
    pub open spec fn value_dim(self) -> int {
        self.head_v_dim * self.num_v_heads
    }

    /// The width of queries, keys and values together.
    pub open spec fn conv_dim(self) -> int {
        self.key_dim() * 2 + self.value_dim()
    }
}

/// Why a gated delta network cannot be found: the first of its tensors that is missing.
pub open spec fn delta_refusal(ct: Content, layer: usize) -> Option<Refusal> {
    let m = |suffix: Seq<char>| missing(ct, layer, suffix);
    first_of(
        m("attn_qkv.weight"@),
        first_of(
            m("attn_gate.weight"@),
            first_of(
                m("ssm_beta.weight"@),
                first_of(
                    m("ssm_alpha.weight"@),
                    first_of(
                        m("ssm_out.weight"@),
                        first_of(
                            m("ssm_conv1d.weight"@),
                            first_of(
                                m("ssm_a"@),
                                first_of(m("ssm_dt.bias"@), m("ssm_norm.weight"@)),
                            ),
                        ),
                    ),
                ),
            ),
        ),
    )
}

/// The gated delta network of a layer, or why there is none.
pub open spec fn delta_of<E>(ct: Content, layer: usize, dims: DeltaDims) -> core::result::Result<
    GatedDeltaNetWeights<E>,
    Refusal,
> {
    match delta_refusal(ct, layer) {
        Some(why) => Err(why),
        None => Ok(
            GatedDeltaNetWeights {
                num_v_heads: dims.num_v_heads,
                num_k_heads: dims.num_k_heads,
                head_k_dim: dims.head_k_dim,
                head_v_dim: dims.head_v_dim,
                key_dim: dims.key_dim() as usize,
                value_dim: dims.value_dim() as usize,
                conv_dim: dims.conv_dim() as usize,
                conv_kernel_size: dims.conv_kernel_size,
                in_proj_qkv: place(ct, layer, "attn_qkv.weight"@),
                in_proj_z: place(ct, layer, "attn_gate.weight"@),
                in_proj_b: place(ct, layer, "ssm_beta.weight"@),
                in_proj_a: place(ct, layer, "ssm_alpha.weight"@),
                out_proj: place(ct, layer, "ssm_out.weight"@),
                conv1d_weight: place(ct, layer, "ssm_conv1d.weight"@),
                neg_a: place(ct, layer, "ssm_a"@),
                dt_bias: place(ct, layer, "ssm_dt.bias"@),
                norm_weight: place(ct, layer, "ssm_norm.weight"@),
                conv_state: None,
                recurrent_state: None,
            },
        ),
    }
}

/// `h` holds the columns that come before those of a call: what is carried along, or zeros at
/// the start.
pub open spec fn is_history<E: Element>(
    h: State<E>,
    carried: Option<State<E>>,
    x: State<E>,
    conv_dim: usize,
    pad: int,
) -> bool {
    &&& h.tensor.wf()
    &&& match carried {
        Some(s) => {
            &&& h@ == s@
            &&& h.tensor.backend == s.tensor.backend
            &&& h.tensor.differentiable() == s.tensor.differentiable()
        },
        None => {
            &&& h.dtype == x.dtype
            &&& h.tensor.dims@ == seq![x.tensor.dims@[0], conv_dim, pad as usize]
            &&& forall|p: int|
                0 <= p < h.tensor.data@.len() ==> #[trigger] h.tensor.data@[p] == E::spec_zero()
            &&& h.tensor.backend == x.tensor.backend
            &&& !h.tensor.differentiable()
        },
    }
}

/// The extents of the columns that come before those of a call.
pub open spec fn history_dims<E>(
    carried: Option<State<E>>,
    x: State<E>,
    conv_dim: usize,
    pad: int,
) -> Seq<usize> {
    match carried {
        Some(s) => s.tensor.dims@,
        None => seq![x.tensor.dims@[0], conv_dim, pad as usize],
    }
}

/// `s` is what a call on columns `x` carries along, and `out` what it makes, where the columns
/// `h` came before: the convolution runs over both, and its last columns are carried on.
pub open spec fn is_step<E: Element>(
    out: Result<Tensor<E>>,
    s: Option<State<E>>,
    h: State<E>,
    x: State<E>,
    weight: Tensor<E>,
    conv_dim: usize,
    pad: int,
    window: State<E>,
) -> bool {
    &&& grown(Some(window), Some(h), x, 2)
    &&& s matches Some(next) && next.dtype == h.dtype && narrowed(
        next.tensor,
        window.tensor,
        2,
        x.tensor.dims@[2],
        pad as usize,
    )
    &&& conv1d_outcome(out, window.tensor, weight, 0, 1, 1, conv_dim, None)
}

/// What a call on columns `x` hands back and carries along, where the columns `h` came before.
pub open spec fn step_outcome<E: Element>(
    out: Result<Tensor<E>>,
    before: Option<State<E>>,
    after: Option<State<E>>,
    h: State<E>,
    x: State<E>,
    weight: Tensor<E>,
    conv_dim: usize,
    pad: int,
) -> bool {
    match grow_refusal(Some(h), x, 2) {
        Some(why) => out matches Err(e) && why.is(e) && after == before,
        None => if h.tensor.dims@[2] < pad {
            &&& out matches Err(e) && e.is_out_of_range(
                grown_dims(Some(h), x, 2),
                2,
                x.tensor.dims@[2],
                pad as usize,
            )
            &&& after == before
        } else {
            exists|window: State<E>|
                is_step(out, after, h, x, weight, conv_dim, pad, window)
        },
    }
}

/// What a call on columns `x` computes can be counted.
pub open spec fn step_fits<E: Element>(
    carried: Option<State<E>>,
    x: State<E>,
    weight: Seq<usize>,
    conv_dim: usize,
    pad: int,
) -> bool {
    let dims = history_dims(carried, x, conv_dim, pad);
    let new = x.tensor.dims@;
    &&& new.len() == 3
    &&& carried is None ==> span(dims) * x.dtype.bytes() <= usize::MAX
    &&& crate::tensor::appendable(dims, new, 2) ==> {
        let wide = crate::tensor::appended_dims(dims, new, 2);
        &&& dims[2] + new[2] <= usize::MAX
        &&& span(wide) * x.dtype.bytes() <= usize::MAX
        &&& carried matches Some(s) ==> span(wide) * s.dtype.bytes() <= usize::MAX
        &&& conv1d_ends(wide, weight, 0, 1, 1, conv_dim)
    }
}

/// `r` holds heads of the channels of `x` from `start` on, position by position.
pub open spec fn is_heads<E>(
    r: Tensor<E>,
    x: Tensor<E>,
    start: int,
    n_heads: int,
    head_dim: int,
    of_heads: int,
) -> bool {
    let (b, l) = (x.dims@[0], x.dims@[2]);
    &&& r.wf()
    &&& r.dims@ == seq![b, l, n_heads as usize, head_dim as usize]
    &&& forall|a: int, t: int, h: int, i: int|
        0 <= a < b && 0 <= t < l && 0 <= h < n_heads && 0 <= i < head_dim ==> #[trigger] r.at4(
            a,
            t,
            h,
            i,
        ) == x.at3(a, start + (h % of_heads) * head_dim + i, t)
    &&& r.backend == x.backend
}

/// The channels of `x` from `start` on, as heads, position by position.
fn pick_heads<E: Copy>(x: &Tensor<E>, start: usize, n_heads: usize, head_dim: usize) -> (r: Tensor<
    E,
>)
    requires
        x.wf(),
        x.dims@.len() == 3,
        start + n_heads * head_dim <= x.dims@[1],
        span(seq![x.dims@[0], x.dims@[2], n_heads, head_dim]) <= usize::MAX,
    ensures
        is_heads(r, *x, start as int, n_heads as int, head_dim as int, n_heads as int),
        r.differentiable() == x.differentiable(),
{
    let (b, c, l) = (x.dims[0], x.dims[1], x.dims[2]);
    let dims: Vec<usize> = vec![b, l, n_heads, head_dim];
    assert(dims@ =~= seq![b, l, n_heads, head_dim]);
    let total: usize = crate::shape::count(dims.as_slice());
    proof {
        lemma_product_four(dims@);
        assert(b * (l * (n_heads * head_dim)) == (b * l) * (n_heads * head_dim))
            by (nonlinear_arith);
        assert(x.dims@ =~= seq![b, c, l]);
        crate::arith::lemma_span_three(b, c, l);
    }
    let mut data: Vec<E> = Vec::with_capacity(total);
    let mut p: usize = 0;
    while p < total
        invariant
            p <= total,
            total == (b * l) * (n_heads * head_dim),
            x.data@.len() == b * (c * l),
            x.data@.len() <= usize::MAX,
            start + n_heads * head_dim <= c,
            data@.len() == p,
            forall|q: int|
                0 <= q < p ==> #[trigger] data@[q] == ({
                    let (o, h, i) = crate::tensor::split_index(
                        q,
                        n_heads as int,
                        head_dim as int,
                    );
                    x.data@[((o / l as int) * c + (start + h * head_dim + i)) * l + o % l as int]
                }),
        decreases total - p,
    {
        proof {
            lemma_pick(
                p as int,
                b as int,
                c as int,
                l as int,
                start as int,
                n_heads as int,
                head_dim as int,
            );
        }
        let i: usize = p % head_dim;
        let g: usize = p / head_dim;
        let h: usize = g % n_heads;
        let o: usize = g / n_heads;
        let a: usize = o / l;
        let t: usize = o % l;
        data.push(x.data[(a * c + (start + h * head_dim + i)) * l + t]);
        p = p + 1;
    }
    let r: Tensor<E> = Tensor {
        dims,
        data,
        is_variable: x.is_variable,
        op: x.op,
        backend: x.backend,
    };
    proof {
        assert forall|a: int, t: int, h: int, i: int|
            0 <= a < b && 0 <= t < l && 0 <= h < n_heads && 0 <= i < head_dim implies #[trigger] r.at4(
            a,
            t,
            h,
            i,
        ) == x.at3(a, start + (h % n_heads as int) * head_dim + i, t) by {
            let o = a * l + t;
            let q = (o * n_heads + h) * head_dim + i;
            lemma_at4_in_range(r.dims@, total as int, a, t, h, i);
            crate::tensor::lemma_split_index(o, h, i, n_heads as int, head_dim as int);
            crate::arith::lemma_index_split(a, t, l as int);
            vstd::arithmetic::div_mod::lemma_small_mod(h as nat, n_heads as nat);
            assert(r.data@[q] == x.data@[(a * c + (start + h * head_dim + i)) * l + t]);
        }
    }
    r
}

/// Where an element of a head comes from is in range, and so is what is computed on the way.
proof fn lemma_pick(p: int, b: int, c: int, l: int, start: int, n: int, d: int)
    requires
        0 <= p < (b * l) * (n * d),
        0 <= b,
        0 <= c,
        0 <= l,
        0 <= start,
        0 <= n,
        0 <= d,
        start + n * d <= c,
    ensures
        n > 0 && d > 0 && l > 0,
        ({
            let (o, h, i) = crate::tensor::split_index(p, n, d);
            let (a, t) = (o / l, o % l);
            let channel = start + h * d + i;
            &&& 0 <= o && 0 <= h && 0 <= i && 0 <= a && 0 <= t
            &&& 0 <= h * d
            &&& channel < c
            &&& 0 <= a * c <= a * c + channel
            &&& a * c + channel <= (a * c + channel) * l
            &&& 0 <= (a * c + channel) * l + t < b * (c * l)
        }),
{
    crate::tensor::lemma_join_index(p, b * l, n, d);
    let (o, h, i) = crate::tensor::split_index(p, n, d);
    assert(l > 0) by (nonlinear_arith)
        requires
            0 <= o < b * l,
            b >= 0,
            l >= 0,
    ;
    crate::arith::lemma_index_join(o, b, l);
    let (a, t) = (o / l, o % l);
    crate::arith::lemma_index_bound(h, i, n, d);
    assert(0 <= h * d) by (nonlinear_arith)
        requires
            0 <= h,
            0 <= d,
    ;
    let channel = start + h * d + i;
    crate::tensor::lemma_index_in_range(a, channel, t, b, c, l);
    crate::tensor::lemma_steps(a, c, channel, l);
}

impl<E: Element> GatedDeltaNetWeights<E> {
    /// The weights and extents, with nothing carried along.
    pub open spec fn bare(self) -> GatedDeltaNetWeights<E> {
        GatedDeltaNetWeights { conv_state: None, recurrent_state: None, ..self }
    }

    /// What is carried along is well formed.
    pub open spec fn wf(&self) -> bool {
        maybe_wf(self.conv_state) && maybe_wf(self.recurrent_state)
    }

    /// Finds the gated delta network of a layer, with nothing carried along.
    pub fn new(gg: &Gguf, layer: usize, dims: DeltaDims) -> (r: Result<Self>)
        requires
            dims.conv_dim() <= usize::MAX,
        ensures
            agrees(r, delta_of(*gg.ct, layer, dims)),
    {
        proof {
            assert(dims.key_dim() >= 0) by (nonlinear_arith)
                requires
                    dims.key_dim() == dims.head_k_dim * dims.num_k_heads,
            ;
            assert(dims.value_dim() >= 0) by (nonlinear_arith)
                requires
                    dims.value_dim() == dims.head_v_dim * dims.num_v_heads,
            ;
        }
        let key_dim: usize = dims.head_k_dim * dims.num_k_heads;
        let value_dim: usize = dims.head_v_dim * dims.num_v_heads;
        let conv_dim: usize = key_dim * 2 + value_dim;
        let in_proj_qkv: usize = layer_place(gg, layer, "attn_qkv.weight")?;
        let in_proj_z: usize = layer_place(gg, layer, "attn_gate.weight")?;
        let in_proj_b: usize = layer_place(gg, layer, "ssm_beta.weight")?;
        let in_proj_a: usize = layer_place(gg, layer, "ssm_alpha.weight")?;
        let out_proj: usize = layer_place(gg, layer, "ssm_out.weight")?;
        let conv1d_weight: usize = layer_place(gg, layer, "ssm_conv1d.weight")?;
        let neg_a: usize = layer_place(gg, layer, "ssm_a")?;
        let dt_bias: usize = layer_place(gg, layer, "ssm_dt.bias")?;
        let norm_weight: usize = layer_place(gg, layer, "ssm_norm.weight")?;
        Ok(
            GatedDeltaNetWeights {
                num_v_heads: dims.num_v_heads,
                num_k_heads: dims.num_k_heads,
                head_k_dim: dims.head_k_dim,
                head_v_dim: dims.head_v_dim,
                key_dim,
                value_dim,
                conv_dim,
                conv_kernel_size: dims.conv_kernel_size,
                in_proj_qkv,
                in_proj_z,
                in_proj_b,
                in_proj_a,
                out_proj,
                conv1d_weight,
                neg_a,
                dt_bias,
                norm_weight,
                conv_state: None,
                recurrent_state: None,
            },
        )
    }

    /// The columns that come before those of a call.
    fn history(&self, x: &State<E>) -> (r: State<E>)
        requires
            self.wf(),
            self.conv_kernel_size >= 1,
            x.tensor.dims@.len() == 3,
            self.conv_state is None ==> span(
                seq![x.tensor.dims@[0], self.conv_dim, (self.conv_kernel_size - 1) as usize],
            ) * x.dtype.bytes() <= usize::MAX,
        ensures
            is_history(r, self.conv_state, *x, self.conv_dim, self.conv_kernel_size - 1),
            r.wf(),
    {
        match &self.conv_state {
            Some(s) => {
                let mut r: State<E> = s.copy();
                r.tensor.is_variable = s.tensor.is_variable;
                r.tensor.op = s.tensor.op;
                r
            },
            None => {
                let dims: Vec<usize> = vec![
                    x.tensor.dims[0],
                    self.conv_dim,
                    self.conv_kernel_size - 1,
                ];
                proof {
                    assert(dims@ =~= seq![
                        x.tensor.dims@[0],
                        self.conv_dim,
                        (self.conv_kernel_size - 1) as usize,
                    ]);
                    let (s, size) = (span(dims@), x.dtype.bytes());
                    assert(s <= s * size) by (nonlinear_arith)
                        requires
                            size >= 1,
                            s >= 0,
                    ;
                }
                State {
                    dtype: x.dtype,
                    tensor: Tensor::zeros(dims.as_slice(), x.tensor.backend),
                }
            },
        }
    }

    /// Runs the causal convolution over the columns `mixed_qkv`, `[batch, channels, length]`, and
    /// over those that came before them, and carries the last ones on.
    ///
    /// It goes on from what is carried along whenever there is any, for any number of columns.
    pub fn convolve(&mut self, mixed_qkv: &State<E>, weight: &Tensor<E>) -> (r: Result<Tensor<E>>)
        requires
            old(self).wf(),
            old(self).conv_kernel_size >= 1,
            mixed_qkv.wf(),
            weight.wf(),
            step_fits(
                old(self).conv_state,
                *mixed_qkv,
                weight.dims@,
                old(self).conv_dim,
                old(self).conv_kernel_size - 1,
            ),
        ensures
            final(self).bare() == old(self).bare(),
            final(self).wf(),
            final(self).recurrent_state == old(self).recurrent_state,
            exists|h: State<E>| #[trigger]
                is_history(
                    h,
                    old(self).conv_state,
                    *mixed_qkv,
                    old(self).conv_dim,
                    old(self).conv_kernel_size - 1,
                ) && step_outcome(
                    r,
                    old(self).conv_state,
                    final(self).conv_state,
                    h,
                    *mixed_qkv,
                    *weight,
                    old(self).conv_dim,
                    old(self).conv_kernel_size - 1,
                ),
    {
        let pad: usize = self.conv_kernel_size - 1;
        let history: State<E> = self.history(mixed_qkv);
        let ghost h = history;
        let window: State<E> = match put_behind(&history, mixed_qkv, 2) {
            Ok(window) => window,
            Err(e) => {
                return Err(e);
            },
        };
        let len: usize = mixed_qkv.tensor.dims[2];
        let wide: usize = window.tensor.dims[2];
        if wide - len < pad {
            return Err(
                Error::NarrowInvalidArgs {
                    shape: copy_dims(window.tensor.dims.as_slice()),
                    dim: 2,
                    start: len,
                    len: pad,
                },
            );
        }
        let next: Tensor<E> = window.tensor.narrow(2, len, pad);
        proof {
            crate::arith::lemma_span_update(window.tensor.dims@, 2, pad);
            let (a, b, size) = (
                span(next.dims@),
                span(window.tensor.dims@),
                window.dtype.bytes(),
            );
            assert(a * size <= b * size) by (nonlinear_arith)
                requires
                    a <= b,
                    size >= 0,
            ;
        }
        self.conv_state = Some(State { dtype: window.dtype, tensor: next });
        let out: Result<Tensor<E>> = window.tensor.conv1d(weight, 0, 1, 1, self.conv_dim);
        proof {
            assert(is_step(
                out,
                self.conv_state,
                h,
                *mixed_qkv,
                *weight,
                self.conv_dim,
                pad as int,
                window,
            ));
        }
        out
    }

    /// The widths are those of the heads, and no head is empty.
    pub open spec fn sized(&self) -> bool {
        &&& self.head_k_dim > 0
        &&& self.head_v_dim > 0
        &&& self.num_k_heads > 0
        &&& self.key_dim == self.head_k_dim * self.num_k_heads
        &&& self.value_dim == self.head_v_dim * self.num_v_heads
        &&& self.conv_dim == self.key_dim * 2 + self.value_dim
    }

    /// How often queries and keys are repeated, so that each head of values has its own.
    pub open spec fn repeats(&self) -> int {
        self.num_v_heads as int / self.num_k_heads as int
    }

    /// The part of the channels that a narrowing asks for and that is not there.
    pub open spec fn heads_refusal(&self, x: Seq<usize>) -> Option<Refusal> {
        let dims = seq![x[0], x[2], x[1]];
        if x[1] < self.key_dim {
            Some(Refusal::Range { dims, dim: 2, start: 0, len: self.key_dim })
        } else if x[1] < self.key_dim * 2 {
            Some(Refusal::Range { dims, dim: 2, start: self.key_dim, len: self.key_dim })
        } else if x[1] < self.conv_dim {
            Some(
                Refusal::Range {
                    dims,
                    dim: 2,
                    start: (self.key_dim * 2) as usize,
                    len: self.value_dim,
                },
            )
        } else {
            None
        }
    }

    /// `t` holds the heads of queries, keys and values of the columns `x`.
    pub open spec fn are_heads(
        &self,
        x: Tensor<E>,
        t: (Tensor<E>, Tensor<E>, Tensor<E>),
    ) -> bool {
        let (n, of) = (self.num_k_heads * self.repeats(), self.num_k_heads as int);
        let (key, value) = (self.head_k_dim as int, self.head_v_dim as int);
        let values = self.num_v_heads as int;
        &&& is_heads(t.0, x, 0, n, key, of)
        &&& is_heads(t.1, x, self.key_dim as int, n, key, of)
        &&& is_heads(t.2, x, self.key_dim * 2, values, value, values)
    }

    /// `r` is the recurrent state that a call goes on from, `[batch, heads, key width, value
    /// width]`.
    pub open spec fn is_initial_state(
        &self,
        r: Tensor<E>,
        batch_size: usize,
        num_heads: usize,
        k_head_dim: usize,
        v_head_dim: usize,
    ) -> bool {
        &&& r.wf()
        &&& match self.recurrent_state {
            Some(s) => r.dims@ == s.tensor.dims@ && r.data@ == s.tensor.data@,
            None => {
                &&& r.dims@ == seq![batch_size, num_heads, k_head_dim, v_head_dim]
                &&& forall|p: int|
                    0 <= p < r.data@.len() ==> #[trigger] r.data@[p] == E::spec_zero()
            },
        }
    }

    /// Cuts the columns `[batch, channels, length]` into the heads of queries, keys and values,
    /// `[batch, length, heads, head width]`.
    ///
    /// Queries and keys are repeated over and over, so that head `h` of the values goes with head
    /// `h % num_k_heads` of the keys.
    pub fn heads(&self, mixed: &Tensor<E>) -> (r: Result<(Tensor<E>, Tensor<E>, Tensor<E>)>)
        requires
            self.sized(),
            mixed.wf(),
            mixed.dims@.len() == 3,
            span(seq![mixed.dims@[0], mixed.dims@[2], self.num_k_heads, self.head_k_dim])
                <= usize::MAX,
            span(seq![mixed.dims@[0], mixed.dims@[2], self.num_v_heads, self.head_k_dim])
                <= usize::MAX,
            span(seq![mixed.dims@[0], mixed.dims@[2], self.num_v_heads, self.head_v_dim])
                <= usize::MAX,
        ensures
            match self.heads_refusal(mixed.dims@) {
                Some(why) => r matches Err(e) && why.is(e),
                None => if self.repeats() == 0 {
                    r matches Err(e) && e.is_empty_list("cat"@)
                } else {
                    r matches Ok(t) && self.are_heads(*mixed, t)
                },
            },
    {
        let (b, c, l) = (mixed.dims[0], mixed.dims[1], mixed.dims[2]);
        proof {
            assert(self.num_k_heads * self.head_k_dim == self.key_dim) by (nonlinear_arith)
                requires
                    self.key_dim == self.head_k_dim * self.num_k_heads,
            ;
            assert(self.num_v_heads * self.head_v_dim == self.value_dim) by (nonlinear_arith)
                requires
                    self.value_dim == self.head_v_dim * self.num_v_heads,
            ;
        }
        check_channels(b, c, l, 0, self.key_dim)?;
        check_channels(b, c, l, self.key_dim, self.key_dim)?;
        check_channels(b, c, l, self.key_dim * 2, self.value_dim)?;
        let q: Tensor<E> = pick_heads(mixed, 0, self.num_k_heads, self.head_k_dim);
        let k: Tensor<E> = pick_heads(mixed, self.key_dim, self.num_k_heads, self.head_k_dim);
        let v: Tensor<E> = pick_heads(mixed, self.key_dim * 2, self.num_v_heads, self.head_v_dim);
        let repeat_n: usize = self.num_v_heads / self.num_k_heads;
        proof {
            let n = self.num_k_heads * repeat_n;
            vstd::arithmetic::div_mod::lemma_fundamental_div_mod(
                self.num_v_heads as int,
                self.num_k_heads as int,
            );
            vstd::arithmetic::div_mod::lemma_mod_bound(
                self.num_v_heads as int,
                self.num_k_heads as int,
            );
            assert(0 <= n <= self.num_v_heads);
            let wide = seq![b, l, self.num_v_heads, self.head_k_dim];
            crate::arith::lemma_span_update(wide, 2, n as usize);
            assert(wide.update(2, n as usize) =~= q.dims@.update(2, n as usize));
            assert(q.dims@.update(2, n as usize) =~= k.dims@.update(2, n as usize));
        }
        let queries: Tensor<E> = tile_heads(&q, repeat_n)?;
        let keys: Tensor<E> = tile_heads(&k, repeat_n)?;
        proof {
            lemma_tiled_heads(queries, q, *mixed, 0, self.num_k_heads as int, repeat_n);
            lemma_tiled_heads(
                keys,
                k,
                *mixed,
                self.key_dim as int,
                self.num_k_heads as int,
                repeat_n,
            );
        }
        Ok((queries, keys, v))
    }

    /// The recurrent state that a call goes on from: the one that was carried on, or zeros for
    /// each head where nothing was.
    pub fn initial_state(
        &self,
        batch_size: usize,
        num_heads: usize,
        k_head_dim: usize,
        v_head_dim: usize,
        backend: Backend,
    ) -> (r: Tensor<E>)
        requires
            self.wf(),
            span(seq![batch_size, num_heads, k_head_dim, v_head_dim]) <= usize::MAX,
        ensures
            self.is_initial_state(r, batch_size, num_heads, k_head_dim, v_head_dim),
    {
        match &self.recurrent_state {
            Some(state) => state.tensor.copy(),
            None => {
                let dims: Vec<usize> = vec![batch_size, num_heads, k_head_dim, v_head_dim];
                assert(dims@ =~= seq![batch_size, num_heads, k_head_dim, v_head_dim]);
                Tensor::zeros(dims.as_slice(), backend)
            },
        }
    }

    /// Carries the recurrent state of a call on.
    pub fn carry(&mut self, new_state: State<E>)
        requires
            old(self).wf(),
            new_state.wf(),
        ensures
            final(self).bare() == old(self).bare(),
            final(self).conv_state == old(self).conv_state,
            final(self).recurrent_state == Some(new_state),
            final(self).wf(),
    {
        self.recurrent_state = Some(new_state);
    }

    /// Forgets all columns.
    pub fn clear_kv_cache(&mut self)
        ensures
            final(self).bare() == old(self).bare(),
            final(self).conv_state is None,
            final(self).recurrent_state is None,
    {
        self.conv_state = None;
        self.recurrent_state = None;
    }
}

/// Whether a call takes one step of the recurrence, and no scan over chunks of positions.
pub fn takes_one_step(seq_len: usize) -> (r: bool)
    ensures
        r == (seq_len == 1),
{
    seq_len == 1
}

/// Turns down channels that are not there.
fn check_channels(b: usize, c: usize, l: usize, start: usize, len: usize) -> (r: Result<()>)
    requires
        start + len <= usize::MAX,
    ensures
        if start + len > c {
            r matches Err(e) && e.is_out_of_range(seq![b, l, c], 2, start, len)
        } else {
            r is Ok
        },
{
    if start + len > c {
        let shape: Vec<usize> = vec![b, l, c];
        assert(shape@ =~= seq![b, l, c]);
        return Err(Error::NarrowInvalidArgs { shape, dim: 2, start, len });
    }
    Ok(())
}

/// `t` holds the heads of `x` over and over.
spec fn is_tiled4<E>(t: Tensor<E>, x: Tensor<E>, repeats: usize) -> bool {
    let d = x.dims@;
    &&& t.wf()
    &&& t.dims@ == d.update(2, (d[2] * repeats) as usize)
    &&& forall|a: int, p: int, h: int, i: int|
        0 <= a < d[0] && 0 <= p < d[1] && 0 <= h < d[2] * repeats && 0 <= i < d[3]
            ==> #[trigger] t.at4(a, p, h, i) == x.at4(a, p, h % d[2] as int, i)
    &&& t.backend == x.backend
}

/// Heads that are repeated are heads of the same channels.
proof fn lemma_tiled_heads<E>(
    t: Tensor<E>,
    x: Tensor<E>,
    mixed: Tensor<E>,
    start: int,
    n: int,
    repeats: usize,
)
    requires
        0 < n,
        x.dims@.len() == 4,
        x.dims@[2] == n,
        n * repeats <= usize::MAX,
        is_heads(x, mixed, start, n, x.dims@[3] as int, n),
        is_tiled4(t, x, repeats),
    ensures
        is_heads(t, mixed, start, n * repeats, x.dims@[3] as int, n),
{
    let d = x.dims@;
    assert(t.dims@ =~= seq![
        mixed.dims@[0],
        mixed.dims@[2],
        (n * repeats) as usize,
        x.dims@[3],
    ]);
    assert forall|a: int, p: int, h: int, i: int|
        0 <= a < d[0] && 0 <= p < d[1] && 0 <= h < n * repeats && 0 <= i < d[3] implies #[trigger] t.at4(
        a,
        p,
        h,
        i,
    ) == mixed.at3(a, start + (h % n) * d[3] + i, p) by {
        vstd::arithmetic::div_mod::lemma_mod_bound(h, n);
        vstd::arithmetic::div_mod::lemma_small_mod((h % n) as nat, n as nat);
        assert(t.at4(a, p, h, i) == x.at4(a, p, h % n, i));
        assert(x.at4(a, p, h % n, i) == mixed.at3(a, start + ((h % n) % n) * d[3] + i, p));
    }
}

/// Repeats heads over and over.
fn tile_heads<E: Copy>(x: &Tensor<E>, repeats: usize) -> (r: Result<Tensor<E>>)
    requires
        x.wf(),
        x.dims@.len() == 4,
        x.dims@[2] > 0,
        x.dims@[2] * repeats <= usize::MAX,
        span(x.dims@.update(2, (x.dims@[2] * repeats) as usize)) <= usize::MAX,
    ensures
        match r {
            Ok(t) => repeats > 0 && is_tiled4(t, *x, repeats),
            Err(e) => repeats == 0 && e.is_empty_list("cat"@),
        },
{
    let r: Result<Tensor<E>> = repeat_tiled(x, repeats, 2);
    proof {
        if r is Ok {
            let t = r->Ok_0;
            let d = x.dims@;
            assert(tiled(t, *x, 2, repeats));
            assert forall|a: int, p: int, h: int, i: int|
                0 <= a < d[0] && 0 <= p < d[1] && 0 <= h < d[2] * repeats && 0 <= i
                    < d[3] implies #[trigger] t.at4(a, p, h, i) == x.at4(
                a,
                p,
                h % d[2] as int,
                i,
            ) by {
                assert(t.dims@.skip(3) =~= seq![d[3]]);
                assert(d.skip(3) =~= seq![d[3]]);
                assert(seq![d[3]] =~= seq![d[3]].take(1));
                crate::arith::lemma_product_prefix_step(seq![d[3]], 0);
                assert(seq![d[3]].take(0) =~= Seq::<usize>::empty());
                assert(product(seq![d[3]]) == d[3]) by (nonlinear_arith)
                    requires
                        product(seq![d[3]]) == product(Seq::<usize>::empty()) * d[3] as nat,
                        product(Seq::<usize>::empty()) == 1,
                ;
                assert(t.dims@.take(2) =~= seq![d[0], d[1]]);
                crate::arith::lemma_span_two(d[0], d[1]);
                crate::arith::lemma_index_bound(a, p, d[0] as int, d[1] as int);
                assert(within(t.dims@, 2, a * d[1] + p, h, i));
                assert(t.along(2, a * d[1] + p, h, i) == x.along(
                    2,
                    a * d[1] + p,
                    h % d[2] as int,
                    i,
                ));
            }
        }
    }
    r
}

/// Columns behind others, element by element.
proof fn lemma_appended_last<E>(r: Tensor<E>, a: Tensor<E>, b: Tensor<E>, i: int, j: int, c: int)
    requires
        a.dims@.len() == 3,
        b.dims@.len() == 3,
        b.dims@[0] == a.dims@[0],
        b.dims@[1] == a.dims@[1],
        a.dims@[2] + b.dims@[2] <= usize::MAX,
        appended(r, a, b, 2),
        0 <= i < a.dims@[0],
        0 <= j < a.dims@[1],
        0 <= c < r.dims@[2],
    ensures
        r.at3(i, j, c) == if c < a.dims@[2] {
            a.at3(i, j, c)
        } else {
            b.at3(i, j, c - a.dims@[2])
        },
{
    let d = a.dims@;
    assert(r.dims@.skip(3) =~= Seq::<usize>::empty());
    assert(d.skip(3) =~= Seq::<usize>::empty());
    assert(b.dims@.skip(3) =~= Seq::<usize>::empty());
    assert(r.dims@.take(2) =~= seq![d[0], d[1]]);
    crate::arith::lemma_span_two(d[0], d[1]);
    crate::arith::lemma_index_bound(i, j, d[0] as int, d[1] as int);
    let o = i * d[1] + j;
    assert(within(r.dims@, 2, o, c, 0));
    let one = product(Seq::<usize>::empty());
    let f = r.along(2, o, c, 0);
    assert(f == if c < d[2] {
        a.along(2, o, c, 0)
    } else {
        b.along(2, o, c - d[2], 0)
    });
    let (wr, wa, wb) = (r.dims@[2], d[2], b.dims@[2]);
    assert((o * wr + c) * one + 0 == o * wr + c) by (nonlinear_arith)
        requires
            one == 1,
    ;
    assert((o * wa + c) * one + 0 == o * wa + c) by (nonlinear_arith)
        requires
            one == 1,
    ;
    assert((o * wb + (c - wa)) * one + 0 == o * wb + (c - wa)) by (nonlinear_arith)
        requires
            one == 1,
    ;
}

/// A convolution sees the columns under its taps only, wherever they are.
proof fn lemma_conv1d_shift<E: Element>(
    x1: spec_fn(int, int) -> E,
    p1: ParamsConv1D,
    o1: int,
    x2: spec_fn(int, int) -> E,
    p2: ParamsConv1D,
    o2: int,
    w: spec_fn(int, int) -> E,
    n: nat,
)
    requires
        p1.k_size == p2.k_size,
        p1.c_in == p2.c_in,
        p1.padding == 0 && p1.stride == 1 && p1.dilation == 1,
        p2.padding == 0 && p2.stride == 1 && p2.dilation == 1,
        0 <= o1,
        0 <= o2,
        o1 + p1.k_size <= p1.l_in,
        o2 + p2.k_size <= p2.l_in,
        n <= p1.c_in * p1.k_size,
        forall|c: int, j: int|
            0 <= c < p1.c_in && 0 <= j < p1.k_size ==> #[trigger] x1(c, o1 + j) == x2(c, o2 + j),
    ensures
        conv1d_sum(x1, w, p1, o1, n) == conv1d_sum(x2, w, p2, o2, n),
    decreases n,
{
    if n > 0 {
        lemma_conv1d_shift(x1, p1, o1, x2, p2, o2, w, (n - 1) as nat);
        let k = p1.k_size as int;
        assert(k > 0) by (nonlinear_arith)
            requires
                0 < n <= p1.c_in * p1.k_size,
                k == p1.k_size,
                p1.c_in >= 0,
                k >= 0,
        ;
        crate::arith::lemma_index_join(n - 1, p1.c_in as int, k);
        let (c, j) = ((n - 1) / k, (n - 1) % k);
        assert(o1 * p1.stride + j * p1.dilation - p1.padding == o1 + j) by (nonlinear_arith)
            requires
                p1.stride == 1,
                p1.dilation == 1,
                p1.padding == 0,
        ;
        assert(o2 * p2.stride + j * p2.dilation - p2.padding == o2 + j) by (nonlinear_arith)
            requires
                p2.stride == 1,
                p2.dilation == 1,
                p2.padding == 0,
        ;
        assert(x1(c, o1 + j) == x2(c, o2 + j));
    }
}

/// The columns of `x` are those of `a`, and those of `b` behind them.
pub open spec fn is_columns_of<E>(x: Tensor<E>, a: Tensor<E>, b: Tensor<E>) -> bool {
    &&& a.dims@.len() == 3
    &&& b.dims@.len() == 3
    &&& b.dims@[0] == a.dims@[0]
    &&& b.dims@[1] == a.dims@[1]
    &&& x.dims@ == crate::tensor::appended_dims(a.dims@, b.dims@, 2)
    &&& forall|i: int, c: int, t: int|
        0 <= i < a.dims@[0] && 0 <= c < a.dims@[1] && 0 <= t < a.dims@[2] + b.dims@[2]
            ==> #[trigger] x.at3(i, c, t) == if t < a.dims@[2] {
            a.at3(i, c, t)
        } else {
            b.at3(i, c, t - a.dims@[2])
        }
}

/// Columns that come in two calls, the second of which goes on from what the first carries along:
/// the convolution makes the same of them, and carries the same on, as if they came in one call.
///
/// `a` and `b` are the columns of the two calls, and `x` those of the one. `h_a`, `h_b` and `h` are
/// the columns before them.
pub proof fn law_split_prefill<E: Element>(
    h: State<E>,
    h_a: State<E>,
    h_b: State<E>,
    a: State<E>,
    b: State<E>,
    x: State<E>,
    weight: Tensor<E>,
    conv_dim: usize,
    pad: int,
    window: State<E>,
    s: State<E>,
    out: Tensor<E>,
    window_a: State<E>,
    s_a: State<E>,
    out_a: Tensor<E>,
    window_b: State<E>,
    s_b: State<E>,
    out_b: Tensor<E>,
)
    requires
        0 <= pad <= usize::MAX,
        h.tensor.dims@.len() == 3,
        a.tensor.dims@.len() == 3,
        b.tensor.dims@.len() == 3,
        h.tensor.dims@[2] == pad,
        grow_refusal(Some(h), a, 2) is None,
        grow_refusal(Some(a), b, 2) is None,
        1 <= a.tensor.dims@[2],
        1 <= b.tensor.dims@[2],
        pad + a.tensor.dims@[2] + b.tensor.dims@[2] <= usize::MAX,
        is_columns_of(x.tensor, a.tensor, b.tensor),
        weight.dims@.len() == 3,
        weight.dims@[2] == pad + 1,
        is_step(Ok(out), Some(s), h, x, weight, conv_dim, pad, window),
        h_a@ == h@,
        is_step(Ok(out_a), Some(s_a), h_a, a, weight, conv_dim, pad, window_a),
        h_b@ == s_a@,
        is_step(Ok(out_b), Some(s_b), h_b, b, weight, conv_dim, pad, window_b),
    ensures
        s_b@ == s@,
        out.dims@ == crate::tensor::appended_dims(out_a.dims@, out_b.dims@, 2),
        forall|i: int, c: int, o: int|
            0 <= i < out.dims@[0] && 0 <= c < out.dims@[1] && 0 <= o < out.dims@[2]
                ==> #[trigger] out.at3(i, c, o) == if o < out_a.dims@[2] {
                out_a.at3(i, c, o)
            } else {
                out_b.at3(i, c, o - out_a.dims@[2])
            },
{
    let (n0, n1) = (h.tensor.dims@[0], h.tensor.dims@[1]);
    let (la, lb) = (a.tensor.dims@[2] as int, b.tensor.dims@[2] as int);
    assert(a.tensor.dims@ =~= seq![n0, n1, la as usize]);
    assert(b.tensor.dims@ =~= seq![n0, n1, lb as usize]);
    assert(x.tensor.dims@ =~= seq![n0, n1, (la + lb) as usize]);
    let (wx, wa, wb) = (window.tensor, window_a.tensor, window_b.tensor);
    assert(wx.dims@ =~= seq![n0, n1, (pad + la + lb) as usize]);
    assert(wa.dims@ =~= seq![n0, n1, (pad + la) as usize]);
    assert(s_a.tensor.dims@ =~= seq![n0, n1, pad as usize]);
    assert(wb.dims@ =~= seq![n0, n1, (pad + lb) as usize]);
    assert(s.tensor.dims@ =~= seq![n0, n1, pad as usize]);
    assert(s_b.tensor.dims@ =~= seq![n0, n1, pad as usize]);
    assert forall|i: int, c: int, t: int|
        0 <= i < n0 && 0 <= c < n1 && 0 <= t < pad + la implies #[trigger] wa.at3(i, c, t)
        == wx.at3(i, c, t) by {
        lemma_appended_last(wx, h.tensor, x.tensor, i, c, t);
        lemma_appended_last(wa, h_a.tensor, a.tensor, i, c, t);
        if t >= pad {
            assert(x.tensor.at3(i, c, t - pad) == a.tensor.at3(i, c, t - pad));
        }
    }
    assert forall|i: int, c: int, t: int|
        0 <= i < n0 && 0 <= c < n1 && 0 <= t < pad + lb implies #[trigger] wb.at3(i, c, t)
        == wx.at3(i, c, la + t) by {
        lemma_appended_last(wb, h_b.tensor, b.tensor, i, c, t);
        if t < pad {
            crate::conv::lemma_narrowed_last(
                s_a.tensor,
                wa,
                la as usize,
                pad as usize,
                i,
                c,
                t,
            );
            assert(wa.at3(i, c, la + t) == wx.at3(i, c, la + t));
        } else {
            lemma_appended_last(wx, h.tensor, x.tensor, i, c, la + t);
            assert(x.tensor.at3(i, c, la + t - pad) == b.tensor.at3(i, c, t - pad));
        }
    }
    assert(s_b.tensor.data@ == s.tensor.data@) by {
        crate::arith::lemma_span_three(n0, n1, pad as usize);
        assert forall|p: int| 0 <= p < s.tensor.data@.len() implies s_b.tensor.data@[p]
            == s.tensor.data@[p] by {
            crate::tensor::lemma_join_index(p, n0 as int, n1 as int, pad);
            let (i, c, t) = crate::tensor::split_index(p, n1 as int, pad);
            crate::conv::lemma_narrowed_last(
                s_b.tensor,
                wb,
                lb as usize,
                pad as usize,
                i,
                c,
                t,
            );
            crate::conv::lemma_narrowed_last(
                s.tensor,
                wx,
                (la + lb) as usize,
                pad as usize,
                i,
                c,
                t,
            );
            assert(wb.at3(i, c, lb + t) == wx.at3(i, c, la + (lb + t)));
            assert(s_b.tensor.at3(i, c, t) == s.tensor.at3(i, c, t));
        }
        assert(s_b.tensor.data@ =~= s.tensor.data@);
    }
    let w = weight.dims@;
    let px = conv1d_params(wx.dims@, w, 0, 1, 1, conv_dim, None);
    let pa = conv1d_params(wa.dims@, w, 0, 1, 1, conv_dim, None);
    let pb = conv1d_params(wb.dims@, w, 0, 1, 1, conv_dim, None);
    assert(is_conv1d(out, wx, weight, px, conv_dim));
    assert(is_conv1d(out_a, wa, weight, pa, conv_dim));
    assert(is_conv1d(out_b, wb, weight, pb, conv_dim));
    lemma_length(px, la + lb, pad);
    lemma_length(pa, la, pad);
    lemma_length(pb, lb, pad);
    assert(out.dims@ =~= crate::tensor::appended_dims(out_a.dims@, out_b.dims@, 2));
    assert forall|i: int, c: int, o: int|
        0 <= i < out.dims@[0] && 0 <= c < out.dims@[1] && 0 <= o
            < out.dims@[2] implies #[trigger] out.at3(i, c, o) == if o < la {
        out_a.at3(i, c, o)
    } else {
        out_b.at3(i, c, o - la)
    } by {
        if o < la {
            assert forall|ch: int, j: int|
                0 <= ch < n1 && 0 <= j < px.k_size implies #[trigger] wx.at3(i, ch, o + j)
                == wa.at3(i, ch, o + j) by {
                assert(wa.at3(i, ch, o + j) == wx.at3(i, ch, o + j));
            }
            lemma_same_column(out, wx, px, o, out_a, wa, pa, o, weight, conv_dim, i, c);
        } else {
            assert forall|ch: int, j: int|
                0 <= ch < n1 && 0 <= j < px.k_size implies #[trigger] wx.at3(i, ch, o + j)
                == wb.at3(i, ch, o - la + j) by {
                assert(wb.at3(i, ch, o - la + j) == wx.at3(i, ch, la + (o - la + j)));
            }
            lemma_same_column(out, wx, px, o, out_b, wb, pb, o - la, weight, conv_dim, i, c);
        }
    }
}

/// As many columns come out as went in behind the carried ones.
proof fn lemma_length(p: ParamsConv1D, l: int, pad: int)
    requires
        p.l_in == pad + l,
        p.k_size == pad + 1,
        p.padding == 0,
        p.stride == 1,
        p.dilation == 1,
    ensures
        p.positions() == l,
{
    assert(p.dilation * (p.k_size - 1) == pad) by (nonlinear_arith)
        requires
            p.dilation == 1,
            p.k_size == pad + 1,
    ;
    assert((l - 1) / 1 == l - 1);
}

/// Two outputs of a convolution are the same where the columns under its taps are.
proof fn lemma_same_column<E: Element>(
    out1: Tensor<E>,
    x1: Tensor<E>,
    p1: ParamsConv1D,
    o1: int,
    out2: Tensor<E>,
    x2: Tensor<E>,
    p2: ParamsConv1D,
    o2: int,
    weight: Tensor<E>,
    conv_dim: usize,
    i: int,
    c: int,
)
    requires
        x1.dims@.len() == 3,
        x2.dims@.len() == 3,
        weight.dims@.len() == 3,
        x2.dims@[0] == x1.dims@[0],
        x2.dims@[1] == x1.dims@[1],
        x1.dims@[1] == weight.dims@[1] * conv_dim,
        p1 == conv1d_params(x1.dims@, weight.dims@, 0, 1, 1, conv_dim, None),
        p2 == conv1d_params(x2.dims@, weight.dims@, 0, 1, 1, conv_dim, None),
        is_conv1d(out1, x1, weight, p1, conv_dim),
        is_conv1d(out2, x2, weight, p2, conv_dim),
        0 <= i < x1.dims@[0],
        0 <= c < out1.dims@[1],
        0 <= o1 < p1.positions(),
        0 <= o2 < p2.positions(),
        o1 + p1.k_size <= p1.l_in,
        o2 + p2.k_size <= p2.l_in,
        forall|ch: int, j: int|
            0 <= ch < x1.dims@[1] && 0 <= j < p1.k_size ==> #[trigger] x1.at3(i, ch, o1 + j)
                == x2.at3(i, ch, o2 + j),
    ensures
        out1.at3(i, c, o1) == out2.at3(i, c, o2),
{
    let (g, rows) = (conv_dim as int, weight.dims@[0] as int);
    assert(g > 0) by {
        if conv_dim == 0 {
            assert(conv_dim * p1.c_out == 0) by (nonlinear_arith)
                requires
                    conv_dim == 0,
            ;
        }
    }
    vstd::arithmetic::div_mod::lemma_fundamental_div_mod(rows, g);
    vstd::arithmetic::div_mod::lemma_mod_bound(rows, g);
    assert(0 <= rows / g <= rows) by (nonlinear_arith)
        requires
            rows >= 0,
            g > 0,
    ;
    assert(p1.c_out == rows / g);
    assert(0 <= conv_dim * p1.c_out <= rows);
    let c_in = weight.dims@[1] as int;
    crate::arith::lemma_index_split(c_in, 0, g);
    assert(p1.c_in == c_in && p2.c_in == c_in);
    assert(p1.c_out > 0) by (nonlinear_arith)
        requires
            0 <= c < conv_dim * p1.c_out,
            p1.c_out >= 0,
    ;
    crate::arith::lemma_index_join(c, g, p1.c_out as int);
    let base = (c / p1.c_out as int) * p1.c_in;
    let row = crate::conv::kernel_row(rows, g, p1.c_out as int, c);
    let (f1, f2, w) = (plane(x1, i, base), plane(x2, i, base), plane(weight, row, 0));
    assert forall|ch: int, j: int| 0 <= ch < c_in && 0 <= j < p1.k_size implies #[trigger] f1(
        ch,
        o1 + j,
    ) == f2(ch, o2 + j) by {
        crate::arith::lemma_index_bound(c / p1.c_out as int, ch, g, c_in);
        assert(g * c_in == c_in * g) by (nonlinear_arith);
        assert(x1.at3(i, base + ch, o1 + j) == x2.at3(i, base + ch, o2 + j));
    }
    lemma_conv1d_shift(f1, p1, o1, f2, p2, o2, w, (p1.c_in * p1.k_size) as nat);
    assert(out1.at3(i, c, o1) == conv1d_at(f1, w, p1, o1));
    assert(out2.at3(i, c, o2) == conv1d_at(f2, w, p2, o2));
}

} // verus!
