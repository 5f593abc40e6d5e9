//! Full attention with gated outputs and grouped keys.

use crate::arith::{product, span};
use crate::error::{agrees, first_of, Error, Refusal, Result};
use crate::models::heads::{
    is_merged, is_split, lemma_narrowed_last4, merge_heads, mergeable, split_heads, splittable,
};
use crate::models::qwen3_5::ffn::{layer_place, missing, outputs, place};
use crate::models::qwen3_5::gguf::{Content, Gguf};
use crate::models::qwen3_5::repeat::{interleaved, repeat_interleave, repeated_dims};
use crate::models::state::{
    grow_refusal, grown, grown_dims, growth_fits, held, holds_behind, lemma_grown_holds,
    ConcatKvCache, State,
};
use crate::tensor::{within, Element, Tensor};
use vstd::prelude::*;

verus! {

/// Full attention: where its weights are in the table, its extents, and what it carries along.
#[derive(Debug)]
pub struct AttentionWeights<E> {
    pub q_proj: usize,
    pub k_proj: usize,
    pub v_proj: usize,
    pub o_proj: usize,
    pub q_norm: usize,
    pub k_norm: usize,
    pub num_heads: usize,
    pub num_kv_heads: usize,
    pub num_kv_groups: usize,
    pub head_dim: usize,
    pub kv_cache: ConcatKvCache<E>,
}

/// Why the projections of full attention cannot be found.
pub open spec fn projections_refusal(ct: Content, layer: usize) -> Option<Refusal> {
    first_of(
        missing(ct, layer, "attn_q.weight"@),
        first_of(
            missing(ct, layer, "attn_k.weight"@),
            first_of(
                missing(ct, layer, "attn_v.weight"@),
                missing(ct, layer, "attn_output.weight"@),
            ),
        ),
    )
}

/// The extents of a tensor of a layer.
pub open spec fn extents(ct: Content, layer: usize, suffix: Seq<char>) -> Seq<usize> {
    ct.tensor_infos@[place(ct, layer, suffix) as int].1.dims@
}

/// How many heads there are can be worked out: the projections have an extent, a head is not
/// empty, and there is one of keys at least.
pub open spec fn countable_attention(ct: Content, layer: usize, head_dim: usize) -> bool {
    projections_refusal(ct, layer) is None ==> {
        &&& extents(ct, layer, "attn_q.weight"@).len() >= 1
        &&& extents(ct, layer, "attn_k.weight"@).len() >= 1
        &&& 0 < head_dim
        &&& head_dim * 2 <= usize::MAX
        &&& outputs(ct, layer, "attn_k.weight"@) >= head_dim
    }
}

/// The full attention of a layer, or why there is none. The query projection makes a gate next
/// to each query; how many heads there are follows from the projections.
pub open spec fn attention_of<E>(
    ct: Content,
    layer: usize,
    head_dim: usize,
) -> core::result::Result<AttentionWeights<E>, Refusal> {
    match first_of(
        projections_refusal(ct, layer),
        first_of(
            missing(ct, layer, "attn_q_norm.weight"@),
            missing(ct, layer, "attn_k_norm.weight"@),
        ),
    ) {
        Some(why) => Err(why),
        None => {
            let num_heads = outputs(ct, layer, "attn_q.weight"@) as int / (head_dim * 2);
            let num_kv_heads = outputs(ct, layer, "attn_k.weight"@) as int / head_dim as int;
            Ok(
                AttentionWeights {
                    q_proj: place(ct, layer, "attn_q.weight"@),
                    k_proj: place(ct, layer, "attn_k.weight"@),
                    v_proj: place(ct, layer, "attn_v.weight"@),
                    o_proj: place(ct, layer, "attn_output.weight"@),
                    q_norm: place(ct, layer, "attn_q_norm.weight"@),
                    k_norm: place(ct, layer, "attn_k_norm.weight"@),
                    num_heads: num_heads as usize,
                    num_kv_heads: num_kv_heads as usize,
                    num_kv_groups: (num_heads / num_kv_heads) as usize,
                    head_dim,
                    kv_cache: ConcatKvCache { dim: 2, k: None, v: None },
                },
            )
        },
    }
}

/// `r` holds the first halves of the heads of `x`, or the second ones, at each position.
pub open spec fn is_half<E>(
    r: Tensor<E>,
    x: Tensor<E>,
    num_heads: usize,
    head_dim: usize,
    second: bool,
) -> bool {
    let (b, l) = (x.dims@[0], x.dims@[1]);
    let start = if second {
        head_dim as int
    } else {
        0
    };
    &&& r.wf()
    &&& r.dims@ == seq![b, num_heads, l, head_dim]
    &&& forall|a: int, h: int, t: int, i: int|
        0 <= a < b && 0 <= h < num_heads && 0 <= t < l && 0 <= i < head_dim ==> #[trigger] r.at4(
            a,
            h,
            t,
            i,
        ) == x.at3(a, t, h * (head_dim * 2) + start + i)
    &&& r.backend == x.backend
}

/// What a call of attention hands to the scores: all keys and values so far, each repeated for
/// the heads that share it.
pub open spec fn is_shared<E>(
    r: Tensor<E>,
    before: Option<State<E>>,
    new: State<E>,
    after: Option<State<E>>,
    groups: usize,
) -> bool {
    &&& grown(after, before, new, 2)
    &&& after matches Some(s) && interleaved(r, s.tensor, 1, groups)
}

/// What a call of attention hands back of its keys and values and leaves in the cache.
pub open spec fn extend_outcome<E>(
    r: Result<(Tensor<E>, Tensor<E>)>,
    before: ConcatKvCache<E>,
    after: ConcatKvCache<E>,
    k: State<E>,
    v: State<E>,
    groups: usize,
) -> bool {
    match grow_refusal(before.k, k, 2) {
        Some(why) => r matches Err(e) && why.is(e) && after == before,
        None => grown(after.k, before.k, k, 2) && match grow_refusal(before.v, v, 2) {
            Some(why) => r matches Err(e) && why.is(e) && after.v == before.v,
            None => if groups == 0 {
                &&& r matches Err(e) && e.is_empty_list("cat"@)
                &&& grown(after.v, before.v, v, 2)
            } else {
                &&& r matches Ok(t)
                &&& is_shared(t.0, before.k, k, after.k, groups)
                &&& is_shared(t.1, before.v, v, after.v, groups)
            },
        },
    }
}

/// Head `h` of `t` is head `h / groups` of `new`, from the position `start` on.
pub open spec fn shares<E>(t: Tensor<E>, new: Tensor<E>, start: int, groups: int) -> bool {
    forall|a: int, h: int, g: int, p: int, i: int|
        0 <= a < new.dims@[0] && 0 <= h < new.dims@[1] && 0 <= g < groups && 0 <= p < new.dims@[2]
            && 0 <= i < new.dims@[3] ==> #[trigger] t.at4(a, h * groups + g, start + p, i)
            == new.at4(a, h, p, i)
}

/// What is shared among heads is what was put in: every head of a group has the key head's rows,
/// behind those that were there.
proof fn lemma_shares<E>(
    t: Tensor<E>,
    before: Option<State<E>>,
    new: State<E>,
    after: Option<State<E>>,
    groups: usize,
)
    requires
        is_shared(t, before, new, after, groups),
        grow_refusal(before, new, 2) is None,
        sharing_fits(before, new, groups),
        groups > 0,
    ensures
        shares(t, new.tensor, held(before, 2), groups as int),
        before matches Some(old) ==> shares(t, old.tensor, 0, groups as int),
{
    lemma_grown_holds(after, before, new, 2);
    let s = after->Some_0;
    let n = groups as int;
    let dims = s.tensor.dims@;
    assert(dims == grown_dims(before, new, 2));
    let wide = t.dims@;
    assert(wide == repeated_dims(dims, 1, groups));
    crate::conv2d::lemma_product_four(dims);
    crate::conv2d::lemma_product_four(wide);
    assert(s.tensor.dims@.len() == 4);
    let start = held(before, 2);
    assert forall|a: int, h: int, g: int, p: int, i: int|
        0 <= a < new.tensor.dims@[0] && 0 <= h < new.tensor.dims@[1] && 0 <= g < n && 0 <= p
            < new.tensor.dims@[2] && 0 <= i < new.tensor.dims@[3] implies #[trigger] t.at4(
        a,
        h * n + g,
        start + p,
        i,
    ) == new.tensor.at4(a, h, p, i) by {
        lemma_shared_element(t, s.tensor, groups, a, h, g, start + p, i);
        lemma_third(new.tensor, a, h, p, i);
        lemma_third(s.tensor, a, h, start + p, i);
    }
    if let Some(old) = before {
        assert forall|a: int, h: int, g: int, p: int, i: int|
            0 <= a < old.tensor.dims@[0] && 0 <= h < old.tensor.dims@[1] && 0 <= g < n && 0 <= p
                < old.tensor.dims@[2] && 0 <= i < old.tensor.dims@[3] implies #[trigger] t.at4(
            a,
            h * n + g,
            0 + p,
            i,
        ) == old.tensor.at4(a, h, p, i) by {
            lemma_shared_element(t, s.tensor, groups, a, h, g, p, i);
            lemma_third(old.tensor, a, h, p, i);
            lemma_third(s.tensor, a, h, p, i);
        }
    }
}

/// An element of a head that shares is the element of the head that it shares.
proof fn lemma_shared_element<E>(
    t: Tensor<E>,
    s: Tensor<E>,
    groups: usize,
    a: int,
    h: int,
    g: int,
    p: int,
    i: int,
)
    requires
        interleaved(t, s, 1, groups),
        s.dims@.len() == 4,
        s.dims@[1] * groups <= usize::MAX,
        0 <= a < s.dims@[0],
        0 <= h < s.dims@[1],
        0 <= g < groups,
        0 <= p < s.dims@[2],
        0 <= i < s.dims@[3],
    ensures
        t.at4(a, h * groups + g, p, i) == s.at4(a, h, p, i),
{
    let n = groups as int;
    crate::arith::lemma_index_bound(h, g, s.dims@[1] as int, n);
    crate::arith::lemma_index_split(h, g, n);
    let c = h * n + g;
    assert(t.dims@ =~= seq![s.dims@[0], (s.dims@[1] * groups) as usize, s.dims@[2], s.dims@[3]]);
    crate::conv2d::lemma_at4_second(t, a, c, p, i);
    crate::conv2d::lemma_at4_second(s, a, h, p, i);
    assert(within(t.dims@, 1, a, c, p * t.dims@[3] + i));
}

/// The element at four indices, seen along the third dimension.
proof fn lemma_third<E>(t: Tensor<E>, a: int, b: int, c: int, d: int)
    requires
        t.dims@.len() == 4,
        0 <= a < t.dims@[0],
        0 <= b < t.dims@[1],
        0 <= c < t.dims@[2],
        0 <= d < t.dims@[3],
    ensures
        t.at4(a, b, c, d) == t.along(2, a * t.dims@[1] + b, c, d),
        within(t.dims@, 2, a * t.dims@[1] + b, c, d),
{
    let s = t.dims@;
    assert(s.skip(3) =~= seq![s[3]]);
    assert(s.take(2) =~= seq![s[0], s[1]]);
    crate::arith::lemma_span_two(s[0], s[1]);
    let last = seq![s[3]];
    assert(last.drop_first() =~= Seq::<usize>::empty());
    assert(product(last.drop_first()) == 1);
    assert(product(last) == s[3] as nat * product(last.drop_first()));
    assert(s[3] as nat * 1 == s[3]) by (nonlinear_arith);
    crate::arith::lemma_index_bound(a, b, s[0] as int, s[1] as int);
}

/// The keys that attention hands to the scores are the keys: those so far and the new ones behind
/// them, each head of them for every head of queries in its group; and the values are the values.
pub proof fn law_keys_are_keys_and_values_values<E>(
    t: (Tensor<E>, Tensor<E>),
    before: ConcatKvCache<E>,
    after: ConcatKvCache<E>,
    k: State<E>,
    v: State<E>,
    groups: usize,
)
    requires
        extend_outcome(Ok(t), before, after, k, v, groups),
        sharing_fits(before.k, k, groups),
        sharing_fits(before.v, v, groups),
    ensures
        shares(t.0, k.tensor, held(before.k, 2), groups as int),
        shares(t.1, v.tensor, held(before.v, 2), groups as int),
        before.k matches Some(old) ==> shares(t.0, old.tensor, 0, groups as int),
        before.v matches Some(old) ==> shares(t.1, old.tensor, 0, groups as int),
        holds_behind(after.k, before.k, k, 2),
        holds_behind(after.v, before.v, v, 2),
{
    lemma_shares(t.0, before.k, k, after.k, groups);
    lemma_shares(t.1, before.v, v, after.v, groups);
    lemma_grown_holds(after.k, before.k, k, 2);
    lemma_grown_holds(after.v, before.v, v, 2);
}

/// What a call of attention hands to the scores can be counted.
pub open spec fn sharing_fits<E>(before: Option<State<E>>, new: State<E>, groups: usize) -> bool {
    &&& new.tensor.dims@.len() == 4
    &&& growth_fits(before, new, 2)
    &&& grow_refusal(before, new, 2) is None ==> {
        let dims = grown_dims(before, new, 2);
        &&& dims[1] * groups <= usize::MAX
        &&& span(repeated_dims(dims, 1, groups)) <= usize::MAX
    }
}

/// `r` holds the outputs of the heads side by side, each times its gate.
pub open spec fn is_gated<E: Element>(r: Tensor<E>, ctx: Tensor<E>, gate: Tensor<E>) -> bool {
    let (b, n, l, d) = (ctx.dims@[0], ctx.dims@[1], ctx.dims@[2], ctx.dims@[3]);
    &&& r.wf()
    &&& r.dims@ == seq![b, l, (n * d) as usize]
    &&& forall|a: int, h: int, t: int, i: int|
        0 <= a < b && 0 <= h < n && 0 <= t < l && 0 <= i < d ==> r.at3(a, t, h * d + i)
            == #[trigger] ctx.at4(a, h, t, i).spec_times(gate.at4(a, h, t, i))
    &&& r.backend == ctx.backend
}

impl<E: Element> AttentionWeights<E> {
    /// Finds the full attention of a layer, with nothing carried along.
    pub fn new(gg: &Gguf, layer: usize, head_dim: usize) -> (r: Result<Self>)
        requires
            countable_attention(*gg.ct, layer, head_dim),
        ensures
            agrees(r, attention_of(*gg.ct, layer, head_dim)),
    {
        let q_proj: usize = layer_place(gg, layer, "attn_q.weight")?;
        let k_proj: usize = layer_place(gg, layer, "attn_k.weight")?;
        let v_proj: usize = layer_place(gg, layer, "attn_v.weight")?;
        let o_proj: usize = layer_place(gg, layer, "attn_output.weight")?;
        let q_out: usize = gg.ct.tensor_infos[q_proj].1.dims[0];
        let k_out: usize = gg.ct.tensor_infos[k_proj].1.dims[0];
        let num_heads: usize = q_out / (head_dim * 2);
        let num_kv_heads: usize = k_out / head_dim;
        assert(num_kv_heads >= 1) by (nonlinear_arith)
            requires
                num_kv_heads == k_out as int / head_dim as int,
                k_out >= head_dim,
                head_dim > 0,
        ;
        let num_kv_groups: usize = num_heads / num_kv_heads;
        let q_norm: usize = layer_place(gg, layer, "attn_q_norm.weight")?;
        let k_norm: usize = layer_place(gg, layer, "attn_k_norm.weight")?;
        Ok(
            AttentionWeights {
                q_proj,
                k_proj,
                v_proj,
                o_proj,
                q_norm,
                k_norm,
                num_heads,
                num_kv_heads,
                num_kv_groups,
                head_dim,
                kv_cache: ConcatKvCache::new(2),
            },
        )
    }

    /// The queries of each head, and the gates next to them.
    pub fn queries(&self, q_out: &Tensor<E>) -> (r: Result<(Tensor<E>, Tensor<E>)>)
        requires
            q_out.wf(),
            self.head_dim * 2 <= usize::MAX,
            splittable(q_out.dims@, self.num_heads, (self.head_dim * 2) as usize),
        ensures
            ({
                let wide = (self.head_dim * 2) as usize;
                let x = q_out.dims@;
                if x.len() != 3 {
                    r == Err::<(Tensor<E>, Tensor<E>), Error>(
                        Error::UnexpectedNumberOfDims { expected: 3, got: x.len() as usize },
                    )
                } else if product(x) != product(seq![x[0], x[1], self.num_heads, wide]) {
                    r matches Err(e) && e.is_mismatch(
                        x,
                        seq![x[0], x[1], self.num_heads, wide],
                        "reshape"@,
                    )
                } else {
                    &&& r matches Ok(t)
                    &&& is_half(t.0, *q_out, self.num_heads, self.head_dim, false)
                    &&& is_half(t.1, *q_out, self.num_heads, self.head_dim, true)
                }
            }),
    {
        let heads: Tensor<E> = split_heads(q_out, self.num_heads, self.head_dim * 2)?;
        let q: Tensor<E> = heads.narrow(3, 0, self.head_dim);
        let gate: Tensor<E> = heads.narrow(3, self.head_dim, self.head_dim);
        proof {
            let (b, n, l, d) = (q_out.dims@[0], self.num_heads, q_out.dims@[1], self.head_dim);
            assert(q.dims@ =~= seq![b, n, l, d]);
            assert(gate.dims@ =~= seq![b, n, l, d]);
            assert forall|a: int, h: int, t: int, i: int|
                0 <= a < b && 0 <= h < n && 0 <= t < l && 0 <= i < d implies #[trigger] q.at4(
                a,
                h,
                t,
                i,
            ) == q_out.at3(a, t, h * (d * 2) + 0 + i) by {
                lemma_narrowed_last4(q, heads, 0, d, a, h, t, i);
                assert(heads.at4(a, h, t, i) == q_out.at3(a, t, h * (d * 2) as usize + i));
            }
            assert forall|a: int, h: int, t: int, i: int|
                0 <= a < b && 0 <= h < n && 0 <= t < l && 0 <= i < d implies #[trigger] gate.at4(
                a,
                h,
                t,
                i,
            ) == q_out.at3(a, t, h * (d * 2) + d + i) by {
                lemma_narrowed_last4(gate, heads, d, d, a, h, t, i);
                assert(heads.at4(a, h, t, d + i) == q_out.at3(
                    a,
                    t,
                    h * (d * 2) as usize + (d + i),
                ));
            }
        }
        Ok((q, gate))
    }

    /// The keys, or the values, of each head.
    pub fn keys(&self, k: &Tensor<E>) -> (r: Result<Tensor<E>>)
        requires
            k.wf(),
            splittable(k.dims@, self.num_kv_heads, self.head_dim),
        ensures
            if k.dims@.len() != 3 {
                r == Err::<Tensor<E>, Error>(
                    Error::UnexpectedNumberOfDims { expected: 3, got: k.dims@.len() as usize },
                )
            } else if product(k.dims@) != product(
                seq![k.dims@[0], k.dims@[1], self.num_kv_heads, self.head_dim],
            ) {
                r matches Err(e) && e.is_mismatch(
                    k.dims@,
                    seq![k.dims@[0], k.dims@[1], self.num_kv_heads, self.head_dim],
                    "reshape"@,
                )
            } else {
                r matches Ok(t) && is_split(t, *k, self.num_kv_heads, self.head_dim)
            },
    {
        split_heads(k, self.num_kv_heads, self.head_dim)
    }

    /// Puts the keys and values of new positions behind those so far, and hands out all of them,
    /// each repeated for the heads that share it.
    pub fn extend(&mut self, k: &State<E>, v: &State<E>) -> (r: Result<(Tensor<E>, Tensor<E>)>)
        requires
            old(self).kv_cache.wf(),
            old(self).kv_cache.dim == 2,
            k.wf(),
            v.wf(),
            sharing_fits(old(self).kv_cache.k, *k, old(self).num_kv_groups),
            sharing_fits(old(self).kv_cache.v, *v, old(self).num_kv_groups),
        ensures
            final(self).bare() == old(self).bare(),
            final(self).kv_cache.wf(),
            final(self).kv_cache.dim == 2,
            extend_outcome(
                r,
                old(self).kv_cache,
                final(self).kv_cache,
                *k,
                *v,
                old(self).num_kv_groups,
            ),
    {
        self.kv_cache.append(k, v)?;
        if self.num_kv_groups == 0 {
            return Err(Error::OpRequiresAtLeastOneTensor { op: "cat" });
        }
        match (&self.kv_cache.k, &self.kv_cache.v) {
            (Some(keys), Some(values)) => {
                proof {
                    assert(keys.tensor.dims@ == grown_dims(old(self).kv_cache.k, *k, 2));
                    assert(values.tensor.dims@ == grown_dims(old(self).kv_cache.v, *v, 2));
                }
                let keys: Tensor<E> = repeat_interleave(&keys.tensor, self.num_kv_groups, 1);
                let values: Tensor<E> = repeat_interleave(&values.tensor, self.num_kv_groups, 1);
                Ok((keys, values))
            },
            _ => Err(Error::OpRequiresAtLeastOneTensor { op: "cat" }),
        }
    }

    /// The weights and extents, with nothing carried along.
    pub open spec fn bare(self) -> AttentionWeights<E> {
        AttentionWeights { kv_cache: ConcatKvCache { dim: 2, k: None, v: None }, ..self }
    }

    /// Puts the outputs of the heads side by side, each times its gate.
    pub fn gated(&self, ctx: &Tensor<E>, gate: &Tensor<E>) -> (r: Result<Tensor<E>>)
        requires
            ctx.wf(),
            gate.wf(),
            gate.dims@ == ctx.dims@,
            mergeable(ctx.dims@),
        ensures
            if ctx.dims@.len() != 4 {
                r == Err::<Tensor<E>, Error>(
                    Error::UnexpectedNumberOfDims { expected: 4, got: ctx.dims@.len() as usize },
                )
            } else {
                r matches Ok(t) && is_gated(t, *ctx, *gate)
            },
    {
        let n: usize = ctx.data.len();
        let mut data: Vec<E> = Vec::with_capacity(n);
        let mut i: usize = 0;
        while i < n
            invariant
                i <= n,
                n == ctx.data@.len(),
                n == gate.data@.len(),
                data@.len() == i,
                forall|j: int|
                    0 <= j < i ==> #[trigger] data@[j] == ctx.data@[j].spec_times(gate.data@[j]),
            decreases n - i,
        {
            data.push(ctx.data[i].times(gate.data[i]));
            i = i + 1;
        }
        let product: Tensor<E> = Tensor {
            dims: crate::shape::copy_dims(ctx.dims.as_slice()),
            data,
            is_variable: false,
            op: None,
            backend: ctx.backend,
        };
        let r: Result<Tensor<E>> = merge_heads(&product);
        proof {
            if r is Ok {
                let t = r->Ok_0;
                let d = ctx.dims@;
                assert(is_merged(t, product));
                assert forall|a: int, h: int, p: int, i: int|
                    0 <= a < d[0] && 0 <= h < d[1] && 0 <= p < d[2] && 0 <= i < d[3] implies t.at3(
                    a,
                    p,
                    h * d[3] + i,
                ) == #[trigger] ctx.at4(a, h, p, i).spec_times(gate.at4(a, h, p, i)) by {
                    crate::conv2d::lemma_at4_in_range(d, n as int, a, h, p, i);
                    assert(t.at3(a, p, h * d[3] + i) == product.at4(a, h, p, i));
                }
            }
        }
        r
    }

    /// Forgets all positions.
    pub fn clear_kv_cache(&mut self)
        ensures
            final(self).bare() == old(self).bare(),
            final(self).kv_cache == (ConcatKvCache::<E> {
                dim: old(self).kv_cache.dim,
                k: None,
                v: None,
            }),
    {
        self.kv_cache.reset();
    }
}

} // verus!
