//! Attention with two caches: keys of the audio, which are kept, and keys of the text, which grow.

use crate::arith::{product, span};
use crate::error::{agrees, first_of, refusal_of, Error, Refusal, Result};
use crate::models::heads::{is_split, split_heads, splittable};
use crate::models::state::{
    grow_refusal, grown, growth_fits, holds_behind, lemma_grown_holds, put_behind, State,
};
use crate::models::whisper::checkpoint::{
    below, layer_norm, layer_norm_of, linear, linear_of, Affine, Checkpoint, Linear, VarBuilder,
};
use crate::shape::copy_dims;
use crate::tensor::{Element, Tensor};
use crate::text::{decimal_text, push_decimal};
use vstd::prelude::*;
use vstd::string::*;

verus! {

/// Attention with several heads: where its weights are in the table, and its caches.
#[derive(Debug)]
pub struct MultiHeadAttention<E> {
    pub query: Linear,
    pub key: Linear,
    pub value: Linear,
    pub out: Linear,
    pub n_head: usize,
    /// The keys and values of what is attended to across: they are computed once, and kept.
    pub kv_cache: Option<(State<E>, State<E>)>,
    /// The keys and values of the positions so far: they grow with every step. Calls on whole
    /// sequences leave them alone.
    pub self_kv_cache: Option<(State<E>, State<E>)>,
}

/// The attention below a path, or why there is none.
pub open spec fn attention_of<E>(
    ck: Checkpoint,
    path: Seq<char>,
    n_state: usize,
    n_head: usize,
) -> core::result::Result<MultiHeadAttention<E>, Refusal> {
    let l = |name: Seq<char>, biased: bool|
        linear_of(ck, below(path, name), n_state, n_state, biased);
    let (query, value, key, out) = (
        l("q_proj"@, true),
        l("v_proj"@, true),
        l("k_proj"@, false),
        l("out_proj"@, true),
    );
    match first_of(
        refusal_of(query),
        first_of(refusal_of(value), first_of(refusal_of(key), refusal_of(out))),
    ) {
        Some(why) => Err(why),
        None => Ok(
            MultiHeadAttention {
                query: query->Ok_0,
                key: key->Ok_0,
                value: value->Ok_0,
                out: out->Ok_0,
                n_head,
                kv_cache: None,
                self_kv_cache: None,
            },
        ),
    }
}

/// A pair of keys and values is well formed where it is there.
pub open spec fn pair_wf<E>(pair: Option<(State<E>, State<E>)>) -> bool {
    pair matches Some(p) ==> p.0.wf() && p.1.wf()
}

/// The keys of a pair that may be missing.
pub open spec fn keys_of<E>(pair: Option<(State<E>, State<E>)>) -> Option<State<E>> {
    match pair {
        Some(p) => Some(p.0),
        None => None,
    }
}

/// The values of a pair that may be missing.
pub open spec fn values_of<E>(pair: Option<(State<E>, State<E>)>) -> Option<State<E>> {
    match pair {
        Some(p) => Some(p.1),
        None => None,
    }
}

/// How many positions a cache holds.
pub open spec fn cached_positions<E>(pair: Option<(State<E>, State<E>)>) -> int {
    match pair {
        Some(p) => p.0.tensor.dims@[1] as int,
        None => 0,
    }
}

/// Two pairs hold the same.
pub open spec fn same_pair<E>(
    a: Option<(State<E>, State<E>)>,
    b: Option<(State<E>, State<E>)>,
) -> bool {
    match (a, b) {
        (Some(p), Some(q)) => p.0@ == q.0@ && p.1@ == q.1@,
        (None, None) => true,
        _ => false,
    }
}

/// What asking for the keys and values across hands back and leaves kept.
pub open spec fn cross_outcome<E>(
    r: Option<(State<E>, State<E>)>,
    before: Option<(State<E>, State<E>)>,
    after: Option<(State<E>, State<E>)>,
    flush_cache: bool,
) -> bool {
    if flush_cache {
        after is None && r is None
    } else {
        after == before && same_pair(r, before)
    }
}

/// A pair of keys and values is kept.
pub open spec fn keeps_pair<E>(pair: Option<(State<E>, State<E>)>, k: State<E>, v: State<E>) -> bool {
    pair matches Some(p) && p.0@ == k@ && p.1@ == v@
}

/// Keys and values across that are kept are handed back as they were given, the keys as keys, however
/// often they are asked for, until they are flushed.
pub proof fn law_cross_reads_back<E>(
    k: State<E>,
    v: State<E>,
    kept: Option<(State<E>, State<E>)>,
    first: Option<(State<E>, State<E>)>,
    between: Option<(State<E>, State<E>)>,
    second: Option<(State<E>, State<E>)>,
    after: Option<(State<E>, State<E>)>,
    flush_cache: bool,
)
    requires
        keeps_pair(kept, k, v),
        cross_outcome(first, kept, between, false),
        cross_outcome(second, between, after, flush_cache),
    ensures
        keys_of(first) matches Some(s) && s@ == k@,
        values_of(first) matches Some(s) && s@ == v@,
        !flush_cache ==> (keys_of(second) matches Some(s) && s@ == k@),
        !flush_cache ==> (values_of(second) matches Some(s) && s@ == v@),
        flush_cache ==> second is None && after is None,
{
}

/// In a step, keys are put behind the keys and values behind the values, and both are handed back with
/// those that were there in front. Outside of steps they are handed back as they came, and the cache
/// stays as it was.
pub proof fn law_steps_keep_keys_and_values<E: Element>(
    p: (State<E>, State<E>),
    before: Option<(State<E>, State<E>)>,
    after: Option<(State<E>, State<E>)>,
    k: State<E>,
    v: State<E>,
    cache_self: bool,
)
    requires
        extend_outcome(Ok(p), before, after, k, v, cache_self),
        growth_fits(keys_of(before), k, 1),
        growth_fits(values_of(before), v, 1),
    ensures
        !cache_self ==> p.0@ == k@ && p.1@ == v@ && after == before,
        cache_self ==> holds_behind(keys_of(after), keys_of(before), k, 1),
        cache_self ==> holds_behind(values_of(after), values_of(before), v, 1),
        cache_self ==> (keys_of(after) matches Some(s) && s@ == p.0@),
        cache_self ==> (values_of(after) matches Some(s) && s@ == p.1@),
{
    if cache_self {
        lemma_grown_holds(keys_of(after), keys_of(before), k, 1);
        lemma_grown_holds(values_of(after), values_of(before), v, 1);
    }
}

/// What `extend_self` hands back and leaves in the cache.
pub open spec fn extend_outcome<E: Element>(
    r: Result<(State<E>, State<E>)>,
    before: Option<(State<E>, State<E>)>,
    after: Option<(State<E>, State<E>)>,
    k: State<E>,
    v: State<E>,
    cache_self: bool,
) -> bool {
    if !cache_self {
        &&& r matches Ok(p) && p.0@ == k@ && p.1@ == v@
        &&& after == before
    } else {
        match first_of(
            grow_refusal(keys_of(before), k, 1),
            grow_refusal(values_of(before), v, 1),
        ) {
            Some(why) => r matches Err(e) && why.is(e) && after == before,
            None => {
                &&& r matches Ok(p)
                &&& grown(keys_of(after), keys_of(before), k, 1)
                &&& grown(values_of(after), values_of(before), v, 1)
                &&& same_pair(after, Some(p))
                &&& before is Some ==> before->Some_0.0.tensor.dims@[1] + k.tensor.dims@[1]
                    <= usize::MAX
                &&& cached_positions(after) == cached_positions(before) + k.tensor.dims@[1]
            },
        }
    }
}

/// Where the first of `n_ctx` queries is among `n_kv` keys, or why there is no such place.
pub open spec fn offset_of(n_ctx: usize, n_kv: usize) -> core::result::Result<usize, Refusal> {
    if n_ctx > n_kv {
        Err(
            Refusal::Says(
                decimal_text(n_ctx as nat) + " queries against "@ + decimal_text(n_kv as nat)
                    + " keys"@,
            ),
        )
    } else {
        Ok((n_kv - n_ctx) as usize)
    }
}

/// Where the first of `n_ctx` queries is among `n_kv` keys.
///
/// There can be more keys than queries: a step brings one query, and its keys are all so far.
pub fn key_offset(n_ctx: usize, n_kv: usize) -> (r: Result<usize>)
    ensures
        agrees(r, offset_of(n_ctx, n_kv)),
{
    if n_ctx > n_kv {
        let mut text: String = crate::text::decimal(n_ctx);
        text.append(" queries against ");
        push_decimal(&mut text, n_kv);
        text.append(" keys");
        return Err(Error::Msg(text));
    }
    Ok(n_kv - n_ctx)
}

/// `m` says which of `n` positions may look at which: at themselves and at those before.
pub open spec fn is_causal(m: Tensor<bool>, n: usize) -> bool {
    &&& m.wf()
    &&& m.dims@ == seq![n, n]
    &&& forall|i: int, j: int|
        0 <= i < n && 0 <= j < n ==> #[trigger] m.at2(i, j) == (j <= i)
}

/// Which of `n` positions may look at which.
pub fn causal_mask(n: usize, backend: crate::tensor::Backend) -> (r: Tensor<bool>)
    requires
        span(seq![n, n]) <= usize::MAX,
    ensures
        is_causal(r, n),
        r.backend == backend,
{
    proof {
        crate::arith::lemma_span_two(n, n);
    }
    let total: usize = n * n;
    let mut data: Vec<bool> = Vec::with_capacity(total);
    let mut p: usize = 0;
    while p < total
        invariant
            p <= total,
            total == n * n,
            data@.len() == p,
            forall|q: int|
                0 <= q < p ==> #[trigger] data@[q] == (q % n as int <= q / n as int),
        decreases total - p,
    {
        proof {
            assert(n > 0) by (nonlinear_arith)
                requires
                    p < n * n,
            ;
        }
        data.push(p % n <= p / n);
        p = p + 1;
    }
    let dims: Vec<usize> = vec![n, n];
    assert(dims@ =~= seq![n, n]);
    let r: Tensor<bool> = Tensor { dims, data, is_variable: false, op: None, backend };
    proof {
        assert forall|i: int, j: int| 0 <= i < n && 0 <= j < n implies #[trigger] r.at2(i, j) == (j
            <= i) by {
            crate::arith::lemma_index_bound(i, j, n as int, n as int);
            crate::arith::lemma_index_split(i, j, n as int);
            assert(r.data@[i * n + j] == (j <= i));
        }
    }
    r
}

/// The rows of a mask for queries from `offset` on, against the first `n_kv` keys; an error where
/// the mask is too small.
pub fn mask_window(mask: &Tensor<bool>, offset: usize, n_ctx: usize, n_kv: usize) -> (r: Result<
    Tensor<bool>,
>)
    requires
        mask.wf(),
        mask.dims@.len() == 2,
    ensures
        if offset + n_ctx > mask.dims@[0] {
            r matches Err(e) && e.is_out_of_range(mask.dims@, 0, offset, n_ctx)
        } else if n_kv > mask.dims@[1] {
            r matches Err(e) && e.is_out_of_range(seq![n_ctx, mask.dims@[1]], 1, 0, n_kv)
        } else {
            &&& r matches Ok(t)
            &&& t.wf()
            &&& t.dims@ == seq![n_ctx, n_kv]
            &&& forall|i: int, j: int|
                0 <= i < n_ctx && 0 <= j < n_kv ==> #[trigger] t.at2(i, j) == mask.at2(
                    offset + i,
                    j,
                )
        },
{
    let (rows, cols) = (mask.dims[0], mask.dims[1]);
    if offset > rows || n_ctx > rows - offset {
        return Err(
            Error::NarrowInvalidArgs {
                shape: copy_dims(mask.dims.as_slice()),
                dim: 0,
                start: offset,
                len: n_ctx,
            },
        );
    }
    if n_kv > cols {
        let shape: Vec<usize> = vec![n_ctx, cols];
        assert(shape@ =~= seq![n_ctx, cols]);
        return Err(Error::NarrowInvalidArgs { shape, dim: 1, start: 0, len: n_kv });
    }
    let part: Tensor<bool> = mask.narrow(0, offset, n_ctx);
    let r: Tensor<bool> = part.narrow(1, 0, n_kv);
    proof {
        assert(r.dims@ =~= seq![n_ctx, n_kv]);
        assert forall|i: int, j: int| 0 <= i < n_ctx && 0 <= j < n_kv implies #[trigger] r.at2(i, j)
            == mask.at2(offset + i, j) by {
            lemma_at2(part, r, *mask, offset, n_ctx, n_kv, i, j);
        }
    }
    Ok(r)
}

/// A part of a matrix, element by element.
proof fn lemma_at2<E>(
    part: Tensor<E>,
    r: Tensor<E>,
    mask: Tensor<E>,
    offset: usize,
    n_ctx: usize,
    n_kv: usize,
    i: int,
    j: int,
)
    requires
        mask.dims@.len() == 2,
        crate::tensor::narrowed(part, mask, 0, offset, n_ctx),
        crate::tensor::narrowed(r, part, 1, 0, n_kv),
        0 <= i < n_ctx,
        0 <= j < n_kv,
        n_kv <= mask.dims@[1],
    ensures
        r.at2(i, j) == mask.at2(offset + i, j),
{
    let cols = mask.dims@[1];
    let one = product(Seq::<usize>::empty());
    assert(part.dims@ =~= seq![n_ctx, cols]);
    assert(r.dims@ =~= seq![n_ctx, n_kv]);
    assert(part.dims@.take(0) =~= Seq::<usize>::empty());
    assert(part.dims@.skip(1) =~= seq![cols]);
    assert(mask.dims@.skip(1) =~= seq![cols]);
    assert(r.dims@.take(1) =~= seq![n_ctx]);
    assert(r.dims@.skip(2) =~= Seq::<usize>::empty());
    assert(part.dims@.skip(2) =~= Seq::<usize>::empty());
    lemma_product_single(cols);
    lemma_product_single(n_ctx);
    assert(crate::tensor::within(r.dims@, 1, i, j, 0));
    assert(r.along(1, i, j, 0) == part.along(1, i, 0 + j, 0));
    assert(crate::tensor::within(part.dims@, 0, 0, i, j));
    assert(part.along(0, 0, i, j) == mask.along(0, 0, offset + i, j));
    assert((i * n_kv + j) * one + 0 == i * n_kv + j) by (nonlinear_arith)
        requires
            one == 1,
    ;
    assert((i * cols + j) * one + 0 == i * cols + j) by (nonlinear_arith)
        requires
            one == 1,
    ;
    assert((0 * n_ctx + i) * cols + j == i * cols + j) by (nonlinear_arith);
    assert((0 * mask.dims@[0] + (offset + i)) * cols + j == (offset + i) * cols + j)
        by (nonlinear_arith);
}

/// The product of one extent.
proof fn lemma_product_single(a: usize)
    ensures
        product(seq![a]) == a,
{
    let s = seq![a];
    assert(s.take(1) =~= s);
    assert(s.take(0) =~= Seq::<usize>::empty());
    crate::arith::lemma_product_prefix_step(s, 0);
    assert(product(s) == a) by (nonlinear_arith)
        requires
            product(s) == product(Seq::<usize>::empty()) * a as nat,
            product(Seq::<usize>::empty()) == 1,
    ;
}

/// A query that comes in a step may look at exactly what it may look at when the whole sequence
/// comes at once: at the positions up to its own.
pub proof fn law_step_sees_what_the_sequence_sees(
    mask: Tensor<bool>,
    n: usize,
    n_ctx: usize,
    n_kv: usize,
    window: Tensor<bool>,
    i: int,
    j: int,
)
    requires
        is_causal(mask, n),
        n_ctx <= n_kv <= n,
        0 <= i < n_ctx,
        0 <= j < n_kv,
        forall|a: int, b: int|
            0 <= a < n_ctx && 0 <= b < n_kv ==> #[trigger] window.at2(a, b) == mask.at2(
                offset_of(n_ctx, n_kv)->Ok_0 + a,
                b,
            ),
    ensures
        window.at2(i, j) == mask.at2(n_kv - n_ctx + i, j),
        window.at2(i, j) == (j <= n_kv - n_ctx + i),
        window.at2(n_ctx - 1, j),
{
    assert(window.at2(n_ctx - 1, j) == mask.at2(n_kv - n_ctx + (n_ctx - 1), j));
}

impl<E: Element> MultiHeadAttention<E> {
    /// The weights, with nothing cached.
    pub open spec fn bare(self) -> MultiHeadAttention<E> {
        MultiHeadAttention { kv_cache: None, self_kv_cache: None, ..self }
    }

    /// What is cached is well formed.
    pub open spec fn wf(&self) -> bool {
        pair_wf(self.kv_cache) && pair_wf(self.self_kv_cache)
    }

    /// Finds an attention, with nothing cached.
    pub fn load(n_state: usize, n_head: usize, vb: &VarBuilder) -> (r: Result<Self>)
        ensures
            agrees(r, attention_of(*vb.ck, vb.path@, n_state, n_head)),
    {
        let query: Linear = linear(n_state, n_state, true, &vb.pp("q_proj"))?;
        let value: Linear = linear(n_state, n_state, true, &vb.pp("v_proj"))?;
        let key: Linear = linear(n_state, n_state, false, &vb.pp("k_proj"))?;
        let out: Linear = linear(n_state, n_state, true, &vb.pp("out_proj"))?;
        Ok(
            MultiHeadAttention {
                query,
                key,
                value,
                out,
                n_head,
                kv_cache: None,
                self_kv_cache: None,
            },
        )
    }

    /// The keys and values to attend to, given those of the positions of this call.
    ///
    /// With `cache_self`, the call goes on from the positions so far: theirs come first, and all
    /// are kept. Without it, the positions of the call are the whole sequence, and nothing is
    /// read or kept.
    pub fn extend_self(&mut self, k: &State<E>, v: &State<E>, cache_self: bool) -> (r: Result<
        (State<E>, State<E>),
    >)
        requires
            old(self).wf(),
            k.wf(),
            v.wf(),
            cache_self ==> growth_fits(keys_of(old(self).self_kv_cache), *k, 1),
            cache_self ==> growth_fits(values_of(old(self).self_kv_cache), *v, 1),
        ensures
            final(self).bare() == old(self).bare(),
            final(self).kv_cache == old(self).kv_cache,
            final(self).wf(),
            extend_outcome(
                r,
                old(self).self_kv_cache,
                final(self).self_kv_cache,
                *k,
                *v,
                cache_self,
            ),
    {
        if !cache_self {
            return Ok((k.copy(), v.copy()));
        }
        let (keys, values) = match &self.self_kv_cache {
            None => (k.copy(), v.copy()),
            Some(pair) => {
                let keys: State<E> = put_behind(&pair.0, k, 1)?;
                let values: State<E> = put_behind(&pair.1, v, 1)?;
                (keys, values)
            },
        };
        let pair: (State<E>, State<E>) = (keys.copy(), values.copy());
        self.self_kv_cache = Some((keys, values));
        Ok(pair)
    }

    /// The keys and values across that are kept, unless they are flushed first.
    pub fn cached_cross(&mut self, flush_cache: bool) -> (r: Option<(State<E>, State<E>)>)
        requires
            old(self).wf(),
        ensures
            final(self).bare() == old(self).bare(),
            final(self).self_kv_cache == old(self).self_kv_cache,
            final(self).wf(),
            cross_outcome(r, old(self).kv_cache, final(self).kv_cache, flush_cache),
    {
        if flush_cache {
            self.kv_cache = None;
        }
        match &self.kv_cache {
            Some(pair) => Some((pair.0.copy(), pair.1.copy())),
            None => None,
        }
    }

    /// Keeps the keys and values across.
    pub fn keep_cross(&mut self, k: &State<E>, v: &State<E>)
        requires
            old(self).wf(),
            k.wf(),
            v.wf(),
        ensures
            final(self).bare() == old(self).bare(),
            final(self).self_kv_cache == old(self).self_kv_cache,
            final(self).wf(),
            keeps_pair(final(self).kv_cache, *k, *v),
    {
        self.kv_cache = Some((k.copy(), v.copy()));
    }

    /// The heads of queries, keys or values, `[batch, heads, length, head width]`.
    pub fn reshape_head(&self, x: &Tensor<E>) -> (r: Result<Tensor<E>>)
        requires
            x.wf(),
            self.n_head > 0,
            x.dims@.len() == 3 ==> splittable(
                x.dims@,
                self.n_head,
                (x.dims@[2] as int / self.n_head as int) as usize,
            ),
        ensures
            ({
                let head_dim = (x.dims@[2] as int / self.n_head as int) as usize;
                if x.dims@.len() != 3 {
                    r == Err::<Tensor<E>, Error>(
                        Error::UnexpectedNumberOfDims { expected: 3, got: x.dims@.len() as usize },
                    )
                } else if product(x.dims@) != product(
                    seq![x.dims@[0], x.dims@[1], self.n_head, head_dim],
                ) {
                    r matches Err(e) && e.is_mismatch(
                        x.dims@,
                        seq![x.dims@[0], x.dims@[1], self.n_head, head_dim],
                        "reshape"@,
                    )
                } else {
                    r matches Ok(t) && is_split(t, *x, self.n_head, head_dim)
                }
            }),
    {
        let (_n_batch, _n_ctx, n_state) = x.dims3()?;
        split_heads(x, self.n_head, n_state / self.n_head)
    }

    /// Forgets all that is cached.
    pub fn reset_kv_cache(&mut self)
        ensures
            *final(self) == old(self).bare(),
    {
        self.kv_cache = None;
        self.self_kv_cache = None;
    }
}

/// A block: attention to the positions of the sequence, attention across where there is any, and
/// two linear maps.
#[derive(Debug)]
pub struct ResidualAttentionBlock<E> {
    pub attn: MultiHeadAttention<E>,
    pub attn_ln: Affine,
    pub cross_attn: Option<(MultiHeadAttention<E>, Affine)>,
    pub mlp_linear1: Linear,
    pub mlp_linear2: Linear,
    pub mlp_ln: Affine,
}

/// Why a block below a path cannot be found.
pub open spec fn block_refusal<E>(
    ck: Checkpoint,
    path: Seq<char>,
    n_state: usize,
    n_head: usize,
    ca: bool,
) -> Option<Refusal> {
    let n_mlp = (n_state * 4) as usize;
    let norm = |name: Seq<char>| refusal_of(layer_norm_of(ck, below(path, name), n_state));
    first_of(
        refusal_of(attention_of::<E>(ck, below(path, "self_attn"@), n_state, n_head)),
        first_of(
            norm("self_attn_layer_norm"@),
            first_of(
                if ca {
                    first_of(
                        refusal_of(
                            attention_of::<E>(ck, below(path, "encoder_attn"@), n_state, n_head),
                        ),
                        norm("encoder_attn_layer_norm"@),
                    )
                } else {
                    None
                },
                first_of(
                    refusal_of(linear_of(ck, below(path, "fc1"@), n_state, n_mlp, true)),
                    first_of(
                        refusal_of(linear_of(ck, below(path, "fc2"@), n_mlp, n_state, true)),
                        norm("final_layer_norm"@),
                    ),
                ),
            ),
        ),
    )
}

/// The block below a path, with attention across or without, or why there is none.
pub open spec fn block_of<E>(
    ck: Checkpoint,
    path: Seq<char>,
    n_state: usize,
    n_head: usize,
    ca: bool,
) -> core::result::Result<ResidualAttentionBlock<E>, Refusal> {
    let n_mlp = (n_state * 4) as usize;
    let norm = |name: Seq<char>| layer_norm_of(ck, below(path, name), n_state)->Ok_0;
    match block_refusal::<E>(ck, path, n_state, n_head, ca) {
        Some(why) => Err(why),
        None => Ok(
            ResidualAttentionBlock {
                attn: attention_of(ck, below(path, "self_attn"@), n_state, n_head)->Ok_0,
                attn_ln: norm("self_attn_layer_norm"@),
                cross_attn: if ca {
                    Some(
                        (
                            attention_of(
                                ck,
                                below(path, "encoder_attn"@),
                                n_state,
                                n_head,
                            )->Ok_0,
                            norm("encoder_attn_layer_norm"@),
                        ),
                    )
                } else {
                    None
                },
                mlp_linear1: linear_of(ck, below(path, "fc1"@), n_state, n_mlp, true)->Ok_0,
                mlp_linear2: linear_of(ck, below(path, "fc2"@), n_mlp, n_state, true)->Ok_0,
                mlp_ln: norm("final_layer_norm"@),
            },
        ),
    }
}

impl<E: Element> ResidualAttentionBlock<E> {
    /// The weights, with nothing cached.
    pub open spec fn bare(self) -> ResidualAttentionBlock<E> {
        ResidualAttentionBlock {
            attn: self.attn.bare(),
            cross_attn: match self.cross_attn {
                Some(c) => Some((c.0.bare(), c.1)),
                None => None,
            },
            ..self
        }
    }

    /// What is cached is well formed.
    pub open spec fn wf(&self) -> bool {
        self.attn.wf() && (self.cross_attn matches Some(c) ==> c.0.wf())
    }

    /// Finds a block, with attention across or without, and with nothing cached.
    pub fn load(n_state: usize, n_head: usize, ca: bool, vb: &VarBuilder) -> (r: Result<Self>)
        requires
            n_state * 4 <= usize::MAX,
        ensures
            agrees(r, block_of(*vb.ck, vb.path@, n_state, n_head, ca)),
    {
        let attn: MultiHeadAttention<E> = MultiHeadAttention::load(
            n_state,
            n_head,
            &vb.pp("self_attn"),
        )?;
        let attn_ln: Affine = layer_norm(n_state, &vb.pp("self_attn_layer_norm"))?;
        let cross_attn: Option<(MultiHeadAttention<E>, Affine)> = if ca {
            let cross_attn: MultiHeadAttention<E> = MultiHeadAttention::load(
                n_state,
                n_head,
                &vb.pp("encoder_attn"),
            )?;
            let cross_attn_ln: Affine = layer_norm(n_state, &vb.pp("encoder_attn_layer_norm"))?;
            Some((cross_attn, cross_attn_ln))
        } else {
            None
        };
        let n_mlp: usize = n_state * 4;
        let mlp_linear1: Linear = linear(n_state, n_mlp, true, &vb.pp("fc1"))?;
        let mlp_linear2: Linear = linear(n_mlp, n_state, true, &vb.pp("fc2"))?;
        let mlp_ln: Affine = layer_norm(n_state, &vb.pp("final_layer_norm"))?;
        Ok(
            ResidualAttentionBlock {
                attn,
                attn_ln,
                cross_attn,
                mlp_linear1,
                mlp_linear2,
                mlp_ln,
            },
        )
    }

    /// Forgets all that is cached.
    pub fn reset_kv_cache(&mut self)
        ensures
            *final(self) == old(self).bare(),
    {
        self.attn.reset_kv_cache();
        if let Some(cross) = &mut self.cross_attn {
            cross.0.reset_kv_cache();
        }
    }
}

} // verus!
