//! Decoding in steps: what it makes of a sequence, for any arithmetic that works on one position
//! at a time, and any weighting of positions that passes over hidden ones.

use crate::error::first_of;
use crate::models::heads::is_split;
use crate::models::state::{grow_refusal, grown, State};
use crate::models::whisper::attention::{
    extend_outcome, is_causal, keys_of, same_pair, values_of, MultiHeadAttention,
    ResidualAttentionBlock,
};
use crate::models::whisper::checkpoint::{Affine, Linear};
use crate::models::whisper::model::{
    all_bare, embedding_outcome, law_step_embeds_as_the_sequence, TextDecoder,
};
use crate::models::whisper::qkv::{
    head_width, is_attention_scores, is_step, is_weighed, law_step_scores_as_the_sequence,
    law_step_weighs_as_the_sequence, mask_dims, scores_refusal, weighted_at,
};
use crate::tensor::{within, Element, Tensor};
use vstd::prelude::*;

verus! {

/// The arithmetic of the decoder that is left to floats.
#[verifier::reject_recursive_types(E)]
pub ghost struct DecoderFloats<E> {
    /// A linear map of a row, and the width of what it makes.
    pub project: spec_fn(Linear, Seq<E>) -> Seq<E>,
    pub width: spec_fn(Linear) -> usize,
    /// The norm of a row.
    pub norm: spec_fn(Affine, Seq<E>) -> Seq<E>,
    /// What is applied to a row between the two linear maps of a block.
    pub activation: spec_fn(Seq<E>) -> Seq<E>,
    /// The weights of the keys, from their scores.
    pub softmax: spec_fn(Seq<E>) -> Seq<E>,
    /// What queries and keys with heads of a width are scaled by.
    pub scale: spec_fn(usize) -> E,
    /// What is added to the score of a key that is hidden from a query.
    pub hidden: E,
}

/// A score that what hides a key was added to.
pub open spec fn is_hidden<E: Element>(score: E, hidden: E) -> bool {
    exists|x: E| score == #[trigger] x.spec_plus(hidden)
}

/// The weights of scores whose last ones are hidden are those of the others, and zeros.
pub open spec fn passes_over_hidden<E: Element>(
    softmax: spec_fn(Seq<E>) -> Seq<E>,
    hidden: E,
) -> bool {
    &&& forall|s: Seq<E>| (#[trigger] softmax(s)).len() == s.len()
    &&& forall|s: Seq<E>, n: int|
        0 < n <= s.len() && (forall|j: int| n <= j < s.len() ==> is_hidden(#[trigger] s[j], hidden))
            ==> softmax(s) == #[trigger] softmax(s.take(n)) + Seq::new(
            (s.len() - n) as nat,
            |j: int| E::spec_zero(),
        )
}

/// The elements at position `t`.
pub open spec fn row<E>(x: Tensor<E>, a: int, t: int) -> Seq<E> {
    Seq::new(x.dims@[2] as nat, |c: int| x.at3(a, t, c))
}

/// The scores, or weights, of all keys for query `i` of head `g`.
pub open spec fn key_row<E>(x: Tensor<E>, a: int, g: int, i: int) -> Seq<E> {
    Seq::new(x.dims@[3] as nat, |j: int| x.at4(a, g, i, j))
}

/// Every position of `r` comes from that position of `x` alone.
pub open spec fn is_rowwise<E>(
    r: Tensor<E>,
    x: Tensor<E>,
    f: spec_fn(Seq<E>) -> Seq<E>,
    width: usize,
) -> bool {
    &&& x.dims@.len() == 3
    &&& r.dims@ == seq![x.dims@[0], x.dims@[1], width]
    &&& forall|a: int, t: int|
        0 <= a < x.dims@[0] && 0 <= t < x.dims@[1] ==> #[trigger] row(r, a, t) == f(row(x, a, t))
}

/// The elements of `x` and `y`, added up.
pub open spec fn is_sum<E: Element>(r: Tensor<E>, x: Tensor<E>, y: Tensor<E>) -> bool {
    &&& x.dims@.len() == 3
    &&& r.dims@ == x.dims@
    &&& y.dims@ == x.dims@
    &&& forall|a: int, t: int, c: int|
        0 <= a < x.dims@[0] && 0 <= t < x.dims@[1] && 0 <= c < x.dims@[2] ==> #[trigger] r.at3(
            a,
            t,
            c,
        ) == x.at3(a, t, c).spec_plus(y.at3(a, t, c))
}

/// The weights of scores, query by query.
pub open spec fn is_softmaxed<E>(
    w: Tensor<E>,
    qk: Tensor<E>,
    softmax: spec_fn(Seq<E>) -> Seq<E>,
) -> bool {
    &&& qk.dims@.len() == 4
    &&& w.dims@ == qk.dims@
    &&& forall|a: int, g: int, i: int|
        0 <= a < qk.dims@[0] && 0 <= g < qk.dims@[1] && 0 <= i < qk.dims@[2] ==> #[trigger] key_row(
            w,
            a,
            g,
            i,
        ) == softmax(key_row(qk, a, g, i))
}

/// One attention, step by step.
pub ghost struct AttentionCall<E> {
    pub q: Tensor<E>,
    /// The keys and values of the positions of the call.
    pub k: State<E>,
    pub v: State<E>,
    /// The keys and values that are attended to.
    pub keys: State<E>,
    pub values: State<E>,
    pub scores: Tensor<E>,
    pub heads: Tensor<E>,
    pub weights: Tensor<E>,
    pub weighed: Tensor<E>,
}

/// An attention makes `out` of `x`: `scores` and `weigh`, with the arithmetic `f` between them.
pub open spec fn attends<E: Element>(
    call: AttentionCall<E>,
    att: MultiHeadAttention<E>,
    x: Tensor<E>,
    out: Tensor<E>,
    mask: Option<&Tensor<bool>>,
    f: DecoderFloats<E>,
) -> bool {
    let (keys, values) = (call.keys.tensor, call.values.tensor);
    let width = head_width(call.q.dims@, att.n_head);
    &&& att.n_head > 0
    &&& is_rowwise(call.q, x, |s: Seq<E>| (f.project)(att.query, s), (f.width)(att.query))
    &&& scores_refusal(
        call.q.dims@,
        keys.dims@,
        values.dims@,
        mask_dims(mask),
        att.n_head,
    ) is None
    &&& is_attention_scores(
        call.scores,
        call.q,
        keys,
        mask,
        (f.scale)(width),
        f.hidden,
        att.n_head,
    )
    &&& is_split(call.heads, values, att.n_head, head_width(values.dims@, att.n_head))
    &&& is_softmaxed(call.weights, call.scores, f.softmax)
    &&& call.weights.dims@[0] == call.heads.dims@[0]
    &&& call.weights.dims@[1] == call.heads.dims@[1]
    &&& call.weights.dims@[3] == call.heads.dims@[2]
    &&& is_weighed(call.weighed, call.weights, call.heads)
    &&& call.heads.dims@[1] * call.heads.dims@[3] <= usize::MAX
    &&& is_rowwise(out, call.weighed, |s: Seq<E>| (f.project)(att.out, s), (f.width)(att.out))
}

/// The keys and values of the positions of `x`.
pub open spec fn projects<E: Element>(
    k: Tensor<E>,
    v: Tensor<E>,
    att: MultiHeadAttention<E>,
    x: Tensor<E>,
    f: DecoderFloats<E>,
) -> bool {
    &&& is_rowwise(k, x, |s: Seq<E>| (f.project)(att.key, s), (f.width)(att.key))
    &&& is_rowwise(v, x, |s: Seq<E>| (f.project)(att.value, s), (f.width)(att.value))
}

/// An attention to the positions of the sequence: what is attended to comes from `extend_self`.
pub open spec fn attends_self<E: Element>(
    call: AttentionCall<E>,
    before: MultiHeadAttention<E>,
    after: MultiHeadAttention<E>,
    x: Tensor<E>,
    out: Tensor<E>,
    mask: Tensor<bool>,
    cache_self: bool,
    f: DecoderFloats<E>,
) -> bool {
    &&& attends(call, before, x, out, Some(&mask), f)
    &&& projects(call.k.tensor, call.v.tensor, before, x, f)
    &&& extend_outcome(
        Ok((call.keys, call.values)),
        before.self_kv_cache,
        after.self_kv_cache,
        call.k,
        call.v,
        cache_self,
    )
}

/// An attention across: what is attended to is cached, or made of `xa` and kept.
pub open spec fn attends_across<E: Element>(
    call: AttentionCall<E>,
    before: MultiHeadAttention<E>,
    after: MultiHeadAttention<E>,
    x: Tensor<E>,
    xa: Tensor<E>,
    out: Tensor<E>,
    flush: bool,
    f: DecoderFloats<E>,
) -> bool {
    &&& attends(call, before, x, out, None, f)
    &&& same_pair(after.kv_cache, Some((call.keys, call.values)))
    &&& if flush || before.kv_cache is None {
        projects(call.keys.tensor, call.values.tensor, before, xa, f)
    } else {
        same_pair(before.kv_cache, Some((call.keys, call.values)))
    }
}

/// One block, step by step.
pub ghost struct BlockCall<E> {
    pub normed: Tensor<E>,
    pub attn: AttentionCall<E>,
    pub attended: Tensor<E>,
    pub x1: Tensor<E>,
    pub cross_normed: Tensor<E>,
    pub cross: AttentionCall<E>,
    pub cross_attended: Tensor<E>,
    pub x2: Tensor<E>,
    pub mlp_normed: Tensor<E>,
    pub inner: Tensor<E>,
    pub activated: Tensor<E>,
    pub mlp: Tensor<E>,
}

/// A block makes `y` of `x`: both attentions and the two linear maps, each added to what it is
/// made of.
pub open spec fn is_block_call<E: Element>(
    call: BlockCall<E>,
    before: ResidualAttentionBlock<E>,
    after: ResidualAttentionBlock<E>,
    x: Tensor<E>,
    y: Tensor<E>,
    xa: Tensor<E>,
    mask: Tensor<bool>,
    flush: bool,
    cache_self: bool,
    f: DecoderFloats<E>,
) -> bool {
    let width = x.dims@[2];
    &&& after.bare() == before.bare()
    &&& is_rowwise(call.normed, x, |s: Seq<E>| (f.norm)(before.attn_ln, s), width)
    &&& attends_self(
        call.attn,
        before.attn,
        after.attn,
        call.normed,
        call.attended,
        mask,
        cache_self,
        f,
    )
    &&& is_sum(call.x1, x, call.attended)
    &&& before.cross_attn matches Some(cross) && after.cross_attn matches Some(next) && {
        &&& is_rowwise(call.cross_normed, call.x1, |s: Seq<E>| (f.norm)(cross.1, s), width)
        &&& attends_across(
            call.cross,
            cross.0,
            next.0,
            call.cross_normed,
            xa,
            call.cross_attended,
            flush,
            f,
        )
        &&& is_sum(call.x2, call.x1, call.cross_attended)
    }
    &&& is_rowwise(call.mlp_normed, call.x2, |s: Seq<E>| (f.norm)(before.mlp_ln, s), width)
    &&& is_rowwise(
        call.inner,
        call.mlp_normed,
        |s: Seq<E>| (f.project)(before.mlp_linear1, s),
        (f.width)(before.mlp_linear1),
    )
    &&& is_rowwise(call.activated, call.inner, f.activation, (f.width)(before.mlp_linear1))
    &&& is_rowwise(
        call.mlp,
        call.activated,
        |s: Seq<E>| (f.project)(before.mlp_linear2, s),
        (f.width)(before.mlp_linear2),
    )
    &&& is_sum(y, call.x2, call.mlp)
}

/// What works on one position at a time makes of the positions of a step what it makes of them in
/// the sequence.
proof fn lemma_step_rowwise<E>(
    r: Tensor<E>,
    r_whole: Tensor<E>,
    x: Tensor<E>,
    x_whole: Tensor<E>,
    f: spec_fn(Seq<E>) -> Seq<E>,
    g: spec_fn(Seq<E>) -> Seq<E>,
    width: usize,
    offset: int,
)
    requires
        is_step(x, x_whole, offset),
        is_rowwise(r, x, f, width),
        is_rowwise(r_whole, x_whole, g, width),
        forall|s: Seq<E>| #[trigger] f(s) == g(s),
    ensures
        is_step(r, r_whole, offset),
{
    assert forall|a: int, t: int, c: int|
        0 <= a < r.dims@[0] && 0 <= t < r.dims@[1] && 0 <= c < r.dims@[2] implies #[trigger] r.at3(
        a,
        t,
        c,
    ) == r_whole.at3(a, offset + t, c) by {
        assert forall|d: int| 0 <= d < x.dims@[2] implies row(x, a, t)[d] == row(
            x_whole,
            a,
            offset + t,
        )[d] by {
            assert(x.at3(a, t, d) == x_whole.at3(a, offset + t, d));
        }
        assert(row(x, a, t) =~= row(x_whole, a, offset + t));
        assert(row(r, a, t) == f(row(x, a, t)));
        assert(row(r_whole, a, offset + t) == g(row(x_whole, a, offset + t)));
        assert(row(r, a, t)[c] == r.at3(a, t, c));
        assert(row(r_whole, a, offset + t)[c] == r_whole.at3(a, offset + t, c));
    }
}

/// So does a sum.
proof fn lemma_step_sums<E: Element>(
    r: Tensor<E>,
    r_whole: Tensor<E>,
    x: Tensor<E>,
    x_whole: Tensor<E>,
    y: Tensor<E>,
    y_whole: Tensor<E>,
    offset: int,
)
    requires
        is_step(x, x_whole, offset),
        is_step(y, y_whole, offset),
        is_sum(r, x, y),
        is_sum(r_whole, x_whole, y_whole),
    ensures
        is_step(r, r_whole, offset),
{
    assert forall|a: int, t: int, c: int|
        0 <= a < r.dims@[0] && 0 <= t < r.dims@[1] && 0 <= c < r.dims@[2] implies #[trigger] r.at3(
        a,
        t,
        c,
    ) == r_whole.at3(a, offset + t, c) by {
        assert(x.at3(a, t, c) == x_whole.at3(a, offset + t, c));
        assert(y.at3(a, t, c) == y_whole.at3(a, offset + t, c));
    }
}

/// The weights of a query in a step are those of the query in the sequence, which gives none to
/// the keys that come later.
proof fn lemma_step_weights<E: Element>(
    call: AttentionCall<E>,
    whole: AttentionCall<E>,
    mask: Option<&Tensor<bool>>,
    n_ctx: usize,
    n_head: usize,
    f: DecoderFloats<E>,
    offset: int,
    a: int,
    g: int,
    i: int,
)
    requires
        passes_over_hidden(f.softmax, f.hidden),
        n_head > 0,
        is_step(call.q, whole.q, offset),
        is_step(call.keys.tensor, whole.keys.tensor, 0),
        call.keys.tensor.dims@[0] == call.q.dims@[0],
        head_width(whole.keys.tensor.dims@, n_head) == head_width(whole.q.dims@, n_head),
        match mask {
            Some(m) => {
                &&& is_causal(*m, n_ctx)
                &&& whole.q.dims@[1] <= n_ctx
                &&& call.keys.tensor.dims@[1] == offset + call.q.dims@[1]
                &&& whole.keys.tensor.dims@[1] == whole.q.dims@[1]
            },
            None => call.keys.tensor.dims@[1] == whole.keys.tensor.dims@[1],
        },
        is_attention_scores(
            call.scores,
            call.q,
            call.keys.tensor,
            mask,
            (f.scale)(head_width(call.q.dims@, n_head)),
            f.hidden,
            n_head,
        ),
        is_attention_scores(
            whole.scores,
            whole.q,
            whole.keys.tensor,
            mask,
            (f.scale)(head_width(whole.q.dims@, n_head)),
            f.hidden,
            n_head,
        ),
        is_softmaxed(call.weights, call.scores, f.softmax),
        is_softmaxed(whole.weights, whole.scores, f.softmax),
        0 <= a < call.q.dims@[0],
        0 <= g < n_head,
        0 <= i < call.q.dims@[1],
    ensures
        forall|j: int|
            0 <= j < call.weights.dims@[3] ==> #[trigger] call.weights.at4(a, g, i, j)
                == whole.weights.at4(a, g, offset + i, j),
        forall|j: int|
            call.weights.dims@[3] <= j < whole.weights.dims@[3] ==> #[trigger] whole.weights.at4(
                a,
                g,
                offset + i,
                j,
            ) == E::spec_zero(),
{
    let (m, all) = (call.keys.tensor.dims@[1] as int, whole.keys.tensor.dims@[1] as int);
    let (part, full) = (
        key_row(call.scores, a, g, i),
        key_row(whole.scores, a, g, offset + i),
    );
    assert forall|j: int| 0 <= j < m implies #[trigger] part[j] == full[j] by {
        law_step_scores_as_the_sequence(
            call.scores,
            whole.scores,
            call.q,
            whole.q,
            call.keys.tensor,
            whole.keys.tensor,
            mask,
            (f.scale)(head_width(whole.q.dims@, n_head)),
            f.hidden,
            n_head,
            offset,
            a,
            g,
            i,
            j,
        );
    }
    assert(full.take(m) =~= part);
    let (w, w_all) = (
        key_row(call.weights, a, g, i),
        key_row(whole.weights, a, g, offset + i),
    );
    assert(w == (f.softmax)(part));
    assert(w_all == (f.softmax)(full));
    if mask is Some {
        assert forall|j: int| m <= j < full.len() implies is_hidden(
            #[trigger] full[j],
            f.hidden,
        ) by {
            let seen = mask->Some_0;
            assert(!seen.at2(offset + i, j));
            assert(whole.scores.at4(a, g, offset + i, j) == full[j]);
        }
        assert(w_all == w + Seq::new((all - m) as nat, |j: int| E::spec_zero()));
    } else {
        assert(full =~= part);
    }
    assert forall|j: int| 0 <= j < m implies #[trigger] call.weights.at4(a, g, i, j)
        == whole.weights.at4(a, g, offset + i, j) by {
        assert(w[j] == w_all[j]);
    }
    assert forall|j: int| m <= j < all implies #[trigger] whole.weights.at4(a, g, offset + i, j)
        == E::spec_zero() by {
        assert(w_all[j] == E::spec_zero());
    }
}

/// An attention makes of the positions of a step what it makes of them in the sequence, where it
/// attends to the same positions, or to those of the sequence up to the step.
proof fn lemma_step_attends<E: Element>(
    call: AttentionCall<E>,
    whole: AttentionCall<E>,
    att: MultiHeadAttention<E>,
    att_whole: MultiHeadAttention<E>,
    x: Tensor<E>,
    x_whole: Tensor<E>,
    out: Tensor<E>,
    out_whole: Tensor<E>,
    mask: Option<&Tensor<bool>>,
    n_ctx: usize,
    f: DecoderFloats<E>,
    offset: int,
)
    requires
        passes_over_hidden(f.softmax, f.hidden),
        att.bare() == att_whole.bare(),
        attends(call, att, x, out, mask, f),
        attends(whole, att_whole, x_whole, out_whole, mask, f),
        is_step(x, x_whole, offset),
        is_step(call.keys.tensor, whole.keys.tensor, 0),
        is_step(call.values.tensor, whole.values.tensor, 0),
        match mask {
            Some(m) => {
                &&& is_causal(*m, n_ctx)
                &&& call.keys.tensor.dims@[1] == offset + x.dims@[1]
                &&& whole.keys.tensor.dims@[1] == x_whole.dims@[1]
            },
            None => call.keys.tensor.dims@[1] == whole.keys.tensor.dims@[1],
        },
    ensures
        is_step(out, out_whole, offset),
{
    let n_head = att.n_head;
    lemma_step_rowwise(
        call.q,
        whole.q,
        x,
        x_whole,
        |s: Seq<E>| (f.project)(att.query, s),
        |s: Seq<E>| (f.project)(att_whole.query, s),
        (f.width)(att.query),
        offset,
    );
    let (v, v_whole) = (call.values.tensor, whole.values.tensor);
    let d = head_width(v.dims@, n_head) as int;
    let (r, r_whole) = (call.weighed, whole.weighed);
    assert(v.dims@.len() == 3 && v_whole.dims@.len() == 3);
    assert forall|a: int, t: int, ch: int|
        0 <= a < r.dims@[0] && 0 <= t < r.dims@[1] && 0 <= ch
            < r.dims@[2] implies #[trigger] r.at3(a, t, ch) == r_whole.at3(a, offset + t, ch) by {
        crate::arith::lemma_index_join(ch, n_head as int, d);
        let (g, c) = (ch / d, ch % d);
        crate::models::whisper::qkv::lemma_head_within(v.dims@[2] as int, n_head as int, g);
        lemma_step_weights(call, whole, mask, n_ctx, n_head, f, offset, a, g, t);
        assert forall|j: int|
            0 <= j < call.weights.dims@[3] implies #[trigger] call.heads.at4(a, g, j, c)
            == whole.heads.at4(a, g, j, c) by {
            assert(call.heads.at4(a, g, j, c) == v.at3(a, j, g * d + c));
            assert(whole.heads.at4(a, g, j, c) == v_whole.at3(a, j, g * d + c));
            assert(v.at3(a, j, g * d + c) == v_whole.at3(a, 0 + j, g * d + c));
        }
        law_step_weighs_as_the_sequence(
            call.weights,
            whole.weights,
            call.heads,
            whole.heads,
            offset,
            a,
            g,
            t,
            c,
        );
        assert(r.at3(a, t, g * d + c) == weighted_at(call.weights, call.heads, a, g, t, c));
        assert(r_whole.at3(a, offset + t, g * d + c) == weighted_at(
            whole.weights,
            whole.heads,
            a,
            g,
            offset + t,
            c,
        ));
    }
    lemma_step_rowwise(
        out,
        out_whole,
        r,
        r_whole,
        |s: Seq<E>| (f.project)(att.out, s),
        |s: Seq<E>| (f.project)(att_whole.out, s),
        (f.width)(att.out),
        offset,
    );
}

/// A cache holds the first `n` positions of `whole`.
pub open spec fn holds<E>(cache: Option<State<E>>, whole: Tensor<E>, n: int) -> bool {
    match cache {
        Some(s) => is_step(s.tensor, whole, 0) && s.tensor.dims@[1] == n,
        None => n == 0,
    }
}

/// A cache that holds the first positions, and that the next ones are put behind, holds both.
proof fn lemma_cache_grows<E>(
    after: Option<State<E>>,
    before: Option<State<E>>,
    new: State<E>,
    whole: Tensor<E>,
    n: int,
)
    requires
        holds(before, whole, n),
        is_step(new.tensor, whole, n),
        grow_refusal(before, new, 1) is None,
        grown(after, before, new, 1),
    ensures
        after is Some,
        holds(after, whole, n + new.tensor.dims@[1]),
{
    if before is Some {
        let (r, a, b) = (after->Some_0.tensor, before->Some_0.tensor, new.tensor);
        assert(r.dims@ =~= seq![a.dims@[0], (a.dims@[1] + b.dims@[1]) as usize, a.dims@[2]]);
        assert forall|i: int, t: int, c: int|
            0 <= i < r.dims@[0] && 0 <= t < r.dims@[1] && 0 <= c
                < r.dims@[2] implies #[trigger] r.at3(i, t, c) == whole.at3(i, 0 + t, c) by {
            crate::conv::lemma_at3_middle(r, i, t, c);
            assert(within(r.dims@, 1, i, t, c));
            assert(r.along(1, i, t, c) == if t < a.dims@[1] {
                a.along(1, i, t, c)
            } else {
                b.along(1, i, t - a.dims@[1], c)
            });
            if t < a.dims@[1] {
                crate::conv::lemma_at3_middle(a, i, t, c);
                assert(a.at3(i, t, c) == whole.at3(i, 0 + t, c));
            } else {
                crate::conv::lemma_at3_middle(b, i, t - a.dims@[1], c);
                assert(b.at3(i, t - a.dims@[1], c) == whole.at3(i, n + (t - a.dims@[1]), c));
            }
        }
    } else {
        let (s, b) = (after->Some_0.tensor, new.tensor);
        assert forall|i: int, t: int, c: int|
            0 <= i < s.dims@[0] && 0 <= t < s.dims@[1] && 0 <= c
                < s.dims@[2] implies #[trigger] s.at3(i, t, c) == whole.at3(i, 0 + t, c) by {
            assert(b.at3(i, t, c) == whole.at3(i, 0 + t, c));
        }
    }
}

/// What holds of a tensor holds of one with the same extents and elements.
proof fn lemma_same_step<E>(a: Tensor<E>, b: Tensor<E>, whole: Tensor<E>, whole2: Tensor<E>, n: int)
    requires
        is_step(a, whole, n),
        b.dims@ == a.dims@,
        b.data@ == a.data@,
        whole2.dims@ == whole.dims@,
        whole2.data@ == whole.data@,
    ensures
        is_step(b, whole2, n),
{
    assert forall|i: int, t: int, c: int|
        0 <= i < b.dims@[0] && 0 <= t < b.dims@[1] && 0 <= c < b.dims@[2] implies #[trigger] b.at3(
        i,
        t,
        c,
    ) == whole2.at3(i, n + t, c) by {
        assert(a.at3(i, t, c) == whole.at3(i, n + t, c));
    }
}

/// The caches of an attention across are empty, or hold the keys and values of `whole`.
pub open spec fn holds_across<E>(
    cache: Option<(State<E>, State<E>)>,
    whole: AttentionCall<E>,
) -> bool {
    cache matches Some(p) ==> {
        &&& is_step(p.0.tensor, whole.keys.tensor, 0)
        &&& p.0.tensor.dims@ == whole.keys.tensor.dims@
        &&& is_step(p.1.tensor, whole.values.tensor, 0)
        &&& p.1.tensor.dims@ == whole.values.tensor.dims@
    }
}

/// The caches of a block hold the first `n` positions of those that a call on the whole sequence
/// attends to.
pub open spec fn block_holds<E: Element>(
    block: ResidualAttentionBlock<E>,
    whole: BlockCall<E>,
    n: int,
) -> bool {
    &&& holds(keys_of(block.attn.self_kv_cache), whole.attn.k.tensor, n)
    &&& holds(values_of(block.attn.self_kv_cache), whole.attn.v.tensor, n)
    &&& block.cross_attn matches Some(cross) ==> holds_across(cross.0.kv_cache, whole.cross)
}

/// The attention of a step to the positions so far.
proof fn lemma_step_attends_self<E: Element>(
    call: AttentionCall<E>,
    whole: AttentionCall<E>,
    before: MultiHeadAttention<E>,
    after: MultiHeadAttention<E>,
    before_whole: MultiHeadAttention<E>,
    after_whole: MultiHeadAttention<E>,
    x: Tensor<E>,
    x_whole: Tensor<E>,
    out: Tensor<E>,
    out_whole: Tensor<E>,
    mask: Tensor<bool>,
    n_ctx: usize,
    f: DecoderFloats<E>,
    offset: int,
)
    requires
        passes_over_hidden(f.softmax, f.hidden),
        is_causal(mask, n_ctx),
        before.bare() == before_whole.bare(),
        attends_self(call, before, after, x, out, mask, true, f),
        attends_self(whole, before_whole, after_whole, x_whole, out_whole, mask, false, f),
        is_step(x, x_whole, offset),
        holds(keys_of(before.self_kv_cache), whole.k.tensor, offset),
        holds(values_of(before.self_kv_cache), whole.v.tensor, offset),
    ensures
        is_step(out, out_whole, offset),
        holds(keys_of(after.self_kv_cache), whole.k.tensor, offset + x.dims@[1]),
        holds(values_of(after.self_kv_cache), whole.v.tensor, offset + x.dims@[1]),
{
    lemma_step_rowwise(
        call.k.tensor,
        whole.k.tensor,
        x,
        x_whole,
        |s: Seq<E>| (f.project)(before.key, s),
        |s: Seq<E>| (f.project)(before_whole.key, s),
        (f.width)(before.key),
        offset,
    );
    lemma_step_rowwise(
        call.v.tensor,
        whole.v.tensor,
        x,
        x_whole,
        |s: Seq<E>| (f.project)(before.value, s),
        |s: Seq<E>| (f.project)(before_whole.value, s),
        (f.width)(before.value),
        offset,
    );
    let (cache, grown_cache) = (before.self_kv_cache, after.self_kv_cache);
    assert(first_of(
        grow_refusal(keys_of(cache), call.k, 1),
        grow_refusal(values_of(cache), call.v, 1),
    ) is None);
    lemma_cache_grows(keys_of(grown_cache), keys_of(cache), call.k, whole.k.tensor, offset);
    lemma_cache_grows(values_of(grown_cache), values_of(cache), call.v, whole.v.tensor, offset);
    let pair = grown_cache->Some_0;
    assert(call.keys@ == pair.0@ && call.values@ == pair.1@);
    assert(whole.keys@ == whole.k@ && whole.values@ == whole.v@);
    lemma_same_step(
        pair.0.tensor,
        call.keys.tensor,
        whole.k.tensor,
        whole.keys.tensor,
        0,
    );
    lemma_same_step(
        pair.1.tensor,
        call.values.tensor,
        whole.v.tensor,
        whole.values.tensor,
        0,
    );
    lemma_step_attends(
        call,
        whole,
        before,
        before_whole,
        x,
        x_whole,
        out,
        out_whole,
        Some(&mask),
        n_ctx,
        f,
        offset,
    );
}

/// The attention of a step across.
proof fn lemma_step_attends_across<E: Element>(
    call: AttentionCall<E>,
    whole: AttentionCall<E>,
    before: MultiHeadAttention<E>,
    after: MultiHeadAttention<E>,
    before_whole: MultiHeadAttention<E>,
    after_whole: MultiHeadAttention<E>,
    x: Tensor<E>,
    x_whole: Tensor<E>,
    xa: Tensor<E>,
    out: Tensor<E>,
    out_whole: Tensor<E>,
    flush: bool,
    f: DecoderFloats<E>,
    offset: int,
)
    requires
        passes_over_hidden(f.softmax, f.hidden),
        before.bare() == before_whole.bare(),
        attends_across(call, before, after, x, xa, out, flush, f),
        attends_across(whole, before_whole, after_whole, x_whole, xa, out_whole, true, f),
        is_step(x, x_whole, offset),
        holds_across(before.kv_cache, whole),
    ensures
        is_step(out, out_whole, offset),
        holds_across(after.kv_cache, whole),
{
    if flush || before.kv_cache is None {
        assert(is_step(xa, xa, 0));
        lemma_step_rowwise(
            call.keys.tensor,
            whole.keys.tensor,
            xa,
            xa,
            |s: Seq<E>| (f.project)(before.key, s),
            |s: Seq<E>| (f.project)(before_whole.key, s),
            (f.width)(before.key),
            0,
        );
        lemma_step_rowwise(
            call.values.tensor,
            whole.values.tensor,
            xa,
            xa,
            |s: Seq<E>| (f.project)(before.value, s),
            |s: Seq<E>| (f.project)(before_whole.value, s),
            (f.width)(before.value),
            0,
        );
    } else {
        let pair = before.kv_cache->Some_0;
        lemma_same_step(
            pair.0.tensor,
            call.keys.tensor,
            whole.keys.tensor,
            whole.keys.tensor,
            0,
        );
        lemma_same_step(
            pair.1.tensor,
            call.values.tensor,
            whole.values.tensor,
            whole.values.tensor,
            0,
        );
    }
    let next = after.kv_cache->Some_0;
    lemma_same_step(
        call.keys.tensor,
        next.0.tensor,
        whole.keys.tensor,
        whole.keys.tensor,
        0,
    );
    lemma_same_step(
        call.values.tensor,
        next.1.tensor,
        whole.values.tensor,
        whole.values.tensor,
        0,
    );
    lemma_step_attends(
        call,
        whole,
        before,
        before_whole,
        x,
        x_whole,
        out,
        out_whole,
        None,
        0,
        f,
        offset,
    );
}

/// A block makes of the positions of a step what it makes of them in the sequence, and its caches
/// hold them too then.
proof fn lemma_step_block<E: Element>(
    call: BlockCall<E>,
    whole: BlockCall<E>,
    before: ResidualAttentionBlock<E>,
    after: ResidualAttentionBlock<E>,
    before_whole: ResidualAttentionBlock<E>,
    after_whole: ResidualAttentionBlock<E>,
    x: Tensor<E>,
    x_whole: Tensor<E>,
    y: Tensor<E>,
    y_whole: Tensor<E>,
    xa: Tensor<E>,
    mask: Tensor<bool>,
    n_ctx: usize,
    flush: bool,
    f: DecoderFloats<E>,
    offset: int,
)
    requires
        passes_over_hidden(f.softmax, f.hidden),
        is_causal(mask, n_ctx),
        before.bare() == before_whole.bare(),
        is_block_call(call, before, after, x, y, xa, mask, flush, true, f),
        is_block_call(
            whole,
            before_whole,
            after_whole,
            x_whole,
            y_whole,
            xa,
            mask,
            true,
            false,
            f,
        ),
        is_step(x, x_whole, offset),
        block_holds(before, whole, offset),
    ensures
        is_step(y, y_whole, offset),
        block_holds(after, whole, offset + x.dims@[1]),
{
    let width = x.dims@[2];
    lemma_step_rowwise(
        call.normed,
        whole.normed,
        x,
        x_whole,
        |s: Seq<E>| (f.norm)(before.attn_ln, s),
        |s: Seq<E>| (f.norm)(before_whole.attn_ln, s),
        width,
        offset,
    );
    lemma_step_attends_self(
        call.attn,
        whole.attn,
        before.attn,
        after.attn,
        before_whole.attn,
        after_whole.attn,
        call.normed,
        whole.normed,
        call.attended,
        whole.attended,
        mask,
        n_ctx,
        f,
        offset,
    );
    lemma_step_sums(call.x1, whole.x1, x, x_whole, call.attended, whole.attended, offset);
    let (cross, cross_whole) = (
        before.cross_attn->Some_0,
        before_whole.cross_attn->Some_0,
    );
    let (next, next_whole) = (after.cross_attn->Some_0, after_whole.cross_attn->Some_0);
    lemma_step_rowwise(
        call.cross_normed,
        whole.cross_normed,
        call.x1,
        whole.x1,
        |s: Seq<E>| (f.norm)(cross.1, s),
        |s: Seq<E>| (f.norm)(cross_whole.1, s),
        width,
        offset,
    );
    lemma_step_attends_across(
        call.cross,
        whole.cross,
        cross.0,
        next.0,
        cross_whole.0,
        next_whole.0,
        call.cross_normed,
        whole.cross_normed,
        xa,
        call.cross_attended,
        whole.cross_attended,
        flush,
        f,
        offset,
    );
    lemma_step_sums(
        call.x2,
        whole.x2,
        call.x1,
        whole.x1,
        call.cross_attended,
        whole.cross_attended,
        offset,
    );
    lemma_step_rowwise(
        call.mlp_normed,
        whole.mlp_normed,
        call.x2,
        whole.x2,
        |s: Seq<E>| (f.norm)(before.mlp_ln, s),
        |s: Seq<E>| (f.norm)(before_whole.mlp_ln, s),
        width,
        offset,
    );
    lemma_step_rowwise(
        call.inner,
        whole.inner,
        call.mlp_normed,
        whole.mlp_normed,
        |s: Seq<E>| (f.project)(before.mlp_linear1, s),
        |s: Seq<E>| (f.project)(before_whole.mlp_linear1, s),
        (f.width)(before.mlp_linear1),
        offset,
    );
    lemma_step_rowwise(
        call.activated,
        whole.activated,
        call.inner,
        whole.inner,
        f.activation,
        f.activation,
        (f.width)(before.mlp_linear1),
        offset,
    );
    lemma_step_rowwise(
        call.mlp,
        whole.mlp,
        call.activated,
        whole.activated,
        |s: Seq<E>| (f.project)(before.mlp_linear2, s),
        |s: Seq<E>| (f.project)(before_whole.mlp_linear2, s),
        (f.width)(before.mlp_linear2),
        offset,
    );
    lemma_step_sums(y, y_whole, call.x2, whole.x2, call.mlp, whole.mlp, offset);
}

/// The blocks of the decoder, one after the other.
pub ghost struct DecoderCall<E> {
    /// What goes into each block, and what comes out of the last.
    pub states: Seq<Tensor<E>>,
    pub blocks: Seq<BlockCall<E>>,
}

/// The blocks make `out` of the first of the states.
pub open spec fn is_decoder_call<E: Element>(
    call: DecoderCall<E>,
    before: Seq<ResidualAttentionBlock<E>>,
    after: Seq<ResidualAttentionBlock<E>>,
    out: Tensor<E>,
    ln: Affine,
    xa: Tensor<E>,
    mask: Tensor<bool>,
    flush: bool,
    cache_self: bool,
    f: DecoderFloats<E>,
) -> bool {
    let n = before.len();
    let last = call.states[n as int];
    &&& after.len() == n
    &&& call.blocks.len() == n
    &&& call.states.len() == n + 1
    &&& forall|i: int|
        0 <= i < n ==> is_block_call(
            #[trigger] call.blocks[i],
            before[i],
            after[i],
            call.states[i],
            call.states[i + 1],
            xa,
            mask,
            flush,
            cache_self,
            f,
        )
    &&& is_rowwise(out, last, |s: Seq<E>| (f.norm)(ln, s), last.dims@[2])
}

/// The caches of all blocks hold the first `n` positions of those that a call on the whole
/// sequence attends to.
pub open spec fn blocks_hold<E: Element>(
    blocks: Seq<ResidualAttentionBlock<E>>,
    whole: DecoderCall<E>,
    n: int,
) -> bool {
    &&& blocks.len() == whole.blocks.len()
    &&& forall|i: int|
        0 <= i < blocks.len() ==> block_holds(#[trigger] blocks[i], whole.blocks[i], n)
}

/// A call on whole sequences, `b` of `l` tokens each, by a decoder that has cached whatever it has.
pub open spec fn is_whole_call<E: Element>(
    call: DecoderCall<E>,
    before: TextDecoder<E>,
    after: Seq<ResidualAttentionBlock<E>>,
    ids: Seq<u32>,
    b: usize,
    l: usize,
    tokens: Tensor<E>,
    positions: Tensor<E>,
    xa: Tensor<E>,
    out: Tensor<E>,
    f: DecoderFloats<E>,
) -> bool {
    &&& embedding_outcome(Ok(call.states[0]), ids, b, l, tokens, positions, 0)
    &&& is_decoder_call(
        call,
        before.blocks@,
        after,
        out,
        before.ln,
        xa,
        before.mask,
        true,
        false,
        f,
    )
}

/// A step on the next positions: `begin_step` makes `begun` of the decoder and embeds the tokens,
/// the blocks run, and `end_step` counts the positions.
pub open spec fn is_cached_call<E: Element>(
    call: DecoderCall<E>,
    before: TextDecoder<E>,
    begun: TextDecoder<E>,
    after: TextDecoder<E>,
    ids: Seq<u32>,
    b: usize,
    l: usize,
    tokens: Tensor<E>,
    positions: Tensor<E>,
    xa: Tensor<E>,
    out: Tensor<E>,
    reset: bool,
    f: DecoderFloats<E>,
) -> bool {
    &&& begun.same_weights(&before)
    &&& if reset {
        all_bare(begun.blocks@, before.blocks@) && begun.cache_len == 0
    } else {
        begun == before
    }
    &&& embedding_outcome(Ok(call.states[0]), ids, b, l, tokens, positions, begun.cache_len)
    &&& is_decoder_call(
        call,
        begun.blocks@,
        after.blocks@,
        out,
        begun.ln,
        xa,
        begun.mask,
        reset,
        true,
        f,
    )
    &&& after.same_weights(&begun)
    &&& after.cache_len == begun.cache_len + l
}

/// The first `n` blocks make of the positions of a step what they make of them in the sequence.
proof fn lemma_step_blocks<E: Element>(
    call: DecoderCall<E>,
    whole: DecoderCall<E>,
    before: Seq<ResidualAttentionBlock<E>>,
    after: Seq<ResidualAttentionBlock<E>>,
    before_whole: Seq<ResidualAttentionBlock<E>>,
    after_whole: Seq<ResidualAttentionBlock<E>>,
    out: Tensor<E>,
    out_whole: Tensor<E>,
    ln: Affine,
    xa: Tensor<E>,
    mask: Tensor<bool>,
    n_ctx: usize,
    flush: bool,
    f: DecoderFloats<E>,
    offset: int,
    n: nat,
)
    requires
        passes_over_hidden(f.softmax, f.hidden),
        is_causal(mask, n_ctx),
        before.len() == before_whole.len(),
        forall|i: int|
            0 <= i < before.len() ==> (#[trigger] before[i]).bare() == before_whole[i].bare(),
        is_decoder_call(call, before, after, out, ln, xa, mask, flush, true, f),
        is_decoder_call(
            whole,
            before_whole,
            after_whole,
            out_whole,
            ln,
            xa,
            mask,
            true,
            false,
            f,
        ),
        blocks_hold(before, whole, offset),
        is_step(call.states[0], whole.states[0], offset),
        n <= before.len(),
    ensures
        is_step(call.states[n as int], whole.states[n as int], offset),
        call.states[n as int].dims@[1] == call.states[0].dims@[1],
        forall|i: int|
            0 <= i < n ==> block_holds(
                #[trigger] after[i],
                whole.blocks[i],
                offset + call.states[0].dims@[1],
            ),
    decreases n,
{
    if n > 0 {
        let i = n - 1;
        lemma_step_blocks(
            call,
            whole,
            before,
            after,
            before_whole,
            after_whole,
            out,
            out_whole,
            ln,
            xa,
            mask,
            n_ctx,
            flush,
            f,
            offset,
            (n - 1) as nat,
        );
        assert(before[i].bare() == before_whole[i].bare());
        assert(block_holds(before[i], whole.blocks[i], offset));
        assert(is_block_call(
            call.blocks[i],
            before[i],
            after[i],
            call.states[i],
            call.states[i + 1],
            xa,
            mask,
            flush,
            true,
            f,
        ));
        assert(is_block_call(
            whole.blocks[i],
            before_whole[i],
            after_whole[i],
            whole.states[i],
            whole.states[i + 1],
            xa,
            mask,
            true,
            false,
            f,
        ));
        lemma_step_block(
            call.blocks[i],
            whole.blocks[i],
            before[i],
            after[i],
            before_whole[i],
            after_whole[i],
            call.states[i],
            whole.states[i],
            call.states[i + 1],
            whole.states[i + 1],
            xa,
            mask,
            n_ctx,
            flush,
            f,
            offset,
        );
    }
}

/// A step of a decoder whose caches hold the positions so far, or that forgets them first, makes of
/// its positions what a call on the whole sequence makes of them, and its caches hold them too
/// then. That holds for whatever is computed from one position at a time, and for any weighting of
/// keys that passes over hidden ones.
pub proof fn law_step_decodes_as_the_sequence<E: Element>(
    call: DecoderCall<E>,
    before: TextDecoder<E>,
    begun: TextDecoder<E>,
    after: TextDecoder<E>,
    ids: Seq<u32>,
    l: usize,
    out: Tensor<E>,
    reset: bool,
    whole: DecoderCall<E>,
    decoder: TextDecoder<E>,
    left: Seq<ResidualAttentionBlock<E>>,
    all_ids: Seq<u32>,
    len: usize,
    out_whole: Tensor<E>,
    b: usize,
    tokens: Tensor<E>,
    positions: Tensor<E>,
    xa: Tensor<E>,
    f: DecoderFloats<E>,
)
    requires
        passes_over_hidden(f.softmax, f.hidden),
        is_causal(decoder.mask, decoder.n_ctx),
        is_whole_call(
            whole,
            decoder,
            left,
            all_ids,
            b,
            len,
            tokens,
            positions,
            xa,
            out_whole,
            f,
        ),
        before.same_weights(&decoder),
        is_cached_call(
            call,
            before,
            begun,
            after,
            ids,
            b,
            l,
            tokens,
            positions,
            xa,
            out,
            reset,
            f,
        ),
        reset || blocks_hold(before.blocks@, whole, before.cache_len as int),
        begun.cache_len + l <= len,
        ids.len() == b * l,
        all_ids.len() == b * len,
        forall|a: int, t: int|
            0 <= a < b && 0 <= t < l ==> #[trigger] ids[a * l + t] == all_ids[a * len + (
            begun.cache_len + t)],
    ensures
        is_step(out, out_whole, begun.cache_len as int),
        out.dims@[1] == l,
        out_whole.dims@[1] == len,
        blocks_hold(after.blocks@, whole, after.cache_len as int),
        after.same_weights(&decoder),
{
    let offset = begun.cache_len as int;
    law_step_embeds_as_the_sequence(
        call.states[0],
        whole.states[0],
        ids,
        all_ids,
        b,
        l,
        len,
        tokens,
        positions,
        begun.cache_len,
    );
    let n = decoder.blocks@.len();
    assert forall|i: int| 0 <= i < n implies (#[trigger] begun.blocks@[i]).bare()
        == decoder.blocks@[i].bare() by {
        assert(before.blocks@[i].bare() == decoder.blocks@[i].bare());
    }
    assert(blocks_hold(begun.blocks@, whole, offset)) by {
        if reset {
            assert forall|i: int| 0 <= i < n implies block_holds(
                #[trigger] begun.blocks@[i],
                whole.blocks[i],
                0,
            ) by {
                assert(begun.blocks@[i] == before.blocks@[i].bare());
            }
        }
    }
    lemma_step_blocks(
        call,
        whole,
        begun.blocks@,
        after.blocks@,
        decoder.blocks@,
        left,
        out,
        out_whole,
        decoder.ln,
        xa,
        decoder.mask,
        decoder.n_ctx,
        reset,
        f,
        offset,
        n,
    );
    lemma_step_rowwise(
        out,
        out_whole,
        call.states[n as int],
        whole.states[n as int],
        |s: Seq<E>| (f.norm)(begun.ln, s),
        |s: Seq<E>| (f.norm)(decoder.ln, s),
        call.states[n as int].dims@[2],
        offset,
    );
    lemma_lengths(whole, decoder.blocks@, left, decoder, xa, out_whole, f, n);
    assert forall|i: int| 0 <= i < n implies (#[trigger] after.blocks@[i]).bare()
        == decoder.blocks@[i].bare() by {
        assert(begun.blocks@[i].bare() == decoder.blocks@[i].bare());
    }
}

/// Blocks keep the number of positions.
proof fn lemma_lengths<E: Element>(
    whole: DecoderCall<E>,
    before: Seq<ResidualAttentionBlock<E>>,
    after: Seq<ResidualAttentionBlock<E>>,
    decoder: TextDecoder<E>,
    xa: Tensor<E>,
    out: Tensor<E>,
    f: DecoderFloats<E>,
    n: nat,
)
    requires
        is_decoder_call(
            whole,
            before,
            after,
            out,
            decoder.ln,
            xa,
            decoder.mask,
            true,
            false,
            f,
        ),
        n <= before.len(),
    ensures
        n > 0 ==> whole.states[n as int].dims@ == whole.states[0].dims@,
    decreases n,
{
    if n > 0 {
        let i = n - 1;
        lemma_lengths(whole, before, after, decoder, xa, out, f, (n - 1) as nat);
        assert(is_block_call(
            whole.blocks[i],
            before[i],
            after[i],
            whole.states[i],
            whole.states[i + 1],
            xa,
            decoder.mask,
            true,
            false,
            f,
        ));
    }
}

/// Incremental decoding gives what feeding the whole sequence gives: of a sequence that comes in
/// two steps, the first of which starts anew, the states of the first step and those of the second
/// behind them are the states of the sequence in one call, whatever was cached before.
pub proof fn law_incremental_decoding_is_decoding<E: Element>(
    first: DecoderCall<E>,
    second: DecoderCall<E>,
    whole: DecoderCall<E>,
    decoder: TextDecoder<E>,
    begun: TextDecoder<E>,
    between: TextDecoder<E>,
    after: TextDecoder<E>,
    left: Seq<ResidualAttentionBlock<E>>,
    ids1: Seq<u32>,
    ids2: Seq<u32>,
    ids: Seq<u32>,
    b: usize,
    l1: usize,
    l2: usize,
    len: usize,
    tokens: Tensor<E>,
    positions: Tensor<E>,
    xa: Tensor<E>,
    out1: Tensor<E>,
    out2: Tensor<E>,
    out: Tensor<E>,
    f: DecoderFloats<E>,
)
    requires
        passes_over_hidden(f.softmax, f.hidden),
        is_causal(decoder.mask, decoder.n_ctx),
        l1 + l2 == len,
        ids1.len() == b * l1,
        ids2.len() == b * l2,
        ids.len() == b * len,
        forall|a: int, t: int|
            0 <= a < b && 0 <= t < l1 ==> #[trigger] ids1[a * l1 + t] == ids[a * len + t],
        forall|a: int, t: int|
            0 <= a < b && 0 <= t < l2 ==> #[trigger] ids2[a * l2 + t] == ids[a * len + (l1 + t)],
        is_whole_call(whole, decoder, left, ids, b, len, tokens, positions, xa, out, f),
        is_cached_call(
            first,
            decoder,
            begun,
            between,
            ids1,
            b,
            l1,
            tokens,
            positions,
            xa,
            out1,
            true,
            f,
        ),
        is_cached_call(
            second,
            between,
            between,
            after,
            ids2,
            b,
            l2,
            tokens,
            positions,
            xa,
            out2,
            false,
            f,
        ),
    ensures
        out.dims@ == crate::tensor::appended_dims(out1.dims@, out2.dims@, 1),
        out1.dims@[1] == l1,
        out2.dims@[1] == l2,
        forall|a: int, t: int, c: int|
            0 <= a < out.dims@[0] && 0 <= t < len && 0 <= c < out.dims@[2] ==> #[trigger] out.at3(
                a,
                t,
                c,
            ) == if t < l1 {
                out1.at3(a, t, c)
            } else {
                out2.at3(a, t - l1, c)
            },
{
    assert forall|a: int, t: int| 0 <= a < b && 0 <= t < l1 implies #[trigger] ids1[a * l1 + t]
        == ids[a * len + (begun.cache_len + t)] by {
        assert(ids1[a * l1 + t] == ids[a * len + t]);
    }
    law_step_decodes_as_the_sequence(
        first,
        decoder,
        begun,
        between,
        ids1,
        l1,
        out1,
        true,
        whole,
        decoder,
        left,
        ids,
        len,
        out,
        b,
        tokens,
        positions,
        xa,
        f,
    );
    law_step_decodes_as_the_sequence(
        second,
        between,
        between,
        after,
        ids2,
        l2,
        out2,
        false,
        whole,
        decoder,
        left,
        ids,
        len,
        out,
        b,
        tokens,
        positions,
        xa,
        f,
    );
    assert(out.dims@ =~= crate::tensor::appended_dims(out1.dims@, out2.dims@, 1));
    assert forall|a: int, t: int, c: int|
        0 <= a < out.dims@[0] && 0 <= t < len && 0 <= c < out.dims@[2] implies #[trigger] out.at3(
        a,
        t,
        c,
    ) == if t < l1 {
        out1.at3(a, t, c)
    } else {
        out2.at3(a, t - l1, c)
    } by {
        if t < l1 {
            assert(out1.at3(a, t, c) == out.at3(a, 0 + t, c));
        } else {
            assert(out2.at3(a, t - l1, c) == out.at3(a, l1 + (t - l1), c));
        }
    }
}

} // verus!
