//! What a call on part of a batch gives: the same as that part of a call on all of it.
//!
//! Entries of a batch never mix, and what is done position by position is done alike at every
//! position, whether the call is on one or on many.

use crate::models::embedding::{is_embedded, is_positioned};
use crate::models::heads::{flat4, is_merged, is_split};
use crate::models::products::{dot, is_masked, is_scores, is_weighted};
use crate::models::qwen3_5::attention::{is_gated, is_half};
use crate::models::qwen3_5::delta::GatedDeltaNetWeights;
use crate::models::qwen3_5::rotary::RotaryEmbedding;
use crate::tensor::{Element, Signed, Tensor};
use vstd::prelude::*;

verus! {

/// `p` holds the positions from `s` on of entry `a` of `x`, both `[batch, length, width]`.
pub open spec fn part3<E>(p: Tensor<E>, x: Tensor<E>, a: int, s: int) -> bool {
    &&& x.dims@.len() == 3 && p.dims@.len() == 3
    &&& 0 <= a < x.dims@[0] && p.dims@[0] == 1
    &&& 0 <= s && s + p.dims@[1] <= x.dims@[1]
    &&& p.dims@[2] == x.dims@[2]
    &&& forall|t: int, c: int|
        0 <= t < p.dims@[1] && 0 <= c < p.dims@[2] ==> #[trigger] p.at3(0, t, c) == x.at3(
            a,
            s + t,
            c,
        )
}

/// `p` holds the positions from `s` on of entry `a` of `x`, both `[batch, heads, length, width]`.
pub open spec fn part4<E>(p: Tensor<E>, x: Tensor<E>, a: int, s: int) -> bool {
    &&& x.dims@.len() == 4 && p.dims@.len() == 4
    &&& 0 <= a < x.dims@[0] && p.dims@[0] == 1
    &&& p.dims@[1] == x.dims@[1]
    &&& 0 <= s && s + p.dims@[2] <= x.dims@[2]
    &&& p.dims@[3] == x.dims@[3]
    &&& forall|h: int, t: int, i: int|
        0 <= h < p.dims@[1] && 0 <= t < p.dims@[2] && 0 <= i < p.dims@[3] ==> #[trigger] p.at4(
            0,
            h,
            t,
            i,
        ) == x.at4(a, h, s + t, i)
}

/// Cutting a part into heads gives that part of all heads, and the heads of a position side by side
/// are that position.
pub proof fn law_split_of_a_part<E>(
    r: Tensor<E>,
    x: Tensor<E>,
    r1: Tensor<E>,
    x1: Tensor<E>,
    n: usize,
    d: usize,
    a: int,
    s: int,
)
    requires
        is_split(r, x, n, d),
        is_split(r1, x1, n, d),
        part3(x1, x, a, s),
        n * d == x.dims@[2],
    ensures
        part4(r1, r, a, s),
        forall|h: int, t: int, i: int|
            0 <= h < n && 0 <= t < x.dims@[1] && 0 <= i < d ==> #[trigger] r.at4(a, h, t, i)
                == x.data@[(a * x.dims@[1] + t) * x.dims@[2] + h * d + i],
{
    assert forall|h: int, t: int, i: int|
        0 <= h < n && 0 <= t < x1.dims@[1] && 0 <= i < d implies #[trigger] r1.at4(0, h, t, i)
        == r.at4(a, h, s + t, i) by {
        crate::arith::lemma_index_bound(h, i, n as int, d as int);
        assert(x1.at3(0, t, h * d + i) == x.at3(a, s + t, h * d + i));
    }
}

/// Putting the heads of a part side by side gives that part of all positions.
pub proof fn law_merge_of_a_part<E>(
    r: Tensor<E>,
    x: Tensor<E>,
    r1: Tensor<E>,
    x1: Tensor<E>,
    a: int,
    s: int,
)
    requires
        is_merged(r, x),
        is_merged(r1, x1),
        part4(x1, x, a, s),
        x.dims@[1] * x.dims@[3] <= usize::MAX,
    ensures
        part3(r1, r, a, s),
{
    let (n, d) = (x.dims@[1] as int, x.dims@[3] as int);
    assert(0 <= n * d) by (nonlinear_arith)
        requires
            0 <= n,
            0 <= d,
    ;
    assert forall|t: int, c: int|
        0 <= t < r1.dims@[1] && 0 <= c < r1.dims@[2] implies #[trigger] r1.at3(0, t, c) == r.at3(
        a,
        s + t,
        c,
    ) by {
        assert(d > 0) by (nonlinear_arith)
            requires
                0 <= c < n * d,
                0 <= d,
                0 <= n,
        ;
        crate::arith::lemma_index_join(c, n, d);
        let (h, i) = (c / d, c % d);
        assert(x1.at4(0, h, t, i) == x.at4(a, h, s + t, i));
    }
}

/// The queries of a part are that part of all queries, and so are the gates. At every position, each
/// head's query and its gate behind it are that head's stretch of the projection.
pub proof fn law_queries_of_a_part<E>(
    q: (Tensor<E>, Tensor<E>),
    x: Tensor<E>,
    q1: (Tensor<E>, Tensor<E>),
    x1: Tensor<E>,
    n: usize,
    d: usize,
    a: int,
    s: int,
)
    requires
        is_half(q.0, x, n, d, false),
        is_half(q.1, x, n, d, true),
        is_half(q1.0, x1, n, d, false),
        is_half(q1.1, x1, n, d, true),
        part3(x1, x, a, s),
        n * (d * 2) == x.dims@[2],
    ensures
        part4(q1.0, q.0, a, s),
        part4(q1.1, q.1, a, s),
        forall|h: int, t: int, i: int|
            0 <= h < n && 0 <= t < x.dims@[1] && 0 <= i < 2 * d ==> #[trigger] x.at3(
                a,
                t,
                h * (2 * d) + i,
            ) == (if i < d {
                q.0.at4(a, h, t, i)
            } else {
                q.1.at4(a, h, t, i - d)
            }),
{
    let w = d * 2;
    assert forall|h: int, t: int, i: int|
        0 <= h < n && 0 <= t < x1.dims@[1] && 0 <= i < d implies #[trigger] q1.0.at4(0, h, t, i)
        == q.0.at4(a, h, s + t, i) && q1.1.at4(0, h, t, i) == q.1.at4(a, h, s + t, i) by {
        crate::arith::lemma_index_bound(h, i, n as int, w);
        crate::arith::lemma_index_bound(h, d + i, n as int, w);
        assert(x1.at3(0, t, h * w + 0 + i) == x.at3(a, s + t, h * w + 0 + i));
        assert(x1.at3(0, t, h * w + d + i) == x.at3(a, s + t, h * w + d + i));
        assert(q.0.at4(a, h, s + t, i) == x.at3(a, s + t, h * w + 0 + i));
        assert(q.1.at4(a, h, s + t, i) == x.at3(a, s + t, h * w + d + i));
        assert(q1.1.at4(0, h, t, i) == x1.at3(0, t, h * w + d + i));
    }
    assert forall|h: int, t: int, i: int| 0 <= h < q1.1.dims@[1] && 0 <= t < q1.1.dims@[2] && 0 <= i
        < q1.1.dims@[3] implies #[trigger] q1.1.at4(0, h, t, i) == q.1.at4(a, h, s + t, i) by {
        assert(q1.0.at4(0, h, t, i) == q.0.at4(a, h, s + t, i));
    }
    assert forall|h: int, t: int, i: int|
        0 <= h < n && 0 <= t < x.dims@[1] && 0 <= i < 2 * d implies #[trigger] x.at3(
        a,
        t,
        h * (2 * d) + i,
    ) == (if i < d {
        q.0.at4(a, h, t, i)
    } else {
        q.1.at4(a, h, t, i - d)
    }) by {
        if i < d {
            assert(q.0.at4(a, h, t, i) == x.at3(a, t, h * w + 0 + i));
        } else {
            assert(q.1.at4(a, h, t, i - d) == x.at3(a, t, h * w + d + (i - d)));
        }
    }
}

/// Gating is merging the outputs and the gates each for itself, and multiplying element by element.
pub proof fn law_gating_is_merging<E: Element>(
    r: Tensor<E>,
    ctx: Tensor<E>,
    gate: Tensor<E>,
    merged: Tensor<E>,
    gates: Tensor<E>,
)
    requires
        is_gated(r, ctx, gate),
        is_merged(merged, ctx),
        is_merged(gates, gate),
        ctx.dims@.len() == 4,
        gate.dims@ == ctx.dims@,
        ctx.dims@[1] * ctx.dims@[3] <= usize::MAX,
    ensures
        r.dims@ == merged.dims@,
        forall|a: int, t: int, c: int|
            0 <= a < r.dims@[0] && 0 <= t < r.dims@[1] && 0 <= c < r.dims@[2] ==> #[trigger] r.at3(
                a,
                t,
                c,
            ) == merged.at3(a, t, c).spec_times(gates.at3(a, t, c)),
{
    let (n, d) = (ctx.dims@[1] as int, ctx.dims@[3] as int);
    assert(0 <= n * d) by (nonlinear_arith)
        requires
            0 <= n,
            0 <= d,
    ;
    assert forall|a: int, t: int, c: int|
        0 <= a < r.dims@[0] && 0 <= t < r.dims@[1] && 0 <= c < r.dims@[2] implies #[trigger] r.at3(
        a,
        t,
        c,
    ) == merged.at3(a, t, c).spec_times(gates.at3(a, t, c)) by {
        assert(d > 0) by (nonlinear_arith)
            requires
                0 <= c < n * d,
                0 <= d,
                0 <= n,
        ;
        crate::arith::lemma_index_join(c, n, d);
        let (h, i) = (c / d, c % d);
        assert(ctx.at4(a, h, t, i) == merged.at3(a, t, h * d + i));
        assert(gate.at4(a, h, t, i) == gates.at3(a, t, h * d + i));
    }
}

/// Channel `c` of a row of `width` channels.
pub open spec fn channel<E>(t: Tensor<E>, row: int, width: int, c: int) -> E {
    t.data@[row * width + c]
}

/// The heads of a delta network, side by side, are the channels in their order: queries, keys and
/// values.
pub proof fn law_heads_are_the_channels<E: Element>(
    net: GatedDeltaNetWeights<E>,
    x: Tensor<E>,
    t: (Tensor<E>, Tensor<E>, Tensor<E>),
    a: int,
    p: int,
)
    requires
        net.sized(),
        net.are_heads(x, t),
        x.dims@.len() == 3,
        0 <= a < x.dims@[0],
        0 <= p < x.dims@[2],
        net.num_k_heads * net.repeats() <= usize::MAX,
    ensures
        forall|c: int|
            0 <= c < net.value_dim ==> #[trigger] channel(
                t.2,
                a * x.dims@[2] + p,
                net.value_dim as int,
                c,
            ) == x.at3(a, 2 * net.key_dim + c, p),
        net.repeats() >= 1 ==> forall|c: int|
            0 <= c < net.key_dim ==> #[trigger] channel(
                t.0,
                a * x.dims@[2] + p,
                net.num_k_heads * net.repeats() * net.head_k_dim,
                c,
            ) == x.at3(a, c, p),
        net.repeats() >= 1 ==> forall|c: int|
            0 <= c < net.key_dim ==> #[trigger] channel(
                t.1,
                a * x.dims@[2] + p,
                net.num_k_heads * net.repeats() * net.head_k_dim,
                c,
            ) == x.at3(a, net.key_dim + c, p),
{
    let (key, value) = (net.head_k_dim as int, net.head_v_dim as int);
    let (nk, nv) = (net.num_k_heads as int, net.num_v_heads as int);
    let row = a * x.dims@[2] + p;
    let n = nk * net.repeats();
    assert(net.repeats() >= 0 && n >= 0) by (nonlinear_arith)
        requires
            nv >= 0,
            nk > 0,
            net.repeats() == nv / nk,
            n == nk * net.repeats(),
    ;
    assert(net.repeats() >= 1 ==> n >= nk) by (nonlinear_arith)
        requires
            n == nk * net.repeats(),
            nk > 0,
    ;
    assert(value * nv == nv * value && key * nk == nk * key) by (nonlinear_arith);
    assert forall|c: int| 0 <= c < net.value_dim implies #[trigger] channel(
        t.2,
        row,
        net.value_dim as int,
        c,
    ) == x.at3(a, 2 * net.key_dim + c, p) by {
        crate::arith::lemma_index_join(c, nv, value);
        let (h, i) = (c / value, c % value);
        vstd::arithmetic::div_mod::lemma_small_mod(h as nat, nv as nat);
        assert(t.2.at4(a, p, h, i) == x.at3(a, net.key_dim * 2 + h * value + i, p));
        assert((row * nv + h) * value + i == row * (nv * value) + (h * value + i))
            by (nonlinear_arith);
    }
    if net.repeats() >= 1 {
        assert forall|c: int| 0 <= c < net.key_dim implies #[trigger] channel(t.0, row, n * key, c) == x.at3(a, c, p) by {
            crate::arith::lemma_index_join(c, nk, key);
            let (h, i) = (c / key, c % key);
            vstd::arithmetic::div_mod::lemma_small_mod(h as nat, nk as nat);
            assert(t.0.at4(a, p, h, i) == x.at3(a, 0 + h * key + i, p));
            assert((row * n + h) * key + i == row * (n * key) + (h * key + i)) by (nonlinear_arith);
        }
        assert forall|c: int| 0 <= c < net.key_dim implies #[trigger] channel(t.1, row, n * key, c) == x.at3(a, net.key_dim + c, p) by {
            crate::arith::lemma_index_join(c, nk, key);
            let (h, i) = (c / key, c % key);
            vstd::arithmetic::div_mod::lemma_small_mod(h as nat, nk as nat);
            assert(t.1.at4(a, p, h, i) == x.at3(a, net.key_dim + h * key + i, p));
            assert((row * n + h) * key + i == row * (n * key) + (h * key + i)) by (nonlinear_arith);
        }
    }
}

/// Where there are more heads of values than of queries and keys, those start over from the first.
pub proof fn law_heads_start_over<E: Element>(
    net: GatedDeltaNetWeights<E>,
    x: Tensor<E>,
    t: (Tensor<E>, Tensor<E>, Tensor<E>),
    a: int,
    p: int,
    h: int,
    i: int,
)
    requires
        net.sized(),
        net.are_heads(x, t),
        0 <= a < x.dims@[0],
        0 <= p < x.dims@[2],
        0 <= h,
        h + net.num_k_heads < net.num_k_heads * net.repeats(),
        0 <= i < net.head_k_dim,
    ensures
        t.0.at4(a, p, h, i) == t.0.at4(a, p, h + net.num_k_heads, i),
        t.1.at4(a, p, h, i) == t.1.at4(a, p, h + net.num_k_heads, i),
{
    let nk = net.num_k_heads as int;
    vstd::arithmetic::div_mod::lemma_mod_add_multiples_vanish(h, nk);
    assert((h + nk) % nk == h % nk);
}

/// Sums of the same products are the same.
proof fn lemma_dot_alike<E: Element>(
    x: Seq<E>,
    i: int,
    y: Seq<E>,
    j: int,
    step: int,
    x1: Seq<E>,
    i1: int,
    y1: Seq<E>,
    j1: int,
    step1: int,
    n: nat,
)
    requires
        forall|c: int| 0 <= c < n ==> #[trigger] x1[i1 + c] == x[i + c],
        forall|c: int| 0 <= c < n ==> y1[j1 + #[trigger] (c * step1)] == y[j + c * step],
    ensures
        dot(x1, i1, y1, j1, step1, n) == dot(x, i, y, j, step, n),
    decreases n,
{
    if n > 0 {
        lemma_dot_alike(x, i, y, j, step, x1, i1, y1, j1, step1, (n - 1) as nat);
        let c = n - 1;
        assert(x1[i1 + c] == x[i + c]);
        assert(y1[j1 + c * step1] == y[j + c * step]);
    }
}

/// The scores of some queries of an entry with that entry's keys are those queries' scores in the
/// whole batch.
pub proof fn law_scores_of_a_part<E: Element>(
    r: Tensor<E>,
    q: Tensor<E>,
    k: Tensor<E>,
    r1: Tensor<E>,
    q1: Tensor<E>,
    k1: Tensor<E>,
    a: int,
    s: int,
)
    requires
        is_scores(r, q, k),
        is_scores(r1, q1, k1),
        part4(q1, q, a, s),
        part4(k1, k, a, 0),
        k1.dims@[2] == k.dims@[2],
        k.dims@[1] == q.dims@[1],
        k.dims@[3] == q.dims@[3],
    ensures
        part4(r1, r, a, s),
{
    assert forall|h: int, t: int, j: int|
        0 <= h < r1.dims@[1] && 0 <= t < r1.dims@[2] && 0 <= j < r1.dims@[3] implies #[trigger] r1.at4(
        0,
        h,
        t,
        j,
    ) == r.at4(a, h, s + t, j) by {
        let n = q.dims@[3] as nat;
        let (i0, i1) = (flat4(q.dims@, a, h, s + t, 0), flat4(q1.dims@, 0, h, t, 0));
        let (j0, j1) = (flat4(k.dims@, a, h, j, 0), flat4(k1.dims@, 0, h, j, 0));
        assert forall|c: int| 0 <= c < n implies #[trigger] q1.data@[i1 + c] == q.data@[i0 + c] by {
            assert(q1.at4(0, h, t, c) == q.at4(a, h, s + t, c));
        }
        assert forall|c: int| 0 <= c < n implies k1.data@[j1 + #[trigger] (c * 1)] == k.data@[j0 + c
            * 1] by {
            assert(k1.at4(0, h, j, c) == k.at4(a, h, 0 + j, c));
        }
        lemma_dot_alike(q.data@, i0, k.data@, j0, 1, q1.data@, i1, k1.data@, j1, 1, n);
        assert(r.at4(a, h, s + t, j) == dot(q.data@, i0, k.data@, j0, 1, n));
    }
}

/// What some rows of weights of an entry make of that entry's values is what those rows make of them
/// in the whole batch.
pub proof fn law_weighing_of_a_part<E: Element>(
    r: Tensor<E>,
    w: Tensor<E>,
    v: Tensor<E>,
    r1: Tensor<E>,
    w1: Tensor<E>,
    v1: Tensor<E>,
    a: int,
    s: int,
)
    requires
        is_weighted(r, w, v),
        is_weighted(r1, w1, v1),
        part4(w1, w, a, s),
        part4(v1, v, a, 0),
        v1.dims@[2] == v.dims@[2],
        v.dims@[1] == w.dims@[1],
        w.dims@[3] == v.dims@[2],
    ensures
        part4(r1, r, a, s),
{
    assert forall|h: int, t: int, c: int|
        0 <= h < r1.dims@[1] && 0 <= t < r1.dims@[2] && 0 <= c < r1.dims@[3] implies #[trigger] r1.at4(
        0,
        h,
        t,
        c,
    ) == r.at4(a, h, s + t, c) by {
        let n = w.dims@[3] as nat;
        let d = v.dims@[3] as int;
        let (i0, i1) = (flat4(w.dims@, a, h, s + t, 0), flat4(w1.dims@, 0, h, t, 0));
        let (j0, j1) = (flat4(v.dims@, a, h, 0, c), flat4(v1.dims@, 0, h, 0, c));
        assert forall|m: int| 0 <= m < n implies #[trigger] w1.data@[i1 + m] == w.data@[i0 + m] by {
            assert(w1.at4(0, h, t, m) == w.at4(a, h, s + t, m));
        }
        assert forall|m: int| 0 <= m < n implies v1.data@[j1 + #[trigger] (m * d)] == v.data@[j0 + m
            * d] by {
            assert(v1.at4(0, h, m, c) == v.at4(a, h, 0 + m, c));
            let (b0, b1) = (
                (a * v.dims@[1] + h) * v.dims@[2],
                (0 * v1.dims@[1] + h) * v1.dims@[2],
            );
            assert((b0 + m) * d + c == (b0 + 0) * d + c + m * d) by (nonlinear_arith);
            assert((b1 + m) * d + c == (b1 + 0) * d + c + m * d) by (nonlinear_arith);
        }
        lemma_dot_alike(w.data@, i0, v.data@, j0, d, w1.data@, i1, v1.data@, j1, d, n);
        assert(r.at4(a, h, s + t, c) == dot(w.data@, i0, v.data@, j0, d, n));
    }
}

/// A mask hides the same positions in every entry of a batch and in every head.
pub proof fn law_mask_is_for_all_entries<E: Element>(
    r: Tensor<E>,
    x: Tensor<E>,
    mask: Tensor<bool>,
    hidden: E,
    a: int,
    g: int,
    i: int,
    j: int,
)
    requires
        is_masked(r, x, mask, hidden),
        x.dims@.len() == 4,
        0 <= a < x.dims@[0],
        0 <= g < x.dims@[1],
        0 <= i < x.dims@[2],
        0 <= j < x.dims@[3],
    ensures
        mask.data@[i * x.dims@[3] + j] ==> r.at4(a, g, i, j) == x.at4(a, g, i, j).spec_plus(
            E::spec_zero(),
        ),
        !mask.data@[i * x.dims@[3] + j] ==> r.at4(a, g, i, j) == x.at4(a, g, i, j).spec_plus(
            hidden,
        ),
{
}

/// Turning the heads of a part, told where the part starts, gives that part of all turned heads.
pub proof fn law_rotation_of_a_part<E: Signed>(
    rotary: RotaryEmbedding<E>,
    r: Tensor<E>,
    x: Tensor<E>,
    offset: usize,
    r1: Tensor<E>,
    x1: Tensor<E>,
    offset1: usize,
    a: int,
    s: int,
)
    requires
        rotary.is_rotated(r, x, offset),
        rotary.is_rotated(r1, x1, offset1),
        offset1 == offset + s,
        part4(x1, x, a, s),
        2 * (rotary.rotary_dim as int / 2) <= x.dims@[3],
    ensures
        part4(r1, r, a, s),
{
    let half = rotary.rotary_dim as int / 2;
    assert forall|h: int, t: int, i: int|
        0 <= h < r1.dims@[1] && 0 <= t < r1.dims@[2] && 0 <= i < r1.dims@[3] implies #[trigger] r1.at4(
        0,
        h,
        t,
        i,
    ) == r.at4(a, h, s + t, i) by {
        let j = if i < half {
            i + half
        } else {
            i - half
        };
        assert(x1.at4(0, h, t, i) == x.at4(a, h, s + t, i));
        if i < 2 * half {
            assert(x1.at4(0, h, t, j) == x.at4(a, h, s + t, j));
        }
        assert(offset1 + t == offset + (s + t));
    }
}

/// The rows of one sequence of a batch are looked up as they are in a batch of that sequence alone.
pub proof fn law_embedding_of_a_part<E>(
    r: Tensor<E>,
    ids: Seq<u32>,
    b: usize,
    l: usize,
    table: Tensor<E>,
    r1: Tensor<E>,
    ids1: Seq<u32>,
    l1: usize,
    a: int,
    s: int,
)
    requires
        is_embedded(r, ids, b, l, table),
        is_embedded(r1, ids1, 1, l1, table),
        ids.len() == b * l,
        0 <= a < b,
        0 <= s,
        s + l1 <= l,
        ids1 == ids.subrange(a * l + s, a * l + s + l1),
    ensures
        part3(r1, r, a, s),
{
    assert(0 <= a * l && a * l + l <= b * l) by (nonlinear_arith)
        requires
            0 <= a < b,
            0 <= l,
    ;
    assert forall|t: int, c: int|
        0 <= t < r1.dims@[1] && 0 <= c < r1.dims@[2] implies #[trigger] r1.at3(0, t, c) == r.at3(
        a,
        s + t,
        c,
    ) by {
        assert(0 * l1 + t == t);
        assert(ids1[t] == ids[a * l + s + t]);
        assert(a * l + (s + t) == a * l + s + t);
    }
}

/// Positions are told to a part as they are to the whole: what is added depends on where a position
/// is, and is the same for every entry.
pub proof fn law_positioning_of_a_part<E: Element>(
    r: Tensor<E>,
    x: Tensor<E>,
    r1: Tensor<E>,
    x1: Tensor<E>,
    table: Tensor<E>,
    start: int,
    a: int,
    s: int,
)
    requires
        is_positioned(r, x, table, start),
        is_positioned(r1, x1, table, start + s),
        part3(x1, x, a, s),
    ensures
        part3(r1, r, a, s),
{
    assert forall|t: int, c: int|
        0 <= t < r1.dims@[1] && 0 <= c < r1.dims@[2] implies #[trigger] r1.at3(0, t, c) == r.at3(
        a,
        s + t,
        c,
    ) by {
        assert(x1.at3(0, t, c) == x.at3(a, s + t, c));
        assert(r.at3(a, s + t, c) == x.at3(a, s + t, c).spec_plus(table.at2(start + (s + t), c)));
        assert(start + s + t == start + (s + t));
    }
}

/// The state that a call starts from fits its heads: where none is carried along, it is all zeros, and
/// of the extents that the recurrence over those queries and values takes. A state that is carried
/// along is handed out as it is.
pub proof fn law_initial_state_fits_the_heads<E: Element>(
    net: GatedDeltaNetWeights<E>,
    x: Tensor<E>,
    t: (Tensor<E>, Tensor<E>, Tensor<E>),
    s: Tensor<E>,
)
    requires
        net.sized(),
        net.are_heads(x, t),
        net.is_initial_state(s, x.dims@[0], net.num_v_heads, net.head_k_dim, net.head_v_dim),
    ensures
        net.recurrent_state is None ==> s.dims@ == seq![
            t.0.dims@[0],
            t.2.dims@[2],
            t.0.dims@[3],
            t.2.dims@[3],
        ] && forall|p: int| 0 <= p < s.data@.len() ==> #[trigger] s.data@[p] == E::spec_zero(),
        net.recurrent_state matches Some(carried) ==> s.dims@ == carried.tensor.dims@ && s.data@
            == carried.tensor.data@,
{
}

} // verus!
