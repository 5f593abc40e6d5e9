//! The outputs of the experts, added up for each token.

use crate::arith::span;
use crate::models::qwen3_5::routing::{
    ascending, ascending_order, indices, law_same_order_of_terms, loop_terms, slots_of, token_slots,
};
use crate::tensor::{Backend, Element, Tensor};
use vstd::prelude::*;

verus! {

/// Column `c` of the outputs of an expert.
pub open spec fn column<E>(y: Tensor<E>, c: int) -> spec_fn(int) -> E {
    |i: int| y.at2(i, c)
}

/// `acc`, and what the first `n` rows of an expert give to token `t` added to it, one by one.
pub open spec fn expert_sum<E: Element>(
    acc: E,
    rows: Seq<u32>,
    coefs: Seq<E>,
    y: spec_fn(int) -> E,
    t: int,
    n: nat,
) -> E
    decreases n,
{
    if n == 0 {
        acc
    } else {
        let sum = expert_sum(acc, rows, coefs, y, t, (n - 1) as nat);
        if rows[n - 1] == t {
            sum.spec_plus(y(n - 1).spec_times(coefs[n - 1]))
        } else {
            sum
        }
    }
}

/// What the experts before `e` give to token `t`, added up from zero, expert by expert.
pub open spec fn loop_sum<E: Element>(
    rows: Seq<Vec<u32>>,
    coefs: Seq<Vec<E>>,
    ys: Seq<Tensor<E>>,
    t: int,
    c: int,
    e: nat,
) -> E
    decreases e,
{
    if e == 0 {
        E::spec_zero()
    } else {
        expert_sum(
            loop_sum(rows, coefs, ys, t, c, (e - 1) as nat),
            rows[e - 1]@,
            coefs[e - 1]@,
            column(ys[e - 1], c),
            t,
            rows[e - 1]@.len(),
        )
    }
}

/// The element of token `t` and column `c`.
pub open spec fn cell<E>(out: Seq<E>, hidden: int, t: int, c: int) -> E {
    out[t * hidden + c]
}

/// The tokens that an expert sees: rows of `[tokens, hidden]`, in the order given.
pub fn select_rows<E: Copy>(xs: &Tensor<E>, rows: &[u32]) -> (r: Tensor<E>)
    requires
        xs.wf(),
        xs.dims@.len() == 2,
        forall|i: int| 0 <= i < rows@.len() ==> #[trigger] rows@[i] < xs.dims@[0],
        rows@.len() <= usize::MAX,
        span(seq![rows@.len() as usize, xs.dims@[1]]) <= usize::MAX,
    ensures
        r.wf(),
        r.dims@ == seq![rows@.len() as usize, xs.dims@[1]],
        forall|i: int, c: int|
            0 <= i < rows@.len() && 0 <= c < xs.dims@[1] ==> #[trigger] r.at2(i, c) == xs.at2(
                rows@[i] as int,
                c,
            ),
        r.backend == xs.backend,
{
    let n: usize = rows.len();
    let hidden: usize = xs.dims[1];
    let ghost tokens = xs.dims@[0];
    let dims: Vec<usize> = vec![n, hidden];
    assert(dims@ =~= seq![n, hidden]);
    proof {
        crate::arith::lemma_span_two(n, hidden);
        assert(xs.dims@ =~= seq![tokens, hidden]);
        crate::arith::lemma_span_two(tokens, hidden);
    }
    let total: usize = n * hidden;
    let mut data: Vec<E> = Vec::with_capacity(total);
    let mut p: usize = 0;
    while p < total
        invariant
            p <= total,
            total == n * hidden,
            n == rows@.len(),
            xs.data@.len() == tokens * hidden,
            xs.data@.len() <= usize::MAX,
            forall|i: int| 0 <= i < rows@.len() ==> #[trigger] rows@[i] < tokens,
            data@.len() == p,
            forall|q: int|
                0 <= q < p ==> #[trigger] data@[q] == xs.data@[rows@[q / hidden as int] * hidden + q
                    % hidden as int],
        decreases total - p,
    {
        proof {
            assert(hidden > 0) by (nonlinear_arith)
                requires
                    p < n * hidden,
            ;
            crate::arith::lemma_index_join(p as int, n as int, hidden as int);
            let row = rows@[p as int / hidden as int];
            crate::arith::lemma_index_bound(
                row as int,
                p as int % hidden as int,
                tokens as int,
                hidden as int,
            );
            assert(row * hidden >= 0) by (nonlinear_arith);
        }
        let row: usize = rows[p / hidden] as usize;
        data.push(xs.data[row * hidden + p % hidden]);
        p = p + 1;
    }
    let r: Tensor<E> = Tensor { dims, data, is_variable: false, op: None, backend: xs.backend };
    proof {
        assert forall|i: int, c: int|
            0 <= i < rows@.len() && 0 <= c < hidden implies #[trigger] r.at2(i, c) == xs.at2(
            rows@[i] as int,
            c,
        ) by {
            crate::arith::lemma_index_bound(i, c, n as int, hidden as int);
            crate::arith::lemma_index_split(i, c, hidden as int);
            assert(r.data@[i * hidden + c] == xs.data@[rows@[i] * hidden + c]);
        }
    }
    r
}

/// Adds row `i` of an expert's outputs, times a weight, to a token.
fn add_row<E: Element>(out: &mut Vec<E>, n_tokens: usize, token: usize, y: &Tensor<E>, i: usize, coef: E)
    requires
        y.wf(),
        y.dims@.len() == 2,
        i < y.dims@[0],
        token < n_tokens,
        old(out)@.len() == n_tokens * y.dims@[1],
        old(out)@.len() <= usize::MAX,
    ensures
        final(out)@.len() == old(out)@.len(),
        forall|t: int, c: int|
            0 <= t < n_tokens && 0 <= c < y.dims@[1] ==> #[trigger] cell(
                final(out)@,
                y.dims@[1] as int,
                t,
                c,
            ) == if t == token {
                cell(old(out)@, y.dims@[1] as int, t, c).spec_plus(
                    y.at2(i as int, c).spec_times(coef),
                )
            } else {
                cell(old(out)@, y.dims@[1] as int, t, c)
            },
{
    let hidden: usize = y.dims[1];
    let ghost start = out@;
    proof {
        assert(y.dims@ =~= seq![y.dims@[0], hidden]);
        crate::arith::lemma_span_two(y.dims@[0], hidden);
    }
    let mut c: usize = 0;
    while c < hidden
        invariant
            c <= hidden,
            hidden == y.dims@[1],
            y.dims@.len() == 2,
            y.data@.len() == y.dims@[0] * hidden,
            y.data@.len() <= usize::MAX,
            i < y.dims@[0],
            token < n_tokens,
            start == old(out)@,
            out@.len() == start.len(),
            out@.len() == n_tokens * hidden,
            out@.len() <= usize::MAX,
            forall|p: int|
                0 <= p < out@.len() ==> #[trigger] out@[p] == if token * hidden <= p < token
                    * hidden + c {
                    start[p].spec_plus(y.at2(i as int, p - token * hidden).spec_times(coef))
                } else {
                    start[p]
                },
        decreases hidden - c,
    {
        proof {
            crate::arith::lemma_index_bound(
                token as int,
                c as int,
                n_tokens as int,
                hidden as int,
            );
            crate::arith::lemma_index_bound(i as int, c as int, y.dims@[0] as int, hidden as int);
            assert(token * hidden >= 0 && i * hidden >= 0) by (nonlinear_arith);
        }
        let p: usize = token * hidden + c;
        let term: E = y.data[i * hidden + c].times(coef);
        let sum: E = out[p].plus(term);
        out.set(p, sum);
        c = c + 1;
    }
    proof {
        assert forall|t: int, c: int|
            0 <= t < n_tokens && 0 <= c < hidden implies #[trigger] cell(
            out@,
            hidden as int,
            t,
            c,
        ) == if t == token {
            cell(start, hidden as int, t, c).spec_plus(y.at2(i as int, c).spec_times(coef))
        } else {
            cell(start, hidden as int, t, c)
        } by {
            crate::arith::lemma_index_bound(t, c, n_tokens as int, hidden as int);
            crate::arith::lemma_index_split(t, c, hidden as int);
            let p = t * hidden + c;
            if t != token && token * hidden <= p < token * hidden + hidden {
                let d = p - token * hidden;
                crate::arith::lemma_index_split(token as int, d, hidden as int);
                assert(false);
            }
        }
    }
}

/// The outputs of the experts belong to the grouping: a row and a weight for each token that an
/// expert sees.
pub open spec fn grouped<E>(
    rows: Seq<Vec<u32>>,
    coefs: Seq<Vec<E>>,
    ys: Seq<Tensor<E>>,
    n_tokens: usize,
    hidden: usize,
) -> bool {
    &&& coefs.len() == rows.len()
    &&& ys.len() == rows.len()
    &&& forall|e: int|
        0 <= e < rows.len() ==> {
            let y = #[trigger] ys[e];
            &&& y.wf()
            &&& y.dims@ == seq![rows[e]@.len() as usize, hidden]
            &&& rows[e]@.len() <= usize::MAX
            &&& coefs[e]@.len() == rows[e]@.len()
        }
    &&& forall|e: int, i: int|
        0 <= e < rows.len() && 0 <= i < rows[e]@.len() ==> #[trigger] rows[e]@[i] < n_tokens
}

/// Adds up, for each token, the outputs of the experts that see it, times their weights, walking
/// the experts upwards.
pub fn combine_loop<E: Element>(
    rows: &Vec<Vec<u32>>,
    coefs: &Vec<Vec<E>>,
    ys: &Vec<Tensor<E>>,
    n_tokens: usize,
    hidden: usize,
    backend: Backend,
) -> (r: Tensor<E>)
    requires
        grouped(rows@, coefs@, ys@, n_tokens, hidden),
        span(seq![n_tokens, hidden]) <= usize::MAX,
    ensures
        r.wf(),
        r.dims@ == seq![n_tokens, hidden],
        forall|t: int, c: int|
            0 <= t < n_tokens && 0 <= c < hidden ==> #[trigger] r.at2(t, c) == loop_sum(
                rows@,
                coefs@,
                ys@,
                t,
                c,
                rows@.len(),
            ),
        r.backend == backend,
{
    let dims: Vec<usize> = vec![n_tokens, hidden];
    assert(dims@ =~= seq![n_tokens, hidden]);
    let mut out: Tensor<E> = Tensor::zeros(dims.as_slice(), backend);
    proof {
        crate::arith::lemma_span_two(n_tokens, hidden);
        assert forall|t: int, c: int| 0 <= t < n_tokens && 0 <= c < hidden implies #[trigger] cell(
            out.data@,
            hidden as int,
            t,
            c,
        ) == E::spec_zero() by {
            crate::arith::lemma_index_bound(t, c, n_tokens as int, hidden as int);
        }
    }
    let n_experts: usize = rows.len();
    let mut e: usize = 0;
    while e < n_experts
        invariant
            e <= n_experts,
            n_experts == rows@.len(),
            grouped(rows@, coefs@, ys@, n_tokens, hidden),
            out.data@.len() == n_tokens * hidden,
            out.data@.len() <= usize::MAX,
            out.dims@ == seq![n_tokens, hidden],
            out.backend == backend,
            forall|t: int, c: int|
                0 <= t < n_tokens && 0 <= c < hidden ==> #[trigger] cell(
                    out.data@,
                    hidden as int,
                    t,
                    c,
                ) == loop_sum(rows@, coefs@, ys@, t, c, e as nat),
        decreases n_experts - e,
    {
        let ghost before = out.data@;
        let y: &Tensor<E> = &ys[e];
        assert(ys@[e as int] == *y);
        let n: usize = rows[e].len();
        let mut i: usize = 0;
        while i < n
            invariant
                i <= n,
                e < n_experts,
                n_experts == rows@.len(),
                grouped(rows@, coefs@, ys@, n_tokens, hidden),
                n == rows@[e as int]@.len(),
                *y == ys@[e as int],
                y.wf(),
                y.dims@ == seq![n, hidden],
                out.data@.len() == n_tokens * hidden,
                out.data@.len() <= usize::MAX,
                out.dims@ == seq![n_tokens, hidden],
                out.backend == backend,
                forall|t: int, c: int|
                    0 <= t < n_tokens && 0 <= c < hidden ==> #[trigger] cell(
                        out.data@,
                        hidden as int,
                        t,
                        c,
                    ) == expert_sum(
                        cell(before, hidden as int, t, c),
                        rows@[e as int]@,
                        coefs@[e as int]@,
                        column(ys@[e as int], c),
                        t,
                        i as nat,
                    ),
            decreases n - i,
        {
            let token: usize = rows[e][i] as usize;
            let coef: E = coefs[e][i];
            let ghost now = out.data@;
            assert(rows@[e as int]@[i as int] < n_tokens);
            add_row(&mut out.data, n_tokens, token, y, i, coef);
            proof {
                assert forall|t: int, c: int|
                    0 <= t < n_tokens && 0 <= c < hidden implies #[trigger] cell(
                    out.data@,
                    hidden as int,
                    t,
                    c,
                ) == expert_sum(
                    cell(before, hidden as int, t, c),
                    rows@[e as int]@,
                    coefs@[e as int]@,
                    column(ys@[e as int], c),
                    t,
                    (i + 1) as nat,
                ) by {
                    assert(cell(now, hidden as int, t, c) == expert_sum(
                        cell(before, hidden as int, t, c),
                        rows@[e as int]@,
                        coefs@[e as int]@,
                        column(ys@[e as int], c),
                        t,
                        i as nat,
                    ));
                }
            }
            i = i + 1;
        }
        e = e + 1;
    }
    proof {
        assert forall|t: int, c: int| 0 <= t < n_tokens && 0 <= c < hidden implies #[trigger] out.at2(
            t,
            c,
        ) == loop_sum(rows@, coefs@, ys@, t, c, rows@.len()) by {
            assert(out.at2(t, c) == cell(out.data@, hidden as int, t, c));
        }
    }
    out
}

/// What the first `n` of `k` slots of token `t` give to it, added up from zero.
pub open spec fn slots_sum<E: Element>(
    y: Tensor<E>,
    weights: Seq<E>,
    k: int,
    t: int,
    c: int,
    n: nat,
) -> E
    decreases n,
{
    if n == 0 {
        E::spec_zero()
    } else {
        slots_sum(y, weights, k, t, c, (n - 1) as nat).spec_plus(
            y.at3(t, n - 1, c).spec_times(weights[t * k + n - 1]),
        )
    }
}

/// Adds up, for each token, the outputs of its slots, `[tokens, slots, hidden]`, times their
/// weights, in the order of the slots.
pub fn combine_fused<E: Element>(y: &Tensor<E>, weights: &[E]) -> (r: Tensor<E>)
    requires
        y.wf(),
        y.dims@.len() == 3,
        weights@.len() == y.dims@[0] * y.dims@[1],
        span(seq![y.dims@[0], y.dims@[2]]) <= usize::MAX,
    ensures
        r.wf(),
        r.dims@ == seq![y.dims@[0], y.dims@[2]],
        forall|t: int, c: int|
            0 <= t < y.dims@[0] && 0 <= c < y.dims@[2] ==> #[trigger] r.at2(t, c) == slots_sum(
                *y,
                weights@,
                y.dims@[1] as int,
                t,
                c,
                y.dims@[1] as nat,
            ),
        r.backend == y.backend,
{
    let (n_tokens, k, hidden) = (y.dims[0], y.dims[1], y.dims[2]);
    let dims: Vec<usize> = vec![n_tokens, hidden];
    assert(dims@ =~= seq![n_tokens, hidden]);
    proof {
        crate::arith::lemma_span_two(n_tokens, hidden);
    }
    let total: usize = n_tokens * hidden;
    let n_weights: usize = weights.len();
    let mut data: Vec<E> = Vec::with_capacity(total);
    let mut p: usize = 0;
    while p < total
        invariant
            p <= total,
            total == n_tokens * hidden,
            y.wf(),
            y.dims@.len() == 3,
            y.dims@[0] == n_tokens,
            y.dims@[1] == k,
            y.dims@[2] == hidden,
            n_weights == weights@.len(),
            n_weights == n_tokens * k,
            data@.len() == p,
            forall|q: int|
                0 <= q < p ==> #[trigger] data@[q] == slots_sum(
                    *y,
                    weights@,
                    k as int,
                    q / hidden as int,
                    q % hidden as int,
                    k as nat,
                ),
        decreases total - p,
    {
        proof {
            assert(hidden > 0) by (nonlinear_arith)
                requires
                    p < n_tokens * hidden,
            ;
            crate::arith::lemma_index_join(p as int, n_tokens as int, hidden as int);
        }
        let t: usize = p / hidden;
        let c: usize = p % hidden;
        let mut sum: E = E::zero();
        let mut j: usize = 0;
        while j < k
            invariant
                j <= k,
                y.wf(),
                y.dims@.len() == 3,
                y.dims@[0] == n_tokens,
                y.dims@[1] == k,
                y.dims@[2] == hidden,
                t < n_tokens,
                c < hidden,
                n_weights == weights@.len(),
                n_weights == n_tokens * k,
                sum == slots_sum(*y, weights@, k as int, t as int, c as int, j as nat),
            decreases k - j,
        {
            proof {
                crate::arith::lemma_product_le_span(y.dims@);
                crate::conv::lemma_at3_in_range(
                    y.dims@,
                    y.data@.len() as int,
                    t as int,
                    j as int,
                    c as int,
                );
                crate::arith::lemma_index_bound(t as int, j as int, n_tokens as int, k as int);
            }
            let term: E = y.data[(t * k + j) * hidden + c].times(weights[t * k + j]);
            sum = sum.plus(term);
            j = j + 1;
        }
        data.push(sum);
        p = p + 1;
    }
    let r: Tensor<E> = Tensor { dims, data, is_variable: false, op: None, backend: y.backend };
    proof {
        assert forall|t: int, c: int| 0 <= t < n_tokens && 0 <= c < hidden implies #[trigger] r.at2(
            t,
            c,
        ) == slots_sum(*y, weights@, k as int, t, c, k as nat) by {
            crate::arith::lemma_index_bound(t, c, n_tokens as int, hidden as int);
            crate::arith::lemma_index_split(t, c, hidden as int);
            assert(r.data@[t * hidden + c] == slots_sum(*y, weights@, k as int, t, c, k as nat));
        }
    }
    r
}

/// `order` lists the `k` slots of token `t` in ascending order of their experts.
pub open spec fn sorts_token(ids: Seq<u32>, k: int, t: int, order: Seq<int>) -> bool {
    &&& order.len() == k
    &&& forall|i: int| 0 <= i < k ==> 0 <= #[trigger] order[i] < k
    &&& forall|s: int| 0 <= s < k ==> #[trigger] order.contains(s)
    &&& ascending(ids.subrange(t * k, (t + 1) * k), order)
}

/// The part of the orders of all tokens that is about token `t`.
pub open spec fn token_order(orders: Seq<usize>, k: int, t: int) -> Seq<int> {
    indices(orders.subrange(t * k, (t + 1) * k))
}

/// The slots of each token in ascending order of their experts: for all tokens one after the
/// other, the experts, the weights, and which of the token's slots they are of.
pub fn sort_slots<W: Copy>(ids: &[u32], weights: &[W], n_tokens: usize, k: usize) -> (r: (
    Vec<u32>,
    Vec<W>,
    Vec<usize>,
))
    requires
        ids@.len() == n_tokens * k,
        weights@.len() == n_tokens * k,
    ensures
        r.0@.len() == n_tokens * k,
        r.1@.len() == n_tokens * k,
        r.2@.len() == n_tokens * k,
        forall|t: int|
            0 <= t < n_tokens ==> sorts_token(
                ids@,
                k as int,
                t,
                #[trigger] token_order(r.2@, k as int, t),
            ),
        forall|t: int, j: int|
            0 <= t < n_tokens && 0 <= j < k ==> {
                let s = t * k + #[trigger] token_order(r.2@, k as int, t)[j];
                &&& r.0@[t * k + j] == ids@[s]
                &&& r.1@[t * k + j] == weights@[s]
            },
{
    let total: usize = ids.len();
    let mut out_ids: Vec<u32> = Vec::with_capacity(total);
    let mut out_weights: Vec<W> = Vec::with_capacity(total);
    let mut orders: Vec<usize> = Vec::with_capacity(total);
    let mut t: usize = 0;
    while t < n_tokens
        invariant
            t <= n_tokens,
            total == ids@.len(),
            total == n_tokens * k,
            weights@.len() == total,
            out_ids@.len() == t * k,
            out_weights@.len() == t * k,
            orders@.len() == t * k,
            forall|u: int|
                0 <= u < t ==> sorts_token(
                    ids@,
                    k as int,
                    u,
                    #[trigger] token_order(orders@, k as int, u),
                ),
            forall|u: int, j: int|
                0 <= u < t && 0 <= j < k ==> {
                    let s = u * k + #[trigger] token_order(orders@, k as int, u)[j];
                    &&& out_ids@[u * k + j] == ids@[s]
                    &&& out_weights@[u * k + j] == weights@[s]
                },
        decreases n_tokens - t,
    {
        proof {
            lemma_token_range(t as int, n_tokens as int, k as int);
        }
        let start: usize = t * k;
        let part: &[u32] = vstd::slice::slice_subrange(ids, start, start + k);
        let order: Vec<usize> = ascending_order(part);
        let ghost before = (out_ids@, out_weights@, orders@);
        let mut j: usize = 0;
        while j < k
            invariant
                j <= k,
                start == t * k,
                start + k <= total,
                total == ids@.len(),
                total == weights@.len(),
                order@.len() == k,
                forall|i: int| 0 <= i < k ==> #[trigger] order@[i] < k,
                before.0.len() == start,
                before.1.len() == start,
                before.2.len() == start,
                out_ids@.len() == start + j,
                out_weights@.len() == start + j,
                orders@ == before.2 + order@.take(j as int),
                forall|i: int| 0 <= i < start ==> #[trigger] out_ids@[i] == before.0[i],
                forall|i: int| 0 <= i < start ==> #[trigger] out_weights@[i] == before.1[i],
                forall|i: int|
                    0 <= i < j ==> out_ids@[start + i] == ids@[start + #[trigger] order@[i]],
                forall|i: int|
                    0 <= i < j ==> out_weights@[start + i] == weights@[start
                        + #[trigger] order@[i]],
            decreases k - j,
        {
            assert(order@[j as int] < k);
            let s: usize = start + order[j];
            out_ids.push(ids[s]);
            out_weights.push(weights[s]);
            orders.push(order[j]);
            assert(order@.take(j as int + 1) =~= order@.take(j as int).push(order@[j as int]));
            assert(orders@ =~= before.2 + order@.take(j as int + 1));
            j = j + 1;
        }
        proof {
            assert(order@.take(k as int) =~= order@);
            assert((t + 1) * k == start + k) by (nonlinear_arith)
                requires
                    start == t * k,
            ;
            assert(orders@.subrange(t * k, (t + 1) * k) =~= order@);
            assert forall|u: int| 0 <= u < t implies #[trigger] token_order(
                orders@,
                k as int,
                u,
            ) == token_order(before.2, k as int, u) by {
                lemma_token_range(u, t as int, k as int);
                assert(orders@.subrange(u * k, (u + 1) * k) =~= before.2.subrange(
                    u * k,
                    (u + 1) * k,
                ));
            }
            assert forall|u: int| 0 <= u < t + 1 implies sorts_token(
                ids@,
                k as int,
                u,
                #[trigger] token_order(orders@, k as int, u),
            ) by {
                if u == t {
                    assert(part@ =~= ids@.subrange(t * k, (t + 1) * k));
                    let o = indices(order@);
                    assert forall|i: int| 0 <= i < k implies 0 <= #[trigger] o[i] < k by {
                        assert(order@[i] < k);
                    }
                } else {
                    assert(sorts_token(ids@, k as int, u, token_order(before.2, k as int, u)));
                }
            }
            assert forall|u: int, j: int| 0 <= u < t + 1 && 0 <= j < k implies ({
                let s = u * k + #[trigger] token_order(orders@, k as int, u)[j];
                &&& out_ids@[u * k + j] == ids@[s]
                &&& out_weights@[u * k + j] == weights@[s]
            }) by {
                if u == t {
                    assert(token_order(orders@, k as int, u)[j] == order@[j]);
                } else {
                    lemma_token_range(u, t as int, k as int);
                    assert(token_order(orders@, k as int, u) == token_order(
                        before.2,
                        k as int,
                        u,
                    ));
                    let s = u * k + token_order(before.2, k as int, u)[j];
                    assert(before.0[u * k + j] == ids@[s]);
                    assert(out_ids@[u * k + j] == before.0[u * k + j]);
                    assert(out_weights@[u * k + j] == before.1[u * k + j]);
                }
            }
        }
        t = t + 1;
    }
    (out_ids, out_weights, orders)
}

/// The slots of a token are within those of all tokens.
proof fn lemma_token_range(t: int, n: int, k: int)
    requires
        0 <= t < n,
        0 <= k,
    ensures
        0 <= t * k,
        (t + 1) * k == t * k + k,
        (t + 1) * k <= n * k,
{
    assert(0 <= t * k && (t + 1) * k == t * k + k && (t + 1) * k <= n * k) by (nonlinear_arith)
        requires
            0 <= t < n,
            0 <= k,
    ;
}

/// `acc`, and the outputs of slots times their weights added to it, one by one.
pub open spec fn terms_sum<E: Element>(
    acc: E,
    terms: Seq<int>,
    out: spec_fn(int) -> E,
    weights: Seq<E>,
) -> E
    decreases terms.len(),
{
    if terms.len() == 0 {
        acc
    } else {
        let s = terms.last();
        terms_sum(acc, terms.drop_last(), out, weights).spec_plus(
            out(s).spec_times(weights[s]),
        )
    }
}

/// Terms are added up in two parts.
proof fn lemma_terms_concat<E: Element>(
    acc: E,
    a: Seq<int>,
    b: Seq<int>,
    out: spec_fn(int) -> E,
    weights: Seq<E>,
)
    ensures
        terms_sum(acc, a + b, out, weights) == terms_sum(
            terms_sum(acc, a, out, weights),
            b,
            out,
            weights,
        ),
    decreases b.len(),
{
    if b.len() == 0 {
        assert(a + b =~= a);
    } else {
        lemma_terms_concat(acc, a, b.drop_last(), out, weights);
        assert((a + b).drop_last() =~= a + b.drop_last());
        assert((a + b).last() == b.last());
    }
}

/// An expert adds the terms of a token among its slots.
proof fn lemma_expert_terms<E: Element>(
    acc: E,
    ids: Seq<u32>,
    weights: Seq<E>,
    out: spec_fn(int) -> E,
    y: spec_fn(int) -> E,
    rows: Seq<u32>,
    coefs: Seq<E>,
    n: nat,
    all: nat,
    e: int,
    k: int,
    t: int,
)
    requires
        n <= all <= ids.len(),
        0 < k,
        0 <= t <= u32::MAX,
        ids.len() <= (u32::MAX + 1) * k,
        rows == slots_of(ids, all, e).map_values(|s: int| (s / k) as u32),
        coefs == slots_of(ids, all, e).map_values(|s: int| weights[s]),
        forall|i: int|
            0 <= i < slots_of(ids, all, e).len() ==> #[trigger] y(i) == out(
                slots_of(ids, all, e)[i],
            ),
        slots_of(ids, n, e).len() <= slots_of(ids, all, e).len(),
        slots_of(ids, n, e) == slots_of(ids, all, e).take(slots_of(ids, n, e).len() as int),
    ensures
        expert_sum(acc, rows, coefs, y, t, slots_of(ids, n, e).len()) == terms_sum(
            acc,
            token_slots(ids, n, e, k, t),
            out,
            weights,
        ),
    decreases n,
{
    if n > 0 {
        let (now, full) = (slots_of(ids, n, e), slots_of(ids, all, e));
        let rest = slots_of(ids, (n - 1) as nat, e);
        let tokens = token_slots(ids, (n - 1) as nat, e, k, t);
        if ids[n - 1] == e {
            assert(rest =~= full.take(rest.len() as int)) by {
                assert(rest =~= now.take(rest.len() as int));
            }
            lemma_expert_terms(
                acc,
                ids,
                weights,
                out,
                y,
                rows,
                coefs,
                (n - 1) as nat,
                all,
                e,
                k,
                t,
            );
            let i = rest.len() as int;
            let s = n - 1;
            assert(now[i] == s);
            assert(full[i] == s);
            assert(rows[i] == (s / k) as u32);
            assert(coefs[i] == weights[s]);
            assert(y(i) == out(s));
            assert(0 <= s / k <= u32::MAX) by (nonlinear_arith)
                requires
                    0 <= s < (u32::MAX + 1) * k,
                    k > 0,
            ;
            if s / k == t {
                assert(tokens.push(s).drop_last() =~= tokens);
                assert(tokens.push(s).last() == s);
            }
        } else {
            lemma_expert_terms(
                acc,
                ids,
                weights,
                out,
                y,
                rows,
                coefs,
                (n - 1) as nat,
                all,
                e,
                k,
                t,
            );
        }
    }
}

/// The grouping and the outputs of the experts are those of the slots: `out` gives the output of
/// each slot in one column.
pub open spec fn follows_slots<E: Element>(
    ids: Seq<u32>,
    weights: Seq<E>,
    k: int,
    out: spec_fn(int) -> E,
    rows: Seq<Vec<u32>>,
    coefs: Seq<Vec<E>>,
    ys: Seq<Tensor<E>>,
    c: int,
) -> bool {
    forall|e: int|
        0 <= e < rows.len() ==> {
            let slots = slots_of(ids, ids.len(), e);
            &&& (#[trigger] rows[e])@ == slots.map_values(|s: int| (s / k) as u32)
            &&& coefs[e]@ == slots.map_values(|s: int| weights[s])
            &&& forall|i: int|
                0 <= i < slots.len() ==> #[trigger] ys[e].at2(i, c) == out(slots[i])
        }
}

/// Walking the experts upwards adds the terms of a token in that order.
proof fn lemma_loop_terms_sum<E: Element>(
    ids: Seq<u32>,
    weights: Seq<E>,
    k: int,
    out: spec_fn(int) -> E,
    rows: Seq<Vec<u32>>,
    coefs: Seq<Vec<E>>,
    ys: Seq<Tensor<E>>,
    t: int,
    c: int,
    e: nat,
)
    requires
        0 < k,
        0 <= t <= u32::MAX,
        ids.len() <= (u32::MAX + 1) * k,
        e <= rows.len(),
        follows_slots(ids, weights, k, out, rows, coefs, ys, c),
    ensures
        loop_sum(rows, coefs, ys, t, c, e) == terms_sum(
            E::spec_zero(),
            loop_terms(ids, k, t, e),
            out,
            weights,
        ),
    decreases e,
{
    if e > 0 {
        lemma_loop_terms_sum(ids, weights, k, out, rows, coefs, ys, t, c, (e - 1) as nat);
        let acc = loop_sum(rows, coefs, ys, t, c, (e - 1) as nat);
        let slots = slots_of(ids, ids.len(), e - 1);
        let y = column(ys[e - 1], c);
        assert(rows[e - 1]@ == slots.map_values(|s: int| (s / k) as u32));
        assert forall|i: int| 0 <= i < slots.len() implies #[trigger] y(i) == out(slots[i]) by {
            assert(ys[e - 1].at2(i, c) == out(slots[i]));
        }
        assert(slots =~= slots.take(slots.len() as int));
        lemma_expert_terms(
            acc,
            ids,
            weights,
            out,
            y,
            rows[e - 1]@,
            coefs[e - 1]@,
            ids.len(),
            ids.len(),
            e - 1,
            k,
            t,
        );
        lemma_terms_concat(
            E::spec_zero(),
            loop_terms(ids, k, t, (e - 1) as nat),
            token_slots(ids, ids.len(), e - 1, k, t),
            out,
            weights,
        );
    }
}

/// The slots of a token that are sorted by expert add its terms in that order.
proof fn lemma_sorted_terms_sum<E: Element>(
    order: Seq<int>,
    weights: Seq<E>,
    k: int,
    out: spec_fn(int) -> E,
    y: Tensor<E>,
    sorted: Seq<E>,
    t: int,
    c: int,
    n: nat,
)
    requires
        n <= order.len(),
        forall|j: int| 0 <= j < order.len() ==> y.at3(t, j, c) == out(t * k + #[trigger] order[j]),
        forall|j: int|
            0 <= j < order.len() ==> sorted[t * k + j] == weights[t * k + #[trigger] order[j]],
    ensures
        slots_sum(y, sorted, k, t, c, n) == terms_sum(
            E::spec_zero(),
            order.take(n as int).map_values(|s: int| t * k + s),
            out,
            weights,
        ),
    decreases n,
{
    let global = |s: int| t * k + s;
    if n == 0 {
        assert(order.take(0).map_values(global) =~= Seq::<int>::empty());
    } else {
        lemma_sorted_terms_sum(order, weights, k, out, y, sorted, t, c, (n - 1) as nat);
        let terms = order.take(n as int).map_values(global);
        assert(terms.drop_last() =~= order.take(n - 1).map_values(global));
        assert(terms.last() == t * k + order[n - 1]);
        assert(y.at3(t, n - 1, c) == out(t * k + order[n - 1]));
    }
}

/// Both ways to evaluate the experts give a token the same sum, whatever adding means: the terms
/// are the same, and they are added in the same order.
///
/// `out` gives the output of each slot in column `c`. One way has the slots grouped by expert,
/// and the other has those of each token sorted by expert.
pub proof fn law_both_ways_add_up_alike<E: Element>(
    ids: Seq<u32>,
    weights: Seq<E>,
    k: int,
    out: spec_fn(int) -> E,
    rows: Seq<Vec<u32>>,
    coefs: Seq<Vec<E>>,
    ys: Seq<Tensor<E>>,
    order: Seq<int>,
    y: Tensor<E>,
    sorted: Seq<E>,
    t: int,
    c: int,
)
    requires
        0 < k,
        0 <= t <= u32::MAX,
        (t + 1) * k <= ids.len() <= (u32::MAX + 1) * k,
        forall|s: int| 0 <= s < ids.len() ==> ids[s] < rows.len(),
        follows_slots(ids, weights, k, out, rows, coefs, ys, c),
        sorts_token(ids, k, t, order),
        forall|j: int| 0 <= j < k ==> y.at3(t, j, c) == out(t * k + #[trigger] order[j]),
        forall|j: int| 0 <= j < k ==> sorted[t * k + j] == weights[t * k + #[trigger] order[j]],
    ensures
        loop_sum(rows, coefs, ys, t, c, rows.len()) == slots_sum(y, sorted, k, t, c, k as nat),
{
    lemma_loop_terms_sum(ids, weights, k, out, rows, coefs, ys, t, c, rows.len());
    lemma_sorted_terms_sum(order, weights, k, out, y, sorted, t, c, k as nat);
    assert(order.take(k) =~= order);
    law_same_order_of_terms(ids, k, t, rows.len(), order);
}

} // verus!
