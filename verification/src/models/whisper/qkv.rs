//! What attention adds up: products of queries and keys, and weighted values.

use crate::arith::{product, span};
use crate::conv2d::lemma_at4_in_range;
use crate::error::{first_of, refusal_of, Error, Refusal, Result};
use crate::models::heads::{flat4, is_split, merge_heads, mergeable, splittable};
use crate::models::products::{
    dot, flipped_dims, is_linear, linear_at, masked, penalty, scaled, scores, weigh,
};
use crate::models::whisper::attention::{key_offset, mask_window, offset_of, MultiHeadAttention};
use crate::tensor::{Element, Tensor};
use vstd::prelude::*;

verus! {

/// The width of a head of `x`.
pub open spec fn head_width(x: Seq<usize>, n_head: usize) -> usize {
    (x[2] as int / n_head as int) as usize
}

/// The heads of `[batch, length, width]`.
pub open spec fn head_dims(x: Seq<usize>, n_head: usize) -> Seq<usize> {
    seq![x[0], n_head, x[1], head_width(x, n_head)]
}

/// Why `x` is not cut into heads.
pub open spec fn split_refusal(x: Seq<usize>, n_head: usize) -> Option<Refusal> {
    let wanted = seq![x[0], x[1], n_head, head_width(x, n_head)];
    if x.len() != 3 {
        Some(Refusal::Rank { expected: 3, got: x.len() as usize })
    } else if product(x) != product(wanted) {
        Some(Refusal::Shapes { left: x, right: wanted, op: "reshape"@ })
    } else {
        None
    }
}

/// Why there is no place for the queries among the keys.
pub open spec fn place_refusal(q: Seq<usize>, k: Seq<usize>) -> Option<Refusal> {
    if q.len() != 3 {
        Some(Refusal::Rank { expected: 3, got: q.len() as usize })
    } else if k.len() < 2 {
        Some(Refusal::Dim { at: 1, rank: k.len() as usize })
    } else {
        refusal_of(offset_of(q[1], k[1]))
    }
}

/// Why heads of queries and keys are not multiplied.
pub open spec fn pair_refusal(q: Seq<usize>, k: Seq<usize>, n_head: usize) -> Option<Refusal> {
    let (qh, kh) = (head_dims(q, n_head), head_dims(k, n_head));
    if qh[0] != kh[0] || qh[3] != kh[3] {
        Some(Refusal::Shapes { left: qh, right: flipped_dims(kh), op: "matmul"@ })
    } else {
        None
    }
}

/// Why a mask has no window for the queries and keys.
pub open spec fn window_refusal(q: Seq<usize>, k: Seq<usize>, mask: Option<Seq<usize>>) -> Option<
    Refusal,
> {
    match mask {
        Some(m) => {
            let offset = (k[1] - q[1]) as usize;
            if k[1] > m[0] {
                Some(Refusal::Range { dims: m, dim: 0, start: offset, len: q[1] })
            } else if k[1] > m[1] {
                Some(Refusal::Range { dims: seq![q[1], m[1]], dim: 1, start: 0, len: k[1] })
            } else {
                None
            }
        },
        None => None,
    }
}

/// Why there are no scores: the first thing that does not fit.
pub open spec fn scores_refusal(
    q: Seq<usize>,
    k: Seq<usize>,
    v: Seq<usize>,
    mask: Option<Seq<usize>>,
    n_head: usize,
) -> Option<Refusal> {
    first_of(
        place_refusal(q, k),
        first_of(
            split_refusal(q, n_head),
            first_of(
                split_refusal(k, n_head),
                first_of(
                    split_refusal(v, n_head),
                    first_of(pair_refusal(q, k, n_head), window_refusal(q, k, mask)),
                ),
            ),
        ),
    )
}

/// The extents of a mask that may not be there.
pub open spec fn mask_dims(mask: Option<&Tensor<bool>>) -> Option<Seq<usize>> {
    match mask {
        Some(m) => Some(m.dims@),
        None => None,
    }
}

/// The sum of the first `n` products of query `i` and key `j` of head `g`, both scaled.
pub open spec fn head_sum<E: Element>(
    q: Tensor<E>,
    k: Tensor<E>,
    scale: E,
    width: int,
    a: int,
    g: int,
    i: int,
    j: int,
    n: nat,
) -> E
    decreases n,
{
    if n == 0 {
        E::spec_zero()
    } else {
        let c = g * width + (n - 1);
        head_sum(q, k, scale, width, a, g, i, j, (n - 1) as nat).spec_plus(
            q.at3(a, i, c).spec_times(scale).spec_times(k.at3(a, j, c).spec_times(scale)),
        )
    }
}

/// The scores of the queries against the keys, with what a mask adds to each: it is read where
/// the queries are among the keys.
pub open spec fn is_attention_scores<E: Element>(
    r: Tensor<E>,
    q: Tensor<E>,
    k: Tensor<E>,
    mask: Option<&Tensor<bool>>,
    scale: E,
    hidden: E,
    n_head: usize,
) -> bool {
    let (b, n, m) = (q.dims@[0], q.dims@[1], k.dims@[1]);
    let width = head_width(q.dims@, n_head);
    &&& r.wf()
    &&& r.dims@ == seq![b, n_head, n, m]
    &&& forall|a: int, g: int, i: int, j: int|
        0 <= a < b && 0 <= g < n_head && 0 <= i < n && 0 <= j < m ==> #[trigger] r.at4(a, g, i, j)
            == {
            let sum = head_sum(q, k, scale, width as int, a, g, i, j, width as nat);
            match mask {
                Some(seen) => sum.spec_plus(penalty(seen.at2(m - n + i, j), hidden)),
                None => sum,
            }
        }
}

/// Products of scaled heads are products of the scaled parts of positions.
proof fn lemma_head_sum<E: Element>(
    q: Tensor<E>,
    k: Tensor<E>,
    qh: Tensor<E>,
    kh: Tensor<E>,
    qs: Tensor<E>,
    ks: Tensor<E>,
    scale: E,
    n_head: usize,
    width: usize,
    a: int,
    g: int,
    i: int,
    j: int,
    n: nat,
)
    requires
        is_split(qh, q, n_head, width),
        is_split(kh, k, n_head, width),
        qs.dims@ == qh.dims@,
        ks.dims@ == kh.dims@,
        forall|p: int|
            0 <= p < qh.data@.len() ==> #[trigger] qs.data@[p] == qh.data@[p].spec_times(scale),
        forall|p: int|
            0 <= p < kh.data@.len() ==> #[trigger] ks.data@[p] == kh.data@[p].spec_times(scale),
        0 <= a < q.dims@[0],
        0 <= a < k.dims@[0],
        0 <= g < n_head,
        0 <= i < q.dims@[1],
        0 <= j < k.dims@[1],
        n <= width,
    ensures
        dot(
            qs.data@,
            flat4(qs.dims@, a, g, i, 0),
            ks.data@,
            flat4(ks.dims@, a, g, j, 0),
            1,
            n,
        ) == head_sum(q, k, scale, width as int, a, g, i, j, n),
    decreases n,
{
    if n > 0 {
        let last = n - 1;
        lemma_head_sum(q, k, qh, kh, qs, ks, scale, n_head, width, a, g, i, j, (n - 1) as nat);
        lemma_at4_in_range(qh.dims@, qh.data@.len() as int, a, g, i, last);
        lemma_at4_in_range(kh.dims@, kh.data@.len() as int, a, g, j, last);
        assert(qh.at4(a, g, i, last) == q.at3(a, i, g * width + last));
        assert(kh.at4(a, g, j, last) == k.at3(a, j, g * width + last));
        let at = flat4(qs.dims@, a, g, i, 0) + last;
        let to = flat4(ks.dims@, a, g, j, 0) + last * 1;
        assert(qs.data@[at] == qh.data@[at].spec_times(scale));
        assert(ks.data@[to] == kh.data@[to].spec_times(scale));
    }
}

impl<E: Element> MultiHeadAttention<E> {
    /// The scores of all queries against all keys, `[batch, heads, queries, keys]`, and the heads
    /// of the values. Queries and keys are scaled alike; `hidden` is what the mask adds to a key
    /// that a query must not see.
    pub fn scores(
        &self,
        q: &Tensor<E>,
        k: &Tensor<E>,
        v: &Tensor<E>,
        mask: Option<&Tensor<bool>>,
        scale: E,
        hidden: E,
    ) -> (r: Result<(Tensor<E>, Tensor<E>)>)
        requires
            q.wf(),
            k.wf(),
            v.wf(),
            self.n_head > 0,
            mask matches Some(m) ==> m.wf() && m.dims@.len() == 2,
            q.dims@.len() == 3 ==> splittable(
                q.dims@,
                self.n_head,
                head_width(q.dims@, self.n_head),
            ),
            k.dims@.len() == 3 ==> splittable(
                k.dims@,
                self.n_head,
                head_width(k.dims@, self.n_head),
            ),
            v.dims@.len() == 3 ==> splittable(
                v.dims@,
                self.n_head,
                head_width(v.dims@, self.n_head),
            ),
            q.dims@.len() == 3 && k.dims@.len() == 3 ==> span(
                seq![q.dims@[0], self.n_head, q.dims@[1], k.dims@[1]],
            ) <= usize::MAX,
        ensures
            match scores_refusal(q.dims@, k.dims@, v.dims@, mask_dims(mask), self.n_head) {
                Some(why) => r matches Err(e) && why.is(e),
                None => {
                    &&& r matches Ok(t)
                    &&& is_attention_scores(t.0, *q, *k, mask, scale, hidden, self.n_head)
                    &&& is_split(t.1, *v, self.n_head, head_width(v.dims@, self.n_head))
                },
            },
    {
        let (_batch, n_ctx, _n_state) = q.dims3()?;
        if k.dims.len() < 2 {
            return Err(Error::DimOutOfRange { dim: 1, rank: k.dims.len() });
        }
        let n_kv: usize = k.dims[1];
        let offset: usize = key_offset(n_ctx, n_kv)?;
        let qh: Tensor<E> = self.reshape_head(q)?;
        let kh: Tensor<E> = self.reshape_head(k)?;
        let vh: Tensor<E> = self.reshape_head(v)?;
        let qs: Tensor<E> = scaled(&qh, scale);
        let ks: Tensor<E> = scaled(&kh, scale);
        assert(qh.dims@ =~= head_dims(q.dims@, self.n_head));
        assert(kh.dims@ =~= head_dims(k.dims@, self.n_head));
        let plain: Tensor<E> = scores(&qs, &ks)?;
        let ghost width = head_width(q.dims@, self.n_head);
        proof {
            assert forall|a: int, g: int, i: int, j: int|
                0 <= a < q.dims@[0] && 0 <= g < self.n_head && 0 <= i < n_ctx && 0 <= j
                    < n_kv implies #[trigger] plain.at4(a, g, i, j) == head_sum(
                *q,
                *k,
                scale,
                width as int,
                a,
                g,
                i,
                j,
                width as nat,
            ) by {
                lemma_head_sum(
                    *q,
                    *k,
                    qh,
                    kh,
                    qs,
                    ks,
                    scale,
                    self.n_head,
                    width,
                    a,
                    g,
                    i,
                    j,
                    width as nat,
                );
            }
        }
        let qk: Tensor<E> = match mask {
            Some(m) => {
                let window: Tensor<bool> = mask_window(m, offset, n_ctx, n_kv)?;
                let r: Tensor<E> = masked(&plain, &window, hidden)?;
                proof {
                    assert forall|a: int, g: int, i: int, j: int|
                        0 <= a < q.dims@[0] && 0 <= g < self.n_head && 0 <= i < n_ctx && 0 <= j
                            < n_kv implies #[trigger] r.at4(a, g, i, j) == head_sum(
                        *q,
                        *k,
                        scale,
                        width as int,
                        a,
                        g,
                        i,
                        j,
                        width as nat,
                    ).spec_plus(penalty(m.at2(n_kv - n_ctx + i, j), hidden)) by {
                        assert(plain.at4(a, g, i, j) == head_sum(
                            *q,
                            *k,
                            scale,
                            width as int,
                            a,
                            g,
                            i,
                            j,
                            width as nat,
                        ));
                        assert(window.at2(i, j) == m.at2(offset + i, j));
                    }
                }
                r
            },
            None => plain,
        };
        Ok((qk, vh))
    }

    /// The values of all heads, added up with the weights of each query, next to one another.
    pub fn weigh(&self, w: &Tensor<E>, v: &Tensor<E>) -> (r: Result<Tensor<E>>)
        requires
            w.wf(),
            v.wf(),
            w.dims@.len() == 4,
            v.dims@.len() == 4,
            span(seq![w.dims@[0], w.dims@[1], w.dims@[2], v.dims@[3]]) <= usize::MAX,
            mergeable(seq![w.dims@[0], w.dims@[1], w.dims@[2], v.dims@[3]]),
        ensures
            if w.dims@[0] != v.dims@[0] || w.dims@[1] != v.dims@[1] || w.dims@[3] != v.dims@[2] {
                r matches Err(e) && e.is_mismatch(w.dims@, v.dims@, "matmul"@)
            } else {
                r matches Ok(t) && is_weighed(t, *w, *v)
            },
    {
        let wv: Tensor<E> = weigh(w, v)?;
        let r: Tensor<E> = merge_heads(&wv)?;
        proof {
            let (b, h, n, d) = (w.dims@[0], w.dims@[1], w.dims@[2], v.dims@[3]);
            assert forall|a: int, g: int, i: int, c: int|
                0 <= a < b && 0 <= g < h && 0 <= i < n && 0 <= c < d implies r.at3(
                a,
                i,
                g * d + c,
            ) == #[trigger] weighted_at(*w, *v, a, g, i, c) by {
                assert(r.at3(a, i, g * d + c) == wv.at4(a, g, i, c));
            }
        }
        Ok(r)
    }
}

/// `t` holds the values of all heads, added up with the weights of each query, next to one
/// another.
pub open spec fn is_weighed<E: Element>(t: Tensor<E>, w: Tensor<E>, v: Tensor<E>) -> bool {
    let (b, h, n, d) = (w.dims@[0], w.dims@[1], w.dims@[2], v.dims@[3]);
    &&& t.wf()
    &&& t.dims@ == seq![b, n, (h * d) as usize]
    &&& forall|a: int, g: int, i: int, c: int|
        0 <= a < b && 0 <= g < h && 0 <= i < n && 0 <= c < d ==> t.at3(a, i, g * d + c)
            == #[trigger] weighted_at(w, v, a, g, i, c)
}

/// The values of head `g` at `c`, added up with the weights of query `i`.
pub open spec fn weighted_at<E: Element>(
    w: Tensor<E>,
    v: Tensor<E>,
    a: int,
    g: int,
    i: int,
    c: int,
) -> E {
    dot(
        w.data@,
        flat4(w.dims@, a, g, i, 0),
        v.data@,
        flat4(v.dims@, a, g, 0, c),
        v.dims@[3] as int,
        w.dims@[3] as nat,
    )
}

/// Positions of a sequence, from `offset` on.
pub open spec fn is_step<E>(step: Tensor<E>, whole: Tensor<E>, offset: int) -> bool {
    &&& step.dims@.len() == 3
    &&& whole.dims@.len() == 3
    &&& step.dims@[0] == whole.dims@[0]
    &&& step.dims@[2] == whole.dims@[2]
    &&& 0 <= offset
    &&& offset + step.dims@[1] <= whole.dims@[1]
    &&& forall|a: int, t: int, c: int|
        0 <= a < step.dims@[0] && 0 <= t < step.dims@[1] && 0 <= c < step.dims@[2]
            ==> #[trigger] step.at3(a, t, c) == whole.at3(a, offset + t, c)
}

/// Sums of products of a step are those of the sequence.
proof fn lemma_step_sum<E: Element>(
    step: Tensor<E>,
    whole: Tensor<E>,
    k_step: Tensor<E>,
    k: Tensor<E>,
    scale: E,
    width: int,
    offset: int,
    a: int,
    g: int,
    i: int,
    j: int,
    n: nat,
)
    requires
        is_step(step, whole, offset),
        is_step(k_step, k, 0),
        k_step.dims@[0] == step.dims@[0],
        0 <= a < step.dims@[0],
        0 <= i < step.dims@[1],
        0 <= j < k_step.dims@[1],
        0 <= g * width,
        g * width + n <= step.dims@[2],
        g * width + n <= k_step.dims@[2],
    ensures
        head_sum(step, k_step, scale, width, a, g, i, j, n) == head_sum(
            whole,
            k,
            scale,
            width,
            a,
            g,
            offset + i,
            j,
            n,
        ),
    decreases n,
{
    if n > 0 {
        lemma_step_sum(step, whole, k_step, k, scale, width, offset, a, g, i, j, (n - 1) as nat);
        let c = g * width + (n - 1);
        assert(step.at3(a, i, c) == whole.at3(a, offset + i, c));
        assert(k_step.at3(a, j, c) == k.at3(a, 0 + j, c));
    }
}

/// The heads of a width lie within it.
pub proof fn lemma_head_within(total: int, n_head: int, g: int)
    requires
        0 <= g < n_head,
        0 <= total,
    ensures
        0 <= total / n_head <= total,
        0 <= g * (total / n_head),
        g * (total / n_head) + total / n_head <= total,
{
    let width = total / n_head;
    vstd::arithmetic::div_mod::lemma_fundamental_div_mod(total, n_head);
    vstd::arithmetic::div_mod::lemma_mod_bound(total, n_head);
    vstd::arithmetic::div_mod::lemma_div_pos_is_pos(total, n_head);
    assert(width <= n_head * width) by (nonlinear_arith)
        requires
            n_head >= 1,
            width >= 0,
    ;
    assert(0 <= g * width && g * width + width <= n_head * width) by (nonlinear_arith)
        requires
            0 <= g < n_head,
            0 <= width,
    ;
}

/// Decoding in steps: positions of a sequence, scored against the keys of the positions up to
/// them, are scored against those as they are when the whole sequence is scored at once.
pub proof fn law_step_scores_as_the_sequence<E: Element>(
    in_step: Tensor<E>,
    at_once: Tensor<E>,
    step: Tensor<E>,
    whole: Tensor<E>,
    k_step: Tensor<E>,
    k: Tensor<E>,
    mask: Option<&Tensor<bool>>,
    scale: E,
    hidden: E,
    n_head: usize,
    offset: int,
    a: int,
    g: int,
    i: int,
    j: int,
)
    requires
        n_head > 0,
        is_step(step, whole, offset),
        is_step(k_step, k, 0),
        k_step.dims@[0] == step.dims@[0],
        head_width(k.dims@, n_head) == head_width(whole.dims@, n_head),
        mask is Some ==> {
            &&& k_step.dims@[1] == offset + step.dims@[1]
            &&& k.dims@[1] == whole.dims@[1]
        },
        is_attention_scores(in_step, step, k_step, mask, scale, hidden, n_head),
        is_attention_scores(at_once, whole, k, mask, scale, hidden, n_head),
        0 <= a < step.dims@[0],
        0 <= g < n_head,
        0 <= i < step.dims@[1],
        0 <= j < k_step.dims@[1],
    ensures
        in_step.at4(a, g, i, j) == at_once.at4(a, g, offset + i, j),
{
    let width = head_width(step.dims@, n_head) as int;
    lemma_head_within(step.dims@[2] as int, n_head as int, g);
    lemma_head_within(k.dims@[2] as int, n_head as int, g);
    lemma_step_sum(step, whole, k_step, k, scale, width, offset, a, g, i, j, width as nat);
    assert(in_step.at4(a, g, i, j) == in_step.at4(a, g, i, j));
    assert(at_once.at4(a, g, offset + i, j) == at_once.at4(a, g, offset + i, j));
}

/// Where a value that is weighed lies.
proof fn lemma_value_at<E>(v: Tensor<E>, a: int, g: int, j: int, c: int)
    requires
        v.dims@.len() == 4,
    ensures
        v.data@[flat4(v.dims@, a, g, 0, c) + j * v.dims@[3] as int] == v.at4(a, g, j, c),
{
    let (h, m, d) = (v.dims@[1] as int, v.dims@[2] as int, v.dims@[3] as int);
    let p = (a * h + g) * m;
    assert((p + 0) * d + c + j * d == (p + j) * d + c) by (nonlinear_arith);
}

/// Weights of a step that are those of the sequence, which gives none to the positions that come
/// later, add up the same values.
pub proof fn law_step_weighs_as_the_sequence<E: Element>(
    step: Tensor<E>,
    whole: Tensor<E>,
    v_step: Tensor<E>,
    v: Tensor<E>,
    offset: int,
    a: int,
    g: int,
    i: int,
    c: int,
)
    requires
        step.dims@.len() == 4,
        whole.dims@.len() == 4,
        v_step.dims@.len() == 4,
        v.dims@.len() == 4,
        step.dims@[3] <= whole.dims@[3],
        forall|j: int|
            0 <= j < step.dims@[3] ==> #[trigger] step.at4(a, g, i, j) == whole.at4(
                a,
                g,
                offset + i,
                j,
            ),
        forall|j: int|
            0 <= j < step.dims@[3] ==> #[trigger] v_step.at4(a, g, j, c) == v.at4(a, g, j, c),
        forall|j: int|
            step.dims@[3] <= j < whole.dims@[3] ==> #[trigger] whole.at4(a, g, offset + i, j)
                == E::spec_zero(),
    ensures
        weighted_at(step, v_step, a, g, i, c) == weighted_at(whole, v, a, g, offset + i, c),
{
    lemma_step_dot(step, whole, v_step, v, offset, a, g, i, c, whole.dims@[3] as nat);
}

/// The same of the first `n` terms.
proof fn lemma_step_dot<E: Element>(
    step: Tensor<E>,
    whole: Tensor<E>,
    v_step: Tensor<E>,
    v: Tensor<E>,
    offset: int,
    a: int,
    g: int,
    i: int,
    c: int,
    n: nat,
)
    requires
        v_step.dims@.len() == 4,
        v.dims@.len() == 4,
        n <= whole.dims@[3],
        step.dims@[3] <= whole.dims@[3],
        forall|j: int|
            0 <= j < step.dims@[3] ==> #[trigger] step.at4(a, g, i, j) == whole.at4(
                a,
                g,
                offset + i,
                j,
            ),
        forall|j: int|
            0 <= j < step.dims@[3] ==> #[trigger] v_step.at4(a, g, j, c) == v.at4(a, g, j, c),
        forall|j: int|
            step.dims@[3] <= j < whole.dims@[3] ==> #[trigger] whole.at4(a, g, offset + i, j)
                == E::spec_zero(),
    ensures
        dot(
            step.data@,
            flat4(step.dims@, a, g, i, 0),
            v_step.data@,
            flat4(v_step.dims@, a, g, 0, c),
            v_step.dims@[3] as int,
            if n <= step.dims@[3] {
                n
            } else {
                step.dims@[3] as nat
            },
        ) == dot(
            whole.data@,
            flat4(whole.dims@, a, g, offset + i, 0),
            v.data@,
            flat4(v.dims@, a, g, 0, c),
            v.dims@[3] as int,
            n,
        ),
    decreases n,
{
    if n > 0 {
        let j = n - 1;
        lemma_step_dot(step, whole, v_step, v, offset, a, g, i, c, (n - 1) as nat);
        lemma_value_at(v, a, g, j, c);
        let there = whole.at4(a, g, offset + i, j);
        if n <= step.dims@[3] {
            lemma_value_at(v_step, a, g, j, c);
            assert(step.at4(a, g, i, j) == there);
            assert(v_step.at4(a, g, j, c) == v.at4(a, g, j, c));
        } else {
            assert(there == E::spec_zero());
            v.at4(a, g, j, c).zero_laws();
            dot(
                whole.data@,
                flat4(whole.dims@, a, g, offset + i, 0),
                v.data@,
                flat4(v.dims@, a, g, 0, c),
                v.dims@[3] as int,
                (n - 1) as nat,
            ).zero_laws();
        }
    }
}

/// Products of a row of a step are those of the sequence.
proof fn lemma_step_row<E: Element>(
    step: Tensor<E>,
    whole: Tensor<E>,
    weight: Tensor<E>,
    offset: int,
    a: int,
    t: int,
    o: int,
    n: nat,
)
    requires
        is_step(step, whole, offset),
        0 <= a < step.dims@[0],
        0 <= t < step.dims@[1],
        n <= step.dims@[2],
    ensures
        ({
            let width = step.dims@[2] as int;
            let (row, there) = (a * step.dims@[1] + t, a * whole.dims@[1] + (offset + t));
            dot(step.data@, row * width, weight.data@, o * width, 1, n) == dot(
                whole.data@,
                there * width,
                weight.data@,
                o * width,
                1,
                n,
            )
        }),
    decreases n,
{
    if n > 0 {
        lemma_step_row(step, whole, weight, offset, a, t, o, (n - 1) as nat);
        assert(step.at3(a, t, n - 1) == whole.at3(a, offset + t, n - 1));
    }
}

/// Decoding in steps: a linear map takes the positions of a step where it takes them in the whole
/// sequence.
pub proof fn law_step_projects_as_the_sequence<E: Element>(
    step_out: Tensor<E>,
    whole_out: Tensor<E>,
    step: Tensor<E>,
    whole: Tensor<E>,
    weight: Tensor<E>,
    bias: Option<Tensor<E>>,
    offset: int,
)
    requires
        0 <= offset,
        is_step(step, whole, offset),
        weight.dims@.len() == 2,
        is_linear(step_out, step, weight, bias),
        is_linear(whole_out, whole, weight, bias),
    ensures
        is_step(step_out, whole_out, offset),
{
    let (b, l, len) = (step.dims@[0], step.dims@[1], whole.dims@[1]);
    let out = weight.dims@[0];
    assert(step.dims@.take(2) =~= seq![b, l]);
    assert(whole.dims@.take(2) =~= seq![b, len]);
    crate::arith::lemma_span_two(b, l);
    crate::arith::lemma_span_two(b, len);
    assert forall|a: int, t: int, c: int|
        0 <= a < b && 0 <= t < l && 0 <= c < out implies #[trigger] step_out.at3(a, t, c)
        == whole_out.at3(a, offset + t, c) by {
        let (row, there) = (a * l + t, a * len + (offset + t));
        crate::arith::lemma_index_bound(a, t, b as int, l as int);
        crate::arith::lemma_index_bound(a, offset + t, b as int, len as int);
        assert(step_out.data@[row * out + c] == linear_at(step, weight, bias, row, c));
        assert(whole_out.data@[there * out + c] == linear_at(whole, weight, bias, there, c));
        lemma_step_row(step, whole, weight, offset, a, t, c, step.dims@[2] as nat);
    }
}

/// Scoring is cutting queries and keys into heads, scaling both, multiplying head by head, and adding
/// what the mask adds: query `i` of a call is as far among the keys as the keys are more than the
/// queries, and the mask hides from it what it hides from that position.
pub proof fn law_scores_are_products_of_heads<E: Element>(
    r: Tensor<E>,
    q: Tensor<E>,
    k: Tensor<E>,
    mask: Option<&Tensor<bool>>,
    scale: E,
    hidden: E,
    n_head: usize,
    width: usize,
    heads: (Tensor<E>, Tensor<E>),
    scaled: (Tensor<E>, Tensor<E>),
    products: Tensor<E>,
)
    requires
        is_attention_scores(r, q, k, mask, scale, hidden, n_head),
        n_head > 0,
        q.dims@.len() == 3,
        k.dims@.len() == 3,
        n_head * width == q.dims@[2],
        k.dims@[0] == q.dims@[0],
        is_split(heads.0, q, n_head, width),
        is_split(heads.1, k, n_head, width),
        scaled.0.dims@ == heads.0.dims@,
        scaled.1.dims@ == heads.1.dims@,
        forall|p: int|
            0 <= p < heads.0.data@.len() ==> #[trigger] scaled.0.data@[p]
                == heads.0.data@[p].spec_times(scale),
        forall|p: int|
            0 <= p < heads.1.data@.len() ==> #[trigger] scaled.1.data@[p]
                == heads.1.data@[p].spec_times(scale),
        crate::models::products::is_scores(products, scaled.0, scaled.1),
    ensures
        r.dims@ == products.dims@,
        forall|a: int, g: int, i: int, j: int|
            0 <= a < q.dims@[0] && 0 <= g < n_head && 0 <= i < q.dims@[1] && 0 <= j < k.dims@[1]
                ==> #[trigger] r.at4(a, g, i, j) == match mask {
                Some(seen) => if seen.at2(k.dims@[1] - q.dims@[1] + i, j) {
                    products.at4(a, g, i, j).spec_plus(E::spec_zero())
                } else {
                    products.at4(a, g, i, j).spec_plus(hidden)
                },
                None => products.at4(a, g, i, j),
            },
{
    assert(head_width(q.dims@, n_head) == width) by {
        let (n, w) = (n_head as int, width as int);
        vstd::arithmetic::div_mod::lemma_div_multiples_vanish(w, n);
    }
    assert forall|a: int, g: int, i: int, j: int|
        0 <= a < q.dims@[0] && 0 <= g < n_head && 0 <= i < q.dims@[1] && 0 <= j
            < k.dims@[1] implies #[trigger] r.at4(a, g, i, j) == match mask {
        Some(seen) => if seen.at2(k.dims@[1] - q.dims@[1] + i, j) {
            products.at4(a, g, i, j).spec_plus(E::spec_zero())
        } else {
            products.at4(a, g, i, j).spec_plus(hidden)
        },
        None => products.at4(a, g, i, j),
    } by {
        lemma_head_sum(
            q,
            k,
            heads.0,
            heads.1,
            scaled.0,
            scaled.1,
            scale,
            n_head,
            width,
            a,
            g,
            i,
            j,
            width as nat,
        );
        assert(products.at4(a, g, i, j) == head_sum(
            q,
            k,
            scale,
            width as int,
            a,
            g,
            i,
            j,
            width as nat,
        ));
    }
}

/// Weighing is multiplying head by head, and putting the heads of a position side by side.
pub proof fn law_weighing_is_merging<E: Element>(
    r: Tensor<E>,
    w: Tensor<E>,
    v: Tensor<E>,
    weighted: Tensor<E>,
    merged: Tensor<E>,
)
    requires
        is_weighed(r, w, v),
        crate::models::products::is_weighted(weighted, w, v),
        crate::models::heads::is_merged(merged, weighted),
        w.dims@.len() == 4,
        v.dims@.len() == 4,
        w.dims@[1] * v.dims@[3] <= usize::MAX,
    ensures
        r.dims@ == merged.dims@,
        forall|a: int, t: int, c: int|
            0 <= a < r.dims@[0] && 0 <= t < r.dims@[1] && 0 <= c < r.dims@[2] ==> #[trigger] r.at3(
                a,
                t,
                c,
            ) == merged.at3(a, t, c),
{
    let (n, d) = (w.dims@[1] as int, v.dims@[3] as int);
    assert(0 <= n * d) by (nonlinear_arith)
        requires
            0 <= n,
            0 <= d,
    ;
    assert forall|a: int, t: int, c: int|
        0 <= a < r.dims@[0] && 0 <= t < r.dims@[1] && 0 <= c < r.dims@[2] implies #[trigger] r.at3(
        a,
        t,
        c,
    ) == merged.at3(a, t, c) by {
        assert(d > 0) by (nonlinear_arith)
            requires
                0 <= c < n * d,
                0 <= d,
                0 <= n,
        ;
        crate::arith::lemma_index_join(c, n, d);
        let (h, i) = (c / d, c % d);
        assert(weighted.at4(a, h, t, i) == merged.at3(a, t, h * d + i));
        assert(r.at3(a, t, h * d + i) == weighted_at(w, v, a, h, t, i));
    }
}

} // verus!
