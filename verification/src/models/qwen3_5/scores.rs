//! The scores of full attention, and what follows from them for prompts that are cut up.

use crate::arith::span;
use crate::conv2d::lemma_at4_in_range;
use crate::error::{Refusal, Result};
use crate::models::heads::flat4;
use crate::models::products::{dot, flipped_dims, is_plane, masked, penalty, scaled, scores};
use crate::models::qwen3_5::attention::AttentionWeights;
use crate::models::qwen3_5::model::{is_mask, visible};
use crate::tensor::{Element, Tensor};
use vstd::prelude::*;

verus! {

/// A query times a key of the same head, scaled.
pub open spec fn score<E: Element>(
    q: Tensor<E>,
    k: Tensor<E>,
    scale: E,
    a: int,
    g: int,
    i: int,
    j: int,
) -> E {
    dot(
        q.data@,
        flat4(q.dims@, a, g, i, 0),
        k.data@,
        flat4(k.dims@, a, g, j, 0),
        1,
        q.dims@[3] as nat,
    ).spec_times(scale)
}

/// Every query times every key of the same head, scaled, with what a mask adds to each.
pub open spec fn is_full_scores<E: Element>(
    r: Tensor<E>,
    q: Tensor<E>,
    k: Tensor<E>,
    mask: Option<&Tensor<bool>>,
    scale: E,
    hidden: E,
) -> bool {
    let (b, h, n, m) = (q.dims@[0], q.dims@[1], q.dims@[2], k.dims@[2]);
    &&& r.wf()
    &&& r.dims@ == seq![b, h, n, m]
    &&& forall|a: int, g: int, i: int, j: int|
        0 <= a < b && 0 <= g < h && 0 <= i < n && 0 <= j < m ==> #[trigger] r.at4(a, g, i, j)
            == match mask {
            Some(seen) => score(q, k, scale, a, g, i, j).spec_plus(
                penalty(seen.data@[i * m + j], hidden),
            ),
            None => score(q, k, scale, a, g, i, j),
        }
}

/// Why there are no scores: heads that do not fit, or a mask of other extents.
pub open spec fn full_scores_refusal(
    q: Seq<usize>,
    k: Seq<usize>,
    mask: Option<&Tensor<bool>>,
) -> Option<Refusal> {
    if q[0] != k[0] || q[1] != k[1] || q[3] != k[3] {
        Some(Refusal::Shapes { left: q, right: flipped_dims(k), op: "matmul"@ })
    } else {
        match mask {
            Some(m) => if is_plane(m.dims@, q[2], k[2]) {
                None
            } else {
                Some(
                    Refusal::Shapes {
                        left: seq![q[0], q[1], q[2], k[2]],
                        right: m.dims@,
                        op: "broadcast_add"@,
                    },
                )
            },
            None => None,
        }
    }
}

impl<E: Element> AttentionWeights<E> {
    /// The scores of all queries against all keys, `[batch, heads, queries, keys]`. `hidden` is
    /// what the mask adds to a key that a query must not see.
    pub fn scores(
        &self,
        q: &Tensor<E>,
        k: &Tensor<E>,
        mask: Option<&Tensor<bool>>,
        scale: E,
        hidden: E,
    ) -> (r: Result<Tensor<E>>)
        requires
            q.wf(),
            k.wf(),
            q.dims@.len() == 4,
            k.dims@.len() == 4,
            mask matches Some(m) ==> m.wf(),
            span(seq![q.dims@[0], q.dims@[1], q.dims@[2], k.dims@[2]]) <= usize::MAX,
        ensures
            match full_scores_refusal(q.dims@, k.dims@, mask) {
                Some(why) => r matches Err(e) && why.is(e),
                None => r matches Ok(t) && is_full_scores(t, *q, *k, mask, scale, hidden),
            },
    {
        let raw: Tensor<E> = scores(q, k)?;
        let plain: Tensor<E> = scaled(&raw, scale);
        proof {
            let (b, h, n, m) = (q.dims@[0], q.dims@[1], q.dims@[2], k.dims@[2]);
            assert forall|a: int, g: int, i: int, j: int|
                0 <= a < b && 0 <= g < h && 0 <= i < n && 0 <= j < m implies #[trigger] plain.at4(
                a,
                g,
                i,
                j,
            ) == score(*q, *k, scale, a, g, i, j) by {
                lemma_at4_in_range(raw.dims@, raw.data@.len() as int, a, g, i, j);
                let p = flat4(raw.dims@, a, g, i, j);
                assert(plain.data@[p] == raw.data@[p].spec_times(scale));
                assert(raw.at4(a, g, i, j) == raw.data@[p]);
            }
        }
        match mask {
            Some(seen) => {
                let r: Tensor<E> = masked(&plain, seen, hidden)?;
                proof {
                    let (b, h, n, m) = (q.dims@[0], q.dims@[1], q.dims@[2], k.dims@[2]);
                    assert forall|a: int, g: int, i: int, j: int|
                        0 <= a < b && 0 <= g < h && 0 <= i < n && 0 <= j
                            < m implies #[trigger] r.at4(a, g, i, j) == score(
                        *q,
                        *k,
                        scale,
                        a,
                        g,
                        i,
                        j,
                    ).spec_plus(penalty(seen.data@[i * m + j], hidden)) by {
                        assert(plain.at4(a, g, i, j) == score(*q, *k, scale, a, g, i, j));
                    }
                }
                Ok(r)
            },
            None => Ok(plain),
        }
    }
}

/// Heads of positions of a sequence, from `offset` on.
pub open spec fn is_part<E>(part: Tensor<E>, whole: Tensor<E>, offset: int) -> bool {
    &&& part.dims@.len() == 4
    &&& whole.dims@.len() == 4
    &&& part.dims@[0] == whole.dims@[0]
    &&& part.dims@[1] == whole.dims@[1]
    &&& part.dims@[3] == whole.dims@[3]
    &&& offset + part.dims@[2] == whole.dims@[2]
    &&& forall|a: int, g: int, i: int, c: int|
        0 <= a < part.dims@[0] && 0 <= g < part.dims@[1] && 0 <= i < part.dims@[2] && 0 <= c
            < part.dims@[3] ==> #[trigger] part.at4(a, g, i, c) == whole.at4(a, g, offset + i, c)
}

/// Products of a query of a part are those of the sequence.
proof fn lemma_part_dot<E: Element>(
    part: Tensor<E>,
    whole: Tensor<E>,
    k: Tensor<E>,
    offset: int,
    a: int,
    g: int,
    i: int,
    j: int,
    n: nat,
)
    requires
        is_part(part, whole, offset),
        0 <= a < part.dims@[0],
        0 <= g < part.dims@[1],
        0 <= i < part.dims@[2],
        n <= part.dims@[3],
    ensures
        dot(
            part.data@,
            flat4(part.dims@, a, g, i, 0),
            k.data@,
            flat4(k.dims@, a, g, j, 0),
            1,
            n,
        ) == dot(
            whole.data@,
            flat4(whole.dims@, a, g, offset + i, 0),
            k.data@,
            flat4(k.dims@, a, g, j, 0),
            1,
            n,
        ),
    decreases n,
{
    if n > 0 {
        lemma_part_dot(part, whole, k, offset, a, g, i, j, (n - 1) as nat);
        assert(part.at4(a, g, i, n - 1) == whole.at4(a, g, offset + i, n - 1));
    }
}

/// What a mask says of a position and another.
proof fn lemma_mask_at(mask: Tensor<bool>, l: usize, offset: usize, i: int, j: int)
    requires
        is_mask(mask, 1, l, offset),
        l + offset <= usize::MAX,
        0 <= i < l,
        0 <= j < l + offset,
    ensures
        mask.data@[i * (l + offset) + j] == visible(i, j, offset as int),
{
    assert(mask.at4(0, 0, i, j) == visible(i, j, offset as int));
    assert(((0 * 1 + 0) * l + i) * (l + offset) + j == i * (l + offset) + j) by (nonlinear_arith);
}

/// The mask of a call on `l` positions after `offset` others: none where there is one position.
pub open spec fn is_call_mask(mask: Option<&Tensor<bool>>, l: usize, offset: usize) -> bool {
    match mask {
        Some(m) => l != 1 && is_mask(*m, 1, l, offset),
        None => l == 1,
    }
}

/// Prompts that are cut up: the last positions of a sequence, scored against the keys of all of
/// it, are scored as they are when the whole sequence is scored at once.
pub proof fn law_part_scores_as_the_sequence<E: Element>(
    in_part: Tensor<E>,
    at_once: Tensor<E>,
    part: Tensor<E>,
    whole: Tensor<E>,
    k: Tensor<E>,
    mask: Option<&Tensor<bool>>,
    full_mask: Option<&Tensor<bool>>,
    scale: E,
    hidden: E,
    offset: usize,
    a: int,
    g: int,
    i: int,
    j: int,
)
    requires
        is_part(part, whole, offset as int),
        k.dims@.len() == 4,
        k.dims@[2] == whole.dims@[2],
        is_call_mask(mask, part.dims@[2], offset),
        is_call_mask(full_mask, whole.dims@[2], 0),
        is_full_scores(in_part, part, k, mask, scale, hidden),
        is_full_scores(at_once, whole, k, full_mask, scale, hidden),
        0 <= a < part.dims@[0],
        0 <= g < part.dims@[1],
        0 <= i < part.dims@[2],
        0 <= j < k.dims@[2],
    ensures
        in_part.at4(a, g, i, j) == at_once.at4(a, g, offset + i, j),
{
    let (l, len) = (part.dims@[2], whole.dims@[2]);
    lemma_part_dot(part, whole, k, offset as int, a, g, i, j, part.dims@[3] as nat);
    let s = score(part, k, scale, a, g, i, j);
    assert(s == score(whole, k, scale, a, g, offset + i, j));
    s.zero_laws();
    assert(in_part.at4(a, g, i, j) == in_part.at4(a, g, i, j));
    assert(at_once.at4(a, g, offset + i, j) == at_once.at4(a, g, offset + i, j));
    if mask is Some {
        lemma_mask_at(*mask->Some_0, l, offset, i, j);
    }
    if full_mask is Some {
        lemma_mask_at(*full_mask->Some_0, len, 0, offset + i, j);
    }
}

/// The scores of full attention are the products of queries and keys, head by head, scaled once, with
/// what the mask adds where there is one.
pub proof fn law_full_scores_are_scaled_products<E: Element>(
    r: Tensor<E>,
    q: Tensor<E>,
    k: Tensor<E>,
    mask: Option<&Tensor<bool>>,
    scale: E,
    hidden: E,
    products: Tensor<E>,
)
    requires
        is_full_scores(r, q, k, mask, scale, hidden),
        crate::models::products::is_scores(products, q, k),
    ensures
        r.dims@ == products.dims@,
        forall|a: int, g: int, i: int, j: int|
            0 <= a < r.dims@[0] && 0 <= g < r.dims@[1] && 0 <= i < r.dims@[2] && 0 <= j < r.dims@[3]
                ==> #[trigger] r.at4(a, g, i, j) == match mask {
                Some(seen) => if seen.data@[i * r.dims@[3] + j] {
                    products.at4(a, g, i, j).spec_times(scale).spec_plus(E::spec_zero())
                } else {
                    products.at4(a, g, i, j).spec_times(scale).spec_plus(hidden)
                },
                None => products.at4(a, g, i, j).spec_times(scale),
            },
{
    assert forall|a: int, g: int, i: int, j: int|
        0 <= a < r.dims@[0] && 0 <= g < r.dims@[1] && 0 <= i < r.dims@[2] && 0 <= j
            < r.dims@[3] implies #[trigger] r.at4(a, g, i, j) == match mask {
        Some(seen) => if seen.data@[i * r.dims@[3] + j] {
            products.at4(a, g, i, j).spec_times(scale).spec_plus(E::spec_zero())
        } else {
            products.at4(a, g, i, j).spec_times(scale).spec_plus(hidden)
        },
        None => products.at4(a, g, i, j).spec_times(scale),
    } by {
        assert(products.at4(a, g, i, j).spec_times(scale) == score(q, k, scale, a, g, i, j));
    }
}

} // verus!
