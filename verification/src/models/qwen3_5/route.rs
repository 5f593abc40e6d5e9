//! Which experts a token is routed to.

use crate::error::{Error, Result};
use crate::models::qwen3_5::ffn::MoeWeights;
use crate::models::qwen3_5::routing::{ascending, ascending_order, before, indices};
use vstd::prelude::*;

verus! {

/// `chosen` are as many of the largest keys as it has places, the largest first: no key that is
/// left out is larger than a chosen one.
pub open spec fn largest(keys: Seq<u32>, chosen: Seq<u32>) -> bool {
    &&& forall|i: int| 0 <= i < chosen.len() ==> #[trigger] chosen[i] < keys.len()
    &&& forall|i: int, j: int|
        0 <= i < j < chosen.len() ==> {
            &&& #[trigger] chosen[i] != #[trigger] chosen[j]
            &&& keys[chosen[i] as int] >= keys[chosen[j] as int]
        }
    &&& forall|e: int, i: int|
        0 <= e < keys.len() && 0 <= i < chosen.len() && !chosen.contains(e as u32)
            ==> #[trigger] keys[e] <= keys[#[trigger] chosen[i] as int]
}

/// The part of `s` that is about row `t` of rows of `n`.
pub open spec fn row_of<T>(s: Seq<T>, n: int, t: int) -> Seq<T> {
    s.subrange(t * n, (t + 1) * n)
}

/// Each of `n_tokens` tokens is routed to `k` experts of the largest keys, with their weights.
pub open spec fn is_routing<W>(
    ids: Seq<u32>,
    weights: Seq<W>,
    keys: Seq<u32>,
    probs: Seq<W>,
    n_tokens: int,
    n_experts: int,
    k: int,
) -> bool {
    &&& ids.len() == n_tokens * k
    &&& weights.len() == n_tokens * k
    &&& forall|t: int|
        0 <= t < n_tokens ==> largest(row_of(keys, n_experts, t), #[trigger] row_of(ids, k, t))
    &&& forall|t: int, j: int|
        0 <= t < n_tokens && 0 <= j < k ==> row_of(weights, k, t)[j] == row_of(
            probs,
            n_experts,
            t,
        )[#[trigger] row_of(ids, k, t)[j] as int]
}

/// The last `k` of an ascending order, backwards, are the largest.
proof fn lemma_largest(keys: Seq<u32>, order: Seq<usize>, chosen: Seq<u32>)
    requires
        order.len() == keys.len(),
        keys.len() <= u32::MAX + 1,
        forall|i: int| 0 <= i < order.len() ==> #[trigger] order[i] < keys.len(),
        forall|s: int| 0 <= s < keys.len() ==> #[trigger] indices(order).contains(s),
        ascending(keys, indices(order)),
        chosen.len() <= keys.len(),
        forall|i: int| 0 <= i < chosen.len() ==> #[trigger] chosen[i] == order[keys.len() - 1 - i],
    ensures
        largest(keys, chosen),
{
    let n = keys.len() as int;
    let o = indices(order);
    assert forall|i: int| 0 <= i < chosen.len() implies #[trigger] chosen[i] < keys.len() by {
        assert(order[n - 1 - i] < keys.len());
    }
    assert forall|i: int, j: int| 0 <= i < j < chosen.len() implies {
        &&& #[trigger] chosen[i] != #[trigger] chosen[j]
        &&& keys[chosen[i] as int] >= keys[chosen[j] as int]
    } by {
        assert(before(keys, o[n - 1 - j], o[n - 1 - i]));
    }
    assert forall|e: int, i: int|
        0 <= e < keys.len() && 0 <= i < chosen.len() && !chosen.contains(e as u32) implies #[trigger] keys[e]
        <= keys[#[trigger] chosen[i] as int] by {
        assert(o.contains(e));
        let p = choose|p: int| 0 <= p < o.len() && o[p] == e;
        if p >= n - chosen.len() {
            assert(chosen[n - 1 - p] == order[p]);
            assert(chosen[n - 1 - p] == e as u32);
            assert(chosen.contains(e as u32));
        }
        assert(p < n - 1 - i);
        assert(before(keys, o[p], o[n - 1 - i]));
    }
}

/// Rows of `n` are within the rows of all tokens.
proof fn lemma_row_range(t: int, n_tokens: int, n: int)
    requires
        0 <= t < n_tokens,
        0 <= n,
    ensures
        0 <= t * n,
        (t + 1) * n == t * n + n,
        (t + 1) * n <= n_tokens * n,
{
    assert((t + 1) * n == t * n + n && (t + 1) * n <= n_tokens * n && 0 <= t * n)
        by (nonlinear_arith)
        requires
            0 <= t < n_tokens,
            0 <= n,
    ;
}

/// The `k` largest of the keys of each token, the largest first, and the weights that go with
/// them. Keys and weights are given for every expert, token by token. Which of two equal keys
/// is taken is left open.
pub fn top_experts<W: Copy>(
    keys: &[u32],
    probs: &[W],
    n_tokens: usize,
    n_experts: usize,
    k: usize,
) -> (r: Result<(Vec<u32>, Vec<W>)>)
    requires
        keys@.len() == n_tokens * n_experts,
        probs@.len() == n_tokens * n_experts,
        n_experts <= u32::MAX + 1,
    ensures
        if k > n_experts {
            r matches Err(e) && e.is_out_of_range(seq![n_tokens, n_experts], 1, 0, k)
        } else {
            r matches Ok(p) && is_routing(
                p.0@,
                p.1@,
                keys@,
                probs@,
                n_tokens as int,
                n_experts as int,
                k as int,
            )
        },
{
    if k > n_experts {
        let shape: Vec<usize> = vec![n_tokens, n_experts];
        assert(shape@ =~= seq![n_tokens, n_experts]);
        return Err(Error::NarrowInvalidArgs { shape, dim: 1, start: 0, len: k });
    }
    let total: usize = keys.len();
    let mut ids: Vec<u32> = Vec::new();
    let mut weights: Vec<W> = Vec::new();
    let mut t: usize = 0;
    while t < n_tokens
        invariant
            t <= n_tokens,
            k <= n_experts,
            n_experts <= u32::MAX + 1,
            total == keys@.len(),
            total == n_tokens * n_experts,
            probs@.len() == total,
            is_routing(ids@, weights@, keys@, probs@, t as int, n_experts as int, k as int),
        decreases n_tokens - t,
    {
        proof {
            lemma_row_range(t as int, n_tokens as int, n_experts as int);
        }
        let start: usize = t * n_experts;
        let part: &[u32] = vstd::slice::slice_subrange(keys, start, start + n_experts);
        let order: Vec<usize> = ascending_order(part);
        let ghost old_ids = ids@;
        let ghost old_weights = weights@;
        let ghost mut chosen: Seq<u32> = Seq::empty();
        let ghost mut given: Seq<W> = Seq::empty();
        let mut j: usize = 0;
        while j < k
            invariant
                j <= k <= n_experts,
                n_experts <= u32::MAX + 1,
                start + n_experts <= total,
                probs@.len() == total,
                order@.len() == n_experts,
                forall|i: int| 0 <= i < order@.len() ==> #[trigger] order@[i] < n_experts,
                ids@ == old_ids + chosen,
                weights@ == old_weights + given,
                chosen.len() == j,
                given.len() == j,
                forall|i: int|
                    0 <= i < j ==> #[trigger] chosen[i] == order@[n_experts - 1 - i],
                forall|i: int|
                    0 <= i < j ==> #[trigger] given[i] == probs@[start + chosen[i]],
            decreases k - j,
        {
            let e: usize = order[n_experts - 1 - j];
            assert(order@[n_experts - 1 - j] < n_experts);
            ids.push(e as u32);
            weights.push(probs[start + e]);
            proof {
                chosen = chosen.push(e as u32);
                given = given.push(probs@[start + e]);
                assert(ids@ =~= old_ids + chosen);
                assert(weights@ =~= old_weights + given);
            }
            j = j + 1;
        }
        proof {
            let keys_t = row_of(keys@, n_experts as int, t as int);
            assert(part@ =~= keys_t);
            lemma_largest(part@, order@, chosen);
            assert((t + 1) * k == t * k + k) by (nonlinear_arith);
            assert(row_of(ids@, k as int, t as int) =~= chosen);
            assert(row_of(weights@, k as int, t as int) =~= given);
            assert forall|u: int| 0 <= u < t implies #[trigger] row_of(ids@, k as int, u)
                == row_of(old_ids, k as int, u) && row_of(weights@, k as int, u) == row_of(
                old_weights,
                k as int,
                u,
            ) by {
                lemma_row_range(u, t as int, k as int);
                assert(row_of(ids@, k as int, u) =~= row_of(old_ids, k as int, u));
                assert(row_of(weights@, k as int, u) =~= row_of(old_weights, k as int, u));
            }
            assert forall|u: int| 0 <= u < t + 1 implies largest(
                row_of(keys@, n_experts as int, u),
                #[trigger] row_of(ids@, k as int, u),
            ) by {
                if u < t {
                    assert(largest(
                        row_of(keys@, n_experts as int, u),
                        row_of(old_ids, k as int, u),
                    ));
                }
            }
            assert forall|u: int, j: int| 0 <= u < t + 1 && 0 <= j < k implies row_of(
                weights@,
                k as int,
                u,
            )[j] == row_of(probs@, n_experts as int, u)[#[trigger] row_of(
                ids@,
                k as int,
                u,
            )[j] as int] by {
                if u < t {
                    assert(row_of(ids@, k as int, u) == row_of(old_ids, k as int, u));
                    assert(row_of(old_weights, k as int, u)[j] == row_of(
                        probs@,
                        n_experts as int,
                        u,
                    )[row_of(old_ids, k as int, u)[j] as int]);
                } else {
                    assert(chosen[j] < n_experts);
                    assert(given[j] == probs@[start + chosen[j]]);
                    assert(row_of(probs@, n_experts as int, u)[chosen[j] as int] == probs@[start
                        + chosen[j]]);
                }
            }
        }
        t = t + 1;
    }
    Ok((ids, weights))
}

impl MoeWeights {
    /// The experts that each token is routed to, the most probable first, and their
    /// probabilities. The keys are ordered as the probabilities are.
    pub fn route<W: Copy>(
        &self,
        keys: &[u32],
        probs: &[W],
        n_tokens: usize,
        n_experts: usize,
    ) -> (r: Result<(Vec<u32>, Vec<W>)>)
        requires
            keys@.len() == n_tokens * n_experts,
            probs@.len() == n_tokens * n_experts,
            n_experts <= u32::MAX + 1,
        ensures
            if self.num_experts_per_tok > n_experts {
                r matches Err(e) && e.is_out_of_range(
                    seq![n_tokens, n_experts],
                    1,
                    0,
                    self.num_experts_per_tok,
                )
            } else {
                r matches Ok(p) && is_routing(
                    p.0@,
                    p.1@,
                    keys@,
                    probs@,
                    n_tokens as int,
                    n_experts as int,
                    self.num_experts_per_tok as int,
                )
            },
    {
        top_experts(keys, probs, n_tokens, n_experts, self.num_experts_per_tok)
    }
}

/// A token's slots are routed to experts that the layer has, none of them twice.
pub proof fn law_experts_of_a_token_differ<W>(
    ids: Seq<u32>,
    weights: Seq<W>,
    keys: Seq<u32>,
    probs: Seq<W>,
    n_tokens: int,
    n_experts: int,
    k: int,
    t: int,
    i: int,
    j: int,
)
    requires
        is_routing(ids, weights, keys, probs, n_tokens, n_experts, k),
        keys.len() == n_tokens * n_experts,
        0 <= t < n_tokens,
        0 <= n_experts,
        0 <= i < j < k,
    ensures
        ids[t * k + i] < n_experts,
        ids[t * k + j] < n_experts,
        ids[t * k + i] != ids[t * k + j],
{
    lemma_row_range(t, n_tokens, k);
    lemma_row_range(t, n_tokens, n_experts);
    let row = row_of(ids, k, t);
    assert(row[i] == ids[t * k + i]);
    assert(row[j] == ids[t * k + j]);
    assert(largest(row_of(keys, n_experts, t), row));
}

} // verus!
