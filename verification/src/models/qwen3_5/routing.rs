//! Which experts see which tokens, and in which order their terms are added up.

use vstd::prelude::*;

verus! {

/// The slots before `n` that are routed to expert `e`, in order.
pub open spec fn slots_of(ids: Seq<u32>, n: nat, e: int) -> Seq<int>
    decreases n,
{
    if n == 0 {
        Seq::empty()
    } else {
        let rest = slots_of(ids, (n - 1) as nat, e);
        if ids[n - 1] == e {
            rest.push(n - 1)
        } else {
            rest
        }
    }
}

/// The shorter of two lengths.
pub open spec fn zip_len(a: nat, b: nat) -> nat {
    if a <= b {
        a
    } else {
        b
    }
}

/// Groups the slots by expert: the tokens that each expert sees, and with which weights. Slot
/// `s` belongs to token `s / k`.
pub fn group_by_expert<W: Copy>(
    ids: &[u32],
    weights: &[W],
    n_experts: usize,
    k: usize,
) -> (r: (Vec<Vec<u32>>, Vec<Vec<W>>))
    requires
        zip_len(ids@.len(), weights@.len()) > 0 ==> k > 0,
        forall|s: int| 0 <= s < zip_len(ids@.len(), weights@.len()) ==> ids@[s] < n_experts,
    ensures
        r.0@.len() == n_experts,
        r.1@.len() == n_experts,
        forall|e: int|
            0 <= e < n_experts ==> (#[trigger] r.0@[e])@ == slots_of(
                ids@,
                zip_len(ids@.len(), weights@.len()),
                e,
            ).map_values(|s: int| (s / k as int) as u32),
        forall|e: int|
            0 <= e < n_experts ==> (#[trigger] r.1@[e])@ == slots_of(
                ids@,
                zip_len(ids@.len(), weights@.len()),
                e,
            ).map_values(|s: int| weights@[s]),
{
    let n: usize = if ids.len() <= weights.len() {
        ids.len()
    } else {
        weights.len()
    };
    let ghost token = |s: int| (s / k as int) as u32;
    let ghost weight = |s: int| weights@[s];
    let mut rows: Vec<Vec<u32>> = Vec::with_capacity(n_experts);
    let mut coefs: Vec<Vec<W>> = Vec::with_capacity(n_experts);
    let mut e: usize = 0;
    while e < n_experts
        invariant
            e <= n_experts,
            rows@.len() == e,
            coefs@.len() == e,
            forall|i: int| 0 <= i < e ==> (#[trigger] rows@[i])@ == Seq::<u32>::empty(),
            forall|i: int| 0 <= i < e ==> (#[trigger] coefs@[i])@ == Seq::<W>::empty(),
        decreases n_experts - e,
    {
        rows.push(Vec::new());
        coefs.push(Vec::new());
        e = e + 1;
    }
    proof {
        assert forall|i: int| 0 <= i < n_experts implies (#[trigger] rows@[i])@ == slots_of(
            ids@,
            0,
            i,
        ).map_values(token) by {
            assert(slots_of(ids@, 0, i).map_values(token) =~= Seq::empty());
        }
        assert forall|i: int| 0 <= i < n_experts implies (#[trigger] coefs@[i])@ == slots_of(
            ids@,
            0,
            i,
        ).map_values(weight) by {
            assert(slots_of(ids@, 0, i).map_values(weight) =~= Seq::empty());
        }
    }
    let mut slot: usize = 0;
    while slot < n
        invariant
            slot <= n,
            n <= ids@.len(),
            n <= weights@.len(),
            n > 0 ==> k > 0,
            token == (|s: int| (s / k as int) as u32),
            weight == (|s: int| weights@[s]),
            forall|s: int| 0 <= s < n ==> ids@[s] < n_experts,
            rows@.len() == n_experts,
            coefs@.len() == n_experts,
            forall|i: int|
                0 <= i < n_experts ==> (#[trigger] rows@[i])@ == slots_of(
                    ids@,
                    slot as nat,
                    i,
                ).map_values(token),
            forall|i: int|
                0 <= i < n_experts ==> (#[trigger] coefs@[i])@ == slots_of(
                    ids@,
                    slot as nat,
                    i,
                ).map_values(weight),
        decreases n - slot,
    {
        let e: usize = ids[slot] as usize;
        let ghost rows0 = rows@;
        let ghost coefs0 = coefs@;
        rows[e].push((slot / k) as u32);
        coefs[e].push(weights[slot]);
        proof {
            let next = (slot + 1) as nat;
            assert forall|i: int| 0 <= i < n_experts implies (#[trigger] rows@[i])@ == slots_of(
                ids@,
                next,
                i,
            ).map_values(token) by {
                let before = slots_of(ids@, slot as nat, i);
                assert(rows0[i]@ == before.map_values(token));
                if i == e {
                    assert(before.push(slot as int).map_values(token) =~= before.map_values(
                        token,
                    ).push(token(slot as int)));
                }
            }
            assert forall|i: int| 0 <= i < n_experts implies (#[trigger] coefs@[i])@ == slots_of(
                ids@,
                next,
                i,
            ).map_values(weight) by {
                let before = slots_of(ids@, slot as nat, i);
                assert(coefs0[i]@ == before.map_values(weight));
                if i == e {
                    assert(before.push(slot as int).map_values(weight) =~= before.map_values(
                        weight,
                    ).push(weight(slot as int)));
                }
            }
        }
        slot = slot + 1;
    }
    (rows, coefs)
}

/// Slot `a` comes before slot `b`: it has the smaller expert, or the same one and is earlier.
pub open spec fn before(ids: Seq<u32>, a: int, b: int) -> bool {
    ids[a] < ids[b] || (ids[a] == ids[b] && a < b)
}

/// Slots in ascending order of their experts, each slot before those that it comes before.
pub open spec fn ascending(ids: Seq<u32>, order: Seq<int>) -> bool {
    forall|i: int, j: int| 0 <= i < j < order.len() ==> before(ids, order[i], order[j])
}

/// Indices as numbers.
pub open spec fn indices(s: Seq<usize>) -> Seq<int> {
    s.map_values(|x: usize| x as int)
}

/// The slots of one token in ascending order of their experts.
pub fn ascending_order(ids: &[u32]) -> (r: Vec<usize>)
    ensures
        r@.len() == ids@.len(),
        forall|i: int| 0 <= i < r@.len() ==> #[trigger] r@[i] < ids@.len(),
        forall|s: int| 0 <= s < ids@.len() ==> #[trigger] indices(r@).contains(s),
        ascending(ids@, indices(r@)),
{
    let mut order: Vec<usize> = Vec::with_capacity(ids.len());
    let mut s: usize = 0;
    while s < ids.len()
        invariant
            s <= ids@.len(),
            order@.len() == s,
            forall|i: int| 0 <= i < s ==> #[trigger] order@[i] < s,
            forall|t: int| 0 <= t < s ==> #[trigger] indices(order@).contains(t),
            ascending(ids@, indices(order@)),
        decreases ids@.len() - s,
    {
        let mut p: usize = 0;
        while p < order.len() && ids[order[p]] <= ids[s]
            invariant
                p <= order@.len(),
                s < ids@.len(),
                order@.len() == s,
                forall|i: int| 0 <= i < s ==> #[trigger] order@[i] < s,
                forall|i: int| 0 <= i < p ==> ids@[#[trigger] order@[i] as int] <= ids@[s as int],
            decreases order@.len() - p,
        {
            p = p + 1;
        }
        let ghost old_order = order@;
        let ghost old_ints = indices(order@);
        order.insert(p, s);
        proof {
            let ints = indices(order@);
            assert(ints =~= old_ints.insert(p as int, s as int));
            assert forall|t: int| 0 <= t < s + 1 implies ints.contains(t) by {
                if t == s {
                    assert(ints[p as int] == t);
                } else {
                    assert(old_ints.contains(t));
                    let i = choose|i: int| 0 <= i < old_ints.len() && old_ints[i] == t;
                    if i < p {
                        assert(ints[i] == t);
                    } else {
                        assert(ints[i + 1] == t);
                    }
                }
            }
            assert forall|i: int, j: int| 0 <= i < j < ints.len() implies before(
                ids@,
                ints[i],
                ints[j],
            ) by {
                let i0 = if i < p {
                    i
                } else {
                    i - 1
                };
                let j0 = if j < p {
                    j
                } else {
                    j - 1
                };
                if i != p && j != p {
                    assert(before(ids@, old_ints[i0], old_ints[j0]));
                } else if j == p {
                    assert(ids@[old_order[i] as int] <= ids@[s as int]);
                    assert(old_order[i] < s);
                } else {
                    assert(ids@[old_order[p as int] as int] > ids@[s as int]);
                    if j0 > p {
                        assert(before(ids@, old_ints[p as int], old_ints[j0]));
                    }
                }
            }
        }
        s = s + 1;
    }
    order
}

/// The slots before `n` of token `t` that are routed to expert `e`, in order.
pub open spec fn token_slots(ids: Seq<u32>, n: nat, e: int, k: int, t: int) -> Seq<int>
    decreases n,
{
    if n == 0 {
        Seq::empty()
    } else {
        let rest = token_slots(ids, (n - 1) as nat, e, k, t);
        if ids[n - 1] == e && (n - 1) / k == t {
            rest.push(n - 1)
        } else {
            rest
        }
    }
}

/// The slots whose terms are added to token `t` when the experts before `e` are walked in
/// ascending order, in the order in which they are added.
pub open spec fn loop_terms(ids: Seq<u32>, k: int, t: int, e: nat) -> Seq<int>
    decreases e,
{
    if e == 0 {
        Seq::empty()
    } else {
        loop_terms(ids, k, t, (e - 1) as nat) + token_slots(ids, ids.len(), e - 1, k, t)
    }
}

/// The terms that an expert adds to a token are those of the token among the slots that are
/// grouped under the expert.
pub proof fn law_terms_are_the_grouped_slots(ids: Seq<u32>, n: nat, e: int, k: int, t: int)
    requires
        n <= ids.len(),
    ensures
        token_slots(ids, n, e, k, t) == slots_of(ids, n, e).filter(|s: int| s / k == t),
    decreases n,
{
    let pred = |s: int| s / k == t;
    reveal(Seq::filter);
    if n > 0 {
        law_terms_are_the_grouped_slots(ids, (n - 1) as nat, e, k, t);
        let rest = slots_of(ids, (n - 1) as nat, e);
        if ids[n - 1] == e {
            assert(rest.push(n - 1).drop_last() =~= rest);
        }
    }
}

/// The slots of a token and an expert: which they are, and that they are in order.
proof fn lemma_token_slots(ids: Seq<u32>, n: nat, e: int, k: int, t: int)
    requires
        n <= ids.len(),
    ensures
        forall|s: int|
            #[trigger] token_slots(ids, n, e, k, t).contains(s) <==> 0 <= s < n && ids[s] == e && s
                / k == t,
        forall|i: int, j: int|
            0 <= i < j < token_slots(ids, n, e, k, t).len() ==> token_slots(ids, n, e, k, t)[i]
                < token_slots(ids, n, e, k, t)[j],
    decreases n,
{
    if n > 0 {
        let rest = token_slots(ids, (n - 1) as nat, e, k, t);
        lemma_token_slots(ids, (n - 1) as nat, e, k, t);
        let all = token_slots(ids, n, e, k, t);
        assert forall|s: int| #[trigger] all.contains(s) <==> 0 <= s < n && ids[s] == e && s / k
            == t by {
            if all.contains(s) {
                let i = choose|i: int| 0 <= i < all.len() && all[i] == s;
                if i < rest.len() {
                    assert(rest[i] == s);
                    assert(rest.contains(s));
                }
            }
            if 0 <= s < n && ids[s] == e && s / k == t {
                if s == n - 1 {
                    assert(all[all.len() - 1] == s);
                } else {
                    assert(rest.contains(s));
                    let i = choose|i: int| 0 <= i < rest.len() && rest[i] == s;
                    assert(all[i] == s);
                }
            }
        }
        assert forall|i: int, j: int| 0 <= i < j < all.len() implies all[i] < all[j] by {
            if j == rest.len() {
                assert(rest.contains(rest[i]));
            }
        }
    }
}

/// The members of two sequences, one behind the other.
proof fn lemma_contains_concat(a: Seq<int>, b: Seq<int>, s: int)
    ensures
        (a + b).contains(s) <==> a.contains(s) || b.contains(s),
{
    let all = a + b;
    if all.contains(s) {
        let i = choose|i: int| 0 <= i < all.len() && all[i] == s;
        if i < a.len() {
            assert(a[i] == s);
        } else {
            assert(b[i - a.len()] == s);
        }
    }
    if a.contains(s) {
        let i = choose|i: int| 0 <= i < a.len() && a[i] == s;
        assert(all[i] == s);
    }
    if b.contains(s) {
        let i = choose|i: int| 0 <= i < b.len() && b[i] == s;
        assert(all[a.len() + i] == s);
    }
}

/// The terms of a token are its slots.
proof fn lemma_loop_terms_members(ids: Seq<u32>, k: int, t: int, e: nat, s: int)
    ensures
        loop_terms(ids, k, t, e).contains(s) <==> 0 <= s < ids.len() && ids[s] < e && s / k == t,
    decreases e,
{
    if e > 0 {
        let rest = loop_terms(ids, k, t, (e - 1) as nat);
        let new = token_slots(ids, ids.len(), e - 1, k, t);
        lemma_loop_terms_members(ids, k, t, (e - 1) as nat, s);
        lemma_token_slots(ids, ids.len(), e - 1, k, t);
        assert(new.contains(s) <==> 0 <= s < ids.len() && ids[s] == e - 1 && s / k == t);
        lemma_contains_concat(rest, new, s);
    }
}

/// The terms of a token ascend.
proof fn lemma_loop_terms_ascend(ids: Seq<u32>, k: int, t: int, e: nat)
    ensures
        ascending(ids, loop_terms(ids, k, t, e)),
    decreases e,
{
    if e > 0 {
        let rest = loop_terms(ids, k, t, (e - 1) as nat);
        let new = token_slots(ids, ids.len(), e - 1, k, t);
        let all = loop_terms(ids, k, t, e);
        lemma_loop_terms_ascend(ids, k, t, (e - 1) as nat);
        lemma_token_slots(ids, ids.len(), e - 1, k, t);
        assert forall|i: int, j: int| 0 <= i < j < all.len() implies before(
            ids,
            all[i],
            all[j],
        ) by {
            let m = rest.len();
            if j < m {
                assert(before(ids, rest[i], rest[j]));
            } else if i >= m {
                assert(new.contains(new[i - m]));
                assert(new.contains(new[j - m]));
                assert(new[i - m] < new[j - m]);
            } else {
                lemma_loop_terms_members(ids, k, t, (e - 1) as nat, rest[i]);
                assert(rest.contains(rest[i]));
                assert(new.contains(new[j - m]));
            }
        }
    }
}

/// Two ascending orders of the same slots are the same.
proof fn lemma_ascending_unique(ids: Seq<u32>, a: Seq<int>, b: Seq<int>)
    requires
        ascending(ids, a),
        ascending(ids, b),
        forall|s: int| #[trigger] a.contains(s) <==> b.contains(s),
    ensures
        a == b,
    decreases a.len(),
{
    if a.len() == 0 {
        if b.len() > 0 {
            assert(b.contains(b[0]));
            assert(a.contains(b[0]));
        }
        assert(a =~= b);
    } else {
        let x = a.last();
        assert(a.contains(x));
        assert(b.contains(x));
        let y = b.last();
        assert(b.contains(y));
        assert(a.contains(y));
        assert(x == y) by {
            let i = choose|i: int| 0 <= i < b.len() && b[i] == x;
            let j = choose|j: int| 0 <= j < a.len() && a[j] == y;
            if i < b.len() - 1 && j < a.len() - 1 {
                assert(before(ids, b[i], b[b.len() - 1]));
                assert(before(ids, a[j], a[a.len() - 1]));
            }
        }
        let (a1, b1) = (a.drop_last(), b.drop_last());
        assert forall|s: int| #[trigger] a1.contains(s) <==> b1.contains(s) by {
            if a1.contains(s) {
                let i = choose|i: int| 0 <= i < a1.len() && a1[i] == s;
                assert(before(ids, a[i], a[a.len() - 1]));
                assert(a[i] == s);
                assert(a.contains(s));
                assert(b.contains(s));
                let j = choose|j: int| 0 <= j < b.len() && b[j] == s;
                assert(j < b1.len());
                assert(b1[j] == s);
            }
            if b1.contains(s) {
                let i = choose|i: int| 0 <= i < b1.len() && b1[i] == s;
                assert(before(ids, b[i], b[b.len() - 1]));
                assert(b[i] == s);
                assert(b.contains(s));
                assert(a.contains(s));
                let j = choose|j: int| 0 <= j < a.len() && a[j] == s;
                assert(j < a1.len());
                assert(a1[j] == s);
            }
        }
        assert(ascending(ids, a1)) by {
            assert forall|i: int, j: int| 0 <= i < j < a1.len() implies before(
                ids,
                a1[i],
                a1[j],
            ) by {
                assert(before(ids, a[i], a[j]));
            }
        }
        assert(ascending(ids, b1)) by {
            assert forall|i: int, j: int| 0 <= i < j < b1.len() implies before(
                ids,
                b1[i],
                b1[j],
            ) by {
                assert(before(ids, b[i], b[j]));
            }
        }
        lemma_ascending_unique(ids, a1, b1);
        assert(a =~= a1.push(x));
        assert(b =~= b1.push(y));
    }
}

/// Both ways to evaluate the experts add the terms of a token in the same order: walking the
/// experts upwards, and sorting the token's slots by expert. Sums of floats depend on it.
pub proof fn law_same_order_of_terms(
    ids: Seq<u32>,
    k: int,
    t: int,
    n_experts: nat,
    order: Seq<int>,
)
    requires
        k > 0,
        0 <= t,
        (t + 1) * k <= ids.len(),
        forall|s: int| 0 <= s < ids.len() ==> ids[s] < n_experts,
        order.len() == k,
        forall|i: int| 0 <= i < k ==> 0 <= #[trigger] order[i] < k,
        forall|s: int| 0 <= s < k ==> order.contains(s),
        ascending(ids.subrange(t * k, (t + 1) * k), order),
    ensures
        loop_terms(ids, k, t, n_experts) == order.map_values(|s: int| t * k + s),
{
    let part = ids.subrange(t * k, (t + 1) * k);
    let global = |s: int| t * k + s;
    let mapped = order.map_values(global);
    let terms = loop_terms(ids, k, t, n_experts);
    lemma_loop_terms_ascend(ids, k, t, n_experts);
    assert(t * k >= 0) by (nonlinear_arith)
        requires
            t >= 0,
            k > 0,
    ;
    assert((t + 1) * k == t * k + k) by (nonlinear_arith);
    assert forall|s: int| #[trigger] terms.contains(s) <==> mapped.contains(s) by {
        lemma_loop_terms_members(ids, k, t, n_experts, s);
        if mapped.contains(s) {
            let i = choose|i: int| 0 <= i < mapped.len() && mapped[i] == s;
            crate::arith::lemma_index_split(t, order[i], k);
            assert(s == t * k + order[i]);
        }
        if terms.contains(s) {
            vstd::arithmetic::div_mod::lemma_fundamental_div_mod(s, k);
            vstd::arithmetic::div_mod::lemma_mod_bound(s, k);
            assert(k * t == t * k) by (nonlinear_arith);
            let local = s - t * k;
            assert(order.contains(local));
            let i = choose|i: int| 0 <= i < order.len() && order[i] == local;
            assert(mapped[i] == s);
        }
    }
    assert(ascending(ids, mapped)) by {
        assert forall|i: int, j: int| 0 <= i < j < mapped.len() implies before(
            ids,
            mapped[i],
            mapped[j],
        ) by {
            assert(before(part, order[i], order[j]));
            assert(part[order[i]] == ids[t * k + order[i]]);
            assert(part[order[j]] == ids[t * k + order[j]]);
        }
    }
    lemma_ascending_unique(ids, terms, mapped);
}

} // verus!
