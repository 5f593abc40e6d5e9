//! A prompt that comes in parts: what a gated delta network makes of it, for any recurrence.

use crate::conv::lemma_at3_in_range;
use crate::dtype::DType;
use crate::models::qwen3_5::delta::{
    is_columns_of, is_heads, is_history, is_step, law_split_prefill, GatedDeltaNetWeights,
};
use crate::models::state::{grow_refusal, maybe, State};
use crate::tensor::{split_index, Element, Tensor};
use vstd::prelude::*;

verus! {

/// What the recurrence sees of one position: the heads of queries, keys and values of all entries
/// of the batch, and what else was projected there.
pub ghost struct Position<E> {
    pub queries: Seq<E>,
    pub keys: Seq<E>,
    pub values: Seq<E>,
    pub rest: Seq<E>,
}

/// The arithmetic of a gated delta network that is left to floats.
#[verifier::reject_recursive_types(E)]
pub ghost struct DeltaFloats<E> {
    /// The columns that a position is projected to, and what else it is.
    pub columns: spec_fn(Seq<E>) -> Seq<E>,
    pub rest: spec_fn(Seq<E>) -> Seq<E>,
    /// What is applied to each element that comes out of the convolution.
    pub activation: spec_fn(E) -> E,
    /// The recurrence: from a state and positions to an output for each of them and the state
    /// behind the last.
    pub scan: spec_fn(Seq<E>, Seq<Position<E>>) -> (Seq<Seq<E>>, Seq<E>),
    /// What is made of the recurrence's output at a position.
    pub finish: spec_fn(Seq<E>, Seq<E>) -> Seq<E>,
    /// The type of the recurrent state.
    pub state_dtype: DType,
}

/// A recurrence comes to the same when it is interrupted between `ps` and `qs`, and goes on from
/// its state there.
pub open spec fn composes_at<E>(
    scan: spec_fn(Seq<E>, Seq<Position<E>>) -> (Seq<Seq<E>>, Seq<E>),
    state: Seq<E>,
    ps: Seq<Position<E>>,
    qs: Seq<Position<E>>,
) -> bool {
    let one = scan(state, ps);
    let two = scan(one.1, qs);
    &&& one.0.len() == ps.len()
    &&& two.0.len() == qs.len()
    &&& scan(state, ps + qs) == (one.0 + two.0, two.1)
}

/// A recurrence that takes `size` positions at a time, and what is left in the end.
pub open spec fn chunked<E>(
    chunk: spec_fn(Seq<E>, Seq<Position<E>>) -> (Seq<Seq<E>>, Seq<E>),
    size: nat,
    state: Seq<E>,
    ps: Seq<Position<E>>,
) -> (Seq<Seq<E>>, Seq<E>)
    decreases ps.len(),
{
    if ps.len() <= size || size == 0 {
        if ps.len() == 0 {
            (Seq::empty(), state)
        } else {
            chunk(state, ps)
        }
    } else {
        let first = chunk(state, ps.take(size as int));
        let rest = chunked(chunk, size, first.1, ps.skip(size as int));
        (first.0 + rest.0, rest.1)
    }
}

/// A recurrence that works in chunks has one output for each position.
proof fn lemma_chunked_outputs<E>(
    chunk: spec_fn(Seq<E>, Seq<Position<E>>) -> (Seq<Seq<E>>, Seq<E>),
    size: nat,
    state: Seq<E>,
    ps: Seq<Position<E>>,
)
    requires
        forall|s: Seq<E>, qs: Seq<Position<E>>| (#[trigger] chunk(s, qs)).0.len() == qs.len(),
    ensures
        chunked(chunk, size, state, ps).0.len() == ps.len(),
    decreases ps.len(),
{
    if ps.len() > size && size > 0 {
        let first = chunk(state, ps.take(size as int));
        lemma_chunked_outputs(chunk, size, first.1, ps.skip(size as int));
    }
}

/// A recurrence that works in chunks comes to the same when it is interrupted between two chunks,
/// and goes on from its state there.
pub proof fn law_chunks_compose<E>(
    chunk: spec_fn(Seq<E>, Seq<Position<E>>) -> (Seq<Seq<E>>, Seq<E>),
    size: nat,
    state: Seq<E>,
    ps: Seq<Position<E>>,
    qs: Seq<Position<E>>,
)
    requires
        size > 0,
        ps.len() % size == 0,
    ensures
        ({
            let one = chunked(chunk, size, state, ps);
            let two = chunked(chunk, size, one.1, qs);
            chunked(chunk, size, state, ps + qs) == (one.0 + two.0, two.1)
        }),
    decreases ps.len(),
{
    let one = chunked(chunk, size, state, ps);
    let two = chunked(chunk, size, one.1, qs);
    let n = size as int;
    if ps.len() == 0 {
        assert(ps + qs =~= qs);
        assert(one.0 + two.0 =~= two.0);
    } else {
        assert(ps.len() >= size) by {
            if ps.len() < size {
                vstd::arithmetic::div_mod::lemma_small_mod(ps.len(), size);
            }
        }
        let first = chunk(state, ps.take(n));
        let left = ps.skip(n);
        vstd::arithmetic::div_mod::lemma_mod_sub_multiples_vanish(ps.len() as int, n);
        law_chunks_compose(chunk, size, first.1, left, qs);
        let rest = chunked(chunk, size, first.1, left);
        assert(one == (first.0 + rest.0, rest.1)) by {
            if ps.len() == size {
                assert(ps.take(n) =~= ps);
                assert(first.0 + rest.0 =~= first.0);
            }
        }
        assert((ps + qs).take(n) =~= ps.take(n));
        assert((ps + qs).skip(n) =~= left + qs);
        assert((first.0 + rest.0) + two.0 =~= first.0 + (rest.0 + two.0));
        if (ps + qs).len() == size {
            assert(qs =~= Seq::empty());
            assert(ps + qs =~= ps);
            assert(one.0 + two.0 =~= one.0);
        }
    }
}

/// The elements of `[batch, length, heads, width]` at position `t`.
pub open spec fn frame<E>(r: Tensor<E>, t: int) -> Seq<E> {
    let (b, n, d) = (r.dims@[0], r.dims@[2], r.dims@[3]);
    Seq::new(
        (b * (n * d)) as nat,
        |p: int|
            {
                let (a, h, i) = split_index(p, n as int, d as int);
                r.at4(a, t, h, i)
            },
    )
}

/// The elements of `[batch, channels, length]` at position `t`.
pub open spec fn column<E>(x: Tensor<E>, t: int) -> Seq<E> {
    let (b, n) = (x.dims@[0], x.dims@[1]);
    Seq::new((b * n) as nat, |p: int| x.at3(p / n as int, p % n as int, t))
}

/// The positions that the recurrence sees.
pub open spec fn positions<E>(
    heads: (Tensor<E>, Tensor<E>, Tensor<E>),
    rest: Seq<Seq<E>>,
) -> Seq<Position<E>> {
    Seq::new(
        rest.len(),
        |t: int|
            Position {
                queries: frame(heads.0, t),
                keys: frame(heads.1, t),
                values: frame(heads.2, t),
                rest: rest[t],
            },
    )
}

/// One call of a gated delta network, step by step.
pub ghost struct DeltaCall<E> {
    /// What goes in at each position, for all entries of the batch.
    pub hidden: Seq<Seq<E>>,
    /// The projected columns, `[batch, channels, length]`.
    pub columns: State<E>,
    /// What else was projected at each position.
    pub rest: Seq<Seq<E>>,
    /// The columns before.
    pub history: State<E>,
    /// Both, one behind the other.
    pub window: State<E>,
    /// What the convolution makes of them.
    pub convolved: Tensor<E>,
    pub activated: Tensor<E>,
    /// The queries, keys and values.
    pub heads: (Tensor<E>, Tensor<E>, Tensor<E>),
    /// The recurrent state that the call goes on from.
    pub state: Tensor<E>,
    pub outputs: Seq<Seq<E>>,
}

/// A call on a layer `before` leaves it as `after`: `convolve`, `heads`, `initial_state` and `carry`
/// one after the other, with the arithmetic `f` between them.
pub open spec fn is_delta_call<E: Element>(
    call: DeltaCall<E>,
    before: GatedDeltaNetWeights<E>,
    after: GatedDeltaNetWeights<E>,
    weight: Tensor<E>,
    f: DeltaFloats<E>,
) -> bool {
    let (conv_dim, pad) = (before.conv_dim, before.conv_kernel_size - 1);
    let (b, l) = (call.columns.tensor.dims@[0], call.columns.tensor.dims@[2]);
    let (y, new_state) = (f.scan)(call.state.data@, positions(call.heads, call.rest));
    &&& after.bare() == before.bare()
    &&& call.columns.tensor.dims@.len() == 3
    &&& is_history(call.history, before.conv_state, call.columns, conv_dim, pad)
    &&& grow_refusal(Some(call.history), call.columns, 2) is None
    &&& is_step(
        Ok(call.convolved),
        after.conv_state,
        call.history,
        call.columns,
        weight,
        conv_dim,
        pad,
        call.window,
    )
    &&& is_activated(call.activated, call.convolved, f.activation)
    &&& before.heads_refusal(call.activated.dims@) is None
    &&& before.are_heads(call.activated, call.heads)
    &&& before.is_initial_state(
        call.state,
        b,
        before.num_v_heads,
        before.head_k_dim,
        before.head_v_dim,
    )
    &&& call.hidden.len() == l
    &&& forall|t: int|
        0 <= t < l ==> #[trigger] column(call.columns.tensor, t) == (f.columns)(call.hidden[t])
    &&& call.rest == Seq::new(l as nat, |t: int| (f.rest)(call.hidden[t]))
    &&& after.recurrent_state matches Some(s) && s@ == (crate::models::state::StateView {
        dtype: f.state_dtype,
        dims: call.state.dims@,
        data: new_state,
    })
    &&& call.outputs == Seq::new(l as nat, |t: int| (f.finish)(y[t], call.rest[t]))
}

/// `r` holds the elements of `x`, with a function applied to each.
pub open spec fn is_activated<E>(r: Tensor<E>, x: Tensor<E>, activation: spec_fn(E) -> E) -> bool {
    &&& r.wf()
    &&& r.dims@ == x.dims@
    &&& forall|p: int| 0 <= p < r.data@.len() ==> #[trigger] r.data@[p] == activation(x.data@[p])
}

/// Heads of columns that are those of one call up to a position, and those of another from there
/// on, are the heads of the two.
proof fn lemma_split_heads<E>(
    r: Tensor<E>,
    ra: Tensor<E>,
    rb: Tensor<E>,
    x: Tensor<E>,
    a: Tensor<E>,
    b: Tensor<E>,
    start: int,
    n: int,
    d: int,
    of: int,
    t: int,
)
    requires
        x.dims@.len() == 3 && a.dims@.len() == 3 && b.dims@.len() == 3,
        a.dims@[0] == x.dims@[0] && b.dims@[0] == x.dims@[0],
        x.dims@[2] == a.dims@[2] + b.dims@[2],
        is_heads(r, x, start, n, d, of),
        is_heads(ra, a, start, n, d, of),
        is_heads(rb, b, start, n, d, of),
        0 <= n <= usize::MAX,
        0 < d <= usize::MAX,
        0 < of || n == 0,
        0 <= start,
        start + of * d <= x.dims@[1],
        0 <= t < x.dims@[2],
        forall|i: int, c: int, o: int|
            0 <= i < x.dims@[0] && 0 <= c < x.dims@[1] && 0 <= o < x.dims@[2]
                ==> #[trigger] x.at3(i, c, o) == if o < a.dims@[2] {
                a.at3(i, c, o)
            } else {
                b.at3(i, c, o - a.dims@[2])
            },
    ensures
        frame(r, t) == if t < a.dims@[2] {
            frame(ra, t)
        } else {
            frame(rb, t - a.dims@[2])
        },
{
    let want = if t < a.dims@[2] {
        frame(ra, t)
    } else {
        frame(rb, t - a.dims@[2])
    };
    let n0 = x.dims@[0] as int;
    assert forall|p: int| 0 <= p < n0 * (n * d) implies #[trigger] frame(r, t)[p] == want[p] by {
        crate::tensor::lemma_join_index(p, n0, n, d);
        let (e, h, i) = split_index(p, n, d);
        vstd::arithmetic::div_mod::lemma_mod_bound(h, of);
        crate::arith::lemma_index_bound(h % of, i, of, d);
        let c = start + (h % of) * d + i;
        assert(r.at4(e, t, h, i) == x.at3(e, c, t));
        if t < a.dims@[2] {
            assert(ra.at4(e, t, h, i) == a.at3(e, c, t));
        } else {
            assert(rb.at4(e, t - a.dims@[2], h, i) == b.at3(e, c, t - a.dims@[2]));
        }
    }
    assert(frame(r, t) =~= want);
}

/// The columns before two calls on the same layer are the same.
proof fn lemma_same_history<E: Element>(
    h: State<E>,
    g: State<E>,
    carried: Option<State<E>>,
    x: State<E>,
    y: State<E>,
    conv_dim: usize,
    pad: int,
)
    requires
        is_history(h, carried, x, conv_dim, pad),
        is_history(g, carried, y, conv_dim, pad),
        x.dtype == y.dtype,
        x.tensor.dims@[0] == y.tensor.dims@[0],
    ensures
        h@ == g@,
{
    assert(h.tensor.data@ =~= g.tensor.data@);
}

/// Columns that are projected from the positions of two calls, one behind the other, are those of
/// the two.
proof fn lemma_split_columns<E: Element>(
    whole: DeltaCall<E>,
    first: DeltaCall<E>,
    second: DeltaCall<E>,
    columns: spec_fn(Seq<E>) -> Seq<E>,
    b: usize,
    n: usize,
)
    requires
        whole.hidden == first.hidden + second.hidden,
        projected(whole, columns, b, n),
        projected(first, columns, b, n),
        projected(second, columns, b, n),
        first.hidden.len() + second.hidden.len() <= usize::MAX,
    ensures
        is_columns_of(whole.columns.tensor, first.columns.tensor, second.columns.tensor),
{
    let (x, y, z) = (whole.columns.tensor, first.columns.tensor, second.columns.tensor);
    let la = first.hidden.len() as int;
    assert(x.dims@ =~= crate::tensor::appended_dims(y.dims@, z.dims@, 2));
    assert forall|i: int, c: int, t: int|
        0 <= i < b && 0 <= c < n && 0 <= t < whole.hidden.len() implies #[trigger] x.at3(i, c, t)
        == if t < la {
        y.at3(i, c, t)
    } else {
        z.at3(i, c, t - la)
    } by {
        let p = i * n + c;
        crate::arith::lemma_index_bound(i, c, b as int, n as int);
        crate::arith::lemma_index_split(i, c, n as int);
        assert(column(x, t) == columns(whole.hidden[t]));
        assert(column(x, t)[p] == x.at3(i, c, t));
        if t < la {
            assert(column(y, t) == columns(first.hidden[t]));
            assert(column(y, t)[p] == y.at3(i, c, t));
        } else {
            assert(column(z, t - la) == columns(second.hidden[t - la]));
            assert(column(z, t - la)[p] == z.at3(i, c, t - la));
        }
    }
}

/// The columns of a call are projected from what goes in.
spec fn projected<E>(
    call: DeltaCall<E>,
    columns: spec_fn(Seq<E>) -> Seq<E>,
    b: usize,
    n: usize,
) -> bool {
    &&& call.columns.tensor.dims@ == seq![b, n, call.hidden.len() as usize]
    &&& forall|t: int|
        0 <= t < call.hidden.len() ==> #[trigger] column(call.columns.tensor, t) == columns(
            call.hidden[t],
        )
}

/// `whole` is a call on a prompt, and `first` and `second` are calls on its two parts, the second of
/// which goes on from what the first leaves.
pub open spec fn is_split_prefill<E: Element>(
    whole: DeltaCall<E>,
    first: DeltaCall<E>,
    second: DeltaCall<E>,
    before: GatedDeltaNetWeights<E>,
    after: GatedDeltaNetWeights<E>,
    between: GatedDeltaNetWeights<E>,
    end: GatedDeltaNetWeights<E>,
    weight: Tensor<E>,
    f: DeltaFloats<E>,
) -> bool {
    &&& before.sized()
    &&& before.conv_kernel_size >= 1
    &&& (before.conv_state matches Some(s) ==> s.tensor.dims@.len() == 3 && s.tensor.dims@[2]
        == before.conv_kernel_size - 1)
    &&& weight.dims@.len() == 3
    &&& weight.dims@[2] == before.conv_kernel_size
    &&& is_delta_call(whole, before, after, weight, f)
    &&& is_delta_call(first, before, between, weight, f)
    &&& is_delta_call(second, between, end, weight, f)
    &&& whole.hidden == first.hidden + second.hidden
    &&& first.hidden.len() >= 1
    &&& second.hidden.len() >= 1
    &&& first.columns.tensor.dims@ == whole.columns.tensor.dims@.update(
        2,
        first.hidden.len() as usize,
    )
    &&& second.columns.tensor.dims@ == whole.columns.tensor.dims@.update(
        2,
        second.hidden.len() as usize,
    )
    &&& whole.columns.dtype == first.columns.dtype
    &&& before.conv_kernel_size - 1 + whole.hidden.len() <= usize::MAX
}

/// What the two calls leave of the columns, and what the recurrence sees in them, is what the one
/// call leaves and what it sees there.
proof fn lemma_split_calls<E: Element>(
    whole: DeltaCall<E>,
    first: DeltaCall<E>,
    second: DeltaCall<E>,
    before: GatedDeltaNetWeights<E>,
    after: GatedDeltaNetWeights<E>,
    between: GatedDeltaNetWeights<E>,
    end: GatedDeltaNetWeights<E>,
    weight: Tensor<E>,
    f: DeltaFloats<E>,
)
    requires
        is_split_prefill(whole, first, second, before, after, between, end, weight, f),
    ensures
        maybe(end.conv_state) == maybe(after.conv_state),
        whole.rest == first.rest + second.rest,
        whole.state.data@ == first.state.data@,
        whole.state.dims@ == first.state.dims@,
        second.state.data@ == (f.scan)(
            first.state.data@,
            positions(first.heads, first.rest),
        ).1,
        positions(whole.heads, whole.rest) == positions(first.heads, first.rest) + positions(
            second.heads,
            second.rest,
        ),
{
    let (conv_dim, pad) = (before.conv_dim, before.conv_kernel_size - 1);
    let (x, a, b) = (whole.columns, first.columns, second.columns);
    let (n0, n1) = (x.tensor.dims@[0], x.tensor.dims@[1]);
    assert(x.tensor.dims@ =~= seq![n0, n1, whole.hidden.len() as usize]);
    assert(a.tensor.dims@ =~= seq![n0, n1, first.hidden.len() as usize]);
    assert(b.tensor.dims@ =~= seq![n0, n1, second.hidden.len() as usize]);
    lemma_split_columns(whole, first, second, f.columns, n0, n1);
    assert(whole.rest =~= first.rest + second.rest);
    let (la, lb) = (a.tensor.dims@[2] as int, b.tensor.dims@[2] as int);
    assert(between.conv_dim == conv_dim && between.conv_kernel_size == before.conv_kernel_size);
    lemma_same_history(whole.history, first.history, before.conv_state, x, a, conv_dim, pad);
    let (s, s_a, s_b) = (
        after.conv_state->Some_0,
        between.conv_state->Some_0,
        end.conv_state->Some_0,
    );
    assert(second.history@ == s_a@);
    law_split_prefill(
        whole.history,
        first.history,
        second.history,
        a,
        b,
        x,
        weight,
        conv_dim,
        pad,
        whole.window,
        s,
        whole.convolved,
        first.window,
        s_a,
        first.convolved,
        second.window,
        s_b,
        second.convolved,
    );
    let (ox, oa, ob) = (whole.convolved, first.convolved, second.convolved);
    let (ax, aa, ab) = (whole.activated, first.activated, second.activated);
    assert(ox.dims@[2] == la + lb);
    assert forall|i: int, c: int, o: int|
        0 <= i < ax.dims@[0] && 0 <= c < ax.dims@[1] && 0 <= o < ax.dims@[2]
            implies #[trigger] ax.at3(i, c, o) == if o < la {
        aa.at3(i, c, o)
    } else {
        ab.at3(i, c, o - la)
    } by {
        assert(ox.at3(i, c, o) == if o < la {
            oa.at3(i, c, o)
        } else {
            ob.at3(i, c, o - la)
        });
        lemma_at3_in_range(ax.dims@, ax.data@.len() as int, i, c, o);
        if o < la {
            lemma_at3_in_range(aa.dims@, aa.data@.len() as int, i, c, o);
        } else {
            lemma_at3_in_range(ab.dims@, ab.data@.len() as int, i, c, o - la);
        }
    }
    lemma_split_positions(whole, first, second, before);
    assert(whole.state.data@ =~= first.state.data@);
}

/// A prompt in two calls, the second of which goes on from what the first leaves, comes to the
/// same as the prompt in one call: the same outputs, and the same columns and recurrent state are
/// carried on. That holds for any recurrence that can be interrupted between the two parts, and for
/// whatever projections, activation and output maps, which take one position at a time.
pub proof fn law_split_prefill_of_a_layer<E: Element>(
    whole: DeltaCall<E>,
    first: DeltaCall<E>,
    second: DeltaCall<E>,
    before: GatedDeltaNetWeights<E>,
    after: GatedDeltaNetWeights<E>,
    between: GatedDeltaNetWeights<E>,
    end: GatedDeltaNetWeights<E>,
    weight: Tensor<E>,
    f: DeltaFloats<E>,
)
    requires
        composes_at(
            f.scan,
            first.state.data@,
            positions(first.heads, first.rest),
            positions(second.heads, second.rest),
        ),
        is_split_prefill(whole, first, second, before, after, between, end, weight, f),
    ensures
        whole.outputs == first.outputs + second.outputs,
        end.bare() == after.bare(),
        maybe(end.conv_state) == maybe(after.conv_state),
        maybe(end.recurrent_state) == maybe(after.recurrent_state),
{
    lemma_split_calls(whole, first, second, before, after, between, end, weight, f);
    assert(whole.outputs =~= first.outputs + second.outputs);
}

/// The positions of the one call are those of the two.
proof fn lemma_split_positions<E: Element>(
    whole: DeltaCall<E>,
    first: DeltaCall<E>,
    second: DeltaCall<E>,
    layer: GatedDeltaNetWeights<E>,
)
    requires
        layer.sized(),
        layer.heads_refusal(whole.activated.dims@) is None,
        layer.are_heads(whole.activated, whole.heads),
        layer.are_heads(first.activated, first.heads),
        layer.are_heads(second.activated, second.heads),
        whole.rest == first.rest + second.rest,
        ({
            let (x, a, b) = (whole.activated, first.activated, second.activated);
            &&& x.dims@.len() == 3 && a.dims@.len() == 3 && b.dims@.len() == 3
            &&& a.dims@[0] == x.dims@[0] && b.dims@[0] == x.dims@[0]
            &&& x.dims@[2] == a.dims@[2] + b.dims@[2]
            &&& first.rest.len() == a.dims@[2]
            &&& second.rest.len() == b.dims@[2]
            &&& forall|i: int, c: int, o: int|
                0 <= i < x.dims@[0] && 0 <= c < x.dims@[1] && 0 <= o < x.dims@[2]
                    ==> #[trigger] x.at3(i, c, o) == if o < a.dims@[2] {
                    a.at3(i, c, o)
                } else {
                    b.at3(i, c, o - a.dims@[2])
                }
        }),
    ensures
        positions(whole.heads, whole.rest) == positions(first.heads, first.rest) + positions(
            second.heads,
            second.rest,
        ),
{
    let (x, a, b) = (whole.activated, first.activated, second.activated);
    let la = a.dims@[2];
    let (of, k, v) = (layer.num_k_heads as int, layer.num_v_heads as int, layer.head_v_dim as int);
    let (d, n) = (layer.head_k_dim as int, layer.num_k_heads * layer.repeats());
    assert(of * d == layer.key_dim) by (nonlinear_arith)
        requires
            layer.key_dim == d * of,
    ;
    assert(k * v == layer.value_dim) by (nonlinear_arith)
        requires
            layer.value_dim == v * k,
    ;
    vstd::arithmetic::div_mod::lemma_fundamental_div_mod(k, of);
    vstd::arithmetic::div_mod::lemma_mod_bound(k, of);
    assert(n >= 0) by (nonlinear_arith)
        requires
            n == of * (k / of),
            k >= 0,
            of > 0,
    ;
    let (one, two) = (
        positions(whole.heads, whole.rest),
        positions(first.heads, first.rest) + positions(second.heads, second.rest),
    );
    assert forall|t: int| 0 <= t < x.dims@[2] implies #[trigger] one[t] == two[t] by {
        lemma_split_heads(
            whole.heads.0,
            first.heads.0,
            second.heads.0,
            x,
            a,
            b,
            0,
            n,
            d,
            of,
            t,
        );
        lemma_split_heads(
            whole.heads.1,
            first.heads.1,
            second.heads.1,
            x,
            a,
            b,
            layer.key_dim as int,
            n,
            d,
            of,
            t,
        );
        lemma_split_heads(
            whole.heads.2,
            first.heads.2,
            second.heads.2,
            x,
            a,
            b,
            layer.key_dim * 2,
            k,
            v,
            k,
            t,
        );
    }
    assert(one =~= two);
}

/// The recurrence of a call works in chunks.
pub open spec fn scans_in_chunks<E>(
    call: DeltaCall<E>,
    f: DeltaFloats<E>,
    chunk: spec_fn(Seq<E>, Seq<Position<E>>) -> (Seq<Seq<E>>, Seq<E>),
    size: nat,
) -> bool {
    let ps = positions(call.heads, call.rest);
    (f.scan)(call.state.data@, ps) == chunked(chunk, size, call.state.data@, ps)
}

/// A prompt in two calls that meet between two chunks comes to the same as the prompt in one call,
/// whatever the recurrence makes of a chunk.
pub proof fn law_split_prefill_between_chunks<E: Element>(
    whole: DeltaCall<E>,
    first: DeltaCall<E>,
    second: DeltaCall<E>,
    before: GatedDeltaNetWeights<E>,
    after: GatedDeltaNetWeights<E>,
    between: GatedDeltaNetWeights<E>,
    end: GatedDeltaNetWeights<E>,
    weight: Tensor<E>,
    f: DeltaFloats<E>,
    chunk: spec_fn(Seq<E>, Seq<Position<E>>) -> (Seq<Seq<E>>, Seq<E>),
    size: nat,
)
    requires
        forall|s: Seq<E>, ps: Seq<Position<E>>| (#[trigger] chunk(s, ps)).0.len() == ps.len(),
        size > 0,
        first.hidden.len() % size == 0,
        scans_in_chunks(whole, f, chunk, size),
        scans_in_chunks(first, f, chunk, size),
        scans_in_chunks(second, f, chunk, size),
        is_split_prefill(whole, first, second, before, after, between, end, weight, f),
    ensures
        whole.outputs == first.outputs + second.outputs,
        end.bare() == after.bare(),
        maybe(end.conv_state) == maybe(after.conv_state),
        maybe(end.recurrent_state) == maybe(after.recurrent_state),
{
    let (ps, qs) = (
        positions(first.heads, first.rest),
        positions(second.heads, second.rest),
    );
    lemma_split_calls(whole, first, second, before, after, between, end, weight, f);
    law_chunks_compose(chunk, size, first.state.data@, ps, qs);
    lemma_chunked_outputs(chunk, size, first.state.data@, ps);
    lemma_chunked_outputs(chunk, size, second.state.data@, qs);
    law_split_prefill_of_a_layer(
        whole,
        first,
        second,
        before,
        after,
        between,
        end,
        weight,
        f,
    );
}

} // verus!
