//! The transposed convolution is the adjoint of the convolution.

use crate::conv::{
    conv1d_at, conv1d_ends, conv1d_outcome, conv1d_params, conv1d_sum, is_conv1d, plane,
    ParamsConv1D, ParamsConvTranspose1D,
};
use crate::conv_transpose::{
    column, conv_transpose1d_at, hit1d, is_transpose1d, scatter_sum, transpose1d_ends,
    transpose1d_outcome, transpose1d_params,
};
use crate::error::Result;
use crate::exact::{
    lemma_bilinear, lemma_total_congruent, lemma_total_nest, lemma_total_pairs,
    lemma_total_single, lemma_total_swap, lemma_total_times, total, Exact,
};
use crate::tensor::{split_index, Element, Tensor};
use vstd::prelude::*;

verus! {

/// The sum of the products of elements at the same place.
pub open spec fn dot<E: Element>(a: Seq<E>, b: Seq<E>) -> E {
    total(|i: int| a[i].spec_times(b[i]), a.len())
}

/// What input channel `d` at `i` counts in output channel `c` at `o`: the weights of the taps
/// that lead from one to the other.
pub open spec fn coupling<E: Element>(
    w: Tensor<E>,
    stride: int,
    dilation: int,
    padding: int,
    c: int,
    o: int,
    d: int,
    i: int,
) -> E {
    total(
        |j: int|
            if o * stride + j * dilation == i + padding {
                w.at3(c, d, j)
            } else {
                E::spec_zero()
            },
        w.dims@[2] as nat,
    )
}

/// The term of a convolution with the index `n`.
spec fn conv1d_term<E: Element>(
    x: spec_fn(int, int) -> E,
    w: spec_fn(int, int) -> E,
    p: ParamsConv1D,
    o: int,
    n: int,
) -> E {
    let c = n / p.k_size as int;
    let j = n % p.k_size as int;
    let pos = o * p.stride + j * p.dilation - p.padding;
    if 0 <= pos < p.l_in {
        x(c, pos).spec_times(w(c, j))
    } else {
        E::spec_zero()
    }
}

/// Terms that are left out count as zero.
proof fn lemma_conv1d_terms<E: Exact>(
    x: spec_fn(int, int) -> E,
    w: spec_fn(int, int) -> E,
    p: ParamsConv1D,
    o: int,
    n: nat,
)
    ensures
        conv1d_sum(x, w, p, o, n) == total(|q: int| conv1d_term(x, w, p, o, q), n),
    decreases n,
{
    if n > 0 {
        lemma_conv1d_terms(x, w, p, o, (n - 1) as nat);
        conv1d_sum(x, w, p, o, (n - 1) as nat).zero_laws();
    }
}

/// The convolution at `o`: every input element, times what it counts there.
proof fn lemma_conv1d_couples<E: Exact>(
    x: spec_fn(int, int) -> E,
    w: Tensor<E>,
    p: ParamsConv1D,
    c: int,
    o: int,
)
    requires
        p.k_size == w.dims@[2],
    ensures
        conv1d_at(x, plane(w, c, 0), p, o) == total(
            |d: int|
                total(
                    |i: int|
                        x(d, i).spec_times(
                            coupling(
                                w,
                                p.stride as int,
                                p.dilation as int,
                                p.padding as int,
                                c,
                                o,
                                d,
                                i,
                            ),
                        ),
                    p.l_in as nat,
                ),
            p.c_in as nat,
        ),
{
    let (s, e, a) = (p.stride as int, p.dilation as int, p.padding as int);
    let (ci, k, l) = (p.c_in as nat, p.k_size as nat, p.l_in as nat);
    let row = plane(w, c, 0);
    let term = |q: int| conv1d_term(x, row, p, o, q);
    lemma_conv1d_terms(x, row, p, o, ci * k);
    lemma_total_nest(term, ci, k);
    let taps = |d: int| total(|j: int| term(d * k + j), k);
    let whole = |d: int| total(|i: int| x(d, i).spec_times(coupling(w, s, e, a, c, o, d, i)), l);
    assert forall|d: int| 0 <= d < ci implies #[trigger] taps(d) == whole(d) by {
        let f = |j: int, i: int|
            x(d, i).spec_times(
                if o * s + j * e == i + a {
                    w.at3(c, d, j)
                } else {
                    E::spec_zero()
                },
            );
        let tap = |j: int| term(d * k + j);
        let spread = |j: int| total(|i: int| f(j, i), l);
        assert forall|j: int| 0 <= j < k implies #[trigger] tap(j) == spread(j) by {
            crate::arith::lemma_index_split(d, j, k as int);
            let pos = o * s + j * e - a;
            let g = |i: int| f(j, i);
            assert forall|i: int| 0 <= i < l && i != pos implies #[trigger] g(i)
                == E::spec_zero() by {
                x(d, i).zero_laws();
                E::ring_laws(x(d, i), E::spec_zero(), x(d, i));
            }
            lemma_total_single(g, l, pos);
            assert(row(d, j) == w.at3(c, d, j));
        }
        lemma_total_congruent(tap, spread, k);
        lemma_total_swap(f, k, l);
        let swapped = |i: int| total(|j: int| f(j, i), k);
        let coupled = |i: int| x(d, i).spec_times(coupling(w, s, e, a, c, o, d, i));
        assert forall|i: int| 0 <= i < l implies #[trigger] swapped(i) == coupled(i) by {
            let weight = |j: int|
                if o * s + j * e == i + a {
                    w.at3(c, d, j)
                } else {
                    E::spec_zero()
                };
            lemma_total_times(x(d, i), weight, k);
            lemma_total_congruent(
                |j: int| f(j, i),
                |j: int| x(d, i).spec_times(weight(j)),
                k,
            );
        }
        lemma_total_congruent(swapped, coupled, l);
    }
    lemma_total_congruent(taps, whole, ci);
}

/// The term of a transposed convolution with the index `n`.
spec fn scatter_term<E: Element>(
    y: spec_fn(int, int) -> E,
    w: spec_fn(int, int) -> E,
    hit: spec_fn(int, int) -> bool,
    positions: int,
    channels: int,
    n: int,
) -> E {
    let (tap, i, c) = split_index(n, positions, channels);
    if hit(tap, i) {
        y(c, i).spec_times(w(c, tap))
    } else {
        E::spec_zero()
    }
}

/// Terms that are left out count as zero.
proof fn lemma_scatter_terms<E: Exact>(
    y: spec_fn(int, int) -> E,
    w: spec_fn(int, int) -> E,
    hit: spec_fn(int, int) -> bool,
    positions: int,
    channels: int,
    n: nat,
)
    ensures
        scatter_sum(y, w, hit, positions, channels, n) == total(
            |q: int| scatter_term(y, w, hit, positions, channels, q),
            n,
        ),
    decreases n,
{
    if n > 0 {
        lemma_scatter_terms(y, w, hit, positions, channels, (n - 1) as nat);
        scatter_sum(y, w, hit, positions, channels, (n - 1) as nat).zero_laws();
    }
}

/// The transposed convolution at `i`: every input element, times what the element at `i` counts
/// in it.
proof fn lemma_transpose1d_couples<E: Exact>(
    y: spec_fn(int, int) -> E,
    w: Tensor<E>,
    p: ParamsConvTranspose1D,
    d: int,
    i: int,
)
    requires
        p.k_size == w.dims@[2],
    ensures
        conv_transpose1d_at(y, column(w, d, 0), p, i) == total(
            |c: int|
                total(
                    |o: int|
                        y(c, o).spec_times(
                            coupling(
                                w,
                                p.stride as int,
                                p.dilation as int,
                                p.padding as int,
                                c,
                                o,
                                d,
                                i,
                            ),
                        ),
                    p.l_in as nat,
                ),
            p.c_in as nat,
        ),
{
    let (s, e, a) = (p.stride as int, p.dilation as int, p.padding as int);
    let (co, k, m) = (p.c_in as nat, p.k_size as nat, p.l_in as nat);
    let (weights, hit) = (column(w, d, 0), hit1d(p, i));
    let term = |q: int| scatter_term(y, weights, hit, m as int, co as int, q);
    lemma_scatter_terms(y, weights, hit, m as int, co as int, k * (m * co));
    lemma_total_nest(term, k, m * co);
    let f = |j: int, o: int, c: int|
        y(c, o).spec_times(
            if o * s + j * e == i + a {
                w.at3(c, d, j)
            } else {
                E::spec_zero()
            },
        );
    let tap = |j: int| total(|q: int| term(j * (m * co) + q), m * co);
    let inner = |j: int, o: int| total(|c: int| f(j, o, c), co);
    let by_tap = |j: int| total(|o: int| inner(j, o), m);
    assert forall|j: int| 0 <= j < k implies #[trigger] tap(j) == by_tap(j) by {
        let rest = |q: int| term(j * (m * co) + q);
        lemma_total_nest(rest, m, co);
        let row = |o: int| total(|c: int| rest(o * co + c), co);
        let want = |o: int| inner(j, o);
        assert forall|o: int| 0 <= o < m implies #[trigger] row(o) == want(o) by {
            let (r, t) = (|c: int| rest(o * co + c), |c: int| f(j, o, c));
            assert forall|c: int| 0 <= c < co implies #[trigger] r(c) == t(c) by {
                let q = j * (m * co) + (o * co + c);
                assert(q == (j * m + o) * co + c) by (nonlinear_arith)
                    requires
                        q == j * (m * co) + (o * co + c),
                ;
                crate::tensor::lemma_split_index(j, o, c, m as int, co as int);
                assert(hit(j, o) == (o * s + j * e == i + a));
                assert(weights(c, j) == w.at3(c, d, j));
                y(c, o).zero_laws();
                E::ring_laws(y(c, o), E::spec_zero(), y(c, o));
            }
            lemma_total_congruent(r, t, co);
        }
        lemma_total_congruent(row, want, m);
    }
    lemma_total_congruent(tap, by_tap, k);
    lemma_total_swap(inner, k, m);
    let coupled = |o: int, c: int| y(c, o).spec_times(coupling(w, s, e, a, c, o, d, i));
    let by_position = |o: int| total(|j: int| inner(j, o), k);
    let positions = |o: int| total(|c: int| coupled(o, c), co);
    assert forall|o: int| 0 <= o < m implies #[trigger] by_position(o) == positions(o) by {
        let g = |j: int, c: int| f(j, o, c);
        lemma_total_swap(g, k, co);
        let before = |j: int| total(|c: int| g(j, c), co);
        let held = |j: int| inner(j, o);
        assert forall|j: int| 0 <= j < k implies #[trigger] held(j) == before(j) by {
            lemma_total_congruent(|c: int| f(j, o, c), |c: int| g(j, c), co);
        }
        lemma_total_congruent(held, before, k);
        let swapped = |c: int| total(|j: int| g(j, c), k);
        let want = |c: int| coupled(o, c);
        assert forall|c: int| 0 <= c < co implies #[trigger] swapped(c) == want(c) by {
            let weight = |j: int|
                if o * s + j * e == i + a {
                    w.at3(c, d, j)
                } else {
                    E::spec_zero()
                };
            lemma_total_times(y(c, o), weight, k);
            lemma_total_congruent(
                |j: int| g(j, c),
                |j: int| y(c, o).spec_times(weight(j)),
                k,
            );
        }
        lemma_total_congruent(swapped, want, co);
    }
    lemma_total_congruent(by_position, positions, m);
    lemma_total_swap(coupled, m, co);
    let swapped = |c: int| total(|o: int| coupled(o, c), m);
    let want = |c: int|
        total(|o: int| y(c, o).spec_times(coupling(w, s, e, a, c, o, d, i)), m);
    assert forall|c: int| 0 <= c < co implies #[trigger] swapped(c) == want(c) by {
        lemma_total_congruent(
            |o: int| coupled(o, c),
            |o: int| y(c, o).spec_times(coupling(w, s, e, a, c, o, d, i)),
            m,
        );
    }
    lemma_total_congruent(swapped, want, co);
}

/// Where the elements of entry `b` of three extents lie.
proof fn lemma_entry(b: int, n: int, len: int, q: int)
    requires
        0 <= b,
        0 <= q < n * len,
        0 <= n,
        0 <= len,
    ensures
        0 <= q / len < n,
        0 <= q % len < len,
        (b * n + q / len) * len + q % len == b * (n * len) + q,
{
    assert(len > 0) by (nonlinear_arith)
        requires
            0 <= q < n * len,
            0 <= n,
            0 <= len,
    ;
    crate::arith::lemma_index_join(q, n, len);
    let (h, r) = (q / len, q % len);
    assert((b * n + h) * len + r == b * (n * len) + (h * len + r)) by (nonlinear_arith);
}

/// The transposed convolution is the adjoint of the convolution with the same kernel, stride,
/// dilation and padding, where the padding of its output makes up for what the strides leave
/// over: its output has the extents of the convolution's input, and multiplying with it there is
/// multiplying with the convolution's output here.
pub proof fn law_transposed_is_adjoint<E: Exact>(
    x: Tensor<E>,
    w: Tensor<E>,
    y: Tensor<E>,
    z: Tensor<E>,
    r: Result<Tensor<E>>,
    padding: usize,
    output_padding: usize,
    stride: usize,
    dilation: usize,
)
    requires
        x.wf(),
        w.wf(),
        y.wf(),
        conv1d_ends(x.dims@, w.dims@, padding, stride, dilation, 1),
        conv1d_outcome(Ok(z), x, w, padding, stride, dilation, 1, None),
        y.dims@ == z.dims@,
        output_padding == (x.dims@[2] + 2 * padding - dilation * (w.dims@[2] - 1) - 1)
            % stride as int,
        transpose1d_ends(y, w, padding, output_padding, stride, dilation, 1),
        transpose1d_outcome(r, y, w, padding, output_padding, stride, dilation, 1),
    ensures
        r matches Ok(t) && t.dims@ == x.dims@ && dot(x.data@, t.data@) == dot(z.data@, y.data@),
{
    let p = conv1d_params(x.dims@, w.dims@, padding, stride, dilation, 1, None);
    let q = transpose1d_params(y.dims@, w.dims@, padding, output_padding, stride, dilation, 1);
    let (s, e, a) = (stride as int, dilation as int, padding as int);
    let (n, ci, l) = (x.dims@[0] as int, x.dims@[1] as int, x.dims@[2] as int);
    let (co, m) = (w.dims@[0] as int, p.positions());
    assert(ci / 1 == ci && co / 1 == co && co % 1 == 0 && w.dims@[1] * 1 == w.dims@[1]);
    assert(1 * p.c_out == p.c_out);
    crate::arith::lemma_window_positions(l, a, e, p.k_size as int, s);
    assert(y.dims@ =~= seq![n as usize, co as usize, m as usize]);
    assert(1 * q.c_out == q.c_out);
    assert(q.positions() == l) by {
        let left = l + 2 * a - e * (w.dims@[2] - 1) - 1;
        vstd::arithmetic::div_mod::lemma_fundamental_div_mod(left, s);
        assert(s * (left / s) == (left / s) * s) by (nonlinear_arith);
    }
    let t = r->Ok_0;
    assert(t.dims@ =~= x.dims@);
    assert(x.dims@ =~= seq![n as usize, ci as usize, l as usize]);
    assert(w.dims@ =~= seq![p.c_out, p.c_in, p.k_size]);
    let (nv, nu) = ((ci * l) as nat, (co * m) as nat);
    assert(ci * l >= 0 && co * m >= 0) by (nonlinear_arith)
        requires
            ci >= 0,
            l >= 0,
            co >= 0,
            m >= 0,
    ;
    crate::arith::lemma_span_three(n as usize, ci as usize, l as usize);
    crate::arith::lemma_span_three(n as usize, co as usize, m as usize);
    let inputs = |i: int| x.data@[i].spec_times(t.data@[i]);
    let outputs = |i: int| z.data@[i].spec_times(y.data@[i]);
    lemma_total_nest(inputs, n as nat, nv);
    lemma_total_nest(outputs, n as nat, nu);
    let left = |b: int| total(|v: int| inputs(b * nv + v), nv);
    let right = |b: int| total(|u: int| outputs(b * nu + u), nu);
    assert forall|b: int| 0 <= b < n implies #[trigger] left(b) == right(b) by {
        lemma_entry_is_adjoint(x, w, y, z, t, p, q, b);
        lemma_total_congruent(
            |v: int| inputs(b * nv + v),
            |v: int| x.data@[b * nv + v].spec_times(t.data@[b * nv + v]),
            nv,
        );
        lemma_total_congruent(
            |u: int| outputs(b * nu + u),
            |u: int| z.data@[b * nu + u].spec_times(y.data@[b * nu + u]),
            nu,
        );
    }
    lemma_total_congruent(left, right, n as nat);
}

/// One entry of the batch.
proof fn lemma_entry_is_adjoint<E: Exact>(
    x: Tensor<E>,
    w: Tensor<E>,
    y: Tensor<E>,
    z: Tensor<E>,
    t: Tensor<E>,
    p: ParamsConv1D,
    q: ParamsConvTranspose1D,
    b: int,
)
    requires
        x.dims@ == seq![p.b_size, p.c_in, p.l_in],
        w.dims@ == seq![p.c_out, p.c_in, p.k_size],
        y.dims@ == seq![p.b_size, p.c_out, p.positions() as usize],
        t.dims@ == x.dims@,
        z.dims@ == y.dims@,
        0 <= p.positions() <= usize::MAX,
        q.c_in == p.c_out,
        q.c_out == p.c_in,
        q.k_size == p.k_size,
        q.l_in == p.positions(),
        q.positions() == p.l_in,
        q.b_size == p.b_size,
        q.stride == p.stride && q.dilation == p.dilation && q.padding == p.padding,
        is_conv1d(z, x, w, p, 1),
        is_transpose1d(t, y, w, q, 1),
        0 <= b < p.b_size,
    ensures
        ({
            let nv = p.c_in * p.l_in;
            let nu = p.c_out * p.positions();
            total(|v: int| x.data@[b * nv + v].spec_times(t.data@[b * nv + v]), nv as nat)
                == total(
                |u: int| z.data@[b * nu + u].spec_times(y.data@[b * nu + u]),
                nu as nat,
            )
        }),
{
    let (s, e, a) = (p.stride as int, p.dilation as int, p.padding as int);
    let (ci, l, co, m) = (p.c_in as int, p.l_in as int, p.c_out as int, p.positions());
    let (nv, nu) = (ci * l, co * m);
    assert(nv >= 0 && nu >= 0) by (nonlinear_arith)
        requires
            nv == ci * l,
            nu == co * m,
            ci >= 0,
            l >= 0,
            co >= 0,
            m >= 0,
    ;
    let (xs, ys) = (plane(x, b, 0), plane(y, b, 0));
    let xv = |v: int| x.data@[b * nv + v];
    let yu = |u: int| y.data@[b * nu + u];
    let matrix = |u: int, v: int| coupling(w, s, e, a, u / m, u % m, v / l, v % l);
    let applied = |u: int| z.data@[b * nu + u];
    let transposed = |v: int| t.data@[b * nv + v];
    assert(1 * p.c_out == p.c_out && 1 * q.c_out == q.c_out);
    assert forall|u: int| 0 <= u < nu implies #[trigger] applied(u) == total(
        |v: int| xv(v).spec_times(matrix(u, v)),
        nv as nat,
    ) by {
        lemma_entry(b, co, m, u);
        let (c, o) = (u / m, u % m);
        crate::arith::lemma_index_split(0, c, co);
        assert(0 * co == 0 && 0 * p.c_in == 0);
        crate::conv::lemma_even_chunks(1, co, 0);
        assert(1 * co == co);
        assert(z.at3(b, c, o) == conv1d_at(xs, plane(w, c, 0), p, o));
        lemma_conv1d_couples(xs, w, p, c, o);
        let f = |d: int, i: int| xs(d, i).spec_times(coupling(w, s, e, a, c, o, d, i));
        lemma_total_pairs(f, ci as nat, l as nat);
        let nested = |d: int| total(|i: int| f(d, i), l as nat);
        let stated = |d: int|
            total(
                |i: int| xs(d, i).spec_times(coupling(w, s, e, a, c, o, d, i)),
                l as nat,
            );
        assert forall|d: int| 0 <= d < ci implies #[trigger] nested(d) == stated(d) by {
            lemma_total_congruent(
                |i: int| f(d, i),
                |i: int| xs(d, i).spec_times(coupling(w, s, e, a, c, o, d, i)),
                l as nat,
            );
        }
        lemma_total_congruent(nested, stated, ci as nat);
        let flat = |v: int| f(v / l, v % l);
        let want = |v: int| xv(v).spec_times(matrix(u, v));
        assert forall|v: int| 0 <= v < nv implies #[trigger] flat(v) == want(v) by {
            lemma_entry(b, ci, l, v);
        }
        lemma_total_congruent(flat, want, nv as nat);
    }
    assert forall|v: int| 0 <= v < nv implies #[trigger] transposed(v) == total(
        |u: int| yu(u).spec_times(matrix(u, v)),
        nu as nat,
    ) by {
        lemma_entry(b, ci, l, v);
        let (d, i) = (v / l, v % l);
        crate::arith::lemma_index_split(0, d, ci);
        assert(0 * ci == 0 && 0 * q.c_in == 0);
        assert(t.at3(b, d, i) == conv_transpose1d_at(ys, column(w, d, 0), q, i));
        lemma_transpose1d_couples(ys, w, q, d, i);
        let f = |c: int, o: int| ys(c, o).spec_times(coupling(w, s, e, a, c, o, d, i));
        lemma_total_pairs(f, co as nat, m as nat);
        let nested = |c: int| total(|o: int| f(c, o), m as nat);
        let stated = |c: int|
            total(
                |o: int| ys(c, o).spec_times(coupling(w, s, e, a, c, o, d, i)),
                m as nat,
            );
        assert forall|c: int| 0 <= c < co implies #[trigger] nested(c) == stated(c) by {
            lemma_total_congruent(
                |o: int| f(c, o),
                |o: int| ys(c, o).spec_times(coupling(w, s, e, a, c, o, d, i)),
                m as nat,
            );
        }
        lemma_total_congruent(nested, stated, co as nat);
        let flat = |u: int| f(u / m, u % m);
        let want = |u: int| yu(u).spec_times(matrix(u, v));
        assert forall|u: int| 0 <= u < nu implies #[trigger] flat(u) == want(u) by {
            lemma_entry(b, co, m, u);
        }
        lemma_total_congruent(flat, want, nu as nat);
    }
    lemma_bilinear(xv, yu, matrix, applied, transposed, nv as nat, nu as nat);
    lemma_total_congruent(
        |v: int| xv(v).spec_times(transposed(v)),
        |v: int| x.data@[b * nv + v].spec_times(t.data@[b * nv + v]),
        nv as nat,
    );
    lemma_total_congruent(
        |u: int| applied(u).spec_times(yu(u)),
        |u: int| z.data@[b * nu + u].spec_times(y.data@[b * nu + u]),
        nu as nat,
    );
}

} // verus!
