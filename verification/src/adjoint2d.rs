//! The transposed two-dimensional convolution is the adjoint of the convolution, and what its
//! paddings take off and add.

use crate::adjoint::dot;
use crate::conv::CudnnFwdAlgo;
use crate::conv2d::{
    conv2d_at, conv2d_ends, conv2d_outcome, conv2d_params, conv2d_sum, image, is_conv2d,
    ParamsConv2D,
};
use crate::conv_transpose::{
    conv_transpose2d_at, flat_column, flat_image, hit2d, scatter_sum, transpose2d_ends,
    transpose2d_outcome, transpose2d_params, ParamsConvTranspose2D,
};
use crate::error::Result;
use crate::exact::{
    lemma_bilinear, lemma_total_congruent, lemma_total_nest, lemma_total_pairs,
    lemma_total_single, lemma_total_swap, lemma_total_times, total, Exact,
};
use crate::tensor::{split_index, Element, Tensor};
use vstd::prelude::*;

verus! {

/// A tap leads from a position of a signal to a position of what is made of it.
pub open spec fn leads(
    stride: int,
    dilation: int,
    padding: int,
    from: int,
    tap: int,
    to: int,
) -> bool {
    to * stride + tap * dilation == from + padding
}

/// What input channel `d` at position `i` counts in output channel `c` at position `o`, both by
/// row and column: the weights of the taps that lead from one to the other.
spec fn coupling2d<E: Element>(w: Tensor<E>, p: ParamsConv2D, c: int, o: int, d: int, i: int) -> E {
    total(|t: int| weight2d(w, p, c, o, d, i, t), (w.dims@[2] * w.dims@[3]) as nat)
}

/// The weight of tap `t`, where it leads from one to the other.
spec fn weight2d<E: Element>(
    w: Tensor<E>,
    p: ParamsConv2D,
    c: int,
    o: int,
    d: int,
    i: int,
    t: int,
) -> E {
    let (s, e, a) = (p.stride as int, p.dilation as int, p.padding as int);
    let (kw, iw, mw) = (p.k_w as int, p.i_w as int, p.columns());
    if leads(s, e, a, i / iw, t / kw, o / mw) && leads(s, e, a, i % iw, t % kw, o % mw) {
        w.at4(c, d, t / kw, t % kw)
    } else {
        E::spec_zero()
    }
}

/// The term of a convolution with the index `n`.
spec fn conv2d_term<E: Element>(
    x: spec_fn(int, int, int) -> E,
    w: spec_fn(int, int, int) -> E,
    p: ParamsConv2D,
    oh: int,
    ow: int,
    n: int,
) -> E {
    let (c, jh, jw) = split_index(n, p.k_h as int, p.k_w as int);
    let h = oh * p.stride + jh * p.dilation - p.padding;
    let v = ow * p.stride + jw * p.dilation - p.padding;
    if 0 <= h < p.i_h && 0 <= v < p.i_w {
        x(c, h, v).spec_times(w(c, jh, jw))
    } else {
        E::spec_zero()
    }
}

/// Terms that are left out count as zero.
proof fn lemma_conv2d_terms<E: Exact>(
    x: spec_fn(int, int, int) -> E,
    w: spec_fn(int, int, int) -> E,
    p: ParamsConv2D,
    oh: int,
    ow: int,
    n: nat,
)
    ensures
        conv2d_sum(x, w, p, oh, ow, n) == total(|q: int| conv2d_term(x, w, p, oh, ow, q), n),
    decreases n,
{
    if n > 0 {
        lemma_conv2d_terms(x, w, p, oh, ow, (n - 1) as nat);
        conv2d_sum(x, w, p, oh, ow, (n - 1) as nat).zero_laws();
    }
}

/// The convolution at a position: every input element, times what it counts there.
proof fn lemma_conv2d_couples<E: Exact>(
    x: Tensor<E>,
    w: Tensor<E>,
    p: ParamsConv2D,
    b: int,
    c: int,
    o: int,
)
    requires
        p.k_h == w.dims@[2],
        p.k_w == w.dims@[3],
        p.k_w > 0,
    ensures
        conv2d_at(image(x, b, 0), image(w, c, 0), p, o / p.columns(), o % p.columns()) == total(
            |d: int|
                total(
                    |i: int|
                        x.at4(b, d, i / p.i_w as int, i % p.i_w as int).spec_times(
                            coupling2d(w, p, c, o, d, i),
                        ),
                    (p.i_h * p.i_w) as nat,
                ),
            p.c_in as nat,
        ),
{
    let (s, e, a) = (p.stride as int, p.dilation as int, p.padding as int);
    let (kh, kw, iw, mw) = (p.k_h as int, p.k_w as int, p.i_w as int, p.columns());
    let (ci, k, l) = (p.c_in as nat, (kh * kw) as nat, (p.i_h * iw) as nat);
    assert(kh * kw >= 0 && p.i_h * iw >= 0) by (nonlinear_arith)
        requires
            kh >= 0,
            kw >= 0,
            iw >= 0,
            p.i_h >= 0,
    ;
    let (oh, ow) = (o / mw, o % mw);
    let (xs, ws) = (image(x, b, 0), image(w, c, 0));
    let term = |q: int| conv2d_term(xs, ws, p, oh, ow, q);
    lemma_conv2d_terms(xs, ws, p, oh, ow, ci * k);
    lemma_total_nest(term, ci, k);
    let taps = |d: int| total(|t: int| term(d * k + t), k);
    let element = |d: int, i: int| x.at4(b, d, i / iw, i % iw);
    let whole = |d: int|
        total(
            |i: int| x.at4(b, d, i / iw, i % iw).spec_times(coupling2d(w, p, c, o, d, i)),
            l,
        );
    assert forall|d: int| 0 <= d < ci implies #[trigger] taps(d) == whole(d) by {
        let f = |t: int, i: int| element(d, i).spec_times(weight2d(w, p, c, o, d, i, t));
        let tap = |t: int| term(d * k + t);
        let spread = |t: int| total(|i: int| f(t, i), l);
        assert forall|t: int| 0 <= t < k implies #[trigger] tap(t) == spread(t) by {
            let (jh, jw) = (t / kw, t % kw);
            crate::arith::lemma_index_join(t, kh, kw);
            assert(d * k + t == (d * kh + jh) * kw + jw) by (nonlinear_arith)
                requires
                    k == kh * kw,
                    t == jh * kw + jw,
            ;
            crate::tensor::lemma_split_index(d, jh, jw, kh, kw);
            let (h, v) = (oh * s + jh * e - a, ow * s + jw * e - a);
            let inside = 0 <= h < p.i_h && 0 <= v < iw;
            let at = if inside {
                h * iw + v
            } else {
                -1
            };
            let g = |i: int| f(t, i);
            assert forall|i: int| 0 <= i < l && i != at implies #[trigger] g(i)
                == E::spec_zero() by {
                crate::arith::lemma_index_join(i, p.i_h as int, iw);
                element(d, i).zero_laws();
                E::ring_laws(element(d, i), E::spec_zero(), element(d, i));
            }
            lemma_total_single(g, l, at);
            if inside {
                crate::arith::lemma_index_bound(h, v, p.i_h as int, iw);
                crate::arith::lemma_index_split(h, v, iw);
                assert(ws(d, jh, jw) == w.at4(c, d, jh, jw));
                assert(xs(d, h, v) == x.at4(b, d, h, v));
            }
        }
        lemma_total_congruent(tap, spread, k);
        lemma_total_swap(f, k, l);
        let swapped = |i: int| total(|t: int| f(t, i), k);
        let coupled = |i: int|
            x.at4(b, d, i / iw, i % iw).spec_times(coupling2d(w, p, c, o, d, i));
        assert forall|i: int| 0 <= i < l implies #[trigger] swapped(i) == coupled(i) by {
            let weight = |t: int| weight2d(w, p, c, o, d, i, t);
            lemma_total_times(element(d, i), weight, k);
            lemma_total_congruent(
                |t: int| f(t, i),
                |t: int| element(d, i).spec_times(weight(t)),
                k,
            );
        }
        lemma_total_congruent(swapped, coupled, l);
    }
    lemma_total_congruent(taps, whole, ci);
    assert(p.c_in * (p.k_h * p.k_w) == ci * k);
}

/// The term of a transposed convolution with the index `n`.
spec fn scatter_term<E: Element>(
    y: spec_fn(int, int) -> E,
    w: spec_fn(int, int) -> E,
    hit: spec_fn(int, int) -> bool,
    positions: int,
    channels: int,
    n: int,
) -> E {
    let (tap, i, c) = split_index(n, positions, channels);
    if hit(tap, i) {
        y(c, i).spec_times(w(c, tap))
    } else {
        E::spec_zero()
    }
}

/// Terms that are left out count as zero.
proof fn lemma_scatter_terms<E: Exact>(
    y: spec_fn(int, int) -> E,
    w: spec_fn(int, int) -> E,
    hit: spec_fn(int, int) -> bool,
    positions: int,
    channels: int,
    n: nat,
)
    ensures
        scatter_sum(y, w, hit, positions, channels, n) == total(
            |q: int| scatter_term(y, w, hit, positions, channels, q),
            n,
        ),
    decreases n,
{
    if n > 0 {
        lemma_scatter_terms(y, w, hit, positions, channels, (n - 1) as nat);
        scatter_sum(y, w, hit, positions, channels, (n - 1) as nat).zero_laws();
    }
}

/// A sum over taps, positions and channels is a sum over channels and positions, each times the
/// weights of the taps that lead there.
proof fn lemma_scatter_couples<E: Exact>(
    y: spec_fn(int, int) -> E,
    w: spec_fn(int, int) -> E,
    hit: spec_fn(int, int) -> bool,
    taps: nat,
    m: nat,
    co: nat,
)
    ensures
        scatter_sum(y, w, hit, m as int, co as int, taps * (m * co)) == total(
            |c: int|
                total(
                    |o: int|
                        y(c, o).spec_times(
                            total(
                                |t: int|
                                    if hit(t, o) {
                                        w(c, t)
                                    } else {
                                        E::spec_zero()
                                    },
                                taps,
                            ),
                        ),
                    m,
                ),
            co,
        ),
{
    let term = |q: int| scatter_term(y, w, hit, m as int, co as int, q);
    lemma_scatter_terms(y, w, hit, m as int, co as int, taps * (m * co));
    lemma_total_nest(term, taps, m * co);
    let weight = |c: int, o: int, t: int|
        if hit(t, o) {
            w(c, t)
        } else {
            E::spec_zero()
        };
    let f = |t: int, o: int, c: int| y(c, o).spec_times(weight(c, o, t));
    let tap = |t: int| total(|q: int| term(t * (m * co) + q), m * co);
    let inner = |t: int, o: int| total(|c: int| f(t, o, c), co);
    let by_tap = |t: int| total(|o: int| inner(t, o), m);
    assert forall|t: int| 0 <= t < taps implies #[trigger] tap(t) == by_tap(t) by {
        let rest = |q: int| term(t * (m * co) + q);
        lemma_total_nest(rest, m, co);
        let row = |o: int| total(|c: int| rest(o * co + c), co);
        let want = |o: int| inner(t, o);
        assert forall|o: int| 0 <= o < m implies #[trigger] row(o) == want(o) by {
            let (r, u) = (|c: int| rest(o * co + c), |c: int| f(t, o, c));
            assert forall|c: int| 0 <= c < co implies #[trigger] r(c) == u(c) by {
                let q = t * (m * co) + (o * co + c);
                assert(q == (t * m + o) * co + c) by (nonlinear_arith)
                    requires
                        q == t * (m * co) + (o * co + c),
                ;
                crate::tensor::lemma_split_index(t, o, c, m as int, co as int);
                y(c, o).zero_laws();
                E::ring_laws(y(c, o), E::spec_zero(), y(c, o));
            }
            lemma_total_congruent(r, u, co);
        }
        lemma_total_congruent(row, want, m);
    }
    lemma_total_congruent(tap, by_tap, taps);
    lemma_total_swap(inner, taps, m);
    let coupled = |o: int, c: int| y(c, o).spec_times(total(|t: int| weight(c, o, t), taps));
    let by_position = |o: int| total(|t: int| inner(t, o), taps);
    let positions = |o: int| total(|c: int| coupled(o, c), co);
    assert forall|o: int| 0 <= o < m implies #[trigger] by_position(o) == positions(o) by {
        let g = |t: int, c: int| f(t, o, c);
        lemma_total_swap(g, taps, co);
        let before = |t: int| total(|c: int| g(t, c), co);
        let held = |t: int| inner(t, o);
        assert forall|t: int| 0 <= t < taps implies #[trigger] held(t) == before(t) by {
            lemma_total_congruent(|c: int| f(t, o, c), |c: int| g(t, c), co);
        }
        lemma_total_congruent(held, before, taps);
        let swapped = |c: int| total(|t: int| g(t, c), taps);
        let want = |c: int| coupled(o, c);
        assert forall|c: int| 0 <= c < co implies #[trigger] swapped(c) == want(c) by {
            let held = |t: int| weight(c, o, t);
            lemma_total_times(y(c, o), held, taps);
            lemma_total_congruent(
                |t: int| g(t, c),
                |t: int| y(c, o).spec_times(held(t)),
                taps,
            );
        }
        lemma_total_congruent(swapped, want, co);
    }
    lemma_total_congruent(by_position, positions, m);
    lemma_total_swap(coupled, m, co);
    let swapped = |c: int| total(|o: int| coupled(o, c), m);
    let want = |c: int|
        total(
            |o: int|
                y(c, o).spec_times(
                    total(
                        |t: int|
                            if hit(t, o) {
                                w(c, t)
                            } else {
                                E::spec_zero()
                            },
                        taps,
                    ),
                ),
            m,
        );
    assert forall|c: int| 0 <= c < co implies #[trigger] swapped(c) == want(c) by {
        let (r, u) = (
            |o: int| coupled(o, c),
            |o: int|
                y(c, o).spec_times(
                    total(
                        |t: int|
                            if hit(t, o) {
                                w(c, t)
                            } else {
                                E::spec_zero()
                            },
                        taps,
                    ),
                ),
        );
        assert forall|o: int| 0 <= o < m implies #[trigger] r(o) == u(o) by {
            lemma_total_congruent(
                |t: int| weight(c, o, t),
                |t: int|
                    if hit(t, o) {
                        w(c, t)
                    } else {
                        E::spec_zero()
                    },
                taps,
            );
        }
        lemma_total_congruent(r, u, m);
    }
    lemma_total_congruent(swapped, want, co);
}

/// The transposed convolution at a position: every input element, times what the element at that
/// position counts in it.
proof fn lemma_transpose2d_couples<E: Exact>(
    y: Tensor<E>,
    w: Tensor<E>,
    p: ParamsConv2D,
    q: ParamsConvTranspose2D,
    b: int,
    d: int,
    i: int,
)
    requires
        w.dims@ == seq![p.c_out, p.c_in, p.k_h, p.k_w],
        y.dims@ == seq![p.b_size, p.c_out, p.rows() as usize, p.columns() as usize],
        q.c_in == p.c_out,
        q.k_h == p.k_h,
        q.k_w == p.k_w,
        q.i_h == p.rows(),
        q.i_w == p.columns(),
        q.stride == p.stride && q.dilation == p.dilation && q.padding == p.padding,
    ensures
        conv_transpose2d_at(y, w, q, b, d, i / p.i_w as int, i % p.i_w as int) == total(
            |c: int|
                total(
                    |o: int|
                        y.at4(b, c, o / p.columns(), o % p.columns()).spec_times(
                            coupling2d(w, p, c, o, d, i),
                        ),
                    (p.rows() * p.columns()) as nat,
                ),
            p.c_out as nat,
        ),
{
    let (ys, ws) = (flat_image(y, b), flat_column(w, d));
    let hit = hit2d(q, i / p.i_w as int, i % p.i_w as int);
    let (m, co, taps) = (
        (p.rows() * p.columns()) as nat,
        p.c_out as nat,
        (p.k_h * p.k_w) as nat,
    );
    assert(p.rows() * p.columns() >= 0 && p.k_h * p.k_w >= 0) by (nonlinear_arith)
        requires
            p.rows() >= 0,
            p.columns() >= 0,
            p.k_h >= 0,
            p.k_w >= 0,
    ;
    lemma_scatter_couples(ys, ws, hit, taps, m, co);
    let stated = |c: int|
        total(
            |o: int|
                ys(c, o).spec_times(
                    total(
                        |t: int|
                            if hit(t, o) {
                                ws(c, t)
                            } else {
                                E::spec_zero()
                            },
                        taps,
                    ),
                ),
            m,
        );
    let want = |c: int|
        total(
            |o: int|
                y.at4(b, c, o / p.columns(), o % p.columns()).spec_times(
                    coupling2d(w, p, c, o, d, i),
                ),
            m,
        );
    assert forall|c: int| 0 <= c < co implies #[trigger] stated(c) == want(c) by {
        let (r, u) = (
            |o: int|
                ys(c, o).spec_times(
                    total(
                        |t: int|
                            if hit(t, o) {
                                ws(c, t)
                            } else {
                                E::spec_zero()
                            },
                        taps,
                    ),
                ),
            |o: int|
                y.at4(b, c, o / p.columns(), o % p.columns()).spec_times(
                    coupling2d(w, p, c, o, d, i),
                ),
        );
        assert forall|o: int| 0 <= o < m implies #[trigger] r(o) == u(o) by {
            let (one, other) = (
                |t: int|
                    if hit(t, o) {
                        ws(c, t)
                    } else {
                        E::spec_zero()
                    },
                |t: int| weight2d(w, p, c, o, d, i, t),
            );
            assert forall|t: int| 0 <= t < taps implies #[trigger] one(t) == other(t) by {}
            lemma_total_congruent(one, other, taps);
        }
        lemma_total_congruent(r, u, m);
    }
    lemma_total_congruent(stated, want, co);
    assert((p.k_h * p.k_w) * ((p.rows() * p.columns()) * p.c_out) == taps * (m * co));
}

/// Where the elements of entry `b` of four extents lie, the last two of which are flattened.
proof fn lemma_entry(b: int, n: int, h: int, w: int, q: int)
    requires
        0 <= b,
        0 <= q < n * (h * w),
        0 <= n,
        0 <= h,
        0 <= w,
    ensures
        ({
            let (c, i) = (q / (h * w), q % (h * w));
            &&& 0 <= c < n
            &&& 0 <= i < h * w
            &&& 0 <= i / w < h
            &&& 0 <= i % w < w
            &&& ((b * n + c) * h + i / w) * w + i % w == b * (n * (h * w)) + q
        }),
{
    let l = h * w;
    assert(l > 0 && w > 0) by (nonlinear_arith)
        requires
            0 <= q < n * l,
            l == h * w,
            0 <= n,
            0 <= h,
            0 <= w,
    ;
    crate::arith::lemma_index_join(q, n, l);
    let (c, i) = (q / l, q % l);
    crate::arith::lemma_index_join(i, h, w);
    let (r, v) = (i / w, i % w);
    assert(((b * n + c) * h + r) * w + v == b * (n * (h * w)) + (c * (h * w) + (r * w + v)))
        by (nonlinear_arith);
}

/// The transposed two-dimensional convolution is the adjoint of the convolution with the same
/// kernel, stride, dilation and padding, where the padding of its output makes up for what the
/// strides leave over: its output has the extents of the convolution's input, and multiplying with
/// it there is multiplying with the convolution's output here.
pub proof fn law_transposed2d_is_adjoint<E: Exact>(
    x: Tensor<E>,
    w: Tensor<E>,
    y: Tensor<E>,
    z: Tensor<E>,
    r: Result<Tensor<E>>,
    padding: usize,
    output_padding: usize,
    stride: usize,
    dilation: usize,
    cudnn_fwd_algo: Option<CudnnFwdAlgo>,
)
    requires
        x.wf(),
        w.wf(),
        y.wf(),
        conv2d_ends(x, w, padding, stride, dilation, 1),
        conv2d_outcome(Ok(z), x, w, padding, stride, dilation, 1, cudnn_fwd_algo),
        y.dims@ == z.dims@,
        output_padding == (x.dims@[2] + 2 * padding - dilation * (w.dims@[2] - 1) - 1)
            % stride as int,
        output_padding == (x.dims@[3] + 2 * padding - dilation * (w.dims@[3] - 1) - 1)
            % stride as int,
        transpose2d_ends(y, w, padding, output_padding, stride, dilation),
        transpose2d_outcome(r, y, w, padding, output_padding, stride, dilation),
    ensures
        r matches Ok(t) && t.dims@ == x.dims@ && dot(x.data@, t.data@) == dot(z.data@, y.data@),
{
    let p = conv2d_params(x.dims@, w.dims@, padding, stride, dilation, 1, cudnn_fwd_algo);
    let q = transpose2d_params(y.dims@, w.dims@, padding, output_padding, stride, dilation);
    let (s, e, a) = (stride as int, dilation as int, padding as int);
    let (n, ci, ih, iw) = (
        x.dims@[0] as int,
        x.dims@[1] as int,
        x.dims@[2] as int,
        x.dims@[3] as int,
    );
    let (co, mh, mw) = (w.dims@[0] as int, p.rows(), p.columns());
    assert(ci / 1 == ci && co / 1 == co && co % 1 == 0 && w.dims@[1] * 1 == w.dims@[1]);
    assert(p.c_out * 1 == p.c_out);
    assert(conv2d_params(x.dims@, w.dims@, padding, stride, dilation, 1, None).fits());
    crate::arith::lemma_window_positions(ih, a, e, p.k_h as int, s);
    crate::arith::lemma_window_positions(iw, a, e, p.k_w as int, s);
    assert(y.dims@ =~= seq![n as usize, co as usize, mh as usize, mw as usize]);
    assert(q.rows() == ih && q.columns() == iw) by {
        let lh = ih + 2 * a - e * (w.dims@[2] - 1) - 1;
        let lw = iw + 2 * a - e * (w.dims@[3] - 1) - 1;
        vstd::arithmetic::div_mod::lemma_fundamental_div_mod(lh, s);
        vstd::arithmetic::div_mod::lemma_fundamental_div_mod(lw, s);
        assert(s * (lh / s) == (lh / s) * s) by (nonlinear_arith);
        assert(s * (lw / s) == (lw / s) * s) by (nonlinear_arith);
    }
    let t = r->Ok_0;
    assert(t.dims@ =~= x.dims@);
    assert(x.dims@ =~= seq![n as usize, ci as usize, ih as usize, iw as usize]);
    assert(w.dims@ =~= seq![p.c_out, p.c_in, p.k_h, p.k_w]);
    let (nv, nu) = ((ci * (ih * iw)) as nat, (co * (mh * mw)) as nat);
    assert(ci * (ih * iw) >= 0 && co * (mh * mw) >= 0) by (nonlinear_arith)
        requires
            ci >= 0,
            ih >= 0,
            iw >= 0,
            co >= 0,
            mh >= 0,
            mw >= 0,
    ;
    crate::conv2d::lemma_product_four(x.dims@);
    crate::conv2d::lemma_product_four(y.dims@);
    let inputs = |i: int| x.data@[i].spec_times(t.data@[i]);
    let outputs = |i: int| z.data@[i].spec_times(y.data@[i]);
    lemma_total_nest(inputs, n as nat, nv);
    lemma_total_nest(outputs, n as nat, nu);
    let left = |b: int| total(|v: int| inputs(b * nv + v), nv);
    let right = |b: int| total(|u: int| outputs(b * nu + u), nu);
    assert forall|b: int| 0 <= b < n implies #[trigger] left(b) == right(b) by {
        lemma_entry_is_adjoint(x, w, y, z, t, p, q, b);
        lemma_total_congruent(
            |v: int| inputs(b * nv + v),
            |v: int| x.data@[b * nv + v].spec_times(t.data@[b * nv + v]),
            nv,
        );
        lemma_total_congruent(
            |u: int| outputs(b * nu + u),
            |u: int| z.data@[b * nu + u].spec_times(y.data@[b * nu + u]),
            nu,
        );
    }
    lemma_total_congruent(left, right, n as nat);
}

/// One entry of the batch.
proof fn lemma_entry_is_adjoint<E: Exact>(
    x: Tensor<E>,
    w: Tensor<E>,
    y: Tensor<E>,
    z: Tensor<E>,
    t: Tensor<E>,
    p: ParamsConv2D,
    q: ParamsConvTranspose2D,
    b: int,
)
    requires
        x.dims@ == seq![p.b_size, p.c_in, p.i_h, p.i_w],
        w.dims@ == seq![p.c_out, p.c_in, p.k_h, p.k_w],
        y.dims@ == seq![p.b_size, p.c_out, p.rows() as usize, p.columns() as usize],
        t.dims@ == x.dims@,
        z.dims@ == y.dims@,
        0 <= p.rows() <= usize::MAX,
        0 <= p.columns() <= usize::MAX,
        p.k_w > 0,
        p.groups == 1,
        q == transpose2d_params(
            y.dims@,
            w.dims@,
            p.padding,
            q.output_padding,
            p.stride,
            p.dilation,
        ),
        q.rows() == p.i_h,
        q.columns() == p.i_w,
        is_conv2d(z, x, w, p),
        forall|b: int, c: int, oh: int, ow: int|
            0 <= b < q.b_size && 0 <= c < q.c_out && 0 <= oh < q.rows() && 0 <= ow < q.columns()
                ==> #[trigger] t.at4(b, c, oh, ow) == conv_transpose2d_at(y, w, q, b, c, oh, ow),
        0 <= b < p.b_size,
    ensures
        ({
            let nv = p.c_in * (p.i_h * p.i_w);
            let nu = p.c_out * (p.rows() * p.columns());
            total(|v: int| x.data@[b * nv + v].spec_times(t.data@[b * nv + v]), nv as nat)
                == total(
                |u: int| z.data@[b * nu + u].spec_times(y.data@[b * nu + u]),
                nu as nat,
            )
        }),
{
    let (ci, ih, iw) = (p.c_in as int, p.i_h as int, p.i_w as int);
    let (co, mh, mw) = (p.c_out as int, p.rows(), p.columns());
    let (l, m) = (ih * iw, mh * mw);
    let (nv, nu) = (ci * l, co * m);
    assert(l >= 0 && m >= 0) by (nonlinear_arith)
        requires
            l == ih * iw,
            m == mh * mw,
            ih >= 0,
            iw >= 0,
            mh >= 0,
            mw >= 0,
    ;
    assert(nv >= 0 && nu >= 0) by (nonlinear_arith)
        requires
            nv == ci * l,
            nu == co * m,
            ci >= 0,
            l >= 0,
            co >= 0,
            m >= 0,
    ;
    let xv = |v: int| x.data@[b * nv + v];
    let yu = |u: int| y.data@[b * nu + u];
    let matrix = |u: int, v: int| coupling2d(w, p, u / m, u % m, v / l, v % l);
    let applied = |u: int| z.data@[b * nu + u];
    let transposed = |v: int| t.data@[b * nv + v];
    assert(p.c_out * 1 == p.c_out);
    assert forall|u: int| 0 <= u < nu implies #[trigger] applied(u) == total(
        |v: int| xv(v).spec_times(matrix(u, v)),
        nv as nat,
    ) by {
        lemma_entry(b, co, mh, mw, u);
        let (c, o) = (u / m, u % m);
        crate::arith::lemma_index_split(0, c, co);
        assert(0 * co == 0 && 0 * p.c_in == 0);
        assert(z.at4(b, c, o / mw, o % mw) == conv2d_at(
            image(x, b, 0),
            image(w, c, 0),
            p,
            o / mw,
            o % mw,
        ));
        lemma_conv2d_couples(x, w, p, b, c, o);
        let f = |d: int, i: int|
            x.at4(b, d, i / iw, i % iw).spec_times(coupling2d(w, p, c, o, d, i));
        lemma_total_pairs(f, ci as nat, l as nat);
        let nested = |d: int| total(|i: int| f(d, i), l as nat);
        let stated = |d: int|
            total(
                |i: int| x.at4(b, d, i / iw, i % iw).spec_times(coupling2d(w, p, c, o, d, i)),
                l as nat,
            );
        assert forall|d: int| 0 <= d < ci implies #[trigger] nested(d) == stated(d) by {
            lemma_total_congruent(
                |i: int| f(d, i),
                |i: int| x.at4(b, d, i / iw, i % iw).spec_times(coupling2d(w, p, c, o, d, i)),
                l as nat,
            );
        }
        lemma_total_congruent(nested, stated, ci as nat);
        let flat = |v: int| f(v / l, v % l);
        let want = |v: int| xv(v).spec_times(matrix(u, v));
        assert forall|v: int| 0 <= v < nv implies #[trigger] flat(v) == want(v) by {
            lemma_entry(b, ci, ih, iw, v);
        }
        lemma_total_congruent(flat, want, nv as nat);
    }
    assert forall|v: int| 0 <= v < nv implies #[trigger] transposed(v) == total(
        |u: int| yu(u).spec_times(matrix(u, v)),
        nu as nat,
    ) by {
        lemma_entry(b, ci, ih, iw, v);
        let (d, i) = (v / l, v % l);
        assert(t.at4(b, d, i / iw, i % iw) == conv_transpose2d_at(
            y,
            w,
            q,
            b,
            d,
            i / iw,
            i % iw,
        ));
        lemma_transpose2d_couples(y, w, p, q, b, d, i);
        let f = |c: int, o: int|
            y.at4(b, c, o / mw, o % mw).spec_times(coupling2d(w, p, c, o, d, i));
        lemma_total_pairs(f, co as nat, m as nat);
        let nested = |c: int| total(|o: int| f(c, o), m as nat);
        let stated = |c: int|
            total(
                |o: int| y.at4(b, c, o / mw, o % mw).spec_times(coupling2d(w, p, c, o, d, i)),
                m as nat,
            );
        assert forall|c: int| 0 <= c < co implies #[trigger] nested(c) == stated(c) by {
            lemma_total_congruent(
                |o: int| f(c, o),
                |o: int| y.at4(b, c, o / mw, o % mw).spec_times(coupling2d(w, p, c, o, d, i)),
                m as nat,
            );
        }
        lemma_total_congruent(nested, stated, co as nat);
        let flat = |u: int| f(u / m, u % m);
        let want = |u: int| yu(u).spec_times(matrix(u, v));
        assert forall|u: int| 0 <= u < nu implies #[trigger] flat(u) == want(u) by {
            lemma_entry(b, co, mh, mw, u);
        }
        lemma_total_congruent(flat, want, nu as nat);
    }
    lemma_bilinear(xv, yu, matrix, applied, transposed, nv as nat, nu as nat);
    lemma_total_congruent(
        |v: int| xv(v).spec_times(transposed(v)),
        |v: int| x.data@[b * nv + v].spec_times(t.data@[b * nv + v]),
        nv as nat,
    );
    lemma_total_congruent(
        |u: int| applied(u).spec_times(yu(u)),
        |u: int| z.data@[b * nu + u].spec_times(y.data@[b * nu + u]),
        nu as nat,
    );
}

} // verus!
