//! How calls of the transposed convolutions relate: what paddings take off and add, and what
//! groups do.

use crate::arith::window_positions;
use crate::conv::{lemma_narrowed_first, lemma_narrowed_middle, plane, ParamsConvTranspose1D};
use crate::conv_transpose::{
    column, conv_transpose1d_at, conv_transpose2d_at, flat_column, flat_image, hit1d, hit2d,
    is_transpose1d, lemma_scatter_sum_congruent, scatter_sum, transpose1d_ends,
    transpose1d_outcome, transpose1d_params, transpose2d_ends, transpose2d_outcome,
    transpose2d_params, ParamsConvTranspose2D,
};
use crate::error::Result;
use crate::tensor::{narrowed, split_index, Element, Tensor};
use vstd::prelude::*;

verus! {

/// Padding a transposed convolution takes that many positions off both ends: with padding, it
/// gives the middle of what it gives without.
pub proof fn law_padding_takes_off_both_ends<E: Element>(
    t: Tensor<E>,
    full: Tensor<E>,
    x: Tensor<E>,
    w: Tensor<E>,
    padding: usize,
    output_padding: usize,
    stride: usize,
    dilation: usize,
    groups: usize,
)
    requires
        transpose1d_ends(x, w, padding, output_padding, stride, dilation, groups),
        transpose1d_ends(x, w, 0, output_padding, stride, dilation, groups),
        transpose1d_outcome(Ok(t), x, w, padding, output_padding, stride, dilation, groups),
        transpose1d_outcome(Ok(full), x, w, 0, output_padding, stride, dilation, groups),
    ensures
        t.dims@.len() == 3,
        full.dims@ == t.dims@.update(2, (t.dims@[2] + 2 * padding) as usize),
        t.dims@[2] + 2 * padding == full.dims@[2],
        forall|b: int, c: int, o: int|
            0 <= b < t.dims@[0] && 0 <= c < t.dims@[1] && 0 <= o < t.dims@[2] ==> #[trigger] t.at3(
                b,
                c,
                o,
            ) == full.at3(b, c, o + padding),
{
    let p = transpose1d_params(
        x.dims@,
        w.dims@,
        padding,
        output_padding,
        stride,
        dilation,
        groups,
    );
    let q = transpose1d_params(x.dims@, w.dims@, 0, output_padding, stride, dilation, groups);
    lemma_reach_1d(p);
    assert(full.dims@ =~= t.dims@.update(2, (t.dims@[2] + 2 * padding) as usize));
    assert forall|b: int, c: int, o: int|
        0 <= b < t.dims@[0] && 0 <= c < t.dims@[1] && 0 <= o < t.dims@[2] implies #[trigger] t.at3(
        b,
        c,
        o,
    ) == full.at3(b, c, o + padding) by {
        assert(hit1d(p, o) =~= hit1d(q, o + padding));
        let base = (c / p.c_out as int) * p.c_in;
        assert(full.at3(b, c, o + padding) == conv_transpose1d_at(
            plane(x, b, base),
            column(w, c % p.c_out as int, base),
            q,
            o + padding,
        ));
    }
}

/// The reach of the taps is not negative.
proof fn lemma_reach_1d(p: ParamsConvTranspose1D)
    requires
        p.fits(),
    ensures
        p.dilation * (p.k_size - 1) >= 0,
{
    assert(p.dilation * (p.k_size - 1) >= 0) by (nonlinear_arith)
        requires
            p.dilation >= 0,
            p.k_size >= 1,
    ;
}

/// Without a hit there is nothing to add up.
proof fn lemma_nothing_hit<E: Element>(
    x: spec_fn(int, int) -> E,
    w: spec_fn(int, int) -> E,
    hit: spec_fn(int, int) -> bool,
    taps: int,
    positions: int,
    channels: int,
    n: nat,
)
    requires
        0 <= positions,
        0 <= channels,
        n <= taps * (positions * channels),
        forall|t: int, i: int| 0 <= t < taps && 0 <= i < positions ==> !#[trigger] hit(t, i),
    ensures
        scatter_sum(x, w, hit, positions, channels, n) == E::spec_zero(),
    decreases n,
{
    if n > 0 {
        lemma_nothing_hit(x, w, hit, taps, positions, channels, (n - 1) as nat);
        crate::tensor::lemma_join_index(n - 1, taps, positions, channels);
        let (t, i, c) = split_index(n - 1, positions, channels);
        assert(!hit(t, i));
    }
}

/// Padding the output of a transposed convolution adds positions at its end and changes none of
/// the others. What no tap reaches is zero.
pub proof fn law_output_padding_adds_at_the_end<E: Element>(
    t: Tensor<E>,
    bare: Tensor<E>,
    x: Tensor<E>,
    w: Tensor<E>,
    padding: usize,
    output_padding: usize,
    stride: usize,
    dilation: usize,
    groups: usize,
)
    requires
        transpose1d_ends(x, w, padding, output_padding, stride, dilation, groups),
        transpose1d_ends(x, w, padding, 0, stride, dilation, groups),
        transpose1d_outcome(Ok(t), x, w, padding, output_padding, stride, dilation, groups),
        transpose1d_outcome(Ok(bare), x, w, padding, 0, stride, dilation, groups),
    ensures
        t.dims@.len() == 3,
        t.dims@[2] == bare.dims@[2] + output_padding,
        t.dims@ == bare.dims@.update(2, t.dims@[2]),
        forall|b: int, c: int, o: int|
            0 <= b < t.dims@[0] && 0 <= c < t.dims@[1] && 0 <= o < bare.dims@[2]
                ==> #[trigger] t.at3(b, c, o) == bare.at3(b, c, o),
        forall|b: int, c: int, o: int|
            0 <= b < t.dims@[0] && 0 <= c < t.dims@[1] && bare.dims@[2] + padding <= o < t.dims@[2]
                ==> #[trigger] t.at3(b, c, o) == E::spec_zero(),
{
    let p = transpose1d_params(
        x.dims@,
        w.dims@,
        padding,
        output_padding,
        stride,
        dilation,
        groups,
    );
    let q = transpose1d_params(x.dims@, w.dims@, padding, 0, stride, dilation, groups);
    lemma_reach_1d(p);
    assert(t.dims@ =~= bare.dims@.update(2, t.dims@[2]));
    assert forall|b: int, c: int, o: int|
        0 <= b < t.dims@[0] && 0 <= c < t.dims@[1] && 0 <= o < bare.dims@[2] implies #[trigger] t.at3(
        b,
        c,
        o,
    ) == bare.at3(b, c, o) by {
        assert(hit1d(p, o) =~= hit1d(q, o));
        let base = (c / p.c_out as int) * p.c_in;
        assert(bare.at3(b, c, o) == conv_transpose1d_at(
            plane(x, b, base),
            column(w, c % p.c_out as int, base),
            q,
            o,
        ));
    }
    assert forall|b: int, c: int, o: int|
        0 <= b < t.dims@[0] && 0 <= c < t.dims@[1] && bare.dims@[2] + padding <= o
            < t.dims@[2] implies #[trigger] t.at3(b, c, o) == E::spec_zero() by {
        let base = (c / p.c_out as int) * p.c_in;
        let hit = hit1d(p, o);
        assert forall|j: int, l: int| 0 <= j < p.k_size && 0 <= l < p.l_in implies !#[trigger] hit(
            j,
            l,
        ) by {
            lemma_last_reach(l, j, p.l_in as int, p.k_size as int, p.stride as int, p.dilation as int);
        }
        let n = p.k_size * (p.l_in * p.c_in);
        assert(n >= 0) by (nonlinear_arith)
            requires
                n == p.k_size * (p.l_in * p.c_in),
                p.k_size >= 0,
                p.l_in >= 0,
                p.c_in >= 0,
        ;
        lemma_nothing_hit(
            plane(x, b, base),
            column(w, c % p.c_out as int, base),
            hit,
            p.k_size as int,
            p.l_in as int,
            p.c_in as int,
            n as nat,
        );
    }
}

/// No tap reaches farther than the last tap at the last position.
proof fn lemma_last_reach(i: int, j: int, len: int, k: int, stride: int, dilation: int)
    requires
        0 <= i < len,
        0 <= j < k,
        0 <= stride,
        0 <= dilation,
    ensures
        i * stride + j * dilation <= (len - 1) * stride + dilation * (k - 1),
{
    assert(i * stride <= (len - 1) * stride) by (nonlinear_arith)
        requires
            i <= len - 1,
            0 <= stride,
    ;
    assert(j * dilation <= dilation * (k - 1)) by (nonlinear_arith)
        requires
            j <= k - 1,
            0 <= dilation,
    ;
}

/// Padding a two-dimensional transposed convolution takes that many rows and columns off all four
/// sides: with padding, it gives the middle of what it gives without.
pub proof fn law_padding_takes_off_all_sides<E: Element>(
    t: Tensor<E>,
    full: Tensor<E>,
    x: Tensor<E>,
    w: Tensor<E>,
    padding: usize,
    output_padding: usize,
    stride: usize,
    dilation: usize,
)
    requires
        transpose2d_ends(x, w, padding, output_padding, stride, dilation),
        transpose2d_ends(x, w, 0, output_padding, stride, dilation),
        transpose2d_outcome(Ok(t), x, w, padding, output_padding, stride, dilation),
        transpose2d_outcome(Ok(full), x, w, 0, output_padding, stride, dilation),
    ensures
        t.dims@.len() == 4,
        full.dims@.len() == 4,
        full.dims@[0] == t.dims@[0] && full.dims@[1] == t.dims@[1],
        full.dims@[2] == t.dims@[2] + 2 * padding,
        full.dims@[3] == t.dims@[3] + 2 * padding,
        forall|b: int, c: int, oh: int, ow: int|
            0 <= b < t.dims@[0] && 0 <= c < t.dims@[1] && 0 <= oh < t.dims@[2] && 0 <= ow
                < t.dims@[3] ==> #[trigger] t.at4(b, c, oh, ow) == full.at4(
                b,
                c,
                oh + padding,
                ow + padding,
            ),
{
    let p = transpose2d_params(x.dims@, w.dims@, padding, output_padding, stride, dilation);
    let q = transpose2d_params(x.dims@, w.dims@, 0, output_padding, stride, dilation);
    assert forall|b: int, c: int, oh: int, ow: int|
        0 <= b < t.dims@[0] && 0 <= c < t.dims@[1] && 0 <= oh < t.dims@[2] && 0 <= ow
            < t.dims@[3] implies #[trigger] t.at4(b, c, oh, ow) == full.at4(
        b,
        c,
        oh + padding,
        ow + padding,
    ) by {
        assert(hit2d(p, oh, ow) =~= hit2d(q, oh + padding, ow + padding));
        assert(full.at4(b, c, oh + padding, ow + padding) == conv_transpose2d_at(
            x,
            w,
            q,
            b,
            c,
            oh + padding,
            ow + padding,
        ));
    }
}

/// Padding the output of a two-dimensional transposed convolution adds rows at the bottom and
/// columns at the right and changes none of the others. What no tap reaches is zero.
pub proof fn law_output_padding_adds_at_the_far_sides<E: Element>(
    t: Tensor<E>,
    bare: Tensor<E>,
    x: Tensor<E>,
    w: Tensor<E>,
    padding: usize,
    output_padding: usize,
    stride: usize,
    dilation: usize,
)
    requires
        transpose2d_ends(x, w, padding, output_padding, stride, dilation),
        transpose2d_ends(x, w, padding, 0, stride, dilation),
        transpose2d_outcome(Ok(t), x, w, padding, output_padding, stride, dilation),
        transpose2d_outcome(Ok(bare), x, w, padding, 0, stride, dilation),
    ensures
        t.dims@.len() == 4,
        bare.dims@.len() == 4,
        bare.dims@[0] == t.dims@[0] && bare.dims@[1] == t.dims@[1],
        t.dims@[2] == bare.dims@[2] + output_padding,
        t.dims@[3] == bare.dims@[3] + output_padding,
        forall|b: int, c: int, oh: int, ow: int|
            0 <= b < t.dims@[0] && 0 <= c < t.dims@[1] && 0 <= oh < bare.dims@[2] && 0 <= ow
                < bare.dims@[3] ==> #[trigger] t.at4(b, c, oh, ow) == bare.at4(b, c, oh, ow),
        forall|b: int, c: int, oh: int, ow: int|
            0 <= b < t.dims@[0] && 0 <= c < t.dims@[1] && 0 <= oh < t.dims@[2] && 0 <= ow
                < t.dims@[3] && (oh >= bare.dims@[2] + padding || ow >= bare.dims@[3] + padding)
                ==> #[trigger] t.at4(b, c, oh, ow) == E::spec_zero(),
{
    let p = transpose2d_params(x.dims@, w.dims@, padding, output_padding, stride, dilation);
    let q = transpose2d_params(x.dims@, w.dims@, padding, 0, stride, dilation);
    assert forall|b: int, c: int, oh: int, ow: int|
        0 <= b < t.dims@[0] && 0 <= c < t.dims@[1] && 0 <= oh < bare.dims@[2] && 0 <= ow
            < bare.dims@[3] implies #[trigger] t.at4(b, c, oh, ow) == bare.at4(b, c, oh, ow) by {
        assert(hit2d(p, oh, ow) =~= hit2d(q, oh, ow));
        assert(bare.at4(b, c, oh, ow) == conv_transpose2d_at(x, w, q, b, c, oh, ow));
    }
    assert forall|b: int, c: int, oh: int, ow: int|
        0 <= b < t.dims@[0] && 0 <= c < t.dims@[1] && 0 <= oh < t.dims@[2] && 0 <= ow
            < t.dims@[3] && (oh >= bare.dims@[2] + padding || ow >= bare.dims@[3]
            + padding) implies #[trigger] t.at4(b, c, oh, ow) == E::spec_zero() by {
        let hit = hit2d(p, oh, ow);
        let (taps, positions) = (p.k_h * p.k_w, p.i_h * p.i_w);
        assert forall|j: int, i: int| 0 <= j < taps && 0 <= i < positions implies !#[trigger] hit(
            j,
            i,
        ) by {
            crate::arith::lemma_index_join(j, p.k_h as int, p.k_w as int);
            crate::arith::lemma_index_join(i, p.i_h as int, p.i_w as int);
            lemma_last_reach(
                i / p.i_w as int,
                j / p.k_w as int,
                p.i_h as int,
                p.k_h as int,
                p.stride as int,
                p.dilation as int,
            );
            lemma_last_reach(
                i % p.i_w as int,
                j % p.k_w as int,
                p.i_w as int,
                p.k_w as int,
                p.stride as int,
                p.dilation as int,
            );
        }
        let n = taps * (positions * p.c_in);
        assert(positions >= 0 && n >= 0) by (nonlinear_arith)
            requires
                n == (p.k_h * p.k_w) * ((p.i_h * p.i_w) * p.c_in),
                positions == p.i_h * p.i_w,
                p.k_h >= 0,
                p.k_w >= 0,
                p.i_h >= 0,
                p.i_w >= 0,
                p.c_in >= 0,
        ;
        lemma_nothing_hit(
            flat_image(x, b),
            flat_column(w, c),
            hit,
            taps,
            positions,
            p.c_in as int,
            n as nat,
        );
    }
}

/// The groups of a transposed convolution do not mix, and come out in order: what group `g` makes
/// is what a transposed convolution without groups makes of the group's channels and of its rows of
/// the kernel.
pub proof fn law_transposed_groups_do_not_mix<E: Element>(
    t: Tensor<E>,
    x: Tensor<E>,
    w: Tensor<E>,
    t_part: Tensor<E>,
    x_part: Tensor<E>,
    w_part: Tensor<E>,
    r: Result<Tensor<E>>,
    padding: usize,
    output_padding: usize,
    stride: usize,
    dilation: usize,
    groups: usize,
    g: int,
)
    requires
        x.wf(),
        w.wf(),
        transpose1d_ends(x, w, padding, output_padding, stride, dilation, groups),
        transpose1d_outcome(Ok(t), x, w, padding, output_padding, stride, dilation, groups),
        0 <= g < groups,
        ({
            let c_in = (x.dims@[1] as int / groups as int) as usize;
            let c_out = w.dims@[1];
            &&& narrowed(x_part, x, 1, (g * c_in) as usize, c_in)
            &&& narrowed(w_part, w, 0, (g * c_in) as usize, c_in)
            &&& narrowed(t_part, t, 1, (g * c_out) as usize, c_out)
        }),
        transpose1d_outcome(r, x_part, w_part, padding, output_padding, stride, dilation, 1),
    ensures
        r matches Ok(z) && t_part.dims@ == z.dims@ && t_part.data@ == z.data@,
{
    let p = transpose1d_params(
        x.dims@,
        w.dims@,
        padding,
        output_padding,
        stride,
        dilation,
        groups,
    );
    let n = groups as int;
    let (ci, co) = (x.dims@[1] as int / n, w.dims@[1] as int);
    vstd::arithmetic::div_mod::lemma_fundamental_div_mod(x.dims@[1] as int, n);
    assert(x.dims@[1] == n * ci);
    assert(0 <= ci <= n * ci) by (nonlinear_arith)
        requires
            n >= 1,
            n * ci >= 0,
    ;
    crate::conv::lemma_part_bounds(g, n, ci);
    crate::conv::lemma_part_bounds(g, n, co);
    lemma_reach_1d(p);
    let l = p.positions();
    assert(x_part.dims@ =~= seq![x.dims@[0], ci as usize, x.dims@[2]]);
    assert(w_part.dims@ =~= seq![ci as usize, w.dims@[1], w.dims@[2]]);
    assert(t_part.dims@ =~= seq![p.b_size, co as usize, l as usize]);
    assert(ci / 1 == ci && ci % 1 == 0);
    let q = transpose1d_params(
        x_part.dims@,
        w_part.dims@,
        padding,
        output_padding,
        stride,
        dilation,
        1,
    );
    assert(q == p);
    assert(r is Ok);
    let z = r->Ok_0;
    assert(1 * p.c_out == p.c_out);
    assert(is_transpose1d(z, x_part, w_part, p, 1));
    assert(z.dims@ =~= t_part.dims@);
    let total = p.b_size * (co * l);
    crate::arith::lemma_span_three(p.b_size, co as usize, l as usize);
    assert forall|k: int| 0 <= k < total implies #[trigger] t_part.data@[k] == z.data@[k] by {
        crate::tensor::lemma_join_index(k, p.b_size as int, co, l);
        let (b, c, o) = split_index(k, co, l);
        lemma_narrowed_middle(t_part, t, (g * co) as usize, co as usize, b, c, o);
        let whole = g * co + c;
        crate::arith::lemma_index_bound(g, c, n, co);
        crate::arith::lemma_index_split(g, c, co);
        crate::arith::lemma_index_split(0, c, co);
        assert(0 * co == 0 && 0 * p.c_in == 0);
        let base = g * p.c_in;
        assert(t.at3(b, whole, o) == conv_transpose1d_at(
            plane(x, b, base),
            column(w, c, base),
            p,
            o,
        ));
        assert(z.at3(b, c, o) == conv_transpose1d_at(
            plane(x_part, b, 0),
            column(w_part, c, 0),
            p,
            o,
        ));
        let (x1, w1) = (plane(x, b, base), column(w, c, base));
        let (x2, w2) = (plane(x_part, b, 0), column(w_part, c, 0));
        assert forall|d: int, i: int| 0 <= d < p.c_in && 0 <= i < p.l_in implies #[trigger] x1(d, i)
            == x2(d, i) by {
            lemma_narrowed_middle(x_part, x, (g * ci) as usize, ci as usize, b, d, i);
        }
        assert forall|d: int, j: int|
            0 <= d < p.c_in && 0 <= j < p.k_size implies #[trigger] w1(d, j) == w2(d, j) by {
            lemma_narrowed_first(w_part, w, (g * ci) as usize, ci as usize, d, c, j);
        }
        let taps = p.k_size * (p.l_in * p.c_in);
        assert(taps >= 0) by (nonlinear_arith)
            requires
                taps == p.k_size * (p.l_in * p.c_in),
                p.k_size >= 0,
                p.l_in >= 0,
                p.c_in >= 0,
        ;
        lemma_scatter_sum_congruent(
            x1,
            w1,
            x2,
            w2,
            hit1d(p, o),
            p.k_size as int,
            p.l_in as int,
            p.c_in as int,
            taps as nat,
        );
    }
    assert(t_part.data@ =~= z.data@);
}

/// What is spread and cut to a length is as long as it has to be: a window goes over it as often as
/// there were elements to spread. More than a stride would add one.
proof fn lemma_length_goes_back(
    len: int,
    k: int,
    padding: int,
    out_padding: int,
    stride: int,
    dilation: int,
)
    requires
        stride >= 1,
        0 <= out_padding < stride,
    ensures
        window_positions(
            (len - 1) * stride + dilation * (k - 1) + out_padding + 1 - 2 * padding,
            padding,
            dilation,
            k,
            stride,
        ) == len,
{
    crate::arith::lemma_index_split(len - 1, out_padding, stride);
}

/// The output of a transposed convolution is as long as the input of a convolution that gives the
/// transposed one's input its length: the two go back and forth between the same lengths.
pub proof fn law_transposed_length_goes_back(p: ParamsConvTranspose1D)
    requires
        p.stride >= 1,
        p.output_padding < p.stride,
    ensures
        window_positions(
            p.positions(),
            p.padding as int,
            p.dilation as int,
            p.k_size as int,
            p.stride as int,
        ) == p.l_in,
{
    lemma_length_goes_back(
        p.l_in as int,
        p.k_size as int,
        p.padding as int,
        p.output_padding as int,
        p.stride as int,
        p.dilation as int,
    );
}

/// The output of a transposed two-dimensional convolution is as high and as wide as the input of a
/// convolution that gives the transposed one's input its height and width.
pub proof fn law_transposed2d_extents_go_back(p: ParamsConvTranspose2D)
    requires
        p.stride >= 1,
        p.output_padding < p.stride,
    ensures
        window_positions(
            p.rows(),
            p.padding as int,
            p.dilation as int,
            p.k_h as int,
            p.stride as int,
        ) == p.i_h,
        window_positions(
            p.columns(),
            p.padding as int,
            p.dilation as int,
            p.k_w as int,
            p.stride as int,
        ) == p.i_w,
{
    lemma_length_goes_back(
        p.i_h as int,
        p.k_h as int,
        p.padding as int,
        p.output_padding as int,
        p.stride as int,
        p.dilation as int,
    );
    lemma_length_goes_back(
        p.i_w as int,
        p.k_w as int,
        p.padding as int,
        p.output_padding as int,
        p.stride as int,
        p.dilation as int,
    );
}

} // verus!
