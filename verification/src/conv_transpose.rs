//! Transposed convolutions, in one and two dimensions.

use crate::arith::span;
use crate::conv::{plane, ParamsConvTranspose1D};
use crate::error::{Error, Result};
use crate::tensor::{
    chunk_size, chunk_start, narrowed, record, recorded, within, Element, Op, Tensor,
};
use crate::text::{decimal_text, push_decimal};
use vstd::prelude::*;
use vstd::string::*;

verus! {

/// The sum over the first `n` triples of a tap, an input position and a channel, tap by tap and
/// position by position, of input times weight. Only the positions that a tap spreads onto the
/// output position in question are counted.
pub open spec fn scatter_sum<E: Element>(
    x: spec_fn(int, int) -> E,
    w: spec_fn(int, int) -> E,
    hit: spec_fn(int, int) -> bool,
    positions: int,
    channels: int,
    n: nat,
) -> E
    decreases n,
{
    if n == 0 {
        E::spec_zero()
    } else {
        let (tap, i, c) = crate::tensor::split_index(n - 1, positions, channels);
        let sum = scatter_sum(x, w, hit, positions, channels, (n - 1) as nat);
        if hit(tap, i) {
            sum.spec_plus(x(c, i).spec_times(w(c, tap)))
        } else {
            sum
        }
    }
}

/// The sum depends on the elements in range only.
pub proof fn lemma_scatter_sum_congruent<E: Element>(
    x1: spec_fn(int, int) -> E,
    w1: spec_fn(int, int) -> E,
    x2: spec_fn(int, int) -> E,
    w2: spec_fn(int, int) -> E,
    hit: spec_fn(int, int) -> bool,
    taps: int,
    positions: int,
    channels: int,
    n: nat,
)
    requires
        0 <= positions,
        0 <= channels,
        n <= taps * (positions * channels),
        forall|c: int, i: int|
            0 <= c < channels && 0 <= i < positions ==> #[trigger] x1(c, i) == x2(c, i),
        forall|c: int, t: int| 0 <= c < channels && 0 <= t < taps ==> #[trigger] w1(c, t) == w2(c, t),
    ensures
        scatter_sum(x1, w1, hit, positions, channels, n) == scatter_sum(
            x2,
            w2,
            hit,
            positions,
            channels,
            n,
        ),
    decreases n,
{
    if n > 0 {
        lemma_scatter_sum_congruent(
            x1,
            w1,
            x2,
            w2,
            hit,
            taps,
            positions,
            channels,
            (n - 1) as nat,
        );
        crate::tensor::lemma_join_index(n - 1, taps, positions, channels);
    }
}

/// A position that a tap does not spread onto the output adds nothing, in no channel.
proof fn lemma_scatter_sum_skip<E: Element>(
    x: spec_fn(int, int) -> E,
    w: spec_fn(int, int) -> E,
    hit: spec_fn(int, int) -> bool,
    positions: int,
    channels: int,
    tap: int,
    i: int,
    c: nat,
)
    requires
        0 <= tap,
        0 <= i < positions,
        c <= channels,
        !hit(tap, i),
    ensures
        (tap * positions + i) * channels >= 0,
        scatter_sum(
            x,
            w,
            hit,
            positions,
            channels,
            ((tap * positions + i) * channels + c) as nat,
        ) == scatter_sum(
            x,
            w,
            hit,
            positions,
            channels,
            ((tap * positions + i) * channels) as nat,
        ),
    decreases c,
{
    assert(tap * positions >= 0) by (nonlinear_arith)
        requires
            tap >= 0,
            positions >= 0,
    ;
    assert((tap * positions + i) * channels >= 0) by (nonlinear_arith)
        requires
            tap * positions + i >= 0,
            channels >= 0,
    ;
    if c > 0 {
        lemma_scatter_sum_skip(x, w, hit, positions, channels, tap, i, (c - 1) as nat);
        crate::tensor::lemma_split_index(tap, i, c - 1, positions, channels);
    }
}

/// The weights of an output channel, from the input channel `base` on.
pub open spec fn column<E>(w: Tensor<E>, c_out: int, base: int) -> spec_fn(int, int) -> E {
    |c: int, j: int| w.at3(base + c, c_out, j)
}

/// Tap `j` spreads input position `l` onto output position `o`.
pub open spec fn hit1d(p: ParamsConvTranspose1D, o: int) -> spec_fn(int, int) -> bool {
    |j: int, l: int| l * p.stride + j * p.dilation == o + p.padding
}

/// The output of one group of a transposed convolution at `o`.
pub open spec fn conv_transpose1d_at<E: Element>(
    x: spec_fn(int, int) -> E,
    w: spec_fn(int, int) -> E,
    p: ParamsConvTranspose1D,
    o: int,
) -> E {
    scatter_sum(
        x,
        w,
        hit1d(p, o),
        p.l_in as int,
        p.c_in as int,
        (p.k_size * (p.l_in * p.c_in)) as nat,
    )
}

/// What a tap reaches of the output fits in a machine word.
proof fn lemma_reach(stride: int, dilation: int, len: int, k: int, l: int, j: int)
    requires
        0 <= stride,
        0 <= dilation,
        0 <= l < len,
        0 <= j < k,
    ensures
        0 <= l * stride <= (len - 1) * stride,
        0 <= j * dilation <= dilation * (k - 1),
{
    assert(0 <= l * stride <= (len - 1) * stride) by (nonlinear_arith)
        requires
            0 <= l <= len - 1,
            0 <= stride,
    ;
    assert(0 <= j * dilation <= dilation * (k - 1)) by (nonlinear_arith)
        requires
            0 <= j <= k - 1,
            0 <= dilation,
    ;
}

/// The operands of one group of a transposed one-dimensional convolution.
pub open spec fn transpose1d_operands<E>(
    x: Tensor<E>,
    w: Tensor<E>,
    p: ParamsConvTranspose1D,
) -> bool {
    &&& x.wf()
    &&& w.wf()
    &&& x.dims@ == seq![p.b_size, p.c_in, p.l_in]
    &&& w.dims@ == seq![p.c_in, p.c_out, p.k_size]
}

/// The output of one group of a transposed convolution at `o`.
fn conv_transpose1d_element<E: Element>(
    x: &Tensor<E>,
    w: &Tensor<E>,
    p: &ParamsConvTranspose1D,
    b: usize,
    c_out: usize,
    o: usize,
) -> (r: E)
    requires
        transpose1d_operands(*x, *w, *p),
        p.fits(),
        b < p.b_size,
        c_out < p.c_out,
        o < p.positions(),
    ensures
        r == conv_transpose1d_at(plane(*x, b as int, 0), column(*w, c_out as int, 0), *p, o as int),
{
    let ghost px = plane(*x, b as int, 0);
    let ghost pw = column(*w, c_out as int, 0);
    let ghost hit = hit1d(*p, o as int);
    let ghost (len, cs) = (p.l_in as int, p.c_in as int);
    proof {
        crate::arith::lemma_product_le_span(x.dims@);
        crate::arith::lemma_product_le_span(w.dims@);
    }
    let target: usize = o + p.padding;
    let mut sum: E = E::zero();
    let mut j: usize = 0;
    assert((0 * len + 0) * cs == 0) by (nonlinear_arith);
    while j < p.k_size
        invariant
            j <= p.k_size,
            transpose1d_operands(*x, *w, *p),
            x.data@.len() <= usize::MAX,
            w.data@.len() <= usize::MAX,
            p.fits(),
            b < p.b_size,
            c_out < p.c_out,
            target == o + p.padding,
            px == plane(*x, b as int, 0),
            pw == column(*w, c_out as int, 0),
            hit == hit1d(*p, o as int),
            len == p.l_in,
            cs == p.c_in,
            sum == scatter_sum(px, pw, hit, len, cs, ((j * len) * cs) as nat),
        decreases p.k_size - j,
    {
        let mut l: usize = 0;
        while l < p.l_in
            invariant
                j < p.k_size,
                l <= p.l_in,
                transpose1d_operands(*x, *w, *p),
                x.data@.len() <= usize::MAX,
                w.data@.len() <= usize::MAX,
                p.fits(),
                b < p.b_size,
                c_out < p.c_out,
                target == o + p.padding,
                px == plane(*x, b as int, 0),
                pw == column(*w, c_out as int, 0),
                hit == hit1d(*p, o as int),
                len == p.l_in,
                cs == p.c_in,
                sum == scatter_sum(px, pw, hit, len, cs, ((j * len + l) * cs) as nat),
            decreases p.l_in - l,
        {
            proof {
                lemma_reach(
                    p.stride as int,
                    p.dilation as int,
                    len,
                    p.k_size as int,
                    l as int,
                    j as int,
                );
                assert((j * len + l) * cs + cs == (j * len + (l + 1)) * cs) by (nonlinear_arith);
                assert(j * len >= 0) by (nonlinear_arith)
                    requires
                        j >= 0,
                        len >= 0,
                ;
                assert((j * len + l) * cs >= 0) by (nonlinear_arith)
                    requires
                        j * len + l >= 0,
                        cs >= 0,
                ;
            }
            if l * p.stride + j * p.dilation == target {
                assert(hit(j as int, l as int));
                let mut c: usize = 0;
                while c < p.c_in
                    invariant
                        j < p.k_size,
                        l < p.l_in,
                        c <= p.c_in,
                        transpose1d_operands(*x, *w, *p),
                        x.data@.len() <= usize::MAX,
                        w.data@.len() <= usize::MAX,
                        b < p.b_size,
                        c_out < p.c_out,
                        px == plane(*x, b as int, 0),
                        pw == column(*w, c_out as int, 0),
                        hit(j as int, l as int),
                        len == p.l_in,
                        cs == p.c_in,
                        (j * len + l) * cs >= 0,
                        sum == scatter_sum(px, pw, hit, len, cs, ((j * len + l) * cs + c) as nat),
                    decreases p.c_in - c,
                {
                    proof {
                        crate::tensor::lemma_split_index(
                            j as int,
                            l as int,
                            c as int,
                            len,
                            cs,
                        );
                        crate::conv::lemma_at3_in_range(
                            x.dims@,
                            x.data@.len() as int,
                            b as int,
                            c as int,
                            l as int,
                        );
                        crate::conv::lemma_at3_in_range(
                            w.dims@,
                            w.data@.len() as int,
                            c as int,
                            c_out as int,
                            j as int,
                        );
                    }
                    let xv: E = x.data[(b * p.c_in + c) * p.l_in + l];
                    let wv: E = w.data[(c * p.c_out + c_out) * p.k_size + j];
                    assert(xv == px(c as int, l as int));
                    assert(wv == pw(c as int, j as int));
                    sum = sum.plus(xv.times(wv));
                    c = c + 1;
                }
            } else {
                proof {
                    assert(!hit(j as int, l as int));
                    lemma_scatter_sum_skip(
                        px,
                        pw,
                        hit,
                        len,
                        cs,
                        j as int,
                        l as int,
                        cs as nat,
                    );
                }
            }
            l = l + 1;
        }
        assert((j + 1) * len == j * len + len) by (nonlinear_arith);
        j = j + 1;
    }
    assert((p.k_size * len) * cs == p.k_size * (len * cs)) by (nonlinear_arith);
    sum
}

/// `t` is the output of one group of a transposed one-dimensional convolution.
pub open spec fn is_transpose1d_group<E: Element>(
    t: Tensor<E>,
    x: Tensor<E>,
    w: Tensor<E>,
    p: ParamsConvTranspose1D,
) -> bool {
    &&& t.wf()
    &&& t.dims@ == seq![p.b_size, p.c_out, p.positions() as usize]
    &&& forall|b: int, c: int, o: int|
        0 <= b < p.b_size && 0 <= c < p.c_out && 0 <= o < p.positions() ==> #[trigger] t.at3(
            b,
            c,
            o,
        ) == conv_transpose1d_at(plane(x, b, 0), column(w, c, 0), p, o)
    &&& t.op == recorded(
        Op::ConvTranspose1D {
            padding: p.padding,
            output_padding: p.output_padding,
            stride: p.stride,
            dilation: p.dilation,
        },
        x.differentiable() || w.differentiable(),
    )
    &&& !t.is_variable
    &&& t.backend == x.backend
}

impl<E: Element> Tensor<E> {
    /// One group of a transposed one-dimensional convolution.
    pub fn conv_transpose1d_single_group(
        &self,
        kernel: &Self,
        params: &ParamsConvTranspose1D,
    ) -> (r: Self)
        requires
            transpose1d_operands(*self, *kernel, *params),
            params.fits(),
            span(seq![params.b_size, params.c_out, params.positions() as usize]) <= usize::MAX,
        ensures
            is_transpose1d_group(r, *self, *kernel, *params),
    {
        let dims: Vec<usize> = params.out_dims();
        let l_out: usize = params.l_out();
        let c_out: usize = params.c_out;
        let total: usize = crate::shape::count(dims.as_slice());
        proof {
            crate::arith::lemma_span_three(params.b_size, c_out, l_out);
        }
        let mut data: Vec<E> = Vec::with_capacity(total);
        let mut q: usize = 0;
        while q < total
            invariant
                q <= total,
                total == params.b_size * (c_out * l_out),
                c_out == params.c_out,
                l_out == params.positions(),
                transpose1d_operands(*self, *kernel, *params),
                params.fits(),
                data@.len() == q,
                forall|i: int|
                    0 <= i < q ==> #[trigger] data@[i] == ({
                        let (b, c, o) = crate::tensor::split_index(i, c_out as int, l_out as int);
                        conv_transpose1d_at(plane(*self, b, 0), column(*kernel, c, 0), *params, o)
                    }),
            decreases total - q,
        {
            proof {
                crate::tensor::lemma_join_index(
                    q as int,
                    params.b_size as int,
                    c_out as int,
                    l_out as int,
                );
            }
            let h: usize = q / l_out;
            let b: usize = h / c_out;
            let c: usize = h % c_out;
            let o: usize = q % l_out;
            data.push(conv_transpose1d_element(self, kernel, params, b, c, o));
            q = q + 1;
        }
        let r: Tensor<E> = Tensor {
            dims,
            data,
            is_variable: false,
            op: record(
                Op::ConvTranspose1D {
                    padding: params.padding,
                    output_padding: params.output_padding,
                    stride: params.stride,
                    dilation: params.dilation,
                },
                self.track_op() || kernel.track_op(),
            ),
            backend: self.backend,
        };
        proof {
            assert forall|b: int, c: int, o: int|
                0 <= b < params.b_size && 0 <= c < c_out && 0 <= o < l_out implies #[trigger] r.at3(
                b,
                c,
                o,
            ) == conv_transpose1d_at(plane(*self, b, 0), column(*kernel, c, 0), *params, o) by {
                crate::tensor::lemma_split_index(b, c, o, c_out as int, l_out as int);
                crate::tensor::lemma_index_in_range(
                    b,
                    c,
                    o,
                    params.b_size as int,
                    c_out as int,
                    l_out as int,
                );
            }
        }
        r
    }
}

/// The group that a transposed convolution with these arguments consists of.
pub open spec fn transpose1d_params(
    x: Seq<usize>,
    w: Seq<usize>,
    padding: usize,
    output_padding: usize,
    stride: usize,
    dilation: usize,
    groups: usize,
) -> ParamsConvTranspose1D {
    ParamsConvTranspose1D {
        b_size: x[0],
        l_in: x[2],
        k_size: w[2],
        c_out: w[1],
        c_in: (x[1] as int / groups as int) as usize,
        padding,
        output_padding,
        stride,
        dilation,
    }
}

/// `t` holds the output of a grouped transposed one-dimensional convolution: each group makes as
/// many channels as the kernel has, of its share of the input channels.
pub open spec fn is_transpose1d<E: Element>(
    t: Tensor<E>,
    x: Tensor<E>,
    w: Tensor<E>,
    p: ParamsConvTranspose1D,
    groups: usize,
) -> bool {
    &&& t.wf()
    &&& t.dims@ == seq![p.b_size, (groups * p.c_out) as usize, p.positions() as usize]
    &&& forall|b: int, c: int, o: int|
        0 <= b < p.b_size && 0 <= c < groups * p.c_out && 0 <= o < p.positions()
            ==> #[trigger] t.at3(b, c, o) == conv_transpose1d_at(
            plane(x, b, (c / p.c_out as int) * p.c_in),
            column(w, c % p.c_out as int, (c / p.c_out as int) * p.c_in),
            p,
            o,
        )
    &&& !t.is_variable
    &&& t.backend == x.backend
}

/// The arguments of a transposed one-dimensional convolution are such that it ends.
pub open spec fn transpose1d_ends<E>(
    x: Tensor<E>,
    w: Tensor<E>,
    padding: usize,
    output_padding: usize,
    stride: usize,
    dilation: usize,
    groups: usize,
) -> bool {
    x.dims@.len() == 3 && w.dims@.len() == 3 && x.dims@[1] == w.dims@[0] ==> {
        let p = transpose1d_params(
            x.dims@,
            w.dims@,
            padding,
            output_padding,
            stride,
            dilation,
            groups,
        );
        &&& groups > 0
        &&& x.dims@[1] as int % groups as int == 0 && (groups == 1 || x.dims@[1] > 0) ==> {
            &&& p.fits()
            &&& groups * p.c_out <= usize::MAX
            &&& span(seq![p.b_size, (groups * p.c_out) as usize, p.positions() as usize])
                <= usize::MAX
        }
    }
}

/// Why the input's channels do not fit the kernel.
pub open spec fn in_channel_text(c_in: usize, c_in_k: usize) -> Seq<char> {
    "in_channel mismatch between input ("@ + decimal_text(c_in as nat) + ") and kernel ("@
        + decimal_text(c_in_k as nat) + ")"@
}

/// Why the input's channels cannot be dealt to the groups.
pub open spec fn in_channel_groups_text(c_in: usize) -> Seq<char> {
    "in_channel "@ + decimal_text(c_in as nat) + " is not divisible by the number of groups"@
}

/// What a transposed one-dimensional convolution hands back.
pub open spec fn transpose1d_outcome<E: Element>(
    r: Result<Tensor<E>>,
    x: Tensor<E>,
    w: Tensor<E>,
    padding: usize,
    output_padding: usize,
    stride: usize,
    dilation: usize,
    groups: usize,
) -> bool {
    if w.dims@.len() != 3 {
        r == Err::<Tensor<E>, Error>(
            Error::UnexpectedNumberOfDims { expected: 3, got: w.dims@.len() as usize },
        )
    } else if x.dims@.len() != 3 {
        r == Err::<Tensor<E>, Error>(
            Error::UnexpectedNumberOfDims { expected: 3, got: x.dims@.len() as usize },
        )
    } else if x.dims@[1] != w.dims@[0] {
        r matches Err(e) && e.says(in_channel_text(x.dims@[1], w.dims@[0]))
    } else if x.dims@[1] as int % groups as int != 0 {
        r matches Err(e) && e.says(in_channel_groups_text(x.dims@[1]))
    } else if groups != 1 && x.dims@[1] == 0 {
        r matches Err(e) && e.is_empty_list("cat"@)
    } else {
        &&& r matches Ok(t)
        &&& is_transpose1d(
            t,
            x,
            w,
            transpose1d_params(
                x.dims@,
                w.dims@,
                padding,
                output_padding,
                stride,
                dilation,
                groups,
            ),
            groups,
        )
        &&& t.op == recorded(
            if groups == 1 {
                Op::ConvTranspose1D { padding, output_padding, stride, dilation }
            } else {
                Op::Cat { dim: 1 }
            },
            x.differentiable() || w.differentiable(),
        )
    }
}

/// Words the refusal of operands with different numbers of input channels.
fn in_channel_message(c_in: usize, c_in_k: usize) -> (r: String)
    ensures
        r@ == in_channel_text(c_in, c_in_k),
{
    let mut text: String = "in_channel mismatch between input (".to_owned();
    push_decimal(&mut text, c_in);
    text.append(") and kernel (");
    push_decimal(&mut text, c_in_k);
    text.append(")");
    text
}

impl<E: Element> Tensor<E> {
    /// A transposed one-dimensional convolution, one group at a time, put together along the
    /// channels.
    fn conv_transpose1d_split(
        &self,
        kernel: &Self,
        params: &ParamsConvTranspose1D,
        groups: usize,
    ) -> (r: Result<Self>)
        requires
            self.wf(),
            kernel.wf(),
            groups > 0,
            self.dims@ == seq![params.b_size, (groups * params.c_in) as usize, params.l_in],
            kernel.dims@ == seq![(groups * params.c_in) as usize, params.c_out, params.k_size],
            groups * params.c_in <= usize::MAX,
            params.c_in > 0 ==> {
                &&& params.fits()
                &&& groups * params.c_out <= usize::MAX
                &&& span(
                    seq![
                        params.b_size,
                        (groups * params.c_out) as usize,
                        params.positions() as usize,
                    ],
                ) <= usize::MAX
            },
        ensures
            match r {
                Ok(t) => {
                    &&& params.c_in > 0
                    &&& is_transpose1d(t, *self, *kernel, *params, groups)
                    &&& t.op == recorded(
                        Op::Cat { dim: 1 },
                        self.differentiable() || kernel.differentiable(),
                    )
                },
                Err(e) => params.c_in == 0 && e.is_empty_list("cat"@),
            },
    {
        let c_out: usize = params.c_out;
        let ghost size = self.dims@[1] as int;
        let blocks: Vec<Self> = self.chunk(groups, 1);
        let kernels: Vec<Self> = kernel.chunk(groups, 0);
        let n: usize = if blocks.len() < kernels.len() {
            blocks.len()
        } else {
            kernels.len()
        };
        proof {
            if params.c_in == 0 {
                assert(size == 0) by (nonlinear_arith)
                    requires
                        size == groups * params.c_in,
                        params.c_in == 0,
                ;
                assert(n == 0);
            } else {
                assert forall|g: int| 0 <= g < groups implies #[trigger] chunk_size(
                    size,
                    groups as int,
                    g,
                ) == params.c_in && chunk_start(size, groups as int, g) == g * params.c_in by {
                    crate::conv::lemma_even_chunks(groups as int, params.c_in as int, g);
                }
                crate::conv::lemma_even_chunks(groups as int, params.c_in as int, 0);
                assert(n == groups);
                assert(c_out <= groups * c_out) by (nonlinear_arith)
                    requires
                        groups >= 1,
                        c_out >= 0,
                ;
                crate::conv::lemma_span_middle(
                    params.b_size,
                    c_out,
                    (groups * c_out) as usize,
                    params.positions() as usize,
                );
            }
        }
        let mut outs: Vec<Self> = Vec::new();
        let mut g: usize = 0;
        while g < n
            invariant
                g <= n,
                n <= blocks@.len(),
                n <= kernels@.len(),
                n <= groups,
                n > 0 ==> params.fits(),
                n > 0 ==> span(
                    seq![params.b_size, params.c_out, params.positions() as usize],
                ) <= usize::MAX,
                size == self.dims@[1],
                size == kernel.dims@[0],
                self.dims@ == seq![params.b_size, (groups * params.c_in) as usize, params.l_in],
                kernel.dims@ == seq![
                    (groups * params.c_in) as usize,
                    params.c_out,
                    params.k_size,
                ],
                forall|i: int|
                    0 <= i < blocks@.len() ==> narrowed(
                        #[trigger] blocks@[i],
                        *self,
                        1,
                        chunk_start(size, groups as int, i) as usize,
                        chunk_size(size, groups as int, i) as usize,
                    ),
                forall|i: int|
                    0 <= i < kernels@.len() ==> narrowed(
                        #[trigger] kernels@[i],
                        *kernel,
                        0,
                        chunk_start(size, groups as int, i) as usize,
                        chunk_size(size, groups as int, i) as usize,
                    ),
                n > 0 ==> forall|i: int|
                    0 <= i < groups ==> #[trigger] chunk_size(size, groups as int, i)
                        == params.c_in,
                outs@.len() == g,
                forall|i: int|
                    0 <= i < g ==> is_transpose1d_group(
                        #[trigger] outs@[i],
                        blocks@[i],
                        kernels@[i],
                        *params,
                    ),
            decreases n - g,
        {
            proof {
                assert(chunk_size(size, groups as int, g as int) == params.c_in);
                assert(blocks@[g as int].dims@ =~= seq![
                    params.b_size,
                    params.c_in,
                    params.l_in,
                ]);
                assert(kernels@[g as int].dims@ =~= seq![
                    params.c_in,
                    params.c_out,
                    params.k_size,
                ]);
            }
            let out: Self = blocks[g].conv_transpose1d_single_group(&kernels[g], params);
            outs.push(out);
            g = g + 1;
        }
        proof {
            if n > 0 {
                assert(outs@[0].dims@ == seq![
                    params.b_size,
                    c_out,
                    params.positions() as usize,
                ]);
                assert(outs@[0].dims@.update(1, (n * c_out) as usize) =~= seq![
                    params.b_size,
                    (groups * c_out) as usize,
                    params.positions() as usize,
                ]);
            }
        }
        let r: Result<Self> = Tensor::cat(&outs, 1);
        proof {
            if r is Ok {
                let t = r->Ok_0;
                let (x, w, p) = (*self, *kernel, *params);
                assert forall|b: int, c: int, o: int|
                    0 <= b < p.b_size && 0 <= c < groups * p.c_out && 0 <= o
                        < p.positions() implies #[trigger] t.at3(b, c, o) == conv_transpose1d_at(
                    plane(x, b, (c / p.c_out as int) * p.c_in),
                    column(w, c % p.c_out as int, (c / p.c_out as int) * p.c_in),
                    p,
                    o,
                ) by {
                    assert(c_out > 0) by (nonlinear_arith)
                        requires
                            0 <= c < groups * c_out,
                            c_out >= 0,
                            groups >= 0,
                    ;
                    let i = c % c_out as int;
                    let g = c / c_out as int;
                    crate::arith::lemma_index_join(c, groups as int, c_out as int);
                    crate::conv::lemma_at3_middle(t, b, c, o);
                    crate::conv::lemma_at3_middle(outs@[g], b, i, o);
                    assert(outs@[g].dims@ == outs@[0].dims@);
                    assert(within(outs@[0].dims@, 1, b, i, o));
                    assert(t.along(1, b, g * c_out + i, o) == outs@[g].along(1, b, i, o));
                    assert(is_transpose1d_group(outs@[g], blocks@[g], kernels@[g], p));
                    crate::tensor::lemma_chunk_start(size, groups as int, g);
                    assert(chunk_size(size, groups as int, g) == p.c_in);
                    let start = chunk_start(size, groups as int, g) as usize;
                    let (x1, x2) = (plane(blocks@[g], b, 0), plane(x, b, g * p.c_in));
                    let (w1, w2) = (column(kernels@[g], i, 0), column(w, i, g * p.c_in));
                    assert forall|ci: int, l: int|
                        0 <= ci < p.c_in && 0 <= l < p.l_in implies #[trigger] x1(ci, l) == x2(
                        ci,
                        l,
                    ) by {
                        crate::conv::lemma_narrowed_middle(
                            blocks@[g],
                            x,
                            start,
                            p.c_in,
                            b,
                            ci,
                            l,
                        );
                    }
                    assert forall|ci: int, j: int|
                        0 <= ci < p.c_in && 0 <= j < p.k_size implies #[trigger] w1(ci, j) == w2(
                        ci,
                        j,
                    ) by {
                        crate::conv::lemma_narrowed_first(
                            kernels@[g],
                            w,
                            start,
                            p.c_in,
                            ci,
                            i,
                            j,
                        );
                    }
                    lemma_scatter_sum_congruent(
                        x1,
                        w1,
                        x2,
                        w2,
                        hit1d(p, o),
                        p.k_size as int,
                        p.l_in as int,
                        p.c_in as int,
                        (p.k_size * (p.l_in * p.c_in)) as nat,
                    );
                }
                assert(outs@[0].differentiable() == (self.differentiable()
                    || kernel.differentiable()));
                assert forall|i: int| 0 <= i < n implies (#[trigger] outs@[i]).differentiable() == (
                self.differentiable() || kernel.differentiable()) by {
                    assert(is_transpose1d_group(outs@[i], blocks@[i], kernels@[i], p));
                }
            }
        }
        r
    }

    /// Applies a transposed one-dimensional convolution to `[batch, channels, length]` elements,
    /// with a kernel of `[channels, output channels per group, taps]`.
    pub fn conv_transpose1d(
        &self,
        kernel: &Self,
        padding: usize,
        output_padding: usize,
        stride: usize,
        dilation: usize,
        groups: usize,
    ) -> (r: Result<Self>)
        requires
            self.wf(),
            kernel.wf(),
            transpose1d_ends(
                *self,
                *kernel,
                padding,
                output_padding,
                stride,
                dilation,
                groups,
            ),
        ensures
            transpose1d_outcome(
                r,
                *self,
                *kernel,
                padding,
                output_padding,
                stride,
                dilation,
                groups,
            ),
    {
        let (c_in_k, c_out, k_size) = match kernel.dims3() {
            Ok(dims) => dims,
            Err(e) => {
                return Err(e);
            },
        };
        let (b_size, c_in, l_in) = match self.dims3() {
            Ok(dims) => dims,
            Err(e) => {
                return Err(e);
            },
        };
        if c_in != c_in_k {
            return Err(Error::Msg(in_channel_message(c_in, c_in_k)));
        }
        if c_in % groups != 0 {
            let mut text: String = "in_channel ".to_owned();
            push_decimal(&mut text, c_in);
            text.append(" is not divisible by the number of groups");
            return Err(Error::Msg(text));
        }
        let params: ParamsConvTranspose1D = ParamsConvTranspose1D {
            b_size,
            l_in,
            k_size,
            c_out,
            c_in: c_in / groups,
            padding,
            output_padding,
            stride,
            dilation,
        };
        proof {
            vstd::arithmetic::div_mod::lemma_fundamental_div_mod(c_in as int, groups as int);
            if c_in > 0 {
                assert(params.c_in > 0) by (nonlinear_arith)
                    requires
                        c_in == groups * params.c_in,
                        c_in > 0,
                        params.c_in >= 0,
                ;
            } else {
                assert(params.c_in == 0) by (nonlinear_arith)
                    requires
                        c_in == groups * params.c_in,
                        c_in == 0,
                        groups > 0,
                        params.c_in >= 0,
                ;
            }
        }
        if groups == 1 {
            proof {
                assert(groups * c_out == c_out) by (nonlinear_arith)
                    requires
                        groups == 1,
                ;
                assert(params.c_in == c_in);
            }
            let t: Self = self.conv_transpose1d_single_group(kernel, &params);
            proof {
                assert forall|b: int, c: int, o: int|
                    0 <= b < b_size && 0 <= c < groups * c_out && 0 <= o
                        < params.positions() implies #[trigger] t.at3(b, c, o)
                    == conv_transpose1d_at(
                    plane(*self, b, (c / c_out as int) * params.c_in),
                    column(*kernel, c % c_out as int, (c / c_out as int) * params.c_in),
                    params,
                    o,
                ) by {
                    crate::arith::lemma_index_split(0, c, c_out as int);
                    assert(0 * c_out + c == c);
                    assert(0 * params.c_in == 0);
                }
            }
            Ok(t)
        } else {
            self.conv_transpose1d_split(kernel, &params, groups)
        }
    }
}

/// A transposed two-dimensional convolution.
#[derive(Debug, Clone, Copy, PartialEq, Eq, Structural)]
pub struct ParamsConvTranspose2D {
    pub b_size: usize,
    pub i_h: usize,
    pub i_w: usize,
    pub k_h: usize,
    pub k_w: usize,
    pub c_out: usize,
    pub c_in: usize,
    pub padding: usize,
    pub output_padding: usize,
    pub stride: usize,
    pub dilation: usize,
}

/// The length of the spread input, before both paddings are taken off.
pub open spec fn spread(
    len: int,
    stride: int,
    dilation: int,
    k: int,
    output_padding: int,
) -> int {
    (len - 1) * stride + dilation * (k - 1) + output_padding + 1
}

/// What is computed of an extent of the output is never negative and fits in a machine word.
pub open spec fn spread_fits(
    len: int,
    stride: int,
    dilation: int,
    k: int,
    output_padding: int,
    padding: int,
) -> bool {
    &&& len >= 1
    &&& k >= 1
    &&& 2 * padding <= spread(len, stride, dilation, k, output_padding) <= usize::MAX
}

/// An extent of the output.
fn spread_positions(
    len: usize,
    stride: usize,
    dilation: usize,
    k: usize,
    output_padding: usize,
    padding: usize,
) -> (r: usize)
    requires
        spread_fits(
            len as int,
            stride as int,
            dilation as int,
            k as int,
            output_padding as int,
            padding as int,
        ),
    ensures
        r == spread(len as int, stride as int, dilation as int, k as int, output_padding as int)
            - 2 * padding,
{
    assert(0 <= (len - 1) * stride) by (nonlinear_arith)
        requires
            len >= 1,
            stride >= 0,
    ;
    assert(0 <= dilation * (k - 1)) by (nonlinear_arith)
        requires
            k >= 1,
            dilation >= 0,
    ;
    (len - 1) * stride + dilation * (k - 1) + output_padding + 1 - 2 * padding
}

impl ParamsConvTranspose2D {
    /// Both extents of the output can be computed.
    pub open spec fn fits(self) -> bool {
        &&& spread_fits(
            self.i_h as int,
            self.stride as int,
            self.dilation as int,
            self.k_h as int,
            self.output_padding as int,
            self.padding as int,
        )
        &&& spread_fits(
            self.i_w as int,
            self.stride as int,
            self.dilation as int,
            self.k_w as int,
            self.output_padding as int,
            self.padding as int,
        )
    }

    /// The height of the output.
    pub open spec fn rows(self) -> int {
        spread(
            self.i_h as int,
            self.stride as int,
            self.dilation as int,
            self.k_h as int,
            self.output_padding as int,
        ) - 2 * self.padding
    }

    /// The width of the output.
    pub open spec fn columns(self) -> int {
        spread(
            self.i_w as int,
            self.stride as int,
            self.dilation as int,
            self.k_w as int,
            self.output_padding as int,
        ) - 2 * self.padding
    }

    /// The extents of the output.
    pub open spec fn out_shape(self) -> Seq<usize> {
        seq![self.b_size, self.c_out, self.rows() as usize, self.columns() as usize]
    }

    /// The height of the output.
    pub fn out_h(&self) -> (r: usize)
        requires
            self.fits(),
        ensures
            r == self.rows(),
    {
        spread_positions(
            self.i_h,
            self.stride,
            self.dilation,
            self.k_h,
            self.output_padding,
            self.padding,
        )
    }

    /// The width of the output.
    pub fn out_w(&self) -> (r: usize)
        requires
            self.fits(),
        ensures
            r == self.columns(),
    {
        spread_positions(
            self.i_w,
            self.stride,
            self.dilation,
            self.k_w,
            self.output_padding,
            self.padding,
        )
    }

    /// The extents of the output.
    pub fn out_dims(&self) -> (r: Vec<usize>)
        requires
            self.fits(),
        ensures
            r@ == self.out_shape(),
    {
        let r: Vec<usize> = vec![self.b_size, self.c_out, self.out_h(), self.out_w()];
        assert(r@ =~= self.out_shape());
        r
    }
}

/// The elements of `t` at `a` by channel, the last two dimensions flattened.
pub open spec fn flat_image<E>(t: Tensor<E>, a: int) -> spec_fn(int, int) -> E {
    |c: int, i: int| t.at4(a, c, i / t.dims@[3] as int, i % t.dims@[3] as int)
}

/// The weights of an output channel by input channel, the last two dimensions flattened.
pub open spec fn flat_column<E>(w: Tensor<E>, c_out: int) -> spec_fn(int, int) -> E {
    |c: int, t: int| w.at4(c, c_out, t / w.dims@[3] as int, t % w.dims@[3] as int)
}

/// The tap `t` spreads the input position `i` onto an output row and column.
pub open spec fn hit2d(p: ParamsConvTranspose2D, oh: int, ow: int) -> spec_fn(int, int) -> bool {
    |t: int, i: int|
        {
            &&& (i / p.i_w as int) * p.stride + (t / p.k_w as int) * p.dilation == oh + p.padding
            &&& (i % p.i_w as int) * p.stride + (t % p.k_w as int) * p.dilation == ow + p.padding
        }
}

/// The output of a transposed convolution at a row and column.
pub open spec fn conv_transpose2d_at<E: Element>(
    x: Tensor<E>,
    w: Tensor<E>,
    p: ParamsConvTranspose2D,
    b: int,
    c: int,
    oh: int,
    ow: int,
) -> E {
    let positions = p.i_h * p.i_w;
    scatter_sum(
        flat_image(x, b),
        flat_column(w, c),
        hit2d(p, oh, ow),
        positions,
        p.c_in as int,
        ((p.k_h * p.k_w) * (positions * p.c_in)) as nat,
    )
}

/// The operands of a transposed two-dimensional convolution.
pub open spec fn transpose2d_operands<E>(
    x: Tensor<E>,
    w: Tensor<E>,
    p: ParamsConvTranspose2D,
) -> bool {
    &&& x.wf()
    &&& w.wf()
    &&& x.dims@ == seq![p.b_size, p.c_in, p.i_h, p.i_w]
    &&& w.dims@ == seq![p.c_in, p.c_out, p.k_h, p.k_w]
}

/// The output of a transposed convolution at a row and column.
fn conv_transpose2d_element<E: Element>(
    x: &Tensor<E>,
    w: &Tensor<E>,
    p: &ParamsConvTranspose2D,
    b: usize,
    c_out: usize,
    oh: usize,
    ow: usize,
) -> (r: E)
    requires
        transpose2d_operands(*x, *w, *p),
        p.fits(),
        b < p.b_size,
        c_out < p.c_out,
        oh < p.rows(),
        ow < p.columns(),
    ensures
        r == conv_transpose2d_at(
            *x,
            *w,
            *p,
            b as int,
            c_out as int,
            oh as int,
            ow as int,
        ),
{
    let ghost px = flat_image(*x, b as int);
    let ghost pw = flat_column(*w, c_out as int);
    let ghost hit = hit2d(*p, oh as int, ow as int);
    let ghost cs = p.c_in as int;
    proof {
        crate::arith::lemma_product_le_span(x.dims@);
        crate::arith::lemma_product_le_span(w.dims@);
        crate::conv2d::lemma_product_four(x.dims@);
        crate::conv2d::lemma_product_four(w.dims@);
        crate::arith::lemma_suffix_fits(x.dims@, 2);
        crate::arith::lemma_suffix_fits(w.dims@, 2);
    }
    let len: usize = p.i_h * p.i_w;
    let taps: usize = p.k_h * p.k_w;
    let (row, col) = (oh + p.padding, ow + p.padding);
    let mut sum: E = E::zero();
    let mut t: usize = 0;
    assert((0 * len + 0) * cs == 0) by (nonlinear_arith);
    while t < taps
        invariant
            t <= taps,
            taps == p.k_h * p.k_w,
            len == p.i_h * p.i_w,
            transpose2d_operands(*x, *w, *p),
            x.data@.len() <= usize::MAX,
            w.data@.len() <= usize::MAX,
            p.fits(),
            b < p.b_size,
            c_out < p.c_out,
            row == oh + p.padding,
            col == ow + p.padding,
            px == flat_image(*x, b as int),
            pw == flat_column(*w, c_out as int),
            hit == hit2d(*p, oh as int, ow as int),
            cs == p.c_in,
            sum == scatter_sum(px, pw, hit, len as int, cs, ((t * len) * cs) as nat),
        decreases taps - t,
    {
        proof {
            crate::arith::lemma_index_join(t as int, p.k_h as int, p.k_w as int);
        }
        let (jh, jw) = (t / p.k_w, t % p.k_w);
        let mut i: usize = 0;
        while i < len
            invariant
                t < taps,
                i <= len,
                taps == p.k_h * p.k_w,
                len == p.i_h * p.i_w,
                transpose2d_operands(*x, *w, *p),
                x.data@.len() <= usize::MAX,
                w.data@.len() <= usize::MAX,
                p.fits(),
                b < p.b_size,
                c_out < p.c_out,
                row == oh + p.padding,
                col == ow + p.padding,
                jh == t as int / p.k_w as int,
                jw == t as int % p.k_w as int,
                jh < p.k_h,
                jw < p.k_w,
                px == flat_image(*x, b as int),
                pw == flat_column(*w, c_out as int),
                hit == hit2d(*p, oh as int, ow as int),
                cs == p.c_in,
                sum == scatter_sum(px, pw, hit, len as int, cs, ((t * len + i) * cs) as nat),
            decreases len - i,
        {
            proof {
                crate::arith::lemma_index_join(i as int, p.i_h as int, p.i_w as int);
            }
            let (ih, iw) = (i / p.i_w, i % p.i_w);
            proof {
                lemma_reach(
                    p.stride as int,
                    p.dilation as int,
                    p.i_h as int,
                    p.k_h as int,
                    ih as int,
                    jh as int,
                );
                lemma_reach(
                    p.stride as int,
                    p.dilation as int,
                    p.i_w as int,
                    p.k_w as int,
                    iw as int,
                    jw as int,
                );
                assert((t * len + i) * cs + cs == (t * len + (i + 1)) * cs) by (nonlinear_arith);
                assert(t * len >= 0) by (nonlinear_arith)
                    requires
                        t >= 0,
                        len >= 0,
                ;
                assert((t * len + i) * cs >= 0) by (nonlinear_arith)
                    requires
                        t * len + i >= 0,
                        cs >= 0,
                ;
            }
            if ih * p.stride + jh * p.dilation == row && iw * p.stride + jw * p.dilation == col {
                assert(hit(t as int, i as int));
                let mut c: usize = 0;
                while c < p.c_in
                    invariant
                        t < taps,
                        i < len,
                        c <= p.c_in,
                        taps == p.k_h * p.k_w,
                        len == p.i_h * p.i_w,
                        transpose2d_operands(*x, *w, *p),
                        x.data@.len() <= usize::MAX,
                        w.data@.len() <= usize::MAX,
                        b < p.b_size,
                        c_out < p.c_out,
                        jh == t as int / p.k_w as int,
                        jw == t as int % p.k_w as int,
                        jh < p.k_h,
                        jw < p.k_w,
                        ih == i as int / p.i_w as int,
                        iw == i as int % p.i_w as int,
                        ih < p.i_h,
                        iw < p.i_w,
                        px == flat_image(*x, b as int),
                        pw == flat_column(*w, c_out as int),
                        hit(t as int, i as int),
                        cs == p.c_in,
                        (t * len + i) * cs >= 0,
                        sum == scatter_sum(
                            px,
                            pw,
                            hit,
                            len as int,
                            cs,
                            ((t * len + i) * cs + c) as nat,
                        ),
                    decreases p.c_in - c,
                {
                    proof {
                        crate::tensor::lemma_split_index(
                            t as int,
                            i as int,
                            c as int,
                            len as int,
                            cs,
                        );
                        crate::conv2d::lemma_at4_in_range(
                            x.dims@,
                            x.data@.len() as int,
                            b as int,
                            c as int,
                            ih as int,
                            iw as int,
                        );
                        crate::conv2d::lemma_at4_in_range(
                            w.dims@,
                            w.data@.len() as int,
                            c as int,
                            c_out as int,
                            jh as int,
                            jw as int,
                        );
                    }
                    let xv: E = x.data[((b * p.c_in + c) * p.i_h + ih) * p.i_w + iw];
                    let wv: E = w.data[((c * p.c_out + c_out) * p.k_h + jh) * p.k_w + jw];
                    assert(xv == px(c as int, i as int));
                    assert(wv == pw(c as int, t as int));
                    sum = sum.plus(xv.times(wv));
                    c = c + 1;
                }
            } else {
                proof {
                    assert(!hit(t as int, i as int));
                    lemma_scatter_sum_skip(
                        px,
                        pw,
                        hit,
                        len as int,
                        cs,
                        t as int,
                        i as int,
                        cs as nat,
                    );
                }
            }
            i = i + 1;
        }
        assert((t + 1) * len == t * len + len) by (nonlinear_arith);
        t = t + 1;
    }
    assert((taps * len) * cs == taps * (len * cs)) by (nonlinear_arith);
    sum
}

/// The arguments of a transposed two-dimensional convolution are such that it ends.
pub open spec fn transpose2d_ends<E>(
    x: Tensor<E>,
    w: Tensor<E>,
    padding: usize,
    output_padding: usize,
    stride: usize,
    dilation: usize,
) -> bool {
    x.dims@.len() == 4 && w.dims@.len() == 4 && x.dims@[1] == w.dims@[0] ==> {
        let p = transpose2d_params(
            x.dims@,
            w.dims@,
            padding,
            output_padding,
            stride,
            dilation,
        );
        p.fits() && span(p.out_shape()) <= usize::MAX
    }
}

/// The transposed convolution with these arguments.
pub open spec fn transpose2d_params(
    x: Seq<usize>,
    w: Seq<usize>,
    padding: usize,
    output_padding: usize,
    stride: usize,
    dilation: usize,
) -> ParamsConvTranspose2D {
    ParamsConvTranspose2D {
        b_size: x[0],
        i_h: x[2],
        i_w: x[3],
        k_h: w[2],
        k_w: w[3],
        c_out: w[1],
        c_in: x[1],
        padding,
        output_padding,
        stride,
        dilation,
    }
}

/// What a transposed two-dimensional convolution hands back.
pub open spec fn transpose2d_outcome<E: Element>(
    r: Result<Tensor<E>>,
    x: Tensor<E>,
    w: Tensor<E>,
    padding: usize,
    output_padding: usize,
    stride: usize,
    dilation: usize,
) -> bool {
    if x.dims@.len() != 4 {
        r == Err::<Tensor<E>, Error>(
            Error::UnexpectedNumberOfDims { expected: 4, got: x.dims@.len() as usize },
        )
    } else if w.dims@.len() != 4 {
        r == Err::<Tensor<E>, Error>(
            Error::UnexpectedNumberOfDims { expected: 4, got: w.dims@.len() as usize },
        )
    } else if x.dims@[1] != w.dims@[0] {
        r matches Err(e) && e.says(in_channel_text(x.dims@[1], w.dims@[0]))
    } else {
        let p = transpose2d_params(
            x.dims@,
            w.dims@,
            padding,
            output_padding,
            stride,
            dilation,
        );
        &&& r matches Ok(t)
        &&& t.wf()
        &&& t.dims@ == p.out_shape()
        &&& forall|b: int, c: int, oh: int, ow: int|
            0 <= b < p.b_size && 0 <= c < p.c_out && 0 <= oh < p.rows() && 0 <= ow < p.columns()
                ==> #[trigger] t.at4(b, c, oh, ow) == conv_transpose2d_at(x, w, p, b, c, oh, ow)
        &&& t.op == recorded(
            Op::ConvTranspose2D { padding, output_padding, stride, dilation },
            x.differentiable() || w.differentiable(),
        )
        &&& !t.is_variable
        &&& t.backend == x.backend
    }
}

impl<E: Element> Tensor<E> {
    /// Applies a transposed two-dimensional convolution to `[batch, channels, height, width]`
    /// elements, with a kernel of `[channels, output channels, height, width]`.
    pub fn conv_transpose2d(
        &self,
        kernel: &Self,
        padding: usize,
        output_padding: usize,
        stride: usize,
        dilation: usize,
    ) -> (r: Result<Self>)
        requires
            self.wf(),
            kernel.wf(),
            transpose2d_ends(*self, *kernel, padding, output_padding, stride, dilation),
        ensures
            transpose2d_outcome(
                r,
                *self,
                *kernel,
                padding,
                output_padding,
                stride,
                dilation,
            ),
    {
        let (b_size, c_in, i_h, i_w) = match self.dims4() {
            Ok(dims) => dims,
            Err(e) => {
                return Err(e);
            },
        };
        let (c_in_k, c_out, k_h, k_w) = match kernel.dims4() {
            Ok(dims) => dims,
            Err(e) => {
                return Err(e);
            },
        };
        if c_in != c_in_k {
            return Err(Error::Msg(in_channel_message(c_in, c_in_k)));
        }
        let p: ParamsConvTranspose2D = ParamsConvTranspose2D {
            b_size,
            i_h,
            i_w,
            k_h,
            k_w,
            c_out,
            c_in,
            padding,
            output_padding,
            stride,
            dilation,
        };
        let dims: Vec<usize> = p.out_dims();
        let out_h: usize = p.out_h();
        let out_w: usize = p.out_w();
        let total: usize = crate::shape::count(dims.as_slice());
        proof {
            crate::conv2d::lemma_product_four(dims@);
            crate::arith::lemma_suffix_fits(dims@, 2);
        }
        let area: usize = out_h * out_w;
        let mut data: Vec<E> = Vec::with_capacity(total);
        let mut q: usize = 0;
        while q < total
            invariant
                q <= total,
                total == b_size * (c_out * area),
                area == out_h * out_w,
                b_size == p.b_size,
                c_out == p.c_out,
                out_h == p.rows(),
                out_w == p.columns(),
                transpose2d_operands(*self, *kernel, p),
                p.fits(),
                data@.len() == q,
                forall|i: int|
                    0 <= i < q ==> #[trigger] data@[i] == ({
                        let (b, c, t) = crate::tensor::split_index(i, c_out as int, area as int);
                        conv_transpose2d_at(
                            *self,
                            *kernel,
                            p,
                            b,
                            c,
                            t / out_w as int,
                            t % out_w as int,
                        )
                    }),
            decreases total - q,
        {
            proof {
                crate::tensor::lemma_join_index(
                    q as int,
                    b_size as int,
                    c_out as int,
                    area as int,
                );
            }
            let h: usize = q / area;
            let b: usize = h / c_out;
            let c: usize = h % c_out;
            let t: usize = q % area;
            proof {
                assert(out_w > 0) by (nonlinear_arith)
                    requires
                        0 <= t < out_h * out_w,
                        out_w >= 0,
                        out_h >= 0,
                ;
                crate::arith::lemma_index_join(t as int, out_h as int, out_w as int);
            }
            data.push(conv_transpose2d_element(self, kernel, &p, b, c, t / out_w, t % out_w));
            q = q + 1;
        }
        let r: Tensor<E> = Tensor {
            dims,
            data,
            is_variable: false,
            op: record(
                Op::ConvTranspose2D { padding, output_padding, stride, dilation },
                self.track_op() || kernel.track_op(),
            ),
            backend: self.backend,
        };
        proof {
            assert forall|b: int, c: int, oh: int, ow: int|
                0 <= b < p.b_size && 0 <= c < p.c_out && 0 <= oh < p.rows() && 0 <= ow
                    < p.columns() implies #[trigger] r.at4(b, c, oh, ow) == conv_transpose2d_at(
                *self,
                *kernel,
                p,
                b,
                c,
                oh,
                ow,
            ) by {
                let t = oh * out_w + ow;
                crate::arith::lemma_index_bound(oh, ow, out_h as int, out_w as int);
                crate::arith::lemma_index_split(oh, ow, out_w as int);
                crate::tensor::lemma_split_index(b, c, t, c_out as int, area as int);
                crate::tensor::lemma_index_in_range(
                    b,
                    c,
                    t,
                    b_size as int,
                    c_out as int,
                    area as int,
                );
                let h = b * c_out + c;
                assert((h * out_h + oh) * out_w + ow == h * (out_h * out_w) + (oh * out_w + ow))
                    by (nonlinear_arith);
            }
        }
        Ok(r)
    }
}

} // verus!
