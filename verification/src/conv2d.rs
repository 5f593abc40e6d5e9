//! Two-dimensional convolutions.

use crate::arith::{count_window_positions, product, span, window_fits, window_positions};
use crate::conv::CudnnFwdAlgo;
use crate::error::{Error, Result};
use crate::tensor::{
    chunk_size, chunk_start, narrowed, record, recorded, within, Backend, Element, Op,
    Tensor,
};
use crate::text::{decimal_text, push_decimal};
use vstd::prelude::*;
use vstd::string::*;

verus! {

/// A two-dimensional convolution.
#[derive(Debug, Clone, Copy, PartialEq, Eq, Structural)]
pub struct ParamsConv2D {
    pub b_size: usize,
    pub i_h: usize,
    pub i_w: usize,
    pub k_h: usize,
    pub k_w: usize,
    /// Output channels per group.
    pub c_out: usize,
    /// Input channels per group.
    pub c_in: usize,
    pub padding: usize,
    pub stride: usize,
    pub dilation: usize,
    /// The number of groups. It is one wherever the groups are convolved one at a time.
    pub groups: usize,
    pub cudnn_fwd_algo: Option<CudnnFwdAlgo>,
}

impl ParamsConv2D {
    /// The kernel fits in the padded input at least once.
    pub open spec fn fits(self) -> bool {
        &&& window_fits(
            self.i_h as int,
            self.padding as int,
            self.dilation as int,
            self.k_h as int,
            self.stride as int,
        )
        &&& window_fits(
            self.i_w as int,
            self.padding as int,
            self.dilation as int,
            self.k_w as int,
            self.stride as int,
        )
    }

    /// The rows that the kernel takes.
    pub open spec fn rows(self) -> int {
        window_positions(
            self.i_h as int,
            self.padding as int,
            self.dilation as int,
            self.k_h as int,
            self.stride as int,
        )
    }

    /// The columns that the kernel takes.
    pub open spec fn columns(self) -> int {
        window_positions(
            self.i_w as int,
            self.padding as int,
            self.dilation as int,
            self.k_w as int,
            self.stride as int,
        )
    }

    /// The extents of the output.
    pub open spec fn out_shape(self) -> Seq<usize> {
        seq![
            self.b_size,
            (self.c_out * self.groups) as usize,
            self.rows() as usize,
            self.columns() as usize,
        ]
    }

    /// The kernel fits, and the output can be counted.
    pub open spec fn output_fits(self) -> bool {
        &&& self.fits()
        &&& self.c_out * self.groups <= usize::MAX
        &&& span(self.out_shape()) <= usize::MAX
    }

    /// The height of the output.
    pub fn out_h(&self) -> (r: usize)
        requires
            self.fits(),
        ensures
            r == self.rows(),
            r >= 1,
    {
        count_window_positions(self.i_h, self.padding, self.dilation, self.k_h, self.stride)
    }

    /// The width of the output.
    pub fn out_w(&self) -> (r: usize)
        requires
            self.fits(),
        ensures
            r == self.columns(),
            r >= 1,
    {
        count_window_positions(self.i_w, self.padding, self.dilation, self.k_w, self.stride)
    }

    /// The extents of the output.
    pub fn out_dims(&self) -> (r: Vec<usize>)
        requires
            self.fits(),
            self.c_out * self.groups <= usize::MAX,
        ensures
            r@ == self.out_shape(),
    {
        let r: Vec<usize> = vec![
            self.b_size,
            self.c_out * self.groups,
            self.out_h(),
            self.out_w(),
        ];
        assert(r@ =~= self.out_shape());
        r
    }
}

/// The elements of `t` at `a`, from the channel `base` on.
pub open spec fn image<E>(t: Tensor<E>, a: int, base: int) -> spec_fn(int, int, int) -> E {
    |b: int, c: int, d: int| t.at4(a, base + b, c, d)
}

/// The sum over the first `n` channel and tap triples, channel by channel and row by row, of
/// input times weight. Taps that fall on the padding are left out.
pub open spec fn conv2d_sum<E: Element>(
    x: spec_fn(int, int, int) -> E,
    w: spec_fn(int, int, int) -> E,
    p: ParamsConv2D,
    oh: int,
    ow: int,
    n: nat,
) -> E
    decreases n,
{
    if n == 0 {
        E::spec_zero()
    } else {
        let (c, jh, jw) = crate::tensor::split_index(n - 1, p.k_h as int, p.k_w as int);
        let h = oh * p.stride + jh * p.dilation - p.padding;
        let v = ow * p.stride + jw * p.dilation - p.padding;
        let sum = conv2d_sum(x, w, p, oh, ow, (n - 1) as nat);
        if 0 <= h < p.i_h && 0 <= v < p.i_w {
            sum.spec_plus(x(c, h, v).spec_times(w(c, jh, jw)))
        } else {
            sum
        }
    }
}

/// The output of one group at a row and column: the sum over all channels and taps.
pub open spec fn conv2d_at<E: Element>(
    x: spec_fn(int, int, int) -> E,
    w: spec_fn(int, int, int) -> E,
    p: ParamsConv2D,
    oh: int,
    ow: int,
) -> E {
    conv2d_sum(x, w, p, oh, ow, (p.c_in * (p.k_h * p.k_w)) as nat)
}

/// The sum depends on the elements in range only, and not on the number of groups.
proof fn lemma_conv2d_sum_congruent<E: Element>(
    x1: spec_fn(int, int, int) -> E,
    w1: spec_fn(int, int, int) -> E,
    x2: spec_fn(int, int, int) -> E,
    w2: spec_fn(int, int, int) -> E,
    p1: ParamsConv2D,
    p2: ParamsConv2D,
    oh: int,
    ow: int,
    n: nat,
)
    requires
        p1 == (ParamsConv2D { groups: p1.groups, ..p2 }),
        n <= p1.c_in * (p1.k_h * p1.k_w),
        forall|c: int, h: int, v: int|
            0 <= c < p1.c_in && 0 <= h < p1.i_h && 0 <= v < p1.i_w ==> #[trigger] x1(c, h, v) == x2(
                c,
                h,
                v,
            ),
        forall|c: int, h: int, v: int|
            0 <= c < p1.c_in && 0 <= h < p1.k_h && 0 <= v < p1.k_w ==> #[trigger] w1(c, h, v) == w2(
                c,
                h,
                v,
            ),
    ensures
        conv2d_sum(x1, w1, p1, oh, ow, n) == conv2d_sum(x2, w2, p2, oh, ow, n),
    decreases n,
{
    if n > 0 {
        lemma_conv2d_sum_congruent(x1, w1, x2, w2, p1, p2, oh, ow, (n - 1) as nat);
        crate::tensor::lemma_join_index(n - 1, p1.c_in as int, p1.k_h as int, p1.k_w as int);
    }
}

/// The product of four extents.
pub proof fn lemma_product_four(s: Seq<usize>)
    requires
        s.len() == 4,
    ensures
        product(s) == s[0] * (s[1] * (s[2] * s[3])),
        product(s.skip(2)) == s[2] * s[3],
        product(s.skip(1)) == s[1] * (s[2] * s[3]),
        product(s.take(1)) == s[0],
        product(s.take(0)) == 1,
{
    assert(s.drop_first() =~= seq![s[1], s[2], s[3]]);
    assert(s.skip(1) =~= seq![s[1], s[2], s[3]]);
    assert(s.skip(2) =~= seq![s[2], s[3]]);
    crate::arith::lemma_span_three(s[1], s[2], s[3]);
    crate::arith::lemma_span_two(s[2], s[3]);
    assert(s.take(1) =~= seq![s[0]]);
    assert(s.take(0) =~= Seq::<usize>::empty());
    crate::arith::lemma_product_prefix_step(s, 0);
    assert(product(s.take(0)) * s[0] as nat == s[0]) by (nonlinear_arith)
        requires
            product(s.take(0)) == 1,
    ;
}

/// The element at four indices, seen along the second dimension.
pub proof fn lemma_at4_second<E>(t: Tensor<E>, a: int, b: int, c: int, d: int)
    requires
        t.dims@.len() == 4,
        0 <= c < t.dims@[2],
        0 <= d < t.dims@[3],
    ensures
        t.at4(a, b, c, d) == t.along(1, a, b, c * t.dims@[3] + d),
        0 <= c * t.dims@[3] + d < product(t.dims@.skip(2)),
        product(t.dims@.take(1)) == t.dims@[0],
{
    let s = t.dims@;
    lemma_product_four(s);
    crate::arith::lemma_index_bound(c, d, s[2] as int, s[3] as int);
    let h = a * s[1] + b;
    assert((h * s[2] + c) * s[3] + d == h * (s[2] * s[3]) + (c * s[3] + d)) by (nonlinear_arith);
}

/// The element at four indices, seen along the first dimension.
pub proof fn lemma_at4_first<E>(t: Tensor<E>, a: int, b: int, c: int, d: int)
    requires
        t.dims@.len() == 4,
        0 <= b < t.dims@[1],
        0 <= c < t.dims@[2],
        0 <= d < t.dims@[3],
    ensures
        t.at4(a, b, c, d) == t.along(0, 0, a, (b * t.dims@[2] + c) * t.dims@[3] + d),
        0 <= (b * t.dims@[2] + c) * t.dims@[3] + d < product(t.dims@.skip(1)),
        product(t.dims@.take(0)) == 1,
{
    let s = t.dims@;
    lemma_product_four(s);
    crate::tensor::lemma_index_in_range(b, c, d, s[1] as int, s[2] as int, s[3] as int);
    assert(((a * s[1] + b) * s[2] + c) * s[3] + d == a * (s[1] * (s[2] * s[3])) + ((b * s[2] + c)
        * s[3] + d)) by (nonlinear_arith);
    assert(0 * s[0] == 0);
}

/// Four indices in range address an element.
pub proof fn lemma_at4_in_range(dims: Seq<usize>, len: int, a: int, b: int, c: int, d: int)
    requires
        dims.len() == 4,
        len == product(dims),
        0 <= a < dims[0],
        0 <= b < dims[1],
        0 <= c < dims[2],
        0 <= d < dims[3],
    ensures
        0 <= a * dims[1] <= a * dims[1] + b,
        a * dims[1] + b <= (a * dims[1] + b) * dims[2],
        (a * dims[1] + b) * dims[2] + c <= ((a * dims[1] + b) * dims[2] + c) * dims[3],
        0 <= ((a * dims[1] + b) * dims[2] + c) * dims[3] + d < len,
{
    lemma_product_four(dims);
    let h = a * dims[1] + b;
    crate::arith::lemma_index_bound(a, b, dims[0] as int, dims[1] as int);
    crate::tensor::lemma_index_in_range(
        h,
        c,
        d,
        dims[0] * dims[1],
        dims[2] as int,
        dims[3] as int,
    );
    let area = dims[2] * dims[3];
    assert((dims[0] * dims[1]) * area == dims[0] * (dims[1] * area)) by (nonlinear_arith);
    assert(0 <= a * dims[1]) by (nonlinear_arith)
        requires
            a >= 0,
            dims[1] >= 0,
    ;
    assert(h <= h * dims[2]) by (nonlinear_arith)
        requires
            h >= 0,
            dims[2] >= 1,
    ;
    assert(h * dims[2] + c <= (h * dims[2] + c) * dims[3]) by (nonlinear_arith)
        requires
            h * dims[2] + c >= 0,
            dims[3] >= 1,
    ;
}

/// The operands of a two-dimensional convolution have the extents that `p` says.
pub open spec fn conv2d_operands<E>(x: Tensor<E>, w: Tensor<E>, p: ParamsConv2D) -> bool {
    &&& x.wf()
    &&& w.wf()
    &&& x.dims@.len() == 4
    &&& x.dims@[0] == p.b_size
    &&& x.dims@[1] == p.groups * p.c_in
    &&& x.dims@[2] == p.i_h
    &&& x.dims@[3] == p.i_w
    &&& w.dims@.len() == 4
    &&& w.dims@[0] == p.groups * p.c_out
    &&& w.dims@[1] == p.c_in
    &&& w.dims@[2] == p.k_h
    &&& w.dims@[3] == p.k_w
}

/// `t` holds the output of a grouped two-dimensional convolution: channel `c` is made of the
/// input channels of its group and of row `c` of the kernel.
pub open spec fn is_conv2d<E: Element>(
    t: Tensor<E>,
    x: Tensor<E>,
    w: Tensor<E>,
    p: ParamsConv2D,
) -> bool {
    &&& t.wf()
    &&& t.dims@ == p.out_shape()
    &&& forall|b: int, c: int, oh: int, ow: int|
        0 <= b < p.b_size && 0 <= c < p.c_out * p.groups && 0 <= oh < p.rows() && 0 <= ow
            < p.columns() ==> #[trigger] t.at4(b, c, oh, ow) == conv2d_at(
            image(x, b, (c / p.c_out as int) * p.c_in),
            image(w, c, 0),
            p,
            oh,
            ow,
        )
    &&& !t.is_variable
    &&& t.backend == x.backend
}

/// The output of one group at a row and column, of the channels from `base` on and the weights
/// of `row`.
fn conv2d_element<E: Element>(
    x: &Tensor<E>,
    w: &Tensor<E>,
    p: &ParamsConv2D,
    b: usize,
    base: usize,
    row: usize,
    oh: usize,
    ow: usize,
) -> (r: E)
    requires
        conv2d_operands(*x, *w, *p),
        p.fits(),
        b < p.b_size,
        base + p.c_in <= x.dims@[1],
        row < w.dims@[0],
        oh < p.rows(),
        ow < p.columns(),
    ensures
        r == conv2d_at(
            image(*x, b as int, base as int),
            image(*w, row as int, 0),
            *p,
            oh as int,
            ow as int,
        ),
{
    let ghost px = image(*x, b as int, base as int);
    let ghost pw = image(*w, row as int, 0);
    let channels: usize = x.dims[1];
    proof {
        crate::arith::lemma_product_le_span(x.dims@);
        crate::arith::lemma_product_le_span(w.dims@);
        lemma_product_four(w.dims@);
        crate::arith::lemma_suffix_fits(w.dims@, 1);
        crate::arith::lemma_suffix_fits(w.dims@, 2);
    }
    let taps: usize = p.c_in * (p.k_h * p.k_w);
    let mut sum: E = E::zero();
    let mut n: usize = 0;
    while n < taps
        invariant
            n <= taps,
            taps == p.c_in * (p.k_h * p.k_w),
            conv2d_operands(*x, *w, *p),
            channels == x.dims@[1],
            x.data@.len() <= usize::MAX,
            w.data@.len() <= usize::MAX,
            p.fits(),
            b < p.b_size,
            base + p.c_in <= x.dims@[1],
            row < w.dims@[0],
            oh < p.rows(),
            ow < p.columns(),
            px == image(*x, b as int, base as int),
            pw == image(*w, row as int, 0),
            sum == conv2d_sum(px, pw, *p, oh as int, ow as int, n as nat),
        decreases taps - n,
    {
        proof {
            crate::tensor::lemma_join_index(
                n as int,
                p.c_in as int,
                p.k_h as int,
                p.k_w as int,
            );
        }
        let line: usize = n / p.k_w;
        let c: usize = line / p.k_h;
        let jh: usize = line % p.k_h;
        let jw: usize = n % p.k_w;
        proof {
            crate::conv::lemma_window_tap(
                p.i_h as int,
                p.padding as int,
                p.dilation as int,
                p.k_h as int,
                p.stride as int,
                oh as int,
                jh as int,
            );
            crate::conv::lemma_window_tap(
                p.i_w as int,
                p.padding as int,
                p.dilation as int,
                p.k_w as int,
                p.stride as int,
                ow as int,
                jw as int,
            );
        }
        let ph: usize = oh * p.stride + jh * p.dilation;
        let pv: usize = ow * p.stride + jw * p.dilation;
        if ph >= p.padding && ph - p.padding < p.i_h && pv >= p.padding && pv - p.padding < p.i_w {
            let h: usize = ph - p.padding;
            let v: usize = pv - p.padding;
            proof {
                lemma_at4_in_range(
                    x.dims@,
                    x.data@.len() as int,
                    b as int,
                    base + c,
                    h as int,
                    v as int,
                );
                lemma_at4_in_range(
                    w.dims@,
                    w.data@.len() as int,
                    row as int,
                    c as int,
                    jh as int,
                    jw as int,
                );
            }
            let xv: E = x.data[((b * channels + (base + c)) * p.i_h + h) * p.i_w + v];
            let wv: E = w.data[((row * p.c_in + c) * p.k_h + jh) * p.k_w + jw];
            assert(xv == px(c as int, h as int, v as int));
            assert(wv == pw(c as int, jh as int, jw as int));
            sum = sum.plus(xv.times(wv));
        }
        n = n + 1;
    }
    sum
}

/// The elements of a grouped two-dimensional convolution, all groups at once.
fn conv2d_elements<E: Element>(x: &Tensor<E>, w: &Tensor<E>, p: &ParamsConv2D) -> (r: Vec<E>)
    requires
        conv2d_operands(*x, *w, *p),
        p.output_fits(),
    ensures
        r@.len() == product(p.out_shape()),
        forall|b: int, c: int, oh: int, ow: int|
            0 <= b < p.b_size && 0 <= c < p.c_out * p.groups && 0 <= oh < p.rows() && 0 <= ow
                < p.columns() ==> #[trigger] r@[((b * (p.c_out * p.groups) + c) * p.rows() + oh)
                * p.columns() + ow] == conv2d_at(
                image(*x, b, (c / p.c_out as int) * p.c_in),
                image(*w, c, 0),
                *p,
                oh,
                ow,
            ),
{
    let dims: Vec<usize> = p.out_dims();
    let c_out: usize = p.c_out;
    let channels: usize = c_out * p.groups;
    let out_h: usize = p.out_h();
    let out_w: usize = p.out_w();
    let total: usize = crate::shape::count(dims.as_slice());
    proof {
        lemma_product_four(dims@);
        crate::arith::lemma_suffix_fits(dims@, 2);
    }
    let plane: usize = out_h * out_w;
    let mut data: Vec<E> = Vec::with_capacity(total);
    let mut q: usize = 0;
    while q < total
        invariant
            q <= total,
            total == p.b_size * (channels * plane),
            plane == out_h * out_w,
            channels == c_out * p.groups,
            c_out == p.c_out,
            out_h == p.rows(),
            out_w == p.columns(),
            conv2d_operands(*x, *w, *p),
            p.fits(),
            data@.len() == q,
            forall|i: int|
                0 <= i < q ==> #[trigger] data@[i] == ({
                    let (b, c, t) = crate::tensor::split_index(i, channels as int, plane as int);
                    conv2d_at(
                        image(*x, b, (c / c_out as int) * p.c_in),
                        image(*w, c, 0),
                        *p,
                        t / out_w as int,
                        t % out_w as int,
                    )
                }),
        decreases total - q,
    {
        proof {
            crate::tensor::lemma_join_index(
                q as int,
                p.b_size as int,
                channels as int,
                plane as int,
            );
        }
        let h: usize = q / plane;
        let b: usize = h / channels;
        let c: usize = h % channels;
        let t: usize = q % plane;
        proof {
            crate::arith::lemma_index_join(t as int, out_h as int, out_w as int);
            assert(c_out > 0) by (nonlinear_arith)
                requires
                    0 <= c < c_out * p.groups,
                    c_out >= 0,
                    p.groups >= 0,
            ;
            assert(c_out * p.groups == p.groups * c_out) by (nonlinear_arith);
            crate::arith::lemma_index_join(c as int, p.groups as int, c_out as int);
            let g = c as int / c_out as int;
            assert(g * p.c_in + p.c_in <= p.groups * p.c_in) by (nonlinear_arith)
                requires
                    g + 1 <= p.groups,
                    p.c_in >= 0,
            ;
            assert(0 <= g * p.c_in) by (nonlinear_arith)
                requires
                    g >= 0,
                    p.c_in >= 0,
            ;
        }
        let base: usize = (c / c_out) * p.c_in;
        data.push(conv2d_element(x, w, p, b, base, c, t / out_w, t % out_w));
        q = q + 1;
    }
    proof {
        assert forall|b: int, c: int, oh: int, ow: int|
            0 <= b < p.b_size && 0 <= c < p.c_out * p.groups && 0 <= oh < p.rows() && 0 <= ow
                < p.columns() implies #[trigger] data@[((b * (p.c_out * p.groups) + c) * p.rows()
            + oh) * p.columns() + ow] == conv2d_at(
            image(*x, b, (c / p.c_out as int) * p.c_in),
            image(*w, c, 0),
            *p,
            oh,
            ow,
        ) by {
            let t = oh * out_w + ow;
            crate::arith::lemma_index_bound(oh, ow, out_h as int, out_w as int);
            crate::arith::lemma_index_split(oh, ow, out_w as int);
            crate::tensor::lemma_split_index(b, c, t, channels as int, plane as int);
            crate::tensor::lemma_index_in_range(
                b,
                c,
                t,
                p.b_size as int,
                channels as int,
                plane as int,
            );
            let h = b * channels + c;
            assert((h * out_h + oh) * out_w + ow == h * (out_h * out_w) + (oh * out_w + ow))
                by (nonlinear_arith);
        }
    }
    data
}

impl<E: Element> Tensor<E> {
    /// One group of a two-dimensional convolution.
    pub fn conv2d_single_group(&self, kernel: &Self, params: &ParamsConv2D) -> (r: Self)
        requires
            conv2d_operands(*self, *kernel, *params),
            params.groups == 1,
            params.output_fits(),
        ensures
            is_conv2d(r, *self, *kernel, *params),
            r.op == recorded(
                Op::Conv2D {
                    padding: params.padding,
                    stride: params.stride,
                    dilation: params.dilation,
                },
                self.differentiable() || kernel.differentiable(),
            ),
    {
        Tensor {
            dims: params.out_dims(),
            data: conv2d_elements(self, kernel, params),
            is_variable: false,
            op: record(
                Op::Conv2D {
                    padding: params.padding,
                    stride: params.stride,
                    dilation: params.dilation,
                },
                self.track_op() || kernel.track_op(),
            ),
            backend: self.backend,
        }
    }

    /// All groups of a two-dimensional convolution at once, where the device can do that.
    fn conv2d_grouped(&self, kernel: &Self, params: &ParamsConv2D) -> (r: Option<Self>)
        requires
            conv2d_operands(*self, *kernel, *params),
            self.backend == Backend::Fused ==> params.output_fits(),
        ensures
            match r {
                Some(t) => self.backend == Backend::Fused && is_conv2d(t, *self, *kernel, *params)
                    && t.op is None,
                None => self.backend == Backend::Split,
            },
    {
        match self.backend {
            Backend::Split => None,
            Backend::Fused => Some(
                Tensor {
                    dims: params.out_dims(),
                    data: conv2d_elements(self, kernel, params),
                    is_variable: false,
                    op: None,
                    backend: self.backend,
                },
            ),
        }
    }
}

/// A part of a tensor along its second dimension, element by element.
proof fn lemma_narrowed_second<E>(
    r: Tensor<E>,
    s: Tensor<E>,
    start: usize,
    len: usize,
    a: int,
    b: int,
    c: int,
    d: int,
)
    requires
        s.dims@.len() == 4,
        narrowed(r, s, 1, start, len),
        0 <= a < s.dims@[0],
        0 <= b < len,
        0 <= c < s.dims@[2],
        0 <= d < s.dims@[3],
    ensures
        r.at4(a, b, c, d) == s.at4(a, start + b, c, d),
{
    lemma_at4_second(r, a, b, c, d);
    lemma_at4_second(s, a, start + b, c, d);
    let t = c * s.dims@[3] + d;
    assert(within(r.dims@, 1, a, b, t));
    assert(r.along(1, a, b, t) == s.along(1, a, start + b, t));
}

/// A part of a tensor along its first dimension, element by element.
proof fn lemma_narrowed_first<E>(
    r: Tensor<E>,
    s: Tensor<E>,
    start: usize,
    len: usize,
    a: int,
    b: int,
    c: int,
    d: int,
)
    requires
        s.dims@.len() == 4,
        narrowed(r, s, 0, start, len),
        0 <= a < len,
        0 <= b < s.dims@[1],
        0 <= c < s.dims@[2],
        0 <= d < s.dims@[3],
    ensures
        r.at4(a, b, c, d) == s.at4(start + a, b, c, d),
{
    lemma_at4_first(r, a, b, c, d);
    lemma_at4_first(s, start + a, b, c, d);
    let t = (b * s.dims@[2] + c) * s.dims@[3] + d;
    assert(within(r.dims@, 0, 0, a, t));
    assert(r.along(0, 0, a, t) == s.along(0, 0, start + a, t));
}

/// The same convolution, of one group.
pub open spec fn one_group(p: ParamsConv2D) -> ParamsConv2D {
    ParamsConv2D { groups: 1, ..p }
}

/// The output of one group can be counted where that of all can.
proof fn lemma_one_group_fits(p: ParamsConv2D)
    requires
        p.output_fits(),
        p.groups > 0,
    ensures
        one_group(p).output_fits(),
        one_group(p).out_shape() == p.out_shape().update(1, p.c_out),
{
    let q = one_group(p);
    assert(q.c_out * q.groups == p.c_out) by (nonlinear_arith)
        requires
            q.groups == 1,
            q.c_out == p.c_out,
    ;
    assert(p.c_out <= p.c_out * p.groups) by (nonlinear_arith)
        requires
            p.groups >= 1,
            p.c_out >= 0,
    ;
    assert(q.out_shape() =~= p.out_shape().update(1, p.c_out));
    crate::arith::lemma_span_update(p.out_shape(), 1, p.c_out);
}

impl<E: Element> Tensor<E> {
    /// A grouped two-dimensional convolution, one group at a time, put together along the
    /// channels.
    fn conv2d_split(&self, kernel: &Self, params: &ParamsConv2D) -> (r: Result<Self>)
        requires
            conv2d_operands(*self, *kernel, *params),
            params.groups > 0,
            params.c_in > 0 && params.c_out > 0 ==> params.output_fits(),
        ensures
            match r {
                Ok(t) => {
                    &&& params.c_in > 0 && params.c_out > 0
                    &&& is_conv2d(t, *self, *kernel, *params)
                    &&& t.op == recorded(
                        Op::Cat { dim: 1 },
                        self.differentiable() || kernel.differentiable(),
                    )
                },
                Err(e) => !(params.c_in > 0 && params.c_out > 0) && e.is_empty_list("cat"@),
            },
    {
        let groups: usize = params.groups;
        let c_out: usize = params.c_out;
        let single: ParamsConv2D = ParamsConv2D {
            b_size: params.b_size,
            i_h: params.i_h,
            i_w: params.i_w,
            k_h: params.k_h,
            k_w: params.k_w,
            c_out,
            c_in: params.c_in,
            padding: params.padding,
            stride: params.stride,
            dilation: params.dilation,
            groups: 1,
            cudnn_fwd_algo: params.cudnn_fwd_algo,
        };
        let ghost rows = kernel.dims@[0] as int;
        let ghost size = self.dims@[1] as int;
        let blocks: Vec<Self> = self.chunk(groups, 1);
        let kernels: Vec<Self> = kernel.chunk(groups, 0);
        let n: usize = if blocks.len() < kernels.len() {
            blocks.len()
        } else {
            kernels.len()
        };
        proof {
            if params.c_in == 0 {
                assert(size == 0) by (nonlinear_arith)
                    requires
                        size == groups * params.c_in,
                        params.c_in == 0,
                ;
                assert(n == 0);
            } else if c_out == 0 {
                assert(rows == 0) by (nonlinear_arith)
                    requires
                        rows == groups * c_out,
                        c_out == 0,
                ;
                assert(n == 0);
            } else {
                assert forall|g: int| 0 <= g < groups implies #[trigger] chunk_size(
                    size,
                    groups as int,
                    g,
                ) == params.c_in && chunk_start(size, groups as int, g) == g * params.c_in by {
                    crate::conv::lemma_even_chunks(groups as int, params.c_in as int, g);
                }
                assert forall|g: int| 0 <= g < groups implies #[trigger] chunk_size(
                    rows,
                    groups as int,
                    g,
                ) == c_out && chunk_start(rows, groups as int, g) == g * c_out by {
                    crate::conv::lemma_even_chunks(groups as int, c_out as int, g);
                }
                crate::conv::lemma_even_chunks(groups as int, params.c_in as int, 0);
                crate::conv::lemma_even_chunks(groups as int, c_out as int, 0);
                assert(n == groups);
                lemma_one_group_fits(*params);
                assert(1 * params.c_in == params.c_in && 1 * c_out == c_out);
                assert(groups * c_out == c_out * groups) by (nonlinear_arith);
            }
        }
        let mut outs: Vec<Self> = Vec::new();
        let mut g: usize = 0;
        while g < n
            invariant
                g <= n,
                n <= blocks@.len(),
                n <= kernels@.len(),
                n <= groups,
                conv2d_operands(*self, *kernel, *params),
                single == one_group(*params),
                n > 0 ==> single.output_fits(),
                rows == kernel.dims@[0],
                size == self.dims@[1],
                forall|i: int|
                    0 <= i < blocks@.len() ==> narrowed(
                        #[trigger] blocks@[i],
                        *self,
                        1,
                        chunk_start(size, groups as int, i) as usize,
                        chunk_size(size, groups as int, i) as usize,
                    ),
                forall|i: int|
                    0 <= i < kernels@.len() ==> narrowed(
                        #[trigger] kernels@[i],
                        *kernel,
                        0,
                        chunk_start(rows, groups as int, i) as usize,
                        chunk_size(rows, groups as int, i) as usize,
                    ),
                n > 0 ==> forall|i: int|
                    0 <= i < groups ==> #[trigger] chunk_size(size, groups as int, i)
                        == params.c_in,
                n > 0 ==> forall|i: int|
                    0 <= i < groups ==> #[trigger] chunk_size(rows, groups as int, i)
                        == params.c_out,
                outs@.len() == g,
                forall|i: int|
                    0 <= i < g ==> is_conv2d(#[trigger] outs@[i], blocks@[i], kernels@[i], single)
                        && outs@[i].op == recorded(
                        Op::Conv2D {
                            padding: params.padding,
                            stride: params.stride,
                            dilation: params.dilation,
                        },
                        blocks@[i].differentiable() || kernels@[i].differentiable(),
                    ),
            decreases n - g,
        {
            proof {
                assert(chunk_size(size, groups as int, g as int) == params.c_in);
                assert(chunk_size(rows, groups as int, g as int) == params.c_out);
                assert(1 * params.c_in == params.c_in && 1 * params.c_out == params.c_out);
            }
            let out: Self = blocks[g].conv2d_single_group(&kernels[g], &single);
            outs.push(out);
            g = g + 1;
        }
        proof {
            if n > 0 {
                assert(outs@[0].dims@ == single.out_shape());
                assert(outs@[0].dims@[1] == c_out);
                assert(outs@[0].dims@.update(1, (n * c_out) as usize) =~= params.out_shape());
            }
        }
        let r: Result<Self> = Tensor::cat(&outs, 1);
        proof {
            if r is Ok {
                let t = r->Ok_0;
                let (x, w, p) = (*self, *kernel, *params);
                assert forall|b: int, c: int, oh: int, ow: int|
                    0 <= b < p.b_size && 0 <= c < p.c_out * p.groups && 0 <= oh < p.rows() && 0
                        <= ow < p.columns() implies #[trigger] t.at4(b, c, oh, ow) == conv2d_at(
                    image(x, b, (c / p.c_out as int) * p.c_in),
                    image(w, c, 0),
                    p,
                    oh,
                    ow,
                ) by {
                    let i = c % c_out as int;
                    let g = c / c_out as int;
                    crate::arith::lemma_index_join(c, groups as int, c_out as int);
                    let v = oh * p.columns() + ow;
                    lemma_at4_second(t, b, c, oh, ow);
                    assert(outs@[g].dims@ == outs@[0].dims@);
                    lemma_at4_second(outs@[g], b, i, oh, ow);
                    assert(within(outs@[0].dims@, 1, b, i, v));
                    assert(t.along(1, b, g * c_out + i, v) == outs@[g].along(1, b, i, v));
                    assert(is_conv2d(outs@[g], blocks@[g], kernels@[g], single));
                    assert(chunk_size(size, groups as int, g) == p.c_in);
                    assert(chunk_size(rows, groups as int, g) == c_out);
                    crate::tensor::lemma_chunk_start(size, groups as int, g);
                    crate::tensor::lemma_chunk_start(rows, groups as int, g);
                    assert(i < single.c_out * single.groups);
                    crate::arith::lemma_index_split(0, i, c_out as int);
                    assert(0 * c_out + i == i);
                    let (x1, x2) = (
                        image(blocks@[g], b, (i / single.c_out as int) * single.c_in),
                        image(x, b, g * p.c_in),
                    );
                    assert((i / single.c_out as int) * single.c_in == 0) by (nonlinear_arith)
                        requires
                            i / single.c_out as int == 0,
                    ;
                    let (w1, w2) = (image(kernels@[g], i, 0), image(w, c, 0));
                    assert forall|ci: int, h: int, u: int|
                        0 <= ci < single.c_in && 0 <= h < single.i_h && 0 <= u
                            < single.i_w implies #[trigger] x1(ci, h, u) == x2(ci, h, u) by {
                        lemma_narrowed_second(
                            blocks@[g],
                            x,
                            chunk_start(size, groups as int, g) as usize,
                            p.c_in,
                            b,
                            ci,
                            h,
                            u,
                        );
                    }
                    assert forall|ci: int, h: int, u: int|
                        0 <= ci < single.c_in && 0 <= h < single.k_h && 0 <= u
                            < single.k_w implies #[trigger] w1(ci, h, u) == w2(ci, h, u) by {
                        lemma_narrowed_first(
                            kernels@[g],
                            w,
                            chunk_start(rows, groups as int, g) as usize,
                            c_out,
                            i,
                            ci,
                            h,
                            u,
                        );
                    }
                    lemma_conv2d_sum_congruent(
                        x1,
                        w1,
                        x2,
                        w2,
                        single,
                        p,
                        oh,
                        ow,
                        (p.c_in * (p.k_h * p.k_w)) as nat,
                    );
                }
                assert(outs@[0].differentiable() == (self.differentiable()
                    || kernel.differentiable()));
                assert forall|i: int| 0 <= i < n implies (#[trigger] outs@[i]).differentiable() == (
                self.differentiable() || kernel.differentiable()) by {
                    assert(is_conv2d(outs@[i], blocks@[i], kernels@[i], single));
                }
            }
        }
        r
    }
}

/// The convolution with these arguments.
pub open spec fn conv2d_params(
    x: Seq<usize>,
    w: Seq<usize>,
    padding: usize,
    stride: usize,
    dilation: usize,
    groups: usize,
    cudnn_fwd_algo: Option<CudnnFwdAlgo>,
) -> ParamsConv2D {
    ParamsConv2D {
        b_size: x[0],
        i_h: x[2],
        i_w: x[3],
        k_h: w[2],
        k_w: w[3],
        c_out: (w[0] as int / groups as int) as usize,
        c_in: (x[1] as int / groups as int) as usize,
        padding,
        stride,
        dilation,
        groups,
        cudnn_fwd_algo,
    }
}

/// All groups are evaluated at once: the device can do that, and no gradient flows. The recorded
/// operation knows no groups, so that gradients take the split form.
pub open spec fn conv2d_fused<E>(x: Tensor<E>, w: Tensor<E>) -> bool {
    x.backend == Backend::Fused && !x.differentiable() && !w.differentiable()
}

/// The arguments of a two-dimensional convolution are such that it ends.
pub open spec fn conv2d_ends<E>(
    x: Tensor<E>,
    w: Tensor<E>,
    padding: usize,
    stride: usize,
    dilation: usize,
    groups: usize,
) -> bool {
    x.dims@.len() == 4 && w.dims@.len() == 4 ==> {
        &&& w.dims@[1] * groups <= usize::MAX
        &&& x.dims@[1] == w.dims@[1] * groups ==> {
            &&& groups > 0
            &&& w.dims@[0] as int % groups as int == 0 && (groups == 1 || conv2d_fused(x, w) || (
            w.dims@[1] > 0 && w.dims@[0] > 0)) ==> conv2d_params(
                x.dims@,
                w.dims@,
                padding,
                stride,
                dilation,
                groups,
                None,
            ).output_fits()
        }
    }
}

/// Why the input's channels do not fit the kernel.
pub open spec fn in_channel_text(c_in: usize, groups: usize, c_in_k: usize) -> Seq<char> {
    "in_channel mismatch between input ("@ + decimal_text(c_in as nat) + ", groups "@
        + decimal_text(groups as nat) + ") and kernel ("@ + decimal_text(c_in_k as nat) + ")"@
}

/// Why the kernel's rows cannot be dealt to the groups.
pub open spec fn out_channel_text(c_out: usize, groups: usize) -> Seq<char> {
    "out_channel "@ + decimal_text(c_out as nat) + " is not divisible by groups "@ + decimal_text(
        groups as nat,
    )
}

/// What a two-dimensional convolution hands back.
pub open spec fn conv2d_outcome<E: Element>(
    r: Result<Tensor<E>>,
    x: Tensor<E>,
    w: Tensor<E>,
    padding: usize,
    stride: usize,
    dilation: usize,
    groups: usize,
    cudnn_fwd_algo: Option<CudnnFwdAlgo>,
) -> bool {
    if x.dims@.len() != 4 {
        r == Err::<Tensor<E>, Error>(
            Error::UnexpectedNumberOfDims { expected: 4, got: x.dims@.len() as usize },
        )
    } else if w.dims@.len() != 4 {
        r == Err::<Tensor<E>, Error>(
            Error::UnexpectedNumberOfDims { expected: 4, got: w.dims@.len() as usize },
        )
    } else if x.dims@[1] != w.dims@[1] * groups {
        r matches Err(e) && e.says(in_channel_text(x.dims@[1], groups, w.dims@[1]))
    } else if w.dims@[0] as int % groups as int != 0 {
        r matches Err(e) && e.says(out_channel_text(w.dims@[0], groups))
    } else {
        let fused = conv2d_fused(x, w);
        if groups != 1 && !fused && (w.dims@[1] == 0 || w.dims@[0] == 0) {
            r matches Err(e) && e.is_empty_list("cat"@)
        } else {
            &&& r matches Ok(t)
            &&& is_conv2d(
                t,
                x,
                w,
                conv2d_params(x.dims@, w.dims@, padding, stride, dilation, groups, cudnn_fwd_algo),
            )
            &&& t.op == recorded(
                if groups == 1 {
                    Op::Conv2D { padding, stride, dilation }
                } else {
                    Op::Cat { dim: 1 }
                },
                x.differentiable() || w.differentiable(),
            )
        }
    }
}

impl<E: Element> Tensor<E> {
    /// Applies a two-dimensional convolution to `[batch, channels, height, width]` elements, with
    /// a kernel of `[rows, channels per group, height, width]`.
    pub fn conv2d(
        &self,
        kernel: &Self,
        padding: usize,
        stride: usize,
        dilation: usize,
        groups: usize,
    ) -> (r: Result<Self>)
        requires
            self.wf(),
            kernel.wf(),
            conv2d_ends(*self, *kernel, padding, stride, dilation, groups),
        ensures
            conv2d_outcome(r, *self, *kernel, padding, stride, dilation, groups, None),
    {
        self.conv2d_with_algo(kernel, padding, stride, dilation, groups, None)
    }

    /// Applies a two-dimensional convolution, by the algorithm given where the backend offers
    /// several.
    pub fn conv2d_with_algo(
        &self,
        kernel: &Self,
        padding: usize,
        stride: usize,
        dilation: usize,
        groups: usize,
        cudnn_fwd_algo: Option<CudnnFwdAlgo>,
    ) -> (r: Result<Self>)
        requires
            self.wf(),
            kernel.wf(),
            conv2d_ends(*self, *kernel, padding, stride, dilation, groups),
        ensures
            conv2d_outcome(
                r,
                *self,
                *kernel,
                padding,
                stride,
                dilation,
                groups,
                cudnn_fwd_algo,
            ),
    {
        let (b_size, c_in, i_h, i_w) = match self.dims4() {
            Ok(dims) => dims,
            Err(e) => {
                return Err(e);
            },
        };
        let (c_out, c_in_k, k_h, k_w) = match kernel.dims4() {
            Ok(dims) => dims,
            Err(e) => {
                return Err(e);
            },
        };
        if c_in != c_in_k * groups {
            let mut text: String = "in_channel mismatch between input (".to_owned();
            push_decimal(&mut text, c_in);
            text.append(", groups ");
            push_decimal(&mut text, groups);
            text.append(") and kernel (");
            push_decimal(&mut text, c_in_k);
            text.append(")");
            return Err(Error::Msg(text));
        }
        if c_out % groups != 0 {
            let mut text: String = "out_channel ".to_owned();
            push_decimal(&mut text, c_out);
            text.append(" is not divisible by groups ");
            push_decimal(&mut text, groups);
            return Err(Error::Msg(text));
        }
        let params: ParamsConv2D = ParamsConv2D {
            b_size,
            i_h,
            i_w,
            k_h,
            k_w,
            c_out: c_out / groups,
            c_in: c_in / groups,
            padding,
            stride,
            dilation,
            groups,
            cudnn_fwd_algo,
        };
        proof {
            crate::arith::lemma_index_split(c_in_k as int, 0, groups as int);
            assert(c_in_k * groups == groups * c_in_k) by (nonlinear_arith);
            vstd::arithmetic::div_mod::lemma_fundamental_div_mod(c_out as int, groups as int);
            let p = conv2d_params(
                self.dims@,
                kernel.dims@,
                padding,
                stride,
                dilation,
                groups,
                None,
            );
            assert(params.out_shape() == p.out_shape());
            assert(params.fits() == p.fits());
            assert(conv2d_operands(*self, *kernel, params));
            if c_out > 0 {
                assert(params.c_out > 0) by (nonlinear_arith)
                    requires
                        c_out == groups * params.c_out,
                        c_out > 0,
                        params.c_out >= 0,
                        groups >= 0,
                ;
            } else {
                assert(params.c_out == 0) by (nonlinear_arith)
                    requires
                        c_out == groups * params.c_out,
                        c_out == 0,
                        groups > 0,
                ;
            }
        }
        if groups == 1 {
            return Ok(self.conv2d_single_group(kernel, &params));
        }
        if !self.track_op() && !kernel.track_op() {
            if let Some(t) = self.conv2d_grouped(kernel, &params) {
                return Ok(t);
            }
        }
        self.conv2d_split(kernel, &params)
    }
}

/// A grouped two-dimensional convolution has one result: evaluated at once or one group at a
/// time, on whatever device, the elements are the same.
pub proof fn law_fused_is_split<E: Element>(
    fused: Tensor<E>,
    split: Tensor<E>,
    x: Tensor<E>,
    w: Tensor<E>,
    p: ParamsConv2D,
)
    requires
        conv2d_operands(x, w, p),
        p.output_fits(),
        is_conv2d(fused, x, w, p),
        is_conv2d(split, x, w, p),
    ensures
        fused.dims@ == split.dims@,
        fused.data@ == split.data@,
{
    let s = p.out_shape();
    crate::arith::lemma_window_positions(
        p.i_h as int,
        p.padding as int,
        p.dilation as int,
        p.k_h as int,
        p.stride as int,
    );
    crate::arith::lemma_window_positions(
        p.i_w as int,
        p.padding as int,
        p.dilation as int,
        p.k_w as int,
        p.stride as int,
    );
    lemma_product_four(s);
    let area = s[2] * s[3];
    assert forall|q: int| 0 <= q < fused.data@.len() implies #[trigger] fused.data@[q]
        == split.data@[q] by {
        crate::tensor::lemma_join_index(q, s[0] as int, s[1] as int, area);
        let (b, c, t) = crate::tensor::split_index(q, s[1] as int, area);
        crate::arith::lemma_index_join(t, s[2] as int, s[3] as int);
        let (oh, ow) = (t / s[3] as int, t % s[3] as int);
        let h = b * s[1] + c;
        assert((h * s[2] + oh) * s[3] + ow == h * (s[2] * s[3]) + (oh * s[3] + ow))
            by (nonlinear_arith);
        assert(fused.at4(b, c, oh, ow) == split.at4(b, c, oh, ow));
    }
    assert(fused.data@ =~= split.data@);
}

/// The groups of a two-dimensional convolution do not mix, and come out in order: output channel `c`
/// of group `g` is output channel `c` of a convolution without groups of that group's channels with
/// that group's rows of the kernel.
pub proof fn law_groups2d_do_not_mix<E: Element>(
    y: Tensor<E>,
    x: Tensor<E>,
    w: Tensor<E>,
    z: Tensor<E>,
    x_part: Tensor<E>,
    w_part: Tensor<E>,
    p: ParamsConv2D,
    g: int,
)
    requires
        0 <= g < p.groups,
        conv2d_operands(x, w, p),
        is_conv2d(y, x, w, p),
        conv2d_operands(x_part, w_part, (ParamsConv2D { groups: 1, ..p })),
        is_conv2d(z, x_part, w_part, (ParamsConv2D { groups: 1, ..p })),
        p.output_fits(),
        forall|b: int, c: int, h: int, v: int|
            0 <= b < p.b_size && 0 <= c < p.c_in && 0 <= h < p.i_h && 0 <= v < p.i_w
                ==> #[trigger] x_part.at4(b, c, h, v) == x.at4(b, g * p.c_in + c, h, v),
        forall|o: int, c: int, h: int, v: int|
            0 <= o < p.c_out && 0 <= c < p.c_in && 0 <= h < p.k_h && 0 <= v < p.k_w
                ==> #[trigger] w_part.at4(o, c, h, v) == w.at4(g * p.c_out + o, c, h, v),
    ensures
        forall|b: int, c: int, oh: int, ow: int|
            0 <= b < p.b_size && 0 <= c < p.c_out && 0 <= oh < p.rows() && 0 <= ow < p.columns()
                ==> #[trigger] z.at4(b, c, oh, ow) == y.at4(b, g * p.c_out + c, oh, ow),
{
    let one = ParamsConv2D { groups: 1, ..p };
    let co = p.c_out as int;
    crate::arith::lemma_window_positions(
        p.i_h as int,
        p.padding as int,
        p.dilation as int,
        p.k_h as int,
        p.stride as int,
    );
    crate::arith::lemma_window_positions(
        p.i_w as int,
        p.padding as int,
        p.dilation as int,
        p.k_w as int,
        p.stride as int,
    );
    assert forall|b: int, c: int, oh: int, ow: int|
        0 <= b < p.b_size && 0 <= c < p.c_out && 0 <= oh < p.rows() && 0 <= ow
            < p.columns() implies #[trigger] z.at4(b, c, oh, ow) == y.at4(
        b,
        g * p.c_out + c,
        oh,
        ow,
    ) by {
        crate::arith::lemma_index_bound(g, c, p.groups as int, co);
        assert(p.groups * co == co * p.groups) by (nonlinear_arith);
        crate::arith::lemma_index_split(g, c, co);
        crate::arith::lemma_index_split(0, c, co);
        assert(0 * co + c == c && co * 1 == co);
        let x0 = image(x_part, b, 0);
        let x1 = image(x, b, g * p.c_in);
        let w0 = image(w_part, c, 0);
        let w1 = image(w, g * co + c, 0);
        assert forall|i: int, h: int, v: int|
            0 <= i < one.c_in && 0 <= h < one.i_h && 0 <= v < one.i_w implies #[trigger] x0(
            i,
            h,
            v,
        ) == x1(i, h, v) by {
            assert(x_part.at4(b, i, h, v) == x.at4(b, g * p.c_in + i, h, v));
        }
        assert forall|i: int, h: int, v: int|
            0 <= i < one.c_in && 0 <= h < one.k_h && 0 <= v < one.k_w implies #[trigger] w0(
            i,
            h,
            v,
        ) == w1(i, h, v) by {
            assert(w_part.at4(c, i, h, v) == w.at4(g * co + c, i, h, v));
        }
        lemma_conv2d_sum_congruent(
            x0,
            w0,
            x1,
            w1,
            one,
            p,
            oh,
            ow,
            (p.c_in * (p.k_h * p.k_w)) as nat,
        );
        assert(z.at4(b, c, oh, ow) == z.at4(b, 0 * co + c, oh, ow));
    }
}

} // verus!
