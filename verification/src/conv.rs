//! One- and two-dimensional convolutions.

use crate::arith::{count_window_positions, min_int, product, span, window_fits, window_positions};
use crate::error::{Error, Result};
use crate::shape::copy_dims;
use crate::tensor::{
    chunk_count, chunk_size, chunk_start, narrowed, record, recorded, within, Element, Op, Tensor,
};
use vstd::prelude::*;
use vstd::string::*;

verus! {

/// The algorithm that a forward convolution is asked to take, where the backend offers several.
#[derive(Debug, Clone, Copy, PartialEq, Eq, Hash, Structural)]
pub enum CudnnFwdAlgo {
    ImplicitGemm,
    ImplicitPrecompGemm,
    Gemm,
    Direct,
    Fft,
    FftTiling,
    Winograd,
    WinogradNonFused,
    Count,
}

/// One group of a one-dimensional convolution.
#[derive(Debug, Clone, Copy, PartialEq, Eq, Structural)]
pub struct ParamsConv1D {
    pub b_size: usize,
    pub l_in: usize,
    pub c_out: usize,
    pub c_in: usize,
    pub k_size: usize,
    pub padding: usize,
    pub stride: usize,
    pub dilation: usize,
    pub cudnn_fwd_algo: Option<CudnnFwdAlgo>,
}

impl ParamsConv1D {
    /// The kernel fits in the padded input at least once.
    pub open spec fn fits(self) -> bool {
        window_fits(
            self.l_in as int,
            self.padding as int,
            self.dilation as int,
            self.k_size as int,
            self.stride as int,
        )
    }

    /// The positions that the kernel takes.
    pub open spec fn positions(self) -> int {
        window_positions(
            self.l_in as int,
            self.padding as int,
            self.dilation as int,
            self.k_size as int,
            self.stride as int,
        )
    }

    /// The length of the output.
    pub fn l_out(&self) -> (r: usize)
        requires
            self.fits(),
        ensures
            r == self.positions(),
            r >= 1,
    {
        count_window_positions(self.l_in, self.padding, self.dilation, self.k_size, self.stride)
    }

    /// The extents of the output.
    pub fn out_dims(&self) -> (r: Vec<usize>)
        requires
            self.fits(),
        ensures
            r@ == seq![self.b_size, self.c_out, self.positions() as usize],
    {
        let r: Vec<usize> = vec![self.b_size, self.c_out, self.l_out()];
        assert(r@ =~= seq![self.b_size, self.c_out, self.positions() as usize]);
        r
    }
}

/// One group of a transposed one-dimensional convolution.
#[derive(Debug, Clone, Copy, PartialEq, Eq, Structural)]
pub struct ParamsConvTranspose1D {
    pub b_size: usize,
    pub l_in: usize,
    pub c_out: usize,
    pub c_in: usize,
    pub k_size: usize,
    pub padding: usize,
    pub output_padding: usize,
    pub stride: usize,
    pub dilation: usize,
}

impl ParamsConvTranspose1D {
    /// What is computed of the output's length on the way to it is never negative and fits in a
    /// machine word. In particular, both paddings together are no longer than the spread input.
    pub open spec fn fits(self) -> bool {
        &&& self.l_in >= 1
        &&& self.k_size >= 1
        &&& 2 * self.padding <= (self.l_in - 1) * self.stride <= usize::MAX
        &&& self.dilation * (self.k_size - 1) <= usize::MAX
        &&& (self.l_in - 1) * self.stride + self.dilation * (self.k_size - 1) + self.output_padding
            + 1 <= usize::MAX
    }

    /// The length of the output.
    pub open spec fn positions(self) -> int {
        (self.l_in - 1) * self.stride - 2 * self.padding + self.dilation * (self.k_size - 1)
            + self.output_padding + 1
    }

    /// The length of the output.
    pub fn l_out(&self) -> (r: usize)
        requires
            self.fits(),
        ensures
            r == self.positions(),
            r >= 1,
    {
        assert(self.dilation * (self.k_size - 1) >= 0) by (nonlinear_arith)
            requires
                self.dilation >= 0,
                self.k_size >= 1,
        ;
        (self.l_in - 1) * self.stride - 2 * self.padding + self.dilation * (self.k_size - 1)
            + self.output_padding + 1
    }

    /// The extents of the output.
    pub fn out_dims(&self) -> (r: Vec<usize>)
        requires
            self.fits(),
        ensures
            r@ == seq![self.b_size, self.c_out, self.positions() as usize],
    {
        let r: Vec<usize> = vec![self.b_size, self.c_out, self.l_out()];
        assert(r@ =~= seq![self.b_size, self.c_out, self.positions() as usize]);
        r
    }
}

/// Up to how many taps per group the tap-wise lowering pays: both lowerings move the same order
/// of data, and a tap costs about a quarter of a convolution.
pub const DEPTHWISE_TAP_RATIO: usize = 4;

/// Up to how many taps the tap-wise lowering gives the very floats of the reference lowering.
/// Beyond it, vectorized sums are taken in another order, and the tap-wise ones are less exact.
pub const DEPTHWISE_BITEXACT_K_MAX: usize = 7;

/// The tap-wise lowering can take, and is to take, a convolution.
pub open spec fn tapwise(params: ParamsConv1D, groups: usize) -> bool {
    &&& params.c_in == 1
    &&& params.c_out == 1
    &&& params.k_size >= 1
    &&& params.dilation >= 1
    &&& params.stride == 1
    &&& params.k_size <= 4 * groups
    &&& params.k_size <= 7
    &&& params.dilation * (params.k_size - 1) + 1 <= params.l_in + 2 * params.padding
}

/// What `depthwise_1d_applicable` computes fits in a machine word.
pub open spec fn tapwise_countable(params: ParamsConv1D, groups: usize) -> bool {
    &&& DEPTHWISE_TAP_RATIO * groups <= usize::MAX
    &&& params.l_in + 2 * params.padding <= usize::MAX
    &&& params.k_size >= 1 ==> params.dilation * (params.k_size - 1) + 1 <= usize::MAX
}

/// Whether the tap-wise lowering takes this convolution.
///
/// The channels are per group, so one of each is exactly a depthwise convolution. What is turned
/// down here takes the reference lowering: that changes no result, and only costs time.
pub fn depthwise_1d_applicable(params: &ParamsConv1D, groups: usize) -> (r: bool)
    requires
        tapwise_countable(*params, groups),
    ensures
        r == tapwise(*params, groups),
{
    params.c_in == 1 && params.c_out == 1 && params.k_size >= 1 && params.dilation >= 1
        // A larger stride would need a gather per tap, which is slower on the host.
         && params.stride == 1 && params.k_size <= DEPTHWISE_TAP_RATIO * groups && params.k_size
        <= DEPTHWISE_BITEXACT_K_MAX
        // An input that is too short is left to the reference lowering.
         && params.l_in + 2 * params.padding >= params.dilation * (params.k_size - 1) + 1
}

/// A convolution that the tap-wise lowering takes has an output: its length is never computed
/// out of a negative number.
pub proof fn law_tapwise_fits(params: ParamsConv1D, groups: usize)
    requires
        tapwise(params, groups),
        tapwise_countable(params, groups),
    ensures
        params.fits(),
        params.positions() >= 1,
{
    crate::arith::lemma_window_positions(
        params.l_in as int,
        params.padding as int,
        params.dilation as int,
        params.k_size as int,
        params.stride as int,
    );
}

/// The elements of `t` at `a`, from the channel `base` on.
pub open spec fn plane<E>(t: Tensor<E>, a: int, base: int) -> spec_fn(int, int) -> E {
    |b: int, c: int| t.at3(a, base + b, c)
}

/// The sum over the first `n` channel and tap pairs, channel by channel, of input times weight.
/// Taps that fall on the padding are left out.
pub open spec fn conv1d_sum<E: Element>(
    x: spec_fn(int, int) -> E,
    w: spec_fn(int, int) -> E,
    p: ParamsConv1D,
    o: int,
    n: nat,
) -> E
    decreases n,
{
    if n == 0 {
        E::spec_zero()
    } else {
        let c = (n - 1) / p.k_size as int;
        let j = (n - 1) % p.k_size as int;
        let pos = o * p.stride + j * p.dilation - p.padding;
        let sum = conv1d_sum(x, w, p, o, (n - 1) as nat);
        if 0 <= pos < p.l_in {
            sum.spec_plus(x(c, pos).spec_times(w(c, j)))
        } else {
            sum
        }
    }
}

/// The output of one group at `o`: the sum over all channels and taps.
pub open spec fn conv1d_at<E: Element>(
    x: spec_fn(int, int) -> E,
    w: spec_fn(int, int) -> E,
    p: ParamsConv1D,
    o: int,
) -> E {
    conv1d_sum(x, w, p, o, (p.c_in * p.k_size) as nat)
}

/// The sum depends on the elements in range only.
proof fn lemma_conv1d_sum_congruent<E: Element>(
    x1: spec_fn(int, int) -> E,
    w1: spec_fn(int, int) -> E,
    x2: spec_fn(int, int) -> E,
    w2: spec_fn(int, int) -> E,
    p: ParamsConv1D,
    o: int,
    n: nat,
)
    requires
        p.k_size >= 1,
        n <= p.c_in * p.k_size,
        forall|c: int, i: int| 0 <= c < p.c_in && 0 <= i < p.l_in ==> #[trigger] x1(c, i) == x2(c, i),
        forall|c: int, j: int|
            0 <= c < p.c_in && 0 <= j < p.k_size ==> #[trigger] w1(c, j) == w2(c, j),
    ensures
        conv1d_sum(x1, w1, p, o, n) == conv1d_sum(x2, w2, p, o, n),
    decreases n,
{
    if n > 0 {
        lemma_conv1d_sum_congruent(x1, w1, x2, w2, p, o, (n - 1) as nat);
        crate::arith::lemma_index_join(n - 1, p.c_in as int, p.k_size as int);
    }
}

/// The element at three indices, seen along the middle dimension.
pub proof fn lemma_at3_middle<E>(t: Tensor<E>, a: int, b: int, c: int)
    requires
        t.dims@.len() == 3,
    ensures
        t.at3(a, b, c) == t.along(1, a, b, c),
        product(t.dims@.skip(2)) == t.dims@[2],
        product(t.dims@.take(1)) == t.dims@[0],
{
    let s = t.dims@;
    assert(s.skip(2) =~= seq![s[2]]);
    assert(s.take(1) =~= seq![s[0]]);
    lemma_product_one(s[2]);
    lemma_product_one(s[0]);
}

/// The product of one extent.
proof fn lemma_product_one(a: usize)
    ensures
        product(seq![a]) == a,
{
    assert(seq![a].drop_first() =~= Seq::<usize>::empty());
    assert(a as nat * product(Seq::<usize>::empty()) == a) by (nonlinear_arith)
        requires
            product(Seq::<usize>::empty()) == 1,
    ;
}

/// The element at three indices, seen along the first dimension.
proof fn lemma_at3_first<E>(t: Tensor<E>, a: int, b: int, c: int)
    requires
        t.dims@.len() == 3,
        0 <= b < t.dims@[1],
        0 <= c < t.dims@[2],
    ensures
        t.at3(a, b, c) == t.along(0, 0, a, b * t.dims@[2] + c),
        product(t.dims@.skip(1)) == t.dims@[1] * t.dims@[2],
        product(t.dims@.take(0)) == 1,
        0 <= b * t.dims@[2] + c < t.dims@[1] * t.dims@[2],
{
    let s = t.dims@;
    assert(s.skip(1) =~= seq![s[1], s[2]]);
    crate::arith::lemma_span_two(s[1], s[2]);
    assert(s.take(0) =~= Seq::<usize>::empty());
    crate::arith::lemma_index_bound(b, c, s[1] as int, s[2] as int);
    assert((a * s[1] + b) * s[2] + c == a * (s[1] * s[2]) + (b * s[2] + c)) by (nonlinear_arith);
    assert(0 * s[0] == 0);
}

/// Three indices in range address an element.
pub proof fn lemma_at3_in_range(dims: Seq<usize>, len: int, a: int, b: int, c: int)
    requires
        dims.len() == 3,
        len == product(dims),
        0 <= a < dims[0],
        0 <= b < dims[1],
        0 <= c < dims[2],
    ensures
        0 <= a * dims[1] <= a * dims[1] + b,
        0 <= (a * dims[1] + b) * dims[2] + c < len,
        a * dims[1] + b <= (a * dims[1] + b) * dims[2],
{
    assert(dims =~= seq![dims[0], dims[1], dims[2]]);
    crate::arith::lemma_span_three(dims[0], dims[1], dims[2]);
    crate::tensor::lemma_index_in_range(
        a,
        b,
        c,
        dims[0] as int,
        dims[1] as int,
        dims[2] as int,
    );
    assert(a * dims[1] >= 0) by (nonlinear_arith)
        requires
            a >= 0,
            dims[1] >= 0,
    ;
    assert(a * dims[1] + b <= (a * dims[1] + b) * dims[2]) by (nonlinear_arith)
        requires
            dims[2] >= 1,
            a * dims[1] + b >= 0,
    ;
}

/// A tap of a window in range is at most the last padded position.
proof fn lemma_tap_position(p: ParamsConv1D, o: int, j: int)
    requires
        p.fits(),
        0 <= o < p.positions(),
        0 <= j < p.k_size,
    ensures
        0 <= o * p.stride,
        0 <= j * p.dilation,
        o * p.stride + j * p.dilation < p.l_in + 2 * p.padding,
{
    lemma_window_tap(
        p.l_in as int,
        p.padding as int,
        p.dilation as int,
        p.k_size as int,
        p.stride as int,
        o,
        j,
    );
}

/// A tap of a window in range is at most the last padded position.
pub proof fn lemma_window_tap(
    len: int,
    padding: int,
    dilation: int,
    k: int,
    stride: int,
    o: int,
    j: int,
)
    requires
        window_fits(len, padding, dilation, k, stride),
        dilation >= 0,
        0 <= o < window_positions(len, padding, dilation, k, stride),
        0 <= j < k,
    ensures
        0 <= o * stride,
        0 <= j * dilation,
        o * stride + j * dilation < len + 2 * padding,
{
    let slack = len + 2 * padding - dilation * (k - 1) - 1;
    vstd::arithmetic::div_mod::lemma_fundamental_div_mod(slack, stride);
    vstd::arithmetic::div_mod::lemma_mod_bound(slack, stride);
    assert(0 <= o * stride <= slack) by (nonlinear_arith)
        requires
            0 <= o <= slack / stride,
            slack == stride * (slack / stride) + slack % stride,
            slack % stride >= 0,
            stride >= 1,
    ;
    assert(0 <= j * dilation <= dilation * (k - 1)) by (nonlinear_arith)
        requires
            0 <= j <= k - 1,
            dilation >= 0,
    ;
}

/// The output of one group at `o`, of the channels from `base` on and the weights of `row`.
fn conv1d_element<E: Element>(
    x: &Tensor<E>,
    w: &Tensor<E>,
    p: &ParamsConv1D,
    b: usize,
    base: usize,
    row: usize,
    o: usize,
) -> (r: E)
    requires
        x.wf(),
        w.wf(),
        x.dims@.len() == 3,
        w.dims@.len() == 3,
        x.dims@[2] == p.l_in,
        w.dims@[1] == p.c_in,
        w.dims@[2] == p.k_size,
        p.fits(),
        b < x.dims@[0],
        base + p.c_in <= x.dims@[1],
        row < w.dims@[0],
        o < p.positions(),
    ensures
        r == conv1d_at(plane(*x, b as int, base as int), plane(*w, row as int, 0), *p, o as int),
{
    let ghost px = plane(*x, b as int, base as int);
    let ghost pw = plane(*w, row as int, 0);
    let channels: usize = x.dims[1];
    proof {
        crate::arith::lemma_product_le_span(x.dims@);
        crate::arith::lemma_product_le_span(w.dims@);
        assert(w.dims@ =~= seq![w.dims@[0], p.c_in, p.k_size]);
        crate::arith::lemma_span_three(w.dims@[0], p.c_in, p.k_size);
    }
    let taps: usize = p.c_in * p.k_size;
    let mut sum: E = E::zero();
    let mut n: usize = 0;
    while n < taps
        invariant
            n <= taps,
            taps == p.c_in * p.k_size,
            x.wf(),
            w.wf(),
            x.dims@.len() == 3,
            w.dims@.len() == 3,
            channels == x.dims@[1],
            x.dims@[2] == p.l_in,
            w.dims@[1] == p.c_in,
            w.dims@[2] == p.k_size,
            x.data@.len() <= usize::MAX,
            w.data@.len() <= usize::MAX,
            p.fits(),
            b < x.dims@[0],
            base + p.c_in <= x.dims@[1],
            row < w.dims@[0],
            o < p.positions(),
            px == plane(*x, b as int, base as int),
            pw == plane(*w, row as int, 0),
            sum == conv1d_sum(px, pw, *p, o as int, n as nat),
        decreases taps - n,
    {
        let c: usize = n / p.k_size;
        let j: usize = n % p.k_size;
        proof {
            crate::arith::lemma_index_join(n as int, p.c_in as int, p.k_size as int);
            lemma_tap_position(*p, o as int, j as int);
        }
        let pos: usize = o * p.stride + j * p.dilation;
        if pos >= p.padding && pos - p.padding < p.l_in {
            let i: usize = pos - p.padding;
            proof {
                lemma_at3_in_range(
                    x.dims@,
                    x.data@.len() as int,
                    b as int,
                    base + c,
                    i as int,
                );
                lemma_at3_in_range(w.dims@, w.data@.len() as int, row as int, c as int, j as int);
            }
            let xv: E = x.data[(b * channels + (base + c)) * p.l_in + i];
            let wv: E = w.data[(row * p.c_in + c) * p.k_size + j];
            assert(xv == px(c as int, i as int));
            assert(wv == pw(c as int, j as int));
            sum = sum.plus(xv.times(wv));
        }
        n = n + 1;
    }
    sum
}

/// `t` is the output of one group of a one-dimensional convolution of `x` with `w`.
pub open spec fn is_conv1d_group<E: Element>(
    t: Tensor<E>,
    x: Tensor<E>,
    w: Tensor<E>,
    p: ParamsConv1D,
) -> bool {
    &&& t.wf()
    &&& t.dims@ == seq![p.b_size, p.c_out, p.positions() as usize]
    &&& forall|b: int, c: int, o: int|
        0 <= b < p.b_size && 0 <= c < p.c_out && 0 <= o < p.positions() ==> #[trigger] t.at3(
            b,
            c,
            o,
        ) == conv1d_at(plane(x, b, 0), plane(w, c, 0), p, o)
    &&& t.op == recorded(
        Op::Conv1D { padding: p.padding, stride: p.stride, dilation: p.dilation },
        x.differentiable() || w.differentiable(),
    )
    &&& !t.is_variable
    &&& t.backend == x.backend
}

impl<E: Element> Tensor<E> {
    /// One group of a one-dimensional convolution. `params` says how many of the kernel's rows
    /// are output channels.
    pub fn conv1d_single_group(&self, kernel: &Self, params: &ParamsConv1D) -> (r: Self)
        requires
            self.wf(),
            kernel.wf(),
            self.dims@ == seq![params.b_size, params.c_in, params.l_in],
            kernel.dims@.len() == 3,
            kernel.dims@[0] >= params.c_out,
            kernel.dims@[1] == params.c_in,
            kernel.dims@[2] == params.k_size,
            params.fits(),
            span(seq![params.b_size, params.c_out, params.positions() as usize]) <= usize::MAX,
        ensures
            is_conv1d_group(r, *self, *kernel, *params),
    {
        let dims: Vec<usize> = params.out_dims();
        let l_out: usize = params.l_out();
        let c_out: usize = params.c_out;
        let total: usize = crate::shape::count(dims.as_slice());
        proof {
            crate::arith::lemma_span_three(params.b_size, c_out, l_out);
        }
        let mut data: Vec<E> = Vec::with_capacity(total);
        let mut q: usize = 0;
        while q < total
            invariant
                q <= total,
                total == params.b_size * (c_out * l_out),
                c_out == params.c_out,
                l_out == params.positions(),
                self.wf(),
                kernel.wf(),
                self.dims@ == seq![params.b_size, params.c_in, params.l_in],
                kernel.dims@.len() == 3,
                kernel.dims@[0] >= params.c_out,
                kernel.dims@[1] == params.c_in,
                kernel.dims@[2] == params.k_size,
                params.fits(),
                data@.len() == q,
                forall|i: int|
                    0 <= i < q ==> #[trigger] data@[i] == ({
                        let (b, c, o) = crate::tensor::split_index(i, c_out as int, l_out as int);
                        conv1d_at(plane(*self, b, 0), plane(*kernel, c, 0), *params, o)
                    }),
            decreases total - q,
        {
            proof {
                crate::tensor::lemma_join_index(
                    q as int,
                    params.b_size as int,
                    c_out as int,
                    l_out as int,
                );
            }
            let h: usize = q / l_out;
            let b: usize = h / c_out;
            let c: usize = h % c_out;
            let o: usize = q % l_out;
            data.push(conv1d_element(self, kernel, params, b, 0, c, o));
            q = q + 1;
        }
        let r: Tensor<E> = Tensor {
            dims,
            data,
            is_variable: false,
            op: record(
                Op::Conv1D {
                    padding: params.padding,
                    stride: params.stride,
                    dilation: params.dilation,
                },
                self.track_op() || kernel.track_op(),
            ),
            backend: self.backend,
        };
        proof {
            assert forall|b: int, c: int, o: int|
                0 <= b < params.b_size && 0 <= c < c_out && 0 <= o < l_out implies #[trigger] r.at3(
                b,
                c,
                o,
            ) == conv1d_at(plane(*self, b, 0), plane(*kernel, c, 0), *params, o) by {
                crate::tensor::lemma_split_index(b, c, o, c_out as int, l_out as int);
                crate::tensor::lemma_index_in_range(
                    b,
                    c,
                    o,
                    params.b_size as int,
                    c_out as int,
                    l_out as int,
                );
            }
        }
        r
    }
}

/// A part of a tensor along its middle dimension, element by element.
pub proof fn lemma_narrowed_middle<E>(
    r: Tensor<E>,
    s: Tensor<E>,
    start: usize,
    len: usize,
    a: int,
    b: int,
    c: int,
)
    requires
        s.dims@.len() == 3,
        narrowed(r, s, 1, start, len),
        0 <= a < s.dims@[0],
        0 <= b < len,
        0 <= c < s.dims@[2],
    ensures
        r.at3(a, b, c) == s.at3(a, start + b, c),
{
    lemma_at3_middle(r, a, b, c);
    lemma_at3_middle(s, a, start + b, c);
    assert(within(r.dims@, 1, a, b, c));
    assert(r.along(1, a, b, c) == s.along(1, a, start + b, c));
}

/// A part of a tensor along its first dimension, element by element.
pub proof fn lemma_narrowed_first<E>(
    r: Tensor<E>,
    s: Tensor<E>,
    start: usize,
    len: usize,
    a: int,
    b: int,
    c: int,
)
    requires
        s.dims@.len() == 3,
        narrowed(r, s, 0, start, len),
        0 <= a < len,
        0 <= b < s.dims@[1],
        0 <= c < s.dims@[2],
    ensures
        r.at3(a, b, c) == s.at3(start + a, b, c),
{
    lemma_at3_first(r, a, b, c);
    lemma_at3_first(s, start + a, b, c);
    let t = b * s.dims@[2] + c;
    assert(within(r.dims@, 0, 0, a, t));
    assert(r.along(0, 0, a, t) == s.along(0, 0, start + a, t));
}

/// A dimension of `chunks` times `part` positions is cut into parts of `part` each.
pub proof fn lemma_even_chunks(chunks: int, part: int, i: int)
    requires
        0 < chunks,
        0 < part,
        0 <= i,
    ensures
        chunk_count(chunks * part, chunks) == chunks,
        chunk_size(chunks * part, chunks, i) == part,
        chunk_start(chunks * part, chunks, i) == i * part,
{
    assert(chunks * part >= chunks) by (nonlinear_arith)
        requires
            0 < chunks,
            0 < part,
    ;
    assert(chunks * part == part * chunks) by (nonlinear_arith);
    crate::arith::lemma_index_split(part, 0, chunks);
}

/// The row of the kernel that makes output channel `c`, where the kernel's `rows` rows are dealt
/// to `groups` groups, each of which makes `c_out` channels of the first of its rows.
pub open spec fn kernel_row(rows: int, groups: int, c_out: int, c: int) -> int {
    chunk_start(rows, groups, c / c_out) + c % c_out
}

/// `t` holds the output of a grouped one-dimensional convolution: channel `c` is made of the
/// input channels of its group and of its row of the kernel.
pub open spec fn is_conv1d<E: Element>(
    t: Tensor<E>,
    x: Tensor<E>,
    w: Tensor<E>,
    p: ParamsConv1D,
    groups: usize,
) -> bool {
    &&& t.wf()
    &&& t.dims@ == seq![p.b_size, (groups * p.c_out) as usize, p.positions() as usize]
    &&& forall|b: int, c: int, o: int|
        0 <= b < p.b_size && 0 <= c < groups * p.c_out && 0 <= o < p.positions()
            ==> #[trigger] t.at3(b, c, o) == conv1d_at(
            plane(x, b, (c / p.c_out as int) * p.c_in),
            plane(w, kernel_row(w.dims@[0] as int, groups as int, p.c_out as int, c), 0),
            p,
            o,
        )
    &&& !t.is_variable
    &&& t.backend == x.backend
}

/// The operands of a grouped one-dimensional convolution have the extents that `p` says.
pub open spec fn conv1d_operands<E>(
    x: Tensor<E>,
    w: Tensor<E>,
    p: ParamsConv1D,
    groups: usize,
) -> bool {
    &&& x.wf()
    &&& w.wf()
    &&& groups > 0
    &&& x.dims@.len() == 3
    &&& x.dims@[0] == p.b_size
    &&& x.dims@[1] == groups * p.c_in
    &&& x.dims@[2] == p.l_in
    &&& w.dims@.len() == 3
    &&& w.dims@[0] as int / groups as int == p.c_out
    &&& w.dims@[1] == p.c_in
    &&& w.dims@[2] == p.k_size
}

/// The output of a grouped one-dimensional convolution can be counted.
pub open spec fn conv1d_output_fits(p: ParamsConv1D, groups: usize) -> bool {
    &&& p.fits()
    &&& groups * p.c_out <= usize::MAX
    &&& span(seq![p.b_size, (groups * p.c_out) as usize, p.positions() as usize]) <= usize::MAX
}

/// The span of three extents grows with the middle one.
pub proof fn lemma_span_middle(a: usize, b1: usize, b2: usize, c: usize)
    requires
        b1 <= b2,
    ensures
        span(seq![a, b1, c]) <= span(seq![a, b2, c]),
{
    let s = seq![a, b2, c];
    crate::arith::lemma_span_update(s, 1, b1);
    assert(s.update(1, b1) =~= seq![a, b1, c]);
}

impl<E: Element> Tensor<E> {
    /// Reference lowering of a grouped one-dimensional convolution: a convolution for each group,
    /// put together along the channels.
    pub fn conv1d_grouped_loop(
        &self,
        kernel: &Self,
        params: &ParamsConv1D,
        groups: usize,
    ) -> (r: Result<Self>)
        requires
            conv1d_operands(*self, *kernel, *params, groups),
            params.c_in > 0 && kernel.dims@[0] > 0 ==> conv1d_output_fits(*params, groups),
        ensures
            match r {
                Ok(t) => {
                    &&& params.c_in > 0 && kernel.dims@[0] > 0
                    &&& is_conv1d(t, *self, *kernel, *params, groups)
                    &&& t.op == recorded(
                        Op::Cat { dim: 1 },
                        self.differentiable() || kernel.differentiable(),
                    )
                },
                Err(e) => !(params.c_in > 0 && kernel.dims@[0] > 0) && e.is_empty_list("cat"@),
            },
    {
        let ghost rows = kernel.dims@[0] as int;
        let ghost size = self.dims@[1] as int;
        let blocks: Vec<Self> = self.chunk(groups, 1);
        let kernels: Vec<Self> = kernel.chunk(groups, 0);
        let n: usize = if blocks.len() < kernels.len() {
            blocks.len()
        } else {
            kernels.len()
        };
        let c_out: usize = params.c_out;
        proof {
            vstd::arithmetic::div_mod::lemma_fundamental_div_mod(rows, groups as int);
            vstd::arithmetic::div_mod::lemma_mod_bound(rows, groups as int);
            assert(groups * c_out == c_out * groups) by (nonlinear_arith);
            if params.c_in == 0 {
                assert(size == 0) by (nonlinear_arith)
                    requires
                        size == groups * params.c_in,
                        params.c_in == 0,
                ;
                assert(n == 0);
            } else {
                assert forall|g: int| 0 <= g < groups implies #[trigger] chunk_size(
                    size,
                    groups as int,
                    g,
                ) == params.c_in && chunk_start(size, groups as int, g) == g * params.c_in by {
                    lemma_even_chunks(groups as int, params.c_in as int, g);
                }
                lemma_even_chunks(groups as int, params.c_in as int, 0);
                assert(n == min_int(rows, groups as int));
                assert(c_out <= groups * c_out) by (nonlinear_arith)
                    requires
                        groups >= 1,
                        c_out >= 0,
                ;
                if rows > 0 {
                    lemma_span_middle(
                        params.b_size,
                        c_out,
                        (groups * c_out) as usize,
                        params.positions() as usize,
                    );
                }
                if rows < groups {
                    assert(c_out == 0) by (nonlinear_arith)
                        requires
                            c_out == rows / groups as int,
                            0 <= rows < groups,
                    ;
                }
                assert(n * c_out == groups * c_out) by (nonlinear_arith)
                    requires
                        n == groups || c_out == 0,
                ;
            }
        }
        let mut outs: Vec<Self> = Vec::new();
        let mut g: usize = 0;
        while g < n
            invariant
                g <= n,
                n <= blocks@.len(),
                n <= kernels@.len(),
                n <= groups,
                n <= rows,
                conv1d_operands(*self, *kernel, *params, groups),
                n > 0 ==> params.c_in > 0 && params.fits(),
                n > 0 ==> span(
                    seq![params.b_size, params.c_out, params.positions() as usize],
                ) <= usize::MAX,
                rows == kernel.dims@[0],
                size == self.dims@[1],
                forall|i: int|
                    0 <= i < blocks@.len() ==> narrowed(
                        #[trigger] blocks@[i],
                        *self,
                        1,
                        chunk_start(size, groups as int, i) as usize,
                        chunk_size(size, groups as int, i) as usize,
                    ),
                forall|i: int|
                    0 <= i < kernels@.len() ==> narrowed(
                        #[trigger] kernels@[i],
                        *kernel,
                        0,
                        chunk_start(rows, groups as int, i) as usize,
                        chunk_size(rows, groups as int, i) as usize,
                    ),
                n > 0 ==> forall|i: int|
                    0 <= i < groups ==> #[trigger] chunk_size(size, groups as int, i)
                        == params.c_in,
                outs@.len() == g,
                forall|i: int|
                    0 <= i < g ==> is_conv1d_group(
                        #[trigger] outs@[i],
                        blocks@[i],
                        kernels@[i],
                        *params,
                    ),
            decreases n - g,
        {
            proof {
                assert(chunk_size(size, groups as int, g as int) == params.c_in);
                assert(blocks@[g as int].dims@ =~= seq![
                    params.b_size,
                    params.c_in,
                    params.l_in,
                ]);
                lemma_chunk_rows(rows, groups as int, g as int);
                crate::tensor::lemma_chunk_start(rows, groups as int, g as int);
                crate::tensor::lemma_chunk_start(rows, groups as int, g as int + 1);
            }
            let out: Self = blocks[g].conv1d_single_group(&kernels[g], params);
            outs.push(out);
            g = g + 1;
        }
        proof {
            if n > 0 {
                assert(outs@[0].dims@ == seq![
                    params.b_size,
                    c_out,
                    params.positions() as usize,
                ]);
                assert(outs@[0].dims@.update(1, (n * c_out) as usize) =~= seq![
                    params.b_size,
                    (groups * c_out) as usize,
                    params.positions() as usize,
                ]);
            }
        }
        let r: Result<Self> = Tensor::cat(&outs, 1);
        proof {
            if r is Ok {
                let t = r->Ok_0;
                let x = *self;
                let w = *kernel;
                assert forall|b: int, c: int, o: int|
                    0 <= b < params.b_size && 0 <= c < groups * c_out && 0 <= o
                        < params.positions() implies #[trigger] t.at3(b, c, o) == conv1d_at(
                    plane(x, b, (c / c_out as int) * params.c_in),
                    plane(w, kernel_row(rows, groups as int, c_out as int, c), 0),
                    *params,
                    o,
                ) by {
                    assert(c_out > 0) by (nonlinear_arith)
                        requires
                            0 <= c < groups * c_out,
                            c_out >= 0,
                            groups >= 0,
                    ;
                    let i = c % c_out as int;
                    let g = c / c_out as int;
                    crate::arith::lemma_index_join(c, groups as int, c_out as int);
                    assert(g < n);
                    lemma_at3_middle(t, b, c, o);
                    lemma_at3_middle(outs@[g], b, i, o);
                    assert(outs@[g].dims@ == outs@[0].dims@);
                    assert(within(outs@[0].dims@, 1, b, i, o));
                    assert(t.along(1, b, g * c_out + i, o) == outs@[g].along(1, b, i, o));
                    assert(is_conv1d_group(outs@[g], blocks@[g], kernels@[g], *params));
                    let start = chunk_start(rows, groups as int, g);
                    let part = chunk_size(rows, groups as int, g);
                    crate::tensor::lemma_chunk_start(rows, groups as int, g);
                    crate::tensor::lemma_chunk_start(rows, groups as int, g + 1);
                    crate::tensor::lemma_chunk_start(size, groups as int, g);
                    lemma_chunk_rows(rows, groups as int, g);
                    assert(chunk_size(size, groups as int, g) == params.c_in);
                    let (x1, x2) = (plane(blocks@[g], b, 0), plane(x, b, g * params.c_in));
                    let (w1, w2) = (plane(kernels@[g], i, 0), plane(w, start + i, 0));
                    assert forall|ci: int, pos: int|
                        0 <= ci < params.c_in && 0 <= pos < params.l_in implies #[trigger] x1(
                        ci,
                        pos,
                    ) == x2(ci, pos) by {
                        lemma_narrowed_middle(
                            blocks@[g],
                            x,
                            chunk_start(size, groups as int, g) as usize,
                            params.c_in,
                            b,
                            ci,
                            pos,
                        );
                    }
                    assert forall|ci: int, j: int|
                        0 <= ci < params.c_in && 0 <= j < params.k_size implies #[trigger] w1(
                        ci,
                        j,
                    ) == w2(ci, j) by {
                        lemma_narrowed_first(
                            kernels@[g],
                            w,
                            start as usize,
                            part as usize,
                            i,
                            ci,
                            j,
                        );
                    }
                    lemma_conv1d_sum_congruent(
                        x1,
                        w1,
                        x2,
                        w2,
                        *params,
                        o,
                        (params.c_in * params.k_size) as nat,
                    );
                }
                assert(outs@[0].differentiable() == (self.differentiable()
                    || kernel.differentiable()));
                assert forall|i: int| 0 <= i < n implies (#[trigger] outs@[i]).differentiable() == (
                self.differentiable() || kernel.differentiable()) by {
                    assert(is_conv1d_group(outs@[i], blocks@[i], kernels@[i], *params));
                }
                assert(outs@[0].backend == blocks@[0].backend);
            }
        }
        r
    }
}

/// Each of the parts that a kernel's rows are dealt into has the rows that a group takes.
proof fn lemma_chunk_rows(rows: int, groups: int, g: int)
    requires
        0 < groups,
        0 <= rows,
    ensures
        rows / groups <= chunk_size(rows, groups, g),
{
    if rows < groups {
        assert(rows / groups == 0) by (nonlinear_arith)
            requires
                0 <= rows < groups,
        ;
    }
}

/// The element at `i` of the padded input.
pub open spec fn padded_at<E: Element>(
    x: Tensor<E>,
    p: ParamsConv1D,
    b: int,
    c: int,
    i: int,
) -> E {
    if 0 <= i - p.padding < p.l_in {
        x.at3(b, c, i - p.padding)
    } else {
        E::spec_zero()
    }
}

/// What tap `j` adds to the output at `o`.
pub open spec fn tap_term<E: Element>(
    x: Tensor<E>,
    w: Tensor<E>,
    p: ParamsConv1D,
    b: int,
    c: int,
    o: int,
    j: int,
) -> E {
    padded_at(x, p, b, c, o + j * p.dilation).spec_times(w.at3(c, 0, j))
}

/// The sum of the taps up to the one before `n`, the first tap first.
pub open spec fn tap_sum<E: Element>(
    x: Tensor<E>,
    w: Tensor<E>,
    p: ParamsConv1D,
    b: int,
    c: int,
    o: int,
    n: nat,
) -> E
    decreases n,
{
    if n <= 1 {
        tap_term(x, w, p, b, c, o, 0)
    } else {
        tap_sum(x, w, p, b, c, o, (n - 1) as nat).spec_plus(tap_term(x, w, p, b, c, o, n - 1))
    }
}

/// `t` holds the sums of the first `n` taps.
pub open spec fn holds_taps<E: Element>(
    t: Tensor<E>,
    x: Tensor<E>,
    w: Tensor<E>,
    p: ParamsConv1D,
    n: nat,
) -> bool {
    &&& t.wf()
    &&& t.dims@ == seq![x.dims@[0], x.dims@[1], p.positions() as usize]
    &&& forall|b: int, c: int, o: int|
        0 <= b < x.dims@[0] && 0 <= c < x.dims@[1] && 0 <= o < p.positions() ==> #[trigger] t.at3(
            b,
            c,
            o,
        ) == tap_sum(x, w, p, b, c, o, n)
    &&& t.op == recorded(Op::Binary, x.differentiable() || w.differentiable())
    &&& !t.is_variable
    &&& t.backend == x.backend
}

/// A part of a tensor along its last dimension, element by element.
pub proof fn lemma_narrowed_last<E>(
    r: Tensor<E>,
    s: Tensor<E>,
    start: usize,
    len: usize,
    a: int,
    b: int,
    c: int,
)
    requires
        s.dims@.len() == 3,
        narrowed(r, s, 2, start, len),
        0 <= a < s.dims@[0],
        0 <= b < s.dims@[1],
        0 <= c < len,
    ensures
        r.at3(a, b, c) == s.at3(a, b, start + c),
{
    let d = s.dims@;
    assert(r.dims@.skip(3) =~= Seq::<usize>::empty());
    assert(d.skip(3) =~= Seq::<usize>::empty());
    assert(r.dims@.take(2) =~= seq![d[0], d[1]]);
    crate::arith::lemma_span_two(d[0], d[1]);
    crate::arith::lemma_index_bound(a, b, d[0] as int, d[1] as int);
    let o = a * d[1] + b;
    assert(within(r.dims@, 2, o, c, 0));
    assert(r.along(2, o, c, 0) == s.along(2, o, start + c, 0));
    assert((o * len + c) * product(r.dims@.skip(3)) + 0 == o * len + c) by (nonlinear_arith)
        requires
            product(r.dims@.skip(3)) == 1,
    ;
    let h = o * d[2] + (start + c);
    assert(h * product(d.skip(3)) + 0 == h) by (nonlinear_arith)
        requires
            product(d.skip(3)) == 1,
    ;
}

impl<E: Element> Tensor<E> {
    /// The input with zeros put before and behind it along the last of three dimensions.
    fn padded(&self, p: &ParamsConv1D) -> (r: Self)
        requires
            self.wf(),
            self.dims@.len() == 3,
            self.dims@[2] == p.l_in,
            p.l_in + 2 * p.padding <= usize::MAX,
            span(seq![self.dims@[0], self.dims@[1], (p.l_in + 2 * p.padding) as usize])
                <= usize::MAX,
        ensures
            r.wf(),
            r.dims@ == seq![self.dims@[0], self.dims@[1], (p.l_in + 2 * p.padding) as usize],
            forall|b: int, c: int, i: int|
                0 <= b < self.dims@[0] && 0 <= c < self.dims@[1] && 0 <= i < p.l_in + 2 * p.padding
                    ==> #[trigger] r.at3(b, c, i) == padded_at(*self, *p, b, c, i),
            r.op == recorded(Op::Cat { dim: 2 }, self.differentiable()),
            !r.is_variable,
            r.backend == self.backend,
    {
        let (n, m) = (self.dims[0], self.dims[1]);
        let l_in: usize = p.l_in;
        let padding: usize = p.padding;
        let wide: usize = l_in + 2 * padding;
        let dims: Vec<usize> = vec![n, m, wide];
        assert(dims@ =~= seq![n, m, wide]);
        let total: usize = crate::shape::count(dims.as_slice());
        proof {
            crate::arith::lemma_span_three(n, m, wide);
            crate::arith::lemma_product_le_span(self.dims@);
        }
        let mut data: Vec<E> = Vec::with_capacity(total);
        let mut q: usize = 0;
        while q < total
            invariant
                q <= total,
                total == n * (m * wide),
                wide == l_in + 2 * padding,
                l_in == p.l_in,
                padding == p.padding,
                self.wf(),
                self.data@.len() <= usize::MAX,
                self.dims@.len() == 3,
                self.dims@[0] == n,
                self.dims@[1] == m,
                self.dims@[2] == l_in,
                data@.len() == q,
                forall|k: int|
                    0 <= k < q ==> #[trigger] data@[k] == ({
                        let (b, c, i) = crate::tensor::split_index(k, m as int, wide as int);
                        padded_at(*self, *p, b, c, i)
                    }),
            decreases total - q,
        {
            proof {
                crate::tensor::lemma_join_index(q as int, n as int, m as int, wide as int);
            }
            let h: usize = q / wide;
            let b: usize = h / m;
            let c: usize = h % m;
            let i: usize = q % wide;
            if i >= padding && i - padding < l_in {
                proof {
                    lemma_at3_in_range(
                        self.dims@,
                        self.data@.len() as int,
                        b as int,
                        c as int,
                        i - padding,
                    );
                }
                data.push(self.data[(b * m + c) * l_in + (i - padding)]);
            } else {
                data.push(E::zero());
            }
            q = q + 1;
        }
        let r: Tensor<E> = Tensor {
            dims,
            data,
            is_variable: false,
            op: record(Op::Cat { dim: 2 }, self.track_op()),
            backend: self.backend,
        };
        proof {
            assert forall|b: int, c: int, i: int|
                0 <= b < n && 0 <= c < m && 0 <= i < wide implies #[trigger] r.at3(b, c, i)
                == padded_at(*self, *p, b, c, i) by {
                crate::tensor::lemma_split_index(b, c, i, m as int, wide as int);
                crate::tensor::lemma_index_in_range(b, c, i, n as int, m as int, wide as int);
            }
        }
        r
    }

    /// Each channel times its weight of tap `j`.
    fn scaled(&self, kernel: &Self, j: usize) -> (r: Self)
        requires
            self.wf(),
            kernel.wf(),
            self.dims@.len() == 3,
            kernel.dims@.len() == 3,
            kernel.dims@[0] == self.dims@[1],
            kernel.dims@[1] == 1,
            j < kernel.dims@[2],
        ensures
            r.wf(),
            r.dims@ == self.dims@,
            forall|b: int, c: int, i: int|
                0 <= b < self.dims@[0] && 0 <= c < self.dims@[1] && 0 <= i < self.dims@[2]
                    ==> #[trigger] r.at3(b, c, i) == self.at3(b, c, i).spec_times(
                    kernel.at3(c, 0, j as int),
                ),
            r.op == recorded(Op::Binary, self.differentiable() || kernel.differentiable()),
            !r.is_variable,
            r.backend == self.backend,
    {
        let (n, m, len) = (self.dims[0], self.dims[1], self.dims[2]);
        let taps: usize = kernel.dims[2];
        let total: usize = self.data.len();
        proof {
            assert(self.dims@ =~= seq![n, m, len]);
            crate::arith::lemma_span_three(n, m, len);
            crate::arith::lemma_product_le_span(kernel.dims@);
        }
        let mut data: Vec<E> = Vec::with_capacity(total);
        let mut q: usize = 0;
        while q < total
            invariant
                q <= total,
                total == n * (m * len),
                total == self.data@.len(),
                kernel.wf(),
                kernel.data@.len() <= usize::MAX,
                kernel.dims@.len() == 3,
                kernel.dims@[0] == m,
                kernel.dims@[1] == 1,
                kernel.dims@[2] == taps,
                j < taps,
                data@.len() == q,
                forall|k: int|
                    0 <= k < q ==> #[trigger] data@[k] == ({
                        let (b, c, i) = crate::tensor::split_index(k, m as int, len as int);
                        self.data@[k].spec_times(kernel.at3(c, 0, j as int))
                    }),
            decreases total - q,
        {
            proof {
                crate::tensor::lemma_join_index(q as int, n as int, m as int, len as int);
            }
            let c: usize = (q / len) % m;
            proof {
                lemma_at3_in_range(
                    kernel.dims@,
                    kernel.data@.len() as int,
                    c as int,
                    0,
                    j as int,
                );
            }
            let weight: E = kernel.data[(c * 1 + 0) * taps + j];
            data.push(self.data[q].times(weight));
            q = q + 1;
        }
        let r: Tensor<E> = Tensor {
            dims: copy_dims(self.dims.as_slice()),
            data,
            is_variable: false,
            op: record(Op::Binary, self.track_op() || kernel.track_op()),
            backend: self.backend,
        };
        proof {
            assert forall|b: int, c: int, i: int|
                0 <= b < n && 0 <= c < m && 0 <= i < len implies #[trigger] r.at3(b, c, i)
                == self.at3(b, c, i).spec_times(kernel.at3(c, 0, j as int)) by {
                crate::tensor::lemma_split_index(b, c, i, m as int, len as int);
                crate::tensor::lemma_index_in_range(b, c, i, n as int, m as int, len as int);
            }
        }
        r
    }

    /// The sums of elements at the same place.
    fn added(&self, other: &Self) -> (r: Self)
        requires
            self.wf(),
            other.wf(),
            self.dims@ == other.dims@,
        ensures
            r.wf(),
            r.dims@ == self.dims@,
            forall|i: int|
                0 <= i < r.data@.len() ==> #[trigger] r.data@[i] == self.data@[i].spec_plus(
                    other.data@[i],
                ),
            r.op == recorded(Op::Binary, self.differentiable() || other.differentiable()),
            !r.is_variable,
            r.backend == self.backend,
    {
        let total: usize = self.data.len();
        let mut data: Vec<E> = Vec::with_capacity(total);
        let mut q: usize = 0;
        while q < total
            invariant
                q <= total,
                total == self.data@.len(),
                total == other.data@.len(),
                data@.len() == q,
                forall|i: int|
                    0 <= i < q ==> #[trigger] data@[i] == self.data@[i].spec_plus(other.data@[i]),
            decreases total - q,
        {
            data.push(self.data[q].plus(other.data[q]));
            q = q + 1;
        }
        Tensor {
            dims: copy_dims(self.dims.as_slice()),
            data,
            is_variable: false,
            op: record(Op::Binary, self.track_op() || other.track_op()),
            backend: self.backend,
        }
    }

    /// Depthwise one-dimensional convolution, tap by tap: for each tap, the padded input is
    /// sliced at the tap's offset, each channel is scaled by its weight of the tap, and the
    /// results are added up, the first tap first. A kernel with another number of rows than the
    /// input has channels is an error.
    pub fn conv1d_depthwise(&self, kernel: &Self, params: &ParamsConv1D) -> (r: Result<Self>)
        requires
            self.wf(),
            kernel.wf(),
            self.dims@.len() == 3,
            self.dims@[2] == params.l_in,
            kernel.dims@.len() == 3,
            kernel.dims@[1] == 1,
            kernel.dims@[2] == params.k_size,
            params.stride == 1,
            params.fits(),
            span(
                seq![
                    self.dims@[0],
                    self.dims@[1],
                    (params.l_in + 2 * params.padding) as usize,
                ],
            ) <= usize::MAX,
        ensures
            match r {
                Ok(t) => kernel.dims@[0] == self.dims@[1] && holds_taps(
                    t,
                    *self,
                    *kernel,
                    *params,
                    params.k_size as nat,
                ),
                Err(e) => kernel.dims@[0] != self.dims@[1] && e.is_mismatch(
                    kernel.dims@,
                    seq![self.dims@[1], params.k_size],
                    "reshape"@,
                ),
            },
    {
        let c: usize = self.dims[1];
        let k_size: usize = params.k_size;
        let l_out: usize = params.l_out();
        if kernel.dims[0] != c {
            let rhs: Vec<usize> = vec![c, k_size];
            assert(rhs@ =~= seq![c, k_size]);
            return Err(
                Error::ShapeMismatchBinaryOp {
                    lhs: copy_dims(kernel.dims.as_slice()),
                    rhs,
                    op: "reshape",
                },
            );
        }
        let padded: Option<Self> = if params.padding > 0 {
            Some(self.padded(params))
        } else {
            None
        };
        let ghost wide = params.l_in + 2 * params.padding;
        let mut acc: Option<Self> = None;
        let mut j: usize = 0;
        while j < k_size
            invariant
                j <= k_size,
                k_size == params.k_size,
                k_size >= 1,
                l_out == params.positions(),
                wide == params.l_in + 2 * params.padding,
                self.wf(),
                kernel.wf(),
                self.dims@.len() == 3,
                self.dims@[1] == c,
                self.dims@[2] == params.l_in,
                kernel.dims@.len() == 3,
                kernel.dims@[0] == c,
                kernel.dims@[1] == 1,
                kernel.dims@[2] == k_size,
                params.stride == 1,
                params.fits(),
                padded is None ==> params.padding == 0,
                padded matches Some(t) ==> {
                    &&& t.wf()
                    &&& t.dims@ == seq![self.dims@[0], c, wide as usize]
                    &&& forall|b: int, h: int, i: int|
                        0 <= b < self.dims@[0] && 0 <= h < c && 0 <= i < wide ==> #[trigger] t.at3(
                            b,
                            h,
                            i,
                        ) == padded_at(*self, *params, b, h, i)
                    &&& t.differentiable() == self.differentiable()
                    &&& t.backend == self.backend
                },
                acc is None ==> j == 0,
                acc matches Some(t) ==> j >= 1 && holds_taps(
                    t,
                    *self,
                    *kernel,
                    *params,
                    j as nat,
                ),
            decreases k_size - j,
        {
            proof {
                crate::arith::lemma_window_positions(
                    params.l_in as int,
                    params.padding as int,
                    params.dilation as int,
                    k_size as int,
                    1,
                );
                lemma_tap_position(*params, l_out - 1, j as int);
            }
            let start: usize = j * params.dilation;
            let slice: Self = match &padded {
                Some(t) => t.narrow(2, start, l_out),
                None => self.narrow(2, start, l_out),
            };
            assert(slice.dims@ =~= seq![self.dims@[0], c, l_out]);
            assert forall|b: int, h: int, o: int|
                0 <= b < self.dims@[0] && 0 <= h < c && 0 <= o < l_out implies #[trigger] slice.at3(
                b,
                h,
                o,
            ) == padded_at(*self, *params, b, h, o + j * params.dilation) by {
                match padded {
                    Some(t) => {
                        lemma_narrowed_last(slice, t, start, l_out, b, h, o);
                    },
                    None => {
                        lemma_narrowed_last(slice, *self, start, l_out, b, h, o);
                    },
                }
            }
            let term: Self = slice.scaled(kernel, j);
            let next: Self = match &acc {
                None => term,
                Some(sum) => sum.added(&term),
            };
            proof {
                assert forall|b: int, h: int, o: int|
                    0 <= b < self.dims@[0] && 0 <= h < c && 0 <= o < l_out implies #[trigger] next.at3(
                    b,
                    h,
                    o,
                ) == tap_sum(*self, *kernel, *params, b, h, o, (j + 1) as nat) by {
                    assert(slice.at3(b, h, o) == padded_at(
                        *self,
                        *params,
                        b,
                        h,
                        o + j * params.dilation,
                    ));
                    assert(term.at3(b, h, o) == tap_term(
                        *self,
                        *kernel,
                        *params,
                        b,
                        h,
                        o,
                        j as int,
                    ));
                    lemma_at3_in_range(next.dims@, next.data@.len() as int, b, h, o);
                    match acc {
                        None => {},
                        Some(sum) => {
                            assert(sum.at3(b, h, o) == tap_sum(
                                *self,
                                *kernel,
                                *params,
                                b,
                                h,
                                o,
                                j as nat,
                            ));
                        },
                    }
                }
            }
            acc = Some(next);
            j = j + 1;
        }
        match acc {
            Some(t) => Ok(t),
            None => Err(Error::Msg("conv1d_depthwise: empty kernel".to_owned())),
        }
    }
}

/// Tap-wise, a depthwise convolution gives what the reference formula gives: each output channel
/// is the convolution of the input channel with the same index and its row of the kernel.
pub proof fn law_tapwise_is_convolution<E: Element>(
    x: Tensor<E>,
    w: Tensor<E>,
    p: ParamsConv1D,
    b: int,
    c: int,
    o: int,
)
    requires
        p.c_in == 1,
        p.k_size >= 1,
        p.stride == 1,
    ensures
        tap_sum(x, w, p, b, c, o, p.k_size as nat) == conv1d_at(
            plane(x, b, c),
            plane(w, c, 0),
            p,
            o,
        ),
{
    lemma_tap_sum(x, w, p, b, c, o, p.k_size as nat);
    assert(p.c_in * p.k_size == p.k_size) by (nonlinear_arith)
        requires
            p.c_in == 1,
    ;
}

/// The sum of the first taps is the sum of the reference formula over them.
proof fn lemma_tap_sum<E: Element>(
    x: Tensor<E>,
    w: Tensor<E>,
    p: ParamsConv1D,
    b: int,
    c: int,
    o: int,
    n: nat,
)
    requires
        p.stride == 1,
        1 <= n <= p.k_size,
    ensures
        tap_sum(x, w, p, b, c, o, n) == conv1d_sum(plane(x, b, c), plane(w, c, 0), p, o, n),
    decreases n,
{
    let (px, pw) = (plane(x, b, c), plane(w, c, 0));
    let j = n - 1;
    crate::arith::lemma_index_split(0, j, p.k_size as int);
    assert(0 * p.k_size + j == j);
    let pos = o * p.stride + j * p.dilation - p.padding;
    assert(o * p.stride == o) by (nonlinear_arith)
        requires
            p.stride == 1,
    ;
    let before = conv1d_sum(px, pw, p, o, j as nat);
    let weight = w.at3(c, 0, j);
    let term = tap_term(x, w, p, b, c, o, j);
    assert(conv1d_sum(px, pw, p, o, n) == if 0 <= pos < p.l_in {
        before.spec_plus(px(0, pos).spec_times(pw(0, j)))
    } else {
        before
    });
    assert(pw(0, j) == weight);
    if 0 <= pos < p.l_in {
        assert(px(0, pos) == x.at3(b, c, pos));
        assert(term == px(0, pos).spec_times(pw(0, j)));
    } else {
        weight.zero_laws();
        assert(term == E::spec_zero());
    }
    before.zero_laws();
    term.zero_laws();
    if n == 1 {
        assert(before == E::spec_zero());
    } else {
        lemma_tap_sum(x, w, p, b, c, o, (n - 1) as nat);
    }
}

/// Both lowerings of a depthwise convolution give the same elements, where every group has one
/// row of the kernel.
pub proof fn law_lowerings_agree<E: Element>(
    fast: Tensor<E>,
    reference: Tensor<E>,
    x: Tensor<E>,
    w: Tensor<E>,
    p: ParamsConv1D,
    groups: usize,
)
    requires
        conv1d_operands(x, w, p, groups),
        tapwise(p, groups),
        tapwise_countable(p, groups),
        w.dims@[0] == groups,
        holds_taps(fast, x, w, p, p.k_size as nat),
        is_conv1d(reference, x, w, p, groups),
    ensures
        fast.dims@ == reference.dims@,
        fast.data@ == reference.data@,
{
    lemma_tapwise_is_conv1d(fast, x, w, p, groups);
    law_tapwise_fits(p, groups);
    let l = p.positions() as usize;
    let total = p.b_size * (groups * l);
    assert(fast.dims@ =~= seq![p.b_size, groups, l]);
    crate::arith::lemma_span_three(p.b_size, groups, l);
    crate::arith::lemma_window_positions(
        p.l_in as int,
        p.padding as int,
        p.dilation as int,
        p.k_size as int,
        p.stride as int,
    );
    assert forall|q: int| 0 <= q < total implies #[trigger] fast.data@[q]
        == reference.data@[q] by {
        crate::tensor::lemma_join_index(q, p.b_size as int, groups as int, l as int);
        let (b, c, o) = crate::tensor::split_index(q, groups as int, l as int);
        assert(fast.at3(b, c, o) == reference.at3(b, c, o));
    }
    assert(fast.data@ =~= reference.data@);
}

/// What holds the sums of all taps is the convolution.
proof fn lemma_tapwise_is_conv1d<E: Element>(
    t: Tensor<E>,
    x: Tensor<E>,
    w: Tensor<E>,
    p: ParamsConv1D,
    groups: usize,
)
    requires
        conv1d_operands(x, w, p, groups),
        p.c_in == 1,
        p.c_out == 1,
        p.stride == 1,
        p.k_size >= 1,
        w.dims@[0] == groups,
        holds_taps(t, x, w, p, p.k_size as nat),
    ensures
        is_conv1d(t, x, w, p, groups),
        t.dims@[1] == groups,
{
    assert(groups * p.c_out == groups && groups * p.c_in == groups) by (nonlinear_arith)
        requires
            p.c_out == 1,
            p.c_in == 1,
    ;
    assert forall|b: int, c: int, o: int|
        0 <= b < p.b_size && 0 <= c < groups * p.c_out && 0 <= o < p.positions()
            implies #[trigger] t.at3(b, c, o) == conv1d_at(
        plane(x, b, (c / p.c_out as int) * p.c_in),
        plane(w, kernel_row(w.dims@[0] as int, groups as int, p.c_out as int, c), 0),
        p,
        o,
    ) by {
        law_tapwise_is_convolution(x, w, p, b, c, o);
        assert(c / 1 == c && c % 1 == 0);
        assert(c * p.c_in == c) by (nonlinear_arith)
            requires
                p.c_in == 1,
        ;
        lemma_even_chunks(groups as int, 1, c);
        assert(groups * 1 == groups);
    }
}

/// The group that a convolution with these arguments consists of.
pub open spec fn conv1d_params(
    x: Seq<usize>,
    w: Seq<usize>,
    padding: usize,
    stride: usize,
    dilation: usize,
    groups: usize,
    cudnn_fwd_algo: Option<CudnnFwdAlgo>,
) -> ParamsConv1D {
    ParamsConv1D {
        b_size: x[0],
        l_in: x[2],
        c_out: (w[0] as int / groups as int) as usize,
        c_in: (x[1] as int / groups as int) as usize,
        k_size: w[2],
        padding,
        stride,
        dilation,
        cudnn_fwd_algo,
    }
}

/// The arguments of a one-dimensional convolution are such that it ends: the group count is not
/// zero, the kernel fits in the padded input wherever it is applied, and what is computed fits in
/// a machine word.
pub open spec fn conv1d_ends(
    x: Seq<usize>,
    w: Seq<usize>,
    padding: usize,
    stride: usize,
    dilation: usize,
    groups: usize,
) -> bool {
    x.len() == 3 && w.len() == 3 ==> {
        let p = conv1d_params(x, w, padding, stride, dilation, groups, None);
        &&& w[1] * groups <= usize::MAX
        &&& x[1] == w[1] * groups ==> {
            &&& groups > 0
            &&& groups != 1 ==> tapwise_countable(p, groups)
            &&& groups == 1 || (w[1] > 0 && w[0] > 0) ==> conv1d_output_fits(p, groups)
            &&& groups != 1 && tapwise(p, groups) ==> span(
                seq![x[0], x[1], (p.l_in + 2 * p.padding) as usize],
            ) <= usize::MAX
        }
    }
}

/// What a one-dimensional convolution hands back.
pub open spec fn conv1d_outcome<E: Element>(
    r: Result<Tensor<E>>,
    x: Tensor<E>,
    w: Tensor<E>,
    padding: usize,
    stride: usize,
    dilation: usize,
    groups: usize,
    cudnn_fwd_algo: Option<CudnnFwdAlgo>,
) -> bool {
    if w.dims@.len() != 3 {
        r == Err::<Tensor<E>, Error>(
            Error::UnexpectedNumberOfDims { expected: 3, got: w.dims@.len() as usize },
        )
    } else if x.dims@.len() != 3 {
        r == Err::<Tensor<E>, Error>(
            Error::UnexpectedNumberOfDims { expected: 3, got: x.dims@.len() as usize },
        )
    } else if x.dims@[1] != w.dims@[1] * groups {
        r matches Err(Error::Conv1dInvalidArgs { inp_shape, k_shape, padding: p, stride: s, msg })
            && inp_shape@ == x.dims@ && k_shape@ == w.dims@ && p == padding && s == stride && msg@
            == "the number of in-channels on the input doesn't match the kernel size"@
    } else {
        let p = conv1d_params(x.dims@, w.dims@, padding, stride, dilation, groups, cudnn_fwd_algo);
        let fast = groups != 1 && tapwise(p, groups);
        if fast && w.dims@[0] != groups {
            r matches Err(e) && e.is_mismatch(w.dims@, seq![x.dims@[1], w.dims@[2]], "reshape"@)
        } else if groups != 1 && (w.dims@[1] == 0 || w.dims@[0] == 0) {
            r matches Err(e) && e.is_empty_list("cat"@)
        } else {
            &&& r matches Ok(t)
            &&& is_conv1d(t, x, w, p, groups)
            &&& t.op == recorded(
                if groups == 1 {
                    Op::Conv1D { padding, stride, dilation }
                } else if fast {
                    Op::Binary
                } else {
                    Op::Cat { dim: 1 }
                },
                x.differentiable() || w.differentiable(),
            )
        }
    }
}

/// The groups of a convolution do not mix, and come out in order: what group `g` makes is what a
/// convolution without groups makes of the group's channels and of its rows of the kernel.
pub proof fn law_groups_do_not_mix<E: Element>(
    y: Tensor<E>,
    x: Tensor<E>,
    w: Tensor<E>,
    y_part: Tensor<E>,
    x_part: Tensor<E>,
    w_part: Tensor<E>,
    r: Result<Tensor<E>>,
    padding: usize,
    stride: usize,
    dilation: usize,
    groups: usize,
    cudnn_fwd_algo: Option<CudnnFwdAlgo>,
    g: int,
)
    requires
        x.wf(),
        w.wf(),
        conv1d_ends(x.dims@, w.dims@, padding, stride, dilation, groups),
        conv1d_outcome(Ok(y), x, w, padding, stride, dilation, groups, cudnn_fwd_algo),
        w.dims@[0] as int % groups as int == 0,
        0 <= g < groups,
        ({
            let c_in = w.dims@[1];
            let c_out = (w.dims@[0] as int / groups as int) as usize;
            &&& narrowed(x_part, x, 1, (g * c_in) as usize, c_in)
            &&& narrowed(w_part, w, 0, (g * c_out) as usize, c_out)
            &&& narrowed(y_part, y, 1, (g * c_out) as usize, c_out)
        }),
        conv1d_outcome(r, x_part, w_part, padding, stride, dilation, 1, cudnn_fwd_algo),
    ensures
        r matches Ok(z) && y_part.dims@ == z.dims@ && y_part.data@ == z.data@,
{
    let p = conv1d_params(x.dims@, w.dims@, padding, stride, dilation, groups, cudnn_fwd_algo);
    let (n, ci, co) = (groups as int, w.dims@[1] as int, w.dims@[0] as int / groups as int);
    let l = p.positions();
    assert(ci * n == n * ci) by (nonlinear_arith);
    vstd::arithmetic::div_mod::lemma_fundamental_div_mod_converse(
        x.dims@[1] as int,
        n,
        ci,
        0,
    );
    vstd::arithmetic::div_mod::lemma_fundamental_div_mod(w.dims@[0] as int, n);
    assert(w.dims@[0] == n * co);
    assert(0 <= co <= n * co) by (nonlinear_arith)
        requires
            n >= 1,
            n * co >= 0,
    ;
    assert(p.c_out == co && p.c_in == ci);
    lemma_part_bounds(g, n, ci);
    lemma_part_bounds(g, n, co);
    crate::arith::lemma_window_positions(
        p.l_in as int,
        p.padding as int,
        p.dilation as int,
        p.k_size as int,
        p.stride as int,
    );
    assert(x_part.dims@ =~= seq![x.dims@[0], w.dims@[1], x.dims@[2]]);
    assert(w_part.dims@ =~= seq![co as usize, w.dims@[1], w.dims@[2]]);
    assert(y_part.dims@ =~= seq![p.b_size, co as usize, l as usize]);
    assert(ci * 1 == ci && ci / 1 == ci && co / 1 == co && co % 1 == 0);
    assert(w_part.dims@[1] * 1 == w_part.dims@[1]);
    let q = conv1d_params(
        x_part.dims@,
        w_part.dims@,
        padding,
        stride,
        dilation,
        1,
        cudnn_fwd_algo,
    );
    assert(q == p);
    assert(r is Ok);
    let z = r->Ok_0;
    assert(1 * p.c_out == p.c_out);
    assert(z.dims@ =~= y_part.dims@);
    let total = p.b_size * (co * l);
    crate::arith::lemma_span_three(p.b_size, co as usize, l as usize);
    assert forall|k: int| 0 <= k < total implies #[trigger] y_part.data@[k] == z.data@[k] by {
        crate::tensor::lemma_join_index(k, p.b_size as int, co, l);
        let (b, c, o) = crate::tensor::split_index(k, co, l);
        lemma_narrowed_middle(y_part, y, (g * co) as usize, co as usize, b, c, o);
        let whole = g * co + c;
        crate::arith::lemma_index_bound(g, c, n, co);
        crate::arith::lemma_index_split(g, c, co);
        crate::arith::lemma_index_split(0, c, co);
        assert(0 * co == 0);
        assert(0 * p.c_in == 0);
        lemma_even_chunks(n, co, g);
        lemma_even_chunks(1, co, 0);
        assert(1 * co == co);
        assert(y.at3(b, whole, o) == conv1d_at(
            plane(x, b, g * p.c_in),
            plane(w, whole, 0),
            p,
            o,
        ));
        assert(z.at3(b, c, o) == conv1d_at(plane(x_part, b, 0), plane(w_part, c, 0), p, o));
        let (x1, w1) = (plane(x, b, g * p.c_in), plane(w, whole, 0));
        let (x2, w2) = (plane(x_part, b, 0), plane(w_part, c, 0));
        assert forall|d: int, i: int| 0 <= d < p.c_in && 0 <= i < p.l_in implies #[trigger] x1(d, i)
            == x2(d, i) by {
            lemma_narrowed_middle(x_part, x, (g * ci) as usize, ci as usize, b, d, i);
        }
        assert forall|d: int, j: int|
            0 <= d < p.c_in && 0 <= j < p.k_size implies #[trigger] w1(d, j) == w2(d, j) by {
            lemma_narrowed_first(w_part, w, (g * co) as usize, co as usize, c, d, j);
        }
        lemma_conv1d_sum_congruent(x1, w1, x2, w2, p, o, (p.c_in * p.k_size) as nat);
    }
    assert(y_part.data@ =~= z.data@);
}

/// The positions of group `g` lie within those of all groups.
pub proof fn lemma_part_bounds(g: int, n: int, part: int)
    requires
        0 <= g < n,
        0 <= part,
    ensures
        0 <= g * part,
        g * part + part <= n * part,
{
    assert(0 <= g * part) by (nonlinear_arith)
        requires
            0 <= g,
            0 <= part,
    ;
    assert(g * part + part <= n * part) by (nonlinear_arith)
        requires
            g + 1 <= n,
            0 <= part,
    ;
}

impl<E: Element> Tensor<E> {
    /// Applies a one-dimensional convolution to `[batch, channels, length]` elements, with a
    /// kernel of `[rows, channels per group, taps]`.
    pub fn conv1d(
        &self,
        kernel: &Self,
        padding: usize,
        stride: usize,
        dilation: usize,
        groups: usize,
    ) -> (r: Result<Self>)
        requires
            self.wf(),
            kernel.wf(),
            conv1d_ends(self.dims@, kernel.dims@, padding, stride, dilation, groups),
        ensures
            conv1d_outcome(r, *self, *kernel, padding, stride, dilation, groups, None),
    {
        self.conv1d_with_algo(kernel, padding, stride, dilation, groups, None)
    }

    /// Applies a one-dimensional convolution, by the algorithm given where the backend offers
    /// several.
    pub fn conv1d_with_algo(
        &self,
        kernel: &Self,
        padding: usize,
        stride: usize,
        dilation: usize,
        groups: usize,
        cudnn_fwd_algo: Option<CudnnFwdAlgo>,
    ) -> (r: Result<Self>)
        requires
            self.wf(),
            kernel.wf(),
            conv1d_ends(self.dims@, kernel.dims@, padding, stride, dilation, groups),
        ensures
            conv1d_outcome(
                r,
                *self,
                *kernel,
                padding,
                stride,
                dilation,
                groups,
                cudnn_fwd_algo,
            ),
    {
        let (c_out, c_in_k, k_size) = match kernel.dims3() {
            Ok(dims) => dims,
            Err(e) => {
                return Err(e);
            },
        };
        let (b_size, c_in, l_in) = match self.dims3() {
            Ok(dims) => dims,
            Err(e) => {
                return Err(e);
            },
        };
        if c_in != c_in_k * groups {
            return Err(
                Error::Conv1dInvalidArgs {
                    inp_shape: copy_dims(self.dims.as_slice()),
                    k_shape: copy_dims(kernel.dims.as_slice()),
                    padding,
                    stride,
                    msg: "the number of in-channels on the input doesn't match the kernel size",
                },
            );
        }
        let params: ParamsConv1D = ParamsConv1D {
            b_size,
            l_in,
            c_out: c_out / groups,
            c_in: c_in / groups,
            k_size,
            padding,
            stride,
            dilation,
            cudnn_fwd_algo,
        };
        proof {
            crate::arith::lemma_index_split(c_in_k as int, 0, groups as int);
            assert(c_in_k * groups == groups * c_in_k) by (nonlinear_arith);
            let p = conv1d_params(
                self.dims@,
                kernel.dims@,
                padding,
                stride,
                dilation,
                groups,
                None,
            );
            assert(params.fits() == p.fits() && params.positions() == p.positions());
            assert(conv1d_operands(*self, *kernel, params, groups));
        }
        if groups == 1 {
            proof {
                assert(groups * params.c_out == params.c_out) by (nonlinear_arith)
                    requires
                        groups == 1,
                ;
                assert(c_out / 1 == c_out && c_in / 1 == c_in);
            }
            let t: Self = self.conv1d_single_group(kernel, &params);
            proof {
                assert forall|b: int, c: int, o: int|
                    0 <= b < b_size && 0 <= c < groups * params.c_out && 0 <= o
                        < params.positions() implies #[trigger] t.at3(b, c, o) == conv1d_at(
                    plane(*self, b, (c / params.c_out as int) * params.c_in),
                    plane(
                        *kernel,
                        kernel_row(kernel.dims@[0] as int, groups as int, params.c_out as int, c),
                        0,
                    ),
                    params,
                    o,
                ) by {
                    crate::arith::lemma_index_split(0, c, params.c_out as int);
                    assert(0 * params.c_out + c == c);
                    assert(0 * params.c_in == 0);
                    lemma_even_chunks(1, c_out as int, 0);
                }
            }
            Ok(t)
        } else if depthwise_1d_applicable(&params, groups) {
            proof {
                law_tapwise_fits(params, groups);
                assert(groups * params.c_in == groups) by (nonlinear_arith)
                    requires
                        params.c_in == 1,
                ;
            }
            let r: Result<Self> = self.conv1d_depthwise(kernel, &params);
            proof {
                if r is Ok {
                    lemma_tapwise_is_conv1d(r->Ok_0, *self, *kernel, params, groups);
                    assert(c_out > 0);
                }
            }
            r
        } else {
            self.conv1d_grouped_loop(kernel, &params, groups)
        }
    }
}

} // verus!
