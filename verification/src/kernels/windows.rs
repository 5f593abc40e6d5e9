//! What the convolution, pooling and resampling kernels make of what is bound to them.
//!
//! The parameters of a kernel are read off a launch in the order in which the kernel declares
//! them. What the kernel reads for an element follows from them.

use crate::conv::ParamsConvTranspose1D;
use crate::conv_transpose::{hit1d, hit2d, ParamsConvTranspose2D};
use crate::kernels::bindings::{is_read, is_written, number, start};
use crate::kernels::convolution::{
    launches_col2im1d, launches_conv2d_grouped_tiled, launches_conv_transpose1d,
    launches_conv_transpose2d, launches_im2col, launches_im2col1d, launches_pool2d,
    launches_upsample_bilinear, launches_upsample_nearest, CallConvTranspose2dCfg,
    Conv2dGroupedCfg, Conv2dGroupedTiledVariant,
};
use crate::kernels::launch::{Arg, BufferOffset, Dispatch, Launch, Source};
use vstd::prelude::*;

verus! {

/// The sizes that are bound.
pub open spec fn sizes<'a, B>(a: Arg<'a, B>) -> Seq<usize> {
    match a {
        Arg::Sizes(s) => s@,
        _ => Seq::empty(),
    }
}

/// The parameters of the kernel that unrolls one-dimensional windows, in their order.
pub ghost struct Im2Col1dParams {
    pub dst_numel: int,
    pub l_out: int,
    pub l_k: int,
    pub stride: int,
    pub padding: int,
    pub dilation: int,
    pub src_dims: Seq<usize>,
    pub src_strides: Seq<usize>,
}

/// What a launch binds to the parameters of the kernel that unrolls one-dimensional windows.
pub open spec fn im2col1d_params<'a, B>(l: Launch<'a, B>) -> Im2Col1dParams {
    let a = l.args@;
    Im2Col1dParams {
        dst_numel: number(a[0]),
        l_out: number(a[1]),
        l_k: number(a[2]),
        stride: number(a[3]),
        padding: number(a[4]),
        dilation: number(a[5]),
        src_dims: sizes(a[6]),
        src_strides: sizes(a[7]),
    }
}

impl Im2Col1dParams {
    /// The position of the signal that tap `k` of window `w` sees; outside of it, it sees zero.
    pub open spec fn position(self, w: int, k: int) -> int {
        w * self.stride + k * self.dilation - self.padding
    }

    /// The element that tap `k` of window `w` of a channel reads.
    pub open spec fn source(self, b: int, c: int, w: int, k: int) -> int {
        b * self.src_strides[0] + c * self.src_strides[1] + self.position(w, k)
            * self.src_strides[2]
    }
}

/// Unrolling takes every window that lies within the padded signal, and no more, with all its taps
/// in every channel. Windows are a stride apart and taps a dilation, the first window starts with
/// the padding, and a tap finds its element by the signal's strides.
pub proof fn law_columns_are_the_windows<'a, B>(
    l: Launch<'a, B>,
    name: &'a str,
    shape: &'a [usize],
    strides: &'a [usize],
    window: (usize, usize, usize, usize),
    input: BufferOffset<B>,
    output: B,
)
    requires
        launches_im2col1d(l, name, shape, strides, window, input, output),
        crate::arith::window_fits(
            shape@[2] as int,
            window.2 as int,
            window.3 as int,
            window.0 as int,
            window.1 as int,
        ),
        shape@.len() == 3,
        strides@.len() == 3,
    ensures
        l.source == Source::Conv && l.name@ == name@,
        is_read(l.args@[8], input.buffer),
        start(l.args@[8]) == input.offset_in_bytes,
        is_written(l.args@[9], output),
        start(l.args@[9]) == 0,
        ({
            let p = im2col1d_params(l);
            let (k_size, stride, padding, dilation) = window;
            let len = shape@[2] + 2 * padding;
            &&& p.l_k == k_size
            &&& p.src_dims == shape@
            &&& forall|b: int, c: int, w: int, k: int| #[trigger]
                p.source(b, c, w, k) == b * strides@[0] + c * strides@[1] + (w * stride + k
                    * dilation - padding) * strides@[2]
            &&& p.l_out >= 1
            &&& (p.l_out - 1) * stride + (k_size - 1) * dilation < len
            &&& len <= p.l_out * stride + (k_size - 1) * dilation
            &&& shape@[0] * p.l_out * shape@[1] * k_size <= usize::MAX ==> p.dst_numel == shape@[0]
                * p.l_out * shape@[1] * k_size
            &&& l.dispatch matches Dispatch::Linear { length } && length == p.dst_numel
        }),
{
    let (k_size, stride, padding, dilation) = window;
    crate::arith::law_windows_fill_the_padded_length(
        shape@[2] as int,
        padding as int,
        dilation as int,
        k_size as int,
        stride as int,
    );
}

/// The parameters of the kernel that unrolls two-dimensional windows, in their order.
pub ghost struct Im2ColParams {
    pub dst_numel: int,
    pub h_out: int,
    pub w_out: int,
    pub h_k: int,
    pub w_k: int,
    pub stride: int,
    pub padding: int,
    pub dilation: int,
    pub src_dims: Seq<usize>,
    pub src_strides: Seq<usize>,
}

/// What a launch binds to the parameters of the kernel that unrolls two-dimensional windows.
pub open spec fn im2col_params<'a, B>(l: Launch<'a, B>) -> Im2ColParams {
    let a = l.args@;
    Im2ColParams {
        dst_numel: number(a[0]),
        h_out: number(a[1]),
        w_out: number(a[2]),
        h_k: number(a[3]),
        w_k: number(a[4]),
        stride: number(a[5]),
        padding: number(a[6]),
        dilation: number(a[7]),
        src_dims: sizes(a[8]),
        src_strides: sizes(a[9]),
    }
}

impl Im2ColParams {
    /// The position along an axis that tap `k` of window `w` sees.
    pub open spec fn position(self, w: int, k: int) -> int {
        w * self.stride + k * self.dilation - self.padding
    }

    /// The element that a tap of a window of a channel reads, both given by row and column.
    pub open spec fn source(self, b: int, c: int, w: (int, int), k: (int, int)) -> int {
        b * self.src_strides[0] + c * self.src_strides[1] + self.position(w.0, k.0)
            * self.src_strides[2] + self.position(w.1, k.1) * self.src_strides[3]
    }
}

/// Unrolling an image takes every window that lies within the padded image, and no more, along
/// both axes: the height goes with the rows of the kernel and the width with its columns.
pub proof fn law_image_columns_are_the_windows<'a, B>(
    l: Launch<'a, B>,
    name: &'a str,
    shape: &'a [usize],
    strides: &'a [usize],
    window: (usize, usize, usize, usize, usize),
    input: BufferOffset<B>,
    output: B,
)
    requires
        launches_im2col(l, name, shape, strides, window, input, output),
        shape@.len() == 4,
        strides@.len() == 4,
        crate::arith::window_fits(
            shape@[2] as int,
            window.3 as int,
            window.4 as int,
            window.0 as int,
            window.2 as int,
        ),
        crate::arith::window_fits(
            shape@[3] as int,
            window.3 as int,
            window.4 as int,
            window.1 as int,
            window.2 as int,
        ),
    ensures
        l.source == Source::Conv && l.name@ == name@,
        is_read(l.args@[10], input.buffer),
        start(l.args@[10]) == input.offset_in_bytes,
        is_written(l.args@[11], output),
        start(l.args@[11]) == 0,
        ({
            let p = im2col_params(l);
            let (h_k, w_k, stride, padding, dilation) = window;
            &&& p.h_k == h_k && p.w_k == w_k
            &&& p.src_dims == shape@
            &&& forall|b: int, c: int, w: (int, int), k: (int, int)| #[trigger]
                p.source(b, c, w, k) == b * strides@[0] + c * strides@[1] + (w.0 * stride + k.0
                    * dilation - padding) * strides@[2] + (w.1 * stride + k.1 * dilation - padding)
                    * strides@[3]
            &&& p.h_out >= 1 && p.w_out >= 1
            &&& (p.h_out - 1) * stride + (h_k - 1) * dilation < shape@[2] + 2 * padding
            &&& shape@[2] + 2 * padding <= p.h_out * stride + (h_k - 1) * dilation
            &&& (p.w_out - 1) * stride + (w_k - 1) * dilation < shape@[3] + 2 * padding
            &&& shape@[3] + 2 * padding <= p.w_out * stride + (w_k - 1) * dilation
            &&& shape@[0] * p.h_out * p.w_out * shape@[1] * h_k * w_k <= usize::MAX ==> p.dst_numel
                == shape@[0] * p.h_out * p.w_out * shape@[1] * h_k * w_k
            &&& l.dispatch matches Dispatch::Linear { length } && length == p.dst_numel
        }),
{
    let (h_k, w_k, stride, padding, dilation) = window;
    crate::arith::law_windows_fill_the_padded_length(
        shape@[2] as int,
        padding as int,
        dilation as int,
        h_k as int,
        stride as int,
    );
    crate::arith::law_windows_fill_the_padded_length(
        shape@[3] as int,
        padding as int,
        dilation as int,
        w_k as int,
        stride as int,
    );
}

/// The parameters of the kernel that adds columns up, in their order.
pub ghost struct Col2Im1dParams {
    pub dst_el: int,
    pub l_out: int,
    pub l_in: int,
    pub c_out: int,
    pub k_size: int,
    pub stride: int,
}

/// What a launch binds to the parameters of the kernel that adds columns up.
pub open spec fn col2im1d_params<'a, B>(l: Launch<'a, B>) -> Col2Im1dParams {
    let a = l.args@;
    Col2Im1dParams {
        dst_el: number(a[0]),
        l_out: number(a[1]),
        l_in: number(a[2]),
        c_out: number(a[3]),
        k_size: number(a[4]),
        stride: number(a[5]),
    }
}

impl Col2Im1dParams {
    /// The output position onto which tap `k` of input position `i` is added.
    pub open spec fn target(self, i: int, k: int) -> int {
        i * self.stride + k
    }

    /// Where that tap is among the columns, `[batch, l_in, c_out, k_size]`.
    pub open spec fn column(self, b: int, c: int, i: int, k: int) -> int {
        ((b * self.l_in + i) * self.c_out + c) * self.k_size + k
    }
}

/// Adding columns up puts tap `k` of input position `i` onto the output position that the transposed
/// convolution has it spread to, every such position is in the output, and the last one is the
/// output's last. The columns are read in row-major order.
pub proof fn law_columns_add_up_where_they_spread<'a, B>(
    l: Launch<'a, B>,
    name: Seq<char>,
    shape: Seq<usize>,
    input: (B, usize),
    output: B,
    p: ParamsConvTranspose1D,
)
    requires
        launches_col2im1d(l, name, shape, p.k_size, p.stride, input, output),
        shape.len() >= 3,
        shape[1] >= 1,
        p.k_size >= 1,
        p.padding == 0,
        p.dilation == 1,
        (shape[1] - 1) * p.stride + p.k_size <= usize::MAX,
    ensures
        l.source == Source::Conv && l.name@ == name,
        is_read(l.args@[6], input.0),
        start(l.args@[6]) == input.1,
        is_written(l.args@[7], output),
        start(l.args@[7]) == 0,
        ({
            let q = col2im1d_params(l);
            &&& forall|o: int, k: int, i: int| #[trigger]
                hit1d(p, o)(k, i) == (q.target(i, k) == o)
            &&& forall|i: int, k: int|
                0 <= i < shape[1] && 0 <= k < p.k_size ==> 0 <= #[trigger] q.target(i, k) < q.l_out
            &&& q.target(shape[1] - 1, p.k_size - 1) == q.l_out - 1
            &&& forall|b: int, c: int, i: int, k: int| #[trigger]
                q.column(b, c, i, k) == ((b * shape[1] + i) * shape[2] + c) * p.k_size + k
            &&& shape[0] * shape[2] * q.l_out <= usize::MAX ==> q.dst_el == shape[0] * shape[2]
                * q.l_out
            &&& l.dispatch matches Dispatch::Linear { length } && length == q.dst_el
        }),
{
    let q = col2im1d_params(l);
    let (n, stride) = (shape[1] as int, p.stride as int);
    assert((n - 1) * stride >= 0) by (nonlinear_arith)
        requires
            n >= 1,
            stride >= 0,
    ;
    assert forall|i: int, k: int|
        0 <= i < shape[1] && 0 <= k < p.k_size implies 0 <= #[trigger] q.target(i, k) < q.l_out by {
        assert(0 <= i * stride <= (n - 1) * stride) by (nonlinear_arith)
            requires
                0 <= i <= n - 1,
                stride >= 0,
        ;
    }
    assert forall|o: int, k: int, i: int| #[trigger]
        hit1d(p, o)(k, i) == (q.target(i, k) == o) by {
        assert(k * p.dilation == k);
    }
}

/// What resampling to `out_w` by `out_h` binds to its first parameters: how wide and how high the
/// output is, with a thread for each of its elements in every plane.
pub open spec fn resamples<'a, B>(
    l: Launch<'a, B>,
    shape: Seq<usize>,
    out_w: usize,
    out_h: usize,
) -> bool {
    &&& number(l.args@[0]) == out_w
    &&& number(l.args@[1]) == out_h
    &&& l.dispatch matches Dispatch::Linear { length } && length == shape[0] * shape[1] * out_h
        * out_w
}

/// The two ways of resampling agree in what they have in common: the extents of the output, the
/// threads, and the extents and strides by which the image is read from its buffer on. One steps
/// by the third extent over the width and by the fourth over the height; the other is told each
/// scale by itself, and whether it was given at all.
pub proof fn law_resampling_by_size<'a, B>(
    nearest: Launch<'a, B>,
    bilinear: Launch<'a, B>,
    names: (&'a str, &'a str),
    shape: &'a [usize],
    strides: &'a [usize],
    out_w: usize,
    out_h: usize,
    align_corners: bool,
    scale_h: Option<u64>,
    scale_w: Option<u64>,
    input: BufferOffset<B>,
    output: B,
)
    requires
        launches_upsample_nearest(nearest, names.0, shape, strides, out_w, out_h, input, output),
        launches_upsample_bilinear(
            bilinear,
            names.1,
            shape,
            strides,
            out_w,
            out_h,
            align_corners,
            scale_h,
            scale_w,
            input,
            output,
        ),
        crate::kernels::convolution::planes_fit(shape@, out_w, out_h),
    ensures
        nearest.source == Source::Conv && nearest.name@ == names.0@,
        bilinear.source == Source::Conv && bilinear.name@ == names.1@,
        resamples(nearest, shape@, out_w, out_h),
        resamples(bilinear, shape@, out_w, out_h),
        sizes(nearest.args@[4]) == shape@ && sizes(nearest.args@[5]) == strides@,
        sizes(bilinear.args@[7]) == shape@ && sizes(bilinear.args@[8]) == strides@,
        nearest.args@[6] == bilinear.args@[9] && is_read(nearest.args@[6], input.buffer),
        start(nearest.args@[6]) == input.offset_in_bytes,
        nearest.args@[7] == bilinear.args@[10] && is_written(nearest.args@[7], output),
        start(nearest.args@[7]) == 0,
        nearest.args@[2] matches Arg::Ratio(from, to) && from == shape@[2] && to == number(
            nearest.args@[0],
        ),
        nearest.args@[3] matches Arg::Ratio(from, to) && from == shape@[3] && to == number(
            nearest.args@[1],
        ),
        bilinear.args@[2] == Arg::<'a, B>::Bool(align_corners),
        bilinear.args@[3] matches Arg::Bool(given) && (given <==> scale_h is Some),
        bilinear.args@[5] matches Arg::Bool(given) && (given <==> scale_w is Some),
        scale_h matches Some(bits) ==> bilinear.args@[4] == Arg::<'a, B>::Narrowed(bits),
        scale_w matches Some(bits) ==> bilinear.args@[6] == Arg::<'a, B>::Narrowed(bits),
{
    lemma_plane(out_w, out_h, shape@[0], shape@[1]);
}

/// The elements of all planes, in whichever order the extents are multiplied.
proof fn lemma_plane(w: usize, h: usize, b: usize, c: usize)
    ensures
        w * h * b * c == b * c * h * w,
{
    assert(w * h * b * c == (w * h) * (b * c)) by (nonlinear_arith);
    assert(b * c * h * w == (h * w) * (b * c)) by (nonlinear_arith);
    assert(w * h == h * w) by (nonlinear_arith);
}

/// Pooling moves windows of `w_k` by `h_k` by the stride of their own axis: the kernel is told width
/// before height, first of the windows and second of the strides. There is a thread for each element
/// of the output in every plane.
pub proof fn law_pooling_by_axis<'a, B>(
    l: Launch<'a, B>,
    name: &'a str,
    shape: &'a [usize],
    strides: &'a [usize],
    out_w: usize,
    out_h: usize,
    w_k: usize,
    h_k: usize,
    w_stride: usize,
    h_stride: usize,
    input: B,
    output: B,
)
    requires
        launches_pool2d(
            l,
            name,
            shape,
            strides,
            out_w,
            out_h,
            w_k,
            h_k,
            w_stride,
            h_stride,
            input,
            output,
        ),
        crate::kernels::convolution::planes_fit(shape@, out_w, out_h),
    ensures
        l.source == Source::Conv && l.name@ == name@,
        pooled_at(l, true, 0, 0) == 0 && pooled_at(l, false, 0, 0) == 0,
        forall|o: int, k: int| #[trigger] pooled_at(l, true, o, k) == o * w_stride + k,
        forall|o: int, k: int| #[trigger] pooled_at(l, false, o, k) == o * h_stride + k,
        number(l.args@[0]) == w_k,
        number(l.args@[1]) == h_k,
        sizes(l.args@[4]) == shape@,
        sizes(l.args@[5]) == strides@,
        is_read(l.args@[6], input) && start(l.args@[6]) == 0,
        is_written(l.args@[7], output) && start(l.args@[7]) == 0,
        l.dispatch matches Dispatch::Linear { length } && length == shape@[0] * shape@[1] * out_h
            * out_w,
{
    lemma_plane(out_w, out_h, shape@[0], shape@[1]);
    assert(0 * w_stride == 0 && 0 * h_stride == 0);
}

/// The position along an axis, the width or the height, that element `k` of output `o`'s window has
/// in the image.
pub open spec fn pooled_at<'a, B>(l: Launch<'a, B>, wide: bool, o: int, k: int) -> int {
    o * number(
        l.args@[if wide {
            2
        } else {
            3
        }],
    ) + k
}

/// The parameters of the kernel of transposed one-dimensional convolutions, in their order.
pub ghost struct Transpose1dParams {
    pub l_out: int,
    pub stride: int,
    pub padding: int,
    pub out_padding: int,
    pub dilation: int,
    pub src_dims: Seq<usize>,
    pub src_strides: Seq<usize>,
    pub k_dims: Seq<usize>,
    pub k_strides: Seq<usize>,
}

/// What a launch binds to the parameters of the kernel of transposed one-dimensional convolutions.
pub open spec fn transpose1d_params<'a, B>(l: Launch<'a, B>) -> Transpose1dParams {
    let a = l.args@;
    Transpose1dParams {
        l_out: number(a[0]),
        stride: number(a[1]),
        padding: number(a[2]),
        out_padding: number(a[3]),
        dilation: number(a[4]),
        src_dims: sizes(a[5]),
        src_strides: sizes(a[6]),
        k_dims: sizes(a[7]),
        k_strides: sizes(a[8]),
    }
}

impl Transpose1dParams {
    /// Tap `k` of input position `i` is spread onto output position `o`.
    pub open spec fn meets(self, o: int, k: int, i: int) -> bool {
        o + self.padding == k * self.dilation + i * self.stride
    }
}

/// A launch of a transposed convolution spreads every input over the same outputs as the convolution
/// itself, told the same stride, padding and dilation, and finds the input and the kernel by their
/// own extents and strides in their own buffers.
pub proof fn law_transposed_launch_spreads_alike<'a, B>(
    l: Launch<'a, B>,
    name: &'a str,
    p: ParamsConvTranspose1D,
    l_out: usize,
    src: (&'a [usize], &'a [usize]),
    kernel: (&'a [usize], &'a [usize]),
    input: (B, usize),
    weights: (B, usize),
    output: B,
)
    requires
        launches_conv_transpose1d(
            l,
            name,
            p.dilation,
            p.stride,
            p.padding,
            p.output_padding,
            p.c_out,
            l_out,
            p.b_size,
            src.0,
            src.1,
            kernel.0,
            kernel.1,
            input.0,
            input.1,
            weights.0,
            weights.1,
            output,
        ),
    ensures
        l.source == Source::Conv && l.name@ == name@,
        ({
            let q = transpose1d_params(l);
            &&& forall|o: int, k: int, i: int| #[trigger] q.meets(o, k, i) == hit1d(p, o)(k, i)
            &&& q.l_out == l_out && q.out_padding == p.output_padding
            &&& q.src_dims == src.0@ && q.src_strides == src.1@
            &&& q.k_dims == kernel.0@ && q.k_strides == kernel.1@
        }),
        is_read(l.args@[9], input.0) && start(l.args@[9]) == input.1,
        is_read(l.args@[10], weights.0) && start(l.args@[10]) == weights.1,
        is_written(l.args@[11], output) && start(l.args@[11]) == 0,
        p.b_size * p.c_out * l_out <= usize::MAX ==> l.dispatch == (Dispatch::Linear {
            length: (p.b_size * p.c_out * l_out) as usize,
        }),
{
    assert(p.c_out * l_out * p.b_size == p.b_size * p.c_out * l_out) by (nonlinear_arith);
}

/// The parameters of the kernel of transposed two-dimensional convolutions, in their order.
pub ghost struct Transpose2dParams {
    pub w_out: int,
    pub h_out: int,
    pub stride: int,
    pub padding: int,
    pub out_padding: int,
    pub dilation: int,
    pub input_dims: Seq<usize>,
    pub input_strides: Seq<usize>,
    pub k_dims: Seq<usize>,
    pub k_strides: Seq<usize>,
}

/// What a launch binds to the parameters of the kernel of transposed two-dimensional convolutions.
pub open spec fn transpose2d_params<'a, B>(l: Launch<'a, B>) -> Transpose2dParams {
    let a = l.args@;
    Transpose2dParams {
        w_out: number(a[0]),
        h_out: number(a[1]),
        stride: number(a[2]),
        padding: number(a[3]),
        out_padding: number(a[4]),
        dilation: number(a[5]),
        input_dims: sizes(a[6]),
        input_strides: sizes(a[7]),
        k_dims: sizes(a[8]),
        k_strides: sizes(a[9]),
    }
}

impl Transpose2dParams {
    /// Tap `k` of input position `i` is spread onto output position `o`, along one axis.
    pub open spec fn meets(self, o: int, k: int, i: int) -> bool {
        o + self.padding == k * self.dilation + i * self.stride
    }
}

/// A launch of a transposed two-dimensional convolution spreads every input over the same outputs
/// as the convolution itself, along both axes, and finds the input and the kernel by their own extents
/// and strides in their own buffers.
pub proof fn law_transposed2d_launch_spreads_alike<'a, B>(
    l: Launch<'a, B>,
    name: &'a str,
    cfg: CallConvTranspose2dCfg<'a>,
    p: ParamsConvTranspose2D,
    input: B,
    kernel: B,
    output: B,
)
    requires
        launches_conv_transpose2d(l, name, cfg, input, kernel, output),
        cfg.stride == p.stride,
        cfg.padding == p.padding,
        cfg.dilation == p.dilation,
        p.i_w > 0,
        p.k_w > 0,
    ensures
        l.source == Source::Conv && l.name@ == name@,
        ({
            let q = transpose2d_params(l);
            &&& forall|oh: int, ow: int, t: int, i: int| #[trigger]
                hit2d(p, oh, ow)(t, i) == (q.meets(oh, t / p.k_w as int, i / p.i_w as int)
                    && q.meets(ow, t % p.k_w as int, i % p.i_w as int))
            &&& q.w_out == cfg.out_w && q.h_out == cfg.out_h
            &&& q.out_padding == cfg.output_padding
            &&& q.input_dims == cfg.input_dims@ && q.input_strides == cfg.input_stride@
            &&& q.k_dims == cfg.kernel_dims@ && q.k_strides == cfg.kernel_stride@
        }),
        is_read(l.args@[10], input) && start(l.args@[10]) == cfg.input_offset,
        is_read(l.args@[11], kernel) && start(l.args@[11]) == cfg.kernel_offset,
        is_written(l.args@[12], output) && start(l.args@[12]) == 0,
        cfg.b_size * cfg.c_out * cfg.out_h * cfg.out_w <= usize::MAX ==> l.dispatch == (
        Dispatch::Linear { length: (cfg.b_size * cfg.c_out * cfg.out_h * cfg.out_w) as usize }),
{
    let (c, w, h, b) = (cfg.c_out as int, cfg.out_w as int, cfg.out_h as int, cfg.b_size as int);
    assert(c * w * h * b == (c * b) * (w * h) && b * c * h * w == (b * c) * (h * w))
        by (nonlinear_arith);
    assert(c * b == b * c && w * h == h * w) by (nonlinear_arith);
}

/// The parameters of the tiled grouped convolution, in their order.
pub ghost struct TiledParams {
    pub groups: int,
    pub c_in_pg: int,
    pub h_in: int,
    pub w_in: int,
}

/// What a launch binds to the parameters of the tiled grouped convolution.
pub open spec fn tiled_params<'a, B>(l: Launch<'a, B>) -> TiledParams {
    let a = l.args@;
    TiledParams {
        groups: number(a[0]),
        c_in_pg: number(a[1]),
        h_in: number(a[2]),
        w_in: number(a[3]),
    }
}

impl TiledParams {
    /// Where an element of channel `c` of group `g` of an image is.
    pub open spec fn source(self, b: int, g: int, c: int, y: int, x: int) -> int {
        (((b * self.groups + g) * self.c_in_pg + c) * self.h_in + y) * self.w_in + x
    }
}

/// The tiled grouped convolution reads channel `c` of group `g` of an image where the image, which
/// has the channels of all groups one behind the other, has it in row-major order. It reads the image
/// and the weights from where each starts, and has a threadgroup for every tile of every output row
/// of every group of every image.
pub proof fn law_tiled_reads_the_channels_of_the_group<'a, B>(
    l: Launch<'a, B>,
    variant: Conv2dGroupedTiledVariant,
    cfg: Conv2dGroupedCfg,
    input: BufferOffset<B>,
    weight: BufferOffset<B>,
    output: B,
)
    requires
        launches_conv2d_grouped_tiled(l, variant, cfg, input, weight, output),
        variant.columns() > 0,
        cfg.b_size * cfg.groups <= usize::MAX,
    ensures
        l.source == Source::Conv && l.name@ == variant.entry_point(),
        forall|b: int, g: int, c: int, y: int, x: int| #[trigger]
            tiled_params(l).source(b, g, c, y, x) == ((b * (cfg.groups * cfg.c_in_pg) + (g
                * cfg.c_in_pg + c)) * cfg.h_in + y) * cfg.w_in + x,
        is_read(l.args@[4], input.buffer) && start(l.args@[4]) == input.offset_in_bytes,
        is_read(l.args@[5], weight.buffer) && start(l.args@[5]) == weight.offset_in_bytes,
        is_written(l.args@[6], output) && start(l.args@[6]) == 0,
        l.dispatch matches Dispatch::ThreadGroups { count, size } && {
            &&& (count.width - 1) * variant.columns() < cfg.w_out <= count.width
                * variant.columns()
            &&& count.height == cfg.h_out
            &&& count.depth == cfg.b_size * cfg.groups
            &&& size.width == variant.group_threads() && size.height == 1 && size.depth == 1
        },
{
    let q = tiled_params(l);
    let (n, p) = (cfg.groups as int, cfg.c_in_pg as int);
    assert forall|b: int, g: int, c: int, y: int, x: int| #[trigger]
        q.source(b, g, c, y, x) == ((b * (n * p) + (g * p + c)) * cfg.h_in + y) * cfg.w_in + x by {
        assert((b * n + g) * p + c == b * (n * p) + (g * p + c)) by (nonlinear_arith);
    }
    let (w, t) = (cfg.w_out as int, variant.columns() as int);
    crate::arith::lemma_ceil_div_covers(w, t);
    let d = crate::arith::ceil_div(w, t);
    assert(d <= w) by (nonlinear_arith)
        requires
            (d - 1) * t < w,
            t >= 1,
            w >= 0,
    ;
}

} // verus!
