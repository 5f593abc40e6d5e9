//! Launches of the convolution, pooling and resampling kernels.

use crate::arith::{
    ceil_div, count_window_positions, divide, product, window_fits, window_positions,
};
use crate::conv::ParamsConvTranspose1D;
use crate::kernels::launch::{Arg, BufferOffset, Dispatch, Launch, MTLSize, Source};
use vstd::prelude::*;

verus! {

/// The launch that unrolls the windows of a one-dimensional convolution.
pub open spec fn launches_im2col1d<'a, B>(
    l: Launch<'a, B>,
    name: &'a str,
    shape: &'a [usize],
    strides: &'a [usize],
    window: (usize, usize, usize, usize),
    input: BufferOffset<B>,
    output: B,
) -> bool {
    let (k_size, stride, padding, dilation) = window;
    let l_out = window_positions(
        shape@[2] as int,
        padding as int,
        dilation as int,
        k_size as int,
        stride as int,
    );
    let dst_el = shape@[0] * l_out * shape@[1] * k_size;
    l.encodes(
        Source::Conv,
        name@,
        seq![
            Arg::Size(dst_el as usize),
            Arg::Size(l_out as usize),
            Arg::Size(k_size),
            Arg::Size(stride),
            Arg::Size(padding),
            Arg::Size(dilation),
            Arg::Sizes(shape),
            Arg::Sizes(strides),
            Arg::Input(input.buffer, input.offset_in_bytes),
            Arg::Output(output, 0),
        ],
        None,
        Dispatch::Linear { length: dst_el as usize },
    )
}

/// Unrolls the windows of a one-dimensional convolution into rows. `window` is
/// `(k_size, stride, padding, dilation)`, and the shape is `[batch, channels, length]`.
pub fn call_im2col1d_strided<'a, B>(
    name: &'a str,
    shape: &'a [usize],
    strides: &'a [usize],
    window: (usize, usize, usize, usize),
    input: BufferOffset<B>,
    output: B,
) -> (r: Launch<'a, B>)
    requires
        shape@.len() >= 3,
        window_fits(
            shape@[2] as int,
            window.2 as int,
            window.3 as int,
            window.0 as int,
            window.1 as int,
        ),
        ({
            let l_out = window_positions(
                shape@[2] as int,
                window.2 as int,
                window.3 as int,
                window.0 as int,
                window.1 as int,
            );
            &&& shape@[0] * l_out <= usize::MAX
            &&& shape@[0] * l_out * shape@[1] <= usize::MAX
            &&& shape@[0] * l_out * shape@[1] * window.0 <= usize::MAX
        }),
    ensures
        launches_im2col1d(r, name, shape, strides, window, input, output),
{
    let (k_size, stride, padding, dilation) = window;
    let l_out: usize = count_window_positions(shape[2], padding, dilation, k_size, stride);
    let dst_el: usize = shape[0] * l_out * shape[1] * k_size;
    Launch {
        source: Source::Conv,
        name,
        args: vec![
            Arg::Size(dst_el),
            Arg::Size(l_out),
            Arg::Size(k_size),
            Arg::Size(stride),
            Arg::Size(padding),
            Arg::Size(dilation),
            Arg::Sizes(shape),
            Arg::Sizes(strides),
            Arg::Input(input.buffer, input.offset_in_bytes),
            Arg::Output(output, 0),
        ],
        threadgroup_memory: None,
        dispatch: Dispatch::Linear { length: dst_el },
    }
}

/// The launch that adds the columns of a transposed one-dimensional convolution up.
pub open spec fn launches_col2im1d<'a, B>(
    l: Launch<'a, B>,
    name: Seq<char>,
    shape: Seq<usize>,
    k_size: usize,
    stride: usize,
    input: (B, usize),
    output: B,
) -> bool {
    let l_out = (shape[1] - 1) * stride + k_size;
    let dst_el = shape[0] * shape[2] * l_out;
    l.encodes(
        Source::Conv,
        name,
        seq![
            Arg::Size(dst_el as usize),
            Arg::Size(l_out as usize),
            Arg::Size(shape[1]),
            Arg::Size(shape[2]),
            Arg::Size(k_size),
            Arg::Size(stride),
            Arg::Input(input.0, input.1),
            Arg::Output(output, 0),
        ],
        None,
        Dispatch::Linear { length: dst_el as usize },
    )
}

/// The columns add up to as many positions as the transposed convolution has, where it neither
/// pads nor dilates, and there is a thread for each of them.
pub proof fn law_col2im1d_has_the_transposed_length<'a, B>(
    l: Launch<'a, B>,
    name: Seq<char>,
    shape: Seq<usize>,
    input: (B, usize),
    output: B,
    p: ParamsConvTranspose1D,
)
    requires
        launches_col2im1d(l, name, shape, p.k_size, p.stride, input, output),
        shape.len() >= 3,
        p.l_in == shape[1],
        p.padding == 0,
        p.output_padding == 0,
        p.dilation == 1,
    ensures
        l.args@[1] == Arg::<'a, B>::Size(p.positions() as usize),
        l.args@[0] == Arg::<'a, B>::Size((shape[0] * shape[2] * p.positions()) as usize),
        l.dispatch == (Dispatch::Linear {
            length: (shape[0] * shape[2] * p.positions()) as usize,
        }),
{
}

/// Adds the columns of a transposed one-dimensional convolution up into the output. The shape is
/// `[batch, length, channels]`.
pub fn call_col2im1d<'a, B>(
    name: &'a str,
    shape: &'a [usize],
    k_size: usize,
    stride: usize,
    input: BufferOffset<B>,
    output: B,
) -> (r: Launch<'a, B>)
    requires
        shape@.len() >= 3,
        shape@[1] >= 1,
        (shape@[1] - 1) * stride <= usize::MAX,
        (shape@[1] - 1) * stride + k_size <= usize::MAX,
        shape@[0] * shape@[2] <= usize::MAX,
        shape@[0] * shape@[2] * ((shape@[1] - 1) * stride + k_size) <= usize::MAX,
    ensures
        launches_col2im1d(
            r,
            name@,
            shape@,
            k_size,
            stride,
            (input.buffer, input.offset_in_bytes),
            output,
        ),
{
    let l_in: usize = shape[1];
    let c_out: usize = shape[2];
    let l_out: usize = (l_in - 1) * stride + k_size;
    let dst_el: usize = shape[0] * c_out * l_out;
    Launch {
        source: Source::Conv,
        name,
        args: vec![
            Arg::Size(dst_el),
            Arg::Size(l_out),
            Arg::Size(l_in),
            Arg::Size(c_out),
            Arg::Size(k_size),
            Arg::Size(stride),
            Arg::Input(input.buffer, input.offset_in_bytes),
            Arg::Output(output, 0),
        ],
        threadgroup_memory: None,
        dispatch: Dispatch::Linear { length: dst_el },
    }
}

/// The elements that unrolling the windows of a two-dimensional convolution gives, and the
/// windows along both axes. `window` is `(h_k, w_k, stride, padding, dilation)`.
pub open spec fn im2col_extents(
    shape: Seq<usize>,
    window: (usize, usize, usize, usize, usize),
) -> (int, int) {
    let (h_k, w_k, stride, padding, dilation) = window;
    (
        window_positions(
            shape[2] as int,
            padding as int,
            dilation as int,
            h_k as int,
            stride as int,
        ),
        window_positions(
            shape[3] as int,
            padding as int,
            dilation as int,
            w_k as int,
            stride as int,
        ),
    )
}

/// The launch that unrolls the windows of a two-dimensional convolution.
pub open spec fn launches_im2col<'a, B>(
    l: Launch<'a, B>,
    name: &'a str,
    shape: &'a [usize],
    strides: &'a [usize],
    window: (usize, usize, usize, usize, usize),
    input: BufferOffset<B>,
    output: B,
) -> bool {
    let (h_k, w_k, stride, padding, dilation) = window;
    let (h_out, w_out) = im2col_extents(shape@, window);
    let dst_el = shape@[0] * h_out * w_out * shape@[1] * h_k * w_k;
    l.encodes(
        Source::Conv,
        name@,
        seq![
            Arg::Size(dst_el as usize),
            Arg::Size(h_out as usize),
            Arg::Size(w_out as usize),
            Arg::Size(h_k),
            Arg::Size(w_k),
            Arg::Size(stride),
            Arg::Size(padding),
            Arg::Size(dilation),
            Arg::Sizes(shape),
            Arg::Sizes(strides),
            Arg::Input(input.buffer, input.offset_in_bytes),
            Arg::Output(output, 0),
        ],
        None,
        Dispatch::Linear { length: dst_el as usize },
    )
}

/// Unrolls the windows of a two-dimensional convolution into rows. `window` is
/// `(h_k, w_k, stride, padding, dilation)`, and the shape is `[batch, channels, height, width]`.
pub fn call_im2col_strided<'a, B>(
    name: &'a str,
    shape: &'a [usize],
    strides: &'a [usize],
    window: (usize, usize, usize, usize, usize),
    input: BufferOffset<B>,
    output: B,
) -> (r: Launch<'a, B>)
    requires
        shape@.len() >= 4,
        window_fits(
            shape@[2] as int,
            window.3 as int,
            window.4 as int,
            window.0 as int,
            window.2 as int,
        ),
        window_fits(
            shape@[3] as int,
            window.3 as int,
            window.4 as int,
            window.1 as int,
            window.2 as int,
        ),
        ({
            let (h_out, w_out) = im2col_extents(shape@, window);
            &&& shape@[0] * h_out <= usize::MAX
            &&& shape@[0] * h_out * w_out <= usize::MAX
            &&& shape@[0] * h_out * w_out * shape@[1] <= usize::MAX
            &&& shape@[0] * h_out * w_out * shape@[1] * window.0 <= usize::MAX
            &&& shape@[0] * h_out * w_out * shape@[1] * window.0 * window.1 <= usize::MAX
        }),
    ensures
        launches_im2col(r, name, shape, strides, window, input, output),
{
    let (h_k, w_k, stride, padding, dilation) = window;
    let h: usize = shape[2];
    let w: usize = shape[3];
    let h_out: usize = count_window_positions(h, padding, dilation, h_k, stride);
    let w_out: usize = count_window_positions(w, padding, dilation, w_k, stride);
    let dst_el: usize = shape[0] * h_out * w_out * shape[1] * h_k * w_k;
    Launch {
        source: Source::Conv,
        name,
        args: vec![
            Arg::Size(dst_el),
            Arg::Size(h_out),
            Arg::Size(w_out),
            Arg::Size(h_k),
            Arg::Size(w_k),
            Arg::Size(stride),
            Arg::Size(padding),
            Arg::Size(dilation),
            Arg::Sizes(shape),
            Arg::Sizes(strides),
            Arg::Input(input.buffer, input.offset_in_bytes),
            Arg::Output(output, 0),
        ],
        threadgroup_memory: None,
        dispatch: Dispatch::Linear { length: dst_el },
    }
}

/// An output of `out_w` by `out_h` for each image and channel of `shape` can be counted.
pub open spec fn planes_fit(shape: Seq<usize>, out_w: usize, out_h: usize) -> bool {
    &&& shape.len() >= 2
    &&& out_w * out_h <= usize::MAX
    &&& out_w * out_h * shape[0] <= usize::MAX
    &&& out_w * out_h * shape[0] * shape[1] <= usize::MAX
}

/// One thread for each element of an output of `out_w` by `out_h` for each image and channel.
pub open spec fn per_plane_element(shape: Seq<usize>, out_w: usize, out_h: usize) -> Dispatch {
    Dispatch::Linear { length: (out_w * out_h * shape[0] * shape[1]) as usize }
}

/// The launch that resamples by picking the nearest element.
pub open spec fn launches_upsample_nearest<'a, B>(
    l: Launch<'a, B>,
    name: &'a str,
    shape: &'a [usize],
    strides: &'a [usize],
    out_w: usize,
    out_h: usize,
    input: BufferOffset<B>,
    output: B,
) -> bool {
    l.encodes(
        Source::Conv,
        name@,
        seq![
            Arg::Size(out_w),
            Arg::Size(out_h),
            Arg::Ratio(shape@[2], out_w),
            Arg::Ratio(shape@[3], out_h),
            Arg::Sizes(shape),
            Arg::Sizes(strides),
            Arg::Input(input.buffer, input.offset_in_bytes),
            Arg::Output(output, 0),
        ],
        None,
        per_plane_element(shape@, out_w, out_h),
    )
}

/// Resamples to `out_w` by `out_h` by picking the nearest element.
///
/// The horizontal step is taken from the third extent of the shape and the vertical one from the
/// fourth.
pub fn call_upsample_nearest_2d<'a, B>(
    name: &'a str,
    shape: &'a [usize],
    strides: &'a [usize],
    out_w: usize,
    out_h: usize,
    input: BufferOffset<B>,
    output: B,
) -> (r: Launch<'a, B>)
    requires
        shape@.len() >= 4,
        planes_fit(shape@, out_w, out_h),
    ensures
        launches_upsample_nearest(r, name, shape, strides, out_w, out_h, input, output),
{
    let dst_el: usize = out_w * out_h * shape[0] * shape[1];
    Launch {
        source: Source::Conv,
        name,
        args: vec![
            Arg::Size(out_w),
            Arg::Size(out_h),
            Arg::Ratio(shape[2], out_w),
            Arg::Ratio(shape[3], out_h),
            Arg::Sizes(shape),
            Arg::Sizes(strides),
            Arg::Input(input.buffer, input.offset_in_bytes),
            Arg::Output(output, 0),
        ],
        threadgroup_memory: None,
        dispatch: Dispatch::Linear { length: dst_el },
    }
}

/// The bits of a scale factor, those of zero where none is given.
pub open spec fn scale_bits(scale: Option<u64>) -> u64 {
    match scale {
        Some(bits) => bits,
        None => 0,
    }
}

/// The launch that resamples by weighting the four neighbours.
pub open spec fn launches_upsample_bilinear<'a, B>(
    l: Launch<'a, B>,
    name: &'a str,
    shape: &'a [usize],
    strides: &'a [usize],
    out_w: usize,
    out_h: usize,
    align_corners: bool,
    scale_h: Option<u64>,
    scale_w: Option<u64>,
    input: BufferOffset<B>,
    output: B,
) -> bool {
    l.encodes(
        Source::Conv,
        name@,
        seq![
            Arg::Size(out_w),
            Arg::Size(out_h),
            Arg::Bool(align_corners),
            Arg::Bool(scale_h is Some),
            Arg::Narrowed(scale_bits(scale_h)),
            Arg::Bool(scale_w is Some),
            Arg::Narrowed(scale_bits(scale_w)),
            Arg::Sizes(shape),
            Arg::Sizes(strides),
            Arg::Input(input.buffer, input.offset_in_bytes),
            Arg::Output(output, 0),
        ],
        None,
        per_plane_element(shape@, out_w, out_h),
    )
}

/// Resamples to `out_w` by `out_h` by weighting the four neighbours. The scale factors are given
/// by the bits of their 64-bit floats.
pub fn call_upsample_bilinear_2d<'a, B>(
    name: &'a str,
    shape: &'a [usize],
    strides: &'a [usize],
    out_w: usize,
    out_h: usize,
    align_corners: bool,
    scale_h: Option<u64>,
    scale_w: Option<u64>,
    input: BufferOffset<B>,
    output: B,
) -> (r: Launch<'a, B>)
    requires
        planes_fit(shape@, out_w, out_h),
    ensures
        launches_upsample_bilinear(
            r,
            name,
            shape,
            strides,
            out_w,
            out_h,
            align_corners,
            scale_h,
            scale_w,
            input,
            output,
        ),
{
    let dst_el: usize = out_w * out_h * shape[0] * shape[1];
    Launch {
        source: Source::Conv,
        name,
        args: vec![
            Arg::Size(out_w),
            Arg::Size(out_h),
            Arg::Bool(align_corners),
            Arg::Bool(scale_h.is_some()),
            Arg::Narrowed(scale_h.unwrap_or(0)),
            Arg::Bool(scale_w.is_some()),
            Arg::Narrowed(scale_w.unwrap_or(0)),
            Arg::Sizes(shape),
            Arg::Sizes(strides),
            Arg::Input(input.buffer, input.offset_in_bytes),
            Arg::Output(output, 0),
        ],
        threadgroup_memory: None,
        dispatch: Dispatch::Linear { length: dst_el },
    }
}

/// The launch that pools windows.
pub open spec fn launches_pool2d<'a, B>(
    l: Launch<'a, B>,
    name: &'a str,
    shape: &'a [usize],
    strides: &'a [usize],
    out_w: usize,
    out_h: usize,
    w_k: usize,
    h_k: usize,
    w_stride: usize,
    h_stride: usize,
    input: B,
    output: B,
) -> bool {
    l.encodes(
        Source::Conv,
        name@,
        seq![
            Arg::Size(w_k),
            Arg::Size(h_k),
            Arg::Size(w_stride),
            Arg::Size(h_stride),
            Arg::Sizes(shape),
            Arg::Sizes(strides),
            Arg::Input(input, 0),
            Arg::Output(output, 0),
        ],
        None,
        per_plane_element(shape@, out_w, out_h),
    )
}

/// Pools windows of `w_k` by `h_k` into an output of `out_w` by `out_h`.
pub fn call_pool2d<'a, B>(
    name: &'a str,
    shape: &'a [usize],
    strides: &'a [usize],
    out_w: usize,
    out_h: usize,
    w_k: usize,
    h_k: usize,
    w_stride: usize,
    h_stride: usize,
    input: B,
    output: B,
) -> (r: Launch<'a, B>)
    requires
        planes_fit(shape@, out_w, out_h),
    ensures
        launches_pool2d(
            r,
            name,
            shape,
            strides,
            out_w,
            out_h,
            w_k,
            h_k,
            w_stride,
            h_stride,
            input,
            output,
        ),
{
    let dst_el: usize = out_w * out_h * shape[0] * shape[1];
    Launch {
        source: Source::Conv,
        name,
        args: vec![
            Arg::Size(w_k),
            Arg::Size(h_k),
            Arg::Size(w_stride),
            Arg::Size(h_stride),
            Arg::Sizes(shape),
            Arg::Sizes(strides),
            Arg::Input(input, 0),
            Arg::Output(output, 0),
        ],
        threadgroup_memory: None,
        dispatch: Dispatch::Linear { length: dst_el },
    }
}

/// The launch of a transposed one-dimensional convolution.
pub open spec fn launches_conv_transpose1d<'a, B>(
    l: Launch<'a, B>,
    name: &'a str,
    dilation: usize,
    stride: usize,
    padding: usize,
    out_padding: usize,
    c_out: usize,
    l_out: usize,
    b_size: usize,
    src_shape: &'a [usize],
    src_strides: &'a [usize],
    kernel_shape: &'a [usize],
    kernel_strides: &'a [usize],
    input: B,
    input_offset: usize,
    kernel: B,
    kernel_offset: usize,
    output: B,
) -> bool {
    l.encodes(
        Source::Conv,
        name@,
        seq![
            Arg::Size(l_out),
            Arg::Size(stride),
            Arg::Size(padding),
            Arg::Size(out_padding),
            Arg::Size(dilation),
            Arg::Sizes(src_shape),
            Arg::Sizes(src_strides),
            Arg::Sizes(kernel_shape),
            Arg::Sizes(kernel_strides),
            Arg::Input(input, input_offset),
            Arg::Input(kernel, kernel_offset),
            Arg::Output(output, 0),
        ],
        None,
        Dispatch::Linear { length: (c_out * l_out * b_size) as usize },
    )
}

/// Transposed one-dimensional convolution into `[b_size, c_out, l_out]`.
pub fn call_conv_transpose1d<'a, B>(
    name: &'a str,
    dilation: usize,
    stride: usize,
    padding: usize,
    out_padding: usize,
    c_out: usize,
    l_out: usize,
    b_size: usize,
    src_shape: &'a [usize],
    src_strides: &'a [usize],
    kernel_shape: &'a [usize],
    kernel_strides: &'a [usize],
    input: B,
    input_offset: usize,
    kernel: B,
    kernel_offset: usize,
    output: B,
) -> (r: Launch<'a, B>)
    requires
        c_out * l_out <= usize::MAX,
        c_out * l_out * b_size <= usize::MAX,
    ensures
        launches_conv_transpose1d(
            r,
            name,
            dilation,
            stride,
            padding,
            out_padding,
            c_out,
            l_out,
            b_size,
            src_shape,
            src_strides,
            kernel_shape,
            kernel_strides,
            input,
            input_offset,
            kernel,
            kernel_offset,
            output,
        ),
{
    let dst_el: usize = c_out * l_out * b_size;
    Launch {
        source: Source::Conv,
        name,
        args: vec![
            Arg::Size(l_out),
            Arg::Size(stride),
            Arg::Size(padding),
            Arg::Size(out_padding),
            Arg::Size(dilation),
            Arg::Sizes(src_shape),
            Arg::Sizes(src_strides),
            Arg::Sizes(kernel_shape),
            Arg::Sizes(kernel_strides),
            Arg::Input(input, input_offset),
            Arg::Input(kernel, kernel_offset),
            Arg::Output(output, 0),
        ],
        threadgroup_memory: None,
        dispatch: Dispatch::Linear { length: dst_el },
    }
}

/// Everything that `call_conv2d_grouped_tiled` needs besides buffers. The input has
/// `groups * c_in_pg` channels and the output `groups * c_out_pg`.
#[derive(Debug, Clone, Copy, PartialEq, Eq, Structural)]
pub struct Conv2dGroupedCfg {
    pub b_size: usize,
    pub groups: usize,
    pub c_in_pg: usize,
    pub c_out_pg: usize,
    pub h_in: usize,
    pub w_in: usize,
    pub h_out: usize,
    pub w_out: usize,
    pub k_h: usize,
    pub k_w: usize,
    pub stride: usize,
    pub padding: usize,
    pub dilation: usize,
}

impl Conv2dGroupedCfg {
    /// The extents of the output.
    pub open spec fn out_shape(self) -> Seq<usize> {
        seq![self.b_size, self.groups, self.c_out_pg, self.h_out, self.w_out]
    }

    /// The number of output elements. Whoever allocates the output asks here, so that it holds
    /// exactly what the kernel writes.
    pub fn dst_el(&self) -> (r: usize)
        requires
            crate::arith::span(self.out_shape()) <= usize::MAX,
        ensures
            r == product(self.out_shape()),
            r == self.b_size * self.groups * self.c_out_pg * self.h_out * self.w_out,
    {
        proof {
            lemma_five(self.b_size, self.groups, self.c_out_pg, self.h_out, self.w_out);
        }
        self.b_size * self.groups * self.c_out_pg * self.h_out * self.w_out
    }
}

/// The product of five extents, multiplied from the left, and that no step of it leaves a
/// machine word where their span does not.
proof fn lemma_five(a: usize, b: usize, c: usize, d: usize, e: usize)
    requires
        crate::arith::span(seq![a, b, c, d, e]) <= usize::MAX,
    ensures
        product(seq![a, b, c, d, e]) == a * b * c * d * e,
        a * b <= usize::MAX,
        a * b * c <= usize::MAX,
        a * b * c * d <= usize::MAX,
        a * b * c * d * e <= usize::MAX,
{
    let s = seq![a, b, c, d, e];
    crate::arith::lemma_prefix_fits(s, 2);
    crate::arith::lemma_prefix_fits(s, 3);
    crate::arith::lemma_prefix_fits(s, 4);
    crate::arith::lemma_prefix_fits(s, 5);
    assert(s.take(5) =~= s);
    assert(s.take(1) =~= seq![a]);
    crate::arith::lemma_product_prefix_step(s, 0);
    crate::arith::lemma_product_prefix_step(s, 1);
    crate::arith::lemma_product_prefix_step(s, 2);
    crate::arith::lemma_product_prefix_step(s, 3);
    crate::arith::lemma_product_prefix_step(s, 4);
    assert(s.take(0) =~= Seq::<usize>::empty());
    assert(product(s.take(0)) * a as nat == a) by (nonlinear_arith)
        requires
            product(s.take(0)) == 1,
    ;
    assert(product(s.take(2)) == a * b);
    assert(product(s.take(3)) == a * b * c);
    assert(product(s.take(4)) == a * b * c * d);
}

/// One compiled grouped convolution: its entry point and the tile constants that it was compiled
/// with. The launch geometry is a function of these, so they are only ever given together: other
/// columns would be computed than were asked for if one of them were off.
#[derive(Debug, Clone, Copy)]
pub struct Conv2dGroupedTiledVariant {
    name: &'static str,
    tile_t: usize,
    ci_chunk: usize,
    threads: usize,
}

impl Conv2dGroupedTiledVariant {
    /// The entry point.
    pub closed spec fn entry_point(self) -> Seq<char> {
        self.name@
    }

    /// Output columns per threadgroup.
    pub closed spec fn columns(self) -> usize {
        self.tile_t
    }

    /// Input channels staged per pass.
    pub closed spec fn channels(self) -> usize {
        self.ci_chunk
    }

    /// Threads per threadgroup.
    pub closed spec fn group_threads(self) -> usize {
        self.threads
    }

    /// The compiled variant: 224 columns, four channels, eight columns by four channels per
    /// thread.
    pub fn t224_c4_r8x4() -> (r: Self)
        ensures
            r.entry_point() == "conv2d_grouped_tiled_f32_t224_c4_r8x4"@,
            r.columns() == 224,
            r.channels() == 4,
            r.group_threads() == 224,
    {
        Self {
            name: "conv2d_grouped_tiled_f32_t224_c4_r8x4",
            tile_t: 224,
            ci_chunk: 4,
            threads: 224,
        }
    }

    /// Input channels staged per pass. The channels of a group must be a multiple of it.
    pub fn ci_chunk(&self) -> (r: usize)
        ensures
            r == self.channels(),
    {
        self.ci_chunk
    }
}

/// The launch of the tiled grouped convolution.
pub open spec fn launches_conv2d_grouped_tiled<'a, B>(
    l: Launch<'a, B>,
    variant: Conv2dGroupedTiledVariant,
    cfg: Conv2dGroupedCfg,
    input: BufferOffset<B>,
    weight: BufferOffset<B>,
    output: B,
) -> bool {
    l.encodes(
        Source::Conv,
        variant.entry_point(),
        seq![
            Arg::Size(cfg.groups),
            Arg::Size(cfg.c_in_pg),
            Arg::Size(cfg.h_in),
            Arg::Size(cfg.w_in),
            Arg::Input(input.buffer, input.offset_in_bytes),
            Arg::Input(weight.buffer, weight.offset_in_bytes),
            Arg::Output(output, 0),
        ],
        None,
        Dispatch::ThreadGroups {
            count: (MTLSize {
                width: ceil_div(cfg.w_out as int, variant.columns() as int) as usize,
                height: cfg.h_out,
                depth: (cfg.b_size * cfg.groups) as usize,
            }),
            size: (MTLSize { width: variant.group_threads(), height: 1, depth: 1 }),
        },
    )
}

/// The tiled grouped convolution. It is only valid for kernels of three by three, a stride,
/// dilation and padding of one, 32 output channels per group, and input channels per group that
/// are a multiple of `variant`'s.
pub fn call_conv2d_grouped_tiled<'a, B>(
    variant: Conv2dGroupedTiledVariant,
    cfg: Conv2dGroupedCfg,
    input: BufferOffset<B>,
    weight: BufferOffset<B>,
    output: B,
) -> (r: Launch<'a, B>)
    requires
        variant.columns() > 0,
        cfg.b_size * cfg.groups <= usize::MAX,
    ensures
        launches_conv2d_grouped_tiled(r, variant, cfg, input, weight, output),
{
    let count: MTLSize = MTLSize {
        width: divide(cfg.w_out, variant.tile_t),
        height: cfg.h_out,
        depth: cfg.b_size * cfg.groups,
    };
    let size: MTLSize = MTLSize { width: variant.threads, height: 1, depth: 1 };
    Launch {
        source: Source::Conv,
        name: variant.name,
        args: vec![
            Arg::Size(cfg.groups),
            Arg::Size(cfg.c_in_pg),
            Arg::Size(cfg.h_in),
            Arg::Size(cfg.w_in),
            Arg::Input(input.buffer, input.offset_in_bytes),
            Arg::Input(weight.buffer, weight.offset_in_bytes),
            Arg::Output(output, 0),
        ],
        threadgroup_memory: None,
        dispatch: Dispatch::ThreadGroups { count, size },
    }
}

/// Everything that `call_conv_transpose2d` needs besides buffers.
#[derive(Debug, Clone, Copy)]
pub struct CallConvTranspose2dCfg<'a> {
    pub dilation: usize,
    pub stride: usize,
    pub padding: usize,
    pub output_padding: usize,
    pub c_out: usize,
    pub out_w: usize,
    pub out_h: usize,
    pub b_size: usize,
    pub input_dims: &'a [usize],
    pub input_stride: &'a [usize],
    pub kernel_dims: &'a [usize],
    pub kernel_stride: &'a [usize],
    pub input_offset: usize,
    pub kernel_offset: usize,
}

/// The launch of a transposed two-dimensional convolution.
pub open spec fn launches_conv_transpose2d<'a, B>(
    l: Launch<'a, B>,
    name: &'a str,
    cfg: CallConvTranspose2dCfg<'a>,
    input: B,
    kernel: B,
    output: B,
) -> bool {
    l.encodes(
        Source::Conv,
        name@,
        seq![
            Arg::Size(cfg.out_w),
            Arg::Size(cfg.out_h),
            Arg::Size(cfg.stride),
            Arg::Size(cfg.padding),
            Arg::Size(cfg.output_padding),
            Arg::Size(cfg.dilation),
            Arg::Sizes(cfg.input_dims),
            Arg::Sizes(cfg.input_stride),
            Arg::Sizes(cfg.kernel_dims),
            Arg::Sizes(cfg.kernel_stride),
            Arg::Input(input, cfg.input_offset),
            Arg::Input(kernel, cfg.kernel_offset),
            Arg::Output(output, 0),
        ],
        None,
        Dispatch::Linear {
            length: (cfg.c_out * cfg.out_w * cfg.out_h * cfg.b_size) as usize,
        },
    )
}

/// Transposed two-dimensional convolution into `[b_size, c_out, out_h, out_w]`.
pub fn call_conv_transpose2d<'a, B>(
    name: &'a str,
    cfg: CallConvTranspose2dCfg<'a>,
    input: B,
    kernel: B,
    output: B,
) -> (r: Launch<'a, B>)
    requires
        cfg.c_out * cfg.out_w <= usize::MAX,
        cfg.c_out * cfg.out_w * cfg.out_h <= usize::MAX,
        cfg.c_out * cfg.out_w * cfg.out_h * cfg.b_size <= usize::MAX,
    ensures
        launches_conv_transpose2d(r, name, cfg, input, kernel, output),
{
    let dst_el: usize = cfg.c_out * cfg.out_w * cfg.out_h * cfg.b_size;
    Launch {
        source: Source::Conv,
        name,
        args: vec![
            Arg::Size(cfg.out_w),
            Arg::Size(cfg.out_h),
            Arg::Size(cfg.stride),
            Arg::Size(cfg.padding),
            Arg::Size(cfg.output_padding),
            Arg::Size(cfg.dilation),
            Arg::Sizes(cfg.input_dims),
            Arg::Sizes(cfg.input_stride),
            Arg::Sizes(cfg.kernel_dims),
            Arg::Sizes(cfg.kernel_stride),
            Arg::Input(input, cfg.input_offset),
            Arg::Input(kernel, cfg.kernel_offset),
            Arg::Output(output, 0),
        ],
        threadgroup_memory: None,
        dispatch: Dispatch::Linear { length: dst_el },
    }
}

/// The threadgroups of the tiled grouped convolution cover every output column, and no
/// threadgroup lies wholly past the last one.
pub proof fn law_tiles_cover_columns(w_out: int, tile: int)
    requires
        w_out >= 0,
        tile > 0,
    ensures
        w_out <= ceil_div(w_out, tile) * tile,
        (ceil_div(w_out, tile) - 1) * tile < w_out,
{
    crate::arith::lemma_ceil_div_covers(w_out, tile);
}

} // verus!
