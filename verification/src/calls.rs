//! Which calls of the convolutions are taken, how large their results are, and what is recorded of
//! them.

use crate::conv::{conv1d_outcome, CudnnFwdAlgo, ParamsConv1D};
use crate::conv2d::{conv2d_outcome, ParamsConv2D};
use crate::conv_transpose::{transpose1d_outcome, transpose2d_outcome};
use crate::error::{Error, Result};
use crate::tensor::{Element, Op, Tensor};
use crate::text::decimal_text;
use vstd::prelude::*;

verus! {

/// Gradients are asked for with respect to one of the operands, or flow through it.
pub open spec fn flows<E>(x: Tensor<E>, w: Tensor<E>) -> bool {
    x.is_variable || x.op is Some || w.is_variable || w.op is Some
}

/// A one-dimensional convolution is taken just where the channels of the kernel are those of a group.
/// Groups of nothing make no list to put together, and kernels that are taken tap by tap have one
/// row for each group.
pub proof fn law_conv1d_calls<E: Element>(
    r: Result<Tensor<E>>,
    x: Tensor<E>,
    w: Tensor<E>,
    padding: usize,
    stride: usize,
    dilation: usize,
    groups: usize,
    cudnn_fwd_algo: Option<CudnnFwdAlgo>,
)
    requires
        conv1d_outcome(r, x, w, padding, stride, dilation, groups, cudnn_fwd_algo),
        groups > 0,
    ensures
        r is Ok ==> x.dims@.len() == 3 && w.dims@.len() == 3 && x.dims@[1] == w.dims@[1] * groups,
        x.dims@.len() == 3 && w.dims@.len() == 3 && x.dims@[1] == w.dims@[1] && groups == 1
            ==> r is Ok,
        x.dims@.len() == 3 && w.dims@.len() == 3 && x.dims@[1] == w.dims@[1] * groups
            && w.dims@[1] > 1 && w.dims@[0] > 0 ==> r is Ok,
        r matches Ok(t) ==> {
            &&& t.dims@.len() == 3
            &&& t.dims@[0] == x.dims@[0]
            &&& t.op is Some <==> flows(x, w)
            &&& !t.is_variable
            &&& t.backend == x.backend
            &&& groups == 1 && flows(x, w) ==> (t.op matches Some(
                Op::Conv1D { padding: p, stride: s, dilation: d },
            ) && p == padding && s == stride && d == dilation)
            &&& groups != 1 ==> !(t.op matches Some(Op::Conv1D { .. }))
        },
{
    if w.dims@.len() == 3 {
        let (c, g) = (w.dims@[1] as int, groups as int);
        assert(c * g == g * c) by (nonlinear_arith);
        vstd::arithmetic::div_mod::lemma_div_multiples_vanish(c, g);
    }
}

/// A two-dimensional convolution is taken just where the channels of the kernel are those of a group
/// and its rows can be dealt to the groups.
pub proof fn law_conv2d_calls<E: Element>(
    r: Result<Tensor<E>>,
    x: Tensor<E>,
    w: Tensor<E>,
    padding: usize,
    stride: usize,
    dilation: usize,
    groups: usize,
    cudnn_fwd_algo: Option<CudnnFwdAlgo>,
)
    requires
        conv2d_outcome(r, x, w, padding, stride, dilation, groups, cudnn_fwd_algo),
        groups > 0,
    ensures
        r is Ok ==> {
            &&& x.dims@.len() == 4 && w.dims@.len() == 4
            &&& x.dims@[1] == w.dims@[1] * groups
            &&& w.dims@[0] as int % groups as int == 0
        },
        x.dims@.len() == 4 && w.dims@.len() == 4 && x.dims@[1] == w.dims@[1] * groups
            && w.dims@[0] as int % groups as int == 0 && (groups == 1 || (w.dims@[0] > 0
            && w.dims@[1] > 0)) ==> r is Ok,
        r matches Ok(t) ==> {
            &&& t.dims@.len() == 4
            &&& t.dims@[0] == x.dims@[0]
            &&& t.dims@[1] == w.dims@[0]
            &&& t.op is Some <==> flows(x, w)
            &&& !t.is_variable
            &&& t.backend == x.backend
            &&& groups == 1 && flows(x, w) ==> (t.op matches Some(
                Op::Conv2D { padding: p, stride: s, dilation: d },
            ) && p == padding && s == stride && d == dilation)
            &&& groups != 1 ==> !(t.op matches Some(Op::Conv2D { .. }))
        },
{
    if r is Ok {
        let (n, g) = (w.dims@[0] as int, groups as int);
        vstd::arithmetic::div_mod::lemma_fundamental_div_mod(n, g);
        assert(g * (n / g) == (n / g) * g) by (nonlinear_arith);
    }
}

/// A transposed one-dimensional convolution is taken just where there is a row of the kernel for each
/// channel, and the channels can be dealt to the groups.
pub proof fn law_transposed1d_calls<E: Element>(
    r: Result<Tensor<E>>,
    x: Tensor<E>,
    w: Tensor<E>,
    padding: usize,
    output_padding: usize,
    stride: usize,
    dilation: usize,
    groups: usize,
)
    requires
        transpose1d_outcome(r, x, w, padding, output_padding, stride, dilation, groups),
        groups > 0,
    ensures
        r is Ok <==> {
            &&& x.dims@.len() == 3 && w.dims@.len() == 3
            &&& x.dims@[1] == w.dims@[0]
            &&& x.dims@[1] as int % groups as int == 0
            &&& groups == 1 || x.dims@[1] > 0
        },
        r matches Ok(t) ==> {
            &&& t.dims@.len() == 3
            &&& t.dims@[0] == x.dims@[0]
            &&& w.dims@[1] * groups <= usize::MAX ==> t.dims@[1] == w.dims@[1] * groups
            &&& t.op is Some <==> flows(x, w)
            &&& !t.is_variable
            &&& t.backend == x.backend
            &&& groups == 1 && flows(x, w) ==> (t.op matches Some(
                Op::ConvTranspose1D { padding: p, output_padding: o, stride: s, dilation: d },
            ) && p == padding && o == output_padding && s == stride && d == dilation)
            &&& groups != 1 ==> !(t.op matches Some(Op::ConvTranspose1D { .. }))
        },
{
    if w.dims@.len() == 3 {
        let (c, g) = (w.dims@[1] as int, groups as int);
        assert(c * g == g * c) by (nonlinear_arith);
    }
}

/// A transposed two-dimensional convolution is taken just where there is a row of the kernel for each
/// channel.
pub proof fn law_transposed2d_calls<E: Element>(
    r: Result<Tensor<E>>,
    x: Tensor<E>,
    w: Tensor<E>,
    padding: usize,
    output_padding: usize,
    stride: usize,
    dilation: usize,
)
    requires
        transpose2d_outcome(r, x, w, padding, output_padding, stride, dilation),
    ensures
        r is Ok <==> x.dims@.len() == 4 && w.dims@.len() == 4 && x.dims@[1] == w.dims@[0],
        r matches Ok(t) ==> {
            &&& t.dims@.len() == 4
            &&& t.dims@[0] == x.dims@[0]
            &&& t.dims@[1] == w.dims@[1]
            &&& t.op is Some <==> flows(x, w)
            &&& !t.is_variable
            &&& t.backend == x.backend
            &&& flows(x, w) ==> (t.op matches Some(
                Op::ConvTranspose2D { padding: p, output_padding: o, stride: s, dilation: d },
            ) && p == padding && o == output_padding && s == stride && d == dilation)
        },
{
}

/// The output of a one-dimensional convolution is as long as there are windows in the padded input.
pub proof fn law_conv1d_length(p: ParamsConv1D)
    requires
        p.fits(),
    ensures
        p.positions() >= 1,
        (p.positions() - 1) * p.stride + (p.k_size - 1) * p.dilation < p.l_in + 2 * p.padding,
        p.l_in + 2 * p.padding <= p.positions() * p.stride + (p.k_size - 1) * p.dilation,
{
    crate::arith::law_windows_fill_the_padded_length(
        p.l_in as int,
        p.padding as int,
        p.dilation as int,
        p.k_size as int,
        p.stride as int,
    );
}

/// The output of a two-dimensional convolution is as high as there are windows above each other in the
/// padded input, and as wide as there are side by side.
pub proof fn law_conv2d_extents(p: ParamsConv2D)
    requires
        p.fits(),
    ensures
        p.rows() >= 1 && p.columns() >= 1,
        (p.rows() - 1) * p.stride + (p.k_h - 1) * p.dilation < p.i_h + 2 * p.padding,
        p.i_h + 2 * p.padding <= p.rows() * p.stride + (p.k_h - 1) * p.dilation,
        (p.columns() - 1) * p.stride + (p.k_w - 1) * p.dilation < p.i_w + 2 * p.padding,
        p.i_w + 2 * p.padding <= p.columns() * p.stride + (p.k_w - 1) * p.dilation,
{
    crate::arith::law_windows_fill_the_padded_length(
        p.i_h as int,
        p.padding as int,
        p.dilation as int,
        p.k_h as int,
        p.stride as int,
    );
    crate::arith::law_windows_fill_the_padded_length(
        p.i_w as int,
        p.padding as int,
        p.dilation as int,
        p.k_w as int,
        p.stride as int,
    );
}

/// A rank that is not the one asked for.
pub open spec fn wrong_rank<E>(r: Result<Tensor<E>>, expected: usize, got: nat) -> bool {
    r matches Err(Error::UnexpectedNumberOfDims { expected: a, got: b }) && a == expected && b
        == got
}

/// Convolutions name what does not fit: the rank that an operand has, the kernel of a
/// one-dimensional one first and the input of a two-dimensional one; or the channels of the input and
/// those of the kernel, in that order.
pub proof fn law_misfits_are_named<E: Element>(
    r1: Result<Tensor<E>>,
    r2: Result<Tensor<E>>,
    x: Tensor<E>,
    w: Tensor<E>,
    padding: usize,
    stride: usize,
    dilation: usize,
    groups: usize,
    cudnn_fwd_algo: Option<CudnnFwdAlgo>,
)
    requires
        conv1d_outcome(r1, x, w, padding, stride, dilation, groups, cudnn_fwd_algo),
        conv2d_outcome(r2, x, w, padding, stride, dilation, groups, cudnn_fwd_algo),
        x.dims.len() == x.dims@.len(),
        w.dims.len() == w.dims@.len(),
    ensures
        w.dims@.len() != 3 ==> wrong_rank(r1, 3, w.dims@.len()),
        w.dims@.len() == 3 && x.dims@.len() != 3 ==> wrong_rank(r1, 3, x.dims@.len()),
        x.dims@.len() != 4 ==> wrong_rank(r2, 4, x.dims@.len()),
        x.dims@.len() == 4 && w.dims@.len() != 4 ==> wrong_rank(r2, 4, w.dims@.len()),
        x.dims@.len() == 3 && w.dims@.len() == 3 && x.dims@[1] != w.dims@[1] * groups ==> (
        r1 matches Err(
            Error::Conv1dInvalidArgs { inp_shape, k_shape, padding: p, stride: s, .. },
        ) && inp_shape@ == x.dims@ && k_shape@ == w.dims@ && p == padding && s == stride),
        x.dims@.len() == 4 && w.dims@.len() == 4 && x.dims@[1] != w.dims@[1] * groups ==> (
        r2 matches Err(e) && e.says(
            "in_channel mismatch between input ("@ + decimal_text(x.dims@[1] as nat) + ", groups "@
                + decimal_text(groups as nat) + ") and kernel ("@ + decimal_text(
                w.dims@[1] as nat,
            ) + ")"@,
        )),
        x.dims@.len() == 4 && w.dims@.len() == 4 && x.dims@[1] == w.dims@[1] * groups
            && w.dims@[0] as int % groups as int != 0 ==> (r2 matches Err(e) && e.says(
            "out_channel "@ + decimal_text(w.dims@[0] as nat) + " is not divisible by groups "@
                + decimal_text(groups as nat),
        )),
{
}

/// Transposed convolutions name what does not fit: the rank that an operand has, or the channels of
/// the input and those of the kernel, in that order.
pub proof fn law_transposed_misfits_are_named<E: Element>(
    r1: Result<Tensor<E>>,
    r2: Result<Tensor<E>>,
    x: Tensor<E>,
    w: Tensor<E>,
    padding: usize,
    output_padding: usize,
    stride: usize,
    dilation: usize,
    groups: usize,
)
    requires
        transpose1d_outcome(r1, x, w, padding, output_padding, stride, dilation, groups),
        transpose2d_outcome(r2, x, w, padding, output_padding, stride, dilation),
        x.dims.len() == x.dims@.len(),
        w.dims.len() == w.dims@.len(),
    ensures
        w.dims@.len() != 3 ==> wrong_rank(r1, 3, w.dims@.len()),
        w.dims@.len() == 3 && x.dims@.len() != 3 ==> wrong_rank(r1, 3, x.dims@.len()),
        x.dims@.len() != 4 ==> wrong_rank(r2, 4, x.dims@.len()),
        x.dims@.len() == 4 && w.dims@.len() != 4 ==> wrong_rank(r2, 4, w.dims@.len()),
        x.dims@.len() == 3 && w.dims@.len() == 3 && x.dims@[1] != w.dims@[0] ==> (r1 matches Err(e)
            && e.says(
            "in_channel mismatch between input ("@ + decimal_text(x.dims@[1] as nat)
                + ") and kernel ("@ + decimal_text(w.dims@[0] as nat) + ")"@,
        )),
        x.dims@.len() == 4 && w.dims@.len() == 4 && x.dims@[1] != w.dims@[0] ==> (r2 matches Err(e)
            && e.says(
            "in_channel mismatch between input ("@ + decimal_text(x.dims@[1] as nat)
                + ") and kernel ("@ + decimal_text(w.dims@[0] as nat) + ")"@,
        )),
        x.dims@.len() == 3 && w.dims@.len() == 3 && x.dims@[1] == w.dims@[0] && x.dims@[1] as int
            % groups as int != 0 ==> (r1 matches Err(e) && e.says(
            "in_channel "@ + decimal_text(x.dims@[1] as nat)
                + " is not divisible by the number of groups"@,
        )),
{
}

} // verus!
