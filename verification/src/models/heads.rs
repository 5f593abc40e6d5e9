//! Attention heads: positions of many heads side by side, and heads of many positions.

use crate::arith::{product, span};
use crate::conv2d::lemma_product_four;
use crate::error::{Error, Result};
use crate::shape::{copy_dims, count};
use crate::tensor::{narrowed, within, Tensor};
use vstd::prelude::*;

verus! {

/// Where the element at four indices is.
pub open spec fn flat4(dims: Seq<usize>, a: int, b: int, c: int, d: int) -> int {
    ((a * dims[1] + b) * dims[2] + c) * dims[3] + d
}

/// The span of four extents does not depend on the order of the middle ones.
proof fn lemma_span_swap(a: usize, b: usize, c: usize, d: usize)
    ensures
        span(seq![a, b, c, d]) == span(seq![a, c, b, d]),
        product(seq![a, b, c, d]) == product(seq![a, c, b, d]),
{
    let (s, t) = (seq![a, b, c, d], seq![a, c, b, d]);
    lemma_product_four(s);
    lemma_product_four(t);
    assert(b * (c * d) == c * (b * d)) by (nonlinear_arith);
    assert(s.drop_first() =~= seq![b, c, d]);
    assert(t.drop_first() =~= seq![c, b, d]);
    crate::arith::lemma_span_three(b, c, d);
    crate::arith::lemma_span_three(c, b, d);
    let (x, y, z) = (
        crate::arith::max_nat(b as nat, 1),
        crate::arith::max_nat(c as nat, 1),
        crate::arith::max_nat(d as nat, 1),
    );
    assert(x * (y * z) == y * (x * z)) by (nonlinear_arith);
}

/// Four extents with the middle ones swapped.
pub open spec fn swapped_dims(dims: Seq<usize>) -> Seq<usize> {
    seq![dims[0], dims[2], dims[1], dims[3]]
}

/// `r` holds the elements of `[a, b, c, d]` as `[a, c, b, d]`.
pub open spec fn swapped<E>(r: Seq<E>, x: Seq<E>, dims: Seq<usize>) -> bool {
    &&& r.len() == x.len()
    &&& forall|a: int, b: int, c: int, d: int|
        0 <= a < dims[0] && 0 <= b < dims[1] && 0 <= c < dims[2] && 0 <= d < dims[3] ==> r[(
        #[trigger] flat4(swapped_dims(dims), a, c, b, d))] == x[flat4(
            dims,
            a,
            b,
            c,
            d,
        )]
}

/// The elements of `[a, b, c, d]` as `[a, c, b, d]`.
pub(crate) fn swap_middle<E: Copy>(x: &Vec<E>, dims: &[usize]) -> (r: Vec<E>)
    requires
        dims@.len() == 4,
        x@.len() == product(dims@),
    ensures
        swapped(r@, x@, dims@),
{
    let n: usize = x.len();
    let (n1, n2, n3) = (dims[1], dims[2], dims[3]);
    let ghost n0 = dims@[0];
    proof {
        lemma_product_four(dims@);
        assert(n0 * (n1 * (n2 * n3)) == (n0 * n2) * (n1 * n3)) by (nonlinear_arith);
    }
    let mut r: Vec<E> = Vec::with_capacity(n);
    let mut p: usize = 0;
    while p < n
        invariant
            p <= n,
            n == x@.len(),
            n == n0 * (n1 * (n2 * n3)),
            n == (n0 * n2) * (n1 * n3),
            r@.len() == p,
            forall|q: int|
                0 <= q < p ==> #[trigger] r@[q] == ({
                    let (o, b, d) = crate::tensor::split_index(q, n1 as int, n3 as int);
                    x@[(((o / n2 as int) * n1 + b) * n2 + o % n2 as int) * n3 + d]
                }),
        decreases n - p,
    {
        proof {
            lemma_source(p as int, n0 as int, n1 as int, n2 as int, n3 as int);
        }
        let h: usize = p / n3;
        let d: usize = p % n3;
        let o: usize = h / n1;
        let b: usize = h % n1;
        let a: usize = o / n2;
        let c: usize = o % n2;
        r.push(x[((a * n1 + b) * n2 + c) * n3 + d]);
        p = p + 1;
    }
    proof {
        let s = swapped_dims(dims@);
        assert forall|a: int, b: int, c: int, d: int|
            0 <= a < dims@[0] && 0 <= b < dims@[1] && 0 <= c < dims@[2] && 0 <= d
                < dims@[3] implies r@[#[trigger] flat4(s, a, c, b, d)] == x@[flat4(
            dims@,
            a,
            b,
            c,
            d,
        )] by {
            let o = a * n2 + c;
            let q = (o * n1 + b) * n3 + d;
            crate::tensor::lemma_split_index(o, b, d, n1 as int, n3 as int);
            crate::arith::lemma_index_split(a, c, n2 as int);
            crate::arith::lemma_index_bound(a, c, n0 as int, n2 as int);
            crate::tensor::lemma_index_in_range(
                o,
                b,
                d,
                n0 * n2,
                n1 as int,
                n3 as int,
            );
            assert(r@[q] == x@[((a * n1 + b) * n2 + c) * n3 + d]);
        }
    }
    r
}

/// Where an element of the swapped order comes from is in range, and so is what is computed on
/// the way.
proof fn lemma_source(p: int, n0: int, n1: int, n2: int, n3: int)
    requires
        0 <= p < (n0 * n2) * (n1 * n3),
        0 <= n0,
        0 <= n1,
        0 <= n2,
        0 <= n3,
    ensures
        n1 > 0 && n2 > 0 && n3 > 0,
        ({
            let (o, b, d) = crate::tensor::split_index(p, n1, n3);
            let (a, c) = (o / n2, o % n2);
            &&& 0 <= a && 0 <= b && 0 <= c && 0 <= d
            &&& 0 <= a * n1 <= a * n1 + b
            &&& a * n1 + b <= (a * n1 + b) * n2
            &&& (a * n1 + b) * n2 + c <= ((a * n1 + b) * n2 + c) * n3
            &&& 0 <= ((a * n1 + b) * n2 + c) * n3 + d < n0 * (n1 * (n2 * n3))
        }),
{
    crate::tensor::lemma_join_index(p, n0 * n2, n1, n3);
    let (o, b, d) = crate::tensor::split_index(p, n1, n3);
    assert(n2 > 0) by (nonlinear_arith)
        requires
            0 <= o < n0 * n2,
            n0 >= 0,
            n2 >= 0,
    ;
    crate::arith::lemma_index_join(o, n0, n2);
    let (a, c) = (o / n2, o % n2);
    crate::arith::lemma_index_bound(a, b, n0, n1);
    crate::tensor::lemma_index_in_range(a * n1 + b, c, d, n0 * n1, n2, n3);
    crate::tensor::lemma_steps(a, n1, b, n2);
    crate::tensor::lemma_steps(a * n1 + b, n2, c, n3);
    assert((n0 * n1) * (n2 * n3) == n0 * (n1 * (n2 * n3))) by (nonlinear_arith);
}

/// `r` holds the heads of `x`: head `h` of position `t` is the part of `head_dim` elements from
/// `h` parts on.
pub open spec fn is_split<E>(r: Tensor<E>, x: Tensor<E>, n_heads: usize, head_dim: usize) -> bool {
    let (b, l) = (x.dims@[0], x.dims@[1]);
    &&& r.wf()
    &&& r.dims@ == seq![b, n_heads, l, head_dim]
    &&& forall|a: int, h: int, t: int, i: int|
        0 <= a < b && 0 <= h < n_heads && 0 <= t < l && 0 <= i < head_dim ==> #[trigger] r.at4(
            a,
            h,
            t,
            i,
        ) == x.at3(a, t, h * head_dim + i)
    &&& r.backend == x.backend
    &&& r.differentiable() == x.differentiable()
}

/// The extents of positions that are cut into heads can be counted.
pub open spec fn splittable(x: Seq<usize>, n_heads: usize, head_dim: usize) -> bool {
    x.len() == 3 ==> span(seq![x[0], x[1], n_heads, head_dim]) <= usize::MAX
}

/// Cuts every position of `[batch, length, width]` into heads, `[batch, heads, length, head
/// width]`; an error where that does not come out even.
pub fn split_heads<E: Copy>(x: &Tensor<E>, n_heads: usize, head_dim: usize) -> (r: Result<
    Tensor<E>,
>)
    requires
        x.wf(),
        splittable(x.dims@, n_heads, head_dim),
    ensures
        if x.dims@.len() != 3 {
            r == Err::<Tensor<E>, Error>(
                Error::UnexpectedNumberOfDims { expected: 3, got: x.dims@.len() as usize },
            )
        } else if product(x.dims@) != product(seq![x.dims@[0], x.dims@[1], n_heads, head_dim]) {
            r matches Err(e) && e.is_mismatch(
                x.dims@,
                seq![x.dims@[0], x.dims@[1], n_heads, head_dim],
                "reshape"@,
            )
        } else {
            r matches Ok(t) && is_split(t, *x, n_heads, head_dim)
        },
{
    let (b, l, w) = x.dims3()?;
    let wide: Vec<usize> = vec![b, l, n_heads, head_dim];
    assert(wide@ =~= seq![b, l, n_heads, head_dim]);
    if count(wide.as_slice()) != count(x.dims.as_slice()) {
        return Err(
            Error::ShapeMismatchBinaryOp {
                lhs: copy_dims(x.dims.as_slice()),
                rhs: wide,
                op: "reshape",
            },
        );
    }
    let data: Vec<E> = swap_middle(&x.data, wide.as_slice());
    let dims: Vec<usize> = vec![b, n_heads, l, head_dim];
    assert(dims@ =~= seq![b, n_heads, l, head_dim]);
    proof {
        lemma_span_swap(b, l, n_heads, head_dim);
    }
    let r: Tensor<E> = Tensor {
        dims,
        data,
        is_variable: x.is_variable,
        op: x.op,
        backend: x.backend,
    };
    proof {
        assert forall|a: int, h: int, t: int, i: int|
            0 <= a < b && 0 <= h < n_heads && 0 <= t < l && 0 <= i < head_dim implies #[trigger] r.at4(
            a,
            h,
            t,
            i,
        ) == x.at3(a, t, h * head_dim + i) by {
            lemma_width(b, l, w, n_heads, head_dim);
            assert(r.data@[flat4(swapped_dims(wide@), a, h, t, i)] == x.data@[flat4(
                wide@,
                a,
                t,
                h,
                i,
            )]);
            lemma_flat(a * l + t, h, i, n_heads as int, head_dim as int);
        }
    }
    Ok(r)
}

/// Where there are positions, they are as wide as their heads together.
proof fn lemma_width(b: usize, l: usize, w: usize, n: usize, d: usize)
    requires
        product(seq![b, l, w]) == product(seq![b, l, n, d]),
        b > 0,
        l > 0,
    ensures
        w == n * d,
{
    crate::arith::lemma_span_three(b, l, w);
    lemma_product_four(seq![b, l, n, d]);
    assert(w == n * d) by (nonlinear_arith)
        requires
            b * (l * w) == b * (l * (n * d)),
            b > 0,
            l > 0,
    ;
}

/// An index into a width is an index into a head and into its part.
proof fn lemma_flat(p: int, h: int, i: int, n: int, d: int)
    ensures
        (p * n + h) * d + i == p * (n * d) + (h * d + i),
{
    assert((p * n + h) * d + i == p * (n * d) + (h * d + i)) by (nonlinear_arith);
}

/// `r` holds the heads of `x` side by side.
pub open spec fn is_merged<E>(r: Tensor<E>, x: Tensor<E>) -> bool {
    let (b, n, l, d) = (x.dims@[0], x.dims@[1], x.dims@[2], x.dims@[3]);
    &&& r.wf()
    &&& r.dims@ == seq![b, l, (n * d) as usize]
    &&& forall|a: int, h: int, t: int, i: int|
        0 <= a < b && 0 <= h < n && 0 <= t < l && 0 <= i < d ==> r.at3(a, t, h * d + i)
            == #[trigger] x.at4(a, h, t, i)
    &&& r.backend == x.backend
    &&& r.differentiable() == x.differentiable()
}

/// Heads that are put side by side can be counted.
pub open spec fn mergeable(x: Seq<usize>) -> bool {
    x.len() == 4 ==> {
        &&& x[1] * x[3] <= usize::MAX
        &&& span(seq![x[0], x[2], (x[1] * x[3]) as usize]) <= usize::MAX
    }
}

/// Puts the heads of `[batch, heads, length, head width]` side by side, `[batch, length, width]`.
pub fn merge_heads<E: Copy>(x: &Tensor<E>) -> (r: Result<Tensor<E>>)
    requires
        x.wf(),
        mergeable(x.dims@),
    ensures
        if x.dims@.len() != 4 {
            r == Err::<Tensor<E>, Error>(
                Error::UnexpectedNumberOfDims { expected: 4, got: x.dims@.len() as usize },
            )
        } else {
            r matches Ok(t) && is_merged(t, *x)
        },
{
    let (b, n, l, d) = x.dims4()?;
    let data: Vec<E> = swap_middle(&x.data, x.dims.as_slice());
    let dims: Vec<usize> = vec![b, l, n * d];
    assert(dims@ =~= seq![b, l, (n * d) as usize]);
    proof {
        lemma_product_four(x.dims@);
        crate::arith::lemma_span_three(b, l, (n * d) as usize);
        assert(b * (n * (l * d)) == b * (l * (n * d))) by (nonlinear_arith);
    }
    let r: Tensor<E> = Tensor {
        dims,
        data,
        is_variable: x.is_variable,
        op: x.op,
        backend: x.backend,
    };
    proof {
        assert forall|a: int, h: int, t: int, i: int|
            0 <= a < b && 0 <= h < n && 0 <= t < l && 0 <= i < d implies r.at3(a, t, h * d + i)
            == #[trigger] x.at4(a, h, t, i) by {
            assert(r.data@[flat4(swapped_dims(x.dims@), a, t, h, i)] == x.data@[flat4(
                x.dims@,
                a,
                h,
                t,
                i,
            )]);
            lemma_flat(a * l + t, h, i, n as int, d as int);
        }
    }
    Ok(r)
}

/// Heads that are cut out of positions, put side by side, are the positions again.
pub proof fn law_merge_undoes_split<E>(
    x: Tensor<E>,
    heads: Tensor<E>,
    merged: Tensor<E>,
    n_heads: usize,
    head_dim: usize,
)
    requires
        x.wf(),
        x.dims@.len() == 3,
        x.dims@[2] == n_heads * head_dim,
        is_split(heads, x, n_heads, head_dim),
        is_merged(merged, heads),
    ensures
        merged.dims@ == x.dims@,
        merged.data@ == x.data@,
{
    let (b, l, w) = (x.dims@[0], x.dims@[1], x.dims@[2]);
    assert(x.dims@ =~= seq![b, l, w]);
    crate::arith::lemma_span_three(b, l, w);
    assert(merged.data@.len() == x.data@.len());
    assert forall|p: int| 0 <= p < x.data@.len() implies merged.data@[p] == x.data@[p] by {
        crate::tensor::lemma_join_index(p, b as int, l as int, w as int);
        let (a, t, c) = crate::tensor::split_index(p, l as int, w as int);
        assert(head_dim > 0) by (nonlinear_arith)
            requires
                0 <= c < n_heads * head_dim,
                n_heads >= 0,
                head_dim >= 0,
        ;
        crate::arith::lemma_index_join(c, n_heads as int, head_dim as int);
        let (h, i) = (c / head_dim as int, c % head_dim as int);
        assert(merged.at3(a, t, h * head_dim + i) == heads.at4(a, h, t, i));
        assert(heads.at4(a, h, t, i) == x.at3(a, t, h * head_dim + i));
    }
    assert(merged.data@ =~= x.data@);
}

/// A part of a tensor along the last of four dimensions, element by element.
pub proof fn lemma_narrowed_last4<E>(
    r: Tensor<E>,
    s: Tensor<E>,
    start: usize,
    len: usize,
    a: int,
    b: int,
    c: int,
    d: int,
)
    requires
        s.dims@.len() == 4,
        narrowed(r, s, 3, start, len),
        0 <= a < s.dims@[0],
        0 <= b < s.dims@[1],
        0 <= c < s.dims@[2],
        0 <= d < len,
    ensures
        r.at4(a, b, c, d) == s.at4(a, b, c, start + d),
{
    let n = s.dims@;
    assert(r.dims@.skip(4) =~= Seq::<usize>::empty());
    assert(n.skip(4) =~= Seq::<usize>::empty());
    assert(r.dims@.take(3) =~= seq![n[0], n[1], n[2]]);
    crate::arith::lemma_span_three(n[0], n[1], n[2]);
    crate::tensor::lemma_index_in_range(a, b, c, n[0] as int, n[1] as int, n[2] as int);
    let o = (a * n[1] + b) * n[2] + c;
    assert(within(r.dims@, 3, o, d, 0));
    assert(r.along(3, o, d, 0) == s.along(3, o, start + d, 0));
    assert((o * len + d) * product(r.dims@.skip(4)) + 0 == o * len + d) by (nonlinear_arith)
        requires
            product(r.dims@.skip(4)) == 1,
    ;
    let h = o * n[3] + (start + d);
    assert(h * product(n.skip(4)) + 0 == h) by (nonlinear_arith)
        requires
            product(n.skip(4)) == 1,
    ;
}

} // verus!
