//! Repetition of the heads that several others share.

use crate::arith::span;
use crate::error::{Error, Result};
use crate::shape::{copy_dims, count};
use crate::tensor::{record, recorded, within, Op, Tensor};
use vstd::prelude::*;

verus! {

/// The extents with one of them multiplied.
pub open spec fn repeated_dims(dims: Seq<usize>, d: int, repeats: usize) -> Seq<usize> {
    dims.update(d, (dims[d] * repeats) as usize)
}

/// `r` holds the positions of `x` along a dimension over and over: position `i` is that of
/// `i % n`, where there are `n`.
pub open spec fn tiled<E>(r: Tensor<E>, x: Tensor<E>, dim: usize, repeats: usize) -> bool {
    let d = dim as int;
    &&& r.wf()
    &&& r.dims@ == repeated_dims(x.dims@, d, repeats)
    &&& forall|o: int, i: int, t: int|
        within(r.dims@, d, o, i, t) ==> #[trigger] r.along(d, o, i, t) == x.along(
            d,
            o,
            i % x.dims@[d] as int,
            t,
        )
}

/// `r` holds each position of `x` along a dimension several times in a row: position `i` is that
/// of `i / repeats`.
pub open spec fn interleaved<E>(r: Tensor<E>, x: Tensor<E>, dim: usize, repeats: usize) -> bool {
    let d = dim as int;
    &&& r.wf()
    &&& r.dims@ == repeated_dims(x.dims@, d, repeats)
    &&& forall|o: int, i: int, t: int|
        within(r.dims@, d, o, i, t) ==> #[trigger] r.along(d, o, i, t) == x.along(
            d,
            o,
            i / repeats as int,
            t,
        )
}

/// Which of `n` positions a repetition takes: over and over, or each several times in a row.
pub open spec fn source(i: int, n: int, repeats: int, in_a_row: bool) -> int {
    if in_a_row {
        i / repeats
    } else {
        i % n
    }
}

/// The source of a position is one of those there are.
proof fn lemma_source(i: int, n: int, repeats: int, in_a_row: bool)
    requires
        0 <= i < n * repeats,
        0 <= n,
        0 <= repeats,
    ensures
        0 <= source(i, n, repeats, in_a_row) < n,
        n > 0,
        repeats > 0,
{
    assert(n > 0 && repeats > 0) by (nonlinear_arith)
        requires
            0 <= i < n * repeats,
            0 <= n,
            0 <= repeats,
    ;
    crate::arith::lemma_index_join(i, n, repeats);
    vstd::arithmetic::div_mod::lemma_mod_bound(i, n);
}

/// The positions of `x` along a dimension, repeated.
fn repeat<E: Copy>(x: &Tensor<E>, repeats: usize, dim: usize, in_a_row: bool) -> (r: Tensor<E>)
    requires
        x.wf(),
        dim < x.dims@.len(),
        x.dims@[dim as int] * repeats <= usize::MAX,
        span(repeated_dims(x.dims@, dim as int, repeats)) <= usize::MAX,
    ensures
        if in_a_row {
            interleaved(r, *x, dim, repeats)
        } else {
            tiled(r, *x, dim, repeats)
        },
        r.op == recorded(Op::Cat { dim }, x.differentiable()),
        !r.is_variable,
        r.backend == x.backend,
{
    let ghost d = dim as int;
    let (outer, inner) = crate::tensor::outer_inner(x.dims.as_slice(), dim);
    let size: usize = x.dims[dim];
    let wide: usize = size * repeats;
    let mut dims: Vec<usize> = copy_dims(x.dims.as_slice());
    dims.set(dim, wide);
    proof {
        crate::arith::lemma_product_update(x.dims@, d, wide);
        crate::arith::lemma_product_split(x.dims@, d);
        crate::arith::lemma_product_le_span(x.dims@);
        crate::arith::lemma_product_le_span(dims@);
        assert(dims@.take(d) =~= x.dims@.take(d));
        assert(dims@.skip(d + 1) =~= x.dims@.skip(d + 1));
    }
    let total: usize = count(dims.as_slice());
    let mut data: Vec<E> = Vec::with_capacity(total);
    let mut p: usize = 0;
    while p < total
        invariant
            p <= total,
            wide == size * repeats,
            total == outer * (wide * inner),
            x.data@.len() == outer * (size * inner),
            x.data@.len() <= usize::MAX,
            data@.len() == p,
            forall|q: int|
                0 <= q < p ==> #[trigger] data@[q] == ({
                    let (o, i, t) = crate::tensor::split_index(q, wide as int, inner as int);
                    x.data@[(o * size + source(i, size as int, repeats as int, in_a_row)) * inner
                        + t]
                }),
        decreases total - p,
    {
        proof {
            crate::tensor::lemma_join_index(p as int, outer as int, wide as int, inner as int);
            let (o, i, t) = crate::tensor::split_index(p as int, wide as int, inner as int);
            lemma_source(i, size as int, repeats as int, in_a_row);
        }
        let h: usize = p / inner;
        let o: usize = h / wide;
        let i: usize = h % wide;
        let t: usize = p % inner;
        let s: usize = if in_a_row {
            i / repeats
        } else {
            i % size
        };
        proof {
            crate::tensor::lemma_index_in_range(
                o as int,
                s as int,
                t as int,
                outer as int,
                size as int,
                inner as int,
            );
            crate::tensor::lemma_steps(o as int, size as int, s as int, inner as int);
        }
        data.push(x.data[(o * size + s) * inner + t]);
        p = p + 1;
    }
    let r: Tensor<E> = Tensor {
        dims,
        data,
        is_variable: false,
        op: record(Op::Cat { dim }, x.track_op()),
        backend: x.backend,
    };
    proof {
        assert forall|o: int, i: int, t: int|
            within(r.dims@, d, o, i, t) implies #[trigger] r.along(d, o, i, t) == x.along(
            d,
            o,
            source(i, size as int, repeats as int, in_a_row),
            t,
        ) by {
            crate::tensor::lemma_split_index(o, i, t, wide as int, inner as int);
            crate::tensor::lemma_index_in_range(
                o,
                i,
                t,
                outer as int,
                wide as int,
                inner as int,
            );
            let q = (o * wide + i) * inner + t;
            assert(r.data@[q] == x.data@[(o * size + source(
                i,
                size as int,
                repeats as int,
                in_a_row,
            )) * inner + t]);
        }
    }
    r
}

/// The tensor once more.
fn once<E: Copy>(x: &Tensor<E>) -> (r: Tensor<E>)
    requires
        x.wf(),
    ensures
        r.wf(),
        r.dims@ == x.dims@,
        r.data@ == x.data@,
        r.differentiable() == x.differentiable(),
        r.backend == x.backend,
{
    let mut r: Tensor<E> = x.copy();
    r.is_variable = x.is_variable;
    r.op = x.op;
    r
}

/// What is taken once is there over and over, and each position in a row.
proof fn lemma_once<E>(r: Tensor<E>, x: Tensor<E>, dim: usize)
    requires
        r.wf(),
        r.dims@ == x.dims@,
        r.data@ == x.data@,
        dim < x.dims@.len(),
    ensures
        tiled(r, x, dim, 1),
        interleaved(r, x, dim, 1),
{
    let d = dim as int;
    assert(repeated_dims(x.dims@, d, 1) =~= x.dims@);
    assert forall|o: int, i: int, t: int| within(r.dims@, d, o, i, t) implies #[trigger] r.along(
        d,
        o,
        i,
        t,
    ) == x.along(d, o, i % x.dims@[d] as int, t) && r.along(d, o, i, t) == x.along(
        d,
        o,
        i / 1int,
        t,
    ) by {
        vstd::arithmetic::div_mod::lemma_small_mod(i as nat, x.dims@[d] as nat);
    }
}

/// Repeats along a dimension, over and over: `[a, b, c]` gives `[a, b, c, a, b, c]`. What is
/// taken once is handed back whatever the dimension. Nothing to repeat is an error, and so is a
/// dimension that is not there.
pub fn repeat_tiled<E: Copy>(x: &Tensor<E>, repeats: usize, dim: usize) -> (r: Result<Tensor<E>>)
    requires
        x.wf(),
        repeats > 1 && dim < x.dims@.len() ==> {
            &&& x.dims@[dim as int] * repeats <= usize::MAX
            &&& span(repeated_dims(x.dims@, dim as int, repeats)) <= usize::MAX
        },
    ensures
        if repeats == 0 {
            r matches Err(e) && e.is_empty_list("cat"@)
        } else if repeats > 1 && dim >= x.dims@.len() {
            r == Err::<Tensor<E>, Error>(
                Error::DimOutOfRange { dim: dim as isize, rank: x.dims@.len() as usize },
            )
        } else {
            &&& r matches Ok(t)
            &&& t.wf()
            &&& repeats == 1 ==> t.dims@ == x.dims@ && t.data@ == x.data@
            &&& dim < x.dims@.len() ==> tiled(t, *x, dim, repeats)
            &&& t.differentiable() == x.differentiable()
            &&& t.backend == x.backend
        },
{
    if repeats == 1 {
        let r: Tensor<E> = once(x);
        proof {
            if dim < x.dims@.len() {
                lemma_once(r, *x, dim);
            }
        }
        return Ok(r);
    }
    if repeats == 0 {
        return Err(Error::OpRequiresAtLeastOneTensor { op: "cat" });
    }
    if dim >= x.dims.len() {
        return Err(Error::DimOutOfRange { dim: dim as isize, rank: x.dims.len() });
    }
    Ok(repeat(x, repeats, dim, false))
}

/// Repeats along a dimension, each position in a row: `[a, b, c]` gives `[a, a, b, b, c, c]`. What
/// is taken once is handed back whatever the dimension.
pub fn repeat_interleave<E: Copy>(img: &Tensor<E>, repeats: usize, dim: usize) -> (r: Tensor<E>)
    requires
        img.wf(),
        repeats != 1 ==> {
            &&& dim < img.dims@.len()
            &&& img.dims@[dim as int] * repeats <= usize::MAX
            &&& span(repeated_dims(img.dims@, dim as int, repeats)) <= usize::MAX
        },
    ensures
        r.wf(),
        repeats == 1 ==> r.dims@ == img.dims@ && r.data@ == img.data@,
        dim < img.dims@.len() ==> interleaved(r, *img, dim, repeats),
        r.differentiable() == img.differentiable(),
        r.backend == img.backend,
{
    if repeats == 1 {
        let r: Tensor<E> = once(img);
        proof {
            if dim < img.dims@.len() {
                lemma_once(r, *img, dim);
            }
        }
        return r;
    }
    repeat(img, repeats, dim, true)
}

/// Both orders take the same positions when each is taken once, or when there is only one.
pub proof fn law_orders_agree(n: int, repeats: int, i: int)
    requires
        0 <= i < n * repeats,
        0 < n,
        0 < repeats,
        repeats == 1 || n == 1,
    ensures
        source(i, n, repeats, true) == source(i, n, repeats, false),
{
    if repeats == 1 {
        assert(n * repeats == n) by (nonlinear_arith)
            requires
                repeats == 1,
        ;
        vstd::arithmetic::div_mod::lemma_small_mod(i as nat, n as nat);
        assert(i / 1 == i);
    } else {
        assert(n * repeats == repeats) by (nonlinear_arith)
            requires
                n == 1,
        ;
        assert(i % 1 == 0);
        assert(i / repeats == 0) by (nonlinear_arith)
            requires
                0 <= i < repeats,
        ;
    }
}

/// Otherwise they do not: already the second position differs.
pub proof fn law_orders_differ(n: int, repeats: int)
    requires
        n > 1,
        repeats > 1,
    ensures
        source(1, n, repeats, false) == 1,
        source(1, n, repeats, true) == 0,
{
    vstd::arithmetic::div_mod::lemma_small_mod(1, n as nat);
    assert(1int / repeats == 0) by (nonlinear_arith)
        requires
            repeats > 1,
    ;
}

} // verus!
