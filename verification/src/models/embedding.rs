//! Rows looked up by number, and rows added by position.

use crate::arith::span;
use crate::conv::lemma_at3_in_range;
use crate::error::{Error, Result};
use crate::models::heads::{flat4, swap_middle, swapped_dims};
use crate::shape::copy_dims;
use crate::tensor::{Element, Tensor};
use vstd::prelude::*;

verus! {

/// The number at `i` is the first one that is no row.
pub open spec fn first_beyond(ids: Seq<u32>, rows: usize, i: int) -> bool {
    &&& 0 <= i < ids.len()
    &&& ids[i] >= rows
    &&& forall|j: int| 0 <= j < i ==> #[trigger] ids[j] < rows
}

/// All numbers are rows.
pub open spec fn all_rows(ids: Seq<u32>, rows: usize) -> bool {
    forall|j: int| 0 <= j < ids.len() ==> #[trigger] ids[j] < rows
}

/// The rows with the given numbers, for each of `b` sequences of length `l`.
pub open spec fn is_embedded<E>(
    r: Tensor<E>,
    ids: Seq<u32>,
    b: usize,
    l: usize,
    table: Tensor<E>,
) -> bool {
    &&& r.wf()
    &&& r.dims@ == seq![b, l, table.dims@[1]]
    &&& forall|a: int, t: int, c: int|
        0 <= a < b && 0 <= t < l && 0 <= c < table.dims@[1] ==> #[trigger] r.at3(a, t, c)
            == table.at2(ids[a * l + t] as int, c)
    &&& r.backend == table.backend
}

/// Looks rows up: `[b, l]` numbers in `[rows, width]`. An error names the first number that is
/// no row.
pub fn embedded<E: Copy>(ids: &[u32], b: usize, l: usize, table: &Tensor<E>) -> (r: Result<
    Tensor<E>,
>)
    requires
        table.wf(),
        table.dims@.len() == 2,
        ids@.len() == b * l,
        span(seq![b, l, table.dims@[1]]) <= usize::MAX,
    ensures
        match r {
            Ok(t) => all_rows(ids@, table.dims@[0]) && is_embedded(t, ids@, b, l, *table),
            Err(e) => exists|i: int| #[trigger]
                first_beyond(ids@, table.dims@[0], i) && e.is_beyond(
                    ids@[i] as int,
                    table.dims@[0],
                    "index-select"@,
                ),
        },
{
    let (rows, width) = (table.dims[0], table.dims[1]);
    let n: usize = ids.len();
    proof {
        assert(table.dims@ =~= seq![rows, width]);
        crate::arith::lemma_span_two(rows, width);
        crate::arith::lemma_span_three(b, l, width);
        assert(b * (l * width) == n * width) by (nonlinear_arith)
            requires
                n == b * l,
        ;
    }
    let cells: usize = table.data.len();
    let mut data: Vec<E> = Vec::with_capacity(n * width);
    let mut s: usize = 0;
    while s < n
        invariant
            s <= n,
            cells == table.data@.len(),
            cells == rows * width,
            n == ids@.len(),
            n * width <= usize::MAX,
            rows == table.dims@[0],
            data@.len() == s * width,
            forall|j: int| 0 <= j < s ==> #[trigger] ids@[j] < rows,
            forall|p: int|
                0 <= p < data@.len() ==> #[trigger] data@[p] == table.data@[ids@[p / width as int]
                    * width + p % width as int],
        decreases n - s,
    {
        let row: usize = ids[s] as usize;
        if row >= rows {
            assert(first_beyond(ids@, table.dims@[0], s as int));
            return Err(Error::InvalidIndex { op: "index-select", index: row, size: rows });
        }
        assert((s + 1) * width == s * width + width) by (nonlinear_arith);
        let mut c: usize = 0;
        while c < width
            invariant
                c <= width,
                s < n,
                n == ids@.len(),
                row == ids@[s as int],
                row < rows,
                cells == table.data@.len(),
                cells == rows * width,
                data@.len() == s * width + c,
                forall|p: int|
                    0 <= p < data@.len() ==> #[trigger] data@[p] == table.data@[ids@[p
                        / width as int] * width + p % width as int],
            decreases width - c,
        {
            proof {
                crate::arith::lemma_index_bound(row as int, c as int, rows as int, width as int);
                crate::arith::lemma_index_split(s as int, c as int, width as int);
                assert(0 <= row * width) by (nonlinear_arith);
            }
            data.push(table.data[row * width + c]);
            c = c + 1;
        }
        s = s + 1;
    }
    let dims: Vec<usize> = vec![b, l, width];
    assert(dims@ =~= seq![b, l, width]);
    let r: Tensor<E> = Tensor { dims, data, is_variable: false, op: None, backend: table.backend };
    proof {
        assert forall|a: int, t: int, c: int|
            0 <= a < b && 0 <= t < l && 0 <= c < width implies #[trigger] r.at3(a, t, c)
            == table.at2(ids@[a * l + t] as int, c) by {
            lemma_at3_in_range(r.dims@, r.data@.len() as int, a, t, c);
            crate::arith::lemma_index_split(a * l + t, c, width as int);
        }
    }
    Ok(r)
}

/// The elements with the rows of the positions from `start` on added to each sequence.
pub open spec fn is_positioned<E: Element>(
    r: Tensor<E>,
    x: Tensor<E>,
    table: Tensor<E>,
    start: int,
) -> bool {
    &&& r.wf()
    &&& r.dims@ == x.dims@
    &&& forall|a: int, t: int, c: int|
        0 <= a < x.dims@[0] && 0 <= t < x.dims@[1] && 0 <= c < x.dims@[2] ==> #[trigger] r.at3(
            a,
            t,
            c,
        ) == x.at3(a, t, c).spec_plus(table.at2(start + t, c))
    &&& r.backend == x.backend
}

/// Adds the rows of the positions from `start` on to each sequence of `[b, l, width]`; an error
/// where there are not as many rows, or rows of another width.
pub fn positioned<E: Element>(x: &Tensor<E>, table: &Tensor<E>, start: usize) -> (r: Result<
    Tensor<E>,
>)
    requires
        x.wf(),
        table.wf(),
        x.dims@.len() == 3,
        table.dims@.len() == 2,
    ensures
        if start + x.dims@[1] > table.dims@[0] {
            r matches Err(e) && e.is_out_of_range(table.dims@, 0, start, x.dims@[1])
        } else if table.dims@[1] != x.dims@[2] {
            r matches Err(e) && e.is_mismatch(
                x.dims@,
                seq![x.dims@[1], table.dims@[1]],
                "broadcast_add"@,
            )
        } else {
            r matches Ok(t) && is_positioned(t, *x, *table, start as int)
        },
{
    let (b, l, width) = (x.dims[0], x.dims[1], x.dims[2]);
    let rows: usize = table.dims[0];
    if l > rows || start > rows - l {
        return Err(
            Error::NarrowInvalidArgs {
                shape: copy_dims(table.dims.as_slice()),
                dim: 0,
                start,
                len: l,
            },
        );
    }
    if table.dims[1] != width {
        let rhs: Vec<usize> = vec![l, table.dims[1]];
        assert(rhs@ =~= seq![x.dims@[1], table.dims@[1]]);
        return Err(
            Error::ShapeMismatchBinaryOp {
                lhs: copy_dims(x.dims.as_slice()),
                rhs,
                op: "broadcast_add",
            },
        );
    }
    let total: usize = x.data.len();
    proof {
        assert(x.dims@ =~= seq![b, l, width]);
        crate::arith::lemma_span_three(b, l, width);
        assert(table.dims@ =~= seq![rows, width]);
        crate::arith::lemma_span_two(rows, width);
    }
    let plane: usize = l * width;
    let cells: usize = table.data.len();
    let mut data: Vec<E> = Vec::with_capacity(total);
    let mut p: usize = 0;
    while p < total
        invariant
            p <= total,
            total == x.data@.len(),
            total == b * plane,
            plane == l * width,
            cells == table.data@.len(),
            cells == rows * width,
            start + l <= rows,
            data@.len() == p,
            forall|q: int|
                0 <= q < p ==> #[trigger] data@[q] == x.data@[q].spec_plus(
                    table.data@[start * width + q % plane as int],
                ),
        decreases total - p,
    {
        assert(plane > 0) by (nonlinear_arith)
            requires
                p < b * plane,
                plane >= 0,
                p >= 0,
        ;
        assert(0 <= start * width && start * width + plane <= cells) by (nonlinear_arith)
            requires
                plane == l * width,
                cells == rows * width,
                start + l <= rows,
                start >= 0,
                width >= 0,
        ;
        data.push(x.data[p].plus(table.data[start * width + p % plane]));
        p = p + 1;
    }
    let r: Tensor<E> = Tensor {
        dims: copy_dims(x.dims.as_slice()),
        data,
        is_variable: false,
        op: None,
        backend: x.backend,
    };
    proof {
        assert forall|a: int, t: int, c: int|
            0 <= a < b && 0 <= t < l && 0 <= c < width implies #[trigger] r.at3(a, t, c) == x.at3(
            a,
            t,
            c,
        ).spec_plus(table.at2(start + t, c)) by {
            lemma_at3_in_range(x.dims@, x.data@.len() as int, a, t, c);
            let lo = t * width + c;
            crate::arith::lemma_index_bound(t, c, l as int, width as int);
            crate::arith::lemma_index_split(a, lo, plane as int);
            assert((a * l + t) * width + c == a * (l * width) + lo) by (nonlinear_arith)
                requires
                    lo == t * width + c,
            ;
            assert((start + t) * width + c == start * width + lo) by (nonlinear_arith)
                requires
                    lo == t * width + c,
            ;
        }
    }
    Ok(r)
}

/// `[a, b, c]` as `[a, c, b]`.
pub fn transposed<E: Copy>(x: &Tensor<E>) -> (r: Result<Tensor<E>>)
    requires
        x.wf(),
    ensures
        if x.dims@.len() != 3 {
            r == Err::<Tensor<E>, Error>(
                Error::UnexpectedNumberOfDims { expected: 3, got: x.dims@.len() as usize },
            )
        } else {
            &&& r matches Ok(t)
            &&& t.wf()
            &&& t.dims@ == seq![x.dims@[0], x.dims@[2], x.dims@[1]]
            &&& forall|i: int, k: int, j: int|
                0 <= i < x.dims@[0] && 0 <= k < x.dims@[2] && 0 <= j < x.dims@[1]
                    ==> #[trigger] t.at3(i, k, j) == x.at3(i, j, k)
            &&& t.backend == x.backend
        },
{
    let (a, b, c) = x.dims3()?;
    let wide: Vec<usize> = vec![a, b, c, 1];
    proof {
        assert(wide@ =~= seq![a, b, c, 1usize]);
        assert(x.dims@ =~= seq![a, b, c]);
        crate::conv2d::lemma_product_four(wide@);
        crate::arith::lemma_span_three(a, b, c);
        crate::arith::lemma_span_three(a, c, b);
        assert(b * (c * 1) == b * c && b * c == c * b) by (nonlinear_arith);
        let (y, z) = (crate::arith::max_nat(b as nat, 1), crate::arith::max_nat(c as nat, 1));
        assert(y * z == z * y) by (nonlinear_arith);
    }
    let data: Vec<E> = swap_middle(&x.data, wide.as_slice());
    let dims: Vec<usize> = vec![a, c, b];
    assert(dims@ =~= seq![a, c, b]);
    let r: Tensor<E> = Tensor { dims, data, is_variable: false, op: None, backend: x.backend };
    proof {
        assert forall|i: int, k: int, j: int|
            0 <= i < a && 0 <= k < c && 0 <= j < b implies #[trigger] r.at3(i, k, j) == x.at3(
            i,
            j,
            k,
        ) by {
            let there = flat4(swapped_dims(wide@), i, k, j, 0);
            assert(there == (i * c + k) * b + j) by (nonlinear_arith)
                requires
                    there == ((i * c + k) * b + j) * 1 + 0,
            ;
            let here = flat4(wide@, i, j, k, 0);
            assert(here == (i * b + j) * c + k) by (nonlinear_arith)
                requires
                    here == ((i * b + j) * c + k) * 1 + 0,
            ;
            assert(r.data@[there] == x.data@[here]);
        }
    }
    Ok(r)
}

} // verus!
