//! Products of matrices, row by row and column by column.

use crate::arith::{product, span};
use crate::conv2d::{lemma_at4_in_range, lemma_product_four};
use crate::error::{Error, Result};
use crate::models::heads::flat4;
use crate::shape::{copy_dims, count};
use crate::tensor::{Element, Tensor};
use vstd::prelude::*;

verus! {

/// The sum of the first `n` products of what stands in `x` from `i` on with what stands in `y`
/// from `j` on, `step` apart.
pub open spec fn dot<E: Element>(x: Seq<E>, i: int, y: Seq<E>, j: int, step: int, n: nat) -> E
    decreases n,
{
    if n == 0 {
        E::spec_zero()
    } else {
        let last = (n - 1) as nat;
        dot(x, i, y, j, step, last).spec_plus(x[i + last].spec_times(y[j + last * step]))
    }
}

/// Multiplies and adds up.
fn dot_product<E: Element>(
    x: &Vec<E>,
    i: usize,
    y: &Vec<E>,
    j: usize,
    step: usize,
    n: usize,
) -> (r: E)
    requires
        i + n <= x@.len(),
        n > 0 ==> j + (n - 1) * step < y@.len(),
    ensures
        r == dot(x@, i as int, y@, j as int, step as int, n as nat),
{
    let mut sum: E = E::zero();
    let mut t: usize = 0;
    let rows: usize = x.len();
    let len: usize = y.len();
    while t < n
        invariant
            t <= n,
            rows == x@.len(),
            i + n <= rows,
            len == y@.len(),
            n > 0 ==> j + (n - 1) * step < len,
            sum == dot(x@, i as int, y@, j as int, step as int, t as nat),
        decreases n - t,
    {
        assert(0 <= t * step <= (n - 1) * step) by (nonlinear_arith)
            requires
                0 <= t <= n - 1,
                0 <= step,
        ;
        let term: E = x[i + t].times(y[j + t * step]);
        sum = sum.plus(term);
        t = t + 1;
    }
    sum
}

/// What stands at `p` of the products of `groups` matrices of rows of `d` with as many matrices
/// of `m` columns: rows of `d` where they are `transposed`, columns otherwise. Each matrix has
/// `n` rows.
pub open spec fn cell<E: Element>(
    x: Seq<E>,
    y: Seq<E>,
    n: int,
    m: int,
    d: nat,
    transposed: bool,
    p: int,
) -> E {
    let (row, col) = (p / m, p % m);
    let g = row / n;
    if transposed {
        dot(x, row * d, y, (g * m + col) * d, 1, d)
    } else {
        dot(x, row * d, y, g * (d * m) + col, m, d)
    }
}

/// The products of as many matrices as there are groups.
fn cells<E: Element>(
    x: &Vec<E>,
    y: &Vec<E>,
    groups: usize,
    n: usize,
    m: usize,
    d: usize,
    transposed: bool,
    total: usize,
) -> (r: Vec<E>)
    requires
        x@.len() == (groups * n) * d,
        y@.len() == groups * (d * m),
        groups * m <= usize::MAX,
        total == (groups * n) * m,
    ensures
        r@.len() == total,
        forall|p: int|
            0 <= p < total ==> #[trigger] r@[p] == cell(
                x@,
                y@,
                n as int,
                m as int,
                d as nat,
                transposed,
                p,
            ),
{
    let mut r: Vec<E> = Vec::with_capacity(total);
    let mut p: usize = 0;
    let x_len: usize = x.len();
    let y_len: usize = y.len();
    while p < total
        invariant
            p <= total,
            x_len == x@.len(),
            y_len == y@.len(),
            x_len == (groups * n) * d,
            y_len == groups * (d * m),
            groups * m <= usize::MAX,
            total == (groups * n) * m,
            r@.len() == p,
            forall|q: int|
                0 <= q < p ==> #[trigger] r@[q] == cell(
                    x@,
                    y@,
                    n as int,
                    m as int,
                    d as nat,
                    transposed,
                    q,
                ),
        decreases total - p,
    {
        proof {
            lemma_cell_range(p as int, groups as int, n as int, m as int, d as int);
        }
        let row: usize = p / m;
        let col: usize = p % m;
        let g: usize = row / n;
        let sum: E = if transposed {
            dot_product(x, row * d, y, (g * m + col) * d, 1, d)
        } else {
            dot_product(x, row * d, y, g * (d * m) + col, m, d)
        };
        r.push(sum);
        p = p + 1;
    }
    r
}

/// Where a cell's row and column stand is in range, and so is what is computed on the way.
proof fn lemma_cell_range(p: int, groups: int, n: int, m: int, d: int)
    requires
        0 <= p < (groups * n) * m,
        0 <= groups,
        0 <= n,
        0 <= m,
        0 <= d,
    ensures
        m > 0 && n > 0 && groups > 0,
        ({
            let (row, col) = (p / m, p % m);
            let g = row / n;
            &&& 0 <= row < groups * n
            &&& 0 <= g < groups
            &&& 0 <= col < m
            &&& 0 <= row * d
            &&& row * d + d <= (groups * n) * d
            &&& 0 <= d * m <= groups * (d * m)
            &&& 0 <= (g * m + col) * d
            &&& (g * m + col) * d + d <= groups * (d * m)
            &&& 0 <= g * m
            &&& d > 0 ==> g * m + col <= (g * m + col) * d
            &&& g * m + col < groups * m
            &&& 0 <= g * (d * m)
            &&& d > 0 ==> g * (d * m) + col + (d - 1) * m < groups * (d * m)
            &&& d == 0 ==> g * (d * m) == 0
        }),
{
    assert(m > 0) by (nonlinear_arith)
        requires
            p < (groups * n) * m,
            p >= 0,
            m >= 0,
    ;
    crate::arith::lemma_index_join(p, groups * n, m);
    let (row, col) = (p / m, p % m);
    assert(n > 0 && groups > 0) by (nonlinear_arith)
        requires
            0 <= row < groups * n,
            n >= 0,
            groups >= 0,
    ;
    crate::arith::lemma_index_join(row, groups, n);
    let g = row / n;
    assert(row * d + d <= (groups * n) * d && 0 <= row * d) by (nonlinear_arith)
        requires
            0 <= row < groups * n,
            d >= 0,
    ;
    let e = g * m + col;
    crate::arith::lemma_index_bound(g, col, groups, m);
    assert(0 <= g * m) by (nonlinear_arith)
        requires
            g >= 0,
            m > 0,
    ;
    assert(e * d + d <= (groups * m) * d && 0 <= e * d && (d > 0 ==> e <= e * d))
        by (nonlinear_arith)
        requires
            0 <= e < groups * m,
            d >= 0,
    ;
    assert((groups * m) * d == groups * (d * m)) by (nonlinear_arith);
    assert(0 <= d * m <= groups * (d * m)) by (nonlinear_arith)
        requires
            d >= 0,
            m >= 0,
            groups >= 1,
    ;
    assert(0 <= g * (d * m) && (g + 1) * (d * m) <= groups * (d * m)) by (nonlinear_arith)
        requires
            0 <= g < groups,
            0 <= d * m,
    ;
    assert((g + 1) * (d * m) == g * (d * m) + (d - 1) * m + m) by (nonlinear_arith);
    if d == 0 {
        assert(g * (d * m) == 0) by (nonlinear_arith)
            requires
                d == 0,
        ;
    }
}

/// A row of `x` times a row of `weight`, plus the bias.
pub open spec fn linear_at<E: Element>(
    x: Tensor<E>,
    weight: Tensor<E>,
    bias: Option<Tensor<E>>,
    row: int,
    o: int,
) -> E {
    let width = x.dims@.last() as int;
    let sum = dot(x.data@, row * width, weight.data@, o * width, 1, width as nat);
    match bias {
        Some(b) => sum.spec_plus(b.data@[o]),
        None => sum,
    }
}

/// Rows of another width.
pub open spec fn rewidened(dims: Seq<usize>, width: usize) -> Seq<usize> {
    dims.update(dims.len() - 1, width)
}

/// What is behind a reference that may not be there.
pub open spec fn pointed<T>(o: Option<&T>) -> Option<T> {
    match o {
        Some(t) => Some(*t),
        None => None,
    }
}

/// Every row of `x` times every row of `weight`, plus the bias.
pub open spec fn is_linear<E: Element>(
    r: Tensor<E>,
    x: Tensor<E>,
    weight: Tensor<E>,
    bias: Option<Tensor<E>>,
) -> bool {
    &&& r.wf()
    &&& r.dims@ == rewidened(x.dims@, weight.dims@[0])
    &&& forall|row: int, o: int|
        0 <= row < product(x.dims@.take(x.dims@.len() - 1)) && 0 <= o < weight.dims@[0]
            ==> r.data@[row * weight.dims@[0] + o] == #[trigger] linear_at(x, weight, bias, row, o)
    &&& r.backend == x.backend
}

/// What a linear map hands back.
pub open spec fn linear_outcome<E: Element>(
    r: Result<Tensor<E>>,
    x: Tensor<E>,
    weight: Tensor<E>,
    bias: Option<Tensor<E>>,
) -> bool {
    if weight.dims@.len() != 2 || weight.dims@[1] != x.dims@.last() {
        r matches Err(e) && e.is_mismatch(x.dims@, weight.dims@, "matmul"@)
    } else if bias matches Some(b) && b.dims@ != seq![weight.dims@[0]] {
        r matches Err(e) && e.is_mismatch(
            rewidened(x.dims@, weight.dims@[0]),
            bias->Some_0.dims@,
            "broadcast_add"@,
        )
    } else {
        r matches Ok(t) && is_linear(t, x, weight, bias)
    }
}

/// Maps every row by a matrix of rows, and adds a bias.
pub fn linear<E: Element>(x: &Tensor<E>, weight: &Tensor<E>, bias: Option<&Tensor<E>>) -> (r:
    Result<Tensor<E>>)
    requires
        x.wf(),
        x.dims@.len() >= 1,
        weight.wf(),
        bias matches Some(b) ==> b.wf(),
        weight.dims@.len() == 2 ==> span(rewidened(x.dims@, weight.dims@[0])) <= usize::MAX,
    ensures
        linear_outcome(r, *x, *weight, pointed(bias)),
{
    let rank: usize = x.dims.len();
    let last: usize = rank - 1;
    let width: usize = x.dims[last];
    if weight.dims.len() != 2 || weight.dims[1] != width {
        return Err(
            Error::ShapeMismatchBinaryOp {
                lhs: copy_dims(x.dims.as_slice()),
                rhs: copy_dims(weight.dims.as_slice()),
                op: "matmul",
            },
        );
    }
    let out: usize = weight.dims[0];
    let mut dims: Vec<usize> = copy_dims(x.dims.as_slice());
    dims.set(last, out);
    assert(dims@ =~= rewidened(x.dims@, out));
    if let Some(b) = bias {
        if b.dims.len() != 1 || b.dims[0] != out {
            assert(b.dims@ != seq![out]);
            return Err(
                Error::ShapeMismatchBinaryOp {
                    lhs: dims,
                    rhs: copy_dims(b.dims.as_slice()),
                    op: "broadcast_add",
                },
            );
        }
        assert(b.dims@ =~= seq![out]);
    }
    let (rows, inner) = crate::tensor::outer_inner(x.dims.as_slice(), last);
    let total: usize = count(dims.as_slice());
    let ghost before = x.dims@.take(last as int);
    proof {
        crate::arith::lemma_product_split(x.dims@, last as int);
        crate::arith::lemma_product_update(x.dims@, last as int, out);
        assert(x.dims@.skip(last + 1) =~= Seq::<usize>::empty());
        assert(weight.dims@ =~= seq![out, width]);
        crate::arith::lemma_span_two(out, width);
        assert(width as nat * 1 == width) by (nonlinear_arith);
        assert(out as nat * 1 == out) by (nonlinear_arith);
        assert((1 * rows) * width == rows * width && 1 * (width * out) == out * width && (1 * rows)
            * out == rows * out && 1 * out == out) by (nonlinear_arith);
    }
    let plain: Vec<E> = cells(&x.data, &weight.data, 1, rows, out, width, true, total);
    let data: Vec<E> = match bias {
        Some(b) => {
            proof {
                assert(b.dims@.drop_first() =~= Seq::<usize>::empty());
                assert(out == 0 ==> rows * out == 0) by (nonlinear_arith);
                assert(plain@.len() == rows * out);
                assert(out as nat * product(Seq::<usize>::empty()) == out) by (nonlinear_arith)
                    requires
                        product(Seq::<usize>::empty()) == 1,
                ;
            }
            add_bias(plain, &b.data, out)
        },
        None => plain,
    };
    let r: Tensor<E> = Tensor { dims, data, is_variable: false, op: None, backend: x.backend };
    proof {
        assert forall|row: int, o: int| 0 <= row < rows && 0 <= o < out implies r.data@[row * out
            + o] == #[trigger] linear_at(*x, *weight, pointed(bias), row, o) by {
            let p = row * out + o;
            crate::arith::lemma_index_bound(row, o, rows as int, out as int);
            crate::arith::lemma_index_split(row, o, out as int);
            assert(row / rows as int == 0) by (nonlinear_arith)
                requires
                    0 <= row < rows,
            ;
            assert(0 * out + o == o);
            assert(p < total);
        }
    }
    Ok(r)
}

/// Adds a value to every column.
fn add_bias<E: Element>(x: Vec<E>, bias: &Vec<E>, width: usize) -> (r: Vec<E>)
    requires
        bias@.len() == width,
        width == 0 ==> x@.len() == 0,
    ensures
        r@.len() == x@.len(),
        forall|p: int|
            0 <= p < x@.len() ==> #[trigger] r@[p] == x@[p].spec_plus(
                bias@[p % width as int],
            ),
{
    let n: usize = x.len();
    let mut r: Vec<E> = Vec::with_capacity(n);
    let mut p: usize = 0;
    while p < n
        invariant
            p <= n,
            n == x@.len(),
            bias@.len() == width,
            n > 0 ==> width > 0,
            r@.len() == p,
            forall|q: int|
                0 <= q < p ==> #[trigger] r@[q] == x@[q].spec_plus(bias@[q % width as int]),
        decreases n - p,
    {
        r.push(x[p].plus(bias[p % width]));
        p = p + 1;
    }
    r
}

/// Every row of `q` times every row of `k`, head by head.
pub open spec fn is_scores<E: Element>(r: Tensor<E>, q: Tensor<E>, k: Tensor<E>) -> bool {
    let (b, h, n, m) = (q.dims@[0], q.dims@[1], q.dims@[2], k.dims@[2]);
    &&& r.wf()
    &&& r.dims@ == seq![b, h, n, m]
    &&& forall|a: int, g: int, i: int, j: int|
        0 <= a < b && 0 <= g < h && 0 <= i < n && 0 <= j < m ==> #[trigger] r.at4(a, g, i, j)
            == dot(
            q.data@,
            flat4(q.dims@, a, g, i, 0),
            k.data@,
            flat4(k.dims@, a, g, j, 0),
            1,
            q.dims@[3] as nat,
        )
    &&& r.backend == q.backend
}

/// Four extents with the last ones swapped.
pub open spec fn flipped_dims(dims: Seq<usize>) -> Seq<usize> {
    seq![dims[0], dims[1], dims[3], dims[2]]
}

/// `[batch, heads, n, d]` times the transpose of `[batch, heads, m, d]`; an error where the
/// extents do not fit.
pub fn scores<E: Element>(q: &Tensor<E>, k: &Tensor<E>) -> (r: Result<Tensor<E>>)
    requires
        q.wf(),
        k.wf(),
        q.dims@.len() == 4,
        k.dims@.len() == 4,
        span(seq![q.dims@[0], q.dims@[1], q.dims@[2], k.dims@[2]]) <= usize::MAX,
    ensures
        if q.dims@[0] != k.dims@[0] || q.dims@[1] != k.dims@[1] || q.dims@[3] != k.dims@[3] {
            r matches Err(e) && e.is_mismatch(q.dims@, flipped_dims(k.dims@), "matmul"@)
        } else {
            r matches Ok(t) && is_scores(t, *q, *k)
        },
{
    let (b, h, n, d) = (q.dims[0], q.dims[1], q.dims[2], q.dims[3]);
    let m: usize = k.dims[2];
    if k.dims[0] != b || k.dims[1] != h || k.dims[3] != d {
        let rhs: Vec<usize> = vec![k.dims[0], k.dims[1], k.dims[3], k.dims[2]];
        assert(rhs@ =~= flipped_dims(k.dims@));
        return Err(
            Error::ShapeMismatchBinaryOp { lhs: copy_dims(q.dims.as_slice()), rhs, op: "matmul" },
        );
    }
    let dims: Vec<usize> = vec![b, h, n, m];
    assert(dims@ =~= seq![b, h, n, m]);
    let total: usize = count(dims.as_slice());
    proof {
        lemma_product_four(q.dims@);
        lemma_product_four(k.dims@);
        lemma_product_four(dims@);
        lemma_groups(q.dims@);
        lemma_groups(k.dims@);
        let (b, h, n, m, d) = (b as int, h as int, n as int, m as int, d as int);
        assert(b * (h * (n * d)) == ((b * h) * n) * d) by (nonlinear_arith);
        assert(b * (h * (m * d)) == (b * h) * (d * m)) by (nonlinear_arith);
        assert(b * (h * (n * m)) == ((b * h) * n) * m) by (nonlinear_arith);
    }
    let data: Vec<E> = cells(&q.data, &k.data, b * h, n, m, d, true, total);
    let r: Tensor<E> = Tensor { dims, data, is_variable: false, op: None, backend: q.backend };
    proof {
        assert forall|a: int, g: int, i: int, j: int|
            0 <= a < b && 0 <= g < h && 0 <= i < n && 0 <= j < m implies #[trigger] r.at4(
            a,
            g,
            i,
            j,
        ) == dot(
            q.data@,
            flat4(q.dims@, a, g, i, 0),
            k.data@,
            flat4(k.dims@, a, g, j, 0),
            1,
            d as nat,
        ) by {
            lemma_at4_in_range(r.dims@, r.data@.len() as int, a, g, i, j);
            let row = (a * h + g) * n + i;
            crate::arith::lemma_index_split(row, j, m as int);
            crate::arith::lemma_index_split(a * h + g, i, n as int);
        }
    }
    Ok(r)
}

/// The rows of `v`, added up with the weights of each row of `w`, head by head.
pub open spec fn is_weighted<E: Element>(r: Tensor<E>, w: Tensor<E>, v: Tensor<E>) -> bool {
    let (b, h, n, d) = (w.dims@[0], w.dims@[1], w.dims@[2], v.dims@[3]);
    &&& r.wf()
    &&& r.dims@ == seq![b, h, n, d]
    &&& forall|a: int, g: int, i: int, c: int|
        0 <= a < b && 0 <= g < h && 0 <= i < n && 0 <= c < d ==> #[trigger] r.at4(a, g, i, c)
            == dot(
            w.data@,
            flat4(w.dims@, a, g, i, 0),
            v.data@,
            flat4(v.dims@, a, g, 0, c),
            d as int,
            w.dims@[3] as nat,
        )
    &&& r.backend == w.backend
}

/// `[batch, heads, n, m]` times `[batch, heads, m, d]`; an error where the extents do not fit.
pub fn weigh<E: Element>(w: &Tensor<E>, v: &Tensor<E>) -> (r: Result<Tensor<E>>)
    requires
        w.wf(),
        v.wf(),
        w.dims@.len() == 4,
        v.dims@.len() == 4,
        span(seq![w.dims@[0], w.dims@[1], w.dims@[2], v.dims@[3]]) <= usize::MAX,
    ensures
        if w.dims@[0] != v.dims@[0] || w.dims@[1] != v.dims@[1] || w.dims@[3] != v.dims@[2] {
            r matches Err(e) && e.is_mismatch(w.dims@, v.dims@, "matmul"@)
        } else {
            r matches Ok(t) && is_weighted(t, *w, *v)
        },
{
    let (b, h, n, m) = (w.dims[0], w.dims[1], w.dims[2], w.dims[3]);
    let d: usize = v.dims[3];
    if v.dims[0] != b || v.dims[1] != h || v.dims[2] != m {
        return Err(
            Error::ShapeMismatchBinaryOp {
                lhs: copy_dims(w.dims.as_slice()),
                rhs: copy_dims(v.dims.as_slice()),
                op: "matmul",
            },
        );
    }
    let dims: Vec<usize> = vec![b, h, n, d];
    assert(dims@ =~= seq![b, h, n, d]);
    let total: usize = count(dims.as_slice());
    proof {
        lemma_product_four(w.dims@);
        lemma_product_four(v.dims@);
        lemma_product_four(dims@);
        lemma_groups(w.dims@);
        lemma_groups(seq![b, h, d, n]);
        lemma_span_flip(b, h, n, d);
        let (b, h, n, m, d) = (b as int, h as int, n as int, m as int, d as int);
        assert(b * (h * (n * m)) == ((b * h) * n) * m) by (nonlinear_arith);
        assert(b * (h * (m * d)) == (b * h) * (m * d)) by (nonlinear_arith);
        assert(b * (h * (n * d)) == ((b * h) * n) * d) by (nonlinear_arith);
    }
    let data: Vec<E> = cells(&w.data, &v.data, b * h, n, d, m, false, total);
    let r: Tensor<E> = Tensor { dims, data, is_variable: false, op: None, backend: w.backend };
    proof {
        assert forall|a: int, g: int, i: int, c: int|
            0 <= a < b && 0 <= g < h && 0 <= i < n && 0 <= c < d implies #[trigger] r.at4(
            a,
            g,
            i,
            c,
        ) == dot(
            w.data@,
            flat4(w.dims@, a, g, i, 0),
            v.data@,
            flat4(v.dims@, a, g, 0, c),
            d as int,
            m as nat,
        ) by {
            lemma_at4_in_range(r.dims@, r.data@.len() as int, a, g, i, c);
            let head = a * h + g;
            let row = head * n + i;
            crate::arith::lemma_index_split(row, c, d as int);
            crate::arith::lemma_index_split(head, i, n as int);
            assert((head * m + 0) * d == head * (m * d)) by (nonlinear_arith);
        }
    }
    Ok(r)
}

/// The heads of a batch can be counted, and so can their rows.
proof fn lemma_groups(dims: Seq<usize>)
    requires
        dims.len() == 4,
    ensures
        dims[0] * dims[1] <= span(dims),
        (dims[0] * dims[1]) * dims[2] <= span(dims),
{
    crate::arith::lemma_prefix_fits(dims, 2);
    crate::arith::lemma_prefix_fits(dims, 3);
    assert(dims.take(2) =~= seq![dims[0], dims[1]]);
    assert(dims.take(3) =~= seq![dims[0], dims[1], dims[2]]);
    crate::arith::lemma_span_two(dims[0], dims[1]);
    crate::arith::lemma_span_three(dims[0], dims[1], dims[2]);
    assert(dims[0] * (dims[1] * dims[2]) == (dims[0] * dims[1]) * dims[2]) by (nonlinear_arith);
}

/// The span of four extents does not depend on the order of the last ones.
proof fn lemma_span_flip(a: usize, b: usize, c: usize, d: usize)
    ensures
        span(seq![a, b, c, d]) == span(seq![a, b, d, c]),
{
    let (s, t) = (seq![a, b, c, d], seq![a, b, d, c]);
    assert(s.drop_first() =~= seq![b, c, d]);
    assert(t.drop_first() =~= seq![b, d, c]);
    crate::arith::lemma_span_three(b, c, d);
    crate::arith::lemma_span_three(b, d, c);
    let (y, z) = (crate::arith::max_nat(c as nat, 1), crate::arith::max_nat(d as nat, 1));
    assert(y * z == z * y) by (nonlinear_arith);
}

/// Every element times a factor.
pub fn scaled<E: Element>(x: &Tensor<E>, factor: E) -> (r: Tensor<E>)
    requires
        x.wf(),
    ensures
        r.wf(),
        r.dims@ == x.dims@,
        forall|p: int|
            0 <= p < x.data@.len() ==> #[trigger] r.data@[p] == x.data@[p].spec_times(factor),
        r.backend == x.backend,
{
    let n: usize = x.data.len();
    let mut data: Vec<E> = Vec::with_capacity(n);
    let mut p: usize = 0;
    while p < n
        invariant
            p <= n,
            n == x.data@.len(),
            data@.len() == p,
            forall|q: int|
                0 <= q < p ==> #[trigger] data@[q] == x.data@[q].spec_times(factor),
        decreases n - p,
    {
        data.push(x.data[p].times(factor));
        p = p + 1;
    }
    Tensor {
        dims: copy_dims(x.dims.as_slice()),
        data,
        is_variable: false,
        op: None,
        backend: x.backend,
    }
}

/// A mask of `n` rows and `m` columns, for all heads of a batch of one or for all batches.
pub open spec fn is_plane(dims: Seq<usize>, n: usize, m: usize) -> bool {
    dims == seq![n, m] || dims == seq![1usize, 1usize, n, m]
}

/// What a mask adds to a score: nothing where a position is seen, `hidden` where it is not.
pub open spec fn penalty<E: Element>(visible: bool, hidden: E) -> E {
    if visible {
        E::spec_zero()
    } else {
        hidden
    }
}

/// The scores with what the mask adds to each.
pub open spec fn is_masked<E: Element>(
    r: Tensor<E>,
    x: Tensor<E>,
    mask: Tensor<bool>,
    hidden: E,
) -> bool {
    let (b, h, n, m) = (x.dims@[0], x.dims@[1], x.dims@[2], x.dims@[3]);
    &&& r.wf()
    &&& r.dims@ == x.dims@
    &&& forall|a: int, g: int, i: int, j: int|
        0 <= a < b && 0 <= g < h && 0 <= i < n && 0 <= j < m ==> #[trigger] r.at4(a, g, i, j)
            == x.at4(a, g, i, j).spec_plus(penalty(mask.data@[i * m + j], hidden))
    &&& r.backend == x.backend
}

/// Whether the extents are those of a mask of `n` rows and `m` columns.
fn plane_fits(dims: &Vec<usize>, n: usize, m: usize) -> (r: bool)
    ensures
        r == is_plane(dims@, n, m),
{
    let rank: usize = dims.len();
    if rank == 2 {
        assert(dims[0] == n && dims[1] == m ==> dims@ =~= seq![n, m]);
        dims[0] == n && dims[1] == m
    } else if rank == 4 {
        assert(dims[0] == 1 && dims[1] == 1 && dims[2] == n && dims[3] == m ==> dims@ =~= seq![
            1usize,
            1usize,
            n,
            m,
        ]);
        dims[0] == 1 && dims[1] == 1 && dims[2] == n && dims[3] == m
    } else {
        false
    }
}

/// Adds a mask to the scores of all heads; an error where it is one of other extents.
pub fn masked<E: Element>(x: &Tensor<E>, mask: &Tensor<bool>, hidden: E) -> (r: Result<Tensor<E>>)
    requires
        x.wf(),
        mask.wf(),
        x.dims@.len() == 4,
    ensures
        if !is_plane(mask.dims@, x.dims@[2], x.dims@[3]) {
            r matches Err(e) && e.is_mismatch(x.dims@, mask.dims@, "broadcast_add"@)
        } else {
            r matches Ok(t) && is_masked(t, *x, *mask, hidden)
        },
{
    let (n, m) = (x.dims[2], x.dims[3]);
    if !plane_fits(&mask.dims, n, m) {
        return Err(
            Error::ShapeMismatchBinaryOp {
                lhs: copy_dims(x.dims.as_slice()),
                rhs: copy_dims(mask.dims.as_slice()),
                op: "broadcast_add",
            },
        );
    }
    let total: usize = x.data.len();
    let plane: usize = mask.data.len();
    let ghost groups = x.dims@[0] * x.dims@[1];
    proof {
        lemma_plane_size(mask.dims@, n, m);
        lemma_product_four(x.dims@);
        let (b, h) = (x.dims@[0] as int, x.dims@[1] as int);
        assert(b * (h * (n * m)) == (b * h) * (n * m)) by (nonlinear_arith);
    }
    let mut data: Vec<E> = Vec::with_capacity(total);
    let mut p: usize = 0;
    while p < total
        invariant
            p <= total,
            total == x.data@.len(),
            total == groups * plane,
            plane == mask.data@.len(),
            data@.len() == p,
            forall|q: int|
                0 <= q < p ==> #[trigger] data@[q] == x.data@[q].spec_plus(
                    penalty(mask.data@[q % plane as int], hidden),
                ),
        decreases total - p,
    {
        assert(plane > 0) by (nonlinear_arith)
            requires
                p < groups * plane,
                plane >= 0,
                p >= 0,
        ;
        let add: E = if mask.data[p % plane] {
            E::zero()
        } else {
            hidden
        };
        data.push(x.data[p].plus(add));
        p = p + 1;
    }
    let r: Tensor<E> = Tensor {
        dims: copy_dims(x.dims.as_slice()),
        data,
        is_variable: false,
        op: None,
        backend: x.backend,
    };
    proof {
        let (b, h) = (x.dims@[0], x.dims@[1]);
        assert forall|a: int, g: int, i: int, j: int|
            0 <= a < b && 0 <= g < h && 0 <= i < n && 0 <= j < m implies #[trigger] r.at4(
            a,
            g,
            i,
            j,
        ) == x.at4(a, g, i, j).spec_plus(penalty(mask.data@[i * m + j], hidden)) by {
            lemma_at4_in_range(x.dims@, x.data@.len() as int, a, g, i, j);
            let (head, lo) = (a * h + g, i * m + j);
            crate::arith::lemma_index_bound(i, j, n as int, m as int);
            crate::arith::lemma_index_split(head, lo, plane as int);
            assert((head * n + i) * m + j == head * (n * m) + lo) by (nonlinear_arith)
                requires
                    lo == i * m + j,
            ;
        }
    }
    Ok(r)
}

/// A mask has as many elements as it has rows and columns.
proof fn lemma_plane_size(dims: Seq<usize>, n: usize, m: usize)
    requires
        is_plane(dims, n, m),
    ensures
        product(dims) == n * m,
{
    if dims == seq![n, m] {
        crate::arith::lemma_span_two(n, m);
    } else {
        lemma_product_four(dims);
        assert(1 * (1 * (n * m)) == n * m) by (nonlinear_arith);
    }
}

} // verus!
