//! Rotary position embedding of a part of each head.

use crate::arith::{product, span};
use crate::conv2d::{lemma_at4_in_range, lemma_product_four};
use crate::error::{Error, Refusal, Result};
use crate::shape::copy_dims;
use crate::tensor::{Backend, Signed, Tensor};
use crate::text::{decimal_text, push_decimal};
use vstd::prelude::*;
use vstd::string::*;

verus! {

/// The sines and cosines of the angles at each position, `[positions, rotary_dim / 2]`, and how
/// many elements of a head they turn.
#[derive(Debug)]
pub struct RotaryEmbedding<E> {
    pub sin: Tensor<E>,
    pub cos: Tensor<E>,
    pub rotary_dim: usize,
}

/// How many elements of a head can be turned: pairs of them, and no more than there are.
pub open spec fn rotatable(head_dim: usize, rotary_dim: usize) -> bool {
    0 < rotary_dim <= head_dim && rotary_dim % 2 == 0
}

/// Why elements of a head cannot be turned.
pub open spec fn rotary_text(head_dim: usize, rotary_dim: usize) -> Seq<char> {
    "invalid Qwen 3.5 rotary dimension "@ + decimal_text(rotary_dim as nat)
        + " for head dimension "@ + decimal_text(head_dim as nat)
}

/// Turns down rotary dimensions that a head does not have.
pub fn check_rotary_dim(head_dim: usize, rotary_dim: usize) -> (r: Result<()>)
    ensures
        if rotatable(head_dim, rotary_dim) {
            r is Ok
        } else {
            r matches Err(e) && e.says(rotary_text(head_dim, rotary_dim))
        },
{
    if rotary_dim == 0 || rotary_dim > head_dim || rotary_dim % 2 != 0 {
        let mut text: String = "invalid Qwen 3.5 rotary dimension ".to_owned();
        push_decimal(&mut text, rotary_dim);
        text.append(" for head dimension ");
        push_decimal(&mut text, head_dim);
        return Err(Error::Msg(text));
    }
    Ok(())
}

/// The pairs of a head: element `i` of the first half is turned together with element `i` of the
/// second half, and what is not turned stays.
pub open spec fn rotation<E: Signed>(
    x: spec_fn(int) -> E,
    cos: spec_fn(int) -> E,
    sin: spec_fn(int) -> E,
    half: int,
    i: int,
) -> E {
    if i < half {
        x(i).spec_times(cos(i)).spec_minus(x(i + half).spec_times(sin(i)))
    } else if i < 2 * half {
        x(i - half).spec_times(sin(i - half)).spec_plus(x(i).spec_times(cos(i - half)))
    } else {
        x(i)
    }
}

/// One head at one position.
pub open spec fn head_at<E>(x: Tensor<E>, b: int, h: int, t: int) -> spec_fn(int) -> E {
    |i: int| x.at4(b, h, t, i)
}

/// One row of a table.
pub open spec fn row_at<E>(table: Tensor<E>, p: int) -> spec_fn(int) -> E {
    |i: int| table.at2(p, i)
}

/// Why heads cannot be turned with `n` rows of the tables.
pub open spec fn rotation_refusal(x: Seq<usize>, rotary_dim: usize, n: usize) -> Option<Refusal> {
    if x.len() != 4 {
        Some(Refusal::Rank { expected: 4, got: x.len() as usize })
    } else if x[3] < rotary_dim {
        Some(Refusal::Range { dims: x, dim: 3, start: 0, len: rotary_dim })
    } else if x[2] > n {
        Some(
            Refusal::Shapes {
                left: x,
                right: seq![n, (rotary_dim as int / 2) as usize],
                op: "rope"@,
            },
        )
    } else {
        None
    }
}

impl<E: Signed> RotaryEmbedding<E> {
    /// The tables have a row for each position, and an entry for each pair.
    pub open spec fn wf(&self) -> bool {
        &&& self.rotary_dim > 0
        &&& self.rotary_dim % 2 == 0
        &&& self.sin.wf()
        &&& self.cos.wf()
        &&& self.sin.dims@ == self.cos.dims@
        &&& self.sin.dims@.len() == 2
        &&& self.sin.dims@[1] == self.rotary_dim as int / 2
    }

    /// How many positions there are.
    pub open spec fn positions(&self) -> usize {
        self.sin.dims@[0]
    }

    /// Tables of sines and cosines, row by row, for heads of a width; an error where the head
    /// does not have so many elements to turn.
    pub fn new(
        head_dim: usize,
        rotary_dim: usize,
        max_position_embeddings: usize,
        sin: Vec<E>,
        cos: Vec<E>,
        backend: Backend,
    ) -> (r: Result<Self>)
        requires
            span(seq![max_position_embeddings, (rotary_dim as int / 2) as usize]) <= usize::MAX,
        ensures
            ({
                let dims = seq![max_position_embeddings, (rotary_dim as int / 2) as usize];
                if !rotatable(head_dim, rotary_dim) {
                    r matches Err(e) && e.says(rotary_text(head_dim, rotary_dim))
                } else if sin@.len() != product(dims) {
                    r matches Err(e) && e.is_mismatch(seq![sin@.len() as usize], dims, "from_vec"@)
                } else if cos@.len() != product(dims) {
                    r matches Err(e) && e.is_mismatch(seq![cos@.len() as usize], dims, "from_vec"@)
                } else {
                    &&& r matches Ok(t)
                    &&& t.wf()
                    &&& t.rotary_dim == rotary_dim
                    &&& t.sin.dims@ == dims
                    &&& t.sin.data@ == sin@
                    &&& t.cos.data@ == cos@
                }
            }),
    {
        check_rotary_dim(head_dim, rotary_dim)?;
        let dims: Vec<usize> = vec![max_position_embeddings, rotary_dim / 2];
        assert(dims@ =~= seq![max_position_embeddings, (rotary_dim as int / 2) as usize]);
        let sin: Tensor<E> = Tensor::from_vec(sin, dims.as_slice(), backend)?;
        let cos: Tensor<E> = Tensor::from_vec(cos, dims.as_slice(), backend)?;
        Ok(RotaryEmbedding { sin, cos, rotary_dim })
    }

    /// `r` holds the heads of `x`, turned by the angles from position `offset` on.
    pub open spec fn is_rotated(&self, r: Tensor<E>, x: Tensor<E>, offset: usize) -> bool {
        &&& r.wf()
        &&& r.dims@ == x.dims@
        &&& r.backend == x.backend
        &&& forall|b: int, h: int, t: int, i: int|
            0 <= b < x.dims@[0] && 0 <= h < x.dims@[1] && 0 <= t < x.dims@[2] && 0 <= i
                < x.dims@[3] ==> #[trigger] r.at4(b, h, t, i) == rotation(
                head_at(x, b, h, t),
                row_at(self.cos, offset + t),
                row_at(self.sin, offset + t),
                self.rotary_dim as int / 2,
                i,
            )
    }

    /// Turns the heads of `x`, with `n` rows of the tables from `offset` on.
    fn rotate(&self, x: &Tensor<E>, offset: usize, n: usize) -> (r: Result<Tensor<E>>)
        requires
            self.wf(),
            x.wf(),
            offset + n <= self.positions(),
        ensures
            match rotation_refusal(x.dims@, self.rotary_dim, n) {
                Some(why) => r matches Err(e) && why.is(e),
                None => r matches Ok(t) && self.is_rotated(t, *x, offset),
            },
    {
        let (n0, n1, n2, n3) = x.dims4()?;
        let half: usize = self.rotary_dim / 2;
        if n3 < self.rotary_dim {
            return Err(
                Error::NarrowInvalidArgs {
                    shape: copy_dims(x.dims.as_slice()),
                    dim: 3,
                    start: 0,
                    len: self.rotary_dim,
                },
            );
        }
        if n2 > n {
            let rhs: Vec<usize> = vec![n, half];
            assert(rhs@ =~= seq![n, half]);
            return Err(
                Error::ShapeMismatchBinaryOp {
                    lhs: copy_dims(x.dims.as_slice()),
                    rhs,
                    op: "rope",
                },
            );
        }
        let total: usize = x.data.len();
        let mut data: Vec<E> = Vec::with_capacity(total);
        let mut p: usize = 0;
        proof {
            lemma_product_four(x.dims@);
            assert(n0 * (n1 * (n2 * n3)) == (n0 * n1) * (n2 * n3)) by (nonlinear_arith);
            assert(self.sin.dims@ =~= seq![self.sin.dims@[0], self.sin.dims@[1]]);
            crate::arith::lemma_span_two(self.sin.dims@[0], self.sin.dims@[1]);
        }
        while p < total
            invariant
                p <= total,
                total == x.data@.len(),
                total == (n0 * n1) * (n2 * n3),
                self.wf(),
                half == self.rotary_dim as int / 2,
                2 * half <= n3,
                n2 <= n,
                offset + n <= self.positions(),
                self.sin.data@.len() == self.positions() * half,
                self.cos.data@.len() == self.positions() * half,
                self.positions() * half <= usize::MAX,
                data@.len() == p,
                forall|q: int|
                    0 <= q < p ==> #[trigger] data@[q] == ({
                        let (o, t, i) = crate::tensor::split_index(q, n2 as int, n3 as int);
                        rotation(
                            flat_head(x.data@, (o * n2 + t) * n3),
                            row_at(self.cos, offset + t),
                            row_at(self.sin, offset + t),
                            half as int,
                            i,
                        )
                    }),
            decreases total - p,
        {
            proof {
                crate::tensor::lemma_join_index(p as int, n0 * n1, n2 as int, n3 as int);
            }
            let i: usize = p % n3;
            let t: usize = (p / n3) % n2;
            let ghost o = (p as int / n3 as int) / n2 as int;
            let ghost base = (o * n2 + t) * n3;
            if i < self.rotary_dim {
                let j: usize = if i < half {
                    i
                } else {
                    i - half
                };
                proof {
                    lemma_row(offset + t, j as int, self.positions() as int, half as int);
                    crate::tensor::lemma_index_in_range(
                        o,
                        t as int,
                        j as int,
                        n0 * n1,
                        n2 as int,
                        n3 as int,
                    );
                    crate::tensor::lemma_index_in_range(
                        o,
                        t as int,
                        j + half,
                        n0 * n1,
                        n2 as int,
                        n3 as int,
                    );
                }
                let cos: E = self.cos.data[(offset + t) * half + j];
                let sin: E = self.sin.data[(offset + t) * half + j];
                if i < half {
                    data.push(x.data[p].times(cos).minus(x.data[p + half].times(sin)));
                } else {
                    data.push(x.data[p - half].times(sin).plus(x.data[p].times(cos)));
                }
            } else {
                data.push(x.data[p]);
            }
            proof {
                assert(base + i == p);
            }
            p = p + 1;
        }
        let r: Tensor<E> = Tensor {
            dims: copy_dims(x.dims.as_slice()),
            data,
            is_variable: false,
            op: None,
            backend: x.backend,
        };
        proof {
            assert forall|b: int, h: int, t: int, i: int|
                0 <= b < n0 && 0 <= h < n1 && 0 <= t < n2 && 0 <= i < n3 implies #[trigger] r.at4(
                b,
                h,
                t,
                i,
            ) == rotation(
                head_at(*x, b, h, t),
                row_at(self.cos, offset + t),
                row_at(self.sin, offset + t),
                half as int,
                i,
            ) by {
                let o = b * n1 + h;
                let q = (o * n2 + t) * n3 + i;
                lemma_at4_in_range(x.dims@, total as int, b, h, t, i);
                crate::tensor::lemma_split_index(o, t, i, n2 as int, n3 as int);
                assert(r.data@[q] == rotation(
                    flat_head(x.data@, (o * n2 + t) * n3),
                    row_at(self.cos, offset + t),
                    row_at(self.sin, offset + t),
                    half as int,
                    i,
                ));
            }
        }
        Ok(r)
    }

    /// Turns queries and keys, the first of which is at position `offset`; an error where there
    /// are no such positions.
    pub fn apply(&self, q: &Tensor<E>, k: &Tensor<E>, offset: usize) -> (r: Result<
        (Tensor<E>, Tensor<E>),
    >)
        requires
            self.wf(),
            q.wf(),
            k.wf(),
        ensures
            if q.dims@.len() != 4 {
                r == Err::<(Tensor<E>, Tensor<E>), Error>(
                    Error::UnexpectedNumberOfDims { expected: 4, got: q.dims@.len() as usize },
                )
            } else if offset + q.dims@[2] > self.positions() {
                r matches Err(e) && e.is_out_of_range(self.cos.dims@, 0, offset, q.dims@[2])
            } else {
                match crate::error::first_of(
                    rotation_refusal(q.dims@, self.rotary_dim, q.dims@[2]),
                    rotation_refusal(k.dims@, self.rotary_dim, q.dims@[2]),
                ) {
                    Some(why) => r matches Err(e) && why.is(e),
                    None => r matches Ok(t) && self.is_rotated(t.0, *q, offset) && self.is_rotated(
                        t.1,
                        *k,
                        offset,
                    ),
                }
            },
    {
        let (_b, _h, seq_len, _d) = q.dims4()?;
        let positions: usize = self.cos.dims[0];
        if offset > positions || seq_len > positions - offset {
            return Err(
                Error::NarrowInvalidArgs {
                    shape: copy_dims(self.cos.dims.as_slice()),
                    dim: 0,
                    start: offset,
                    len: seq_len,
                },
            );
        }
        let q_embed: Tensor<E> = self.rotate(q, offset, seq_len)?;
        let k_embed: Tensor<E> = self.rotate(k, offset, seq_len)?;
        Ok((q_embed, k_embed))
    }
}

/// The elements from `base` on.
spec fn flat_head<E>(data: Seq<E>, base: int) -> spec_fn(int) -> E {
    |i: int| data[base + i]
}

/// An entry of a table is in range.
proof fn lemma_row(p: int, j: int, positions: int, half: int)
    requires
        0 <= p < positions,
        0 <= j < half,
    ensures
        0 <= p * half,
        0 <= p * half + j < positions * half,
{
    crate::arith::lemma_index_bound(p, j, positions, half);
    assert(0 <= p * half) by (nonlinear_arith)
        requires
            0 <= p,
            0 <= half,
    ;
}

/// How a position is turned depends on where it is, and not on where a call starts: heads at
/// position `p` are turned alike, whether they come at once or in two calls.
pub proof fn law_rotation_by_position<E: Signed>(
    rotary: RotaryEmbedding<E>,
    r1: Tensor<E>,
    x1: Tensor<E>,
    offset1: usize,
    t1: int,
    r2: Tensor<E>,
    x2: Tensor<E>,
    offset2: usize,
    t2: int,
    b: int,
    h: int,
    i: int,
)
    requires
        rotary.is_rotated(r1, x1, offset1),
        rotary.is_rotated(r2, x2, offset2),
        offset1 + t1 == offset2 + t2,
        0 <= t1 < x1.dims@[2],
        0 <= t2 < x2.dims@[2],
        0 <= b < x1.dims@[0],
        0 <= h < x1.dims@[1],
        0 <= i < x1.dims@[3],
        x2.dims@[0] == x1.dims@[0],
        x2.dims@[1] == x1.dims@[1],
        x2.dims@[3] == x1.dims@[3],
        forall|j: int| 0 <= j < x1.dims@[3] ==> x1.at4(b, h, t1, j) == #[trigger] x2.at4(b, h, t2, j),
        2 * (rotary.rotary_dim as int / 2) <= x1.dims@[3],
    ensures
        r1.at4(b, h, t1, i) == r2.at4(b, h, t2, i),
{
    let half = rotary.rotary_dim as int / 2;
    let j = if i < half {
        i + half
    } else {
        i - half
    };
    assert(x1.at4(b, h, t1, i) == x2.at4(b, h, t2, i));
    if i < 2 * half {
        assert(x1.at4(b, h, t1, j) == x2.at4(b, h, t2, j));
    }
}

/// Turning moves each element of the first half of what is turned together with the one as far into
/// the second half, by the angle of its pair, and no other: the two come out as they would of any head
/// that has the same two, and what is not turned stays as it is.
pub proof fn law_pairs_are_turned_alone<E: Signed>(
    rotary: RotaryEmbedding<E>,
    r1: Tensor<E>,
    x1: Tensor<E>,
    r2: Tensor<E>,
    x2: Tensor<E>,
    offset: usize,
    b: int,
    h: int,
    t: int,
    i: int,
)
    requires
        rotary.is_rotated(r1, x1, offset),
        rotary.is_rotated(r2, x2, offset),
        rotary.rotary_dim % 2 == 0,
        x2.dims@ == x1.dims@,
        0 <= b < x1.dims@[0],
        0 <= h < x1.dims@[1],
        0 <= t < x1.dims@[2],
        0 <= i < x1.dims@[3],
        rotary.rotary_dim <= x1.dims@[3],
        x1.at4(b, h, t, i) == x2.at4(b, h, t, i),
        i < rotary.rotary_dim / 2 ==> x1.at4(b, h, t, i + rotary.rotary_dim / 2) == x2.at4(
            b,
            h,
            t,
            i + rotary.rotary_dim / 2,
        ),
    ensures
        i >= rotary.rotary_dim ==> r1.at4(b, h, t, i) == x1.at4(b, h, t, i),
        i < rotary.rotary_dim / 2 ==> {
            let half = rotary.rotary_dim as int / 2;
            let (x, y) = (x1.at4(b, h, t, i), x1.at4(b, h, t, i + half));
            let (c, s) = (rotary.cos.at2(offset + t, i), rotary.sin.at2(offset + t, i));
            &&& r1.at4(b, h, t, i) == r2.at4(b, h, t, i)
            &&& r1.at4(b, h, t, i + half) == r2.at4(b, h, t, i + half)
            &&& r1.at4(b, h, t, i) == x.spec_times(c).spec_minus(y.spec_times(s))
            &&& r1.at4(b, h, t, i + half) == x.spec_times(s).spec_plus(y.spec_times(c))
        },
{
    let half = rotary.rotary_dim as int / 2;
    if i < half {
        // What is said of every element is said of these.
        let (first, second) = (r2.at4(b, h, t, i), r2.at4(b, h, t, i + half));
        let other = r1.at4(b, h, t, i + half);
    }
}

} // verus!
