//! Shapes, and how a shape is laid out in a buffer.

use crate::arith::{product, span};
use crate::error::{Error, Result};
use crate::text::{decimal_text, list, list_text, push_decimal};
use vstd::prelude::*;
use vstd::string::*;

verus! {

/// A dimension counted from the end.
#[derive(Debug, Clone, Copy, PartialEq, Eq, Structural)]
pub enum D {
    Minus1,
    Minus2,
}

impl D {
    /// How far from the end the dimension lies.
    pub open spec fn back(self) -> nat {
        match self {
            D::Minus1 => 1,
            D::Minus2 => 2,
        }
    }
}

/// The extents of a tensor, outermost first.
#[derive(Debug)]
pub struct Shape {
    pub dims: Vec<usize>,
}

impl View for Shape {
    type V = Seq<usize>;

    open spec fn view(&self) -> Seq<usize> {
        self.dims@
    }
}

/// The number of elements between neighbours along each dimension of a densely packed shape.
pub open spec fn dense_stride(dims: Seq<usize>) -> Seq<nat> {
    Seq::new(dims.len(), |i: int| product(dims.skip(i + 1)))
}

impl Shape {
    /// The extents can be multiplied in any order without leaving a machine word.
    pub open spec fn wf(&self) -> bool {
        span(self@) <= usize::MAX
    }

    /// A shape with the given extents.
    pub fn from_dims(dims: &[usize]) -> (r: Shape)
        ensures
            r@ == dims@,
    {
        Shape { dims: copy_dims(dims) }
    }

    /// The number of dimensions.
    pub fn rank(&self) -> (r: usize)
        ensures
            r == self@.len(),
    {
        self.dims.len()
    }

    /// The extents, outermost first.
    pub fn dims(&self) -> (r: &[usize])
        ensures
            r@ == self@,
    {
        self.dims.as_slice()
    }

    /// The number of elements.
    pub fn elem_count(&self) -> (r: usize)
        requires
            self.wf(),
        ensures
            r == product(self@),
    {
        count(self.dims.as_slice())
    }

    /// The extent of a dimension counted from the end; an error where the rank is too small.
    pub fn dim(&self, d: D) -> (r: Result<usize>)
        ensures
            match r {
                Ok(n) => d.back() <= self@.len() && n == self@[self@.len() - d.back()],
                Err(e) => d.back() > self@.len() && e == (Error::DimOutOfRange {
                    dim: -(d.back() as int) as isize,
                    rank: self@.len() as usize,
                }),
            },
    {
        let rank: usize = self.dims.len();
        let back: usize = match d {
            D::Minus1 => 1,
            D::Minus2 => 2,
        };
        if back <= rank {
            Ok(self.dims[rank - back])
        } else {
            let dim: isize = match d {
                D::Minus1 => -1,
                D::Minus2 => -2,
            };
            Err(Error::DimOutOfRange { dim, rank })
        }
    }

    /// The two extents; an error for any other rank.
    pub fn dims2(&self) -> (r: Result<(usize, usize)>)
        ensures
            match r {
                Ok(t) => self@ == seq![t.0, t.1],
                Err(e) => self@.len() != 2 && e == (Error::UnexpectedNumberOfDims {
                    expected: 2,
                    got: self@.len() as usize,
                }),
            },
    {
        if self.dims.len() == 2 {
            let t: (usize, usize) = (self.dims[0], self.dims[1]);
            assert(self@ =~= seq![t.0, t.1]);
            Ok(t)
        } else {
            Err(Error::UnexpectedNumberOfDims { expected: 2, got: self.dims.len() })
        }
    }

    /// The three extents; an error for any other rank.
    pub fn dims3(&self) -> (r: Result<(usize, usize, usize)>)
        ensures
            match r {
                Ok(t) => self@ == seq![t.0, t.1, t.2],
                Err(e) => self@.len() != 3 && e == (Error::UnexpectedNumberOfDims {
                    expected: 3,
                    got: self@.len() as usize,
                }),
            },
    {
        if self.dims.len() == 3 {
            let t: (usize, usize, usize) = (self.dims[0], self.dims[1], self.dims[2]);
            assert(self@ =~= seq![t.0, t.1, t.2]);
            Ok(t)
        } else {
            Err(Error::UnexpectedNumberOfDims { expected: 3, got: self.dims.len() })
        }
    }

    /// The four extents; an error for any other rank.
    pub fn dims4(&self) -> (r: Result<(usize, usize, usize, usize)>)
        ensures
            match r {
                Ok(t) => self@ == seq![t.0, t.1, t.2, t.3],
                Err(e) => self@.len() != 4 && e == (Error::UnexpectedNumberOfDims {
                    expected: 4,
                    got: self@.len() as usize,
                }),
            },
    {
        if self.dims.len() == 4 {
            let t: (usize, usize, usize, usize) = (
                self.dims[0],
                self.dims[1],
                self.dims[2],
                self.dims[3],
            );
            assert(self@ =~= seq![t.0, t.1, t.2, t.3]);
            Ok(t)
        } else {
            Err(Error::UnexpectedNumberOfDims { expected: 4, got: self.dims.len() })
        }
    }

    /// The strides of this shape when it is densely packed.
    pub fn stride_contiguous(&self) -> (r: Vec<usize>)
        requires
            self.wf(),
        ensures
            r@.len() == self@.len(),
            forall|i: int| 0 <= i < r@.len() ==> #[trigger] r@[i] as nat == dense_stride(self@)[i],
    {
        let n: usize = self.dims.len();
        let mut r: Vec<usize> = Vec::new();
        let mut j: usize = 0;
        while j < n
            invariant
                j <= n,
                n == self.dims.len(),
                r@.len() == j,
                forall|i: int| 0 <= i < j ==> #[trigger] r@[i] as nat == 0,
            decreases n - j,
        {
            r.push(0);
            j = j + 1;
        }
        let mut acc: usize = 1;
        let mut i: usize = n;
        assert(self@.skip(n as int) =~= Seq::<usize>::empty());
        while i > 0
            invariant
                i <= n,
                n == self.dims.len(),
                r@.len() == n,
                self.wf(),
                acc == product(self@.skip(i as int)),
                forall|m: int| i <= m < n ==> #[trigger] r@[m] as nat == dense_stride(self@)[m],
            decreases i,
        {
            i = i - 1;
            r.set(i, acc);
            proof {
                crate::arith::lemma_product_suffix_step(self@, i as int);
                crate::arith::lemma_suffix_fits(self@, i as int);
            }
            assert(acc as nat * self@[i as int] as nat == product(self@.skip(i as int)))
                by (nonlinear_arith)
                requires
                    product(self@.skip(i as int)) == self@[i as int] as nat * product(
                        self@.skip(i + 1),
                    ),
                    acc == product(self@.skip(i + 1)),
            ;
            acc = acc * self.dims[i];
        }
        r
    }
}

/// A copy of `dims`.
pub fn copy_dims(dims: &[usize]) -> (r: Vec<usize>)
    ensures
        r@ == dims@,
{
    let mut r: Vec<usize> = Vec::new();
    let mut i: usize = 0;
    while i < dims.len()
        invariant
            i <= dims.len(),
            r@ == dims@.take(i as int),
        decreases dims.len() - i,
    {
        r.push(dims[i]);
        assert(dims@.take(i as int + 1) =~= dims@.take(i as int).push(dims@[i as int]));
        i = i + 1;
    }
    assert(dims@.take(dims.len() as int) =~= dims@);
    r
}

/// The product of the extents.
pub fn count(dims: &[usize]) -> (r: usize)
    requires
        span(dims@) <= usize::MAX,
    ensures
        r == product(dims@),
{
    let mut acc: usize = 1;
    let mut i: usize = dims.len();
    assert(dims@.skip(dims.len() as int) =~= Seq::<usize>::empty());
    while i > 0
        invariant
            i <= dims.len(),
            span(dims@) <= usize::MAX,
            acc == product(dims@.skip(i as int)),
        decreases i,
    {
        i = i - 1;
        proof {
            crate::arith::lemma_product_suffix_step(dims@, i as int);
            crate::arith::lemma_suffix_fits(dims@, i as int);
        }
        assert(acc as nat * dims@[i as int] as nat == product(dims@.skip(i as int)))
            by (nonlinear_arith)
            requires
                product(dims@.skip(i as int)) == dims@[i as int] as nat * product(
                    dims@.skip(i + 1),
                ),
                acc == product(dims@.skip(i + 1)),
        ;
        acc = acc * dims[i];
    }
    assert(dims@.skip(0) =~= dims@);
    acc
}

/// Where the elements of a shape lie in a buffer: element `index` is at
/// `start_offset + sum(index[i] * stride[i])`.
#[derive(Debug)]
pub struct Layout {
    pub shape: Shape,
    pub stride: Vec<usize>,
    pub start_offset: usize,
}

impl Layout {
    /// The layout's shape can be counted.
    pub open spec fn wf(&self) -> bool {
        self.shape.wf()
    }

    /// The elements lie densely packed in row-major order. The stride of a dimension with at most
    /// one element is never followed, so it may be anything.
    pub open spec fn dense(&self) -> bool {
        &&& self.stride@.len() == self.shape@.len()
        &&& forall|i: int|
            0 <= i < self.shape@.len() && self.shape@[i] > 1 ==> (#[trigger] self.stride@[i]) as nat
                == dense_stride(self.shape@)[i]
    }

    /// The densely packed layout of a shape, from the start of the buffer.
    pub fn contiguous(shape: Shape) -> (r: Layout)
        requires
            shape.wf(),
        ensures
            r.shape@ == shape@,
            r.dense(),
            r.start_offset == 0,
            r.stride@.len() == shape@.len(),
            forall|i: int|
                0 <= i < shape@.len() ==> #[trigger] r.stride@[i] as nat == dense_stride(shape@)[i],
    {
        let stride: Vec<usize> = shape.stride_contiguous();
        Layout { shape, stride, start_offset: 0 }
    }

    /// The layout in words.
    pub open spec fn text(&self) -> Seq<char> {
        "Layout { shape: "@ + list_text(self.shape@) + ", stride: "@ + list_text(self.stride@)
            + ", start_offset: "@ + decimal_text(self.start_offset as nat) + " }"@
    }

    /// Puts the layout in words.
    pub fn describe(&self) -> (r: String)
        ensures
            r@ == self.text(),
    {
        let mut text: String = "Layout { shape: ".to_owned();
        text.append(list(self.shape.dims()).as_str());
        text.append(", stride: ");
        text.append(list(self.stride.as_slice()).as_str());
        text.append(", start_offset: ");
        push_decimal(&mut text, self.start_offset);
        text.append(" }");
        text
    }

    /// The layout's shape.
    pub fn shape(&self) -> (r: &Shape)
        ensures
            *r == self.shape,
    {
        &self.shape
    }

    /// The extents, outermost first.
    pub fn dims(&self) -> (r: &[usize])
        ensures
            r@ == self.shape@,
    {
        self.shape.dims()
    }

    /// The strides, outermost first.
    pub fn stride(&self) -> (r: &[usize])
        ensures
            r@ == self.stride@,
    {
        self.stride.as_slice()
    }

    /// The element at which the layout starts.
    pub fn start_offset(&self) -> (r: usize)
        ensures
            r == self.start_offset,
    {
        self.start_offset
    }

    /// Whether the elements lie densely packed in row-major order.
    pub fn is_contiguous(&self) -> (r: bool)
        requires
            self.wf(),
        ensures
            r == self.dense(),
    {
        let n: usize = self.shape.rank();
        if self.stride.len() != n {
            return false;
        }
        let mut acc: usize = 1;
        let mut i: usize = n;
        assert(self.shape@.skip(n as int) =~= Seq::<usize>::empty());
        while i > 0
            invariant
                i <= n,
                n == self.shape@.len(),
                self.stride@.len() == n,
                self.wf(),
                acc == product(self.shape@.skip(i as int)),
                forall|m: int|
                    i <= m < n && self.shape@[m] > 1 ==> (#[trigger] self.stride@[m]) as nat
                        == dense_stride(self.shape@)[m],
            decreases i,
        {
            i = i - 1;
            if self.shape.dims[i] > 1 && self.stride[i] != acc {
                assert(dense_stride(self.shape@)[i as int] == acc);
                return false;
            }
            proof {
                crate::arith::lemma_product_suffix_step(self.shape@, i as int);
                crate::arith::lemma_suffix_fits(self.shape@, i as int);
            }
            assert(acc as nat * self.shape@[i as int] as nat == product(
                self.shape@.skip(i as int),
            )) by (nonlinear_arith)
                requires
                    product(self.shape@.skip(i as int)) == self.shape@[i as int] as nat * product(
                        self.shape@.skip(i + 1),
                    ),
                    acc == product(self.shape@.skip(i + 1)),
            ;
            acc = acc * self.shape.dims[i];
        }
        true
    }
}

} // verus!
