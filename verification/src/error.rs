//! Why an operation was refused.

use crate::dtype::DType;
use vstd::prelude::*;

verus! {

/// Why a kernel cannot be launched.
#[derive(Debug, PartialEq, Eq)]
pub enum MetalKernelError {
    /// No kernel is instantiated for the request.
    LoadFunctionError(String),
    /// The element type has no kernel for the operation.
    UnsupportedDTypeForOp(&'static str, &'static str),
    /// The arguments are outside what the kernel can be trusted with.
    InvalidInput(String),
}

impl MetalKernelError {
    /// This is the refusal of an element type for an operation.
    pub open spec fn is_unsupported(self, label: Seq<char>, op: Seq<char>) -> bool {
        self matches MetalKernelError::UnsupportedDTypeForOp(l, o) && l@ == label && o@ == op
    }

    /// This is the refusal of the arguments, for the reason given.
    pub open spec fn is_invalid(self, reason: Seq<char>) -> bool {
        self matches MetalKernelError::InvalidInput(text) && text@ == reason
    }

    /// This says that no kernel is instantiated, for the reason given.
    pub open spec fn is_missing(self, reason: Seq<char>) -> bool {
        self matches MetalKernelError::LoadFunctionError(text) && text@ == reason
    }
}

/// Why an operation was refused.
#[allow(inconsistent_fields)]
#[derive(Debug, PartialEq, Eq)]
pub enum Error {
    /// A shape of another rank was expected.
    UnexpectedNumberOfDims { expected: usize, got: usize },
    /// A tensor of another shape was expected.
    UnexpectedShape { msg: String, expected: Vec<usize>, got: Vec<usize> },
    /// There is no such dimension.
    DimOutOfRange { dim: isize, rank: usize },
    /// The operands' shapes do not fit together.
    ShapeMismatchBinaryOp { lhs: Vec<usize>, rhs: Vec<usize>, op: &'static str },
    /// The operands' element types are not the same.
    DTypeMismatchBinaryOp { lhs: DType, rhs: DType, op: &'static str },
    /// There are no such positions along the dimension.
    NarrowInvalidArgs { shape: Vec<usize>, dim: usize, start: usize, len: usize },
    /// The operands are on different devices.
    DeviceMismatchBinaryOp { op: &'static str },
    /// There is nothing to put together.
    OpRequiresAtLeastOneTensor { op: &'static str },
    /// The operands of a one-dimensional convolution do not fit together.
    Conv1dInvalidArgs {
        inp_shape: Vec<usize>,
        k_shape: Vec<usize>,
        padding: usize,
        stride: usize,
        msg: &'static str,
    },
    /// There is no such row.
    InvalidIndex { op: &'static str, index: usize, size: usize },
    /// The reason, in words.
    Msg(String),
    /// A kernel refused its arguments.
    Metal(MetalKernelError),
    /// The library was built without the Metal backend.
    NotCompiledWithMetalSupport,
    /// The library was built without the CUDA backend.
    NotCompiledWithCudaSupport,
}

impl Error {
    /// This is the refusal with the reason given.
    pub open spec fn says(self, reason: Seq<char>) -> bool {
        self matches Error::Msg(text) && text@ == reason
    }

    /// This says that the shapes do not fit for the operation.
    pub open spec fn is_mismatch(self, left: Seq<usize>, right: Seq<usize>, name: Seq<char>) -> bool {
        self matches Error::ShapeMismatchBinaryOp { lhs, rhs, op } && lhs@ == left && rhs@ == right
            && op@ == name
    }

    /// This says that a tensor of another shape was expected.
    pub open spec fn is_unexpected(
        self,
        text: Seq<char>,
        wanted: Seq<usize>,
        found: Seq<usize>,
    ) -> bool {
        self matches Error::UnexpectedShape { msg, expected, got } && msg@ == text && expected@
            == wanted && got@ == found
    }

    /// This says that the element types are not the same.
    pub open spec fn is_dtype_mismatch(self, left: DType, right: DType, name: Seq<char>) -> bool {
        self matches Error::DTypeMismatchBinaryOp { lhs, rhs, op } && lhs == left && rhs == right
            && op@ == name
    }

    /// This says that there are no such positions along the dimension.
    pub open spec fn is_out_of_range(
        self,
        dims: Seq<usize>,
        along: usize,
        from: usize,
        count: usize,
    ) -> bool {
        self matches Error::NarrowInvalidArgs { shape, dim, start, len } && shape@ == dims && dim
            == along && start == from && len == count
    }

    /// This says that there is no row `row` among `rows`.
    pub open spec fn is_beyond(self, row: int, rows: usize, name: Seq<char>) -> bool {
        self matches Error::InvalidIndex { op, index, size } && op@ == name && index == row && size
            == rows
    }

    /// This says that the operation was given nothing.
    pub open spec fn is_empty_list(self, name: Seq<char>) -> bool {
        self matches Error::OpRequiresAtLeastOneTensor { op } && op@ == name
    }
}

/// Why something is turned down, in contracts: an error by what it says.
pub ghost enum Refusal {
    /// A shape of another rank was expected.
    Rank { expected: usize, got: usize },
    /// A tensor of another shape was expected.
    Shape { msg: Seq<char>, wanted: Seq<usize>, found: Seq<usize> },
    /// The shapes do not fit together.
    Shapes { left: Seq<usize>, right: Seq<usize>, op: Seq<char> },
    /// The element types are not the same.
    DTypes { lhs: DType, rhs: DType, op: Seq<char> },
    /// There is no such dimension.
    Dim { at: isize, rank: usize },
    /// There are no such positions along the dimension.
    Range { dims: Seq<usize>, dim: usize, start: usize, len: usize },
    /// The reason, in words.
    Says(Seq<char>),
}

impl Refusal {
    /// The error that says so.
    pub open spec fn is(self, e: Error) -> bool {
        match self {
            Refusal::Rank { expected, got } => e == (Error::UnexpectedNumberOfDims {
                expected,
                got,
            }),
            Refusal::Shape { msg, wanted, found } => e.is_unexpected(msg, wanted, found),
            Refusal::Shapes { left, right, op } => e.is_mismatch(left, right, op),
            Refusal::DTypes { lhs, rhs, op } => e.is_dtype_mismatch(lhs, rhs, op),
            Refusal::Dim { at, rank } => e == (Error::DimOutOfRange { dim: at, rank }),
            Refusal::Range { dims, dim, start, len } => e.is_out_of_range(dims, dim, start, len),
            Refusal::Says(text) => e.says(text),
        }
    }
}

/// The first of two reasons that there is.
pub open spec fn first_of(a: Option<Refusal>, b: Option<Refusal>) -> Option<Refusal> {
    if a is Some {
        a
    } else {
        b
    }
}

/// Why there is no value, where there is none.
pub open spec fn refusal_of<T>(r: core::result::Result<T, Refusal>) -> Option<Refusal> {
    match r {
        Ok(_) => None,
        Err(why) => Some(why),
    }
}

/// `r` is a value, or an error that says why there is none.
pub open spec fn agrees<T>(r: Result<T>, expected: core::result::Result<T, Refusal>) -> bool {
    match expected {
        Ok(value) => r == Ok::<T, Error>(value),
        Err(why) => r matches Err(e) && why.is(e),
    }
}

/// What an operation hands back.
pub type Result<T> = core::result::Result<T, Error>;

} // verus!
