//! The description of one kernel launch: which pipeline, what is bound to it, and how many
//! threads run it.

use crate::arith::{ceil_div, divide, min_int};
use vstd::prelude::*;

verus! {

/// The shader library that a kernel is compiled in.
#[derive(Debug, Clone, Copy, PartialEq, Eq, Structural)]
pub enum Source {
    Conv,
    Quantized,
    GatedDelta,
}

/// A three-dimensional extent of threads or of threadgroups.
#[derive(Debug, Clone, Copy, PartialEq, Eq, Structural)]
pub struct MTLSize {
    pub width: usize,
    pub height: usize,
    pub depth: usize,
}

/// What the launches need to know of a device.
#[derive(Debug, Clone, Copy, PartialEq, Eq, Structural)]
pub struct Device {
    /// Bytes of threadgroup memory that one threadgroup can have.
    pub max_threadgroup_memory_length: usize,
}

/// A buffer, read from a byte offset on.
#[derive(Debug)]
pub struct BufferOffset<B> {
    pub buffer: B,
    pub offset_in_bytes: usize,
}

/// One value bound to a kernel, in the order of the kernel's parameters.
#[derive(Debug)]
pub enum Arg<'a, B> {
    /// A buffer that the kernel reads, from a byte offset on.
    Input(B, usize),
    /// A buffer that the kernel writes, from a byte offset on.
    Output(B, usize),
    /// A 64-bit size.
    Size(usize),
    I32(i32),
    I64(i64),
    U32(u32),
    U64(u64),
    Bool(bool),
    /// Sizes, one after the other.
    Sizes(&'a [usize]),
    /// The quotient of two sizes, each rounded to a 32-bit float first, as a 32-bit float.
    Ratio(usize, usize),
    /// The 64-bit float with these bits, rounded to a 32-bit float.
    Narrowed(u64),
}

/// How many threads run a kernel.
#[derive(Debug, Clone, Copy, PartialEq, Eq, Structural)]
pub enum Dispatch {
    /// One thread for each of `length` elements, in threadgroups as large as the pipeline allows.
    Linear { length: usize },
    /// `count` threadgroups of `size` threads each.
    ThreadGroups { count: MTLSize, size: MTLSize },
    /// `grid` threads, cut into threadgroups of `group` threads.
    Threads { grid: MTLSize, group: MTLSize },
}

/// One kernel launch.
#[derive(Debug)]
pub struct Launch<'a, B> {
    pub source: Source,
    pub name: &'a str,
    pub args: Vec<Arg<'a, B>>,
    /// Bytes of threadgroup memory bound at index zero.
    pub threadgroup_memory: Option<usize>,
    pub dispatch: Dispatch,
}

impl<'a, B> Launch<'a, B> {
    /// What the launch amounts to.
    pub open spec fn encodes(
        &self,
        source: Source,
        name: Seq<char>,
        args: Seq<Arg<'a, B>>,
        threadgroup_memory: Option<usize>,
        dispatch: Dispatch,
    ) -> bool {
        &&& self.source == source
        &&& self.name@ == name
        &&& self.args@ == args
        &&& self.threadgroup_memory == threadgroup_memory
        &&& self.dispatch == dispatch
    }
}

/// A flat extent.
pub fn flat(width: usize) -> (r: MTLSize)
    ensures
        r == (MTLSize { width, height: 1, depth: 1 }),
{
    MTLSize { width, height: 1, depth: 1 }
}

/// Cuts `length` threads into threadgroups of as many threads as the pipeline allows, but no
/// more than there are. Gives the number of threadgroups and the size of one.
pub fn linear_split(max_threads_per_threadgroup: usize, length: usize) -> (r: (MTLSize, MTLSize))
    requires
        max_threads_per_threadgroup > 0,
        length > 0,
    ensures
        r.1.width == min_int(max_threads_per_threadgroup as int, length as int),
        r.0.width == ceil_div(length as int, r.1.width as int),
        r.0.height == 1 && r.0.depth == 1,
        r.1.height == 1 && r.1.depth == 1,
        (r.0.width - 1) * r.1.width < length <= r.0.width * r.1.width,
{
    let width: usize = if max_threads_per_threadgroup <= length {
        max_threads_per_threadgroup
    } else {
        length
    };
    proof {
        crate::arith::lemma_ceil_div_covers(length as int, width as int);
    }
    (flat(divide(length, width)), flat(width))
}

} // verus!
