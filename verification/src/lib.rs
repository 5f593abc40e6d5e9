//! Convolution lowering, quantized storage and kernel dispatch for tensors, with the loading and
//! caching rules of the models that are built on them.
//!
//! Everything here works on plain values: extents, byte offsets, buffers of bytes and elements of
//! any type. A kernel call is described by a `kernels::launch::Launch`, which whoever owns the
//! device encodes and runs.

pub mod adjoint;
pub mod adjoint2d;
pub mod arith;
pub mod calls;
pub mod conv;
pub mod conv2d;
pub mod conv_transpose;
pub mod dtype;
pub mod error;
pub mod exact;
pub mod gated_delta;
pub mod kernels;
pub mod models;
pub mod quantized;
pub mod shape;
pub mod tensor;
pub mod text;
pub mod transposed;
