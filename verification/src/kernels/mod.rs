//! What each compute kernel is launched with.

pub mod bindings;
pub mod convolution;
pub mod gated_delta;
pub mod launch;
pub mod names;
pub mod quantized;
pub mod windows;
