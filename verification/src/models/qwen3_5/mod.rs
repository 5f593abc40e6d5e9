//! A model that mixes full attention and gated delta networks, with quantized weights.

pub mod attention;
pub mod config;
pub mod delta;
pub mod experts;
pub mod ffn;
pub mod gguf;
pub mod layer;
pub mod model;
pub mod moe;
pub mod names;
pub mod prefill;
pub mod repeat;
pub mod rotary;
pub mod route;
pub mod routing;
pub mod scores;
pub mod state;
