//! Models.

pub mod embedding;
pub mod heads;
pub mod parts;
pub mod products;
pub mod qwen3_5;
pub mod state;
pub mod whisper;
