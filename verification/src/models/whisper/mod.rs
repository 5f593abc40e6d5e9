//! A speech model: an encoder of audio, and a decoder of text that can go on token by token.

pub mod attention;
pub mod checkpoint;
pub mod incremental;
pub mod model;
pub mod names;
pub mod qkv;
