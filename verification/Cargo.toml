[package]
name = "candle"
version = "0.1.0"
edition = "2021"
publish = false

[dependencies]
half = "2"
objc2-metal = { version = "0.3", default-features = false, features = ["std", "MTLTypes", "MTLDevice", "MTLBuffer", "MTLResource", "MTLAllocation", "MTLCommandEncoder", "MTLComputeCommandEncoder", "MTLComputePipeline"] }
tracing = "0.1"
