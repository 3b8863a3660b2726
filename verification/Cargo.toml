[package]
name = "stack_maps"
version = "0.1.0"
edition = "2021"
publish = false

[dependencies]
smallvec = "=1.16.2"
cranelift-bitset = "=0.122.0"
