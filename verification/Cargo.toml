[package]
name = "snarkvm_state"
version = "0.1.0"
edition = "2021"
publish = false

[dependencies]
indexmap = "2"
bit-set = "0.5"
hex = "0.4"
blake2 = "0.10"
