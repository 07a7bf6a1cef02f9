[package]
name = "rusk_vm"
version = "0.1.0"
edition = "2021"
publish = false

[dependencies]
blake2b_simd = "=0.3.1"
wasmi = "=0.9.1"

[dev-dependencies]
dusk-varint = "=0.1.0"
