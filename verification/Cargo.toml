[package]
name = "parachain_service"
version = "0.1.0"
edition = "2021"
publish = false

[dependencies]
parity-scale-codec = { version = "=3.7.5", default-features = false, features = ["derive", "std"] }
bounded-collections = "=0.3.2"
blake2b_simd = "=1.0.5"
tiny-keccak = { version = "=2.0.2", features = ["keccak"] }
jam-types = "=0.1.29"
jam-pvm-common = { version = "=0.1.29", features = ["service"] }
jam-codec = "=0.1.1"
polkavm = "=0.37.0"
