[package]
name = "erasure_coding"
version = "0.1.0"
edition = "2021"
publish = false

[dependencies]
reed-solomon-erasure = { version = "=3.1.1", features = ["pure-rust"] }
parity-codec = "=3.5.4"
sp-trie = { version = "*", default-features = false }
sp-core = { version = "*", default-features = false }
