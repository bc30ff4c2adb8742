[package]
name = "smt_commit"
version = "0.1.0"
edition = "2021"
publish = false

[dependencies]
sparse-merkle-tree = { version = "*", features = ["blake2b"] }
ethereum-types = "*"
ckb-types = "*"
