[package]
name = "packmarlin"
version = "0.1.0"
edition = "2021"
publish = false

[dependencies]
ark-bls12-381 = "=0.3.0"
ark-circom = { version = "*", default-features = false }
ark-ff = "=0.3.0"
ark-marlin = "=0.3.0"
ark-poly = "=0.3.0"
ark-poly-commit = "=0.3.0"
ark-relations = "=0.3.0"
ark-serialize = "=0.3.0"
ark-std = "=0.3.0"
blake2 = "=0.9.2"
rand = "=0.8.8"
rand_chacha = "=0.3.1"
serde_json = "=1.0.154"
