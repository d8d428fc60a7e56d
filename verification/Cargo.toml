[package]
name = "alignment_circuits"
version = "0.1.0"
edition = "2021"
publish = false

[dependencies]
ark-ff = "0.4"
ark-std = "0.4"
ark-bls12-381 = "0.4"
ark-crypto-primitives = { version = "0.4", features = ["sponge", "r1cs", "snark"] }
ark-r1cs-std = "0.4"
ark-relations = "0.4"
ark-groth16 = "0.4"
rand = "0.8"
rand_chacha = "0.3"
tracing = "0.1"
tracing-subscriber = "0.2"
itertools = "*"
p3-baby-bear = "*"
p3-commit = "*"
p3-field = "*"
p3-matrix = "*"
p3-merkle-tree = "*"
p3-poseidon2 = "*"
p3-symmetric = "*"
