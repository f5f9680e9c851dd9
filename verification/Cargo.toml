[package]
name = "circle_pcs"
version = "0.1.0"
edition = "2021"
publish = false

[dependencies]
p3-field = "*"
p3-mersenne-31 = "*"
p3-baby-bear = "*"
p3-challenger = "*"
p3-symmetric = "*"
p3-keccak = "*"
p3-merkle-tree = "*"
p3-commit = "*"
p3-matrix = "*"
p3-util = "*"
p3-dft = "*"
p3-mds = "*"
p3-poseidon2 = "*"
p3-air = "*"
serde = { version = "1", features = ["derive"] }
