[package]
name = "sparta"
version = "0.1.0"
edition = "2021"
publish = false

[dependencies]
anyhow = "=1.0.104"
ark-bn254 = "=0.6.0"
ark-circom = "=0.6.0"
ark-crypto-primitives = "=0.6.0"
ark-groth16 = "=0.6.0"
ark-std = "=0.6.0"
curve25519-dalek = { version = "=4.1.3", features = ["rand_core"] }
merlin = "=3.0.0"
num-bigint = "=0.4.8"
rand = "=0.8.8"
serde = { version = "=1.0.229", features = ["derive"] }
serde_json = "=1.0.154"
spartan = "=0.9.0"

[dev-dependencies]
ark-ff = "=0.6.0"
r1cs-file = "=0.3.0"
wtns-file = "=0.1.5"
