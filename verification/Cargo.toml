[package]
name = "archimedes"
version = "0.1.0"
edition = "2021"
publish = false

[dependencies]
ark-ed-on-bls12-381 = "0.4"
ark-ff = "0.4"
ark-serialize = "0.4"
ark-std = "0.4"
sha2 = "0.10"
serde = { version = "1", features = ["derive"] }
thiserror = "1"
