[package]
name = "tfhe"
version = "0.1.0"
edition = "2021"
publish = false

[dependencies]
concrete-csprng = { version = "*", default-features = false, features = ["generator_soft"] }
rayon = "*"
serde = { version = "*", features = ["derive"] }
