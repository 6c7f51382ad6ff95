[package]
name = "set_genome"
version = "0.1.0"
edition = "2021"
publish = false

[dependencies]
rand = { version = "*", features = ["small_rng"] }
seahash = "*"
serde = { version = "*", features = ["derive"] }
