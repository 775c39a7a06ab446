[package]
name = "chutoro"
version = "0.1.0"
edition = "2021"
publish = false

[dependencies]
rand = { version = "0.8", features = ["small_rng"] }
rayon = "1"
serde = { version = "1", features = ["derive"] }
quick-xml = { version = "*", features = ["serialize"] }
rmp-serde = "1"
pyo3 = "0.22"
